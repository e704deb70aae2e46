//! The filter pipeline's choices and bookkeeping that are not arithmetic.

pub mod average;
pub mod pipeline;
pub mod pressure;
pub mod scroll;
pub mod snap;
