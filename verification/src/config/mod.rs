//! Configuration: what is on disk, and how devices inherit it.

pub mod assemble;
pub mod cascade;
pub mod catalog;
pub mod edit;
pub mod error;
pub mod schema;
pub mod store;
pub mod value;
