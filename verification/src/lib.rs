//! The logic of StabMouse: configuration, mode switching, routing and supervision.

pub mod canvas;
pub mod cli;
pub mod config;
pub mod daemon;
pub mod desktop;
pub mod dict;
pub mod filter;
pub mod text;
