//! What the daemon decides: commands, modes, routing and supervision.

pub mod auto;
pub mod bindings;
pub mod buttons;
pub mod capture;
pub mod control;
pub mod focus;
pub mod inspect;
pub mod keys;
pub mod modes;
pub mod pidfile;
pub mod routing;
pub mod runtime;
pub mod service;
pub mod setup;
pub mod startup;
pub mod tablets;
pub mod wait;
pub mod watchdog;
