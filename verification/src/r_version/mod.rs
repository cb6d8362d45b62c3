//! Versions of R on this machine.

pub mod detector;
pub mod manager;
