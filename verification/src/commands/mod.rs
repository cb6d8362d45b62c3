//! What the commands compute.

pub mod activate;
pub mod r_cmd;
pub mod shell_model;
