//! `uvr r`.

pub mod list;
pub mod pin;
