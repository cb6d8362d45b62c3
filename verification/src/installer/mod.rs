//! What goes into installing a package.

pub mod tar_compat;
