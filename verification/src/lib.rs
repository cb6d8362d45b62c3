//! Project logic of `uvr`, a package manager for R.

pub mod commands;
pub mod dcf;
pub mod error;
pub mod http;
pub mod installer;
pub mod lockfile;
pub mod manifest;
pub mod os_release;
pub mod package_name;
pub mod r_env;
pub mod r_version;
pub mod registry;
pub mod resolver;
pub mod strings;
pub mod strmap;
pub mod subdirectory;
pub mod text;
pub mod url;
