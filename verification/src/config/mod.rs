//! Configuration.
//!
//! `types` holds the data structures and the checks made once a
//! configuration has been loaded; reading files and the environment is left to
//! the application around the library.

pub mod env_file;
pub mod types;
