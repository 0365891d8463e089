//! Assorted helpers shared by the services: the password digest and the
//! base-35 identifier generator.

pub mod genid;

pub use crate::credentials::get_hash;
