//! Configuration fragments shared by several services.

use vstd::prelude::*;

verus! {

/// The socket addresses a service listens on.
#[derive(Clone, Debug)]
pub struct ExposeConfig {
    pub addrs: Vec<String>,
}

/// Security settings shared by the services.
#[derive(Clone, Debug)]
pub struct SecurityConfig {
    pub password_salt: String,
}

/// Where a service finds its durable records.
#[derive(Clone, Debug)]
pub struct FsConfig {
    pub users: String,
    pub requests: String,
}

} // verus!
