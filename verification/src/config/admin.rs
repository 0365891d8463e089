//! Configuration of the administrative service.

use vstd::prelude::*;

verus! {

/// Configuration of the administrative service.
#[derive(Clone, Debug)]
pub struct AdminConfig {
    pub expose: ExposeConfig,
    pub redis: RedisConfig,
    pub security: SecurityConfig,
    pub file_system: FsConfig,
}

/// The sockets the administrative service listens on.
#[derive(Clone, Debug)]
pub struct ExposeConfig {
    pub sockets: Vec<String>,
}

/// The session store and the authentication caches it feeds.
#[derive(Clone, Debug)]
pub struct RedisConfig {
    pub session: String,
    pub auth: Vec<String>,
}

/// Security settings of the administrative service.
#[derive(Clone, Debug)]
pub struct SecurityConfig {
    pub password_secret: String,
}

/// Where the administrative service finds its durable records.
#[derive(Clone, Debug)]
pub struct FsConfig {
    pub users: String,
    pub requests: String,
}

} // verus!
