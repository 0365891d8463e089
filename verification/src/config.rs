//! Configuration of the authentication service and its collaborators.
//! These are plain values: the surrounding program parses them from its
//! configuration files and hands them in at construction time.

pub mod admin;
pub mod auth;
pub mod backend;
pub mod background;
pub mod parts;

use vstd::prelude::*;

verus! {

/// Configuration of the authentication service.
#[derive(Clone, Debug)]
pub struct Config {
    pub minauth: MinAuthConfig,
    pub mysql: MySQLConfig,
    pub redis: RedisConfig,
}

/// The service's own settings.
#[derive(Clone, Debug)]
pub struct MinAuthConfig {
    pub hostname: String,
    pub password_secret: String,
    pub tickets_dir: String,
    pub requests_dir: String,
}

/// Connection settings of the durable credential store.
#[derive(Clone, Debug)]
pub struct MySQLConfig {
    pub hostname: String,
    pub port: u16,
    pub username: String,
    pub password: String,
    pub database: String,
}

/// Connection settings of the credential cache, with the lifetime given
/// to cached entries.
#[derive(Clone, Debug)]
pub struct RedisConfig {
    pub uri: String,
    pub lifetime: u64,
}

/// Configuration of the request-recording web service.
#[derive(Clone, Debug)]
pub struct WebConfig {
    pub requests_dir: String,
}

/// Configuration of the background dispatcher: the worker pool size and
/// the directories it reads requests from and materializes workspaces
/// into.
#[derive(Clone, Debug)]
pub struct BackgroundConfig {
    pub workers: u32,
    pub requests_dir: String,
    pub workspace_dir: String,
}

} // verus!
