//! Configuration of the background dispatcher service.

use vstd::prelude::*;

verus! {

/// Configuration of the background dispatcher service.
#[derive(Clone, Debug)]
pub struct Config {
    pub background: BgConfig,
    pub file_system: FsConfig,
}

/// Where the dispatcher answers health and trigger calls.
#[derive(Clone, Debug)]
pub struct DispatcherConfig {
    pub expose: String,
}

/// The size of the worker pool.
#[derive(Clone, Debug)]
pub struct BgConfig {
    pub workers: usize,
}

/// Where the dispatcher finds users and requests and materializes
/// workspaces.
#[derive(Clone, Debug)]
pub struct FsConfig {
    pub users: String,
    pub requests: String,
    pub workspace: String,
}

} // verus!
