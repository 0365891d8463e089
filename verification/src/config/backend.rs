//! Configuration of the backend service.

use vstd::prelude::*;
use crate::config::parts::{ExposeConfig, FsConfig};

verus! {

/// Configuration of the backend service.
#[derive(Clone, Debug)]
pub struct BackendConfig {
    pub expose: ExposeConfig,
    pub file_system: FsConfig,
}

} // verus!
