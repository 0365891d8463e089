//! Configuration of the authentication front end.

use vstd::prelude::*;
use crate::config::parts::{ExposeConfig, SecurityConfig};

verus! {

/// Configuration of the authentication front end: where it listens,
/// where its backing store listens, and its security settings.
#[derive(Clone, Debug)]
pub struct AuthConfig {
    pub expose: ExposeConfig,
    pub backend: ExposeConfig,
    pub security: SecurityConfig,
}

} // verus!
