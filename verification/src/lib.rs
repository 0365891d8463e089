//! A minimal authentication service core: credential verification with a
//! read-through cache, per-service access rules, a transactional request
//! dispatcher with deterministic worker assignment, and a base-N identifier
//! generator.

pub mod base35;
pub mod base58;
pub mod cache;
pub mod config;
pub mod credentials;
pub mod data;
pub mod dispatch;
pub mod error;
pub mod genid;
pub mod radix;
pub mod requests;
pub mod text;
pub mod threadid;
pub mod users;
pub mod utils;
