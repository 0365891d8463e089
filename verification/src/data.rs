//! Durable data records consumed by the authentication and dispatch
//! paths: user records with access rules, and full credentials.

pub mod credentials;
pub mod users;
