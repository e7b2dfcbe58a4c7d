//! Gateway-API-style HTTP routing core: a JSON-driven configuration model
//! with a validator, a two-tier director (hostname tier, then per-vhost
//! route-matching tier), a refcounted backend pool, a request/response
//! filter pipeline, and the pure decision logic behind atomic hot reload.

pub mod backend_pool;
pub mod config;
pub mod director;
pub mod format;
pub mod forwarding;
pub mod internal_error_backend;
pub mod laws;
pub mod loader;
pub mod not_found_backend;
pub mod redirect_backend;
pub mod rex;
pub mod rng;
pub mod routing;
pub mod stats;
pub mod strutil;
pub mod vhost_director;
