//! A distributed HTTP rate-limiting gateway: route matching, rule snapshots,
//! and the five atomic limiter algorithms run against a shared counter store.

pub mod admin;
pub mod counter_store;
pub mod errors;
pub mod handler;
pub mod matcher;
pub mod rate_limiter;
pub mod rules;
pub mod snapshot;
pub mod text;
pub mod utils;
