//! A scoped, auditable proxy for the UniFi Network Integration API.
//!
//! UniFi API keys carry the full rights of the admin that created them, and
//! Ubiquiti offers no per-endpoint scoping. This proxy is the missing scope: it
//! holds the real key on hardware you control and exposes only hotspot voucher
//! operations to clients, each with its own token, site allowlist, scopes,
//! quotas and audit trail.
//!
//! The library decides; it opens no socket and reads no file or clock. A request
//! goes through [`service`], which answers it or says what is needed next. What
//! the proxy can have done is in [`operations`], who may have it done in
//! [`state`], and every call it can make to the controller in [`upstream`]. What is
//! counted is in [`metrics`], and what the page of counters tells of it in
//! [`exposition`].

use vstd::prelude::*;

pub mod audit;
pub mod auth;
pub mod cli;
pub mod config;
pub mod crypto;
pub mod error;
pub mod exposition;
pub mod graphql;
pub mod json;
pub mod metrics;
pub mod model;
pub mod moment;
pub mod operations;
pub mod policy;
pub mod ratelimit;
pub mod routes;
pub mod secret;
pub mod service;
pub mod state;
pub mod tally;
pub mod text;
pub mod tls;
pub mod upstream;

pub use config::Config;
pub use state::AppState;

verus! {

} // verus!
