//! A reverse-tunnel library: a public proxy server lends end-user TCP
//! connections to a client agent that dials out from behind NAT.
//!
//! The crate holds the verified core of both sides: subdomain validation and
//! endpoint allocation, the per-tunnel agent socket pool, the tunnel registry,
//! the byte pump between a paired user socket and agent socket, the
//! authentication checks, and the client driver's bounded-concurrency state
//! machine. Process plumbing (listeners, HTTP, signals) lives outside the
//! library and hands it plain values.

pub mod acceptor;
pub mod api;
pub mod auth;
pub mod cli;
pub mod client;
pub mod manager;
pub mod pool;
pub mod pump;
pub mod strutil;
pub mod subdomain;
pub mod types;

pub use strutil::str_eq;
