//! Core logic of a small port-forwarding proxy.
//!
//! Routes forward raw TCP byte streams or a pragmatic HTTP/1.x subset.
//! This crate holds the protocol logic: parsing one HTTP request from
//! buffered bytes, resolving the upstream target for a request, building
//! the upstream wire request, the retry/backoff schedule, synthesized
//! error responses, the per-route admission ledger, and the byte-stream
//! splice tally. Sockets, timers and tasks live outside the crate and
//! hand plain values in and out.

pub mod admission;
pub mod config;
pub mod forward;
pub mod headers;
pub mod request;
pub mod resolve;
pub mod splice;
pub mod text;
