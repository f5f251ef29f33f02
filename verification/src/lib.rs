//! Admission control for a public HTTP endpoint, together with the server
//! configuration that selects it.
//!
//! Every request is charged against a token bucket that belongs to the
//! client's identity. The buckets, the rule that derives an identity from a
//! request, and the sweep that drops idle buckets are all verified here.

pub mod config;
pub mod dns;
pub mod http;
pub mod net;
