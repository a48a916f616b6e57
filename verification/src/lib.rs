//! A before-queue mail filter for a chat mail relay.
//!
//! The relay only lets end-to-end encrypted mail through, with a small set of
//! exceptions. This crate holds the decisions: the OpenPGP and MIME gates, the
//! SMTP dialogue on both sides of the filter, the per-sender rate limit and the
//! policy for each direction. Sockets, files and the clock are the caller's.

use vstd::prelude::*;

pub mod config;
pub mod error;
pub mod inbound;
pub mod message;
pub mod openpgp;
pub mod outbound;
pub mod rate_limiter;
pub mod smtp_client;
pub mod smtp_server;
pub mod text;
pub mod utils;

verus! {

/// The reply to cleartext mail that the relay does not let through.
pub const ENCRYPTION_NEEDED_523: &'static str = "523 Encryption Needed: Invalid Unencrypted Mail";

} // verus!
