//! Core of a stateless scan-confirmation service.
//!
//! A client submits a scan request with an email address; the request is
//! encoded into a signed, time-bounded token and mailed back as a
//! confirmation link.  Clicking the link hands the token to the service,
//! which verifies the signature and expiry and only then forwards the
//! embedded request downstream.  The token is the sole record of the
//! pending request: no server-side store exists.

pub mod base64;
pub mod bytes;
pub mod codec;
pub mod confirm;
pub mod config;
pub mod errors;
pub mod identity;
pub mod progress;
pub mod submit;
pub mod json;
pub mod model;

use vstd::prelude::*;

verus! {

/// Seconds a confirmation token stays valid: one day.
pub const TOKEN_TTL_SECONDS: u64 = 86400;

} // verus!
