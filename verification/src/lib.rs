//! Core of a resilient content-retrieval client: a mirror pool with
//! failover, a timestamp-keyed encryption envelope codec, discovery of
//! fresh mirror domains, a deterministic tile descrambler for images,
//! and a cancellable disk-backed retrieval cache.
use vstd::prelude::*;

pub mod b64;
pub mod cache;
pub mod cancel;
pub mod codec;
pub mod config;
pub mod constants;
pub mod descramble;
pub mod digest;
pub mod discovery;
pub mod mirror;
pub mod router;
pub mod scramble;
pub mod text;
pub mod urls;
pub mod web;

verus! {

/// Failure taxonomy of the retrieval core.
///
/// `Transport` and `TransientServer` are retried across mirrors;
/// `Application`, `Decode` and `Cancelled` end a request at once.
#[derive(Debug, Clone)]
pub enum CoreError {
    /// The request never completed (timeout, connection failure).
    Transport { message: String },
    /// The mirror answered, but with a retryable status or a body that
    /// marks a stale or hijacked domain.
    TransientServer { message: String },
    /// The service itself rejected the call: envelope status other than 200.
    Application { http_status: u16, api_code: i64, message: String },
    /// The envelope or its payload could not be decoded.
    Decode { message: String },
    /// A cooperative cancellation checkpoint fired.
    Cancelled,
}

impl CoreError {
    /// True of the errors that mirror failover may retry.
    pub open spec fn spec_is_retryable(&self) -> bool {
        match self {
            CoreError::Transport { .. } => true,
            CoreError::TransientServer { .. } => true,
            _ => false,
        }
    }

    /// Executable twin of `spec_is_retryable`.
    pub fn is_retryable(&self) -> (r: bool)
        ensures
            r == self.spec_is_retryable(),
    {
        match self {
            CoreError::Transport { .. } => true,
            CoreError::TransientServer { .. } => true,
            _ => false,
        }
    }
}

} // verus!
