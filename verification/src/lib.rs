//! Short-lived, secret-derived authentication tokens with replay protection.
//!
//! A token for an identity is the hex digest of `"{identity}:{seconds}:{secret}"`.
//! The verifier accepts a presented token if it matches one of the digests for
//! the trailing eight-second window ending at the verifier's clock, and if the
//! same `(identity, token)` pair has not already been presented within the
//! identity's current window. The replay bookkeeping lives in [`replay::ReplayCache`];
//! the acceptance decision in [`auth::TokenVerifier`].

use vstd::prelude::*;

pub mod auth;
pub mod digits;
pub mod records;
pub mod replay;
pub mod token;
pub mod wallclock;

verus! {

/// Length of the acceptance window in seconds. A token issued at instant `t`
/// is acceptable at any clock reading in `[t, t + WINDOW_SECONDS - 1]`, and a
/// replay entry whose window began at `r` is reset by the first check after
/// `r + WINDOW_SECONDS`.
pub const WINDOW_SECONDS: u64 = 8;

} // verus!
