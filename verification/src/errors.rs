//! Error taxonomy of the synchronization engine.

use vstd::prelude::*;

verus! {

/// Failures surfaced by the engine. I/O-layer failures (`WriteFailure`,
/// `ReadFailure`) are produced by the surrounding application when it performs
/// the actual filesystem work; the remaining variants are produced by the
/// verified logic itself.
#[derive(Debug, Clone, Copy, PartialEq, Eq, Structural)]
pub enum SyncError {
    /// An operation referenced a session id that is not registered.
    SessionNotFound,
    /// The session exists but has no bound directory.
    NotBound,
    /// A resolved path would escape the bound directory.
    AccessDenied,
    /// The directory-claim loop exhausted its attempt bound.
    ClaimExhausted,
    /// A filesystem write failed.
    WriteFailure,
    /// A filesystem read failed.
    ReadFailure,
}

} // verus!
