//! Errors the library reports to its callers.

use vstd::prelude::*;

verus! {

/// Why an operation failed.
#[derive(Clone, Copy, Debug, PartialEq, Eq, Structural)]
pub enum RelayError {
    /// The speech engine could not be reached.
    EngineUnavailable,
    /// The speech engine answered with a status outside `200..300`.
    EngineRejected { status: u16 },
    /// No dictionary entry has the given surface form.
    NotFound,
    /// A dictionary entry with the given surface form already exists.
    AlreadyExists,
    /// No voice session is active for the given key.
    NoActiveSession,
    /// A local file could not be read, written or deleted.
    ArtifactIoFailure,
    /// The engine's dictionary document could not be parsed.
    MalformedDocument,
}

} // verus!
