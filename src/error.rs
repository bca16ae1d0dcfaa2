//! The error taxonomy of session management.

use vstd::prelude::*;

verus! {

/// Errors that can occur during session management.
#[derive(Debug, Clone, PartialEq, Eq)]
pub enum SessionError {
    /// The agent process could not be started; the cause as text.
    SpawnFailed(String),
    /// Talking to the agent process failed.
    CommunicationError(String),
    /// No in-memory session and no snapshot for the requested id.
    SessionNotFound,
    /// A permission response matched no pending request.
    InvalidPermissionResponse(String),
    /// A second permission request arrived while one is still pending;
    /// it is rejected (carries the rejected request's id).
    ConflictingRequest(String),
    /// A fresh session was asked for under an id that is already live.
    SessionAlreadyExists,
    /// The session has terminated with this exit code.
    AlreadyExited(i32),
    /// A snapshot or a wire payload is malformed.
    SerializationError(String),
}

} // verus!
