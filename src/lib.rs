//! Session continuity for a remote client attached to a long-running agent
//! process: a replay buffer of unacknowledged output, permission-request
//! correlation, the session state machine, a registry of sessions, and the
//! relay handshake that registers a client connection against a session.

pub mod buffer;
pub mod error;
pub mod permission;
pub mod registry;
pub mod relay;
pub mod session;
pub mod snapshot;
pub mod types;
