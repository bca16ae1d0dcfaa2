//! Session configuration and the serializable projection of a session.

use vstd::prelude::*;

use crate::buffer::BufferedOutput;
use crate::permission::PendingPermission;
use crate::types::{now, SessionId, Timestamp};

verus! {

/// Configuration for creating a session.
pub struct SessionConfig {
    /// Unique session identifier.
    pub session_id: SessionId,
    /// Working directory of the agent process.
    pub working_directory: String,
    /// Human-readable session name.
    pub session_name: String,
    /// Whether to resume an existing session rather than create a new one.
    pub resume: bool,
    /// Optional path to the agent binary (the default one when absent).
    pub claude_path: Option<String>,
}

impl SessionConfig {
    /// A copy of this configuration.
    pub fn duplicate(&self) -> (r: SessionConfig)
        ensures
            r == *self,
    {
        SessionConfig {
            session_id: self.session_id,
            working_directory: self.working_directory.clone(),
            session_name: self.session_name.clone(),
            resume: self.resume,
            claude_path: match &self.claude_path {
                Some(p) => Some(p.clone()),
                None => None,
            },
        }
    }
}

/// Everything needed to rebuild a session after a service restart.
pub struct SessionSnapshot {
    /// Session identifier.
    pub id: SessionId,
    /// Session configuration.
    pub config: SessionConfig,
    /// Buffered outputs not yet acknowledged, oldest first.
    pub pending_outputs: Vec<BufferedOutput>,
    /// Pending permission request, if any.
    pub pending_permission: Option<PendingPermission>,
    /// Time of the last activity.
    pub last_activity: Timestamp,
    /// Whether the agent process was running when the snapshot was taken.
    pub was_running: bool,
}

impl SessionSnapshot {
    /// A snapshot whose last activity is `last_activity`.
    pub fn new_at(
        id: SessionId,
        config: SessionConfig,
        pending_outputs: Vec<BufferedOutput>,
        pending_permission: Option<PendingPermission>,
        last_activity: Timestamp,
        was_running: bool,
    ) -> (r: SessionSnapshot)
        ensures
            r == (SessionSnapshot {
                id,
                config,
                pending_outputs,
                pending_permission,
                last_activity,
                was_running,
            }),
    {
        SessionSnapshot { id, config, pending_outputs, pending_permission, last_activity, was_running }
    }

    /// A snapshot taken now.
    pub fn new(
        id: SessionId,
        config: SessionConfig,
        pending_outputs: Vec<BufferedOutput>,
        pending_permission: Option<PendingPermission>,
        was_running: bool,
    ) -> (r: SessionSnapshot)
        ensures
            r.id == id,
            r.config == config,
            r.pending_outputs == pending_outputs,
            r.pending_permission == pending_permission,
            r.was_running == was_running,
    {
        let at = now();
        SessionSnapshot::new_at(id, config, pending_outputs, pending_permission, at, was_running)
    }
}

} // verus!
