//! A session: one agent-process lifetime bound to a stream of client
//! connections, with its replay buffer, its permission ledger and its
//! lifecycle state.

use vstd::prelude::*;

use crate::buffer::{restorable, BufferedOutput, OutputBuffer};
use crate::error::SessionError;
use crate::permission::{duplicate_pending, PendingPermission, PermissionLedger};
use crate::snapshot::{SessionConfig, SessionSnapshot};
use crate::types::{SessionId, Timestamp};

verus! {

/// Exit code recorded for a session restored from a snapshot taken after its
/// process had stopped (the snapshot does not keep the code).
pub const UNKNOWN_EXIT_CODE: i32 = -1;

/// Lifecycle of a session:
/// `Created -> Running -> Disconnected <-> Reconnecting -> Running`, and
/// `Exited` from anywhere, which is terminal.
#[derive(Clone, Copy, Debug, PartialEq, Eq, Structural)]
pub enum SessionState {
    /// Registered; the agent process is not live yet.
    Created,
    /// The agent process is live and a client is attached.
    Running,
    /// The client connection dropped; the process keeps running.
    Disconnected,
    /// A client is reattaching and the backlog is being replayed.
    Reconnecting,
    /// The agent process has terminated with this exit code.
    Exited(i32),
}

/// Whether the agent process is live in state `s`.
pub open spec fn is_live(s: SessionState) -> bool {
    s is Running || s is Disconnected || s is Reconnecting
}

/// The state after the client connection drops.
pub open spec fn state_after_disconnect(s: SessionState) -> SessionState {
    if s is Running || s is Reconnecting {
        SessionState::Disconnected
    } else {
        s
    }
}

/// What a client input attempt yields in state `s`: the error, if any.
pub open spec fn input_refusal(s: SessionState) -> Option<SessionError> {
    match s {
        SessionState::Exited(code) => Some(SessionError::AlreadyExited(code)),
        _ => None,
    }
}

/// A session and everything it owns.
pub struct Session {
    id: SessionId,
    config: SessionConfig,
    buffer: OutputBuffer,
    permissions: PermissionLedger,
    last_activity: Timestamp,
    state: SessionState,
}

impl Session {
    pub closed spec fn spec_id(&self) -> SessionId {
        self.id
    }

    pub closed spec fn spec_config(&self) -> SessionConfig {
        self.config
    }

    pub closed spec fn spec_buffer(&self) -> OutputBuffer {
        self.buffer
    }

    /// The outstanding permission request, if any.
    pub closed spec fn spec_pending(&self) -> Option<PendingPermission> {
        self.permissions@
    }

    pub closed spec fn spec_last_activity(&self) -> Timestamp {
        self.last_activity
    }

    pub closed spec fn spec_state(&self) -> SessionState {
        self.state
    }

    /// The buffer is well formed and belongs to this session.
    pub open spec fn wf(&self) -> bool {
        &&& self.spec_buffer().wf()
        &&& self.spec_buffer().spec_session_id() == self.spec_id()
    }

    /// A fresh session in state `Created`, identified by the configuration's
    /// id, with an empty buffer and no pending request.
    pub fn new(config: SessionConfig, at: Timestamp) -> (r: Session)
        ensures
            r.wf(),
            r.spec_id() == config.session_id,
            r.spec_config() == config,
            r.spec_state() == SessionState::Created,
            r.spec_buffer()@.len() == 0,
            r.spec_buffer().spec_next_seq() == 0,
            r.spec_pending() is None,
            r.spec_last_activity() == at,
    {
        let id = config.session_id;
        Session {
            id,
            config,
            buffer: OutputBuffer::new(id),
            permissions: PermissionLedger::new(),
            last_activity: at,
            state: SessionState::Created,
        }
    }

    pub fn id(&self) -> (r: SessionId)
        ensures
            r == self.spec_id(),
    {
        self.id
    }

    pub fn config(&self) -> (r: &SessionConfig)
        ensures
            *r == self.spec_config(),
    {
        &self.config
    }

    pub fn state(&self) -> (r: SessionState)
        ensures
            r == self.spec_state(),
    {
        self.state
    }

    pub fn buffer(&self) -> (r: &OutputBuffer)
        ensures
            *r == self.spec_buffer(),
    {
        &self.buffer
    }

    pub fn pending_permission(&self) -> (r: &Option<PendingPermission>)
        ensures
            *r == self.spec_pending(),
    {
        self.permissions.pending()
    }

    pub fn last_activity(&self) -> (r: Timestamp)
        ensures
            r == self.spec_last_activity(),
    {
        self.last_activity
    }

    /// The agent process is live: `Created` becomes `Running`. An exited
    /// session fails with `AlreadyExited`; any other state is left as it is.
    pub fn process_started(&mut self) -> (r: Result<(), SessionError>)
        requires
            old(self).wf(),
        ensures
            final(self).wf(),
            r == match input_refusal(old(self).spec_state()) {
                Some(e) => Err(e),
                None => Ok::<(), SessionError>(()),
            },
            final(self).spec_state() == if old(self).spec_state() is Created {
                SessionState::Running
            } else {
                old(self).spec_state()
            },
            final(self).spec_buffer() == old(self).spec_buffer(),
            final(self).spec_pending() == old(self).spec_pending(),
            final(self).spec_id() == old(self).spec_id(),
            final(self).spec_config() == old(self).spec_config(),
            final(self).spec_last_activity() == old(self).spec_last_activity(),
    {
        match self.state {
            SessionState::Exited(code) => Err(SessionError::AlreadyExited(code)),
            SessionState::Created => {
                self.state = SessionState::Running;
                Ok(())
            },
            _ => Ok(()),
        }
    }

    /// The client connection dropped: a live attached session becomes
    /// `Disconnected`; output keeps accumulating in the buffer.
    pub fn disconnect(&mut self)
        requires
            old(self).wf(),
        ensures
            final(self).wf(),
            final(self).spec_state() == state_after_disconnect(old(self).spec_state()),
            final(self).spec_buffer() == old(self).spec_buffer(),
            final(self).spec_pending() == old(self).spec_pending(),
            final(self).spec_id() == old(self).spec_id(),
            final(self).spec_config() == old(self).spec_config(),
            final(self).spec_last_activity() == old(self).spec_last_activity(),
    {
        match self.state {
            SessionState::Running | SessionState::Reconnecting => {
                self.state = SessionState::Disconnected;
            },
            _ => {},
        }
    }

    /// A client reattaches: a live session enters `Reconnecting` (the
    /// process is not restarted) and the pending backlog is handed out,
    /// oldest first. Other states are left as they are.
    pub fn begin_reconnect(&mut self) -> (r: Vec<BufferedOutput>)
        requires
            old(self).wf(),
        ensures
            final(self).wf(),
            r@ == old(self).spec_buffer()@,
            final(self).spec_state() == if is_live(old(self).spec_state()) {
                SessionState::Reconnecting
            } else {
                old(self).spec_state()
            },
            final(self).spec_buffer() == old(self).spec_buffer(),
            final(self).spec_pending() == old(self).spec_pending(),
            final(self).spec_id() == old(self).spec_id(),
            final(self).spec_config() == old(self).spec_config(),
            final(self).spec_last_activity() == old(self).spec_last_activity(),
    {
        match self.state {
            SessionState::Running | SessionState::Disconnected | SessionState::Reconnecting => {
                self.state = SessionState::Reconnecting;
            },
            _ => {},
        }
        self.buffer.to_snapshot()
    }

    /// The backlog has been replayed: `Reconnecting` returns to `Running`.
    pub fn finish_reconnect(&mut self)
        requires
            old(self).wf(),
        ensures
            final(self).wf(),
            final(self).spec_state() == if old(self).spec_state() is Reconnecting {
                SessionState::Running
            } else {
                old(self).spec_state()
            },
            final(self).spec_buffer() == old(self).spec_buffer(),
            final(self).spec_pending() == old(self).spec_pending(),
            final(self).spec_id() == old(self).spec_id(),
            final(self).spec_config() == old(self).spec_config(),
            final(self).spec_last_activity() == old(self).spec_last_activity(),
    {
        if self.state == SessionState::Reconnecting {
            self.state = SessionState::Running;
        }
    }

    /// Whether the buffer can take one more output (its sequence counter
    /// is not exhausted).
    pub fn can_record_output(&self) -> (r: bool)
        ensures
            r == (self.spec_buffer().spec_next_seq() < u64::MAX),
    {
        self.buffer.next_seq() < u64::MAX
    }

    /// Agent output received at `at`: pushed into the buffer under the next
    /// sequence number, which is returned, and the activity time bumped.
    pub fn record_output(&mut self, content: serde_json::Value, at: Timestamp) -> (r: u64)
        requires
            old(self).wf(),
            old(self).spec_buffer().spec_next_seq() < u64::MAX,
        ensures
            final(self).wf(),
            crate::buffer::pushed(old(self).spec_buffer(), final(self).spec_buffer(), r),
            final(self).spec_buffer()@ == crate::buffer::keep_newest(
                old(self).spec_buffer()@.push(
                    (BufferedOutput { seq: r, content: content, timestamp: at }),
                ),
                old(self).spec_buffer().spec_max_size() as nat,
            ),
            final(self).spec_last_activity() == at,
            final(self).spec_state() == old(self).spec_state(),
            final(self).spec_pending() == old(self).spec_pending(),
            final(self).spec_id() == old(self).spec_id(),
            final(self).spec_config() == old(self).spec_config(),
    {
        let seq = self.buffer.push_at(content, at);
        self.last_activity = at;
        seq
    }

    /// The client acknowledged everything up to `seq`. Fails with
    /// `AlreadyExited` once the session has terminated, changing nothing.
    pub fn ack(&mut self, seq: u64) -> (r: Result<(), SessionError>)
        requires
            old(self).wf(),
        ensures
            final(self).wf(),
            r == match input_refusal(old(self).spec_state()) {
                Some(e) => Err(e),
                None => Ok::<(), SessionError>(()),
            },
            r is Err ==> final(self).spec_buffer() == old(self).spec_buffer(),
            r is Ok ==> forall|i: int|
                0 <= i < final(self).spec_buffer()@.len()
                    ==> #[trigger] final(self).spec_buffer()@[i].seq > seq,
            r is Ok ==> final(self).spec_buffer()@.len() <= old(self).spec_buffer()@.len(),
            (forall|i: int|
                0 <= i < old(self).spec_buffer()@.len() ==> #[trigger] old(self).spec_buffer()@[i].seq
                    > seq) ==> final(self).spec_buffer()@ == old(self).spec_buffer()@,
            r is Ok ==> final(self).spec_buffer()@ == old(self).spec_buffer()@.subrange(
                old(self).spec_buffer()@.len() - final(self).spec_buffer()@.len(),
                old(self).spec_buffer()@.len() as int,
            ),
            r is Ok ==> forall|i: int|
                0 <= i < old(self).spec_buffer()@.len() && #[trigger] old(self).spec_buffer()@[i].seq > seq ==> final(self).spec_buffer()@.contains(
                    old(self).spec_buffer()@[i],
                ),
            final(self).spec_buffer().spec_next_seq() == old(self).spec_buffer().spec_next_seq(),
            final(self).spec_buffer().spec_max_size() == old(self).spec_buffer().spec_max_size(),
            final(self).spec_state() == old(self).spec_state(),
            final(self).spec_pending() == old(self).spec_pending(),
            final(self).spec_id() == old(self).spec_id(),
            final(self).spec_config() == old(self).spec_config(),
            final(self).spec_last_activity() == old(self).spec_last_activity(),
    {
        match self.state {
            SessionState::Exited(code) => Err(SessionError::AlreadyExited(code)),
            _ => {
                self.buffer.ack(seq);
                Ok(())
            },
        }
    }

    /// Decide whether client input may go to the agent process. On success
    /// the payload is handed back for forwarding. An exited session fails
    /// with `AlreadyExited` carrying its exit code; a session whose process
    /// has not started fails with `CommunicationError`.
    pub fn send_input(&self, content: serde_json::Value) -> (r: Result<
        serde_json::Value,
        SessionError,
    >)
        ensures
            match self.spec_state() {
                SessionState::Exited(code) => r == Err::<serde_json::Value, SessionError>(
                    SessionError::AlreadyExited(code),
                ),
                SessionState::Created => r is Err && r->Err_0 is CommunicationError,
                _ => r == Ok::<serde_json::Value, SessionError>(content),
            },
    {
        match self.state {
            SessionState::Exited(code) => Err(SessionError::AlreadyExited(code)),
            SessionState::Created => Err(
                SessionError::CommunicationError("agent process is not running".to_owned()),
            ),
            _ => Ok(content),
        }
    }

    /// The agent asks for permission to use a tool. Fails with
    /// `ConflictingRequest` while another request is outstanding.
    pub fn request_permission(
        &mut self,
        request_id: String,
        tool_name: String,
        input: serde_json::Value,
        at: Timestamp,
    ) -> (r: Result<(), SessionError>)
        requires
            old(self).wf(),
        ensures
            final(self).wf(),
            old(self).spec_pending() is None <==> r is Ok,
            r is Ok ==> final(self).spec_pending() == Some(
                (PendingPermission { request_id, tool_name, input, requested_at: at }),
            ),
            r is Err ==> final(self).spec_pending() == old(self).spec_pending(),
            r is Err ==> r == Err::<(), SessionError>(SessionError::ConflictingRequest(request_id)),
            final(self).spec_buffer() == old(self).spec_buffer(),
            final(self).spec_state() == old(self).spec_state(),
            final(self).spec_id() == old(self).spec_id(),
            final(self).spec_config() == old(self).spec_config(),
            final(self).spec_last_activity() == old(self).spec_last_activity(),
    {
        self.permissions.record_request_at(request_id, tool_name, input, at)
    }

    /// The client answers a permission request. An exited session fails with
    /// `AlreadyExited`; otherwise the answer must match the outstanding
    /// request, else `InvalidPermissionResponse(request_id)`. Only a match
    /// changes anything: it clears the slot and hands the request back.
    pub fn resolve_permission(&mut self, request_id: String) -> (r: Result<
        PendingPermission,
        SessionError,
    >)
        requires
            old(self).wf(),
        ensures
            final(self).wf(),
            old(self).spec_state() is Exited ==> r == Err::<PendingPermission, SessionError>(
                SessionError::AlreadyExited(old(self).spec_state()->Exited_0),
            ),
            !(old(self).spec_state() is Exited) ==> (r is Ok
                <==> crate::permission::matches_pending(old(self).spec_pending(), request_id@)),
            !(old(self).spec_state() is Exited) && r is Err ==> r == Err::<
                PendingPermission,
                SessionError,
            >(SessionError::InvalidPermissionResponse(request_id)),
            r is Ok ==> Some(r->Ok_0) == old(self).spec_pending() && final(self).spec_pending() is None,
            r is Err ==> final(self).spec_pending() == old(self).spec_pending(),
            final(self).spec_buffer() == old(self).spec_buffer(),
            final(self).spec_state() == old(self).spec_state(),
            final(self).spec_id() == old(self).spec_id(),
            final(self).spec_config() == old(self).spec_config(),
            final(self).spec_last_activity() == old(self).spec_last_activity(),
    {
        match self.state {
            SessionState::Exited(code) => Err(SessionError::AlreadyExited(code)),
            _ => self.permissions.resolve(request_id),
        }
    }

    /// The agent process terminated with `code`, or the session was closed.
    /// The first exit code is kept; the outstanding request is dropped.
    pub fn exit(&mut self, code: i32)
        requires
            old(self).wf(),
        ensures
            final(self).wf(),
            final(self).spec_state() == if old(self).spec_state() is Exited {
                old(self).spec_state()
            } else {
                SessionState::Exited(code)
            },
            final(self).spec_pending() is None,
            final(self).spec_buffer() == old(self).spec_buffer(),
            final(self).spec_id() == old(self).spec_id(),
            final(self).spec_config() == old(self).spec_config(),
            final(self).spec_last_activity() == old(self).spec_last_activity(),
    {
        match self.state {
            SessionState::Exited(_) => {},
            _ => {
                self.state = SessionState::Exited(code);
            },
        }
        self.permissions.clear();
    }

    /// Whether the session may be evicted at `at` under an idle limit of
    /// `idle_limit_ms`: it has no client attached (disconnected or exited)
    /// and has been inactive for at least that long.
    pub fn is_idle_expired(&self, at: Timestamp, idle_limit_ms: u64) -> (r: bool)
        ensures
            r == ((self.spec_state() is Disconnected || self.spec_state() is Exited) && at.millis
                - self.spec_last_activity().millis >= idle_limit_ms),
    {
        let detached = match self.state {
            SessionState::Disconnected | SessionState::Exited(_) => true,
            _ => false,
        };
        detached && at.millis_since(self.last_activity) >= idle_limit_ms as i128
    }

    /// The serializable projection of this session.
    pub fn to_snapshot(&self) -> (r: SessionSnapshot)
        requires
            self.wf(),
        ensures
            r.id == self.spec_id(),
            r.config == self.spec_config(),
            r.pending_outputs@ == self.spec_buffer()@,
            r.pending_permission == self.spec_pending(),
            r.last_activity == self.spec_last_activity(),
            r.was_running == is_live(self.spec_state()),
    {
        let was_running = match self.state {
            SessionState::Running | SessionState::Disconnected | SessionState::Reconnecting => true,
            _ => false,
        };
        SessionSnapshot::new_at(
            self.id,
            self.config.duplicate(),
            self.buffer.to_snapshot(),
            duplicate_pending(self.permissions.pending()),
            self.last_activity,
            was_running,
        )
    }

    /// Rebuild a session from a snapshot: buffer and pending request
    /// restored, `Running` if the process was running, else `Exited` with
    /// `UNKNOWN_EXIT_CODE`. Fails with `SerializationError` when the buffered
    /// outputs are not in strictly increasing order of sequence number, or
    /// the newest one leaves no room for a next.
    pub fn from_snapshot(snapshot: SessionSnapshot) -> (r: Result<Session, SessionError>)
        ensures
            r is Ok <==> restorable(snapshot.pending_outputs@),
            r is Err ==> r->Err_0 is SerializationError,
            r is Ok ==> ({
                let s = r->Ok_0;
                &&& s.wf()
                &&& s.spec_id() == snapshot.id
                &&& s.spec_config() == snapshot.config
                &&& s.spec_buffer()@ == snapshot.pending_outputs@
                &&& s.spec_buffer().spec_next_seq() == crate::buffer::next_seq_after(
                    snapshot.pending_outputs@,
                )
                &&& s.spec_pending() == snapshot.pending_permission
                &&& s.spec_last_activity() == snapshot.last_activity
                &&& s.spec_state() == if snapshot.was_running {
                    SessionState::Running
                } else {
                    SessionState::Exited(UNKNOWN_EXIT_CODE)
                }
            }),
    {
        if !entries_restorable(&snapshot.pending_outputs) {
            return Err(
                SessionError::SerializationError(
                    "buffered outputs are out of sequence order".to_owned(),
                ),
            );
        }
        let state = if snapshot.was_running {
            SessionState::Running
        } else {
            SessionState::Exited(UNKNOWN_EXIT_CODE)
        };
        let SessionSnapshot {
            id,
            config,
            pending_outputs,
            pending_permission,
            last_activity,
            was_running: _,
        } = snapshot;
        Ok(
            Session {
                id,
                config,
                buffer: OutputBuffer::from_snapshot(id, pending_outputs),
                permissions: PermissionLedger::from_pending(pending_permission),
                last_activity,
                state,
            },
        )
    }
}

/// Whether a buffer can be restored from `entries`.
pub fn entries_restorable(entries: &Vec<BufferedOutput>) -> (r: bool)
    ensures
        r == restorable(entries@),
{
    let n = entries.len();
    if n == 0 {
        return true;
    }
    let mut i: usize = 1;
    while i < n
        invariant
            1 <= i <= n,
            n == entries@.len(),
            forall|a: int, b: int| 0 <= a < b < i ==> entries@[a].seq < entries@[b].seq,
        decreases n - i,
    {
        if entries[i - 1].seq >= entries[i].seq {
            return false;
        }
        proof {
            assert forall|a: int, b: int| 0 <= a < b < i + 1 implies entries@[a].seq
                < entries@[b].seq by {
                if b == i && a < i - 1 {
                    assert(entries@[a].seq < entries@[i - 1].seq);
                }
            }
        }
        i = i + 1;
    }
    entries[n - 1].seq < u64::MAX
}

} // verus!
