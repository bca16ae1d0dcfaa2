//! The relay protocol between one client connection and the session layer:
//! the frames exchanged, the register-first rule, and the handshake that
//! replays the backlog before any live output.

use vstd::prelude::*;

use crate::buffer::BufferedOutput;
use crate::error::SessionError;
use crate::registry::{
    has_id, ids_unique, lemma_session_with_unique, register_succeeds, session_with,
    SessionRegistry,
};
use crate::session::{is_live, Session, SessionState};
use crate::snapshot::{SessionConfig, SessionSnapshot};
use crate::types::{SessionId, Timestamp};

verus! {

/// A frame of the relay protocol.
pub enum RelayMessage {
    /// First frame of every connection: attach to a session.
    Register {
        session_id: SessionId,
        session_name: String,
        auth_token: Option<String>,
        working_directory: String,
        resuming: bool,
    },
    /// Session to client: one output event.
    ClaudeOutput { content: serde_json::Value },
    /// Client to session: input for the agent process.
    ClaudeInput { content: serde_json::Value },
    /// Either direction: informational error text.
    Error { message: String },
}

/// The frames that replay `entries`, oldest first.
pub open spec fn output_frames(entries: Seq<BufferedOutput>) -> Seq<RelayMessage> {
    entries.map_values(|o: BufferedOutput| RelayMessage::ClaudeOutput { content: o.content })
}

/// The session configuration that a Register frame asks for.
pub open spec fn register_config(
    session_id: SessionId,
    session_name: String,
    working_directory: String,
    resuming: bool,
) -> SessionConfig {
    SessionConfig {
        session_id,
        working_directory,
        session_name,
        resume: resuming,
        claude_path: None,
    }
}

/// What the session layer does with an inbound frame.
pub enum InboundAction {
    /// The connection sent something other than Register first: reject it.
    Reject,
    /// Resolve a session for this configuration.
    Register(SessionConfig),
    /// Forward this input to the attached session.
    Input(SessionId, serde_json::Value),
    /// Nothing to do.
    Ignore,
}

/// One client connection.
pub struct RelayConnection {
    attached: Option<SessionId>,
}

impl RelayConnection {
    pub closed spec fn spec_attached(&self) -> Option<SessionId> {
        self.attached
    }

    /// A new connection, attached to nothing.
    pub fn new() -> (r: RelayConnection)
        ensures
            r.spec_attached() is None,
    {
        RelayConnection { attached: None }
    }

    /// The session this connection is attached to, if any.
    pub fn attached(&self) -> (r: Option<SessionId>)
        ensures
            r == self.spec_attached(),
    {
        self.attached
    }

    /// Classify an inbound frame. Before registration only Register is
    /// accepted and anything else rejects the connection. After it, input is
    /// forwarded to the attached session, and every other frame (a repeated
    /// Register, an informational Error, an output frame in the wrong
    /// direction) is ignored.
    pub fn on_frame(&self, frame: RelayMessage) -> (r: InboundAction)
        ensures
            match self.spec_attached() {
                None => match frame {
                    RelayMessage::Register {
                        session_id,
                        session_name,
                        auth_token: _,
                        working_directory,
                        resuming,
                    } => r == InboundAction::Register(
                        register_config(session_id, session_name, working_directory, resuming),
                    ),
                    _ => r == InboundAction::Reject,
                },
                Some(id) => match frame {
                    RelayMessage::ClaudeInput { content } => r == InboundAction::Input(id, content),
                    _ => r == InboundAction::Ignore,
                },
            },
    {
        match self.attached {
            None => match frame {
                RelayMessage::Register {
                    session_id,
                    session_name,
                    auth_token: _,
                    working_directory,
                    resuming,
                } => InboundAction::Register(
                    SessionConfig {
                        session_id,
                        working_directory,
                        session_name,
                        resume: resuming,
                        claude_path: None,
                    },
                ),
                _ => InboundAction::Reject,
            },
            Some(id) => match frame {
                RelayMessage::ClaudeInput { content } => InboundAction::Input(id, content),
                _ => InboundAction::Ignore,
            },
        }
    }

    /// Register this connection against a session resolved by
    /// `SessionRegistry::get_or_create`, then replay the session's pending
    /// backlog in ascending sequence order. A live session passes through
    /// `Reconnecting` back to `Running` (its process is not restarted).
    /// On success the connection is attached and the replay frames are
    /// returned, to be sent before any live output; on failure nothing
    /// changes and the error is that of the registry.
    pub fn register(
        &mut self,
        registry: &mut SessionRegistry,
        config: SessionConfig,
        stored: Option<SessionSnapshot>,
        at: Timestamp,
    ) -> (r: Result<Vec<RelayMessage>, SessionError>)
        requires
            old(registry).wf(),
        ensures
            final(registry).wf(),
            r is Ok <==> register_succeeds(old(registry)@, config, stored),
            r is Ok ==> final(self).spec_attached() == Some(config.session_id),
            r is Ok ==> has_id(final(registry)@, config.session_id),
            r is Ok ==> r->Ok_0@ == output_frames(
                session_with(final(registry)@, config.session_id).spec_buffer()@,
            ),
            r is Ok && !config.resume ==> r->Ok_0@.len() == 0,
            r is Ok && config.resume && has_id(old(registry)@, config.session_id) ==> ({
                let before = session_with(old(registry)@, config.session_id);
                let after = session_with(final(registry)@, config.session_id);
                &&& after.spec_buffer() == before.spec_buffer()
                &&& after.spec_state() == if is_live(before.spec_state()) {
                    SessionState::Running
                } else {
                    before.spec_state()
                }
            }),
            r is Ok && config.resume && !has_id(old(registry)@, config.session_id) ==> r->Ok_0@
                == output_frames(stored->0.pending_outputs@),
            r is Err ==> final(registry)@ == old(registry)@ && final(self).spec_attached()
                == old(self).spec_attached(),
            r is Err ==> r->Err_0 == (if config.resume {
                SessionError::SessionNotFound
            } else {
                SessionError::SessionAlreadyExists
            }),
    {
        let ghost before = old(registry)@;
        let id = config.session_id;
        let ghost existed = has_id(before, id);
        proof {
            if existed {
                let k = choose|k: int| 0 <= k < before.len() && (#[trigger] before[k]).spec_id() == id;
                lemma_session_with_unique(before, id, k);
            }
        }
        let got = registry.get_or_create(config, stored, at);
        match got {
            Err(e) => {
                return Err(e);
            },
            Ok(_) => {},
        }
        let ghost mid = registry@;
        proof {
            if !existed {
                lemma_session_with_unique(mid, id, mid.len() - 1);
            } else {
                assert(mid == before);
            }
        }
        let taken = registry.remove(id);
        let mut session = match taken {
            Ok(s) => s,
            Err(_) => {
                return Err(SessionError::SessionNotFound);
            },
        };
        proof {
            let i = choose|i: int|
                0 <= i < mid.len() && mid[i] == session && registry@ == mid.remove(i);
            lemma_session_with_unique(mid, id, i);
        }
        let backlog = session.begin_reconnect();
        session.finish_reconnect();
        let put = registry.insert(session);
        assert(put is Ok);
        proof {
            lemma_session_with_unique(registry@, id, registry@.len() - 1);
        }
        let frames = replay_frames(&backlog);
        self.attached = Some(id);
        Ok(frames)
    }

    /// The connection dropped: the attached session, if still live in the
    /// registry, becomes `Disconnected`, and the connection is detached.
    pub fn disconnect(&mut self, registry: &mut SessionRegistry)
        requires
            old(registry).wf(),
        ensures
            final(registry).wf(),
            final(self).spec_attached() is None,
            forall|x: SessionId| has_id(final(registry)@, x) == has_id(old(registry)@, x),
            old(self).spec_attached() is Some && has_id(
                old(registry)@,
                old(self).spec_attached()->0,
            ) ==> ({
                let id = old(self).spec_attached()->0;
                let before = session_with(old(registry)@, id);
                let after = session_with(final(registry)@, id);
                &&& after.spec_buffer() == before.spec_buffer()
                &&& after.spec_state() == crate::session::state_after_disconnect(
                    before.spec_state(),
                )
            }),
    {
        if let Some(id) = self.attached {
            let _ = update_session(registry, id, SessionUpdate::Disconnect);
        }
        self.attached = None;
    }
}

/// A change applied to one live session of a registry.
pub enum SessionUpdate {
    /// The agent process is live.
    Started,
    /// The client connection dropped.
    Disconnect,
    /// The client acknowledged everything up to this sequence number.
    Ack(u64),
    /// The agent process terminated with this exit code, or the session was closed.
    Exit(i32),
}

/// The result of applying `u` to a session in state `s`.
pub open spec fn update_result(s: SessionState, u: SessionUpdate) -> Result<(), SessionError> {
    match u {
        SessionUpdate::Started | SessionUpdate::Ack(_) => match crate::session::input_refusal(s) {
            Some(e) => Err(e),
            None => Ok(()),
        },
        _ => Ok(()),
    }
}

/// `after` is `before` with `u` applied.
pub open spec fn updated(before: Session, after: Session, u: SessionUpdate) -> bool {
    &&& after.wf()
    &&& after.spec_id() == before.spec_id()
    &&& after.spec_config() == before.spec_config()
    &&& after.spec_last_activity() == before.spec_last_activity()
    &&& after.spec_buffer().spec_next_seq() == before.spec_buffer().spec_next_seq()
    &&& match u {
        SessionUpdate::Started => {
            &&& after.spec_state() == if before.spec_state() is Created {
                SessionState::Running
            } else {
                before.spec_state()
            }
            &&& after.spec_buffer() == before.spec_buffer()
            &&& after.spec_pending() == before.spec_pending()
        },
        SessionUpdate::Disconnect => {
            &&& after.spec_state() == crate::session::state_after_disconnect(before.spec_state())
            &&& after.spec_buffer() == before.spec_buffer()
            &&& after.spec_pending() == before.spec_pending()
        },
        SessionUpdate::Ack(seq) => {
            &&& after.spec_state() == before.spec_state()
            &&& after.spec_pending() == before.spec_pending()
            &&& before.spec_state() is Exited ==> after.spec_buffer() == before.spec_buffer()
            &&& !(before.spec_state() is Exited) ==> {
                &&& forall|i: int|
                    0 <= i < after.spec_buffer()@.len() ==> #[trigger] after.spec_buffer()@[i].seq
                        > seq
                &&& after.spec_buffer()@.len() <= before.spec_buffer()@.len()
                &&& after.spec_buffer()@ == before.spec_buffer()@.subrange(
                    before.spec_buffer()@.len() - after.spec_buffer()@.len(),
                    before.spec_buffer()@.len() as int,
                )
                &&& forall|i: int|
                    0 <= i < before.spec_buffer()@.len() && #[trigger] before.spec_buffer()@[i].seq
                        > seq ==> after.spec_buffer()@.contains(before.spec_buffer()@[i])
            }
        },
        SessionUpdate::Exit(code) => {
            &&& after.spec_state() == if before.spec_state() is Exited {
                before.spec_state()
            } else {
                SessionState::Exited(code)
            }
            &&& after.spec_buffer() == before.spec_buffer()
            &&& after.spec_pending() is None
        },
    }
}

/// Taking the session at index `i` out of `before` and putting `s`, with
/// the same id, back keeps the set of live ids, and `s` becomes the session
/// with that id.
proof fn lemma_reinsert(
    before: Seq<Session>,
    removed: Seq<Session>,
    after: Seq<Session>,
    i: int,
    s: Session,
)
    requires
        ids_unique(before),
        ids_unique(after),
        0 <= i < before.len(),
        removed == before.remove(i),
        after == removed.push(s),
        s.spec_id() == before[i].spec_id(),
    ensures
        forall|x: SessionId| has_id(after, x) == has_id(before, x),
        session_with(before, s.spec_id()) == before[i],
        session_with(after, s.spec_id()) == s,
{
    let id = s.spec_id();
    lemma_session_with_unique(before, id, i);
    lemma_session_with_unique(after, id, after.len() - 1);
    assert forall|x: SessionId| has_id(after, x) == has_id(before, x) by {
        if x != id {
            if has_id(before, x) {
                let k = choose|k: int| 0 <= k < before.len() && (#[trigger] before[k]).spec_id() == x;
                let rk = if k < i { k } else { k - 1 };
                assert(removed[rk] == before[k]);
                assert(after[rk] == removed[rk]);
            }
            if has_id(after, x) {
                let k = choose|k: int| 0 <= k < after.len() && (#[trigger] after[k]).spec_id() == x;
                assert(k < removed.len());
                assert(after[k] == removed[k]);
                let bk = if k < i { k } else { k + 1 };
                assert(removed[k] == before[bk]);
            }
        } else {
            assert(after[after.len() - 1].spec_id() == id);
            assert(before[i].spec_id() == id);
        }
    }
}

/// Apply `update` to the live session with id `id`. Fails with
/// `SessionNotFound`, changing nothing, when there is none; otherwise the
/// result is the session's own (`AlreadyExited` for a start or an
/// acknowledgement after termination).
pub fn update_session(registry: &mut SessionRegistry, id: SessionId, update: SessionUpdate) -> (r:
    Result<(), SessionError>)
    requires
        old(registry).wf(),
    ensures
        final(registry).wf(),
        forall|x: SessionId| has_id(final(registry)@, x) == has_id(old(registry)@, x),
        !has_id(old(registry)@, id) ==> r == Err::<(), SessionError>(SessionError::SessionNotFound)
            && final(registry)@ == old(registry)@,
        has_id(old(registry)@, id) ==> r == update_result(
            session_with(old(registry)@, id).spec_state(),
            update,
        ) && updated(session_with(old(registry)@, id), session_with(final(registry)@, id), update),
{
    let ghost before = registry@;
    if !registry.contains(id) {
        return Err(SessionError::SessionNotFound);
    }
    let mut session = match registry.remove(id) {
        Ok(s) => s,
        Err(e) => {
            return Err(e);
        },
    };
    let ghost i = choose|i: int|
        0 <= i < before.len() && before[i] == session && registry@ == before.remove(i);
    let ghost removed = registry@;
    let r = match update {
        SessionUpdate::Started => session.process_started(),
        SessionUpdate::Disconnect => {
            session.disconnect();
            Ok(())
        },
        SessionUpdate::Ack(seq) => session.ack(seq),
        SessionUpdate::Exit(code) => {
            session.exit(code);
            Ok(())
        },
    };
    let put = registry.insert(session);
    assert(put is Ok);
    proof {
        lemma_reinsert(before, removed, registry@, i, session);
    }
    r
}

/// Agent output for the session with id `id`, received at `at`: pushed into
/// its buffer, whatever its connection state, and its sequence number
/// returned. Fails with `SessionNotFound` when no such session is live, and
/// with `CommunicationError` when its sequence numbers are exhausted; either
/// failure changes nothing.
pub fn record_agent_output(
    registry: &mut SessionRegistry,
    id: SessionId,
    content: serde_json::Value,
    at: Timestamp,
) -> (r: Result<u64, SessionError>)
    requires
        old(registry).wf(),
    ensures
        final(registry).wf(),
        forall|x: SessionId| has_id(final(registry)@, x) == has_id(old(registry)@, x),
        !has_id(old(registry)@, id) ==> r == Err::<u64, SessionError>(SessionError::SessionNotFound),
        r is Err ==> final(registry)@ == old(registry)@,
        has_id(old(registry)@, id) ==> (r is Ok <==> session_with(
            old(registry)@,
            id,
        ).spec_buffer().spec_next_seq() < u64::MAX),
        r is Ok ==> ({
            let before = session_with(old(registry)@, id);
            let after = session_with(final(registry)@, id);
            &&& crate::buffer::pushed(before.spec_buffer(), after.spec_buffer(), r->Ok_0)
            &&& after.spec_buffer()@ == crate::buffer::keep_newest(
                before.spec_buffer()@.push(
                    (BufferedOutput { seq: r->Ok_0, content: content, timestamp: at }),
                ),
                before.spec_buffer().spec_max_size() as nat,
            )
            &&& after.spec_state() == before.spec_state()
            &&& after.spec_last_activity() == at
            &&& after.spec_pending() == before.spec_pending()
        }),
{
    let ghost before = registry@;
    match registry.get(id) {
        None => {
            return Err(SessionError::SessionNotFound);
        },
        Some(s) => {
            proof {
                let k = choose|k: int| 0 <= k < before.len() && before[k] == *s;
                lemma_session_with_unique(before, id, k);
            }
            if !s.can_record_output() {
                return Err(
                    SessionError::CommunicationError("sequence numbers exhausted".to_owned()),
                );
            }
        },
    }
    let mut session = match registry.remove(id) {
        Ok(s) => s,
        Err(e) => {
            return Err(e);
        },
    };
    let ghost i = choose|i: int|
        0 <= i < before.len() && before[i] == session && registry@ == before.remove(i);
    let ghost removed = registry@;
    proof {
        lemma_session_with_unique(before, id, i);
    }
    let seq = session.record_output(content, at);
    let put = registry.insert(session);
    assert(put is Ok);
    proof {
        lemma_reinsert(before, removed, registry@, i, session);
    }
    Ok(seq)
}

/// Client input for the session with id `id`: handed back for forwarding
/// to the agent process when the session accepts input. Fails with
/// `SessionNotFound` when no such session is live, else as
/// `Session::send_input` does.
pub fn client_input(registry: &SessionRegistry, id: SessionId, content: serde_json::Value) -> (r:
    Result<serde_json::Value, SessionError>)
    requires
        registry.wf(),
    ensures
        !has_id(registry@, id) ==> r == Err::<serde_json::Value, SessionError>(
            SessionError::SessionNotFound,
        ),
        has_id(registry@, id) ==> match session_with(registry@, id).spec_state() {
            SessionState::Exited(code) => r == Err::<serde_json::Value, SessionError>(
                SessionError::AlreadyExited(code),
            ),
            SessionState::Created => r is Err && r->Err_0 is CommunicationError,
            _ => r == Ok::<serde_json::Value, SessionError>(content),
        },
{
    match registry.get(id) {
        None => Err(SessionError::SessionNotFound),
        Some(s) => {
            proof {
                let k = choose|k: int| 0 <= k < registry@.len() && registry@[k] == *s;
                lemma_session_with_unique(registry@, id, k);
            }
            s.send_input(content)
        },
    }
}

/// The frames that replay `backlog`, oldest first.
pub fn replay_frames(backlog: &Vec<BufferedOutput>) -> (r: Vec<RelayMessage>)
    ensures
        r@ == output_frames(backlog@),
{
    let mut r: Vec<RelayMessage> = Vec::new();
    let mut i: usize = 0;
    while i < backlog.len()
        invariant
            i <= backlog@.len(),
            r@ == output_frames(backlog@.subrange(0, i as int)),
        decreases backlog@.len() - i,
    {
        r.push(RelayMessage::ClaudeOutput { content: backlog[i].content.clone() });
        i = i + 1;
        assert(output_frames(backlog@.subrange(0, i as int)) =~= output_frames(
            backlog@.subrange(0, i - 1 as int),
        ).push(RelayMessage::ClaudeOutput { content: backlog@[i - 1].content }));
    }
    assert(backlog@.subrange(0, backlog@.len() as int) =~= backlog@);
    r
}

} // verus!
