use claude_session::error::SessionError;
use claude_session::permission::PermissionLedger;
use claude_session::registry::SessionRegistry;
use claude_session::relay::{
    client_input, record_agent_output, update_session, InboundAction, RelayConnection,
    RelayMessage, SessionUpdate,
};
use claude_session::session::{entries_restorable, Session, SessionState, UNKNOWN_EXIT_CODE};
use claude_session::snapshot::{SessionConfig, SessionSnapshot};
use claude_session::buffer::BufferedOutput;
use claude_session::types::{SessionId, Timestamp};
use serde_json::Value;

fn config(id: u128, resume: bool) -> SessionConfig {
    SessionConfig {
        session_id: SessionId::from_u128(id),
        working_directory: "/work".to_string(),
        session_name: "demo".to_string(),
        resume,
        claude_path: None,
    }
}

fn at(ms: i64) -> Timestamp {
    Timestamp::from_millis(ms)
}

fn register_frame(id: u128, resuming: bool) -> RelayMessage {
    RelayMessage::Register {
        session_id: SessionId::from_u128(id),
        session_name: "demo".to_string(),
        auth_token: None,
        working_directory: "/work".to_string(),
        resuming,
    }
}

fn output_contents(frames: &[RelayMessage]) -> Vec<Value> {
    frames
        .iter()
        .map(|f| match f {
            RelayMessage::ClaudeOutput { content } => content.clone(),
            _ => panic!("replay holds only output frames"),
        })
        .collect()
}

#[test]
fn resolve_wrong_id_then_right_id() {
    let mut ledger = PermissionLedger::new();
    ledger
        .record_request("r1".to_string(), "Bash".to_string(), Value::from("ls"))
        .unwrap();
    assert_eq!(
        ledger.resolve("r2".to_string()).err(),
        Some(SessionError::InvalidPermissionResponse("r2".to_string()))
    );
    assert!(ledger.has_pending());
    let p = ledger.resolve("r1".to_string()).unwrap();
    assert_eq!(p.request_id, "r1");
    assert_eq!(p.tool_name, "Bash");
    assert_eq!(p.input, Value::from("ls"));
    assert!(!ledger.has_pending());
}

#[test]
fn resolve_twice_fails() {
    let mut ledger = PermissionLedger::new();
    assert_eq!(
        ledger.resolve("never".to_string()).err(),
        Some(SessionError::InvalidPermissionResponse("never".to_string()))
    );
    ledger.record_request("a".to_string(), "Edit".to_string(), Value::Null).unwrap();
    assert!(ledger.resolve("a".to_string()).is_ok());
    assert_eq!(
        ledger.resolve("a".to_string()).err(),
        Some(SessionError::InvalidPermissionResponse("a".to_string()))
    );
}

#[test]
fn second_request_conflicts() {
    let mut ledger = PermissionLedger::new();
    ledger.record_request("a".to_string(), "Edit".to_string(), Value::Null).unwrap();
    assert_eq!(
        ledger.record_request("b".to_string(), "Bash".to_string(), Value::Null).err(),
        Some(SessionError::ConflictingRequest("b".to_string()))
    );
    assert_eq!(ledger.pending().as_ref().unwrap().request_id, "a");
}

#[test]
fn exited_session_refuses_input_and_acks() {
    let mut s = Session::new(config(1, false), at(0));
    assert_eq!(s.process_started(), Ok(()));
    assert_eq!(s.state(), SessionState::Running);
    assert_eq!(s.send_input(Value::from("hi")), Ok(Value::from("hi")));
    s.exit(3);
    assert_eq!(s.state(), SessionState::Exited(3));
    assert_eq!(s.send_input(Value::from("hi")), Err(SessionError::AlreadyExited(3)));
    assert_eq!(s.send_input(Value::Null), Err(SessionError::AlreadyExited(3)));
    assert_eq!(s.ack(0), Err(SessionError::AlreadyExited(3)));
    assert_eq!(s.process_started(), Err(SessionError::AlreadyExited(3)));
    s.exit(9);
    assert_eq!(s.state(), SessionState::Exited(3));
    assert_eq!(
        s.resolve_permission("x".to_string()).err(),
        Some(SessionError::AlreadyExited(3))
    );
}

#[test]
fn input_before_start_is_communication_error() {
    let s = Session::new(config(2, false), at(0));
    assert!(matches!(s.send_input(Value::Null), Err(SessionError::CommunicationError(_))));
}

#[test]
fn exit_drops_pending_permission() {
    let mut s = Session::new(config(3, false), at(0));
    s.process_started().unwrap();
    s.request_permission("p".to_string(), "Bash".to_string(), Value::Null, at(1)).unwrap();
    assert!(s.pending_permission().is_some());
    s.exit(0);
    assert!(s.pending_permission().is_none());
}

#[test]
fn session_snapshot_round_trip() {
    let mut s = Session::new(config(4, false), at(0));
    s.process_started().unwrap();
    s.record_output(Value::from("a"), at(10));
    s.record_output(Value::from("b"), at(20));
    s.ack(0).unwrap();
    s.request_permission("p1".to_string(), "Bash".to_string(), Value::from(1), at(25))
        .unwrap();
    s.disconnect();
    let snap = s.to_snapshot();
    assert!(snap.was_running);
    assert_eq!(snap.last_activity, at(20));
    let mut r = Session::from_snapshot(snap).unwrap();
    assert_eq!(r.state(), SessionState::Running);
    assert_eq!(r.id(), SessionId::from_u128(4));
    let seqs: Vec<u64> = r.buffer().pending().map(|o| o.seq).collect();
    assert_eq!(seqs, vec![1]);
    assert_eq!(r.pending_permission().as_ref().unwrap().request_id, "p1");
    assert_eq!(r.record_output(Value::from("c"), at(30)), 2);
}

#[test]
fn snapshot_of_exited_session_restores_exited() {
    let mut s = Session::new(config(5, false), at(0));
    s.process_started().unwrap();
    s.exit(1);
    let snap = s.to_snapshot();
    assert!(!snap.was_running);
    let r = Session::from_snapshot(snap).unwrap();
    assert_eq!(r.state(), SessionState::Exited(UNKNOWN_EXIT_CODE));
}

#[test]
fn malformed_snapshot_is_serialization_error() {
    let entries = vec![
        BufferedOutput { seq: 5, content: Value::Null, timestamp: at(0) },
        BufferedOutput { seq: 5, content: Value::Null, timestamp: at(0) },
    ];
    assert!(!entries_restorable(&entries));
    let snap = SessionSnapshot::new(SessionId::from_u128(6), config(6, true), entries, None, true);
    assert!(matches!(
        Session::from_snapshot(snap),
        Err(SessionError::SerializationError(_))
    ));
}

#[test]
fn idle_expiry_only_when_detached() {
    let mut s = Session::new(config(7, false), at(1000));
    s.process_started().unwrap();
    assert!(!s.is_idle_expired(at(100_000), 5000));
    s.disconnect();
    assert_eq!(s.state(), SessionState::Disconnected);
    assert!(!s.is_idle_expired(at(5999), 5000));
    assert!(s.is_idle_expired(at(6000), 5000));
}

#[test]
fn registry_create_lookup_remove() {
    let mut reg = SessionRegistry::new();
    let id = reg.get_or_create(config(10, false), None, at(0)).unwrap();
    assert_eq!(id, SessionId::from_u128(10));
    assert!(reg.contains(id));
    assert_eq!(reg.get(id).unwrap().state(), SessionState::Created);
    assert_eq!(
        reg.get_or_create(config(10, false), None, at(0)),
        Err(SessionError::SessionAlreadyExists)
    );
    assert_eq!(reg.get_or_create(config(10, true), None, at(0)), Ok(id));
    assert_eq!(reg.len(), 1);
    assert!(reg.remove(id).is_ok());
    assert!(reg.get(id).is_none());
    assert!(matches!(reg.remove(id), Err(SessionError::SessionNotFound)));
    assert_eq!(
        reg.get_or_create(config(10, true), None, at(0)),
        Err(SessionError::SessionNotFound)
    );
}

#[test]
fn registry_resume_from_snapshot() {
    let mut reg = SessionRegistry::new();
    let entries = vec![
        BufferedOutput { seq: 3, content: Value::from("x"), timestamp: at(0) },
        BufferedOutput { seq: 4, content: Value::from("y"), timestamp: at(1) },
    ];
    let snap = SessionSnapshot::new(SessionId::from_u128(11), config(11, false), entries, None, true);
    let id = reg.get_or_create(config(11, true), Some(snap), at(5)).unwrap();
    let s = reg.get(id).unwrap();
    assert_eq!(s.state(), SessionState::Running);
    assert_eq!(s.buffer().next_seq(), 5);
    assert_eq!(s.buffer().pending_count(), 2);
    let other = SessionSnapshot::new(SessionId::from_u128(99), config(99, false), Vec::new(), None, true);
    assert_eq!(
        reg.get_or_create(config(12, true), Some(other), at(5)),
        Err(SessionError::SessionNotFound)
    );
}

#[test]
fn registry_snapshot_all() {
    let mut reg = SessionRegistry::new();
    reg.get_or_create(config(20, false), None, at(0)).unwrap();
    reg.get_or_create(config(21, false), None, at(0)).unwrap();
    record_agent_output(&mut reg, SessionId::from_u128(21), Value::from(1), at(3)).unwrap();
    let snaps = reg.snapshot_all();
    assert_eq!(snaps.len(), 2);
    let s21 = snaps.iter().find(|s| s.id == SessionId::from_u128(21)).unwrap();
    assert_eq!(s21.pending_outputs.len(), 1);
    assert_eq!(s21.last_activity, at(3));
}

#[test]
fn register_must_come_first() {
    let conn = RelayConnection::new();
    assert!(matches!(
        conn.on_frame(RelayMessage::ClaudeInput { content: Value::Null }),
        InboundAction::Reject
    ));
    assert!(matches!(
        conn.on_frame(RelayMessage::Error { message: "x".to_string() }),
        InboundAction::Reject
    ));
    match conn.on_frame(register_frame(30, true)) {
        InboundAction::Register(c) => {
            assert_eq!(c.session_id, SessionId::from_u128(30));
            assert!(c.resume);
            assert_eq!(c.session_name, "demo");
            assert_eq!(c.working_directory, "/work");
        }
        _ => panic!("register expected"),
    }
}

#[test]
fn attached_connection_forwards_input() {
    let mut reg = SessionRegistry::new();
    let mut conn = RelayConnection::new();
    let frames = conn.register(&mut reg, config(31, false), None, at(0)).unwrap();
    assert!(frames.is_empty());
    assert_eq!(conn.attached(), Some(SessionId::from_u128(31)));
    match conn.on_frame(RelayMessage::ClaudeInput { content: Value::from("go") }) {
        InboundAction::Input(id, c) => {
            assert_eq!(id, SessionId::from_u128(31));
            assert_eq!(c, Value::from("go"));
        }
        _ => panic!("input expected"),
    }
    assert!(matches!(conn.on_frame(register_frame(31, true)), InboundAction::Ignore));
    let id = SessionId::from_u128(31);
    assert!(matches!(
        client_input(&reg, id, Value::Null),
        Err(SessionError::CommunicationError(_))
    ));
    update_session(&mut reg, id, SessionUpdate::Started).unwrap();
    assert_eq!(client_input(&reg, id, Value::from(1)), Ok(Value::from(1)));
    update_session(&mut reg, id, SessionUpdate::Exit(2)).unwrap();
    assert_eq!(client_input(&reg, id, Value::from(1)), Err(SessionError::AlreadyExited(2)));
    assert_eq!(
        client_input(&reg, SessionId::from_u128(999), Value::Null),
        Err(SessionError::SessionNotFound)
    );
}

#[test]
fn reconnect_replays_buffer_once_in_order() {
    let mut reg = SessionRegistry::new();
    let id = SessionId::from_u128(40);

    let mut first = RelayConnection::new();
    assert!(first.register(&mut reg, config(40, false), None, at(0)).unwrap().is_empty());
    update_session(&mut reg, id, SessionUpdate::Started).unwrap();
    let s0 = record_agent_output(&mut reg, id, Value::from("live-0"), at(1)).unwrap();
    let s1 = record_agent_output(&mut reg, id, Value::from("live-1"), at(2)).unwrap();
    update_session(&mut reg, id, SessionUpdate::Ack(s1)).unwrap();
    assert_eq!((s0, s1), (0, 1));

    first.disconnect(&mut reg);
    assert_eq!(first.attached(), None);
    assert_eq!(reg.get(id).unwrap().state(), SessionState::Disconnected);
    for i in 0..3 {
        record_agent_output(&mut reg, id, Value::from(format!("buffered-{}", i)), at(10 + i))
            .unwrap();
    }

    let mut second = RelayConnection::new();
    let replay = second.register(&mut reg, config(40, true), None, at(20)).unwrap();
    assert_eq!(
        output_contents(&replay),
        vec![Value::from("buffered-0"), Value::from("buffered-1"), Value::from("buffered-2")]
    );
    assert_eq!(reg.get(id).unwrap().state(), SessionState::Running);
    let next = record_agent_output(&mut reg, id, Value::from("live-2"), at(30)).unwrap();
    assert_eq!(next, 5);
    update_session(&mut reg, id, SessionUpdate::Ack(4)).unwrap();
    let pending: Vec<u64> = reg.get(id).unwrap().buffer().pending().map(|o| o.seq).collect();
    assert_eq!(pending, vec![5]);
}

#[test]
fn register_failure_leaves_connection_detached() {
    let mut reg = SessionRegistry::new();
    let mut conn = RelayConnection::new();
    assert_eq!(
        conn.register(&mut reg, config(50, true), None, at(0)).err(),
        Some(SessionError::SessionNotFound)
    );
    assert_eq!(conn.attached(), None);
    assert_eq!(reg.len(), 0);
}

#[test]
fn output_for_unknown_session_fails() {
    let mut reg = SessionRegistry::new();
    assert_eq!(
        record_agent_output(&mut reg, SessionId::from_u128(1), Value::Null, at(0)),
        Err(SessionError::SessionNotFound)
    );
    assert_eq!(
        update_session(&mut reg, SessionId::from_u128(1), SessionUpdate::Disconnect),
        Err(SessionError::SessionNotFound)
    );
}

#[test]
fn evict_idle_removes_only_detached_stale_sessions() {
    let mut reg = SessionRegistry::new();
    for n in 60..64u128 {
        reg.get_or_create(config(n, false), None, at(0)).unwrap();
        update_session(&mut reg, SessionId::from_u128(n), SessionUpdate::Started).unwrap();
    }
    // 60: disconnected long ago; 61: disconnected recently; 62: exited long ago; 63: running.
    update_session(&mut reg, SessionId::from_u128(60), SessionUpdate::Disconnect).unwrap();
    update_session(&mut reg, SessionId::from_u128(61), SessionUpdate::Disconnect).unwrap();
    record_agent_output(&mut reg, SessionId::from_u128(61), Value::Null, at(9000)).unwrap();
    update_session(&mut reg, SessionId::from_u128(62), SessionUpdate::Exit(0)).unwrap();
    let mut evicted: Vec<u128> = reg.evict_idle(at(10_000), 5000).iter().map(|i| i.as_u128()).collect();
    evicted.sort();
    assert_eq!(evicted, vec![60, 62]);
    assert_eq!(reg.len(), 2);
    assert!(reg.contains(SessionId::from_u128(61)));
    assert!(reg.contains(SessionId::from_u128(63)));
    assert_eq!(
        reg.get_or_create(config(60, true), None, at(10_001)),
        Err(SessionError::SessionNotFound)
    );
}

#[test]
fn load_snapshots_at_startup() {
    let mut reg = SessionRegistry::new();
    let entries = vec![BufferedOutput { seq: 0, content: Value::from("x"), timestamp: at(0) }];
    let snap = SessionSnapshot::new(SessionId::from_u128(70), config(70, false), entries, None, false);
    assert_eq!(reg.load_snapshot(snap), Ok(SessionId::from_u128(70)));
    assert_eq!(
        reg.get(SessionId::from_u128(70)).unwrap().state(),
        SessionState::Exited(UNKNOWN_EXIT_CODE)
    );
    let again = SessionSnapshot::new(SessionId::from_u128(70), config(70, false), Vec::new(), None, true);
    assert_eq!(reg.load_snapshot(again), Err(SessionError::SessionAlreadyExists));
    let bad = vec![
        BufferedOutput { seq: 2, content: Value::Null, timestamp: at(0) },
        BufferedOutput { seq: 1, content: Value::Null, timestamp: at(0) },
    ];
    let broken = SessionSnapshot::new(SessionId::from_u128(71), config(71, false), bad, None, true);
    assert!(matches!(reg.load_snapshot(broken), Err(SessionError::SerializationError(_))));
    assert_eq!(reg.len(), 1);
    let mut conn = RelayConnection::new();
    let replay = conn.register(&mut reg, config(70, true), None, at(1)).unwrap();
    assert_eq!(output_contents(&replay), vec![Value::from("x")]);
}
