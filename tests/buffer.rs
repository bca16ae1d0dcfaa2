use claude_session::buffer::{BufferedOutput, OutputBuffer, DEFAULT_MAX_SIZE};
use claude_session::types::{SessionId, Timestamp};
use serde_json::Value;
use uuid::Uuid;

fn object(key: &str, value: Value) -> Value {
    let mut m = serde_json::Map::new();
    m.insert(key.to_string(), value);
    Value::Object(m)
}

fn fresh_id() -> SessionId {
    SessionId::from_u128(Uuid::new_v4().as_u128())
}

fn seqs(buffer: &OutputBuffer) -> Vec<u64> {
    buffer.pending().map(|o| o.seq).collect()
}

#[test]
fn test_push_and_ack() {
    let mut buffer = OutputBuffer::new(fresh_id());

    let seq1 = buffer.push(object("msg", Value::from("first")));
    let seq2 = buffer.push(object("msg", Value::from("second")));
    let seq3 = buffer.push(object("msg", Value::from("third")));

    assert_eq!(buffer.pending_count(), 3);
    assert_eq!(seq1, 0);
    assert_eq!(seq2, 1);
    assert_eq!(seq3, 2);

    buffer.ack(seq1);
    assert_eq!(buffer.pending_count(), 2);

    buffer.ack(seq3);
    assert_eq!(buffer.pending_count(), 0);
}

#[test]
fn test_max_size() {
    let mut buffer = OutputBuffer::with_max_size(fresh_id(), 3);

    buffer.push(Value::from(1));
    buffer.push(Value::from(2));
    buffer.push(Value::from(3));
    buffer.push(Value::from(4));

    assert_eq!(buffer.pending_count(), 3);

    let seqs: Vec<u64> = buffer.pending().map(|o| o.seq).collect();
    assert_eq!(seqs, vec![1, 2, 3]); // First one was dropped
}

#[test]
fn test_snapshot_roundtrip() {
    let session_id = fresh_id();
    let mut buffer = OutputBuffer::new(session_id);

    buffer.push(object("a", Value::from(1)));
    buffer.push(object("b", Value::from(2)));

    let snapshot = buffer.to_snapshot();
    let restored = OutputBuffer::from_snapshot(session_id, snapshot);

    assert_eq!(restored.pending_count(), 2);
    assert_eq!(restored.session_id(), session_id);
}

#[test]
fn overflow_keeps_newest_contents_in_order() {
    let mut buffer = OutputBuffer::with_max_size(fresh_id(), 3);
    for i in 0..4 {
        buffer.push(Value::from(i));
    }
    let contents: Vec<Value> = buffer.pending().map(|o| o.content.clone()).collect();
    assert_eq!(contents, vec![Value::from(1), Value::from(2), Value::from(3)]);
}

#[test]
fn ack_then_pending_count() {
    let mut buffer = OutputBuffer::new(fresh_id());
    assert_eq!(buffer.push(Value::from("x")), 0);
    assert_eq!(buffer.push(Value::from("y")), 1);
    buffer.ack(0);
    assert_eq!(buffer.pending_count(), 1);
    buffer.ack(1);
    assert_eq!(buffer.pending_count(), 0);
    assert!(buffer.is_empty());
}

#[test]
fn ack_is_idempotent_and_ignores_lower_seqs() {
    let mut buffer = OutputBuffer::new(fresh_id());
    for i in 0..5 {
        buffer.push(Value::from(i));
    }
    buffer.ack(2);
    assert_eq!(seqs(&buffer), vec![3, 4]);
    buffer.ack(2);
    buffer.ack(0);
    assert_eq!(seqs(&buffer), vec![3, 4]);
    buffer.ack(100);
    assert!(buffer.is_empty());
    assert_eq!(buffer.push(Value::from(9)), 5);
}

#[test]
fn seqs_increase_across_acks_and_evictions() {
    let mut buffer = OutputBuffer::with_max_size(fresh_id(), 2);
    let mut last: Option<u64> = None;
    for i in 0..10u64 {
        let s = buffer.push(Value::from(i));
        assert_eq!(s, i);
        if let Some(prev) = last {
            assert!(s > prev);
        }
        last = Some(s);
        if i % 3 == 0 {
            buffer.ack(s);
        }
        assert!(buffer.pending_count() <= 2);
    }
}

#[test]
fn zero_bound_keeps_nothing() {
    let mut buffer = OutputBuffer::with_max_size(fresh_id(), 0);
    assert_eq!(buffer.push(Value::from(1)), 0);
    assert_eq!(buffer.push(Value::from(2)), 1);
    assert!(buffer.is_empty());
    assert_eq!(buffer.next_seq(), 2);
}

#[test]
fn restore_continues_numbering() {
    let id = fresh_id();
    let mut buffer = OutputBuffer::new(id);
    for i in 0..4 {
        buffer.push(Value::from(i));
    }
    buffer.ack(1);
    let restored_entries = buffer.to_snapshot();
    let mut restored = OutputBuffer::from_snapshot(id, restored_entries);
    assert_eq!(seqs(&restored), seqs(&buffer));
    let contents: Vec<Value> = restored.pending().map(|o| o.content.clone()).collect();
    assert_eq!(contents, vec![Value::from(2), Value::from(3)]);
    assert_eq!(restored.next_seq(), buffer.next_seq());
    assert_eq!(restored.push(Value::from("next")), 4);
    assert_eq!(seqs(&restored), vec![2, 3, 4]);
}

#[test]
fn restore_from_empty_starts_at_zero() {
    let mut restored = OutputBuffer::from_snapshot(fresh_id(), Vec::new());
    assert_eq!(restored.next_seq(), 0);
    assert_eq!(restored.max_size(), DEFAULT_MAX_SIZE);
    assert_eq!(restored.push(Value::Null), 0);
}

#[test]
fn restore_offset_from_largest_seq() {
    let entries = vec![
        BufferedOutput { seq: 7, content: Value::from(1), timestamp: Timestamp::from_millis(0) },
        BufferedOutput { seq: 41, content: Value::from(2), timestamp: Timestamp::from_millis(5) },
    ];
    let mut restored = OutputBuffer::from_snapshot(fresh_id(), entries);
    assert_eq!(restored.next_seq(), 42);
    assert_eq!(restored.push(Value::from(3)), 42);
}

#[test]
fn clear_keeps_counter() {
    let mut buffer = OutputBuffer::new(fresh_id());
    buffer.push(Value::from(1));
    buffer.push(Value::from(2));
    buffer.clear();
    assert!(buffer.is_empty());
    assert_eq!(buffer.push(Value::from(3)), 2);
}

#[test]
fn default_bound() {
    let mut buffer = OutputBuffer::new(fresh_id());
    assert_eq!(buffer.max_size(), 1000);
    for i in 0..1001u64 {
        buffer.push(Value::from(i));
    }
    assert_eq!(buffer.pending_count(), 1000);
    assert_eq!(buffer.pending().next().unwrap().seq, 1);
}
