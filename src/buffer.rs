//! Bounded, sequence-numbered buffer of output awaiting client acknowledgement.

use std::collections::vec_deque::Iter;
use std::collections::VecDeque;

use vstd::prelude::*;
use vstd::std_specs::vecdeque::into_iter_elts;

use crate::types::{now, SessionId, Timestamp};

verus! {

/// Default bound on the number of buffered entries.
pub const DEFAULT_MAX_SIZE: usize = 1000;

/// A buffered output message with its sequence number.
pub struct BufferedOutput {
    pub seq: u64,
    pub content: serde_json::Value,
    pub timestamp: Timestamp,
}

impl BufferedOutput {
    /// A copy of this entry.
    pub fn duplicate(&self) -> (r: BufferedOutput)
        ensures
            r == *self,
    {
        BufferedOutput { seq: self.seq, content: self.content.clone(), timestamp: self.timestamp }
    }
}

/// The sequence numbers of `s`, in order.
pub open spec fn seqs_of(s: Seq<BufferedOutput>) -> Seq<u64> {
    s.map_values(|o: BufferedOutput| o.seq)
}

/// Sequence numbers strictly increase from the oldest entry to the newest.
pub open spec fn strictly_increasing(s: Seq<BufferedOutput>) -> bool {
    forall|i: int, j: int| 0 <= i < j < s.len() ==> s[i].seq < s[j].seq
}

/// Entries that a buffer can be restored from: in increasing order, and
/// leaving room for a next sequence number.
pub open spec fn restorable(s: Seq<BufferedOutput>) -> bool {
    &&& strictly_increasing(s)
    &&& (s.len() > 0 ==> s.last().seq < u64::MAX)
}

/// The sequence number that follows entries `s` (0 when there are none).
pub open spec fn next_seq_after(s: Seq<BufferedOutput>) -> nat {
    if s.len() == 0 {
        0
    } else {
        s.last().seq as nat + 1
    }
}

/// The newest `n` elements of `s` (all of them when there are at most `n`).
pub open spec fn keep_newest<T>(s: Seq<T>, n: nat) -> Seq<T> {
    if s.len() <= n {
        s
    } else {
        s.subrange(s.len() - n, s.len() as int)
    }
}

/// The sequence numbers `lo`, `lo + 1`, ..., `hi - 1`.
pub open spec fn seq_range(lo: nat, hi: nat) -> Seq<u64> {
    Seq::new((hi - lo) as nat, |i: int| (lo + i) as u64)
}

/// Buffer of outputs kept for replay when a client reattaches.
pub struct OutputBuffer {
    session_id: SessionId,
    outputs: VecDeque<BufferedOutput>,
    next_seq: u64,
    max_size: usize,
}

impl View for OutputBuffer {
    type V = Seq<BufferedOutput>;

    /// The pending entries, oldest first.
    closed spec fn view(&self) -> Seq<BufferedOutput> {
        self.outputs@
    }
}

impl OutputBuffer {
    pub closed spec fn spec_session_id(&self) -> SessionId {
        self.session_id
    }

    /// The sequence number the next `push` assigns.
    pub closed spec fn spec_next_seq(&self) -> u64 {
        self.next_seq
    }

    pub closed spec fn spec_max_size(&self) -> usize {
        self.max_size
    }

    /// Entries are in increasing order, all below the next sequence number,
    /// the newest directly below it, and there are at most `max_size` of them.
    pub open spec fn wf(&self) -> bool {
        &&& self@.len() <= self.spec_max_size()
        &&& strictly_increasing(self@)
        &&& forall|i: int| 0 <= i < self@.len() ==> #[trigger] self@[i].seq < self.spec_next_seq()
        &&& self@.len() > 0 ==> self@.last().seq + 1 == self.spec_next_seq()
    }

    /// Create a new empty buffer with the default bound.
    pub fn new(session_id: SessionId) -> (r: OutputBuffer)
        ensures
            r.wf(),
            r@ == Seq::<BufferedOutput>::empty(),
            r.spec_next_seq() == 0,
            r.spec_max_size() == DEFAULT_MAX_SIZE,
            r.spec_session_id() == session_id,
    {
        OutputBuffer { session_id, outputs: VecDeque::new(), next_seq: 0, max_size: DEFAULT_MAX_SIZE }
    }

    /// Create a new empty buffer holding at most `max_size` entries.
    pub fn with_max_size(session_id: SessionId, max_size: usize) -> (r: OutputBuffer)
        ensures
            r.wf(),
            r@ == Seq::<BufferedOutput>::empty(),
            r.spec_next_seq() == 0,
            r.spec_max_size() == max_size,
            r.spec_session_id() == session_id,
    {
        OutputBuffer { session_id, outputs: VecDeque::new(), next_seq: 0, max_size }
    }

    /// The session this buffer belongs to.
    pub fn session_id(&self) -> (r: SessionId)
        ensures
            r == self.spec_session_id(),
    {
        self.session_id
    }

    /// The sequence number the next `push` assigns.
    pub fn next_seq(&self) -> (r: u64)
        ensures
            r == self.spec_next_seq(),
    {
        self.next_seq
    }

    /// The bound on the number of entries.
    pub fn max_size(&self) -> (r: usize)
        ensures
            r == self.spec_max_size(),
    {
        self.max_size
    }

    /// Append `content` stamped with `timestamp` under the next sequence
    /// number, then drop the oldest entries beyond `max_size`.
    /// Returns the assigned sequence number.
    pub fn push_at(&mut self, content: serde_json::Value, timestamp: Timestamp) -> (r: u64)
        requires
            old(self).wf(),
            old(self).spec_next_seq() < u64::MAX,
        ensures
            final(self).wf(),
            r == old(self).spec_next_seq(),
            final(self).spec_next_seq() == r + 1,
            final(self)@ == keep_newest(
                old(self)@.push((BufferedOutput { seq: r, content: content, timestamp: timestamp })),
                old(self).spec_max_size() as nat,
            ),
            seqs_of(final(self)@) == keep_newest(
                seqs_of(old(self)@).push(r),
                old(self).spec_max_size() as nat,
            ),
            final(self).spec_max_size() == old(self).spec_max_size(),
            final(self).spec_session_id() == old(self).spec_session_id(),
            forall|i: int| 0 <= i < old(self)@.len() ==> #[trigger] old(self)@[i].seq < r,
            pushed(*old(self), *final(self), r),
    {
        let seq = self.next_seq;
        self.next_seq = seq + 1;
        let ghost entry = BufferedOutput { seq, content, timestamp };
        self.outputs.push_back(BufferedOutput { seq, content, timestamp });
        let ghost full = self.outputs@;
        assert(full == old(self)@.push(entry));
        while self.outputs.len() > self.max_size
            invariant
                full.len() > self.max_size ==> self.max_size <= self.outputs@.len(),
                full.len() <= self.max_size ==> self.outputs@ == full,
                self.outputs@ == full.subrange(full.len() - self.outputs@.len(), full.len() as int),
                self.outputs@.len() <= full.len(),
                self.max_size == old(self).max_size,
                self.next_seq == seq + 1,
                self.session_id == old(self).session_id,
            decreases self.outputs.len(),
        {
            self.outputs.pop_front();
            assert(self.outputs@ =~= full.subrange(
                full.len() - self.outputs@.len(),
                full.len() as int,
            ));
        }
        proof {
            assert(self.outputs@ =~= keep_newest(full, self.max_size as nat));
            assert(seqs_of(self.outputs@) =~= keep_newest(
                seqs_of(old(self)@).push(seq),
                self.max_size as nat,
            ));
            assert forall|i: int, j: int|
                0 <= i < j < self@.len() implies self@[i].seq < self@[j].seq by {
                let off = full.len() - self@.len();
                assert(self@[i] == full[off + i]);
                assert(self@[j] == full[off + j]);
                if off + j < old(self)@.len() {
                    assert(old(self)@[off + i].seq < old(self)@[off + j].seq);
                } else if off + i < old(self)@.len() {
                    assert(old(self)@[off + i].seq < seq);
                }
            }
            assert forall|i: int| 0 <= i < self@.len() implies #[trigger] self@[i].seq
                < self.next_seq by {
                let off = full.len() - self@.len();
                assert(self@[i] == full[off + i]);
                if off + i < old(self)@.len() {
                    assert(full[off + i] == old(self)@[off + i]);
                    assert(old(self)@[off + i].seq < seq);
                }
            }
            if self@.len() > 0 {
                assert(self@.last() == full.last());
            }
        }
        seq
    }

    /// Append `content` stamped with the current time under the next sequence
    /// number, then drop the oldest entries beyond `max_size`.
    /// Returns the assigned sequence number.
    pub fn push(&mut self, content: serde_json::Value) -> (r: u64)
        requires
            old(self).wf(),
            old(self).spec_next_seq() < u64::MAX,
        ensures
            final(self).wf(),
            r == old(self).spec_next_seq(),
            final(self).spec_next_seq() == r + 1,
            exists|t: Timestamp|
                final(self)@ == keep_newest(
                    #[trigger] old(self)@.push(
                        (BufferedOutput { seq: r, content: content, timestamp: t }),
                    ),
                    old(self).spec_max_size() as nat,
                ),
            seqs_of(final(self)@) == keep_newest(
                seqs_of(old(self)@).push(r),
                old(self).spec_max_size() as nat,
            ),
            final(self).spec_max_size() == old(self).spec_max_size(),
            final(self).spec_session_id() == old(self).spec_session_id(),
            forall|i: int| 0 <= i < old(self)@.len() ==> #[trigger] old(self)@[i].seq < r,
            pushed(*old(self), *final(self), r),
    {
        let timestamp = now();
        let ghost c = content;
        let r = self.push_at(content, timestamp);
        assert(self@ == keep_newest(
            old(self)@.push((BufferedOutput { seq: r, content: c, timestamp: timestamp })),
            old(self).spec_max_size() as nat,
        ));
        r
    }

    /// Mark outputs up to and including `seq` as consumed: every entry with a
    /// sequence number at most `seq` is removed, the rest keep their order.
    pub fn ack(&mut self, seq: u64)
        requires
            old(self).wf(),
        ensures
            final(self).wf(),
            forall|i: int| 0 <= i < final(self)@.len() ==> #[trigger] final(self)@[i].seq > seq,
            final(self)@.len() <= old(self)@.len(),
            (forall|i: int| 0 <= i < old(self)@.len() ==> #[trigger] old(self)@[i].seq > seq)
                ==> final(self)@ == old(self)@,
            final(self)@ == old(self)@.subrange(
                old(self)@.len() - final(self)@.len(),
                old(self)@.len() as int,
            ),
            forall|i: int|
                0 <= i < old(self)@.len() && #[trigger] old(self)@[i].seq > seq
                    ==> final(self)@.contains(old(self)@[i]),
            forall|i: int|
                0 <= i < old(self)@.len() && #[trigger] old(self)@[i].seq <= seq
                    ==> !final(self)@.contains(old(self)@[i]),
            final(self).spec_next_seq() == old(self).spec_next_seq(),
            final(self).spec_max_size() == old(self).spec_max_size(),
            final(self).spec_session_id() == old(self).spec_session_id(),
    {
        let ghost start = self.outputs@;
        let ghost n = start.len();
        while self.outputs.len() > 0 && self.outputs[0].seq <= seq
            invariant
                self.outputs@ == start.subrange(n - self.outputs@.len(), n as int),
                self.outputs@.len() <= n,
                start == old(self)@,
                n == start.len(),
                strictly_increasing(start),
                forall|i: int| 0 <= i < n - self.outputs@.len() ==> #[trigger] start[i].seq <= seq,
                self.max_size == old(self).max_size,
                self.next_seq == old(self).next_seq,
                self.session_id == old(self).session_id,
            decreases self.outputs.len(),
        {
            self.outputs.pop_front();
            assert(self.outputs@ =~= start.subrange(n - self.outputs@.len(), n as int));
        }
        proof {
            let off = n - self@.len();
            if forall|i: int| 0 <= i < n ==> #[trigger] start[i].seq > seq {
                if off > 0 {
                    assert(start[0].seq <= seq);
                }
                assert(self@ =~= start);
            }
            assert forall|i: int| 0 <= i < self@.len() implies #[trigger] self@[i].seq > seq by {
                assert(self@[i] == start[off + i]);
                assert(self@[0] == start[off]);
                if i > 0 {
                    assert(start[off].seq < start[off + i].seq);
                }
            }
            assert forall|i: int| 0 <= i < n && #[trigger] start[i].seq > seq implies self@.contains(
                start[i],
            ) by {
                assert(i >= off);
                assert(self@[i - off] == start[i]);
            }
            assert forall|i: int| 0 <= i < self@.len() implies #[trigger] self@[i].seq
                < self.next_seq by {
                assert(self@[i] == start[off + i]);
            }
            if self@.len() > 0 {
                assert(self@.last() == start.last());
            }
        }
    }

    /// The pending (unacknowledged) entries, oldest first.
    pub fn pending(&self) -> (r: Iter<'_, BufferedOutput>)
        ensures
            into_iter_elts(r) == self@.as_ref(),
    {
        self.outputs.iter()
    }

    /// The number of pending entries.
    pub fn pending_count(&self) -> (r: usize)
        ensures
            r == self@.len(),
    {
        self.outputs.len()
    }

    /// Whether no entry is pending.
    pub fn is_empty(&self) -> (r: bool)
        ensures
            r == (self@.len() == 0),
    {
        self.outputs.len() == 0
    }

    /// Rebuild a buffer from exported entries. The next sequence number is
    /// one past the largest restored one, or 0 when there are none; the bound
    /// is the default one, or the number of entries if that is larger.
    pub fn from_snapshot(session_id: SessionId, outputs: Vec<BufferedOutput>) -> (r: OutputBuffer)
        requires
            restorable(outputs@),
        ensures
            r.wf(),
            r@ == outputs@,
            r.spec_next_seq() == next_seq_after(outputs@),
            forall|i: int| 0 <= i < outputs@.len() ==> #[trigger] outputs@[i].seq < r.spec_next_seq(),
            r.spec_max_size() == if outputs@.len() > DEFAULT_MAX_SIZE {
                outputs@.len() as usize
            } else {
                DEFAULT_MAX_SIZE
            },
            r.spec_session_id() == session_id,
    {
        let len = outputs.len();
        let next_seq: u64 = if len == 0 {
            0
        } else {
            outputs[len - 1].seq + 1
        };
        let max_size: usize = if len > DEFAULT_MAX_SIZE {
            len
        } else {
            DEFAULT_MAX_SIZE
        };
        proof {
            assert forall|i: int| 0 <= i < outputs@.len() implies #[trigger] outputs@[i].seq
                < next_seq by {
                if i < outputs@.len() - 1 {
                    assert(outputs@[i].seq < outputs@[outputs@.len() - 1].seq);
                }
            }
        }
        let ghost all = outputs@;
        let mut rest = outputs;
        let mut queue: VecDeque<BufferedOutput> = VecDeque::new();
        while rest.len() > 0
            invariant
                rest@ + queue@ == all,
            decreases rest.len(),
        {
            let ghost before = rest@;
            let x = rest.pop().unwrap();
            queue.push_front(x);
            assert(before == rest@.push(x));
            assert(rest@ + queue@ =~= all);
        }
        assert(queue@ =~= all);
        OutputBuffer { session_id, outputs: queue, next_seq, max_size }
    }

    /// Export the pending entries, oldest first.
    pub fn to_snapshot(&self) -> (r: Vec<BufferedOutput>)
        ensures
            r@ == self@,
    {
        let mut r: Vec<BufferedOutput> = Vec::new();
        let mut i: usize = 0;
        while i < self.outputs.len()
            invariant
                i <= self.outputs@.len(),
                r@ == self.outputs@.subrange(0, i as int),
            decreases self.outputs@.len() - i,
        {
            r.push(self.outputs[i].duplicate());
            i = i + 1;
            assert(r@ =~= self.outputs@.subrange(0, i as int));
        }
        assert(r@ =~= self.outputs@);
        r
    }

    /// Drop every pending entry; the sequence counter is kept.
    pub fn clear(&mut self)
        requires
            old(self).wf(),
        ensures
            final(self).wf(),
            final(self)@ == Seq::<BufferedOutput>::empty(),
            final(self).spec_next_seq() == old(self).spec_next_seq(),
            final(self).spec_max_size() == old(self).spec_max_size(),
            final(self).spec_session_id() == old(self).spec_session_id(),
    {
        self.outputs.clear();
    }
}

/// `after` is `before` after one `push` that returned `r`.
pub open spec fn pushed(before: OutputBuffer, after: OutputBuffer, r: u64) -> bool {
    &&& before.wf()
    &&& after.wf()
    &&& r == before.spec_next_seq()
    &&& after.spec_next_seq() == r + 1
    &&& seqs_of(after@) == keep_newest(seqs_of(before@).push(r), before.spec_max_size() as nat)
    &&& after.spec_max_size() == before.spec_max_size()
    &&& after.spec_session_id() == before.spec_session_id()
}

/// `bs` is a run of buffers, each the previous one after a `push` that
/// returned the matching element of `rs`.
pub open spec fn push_run(bs: Seq<OutputBuffer>, rs: Seq<u64>) -> bool {
    &&& bs.len() == rs.len() + 1
    &&& bs[0].wf()
    &&& forall|k: int| 0 <= k < rs.len() ==> pushed(#[trigger] bs[k], bs[k + 1], rs[k])
}

proof fn lemma_push_run_numbers(bs: Seq<OutputBuffer>, rs: Seq<u64>, k: int)
    requires
        push_run(bs, rs),
        0 <= k <= rs.len(),
    ensures
        bs[k].spec_next_seq() == bs[0].spec_next_seq() + k,
        k < rs.len() ==> rs[k] == bs[0].spec_next_seq() + k,
    decreases k,
{
    if k > 0 {
        lemma_push_run_numbers(bs, rs, k - 1);
        assert(pushed(bs[k - 1], bs[k], rs[k - 1]));
    }
    if k < rs.len() {
        assert(pushed(bs[k], bs[k + 1], rs[k]));
    }
}

/// Over any run of pushes the returned sequence numbers strictly increase,
/// one by one, starting at the buffer's next sequence number: at 0 for a
/// fresh buffer, at the restored offset after a restore.
pub proof fn lemma_push_seqs_strictly_increase(bs: Seq<OutputBuffer>, rs: Seq<u64>)
    requires
        push_run(bs, rs),
    ensures
        forall|i: int, j: int| 0 <= i < j < rs.len() ==> rs[i] < rs[j],
        forall|k: int| 0 <= k < rs.len() ==> #[trigger] rs[k] == bs[0].spec_next_seq() + k,
{
    assert forall|k: int| 0 <= k < rs.len() implies #[trigger] rs[k] == bs[0].spec_next_seq()
        + k by {
        lemma_push_run_numbers(bs, rs, k);
    }
    assert forall|i: int, j: int| 0 <= i < j < rs.len() implies rs[i] < rs[j] by {
        lemma_push_run_numbers(bs, rs, i);
        lemma_push_run_numbers(bs, rs, j);
    }
}

/// After `n` pushes into a fresh buffer bounded by `m`, exactly the newest
/// `min(n, m)` sequence numbers are pending, oldest first, newest last;
/// the length never exceeds the bound.
pub proof fn lemma_fresh_pushes_keep_newest(bs: Seq<OutputBuffer>, rs: Seq<u64>)
    requires
        push_run(bs, rs),
        bs[0]@.len() == 0,
        bs[0].spec_next_seq() == 0,
    ensures
        forall|k: int| 0 <= k < bs.len() ==> (#[trigger] bs[k])@.len() <= bs[0].spec_max_size(),
        seqs_of(bs.last()@) == seq_range(
            if rs.len() > bs[0].spec_max_size() {
                (rs.len() - bs[0].spec_max_size()) as nat
            } else {
                0
            },
            rs.len(),
        ),
{
    lemma_fresh_pushes_prefix(bs, rs, rs.len() as int);
    assert forall|k: int| 0 <= k < bs.len() implies (#[trigger] bs[k])@.len() <= bs[0].spec_max_size() by {
        lemma_push_run_max_size(bs, rs, k);
    }
}

proof fn lemma_push_run_max_size(bs: Seq<OutputBuffer>, rs: Seq<u64>, k: int)
    requires
        push_run(bs, rs),
        0 <= k < bs.len(),
    ensures
        bs[k].spec_max_size() == bs[0].spec_max_size(),
        bs[k].wf(),
    decreases k,
{
    if k > 0 {
        lemma_push_run_max_size(bs, rs, k - 1);
        assert(pushed(bs[k - 1], bs[k], rs[k - 1]));
    } else if rs.len() > 0 {
        assert(pushed(bs[0], bs[1], rs[0]));
    }
}

proof fn lemma_fresh_pushes_prefix(bs: Seq<OutputBuffer>, rs: Seq<u64>, k: int)
    requires
        push_run(bs, rs),
        bs[0]@.len() == 0,
        bs[0].spec_next_seq() == 0,
        0 <= k <= rs.len(),
    ensures
        seqs_of(bs[k]@) == seq_range(
            if k > bs[0].spec_max_size() {
                (k - bs[0].spec_max_size()) as nat
            } else {
                0
            },
            k as nat,
        ),
    decreases k,
{
    let m = bs[0].spec_max_size() as int;
    if k == 0 {
        assert(seqs_of(bs[0]@) =~= seq_range(0, 0));
    } else {
        lemma_fresh_pushes_prefix(bs, rs, k - 1);
        lemma_push_run_numbers(bs, rs, k - 1);
        lemma_push_run_max_size(bs, rs, k - 1);
        assert(pushed(bs[k - 1], bs[k], rs[k - 1]));
        let lo: int = if k - 1 > m {
            k - 1 - m
        } else {
            0
        };
        let prev = seq_range(lo as nat, (k - 1) as nat);
        assert(prev.push((k - 1) as u64) =~= seq_range(lo as nat, k as nat));
        let lo2: int = if k > m {
            k - m
        } else {
            0
        };
        assert(keep_newest(seq_range(lo as nat, k as nat), m as nat) =~= seq_range(
            lo2 as nat,
            k as nat,
        ));
    }
}

/// Restoring the export of a well-formed buffer is always possible, gives
/// back the same pending entries, and every restored sequence number lies
/// below the restored next one, so later pushes never collide with them.
/// Whenever the buffer still holds its newest entry, or has never been
/// pushed to, the restored next sequence number is the buffer's own.
pub proof fn lemma_restore_of_snapshot(b: OutputBuffer)
    requires
        b.wf(),
    ensures
        restorable(b@),
        forall|i: int| 0 <= i < b@.len() ==> #[trigger] b@[i].seq < next_seq_after(b@),
        (b@.len() > 0 || b.spec_next_seq() == 0) ==> next_seq_after(b@) == b.spec_next_seq(),
{
    assert forall|i: int| 0 <= i < b@.len() implies #[trigger] b@[i].seq < next_seq_after(b@) by {
        if i < b@.len() - 1 {
            assert(b@[i].seq < b@[b@.len() - 1].seq);
        }
    }
}

/// `after` is `before` after one operation of the buffer: a `push` (which
/// returned `before`'s next sequence number), or an `ack` or a `clear`
/// (which keep the counter).
pub open spec fn buffer_step(before: OutputBuffer, after: OutputBuffer) -> bool {
    pushed(before, after, before.spec_next_seq()) || (after.wf() && after.spec_next_seq()
        == before.spec_next_seq())
}

proof fn lemma_counter_monotone(bs: Seq<OutputBuffer>, i: int, j: int)
    requires
        forall|k: int| 0 <= k < bs.len() - 1 ==> buffer_step(#[trigger] bs[k], bs[k + 1]),
        0 <= i <= j < bs.len(),
    ensures
        bs[i].spec_next_seq() <= bs[j].spec_next_seq(),
    decreases j - i,
{
    if i < j {
        lemma_counter_monotone(bs, i, j - 1);
        assert(buffer_step(bs[j - 1], bs[j]));
    }
}

/// Sequence numbers are never reused: over any run of pushes, acks and
/// clears, a push returns a number larger than that of every earlier push,
/// and every entry pending at any point is numbered below the next push.
pub proof fn lemma_push_numbers_never_reused(bs: Seq<OutputBuffer>)
    requires
        bs.len() > 0,
        bs[0].wf(),
        forall|k: int| 0 <= k < bs.len() - 1 ==> buffer_step(#[trigger] bs[k], bs[k + 1]),
    ensures
        forall|i: int, j: int|
            0 <= i < j < bs.len() - 1 && pushed(#[trigger] bs[i], bs[i + 1], bs[i].spec_next_seq())
                && pushed(#[trigger] bs[j], bs[j + 1], bs[j].spec_next_seq())
                ==> bs[i].spec_next_seq() < bs[j].spec_next_seq(),
        forall|i: int, j: int, e: int|
            0 <= i <= j < bs.len() && 0 <= e < bs[i]@.len() ==> (#[trigger] bs[i]@[e]).seq
                < (#[trigger] bs[j]).spec_next_seq(),
{
    assert forall|i: int, j: int|
        0 <= i < j < bs.len() - 1 && pushed(#[trigger] bs[i], bs[i + 1], bs[i].spec_next_seq())
            && pushed(#[trigger] bs[j], bs[j + 1], bs[j].spec_next_seq()) implies bs[i].spec_next_seq()
        < bs[j].spec_next_seq() by {
        lemma_counter_monotone(bs, i + 1, j);
    }
    assert forall|i: int, j: int, e: int|
        0 <= i <= j < bs.len() && 0 <= e < bs[i]@.len() implies (#[trigger] bs[i]@[e]).seq
        < (#[trigger] bs[j]).spec_next_seq() by {
        lemma_counter_monotone(bs, i, j);
        if i > 0 {
            assert(buffer_step(bs[i - 1], bs[i]));
        }
        assert(bs[i].wf());
    }
}

} // verus!
