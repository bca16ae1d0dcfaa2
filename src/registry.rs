//! The registry of live sessions: creation, lookup, eviction, and
//! restoring a session from its snapshot on resume.

use vstd::prelude::*;

use crate::buffer::restorable;
use crate::error::SessionError;
use crate::session::{Session, SessionState, UNKNOWN_EXIT_CODE};
use crate::snapshot::{SessionConfig, SessionSnapshot};
use crate::types::{SessionId, Timestamp};

verus! {

/// Whether some session in `s` has id `id`.
pub open spec fn has_id(s: Seq<Session>, id: SessionId) -> bool {
    exists|i: int| 0 <= i < s.len() && (#[trigger] s[i]).spec_id() == id
}

/// No two sessions in `s` share an id.
pub open spec fn ids_unique(s: Seq<Session>) -> bool {
    forall|i: int, j: int|
        0 <= i < s.len() && 0 <= j < s.len() && i != j ==> (#[trigger] s[i]).spec_id() != (
        #[trigger] s[j]).spec_id()
}

/// `s` is what `Session::from_snapshot` builds from `snap`.
pub open spec fn restored_from(s: Session, snap: SessionSnapshot) -> bool {
    &&& s.wf()
    &&& s.spec_id() == snap.id
    &&& s.spec_config() == snap.config
    &&& s.spec_buffer()@ == snap.pending_outputs@
    &&& s.spec_buffer().spec_next_seq() == crate::buffer::next_seq_after(snap.pending_outputs@)
    &&& s.spec_pending() == snap.pending_permission
    &&& s.spec_last_activity() == snap.last_activity
    &&& s.spec_state() == if snap.was_running {
        SessionState::Running
    } else {
        SessionState::Exited(UNKNOWN_EXIT_CODE)
    }
}

/// `s` is a fresh session for `config` created at `at`.
pub open spec fn created_from(s: Session, config: SessionConfig, at: Timestamp) -> bool {
    &&& s.wf()
    &&& s.spec_id() == config.session_id
    &&& s.spec_config() == config
    &&& s.spec_state() == SessionState::Created
    &&& s.spec_buffer()@.len() == 0
    &&& s.spec_buffer().spec_next_seq() == 0
    &&& s.spec_pending() is None
    &&& s.spec_last_activity() == at
}

/// Whether registering with `config` succeeds against the live sessions `s`,
/// given `stored`, the persisted snapshot found for the configuration's id.
pub open spec fn register_succeeds(
    s: Seq<Session>,
    config: SessionConfig,
    stored: Option<SessionSnapshot>,
) -> bool {
    if !config.resume {
        !has_id(s, config.session_id)
    } else {
        has_id(s, config.session_id) || (stored is Some && stored->0.id == config.session_id
            && restorable(stored->0.pending_outputs@))
    }
}

/// The live session with id `id` in `s` (meaningful when there is one).
pub open spec fn session_with(s: Seq<Session>, id: SessionId) -> Session {
    s[choose|i: int| 0 <= i < s.len() && (#[trigger] s[i]).spec_id() == id]
}

/// In a sequence of sessions with unique ids, the session with a given id
/// is the one at any index that holds that id.
pub proof fn lemma_session_with_unique(s: Seq<Session>, id: SessionId, k: int)
    requires
        ids_unique(s),
        0 <= k < s.len(),
        s[k].spec_id() == id,
    ensures
        session_with(s, id) == s[k],
        has_id(s, id),
{
    let i = choose|i: int| 0 <= i < s.len() && (#[trigger] s[i]).spec_id() == id;
    assert(0 <= i < s.len() && s[i].spec_id() == id);
    if i != k {
        assert(s[i].spec_id() != s[k].spec_id());
    }
}

/// Whether `s` may be evicted at `at` under an idle limit of `idle_limit_ms`:
/// no client is attached (disconnected or exited) and it has been inactive
/// for at least that long.
pub open spec fn idle_expired(s: Session, at: Timestamp, idle_limit_ms: u64) -> bool {
    (s.spec_state() is Disconnected || s.spec_state() is Exited) && at.millis
        - s.spec_last_activity().millis >= idle_limit_ms
}

/// Process-wide map from session id to session.
pub struct SessionRegistry {
    sessions: Vec<Session>,
}

impl View for SessionRegistry {
    type V = Seq<Session>;

    /// The live sessions, in no particular order.
    closed spec fn view(&self) -> Seq<Session> {
        self.sessions@
    }
}

impl SessionRegistry {
    /// Ids are unique and every session is well formed.
    pub open spec fn wf(&self) -> bool {
        &&& ids_unique(self@)
        &&& forall|i: int| 0 <= i < self@.len() ==> (#[trigger] self@[i]).wf()
    }

    /// An empty registry.
    pub fn new() -> (r: SessionRegistry)
        ensures
            r.wf(),
            r@.len() == 0,
    {
        SessionRegistry { sessions: Vec::new() }
    }

    /// The number of live sessions.
    pub fn len(&self) -> (r: usize)
        ensures
            r == self@.len(),
    {
        self.sessions.len()
    }

    fn find(&self, id: SessionId) -> (r: Option<usize>)
        ensures
            r is Some ==> r->0 < self@.len() && self@[r->0 as int].spec_id() == id,
            r is None <==> !has_id(self@, id),
    {
        let mut i: usize = 0;
        while i < self.sessions.len()
            invariant
                i <= self@.len(),
                self@ == self.sessions@,
                forall|k: int| 0 <= k < i ==> (#[trigger] self@[k]).spec_id() != id,
            decreases self@.len() - i,
        {
            if self.sessions[i].id() == id {
                return Some(i);
            }
            i = i + 1;
        }
        None
    }

    /// Whether a session with id `id` is live.
    pub fn contains(&self, id: SessionId) -> (r: bool)
        ensures
            r == has_id(self@, id),
    {
        self.find(id).is_some()
    }

    /// The session with id `id`, if it is live.
    pub fn get(&self, id: SessionId) -> (r: Option<&Session>)
        ensures
            r is Some <==> has_id(self@, id),
            r is Some ==> self@.contains(*r->0) && r->0.spec_id() == id,
    {
        match self.find(id) {
            Some(i) => Some(&self.sessions[i]),
            None => None,
        }
    }

    /// Add a session. Fails with `SessionAlreadyExists`, changing nothing,
    /// when a session with the same id is live.
    pub fn insert(&mut self, session: Session) -> (r: Result<(), SessionError>)
        requires
            old(self).wf(),
            session.wf(),
        ensures
            final(self).wf(),
            r is Ok <==> !has_id(old(self)@, session.spec_id()),
            r is Ok ==> final(self)@ == old(self)@.push(session),
            r is Err ==> final(self)@ == old(self)@ && r == Err::<(), SessionError>(
                SessionError::SessionAlreadyExists,
            ),
    {
        if self.find(session.id()).is_some() {
            return Err(SessionError::SessionAlreadyExists);
        }
        self.sessions.push(session);
        proof {
            let s = self@;
            let n = s.len() - 1;
            assert forall|i: int, j: int|
                0 <= i < s.len() && 0 <= j < s.len() && i != j implies (#[trigger] s[i]).spec_id()
                != (#[trigger] s[j]).spec_id() by {
                if i == n {
                    assert(old(self)@[j] == s[j]);
                } else if j == n {
                    assert(old(self)@[i] == s[i]);
                } else {
                    assert(old(self)@[i] == s[i]);
                    assert(old(self)@[j] == s[j]);
                }
            }
            assert forall|i: int| 0 <= i < s.len() implies (#[trigger] s[i]).wf() by {
                if i < n {
                    assert(old(self)@[i] == s[i]);
                }
            }
        }
        Ok(())
    }

    /// Evict the session with id `id` and hand it back. Fails with
    /// `SessionNotFound`, changing nothing, when no such session is live.
    pub fn remove(&mut self, id: SessionId) -> (r: Result<Session, SessionError>)
        requires
            old(self).wf(),
        ensures
            final(self).wf(),
            r is Ok <==> has_id(old(self)@, id),
            r is Ok ==> r->Ok_0.spec_id() == id && r->Ok_0.wf(),
            r is Ok ==> exists|i: int|
                0 <= i < old(self)@.len() && old(self)@[i] == r->Ok_0 && final(self)@ == old(self)@.remove(i),
            !has_id(final(self)@, id),
            forall|x: SessionId| x != id ==> has_id(final(self)@, x) == has_id(old(self)@, x),
            r is Err ==> final(self)@ == old(self)@ && r == Err::<Session, SessionError>(
                SessionError::SessionNotFound,
            ),
    {
        match self.find(id) {
            None => Err(SessionError::SessionNotFound),
            Some(i) => {
                let s = self.sessions.remove(i);
                proof {
                    let o = old(self)@;
                    let f = self@;
                    assert(f =~= o.remove(i as int));
                    assert forall|a: int, b: int|
                        0 <= a < f.len() && 0 <= b < f.len() && a != b implies (#[trigger] f[a]).spec_id()
                        != (#[trigger] f[b]).spec_id() by {
                        let oa = if a < i { a } else { a + 1 };
                        let ob = if b < i { b } else { b + 1 };
                        assert(f[a] == o[oa]);
                        assert(f[b] == o[ob]);
                    }
                    assert forall|a: int| 0 <= a < f.len() implies (#[trigger] f[a]).wf() by {
                        let oa = if a < i { a } else { a + 1 };
                        assert(f[a] == o[oa]);
                    }
                    assert forall|a: int| 0 <= a < f.len() implies (#[trigger] f[a]).spec_id() != id by {
                        let oa = if a < i { a } else { a + 1 };
                        assert(f[a] == o[oa]);
                    }
                    assert forall|x: SessionId| x != id implies has_id(f, x) == has_id(o, x) by {
                        if has_id(o, x) {
                            let k = choose|k: int| 0 <= k < o.len() && (#[trigger] o[k]).spec_id() == x;
                            assert(k != i);
                            let fk = if k < i { k } else { k - 1 };
                            assert(f[fk] == o[k]);
                        }
                        if has_id(f, x) {
                            let k = choose|k: int| 0 <= k < f.len() && (#[trigger] f[k]).spec_id() == x;
                            let ok = if k < i { k } else { k + 1 };
                            assert(f[k] == o[ok]);
                        }
                    }
                }
                Ok(s)
            },
        }
    }

    /// Resolve a session for a connection that registers with `config`.
    ///
    /// Without `resume`, a fresh session in state `Created` is added under the
    /// configuration's id, which the client draws fresh; an id that is already
    /// live fails with `SessionAlreadyExists`. With `resume`, a live session
    /// with that id is used as it is; if none is live, the session is rebuilt
    /// from `stored`, the persisted snapshot for that id (running if its
    /// process was running, else exited). A missing snapshot, one of another
    /// id, or a malformed one fails with `SessionNotFound`. Failures change
    /// nothing. On success the session's id is returned.
    pub fn get_or_create(
        &mut self,
        config: SessionConfig,
        stored: Option<SessionSnapshot>,
        at: Timestamp,
    ) -> (r: Result<SessionId, SessionError>)
        requires
            old(self).wf(),
        ensures
            final(self).wf(),
            r is Ok <==> register_succeeds(old(self)@, config, stored),
            r is Ok ==> r->Ok_0 == config.session_id && has_id(final(self)@, config.session_id),
            r is Err ==> final(self)@ == old(self)@,
            !config.resume ==> (r is Ok <==> !has_id(old(self)@, config.session_id)),
            !config.resume && r is Ok ==> final(self)@.drop_last() == old(self)@ && final(self)@.len() == old(self)@.len() + 1 && created_from(final(self)@.last(), config, at),
            !config.resume && r is Err ==> r == Err::<SessionId, SessionError>(
                SessionError::SessionAlreadyExists,
            ),
            config.resume && has_id(old(self)@, config.session_id) ==> r == Ok::<
                SessionId,
                SessionError,
            >(config.session_id) && final(self)@ == old(self)@,
            config.resume && !has_id(old(self)@, config.session_id) ==> (r is Ok <==> (
            stored is Some && stored->0.id == config.session_id && restorable(
                stored->0.pending_outputs@,
            ))),
            config.resume && !has_id(old(self)@, config.session_id) && r is Ok ==> final(self)@.drop_last() == old(self)@ && final(self)@.len() == old(self)@.len() + 1
                && restored_from(final(self)@.last(), stored->0),
            config.resume && r is Err ==> r == Err::<SessionId, SessionError>(
                SessionError::SessionNotFound,
            ),
    {
        let id = config.session_id;
        let live = self.contains(id);
        if !config.resume {
            if live {
                return Err(SessionError::SessionAlreadyExists);
            }
            let s = Session::new(config, at);
            let ins = self.insert(s);
            assert(ins is Ok);
            assert(self@.drop_last() =~= old(self)@);
            assert(self@[self@.len() - 1].spec_id() == id);
            return Ok(id);
        }
        if live {
            return Ok(id);
        }
        match stored {
            None => Err(SessionError::SessionNotFound),
            Some(snap) => {
                if snap.id != id {
                    return Err(SessionError::SessionNotFound);
                }
                match Session::from_snapshot(snap) {
                    Err(_) => Err(SessionError::SessionNotFound),
                    Ok(s) => {
                        let ins = self.insert(s);
                        assert(ins is Ok);
                        assert(self@.drop_last() =~= old(self)@);
                        assert(self@[self@.len() - 1].spec_id() == id);
                        Ok(id)
                    },
                }
            },
        }
    }

    /// Load a persisted session at startup. Fails with `SerializationError`
    /// when the snapshot's buffered outputs are malformed, and with
    /// `SessionAlreadyExists` when a session with its id is live; failures
    /// change nothing. On success the restored session is added and its id
    /// returned.
    pub fn load_snapshot(&mut self, snapshot: SessionSnapshot) -> (r: Result<SessionId, SessionError>)
        requires
            old(self).wf(),
        ensures
            final(self).wf(),
            r is Ok <==> restorable(snapshot.pending_outputs@) && !has_id(old(self)@, snapshot.id),
            r is Ok ==> r->Ok_0 == snapshot.id && final(self)@.drop_last() == old(self)@
                && final(self)@.len() == old(self)@.len() + 1 && restored_from(
                final(self)@.last(),
                snapshot,
            ),
            r is Err ==> final(self)@ == old(self)@,
            !restorable(snapshot.pending_outputs@) ==> r is Err && r->Err_0 is SerializationError,
            restorable(snapshot.pending_outputs@) && has_id(old(self)@, snapshot.id) ==> r == Err::<
                SessionId,
                SessionError,
            >(SessionError::SessionAlreadyExists),
    {
        let id = snapshot.id;
        let session = match Session::from_snapshot(snapshot) {
            Ok(s) => s,
            Err(e) => {
                return Err(e);
            },
        };
        match self.insert(session) {
            Ok(()) => {
                assert(self@.drop_last() =~= old(self)@);
                Ok(id)
            },
            Err(e) => Err(e),
        }
    }

    /// Snapshot every live session (before the service stops).
    pub fn snapshot_all(&self) -> (r: Vec<SessionSnapshot>)
        requires
            self.wf(),
        ensures
            r@.len() == self@.len(),
            forall|i: int|
                0 <= i < r@.len() ==> {
                    let (snap, s) = (#[trigger] r@[i], self@[i]);
                    &&& snap.id == s.spec_id()
                    &&& snap.config == s.spec_config()
                    &&& snap.pending_outputs@ == s.spec_buffer()@
                    &&& snap.pending_permission == s.spec_pending()
                    &&& snap.last_activity == s.spec_last_activity()
                    &&& snap.was_running == crate::session::is_live(s.spec_state())
                },
    {
        let mut r: Vec<SessionSnapshot> = Vec::new();
        let mut i: usize = 0;
        while i < self.sessions.len()
            invariant
                i <= self@.len(),
                self@ == self.sessions@,
                self.wf(),
                r@.len() == i,
                forall|k: int|
                    0 <= k < i ==> {
                        let (snap, s) = (#[trigger] r@[k], self@[k]);
                        &&& snap.id == s.spec_id()
                        &&& snap.config == s.spec_config()
                        &&& snap.pending_outputs@ == s.spec_buffer()@
                        &&& snap.pending_permission == s.spec_pending()
                        &&& snap.last_activity == s.spec_last_activity()
                        &&& snap.was_running == crate::session::is_live(s.spec_state())
                    },
            decreases self@.len() - i,
        {
            assert(self@[i as int].wf());
            let snap = self.sessions[i].to_snapshot();
            r.push(snap);
            i = i + 1;
        }
        r
    }

    /// Evict every session that is idle-expired at `at` under the limit
    /// `idle_limit_ms`, and return their ids. The other sessions stay, unchanged.
    pub fn evict_idle(&mut self, at: Timestamp, idle_limit_ms: u64) -> (r: Vec<SessionId>)
        requires
            old(self).wf(),
        ensures
            final(self).wf(),
            forall|x: SessionId|
                has_id(final(self)@, x) <==> has_id(old(self)@, x) && !idle_expired(
                    session_with(old(self)@, x),
                    at,
                    idle_limit_ms,
                ),
            forall|x: SessionId|
                has_id(final(self)@, x) ==> session_with(final(self)@, x) == session_with(
                    old(self)@,
                    x,
                ),
            forall|x: SessionId|
                r@.contains(x) <==> has_id(old(self)@, x) && idle_expired(
                    session_with(old(self)@, x),
                    at,
                    idle_limit_ms,
                ),
    {
        let ghost orig = self@;
        let mut kept: Vec<Session> = Vec::new();
        let mut evicted: Vec<SessionId> = Vec::new();
        let ghost mut idx: Seq<int> = Seq::empty();
        while self.sessions.len() > 0
            invariant
                self@ == self.sessions@,
                self@ == orig.subrange(0, self@.len() as int),
                self@.len() <= orig.len(),
                ids_unique(orig),
                forall|i: int| 0 <= i < orig.len() ==> (#[trigger] orig[i]).wf(),
                idx.len() == kept@.len(),
                forall|k: int|
                    0 <= k < kept@.len() ==> self@.len() <= #[trigger] idx[k] < orig.len()
                        && kept@[k] == orig[idx[k]] && !idle_expired(
                        orig[idx[k]],
                        at,
                        idle_limit_ms,
                    ),
                forall|k1: int, k2: int|
                    0 <= k1 < k2 < kept@.len() ==> #[trigger] idx[k1] > #[trigger] idx[k2],
                forall|j: int|
                    self@.len() <= j < orig.len() && !idle_expired(orig[j], at, idle_limit_ms)
                        ==> exists|k: int| 0 <= k < kept@.len() && #[trigger] idx[k] == j,
                forall|x: SessionId|
                    evicted@.contains(x) <==> exists|j: int|
                        self@.len() <= j < orig.len() && (#[trigger] orig[j]).spec_id() == x
                            && idle_expired(orig[j], at, idle_limit_ms),
            decreases self.sessions.len(),
        {
            let n = self.sessions.len();
            let ghost j = (n - 1) as int;
            let s = self.sessions.pop().unwrap();
            assert(s == orig[j]);
            assert(self.sessions@ =~= orig.subrange(0, j));
            if s.is_idle_expired(at, idle_limit_ms) {
                let ghost old_evicted = evicted@;
                evicted.push(s.id());
                proof {
                    assert forall|x: SessionId| evicted@.contains(x) <==> exists|jj: int|
                        j <= jj < orig.len() && (#[trigger] orig[jj]).spec_id() == x
                            && idle_expired(orig[jj], at, idle_limit_ms) by {
                        if evicted@.contains(x) {
                            let t = choose|t: int| 0 <= t < evicted@.len() && evicted@[t] == x;
                            if t < old_evicted.len() {
                                assert(old_evicted[t] == x);
                                assert(old_evicted.contains(x));
                            } else {
                                assert(orig[j].spec_id() == x);
                            }
                        }
                        if exists|jj: int|
                            j <= jj < orig.len() && (#[trigger] orig[jj]).spec_id() == x
                                && idle_expired(orig[jj], at, idle_limit_ms) {
                            let jj = choose|jj: int|
                                j <= jj < orig.len() && (#[trigger] orig[jj]).spec_id() == x
                                    && idle_expired(orig[jj], at, idle_limit_ms);
                            if jj == j {
                                assert(evicted@[evicted@.len() - 1] == x);
                            } else {
                                assert(old_evicted.contains(x));
                                let t = choose|t: int| 0 <= t < old_evicted.len() && old_evicted[t] == x;
                                assert(evicted@[t] == x);
                            }
                        }
                    }
                }
            } else {
                kept.push(s);
                proof {
                    let old_idx = idx;
                    idx = idx.push(j);
                    assert forall|jj: int|
                        j <= jj < orig.len() && !idle_expired(orig[jj], at, idle_limit_ms)
                            implies exists|k: int| 0 <= k < kept@.len() && #[trigger] idx[k] == jj by {
                        if jj == j {
                            assert(idx[idx.len() - 1] == j);
                        } else {
                            let k = choose|k: int| 0 <= k < old_idx.len() && #[trigger] old_idx[k] == jj;
                            assert(idx[k] == jj);
                        }
                    }
                }
            }
        }
        self.sessions = kept;
        proof {
            let f = self@;
            assert forall|a: int, b: int|
                0 <= a < f.len() && 0 <= b < f.len() && a != b implies (#[trigger] f[a]).spec_id()
                != (#[trigger] f[b]).spec_id() by {
                assert(idx[a] != idx[b]);
            }
            assert forall|a: int| 0 <= a < f.len() implies (#[trigger] f[a]).wf() by {
                assert(f[a] == orig[idx[a]]);
            }
            assert forall|x: SessionId|
                has_id(f, x) <==> has_id(orig, x) && !idle_expired(
                    session_with(orig, x),
                    at,
                    idle_limit_ms,
                ) by {
                if has_id(f, x) {
                    let k = choose|k: int| 0 <= k < f.len() && (#[trigger] f[k]).spec_id() == x;
                    lemma_session_with_unique(orig, x, idx[k]);
                }
                if has_id(orig, x) && !idle_expired(session_with(orig, x), at, idle_limit_ms) {
                    let j = choose|j: int| 0 <= j < orig.len() && (#[trigger] orig[j]).spec_id() == x;
                    lemma_session_with_unique(orig, x, j);
                    let k = choose|k: int| 0 <= k < kept@.len() && #[trigger] idx[k] == j;
                    assert(f[k].spec_id() == x);
                }
            }
            assert forall|x: SessionId| has_id(f, x) implies session_with(f, x) == session_with(
                orig,
                x,
            ) by {
                let k = choose|k: int| 0 <= k < f.len() && (#[trigger] f[k]).spec_id() == x;
                lemma_session_with_unique(orig, x, idx[k]);
                lemma_session_with_unique(f, x, k);
            }
            assert forall|x: SessionId|
                evicted@.contains(x) <==> has_id(orig, x) && idle_expired(
                    session_with(orig, x),
                    at,
                    idle_limit_ms,
                ) by {
                if evicted@.contains(x) {
                    let j = choose|j: int|
                        0 <= j < orig.len() && (#[trigger] orig[j]).spec_id() == x && idle_expired(
                            orig[j],
                            at,
                            idle_limit_ms,
                        );
                    lemma_session_with_unique(orig, x, j);
                }
                if has_id(orig, x) && idle_expired(session_with(orig, x), at, idle_limit_ms) {
                    let j = choose|j: int| 0 <= j < orig.len() && (#[trigger] orig[j]).spec_id() == x;
                    lemma_session_with_unique(orig, x, j);
                }
            }
        }
        evicted
    }
}

} // verus!
