//! Correlation of the agent's tool-permission requests with exactly one
//! client response. A second request while one is pending is rejected.

use vstd::prelude::*;

use crate::error::SessionError;
use crate::types::{now, Timestamp};

verus! {

/// A permission request that has not been responded to yet.
pub struct PendingPermission {
    /// Request identifier, as issued by the agent.
    pub request_id: String,
    /// Name of the tool asking for permission.
    pub tool_name: String,
    /// Tool input parameters.
    pub input: serde_json::Value,
    /// When the request was received.
    pub requested_at: Timestamp,
}

impl PendingPermission {
    /// A copy of this request.
    pub fn duplicate(&self) -> (r: PendingPermission)
        ensures
            r == *self,
    {
        PendingPermission {
            request_id: self.request_id.clone(),
            tool_name: self.tool_name.clone(),
            input: self.input.clone(),
            requested_at: self.requested_at,
        }
    }
}

/// A copy of an optional pending request.
pub fn duplicate_pending(p: &Option<PendingPermission>) -> (r: Option<PendingPermission>)
    ensures
        r == *p,
{
    match p {
        Some(q) => Some(q.duplicate()),
        None => None,
    }
}

/// Whether a response carrying `id` matches the pending request `pending`.
pub open spec fn matches_pending(pending: Option<PendingPermission>, id: Seq<char>) -> bool {
    pending is Some && pending->0.request_id@ == id
}

/// At most one outstanding permission request.
pub struct PermissionLedger {
    pending: Option<PendingPermission>,
}

impl View for PermissionLedger {
    type V = Option<PendingPermission>;

    /// The outstanding request, if any.
    closed spec fn view(&self) -> Option<PendingPermission> {
        self.pending
    }
}

impl PermissionLedger {
    /// A ledger with no outstanding request.
    pub fn new() -> (r: PermissionLedger)
        ensures
            r@ is None,
    {
        PermissionLedger { pending: None }
    }

    /// A ledger holding `pending`, as restored from a snapshot.
    pub fn from_pending(pending: Option<PendingPermission>) -> (r: PermissionLedger)
        ensures
            r@ == pending,
    {
        PermissionLedger { pending }
    }

    /// The outstanding request, if any.
    pub fn pending(&self) -> (r: &Option<PendingPermission>)
        ensures
            *r == self@,
    {
        &self.pending
    }

    /// Whether a request is outstanding.
    pub fn has_pending(&self) -> (r: bool)
        ensures
            r == self@ is Some,
    {
        self.pending.is_some()
    }

    /// Record a request received at `requested_at`. Fails with
    /// `ConflictingRequest` carrying the new id, and changes nothing, when a
    /// request is already outstanding.
    pub fn record_request_at(
        &mut self,
        request_id: String,
        tool_name: String,
        input: serde_json::Value,
        requested_at: Timestamp,
    ) -> (r: Result<(), SessionError>)
        ensures
            old(self)@ is None <==> r is Ok,
            r is Ok ==> final(self)@ == Some(
                (PendingPermission { request_id, tool_name, input, requested_at }),
            ),
            r is Err ==> final(self)@ == old(self)@,
            r is Err ==> r == Err::<(), SessionError>(SessionError::ConflictingRequest(request_id)),
    {
        if self.pending.is_some() {
            return Err(SessionError::ConflictingRequest(request_id));
        }
        self.pending = Some(PendingPermission { request_id, tool_name, input, requested_at });
        Ok(())
    }

    /// Record a request received now. Fails with `ConflictingRequest`
    /// carrying the new id, and changes nothing, when a request is already
    /// outstanding.
    pub fn record_request(
        &mut self,
        request_id: String,
        tool_name: String,
        input: serde_json::Value,
    ) -> (r: Result<(), SessionError>)
        ensures
            old(self)@ is None <==> r is Ok,
            r is Ok ==> final(self)@ is Some,
            r is Ok ==> final(self)@->0.request_id == request_id,
            r is Ok ==> final(self)@->0.tool_name == tool_name,
            r is Ok ==> final(self)@->0.input == input,
            r is Err ==> final(self)@ == old(self)@,
            r is Err ==> r == Err::<(), SessionError>(SessionError::ConflictingRequest(request_id)),
    {
        let at = now();
        self.record_request_at(request_id, tool_name, input, at)
    }

    /// Match a response to the outstanding request. On a match the slot is
    /// cleared and the request handed back; otherwise fails with
    /// `InvalidPermissionResponse(request_id)` and changes nothing.
    pub fn resolve(&mut self, request_id: String) -> (r: Result<PendingPermission, SessionError>)
        ensures
            r is Ok <==> matches_pending(old(self)@, request_id@),
            r is Ok ==> Some(r->Ok_0) == old(self)@ && final(self)@ is None,
            r is Err ==> final(self)@ == old(self)@,
            r is Err ==> r == Err::<PendingPermission, SessionError>(
                SessionError::InvalidPermissionResponse(request_id),
            ),
    {
        let matched = match &self.pending {
            Some(p) => p.request_id == request_id,
            None => false,
        };
        if !matched {
            return Err(SessionError::InvalidPermissionResponse(request_id));
        }
        match self.pending.take() {
            Some(p) => Ok(p),
            None => Err(SessionError::InvalidPermissionResponse(request_id)),
        }
    }

    /// Drop the outstanding request, if any (the session has ended).
    pub fn clear(&mut self)
        ensures
            final(self)@ is None,
    {
        self.pending = None;
    }
}

/// A response can never be matched twice, nor match an id other than the
/// outstanding one: once a request is resolved the slot is empty, and every
/// later response fails until a new request is recorded; with a request
/// outstanding, any other id fails.
pub proof fn lemma_resolve_only_recorded(pending: Option<PendingPermission>, id: Seq<char>)
    ensures
        !matches_pending(None, id),
        pending is None ==> !matches_pending(pending, id),
        pending is Some && pending->0.request_id@ != id ==> !matches_pending(pending, id),
{
}

} // verus!
