//! Plain value types shared by the whole library, and the outside JSON
//! payload type that the library carries without looking inside.

use vstd::prelude::*;

verus! {

/// Opaque structured payload (agent output, tool input, client input).
#[verifier::external_type_specification]
#[verifier::external_body]
pub struct ExJsonValue(serde_json::Value);

/// Relies on the derived `Clone` of `serde_json::Value`: the copy is the same value.
pub assume_specification[ <serde_json::Value as Clone>::clone ](v: &serde_json::Value) -> (r:
    serde_json::Value)
    ensures
        r == *v,
;

/// Identifier of a session, held as the 128 bits of its UUID.
#[derive(Clone, Copy, Debug, PartialEq, Eq, Structural, Hash)]
pub struct SessionId {
    pub value: u128,
}

impl SessionId {
    pub fn from_u128(value: u128) -> (r: SessionId)
        ensures
            r.value == value,
    {
        SessionId { value }
    }

    pub fn as_u128(&self) -> (r: u128)
        ensures
            r == self.value,
    {
        self.value
    }
}

/// A point in time, in milliseconds since the Unix epoch (UTC).
#[derive(Clone, Copy, Debug, PartialEq, Eq, Structural, Hash)]
pub struct Timestamp {
    pub millis: i64,
}

impl Timestamp {
    pub fn from_millis(millis: i64) -> (r: Timestamp)
        ensures
            r.millis == millis,
    {
        Timestamp { millis }
    }

    /// Milliseconds elapsed from `earlier` to `self` (negative if `earlier` is later).
    pub fn millis_since(&self, earlier: Timestamp) -> (r: i128)
        ensures
            r == self.millis - earlier.millis,
    {
        self.millis as i128 - earlier.millis as i128
    }
}

/// Relies on `std::time::SystemTime::now`, chrono's
/// `From<SystemTime> for DateTime<Utc>` (which maps a clock before 1970 to a
/// negative timestamp) and `DateTime::timestamp_millis`: the current time of
/// the system clock. Nothing is promised of its value.
#[verifier::external_body]
pub(crate) fn now() -> (r: Timestamp) {
    Timestamp {
        millis: chrono::DateTime::<chrono::Utc>::from(std::time::SystemTime::now()).timestamp_millis(),
    }
}

} // verus!
