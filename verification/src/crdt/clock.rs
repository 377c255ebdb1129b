//! Points in time, as the registers order their edits.

use vstd::prelude::*;

verus! {

/// A point in time: seconds since the Unix epoch, and the nanoseconds past
/// that second (above 999_999_999 only within a leap second).
#[derive(Debug, Clone, Copy, PartialEq, Eq, Hash, Structural)]
pub struct Timestamp {
    pub secs: i64,
    pub nanos: u32,
}

/// `a` lies after `b`.
pub open spec fn is_later(a: Timestamp, b: Timestamp) -> bool {
    a.secs > b.secs || (a.secs == b.secs && a.nanos > b.nanos)
}

/// Calls `chrono::Utc::now` and splits the result into `DateTime::timestamp`
/// and `DateTime::timestamp_subsec_nanos`. The value comes from the system
/// clock; the source takes the nanoseconds from a `Duration`, so they are below
/// one second, which is all that is claimed.
#[verifier::external_body]
fn utc_now() -> (r: Timestamp)
    ensures
        r.nanos < 1_000_000_000,
{
    let now = chrono::Utc::now();
    Timestamp { secs: now.timestamp(), nanos: now.timestamp_subsec_nanos() }
}

impl Timestamp {
    /// The time of `secs` seconds and `nanos` nanoseconds after the Unix epoch.
    pub fn new(secs: i64, nanos: u32) -> (r: Timestamp)
        ensures
            r == (Timestamp { secs, nanos }),
    {
        Timestamp { secs, nanos }
    }

    /// The current time.
    pub fn now() -> (r: Timestamp)
        ensures
            r.nanos < 1_000_000_000,
    {
        utc_now()
    }

    /// Whether `self` lies after `other`.
    pub fn is_later_than(&self, other: &Timestamp) -> (r: bool)
        ensures
            r == is_later(*self, *other),
    {
        self.secs > other.secs || (self.secs == other.secs && self.nanos > other.nanos)
    }
}


/// Time is ordered chronologically: a time with more whole seconds since the
/// epoch lies later, whatever the nanoseconds; within one second, more
/// nanoseconds lie later; and no time lies after itself.
pub proof fn lemma_later_is_chronological(a: Timestamp, b: Timestamp)
    ensures
        a.secs > b.secs ==> is_later(a, b) && !is_later(b, a),
        a.secs == b.secs ==> (is_later(a, b) <==> a.nanos > b.nanos),
        !is_later(a, a),
{
}

} // verus!
