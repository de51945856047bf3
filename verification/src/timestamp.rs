//! Points in time, as seconds and nanoseconds since the Unix epoch. The library reads no
//! clock: the caller hands the time in.

use vstd::prelude::*;

verus! {

/// A point in time on the UTC scale: whole seconds since 1970-01-01T00:00:00Z, and the
/// nanoseconds since that second began. Two timestamps are ordered by their seconds,
/// then by their nanoseconds.
#[derive(Debug, Clone, Copy, PartialEq, Eq, Structural)]
pub struct Timestamp {
    pub secs: i64,
    pub nanos: u32,
}

/// The number of seconds in `days` days.
pub open spec fn seconds_in_days(days: int) -> int {
    days * 86_400
}

impl Timestamp {
    /// Whether `self` lies strictly before `other`.
    pub open spec fn precedes(self, other: Timestamp) -> bool {
        self.secs < other.secs || (self.secs == other.secs && self.nanos < other.nanos)
    }

    /// Whether `self` lies more than `days` days before `now`: strictly before the
    /// point that has the nanoseconds of `now` and lies `days` days earlier.
    pub open spec fn older_than(self, now: Timestamp, days: int) -> bool {
        let limit = now.secs - seconds_in_days(days);
        self.secs < limit || (self.secs == limit && self.nanos < now.nanos)
    }

    /// Whether `self` lies strictly before `other`.
    pub fn is_before(&self, other: &Timestamp) -> (r: bool)
        ensures
            r == self.precedes(*other),
    {
        self.secs < other.secs || (self.secs == other.secs && self.nanos < other.nanos)
    }

    /// Whether `self` lies more than `days` days before `now`.
    pub fn is_older_than(&self, now: &Timestamp, days: i64) -> (r: bool)
        ensures
            r == self.older_than(*now, days as int),
    {
        let span: i128 = (days as i128) * 86_400;
        let limit: i128 = (now.secs as i128) - span;
        let mine: i128 = self.secs as i128;
        mine < limit || (mine == limit && self.nanos < now.nanos)
    }
}

} // verus!
