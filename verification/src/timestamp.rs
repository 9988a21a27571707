//! Points in time, in nanoseconds since the Unix epoch.

use vstd::prelude::*;

verus! {

/// Nanoseconds in one second.
pub const NANOS_PER_SECOND: u64 = 1_000_000_000;

/// A point in time with nanosecond precision.
#[derive(Clone, Copy, Debug, PartialEq, Eq, Structural)]
pub struct Timestamp {
    pub nanos: u64,
}

impl Timestamp {
    /// The time `seconds` later than `self`, as a number; it may lie beyond
    /// what a `Timestamp` can hold.
    pub open spec fn spec_plus_seconds(self, seconds: u64) -> int {
        self.nanos + seconds * NANOS_PER_SECOND
    }

    /// Whole seconds since the epoch.
    pub open spec fn spec_seconds(self) -> u64 {
        self.nanos / NANOS_PER_SECOND
    }

    pub fn from_nanos(nanos: u64) -> (t: Timestamp)
        ensures
            t.nanos == nanos,
    {
        Timestamp { nanos }
    }

    /// The timestamp `seconds` after the epoch, or `None` where that is
    /// beyond the representable range.
    pub fn from_seconds(seconds: u64) -> (t: Option<Timestamp>)
        ensures
            seconds * NANOS_PER_SECOND <= u64::MAX ==> t == Some(
                Timestamp { nanos: (seconds * NANOS_PER_SECOND) as u64 },
            ),
            seconds * NANOS_PER_SECOND > u64::MAX ==> t is None,
    {
        match seconds.checked_mul(NANOS_PER_SECOND) {
            Some(nanos) => Some(Timestamp { nanos }),
            None => None,
        }
    }

    pub fn nanos(&self) -> (n: u64)
        ensures
            n == self.nanos,
    {
        self.nanos
    }

    /// Whole seconds since the epoch; the nanoseconds are dropped.
    pub fn seconds(&self) -> (s: u64)
        ensures
            s == self.spec_seconds(),
    {
        self.nanos / NANOS_PER_SECOND
    }

    /// The time `seconds` later, or `None` where that is beyond the
    /// representable range.
    pub fn plus_seconds(&self, seconds: u64) -> (t: Option<Timestamp>)
        ensures
            self.spec_plus_seconds(seconds) <= u64::MAX ==> t == Some(
                Timestamp { nanos: self.spec_plus_seconds(seconds) as u64 },
            ),
            self.spec_plus_seconds(seconds) > u64::MAX ==> t is None,
    {
        match seconds.checked_mul(NANOS_PER_SECOND) {
            Some(delta) => match self.nanos.checked_add(delta) {
                Some(nanos) => Some(Timestamp { nanos }),
                None => None,
            },
            None => None,
        }
    }
}

} // verus!
