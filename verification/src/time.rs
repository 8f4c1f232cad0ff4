//! Points in time and spans of time, in nanoseconds.

use vstd::prelude::*;

verus! {

/// The number of nanoseconds in a second.
pub const NANOS_PER_SEC: u128 = 1_000_000_000;

/// A span of time.
#[derive(Clone, Copy, Debug, PartialEq, Eq)]
pub struct Duration {
    pub nanos: u128,
}

/// A point in time on a monotonic clock, as the time since the clock's origin.
#[derive(Clone, Copy, Debug, PartialEq, Eq)]
pub struct Instant {
    pub nanos: u128,
}

impl Duration {
    /// A whole number of seconds.
    pub fn from_secs(secs: u64) -> (r: Duration)
        ensures
            r.nanos == secs * NANOS_PER_SEC,
            r.nanos == secs * 1_000_000_000,
    {
        Duration { nanos: secs as u128 * NANOS_PER_SEC }
    }
}

impl Instant {
    /// The point in time a given span later.
    pub fn after(self, span: Duration) -> (r: Instant)
        requires
            self.nanos + span.nanos <= u128::MAX,
        ensures
            r.nanos == self.nanos + span.nanos,
    {
        Instant { nanos: self.nanos + span.nanos }
    }
}

} // verus!
