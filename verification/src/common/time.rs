//! Spans of time and points in time, in whole nanoseconds.

use vstd::prelude::*;

verus! {

/// The longest span: the last nanosecond before 2^64 seconds.
pub const MAX_NANOS: u128 = 18_446_744_073_709_551_615_999_999_999;

/// Nanoseconds in a second.
pub const NANOS_PER_SEC: u128 = 1_000_000_000;

/// A span of time.
#[derive(Debug, Clone, Copy, PartialEq, Eq, PartialOrd, Ord, Structural)]
pub struct Duration {
    pub nanos: u128,
}

impl Duration {
    /// The empty span.
    pub fn zero() -> (d: Duration)
        ensures
            d.nanos == 0,
    {
        Duration { nanos: 0 }
    }

    pub fn from_secs(secs: u64) -> (d: Duration)
        ensures
            d.nanos == secs * NANOS_PER_SEC,
            d.nanos <= MAX_NANOS,
    {
        Duration { nanos: secs as u128 * NANOS_PER_SEC }
    }

    pub fn from_millis(millis: u64) -> (d: Duration)
        ensures
            d.nanos == millis * 1_000_000,
            d.nanos <= MAX_NANOS,
    {
        Duration { nanos: millis as u128 * 1_000_000 }
    }

    /// Whether the span is empty.
    pub fn is_zero(self) -> (b: bool)
        ensures
            b == (self.nanos == 0),
    {
        self.nanos == 0
    }

    /// One span after the other.
    pub fn plus(self, other: Duration) -> (d: Duration)
        requires
            self.nanos + other.nanos <= MAX_NANOS,
        ensures
            d.nanos == self.nanos + other.nanos,
    {
        Duration { nanos: self.nanos + other.nanos }
    }
}

/// A point in time: how long after its clock was started it lies.
#[derive(Debug, Clone, Copy, PartialEq, Eq, PartialOrd, Ord, Structural)]
pub struct Instant {
    pub nanos: u128,
}

impl Instant {
    /// The point that lies `elapsed` after the start of its clock.
    pub fn at(elapsed: Duration) -> (t: Instant)
        ensures
            t.nanos == elapsed.nanos,
    {
        Instant { nanos: elapsed.nanos }
    }

    /// The point that lies `d` later.
    pub fn plus(self, d: Duration) -> (t: Instant)
        requires
            self.nanos + d.nanos <= u128::MAX,
        ensures
            t.nanos == self.nanos + d.nanos,
    {
        Instant { nanos: self.nanos + d.nanos }
    }

    /// Nanoseconds from `earlier` to this point; none if it is not earlier.
    pub open spec fn nanos_since(self, earlier: Instant) -> int {
        if self.nanos >= earlier.nanos {
            self.nanos - earlier.nanos
        } else {
            0
        }
    }

    /// The span from `earlier` to this point, empty if it is not earlier.
    pub fn duration_since(self, earlier: Instant) -> (d: Duration)
        ensures
            d.nanos == self.nanos_since(earlier),
    {
        if self.nanos >= earlier.nanos {
            Duration { nanos: self.nanos - earlier.nanos }
        } else {
            Duration { nanos: 0 }
        }
    }
}

/// Going on by a span and looking back gives the span.
pub proof fn looking_back_gives_the_span(t: Instant, d: Duration, later: Instant)
    requires
        later.nanos == t.nanos + d.nanos,
    ensures
        later.nanos_since(t) == d.nanos,
        t.nanos_since(later) == 0,
{
}

} // verus!
