//! The stopwatch that the stream loops run against.

use vstd::prelude::*;

use super::time::{Duration, Instant, MAX_NANOS};

verus! {

/// The monotonic clock reading of the standard library, carried unread.
#[verifier::external_type_specification]
#[verifier::external_body]
pub struct ExInstant(std::time::Instant);

/// `std::time::Instant::now` reads the monotonic clock. Nothing is claimed
/// of the reading.
pub assume_specification[ std::time::Instant::now ]() -> std::time::Instant
;

/// `std::time::Instant::elapsed`, in nanoseconds: how far the monotonic clock
/// has moved on since `start`. What it gives depends on when it is called. It
/// is a span of whole seconds that fit in 64 bits and of less than a second
/// more, so only a bound is claimed of it.
#[verifier::external_body]
fn nanos_since(start: &std::time::Instant) -> (nanos: u128)
    ensures
        nanos <= MAX_NANOS,
{
    start.elapsed().as_nanos()
}

/// Monotonic stopwatch, used by the stream loops to decide when to stop
/// sending and to put points in time on everything that happens.
#[derive(Debug, Clone, Copy)]
pub struct Timer {
    start: std::time::Instant,
}

impl Timer {
    /// The stopwatch was started when the monotonic clock was read.
    pub closed spec fn was_started(self) -> bool {
        call_ensures(std::time::Instant::now, (), self.start)
    }

    /// The stopwatch shows `d` when it is asked.
    pub closed spec fn shows(self, d: Duration) -> bool {
        call_ensures(nanos_since, (&self.start,), d.nanos)
    }

    /// A stopwatch that starts running now.
    pub fn new() -> (t: Self)
        ensures
            t.was_started(),
    {
        Timer { start: std::time::Instant::now() }
    }

    /// How long the stopwatch has been running. That depends on when it is
    /// asked; it never exceeds the longest span.
    pub fn elapsed(&self) -> (d: Duration)
        ensures
            self.shows(d),
            d.nanos <= MAX_NANOS,
    {
        Duration { nanos: nanos_since(&self.start) }
    }

    /// Whether the stopwatch has been running for at least `duration`. An
    /// empty span has always passed, and one beyond the longest never has; in
    /// between it depends on when the stopwatch is asked.
    pub fn is_elapsed(&self, duration: Duration) -> (b: bool)
        ensures
            exists|d: Duration| #[trigger] self.shows(d) && b == (d.nanos >= duration.nanos),
            duration.nanos == 0 ==> b,
            duration.nanos > MAX_NANOS ==> !b,
    {
        has_elapsed(self.elapsed(), duration)
    }
}

impl Default for Timer {
    fn default() -> (t: Self)
        ensures
            t.was_started(),
    {
        Timer::new()
    }
}

/// A stopwatch, and the history of what it read. It can be asked in no other
/// way, so the history, which exists in proofs only, is complete. Contracts
/// over a clock say when it was asked, and what was done for what it read.
pub struct Clock {
    timer: Timer,
    history: Ghost<Seq<Instant>>,
}

impl Clock {
    /// The stopwatch that the clock goes by.
    pub closed spec fn stopwatch(&self) -> Timer {
        self.timer
    }

    /// Every reading so far, oldest first.
    pub closed spec fn log(&self) -> Seq<Instant> {
        self.history@
    }

    /// A clock that goes by a stopwatch, and was not asked yet.
    pub fn new(timer: Timer) -> (c: Clock)
        ensures
            c.stopwatch() == timer,
            c.log().len() == 0,
    {
        Clock { timer, history: Ghost(Seq::empty()) }
    }

    /// The point in time that it is now.
    pub fn read(&mut self) -> (t: Instant)
        ensures
            final(self).stopwatch() == old(self).stopwatch(),
            final(self).log() == old(self).log().push(t),
            old(self).stopwatch().shows(Duration { nanos: t.nanos }),
            t.nanos <= MAX_NANOS,
    {
        let t = Instant::at(self.timer.elapsed());
        self.history = Ghost(self.history@.push(t));
        t
    }
}

/// The readings between two states of a history.
pub open spec fn readings(before: Seq<Instant>, after: Seq<Instant>) -> Seq<Instant> {
    after.skip(before.len() as int)
}

/// The stopwatch showed each of these when it was asked.
pub open spec fn all_shown(stopwatch: Timer, times: Seq<Instant>) -> bool {
    forall|i: int|
        0 <= i < times.len() ==> stopwatch.shows(
            (Duration { nanos: (#[trigger] times[i]).nanos }),
        )
}

/// One more reading makes them longer by that one.
pub proof fn readings_after_push(before: Seq<Instant>, mid: Seq<Instant>, t: Instant)
    requires
        before.is_prefix_of(mid),
    ensures
        before.is_prefix_of(mid.push(t)),
        readings(before, mid.push(t)) == readings(before, mid).push(t),
{
    assert(readings(before, mid.push(t)) =~= readings(before, mid).push(t));
}

/// Whether a stopwatch that reads `elapsed` has run for at least `duration`.
pub fn has_elapsed(elapsed: Duration, duration: Duration) -> (b: bool)
    ensures
        b == (elapsed.nanos >= duration.nanos),
{
    elapsed.nanos >= duration.nanos
}

} // verus!
