//! Interval reporting.
//!
//! Both the client's send loop and the server's receive loop feed byte
//! counts through an `IntervalReporter`. The reporter holds a running total
//! and a boundary clock; when a delivery reaches the next boundary it gives
//! an `IntervalSnapshot` for the caller to print.

use vstd::prelude::*;
use vstd::arithmetic::power2::*;

use super::binary64::{at_least_a_millionth, nearest, positive_seconds, pow2_pos, seconds};
use super::binary64::{seconds_between, span_seconds, to_seconds, Double};
use super::time::{Duration, Instant, MAX_NANOS};

verus! {

/// One reported interval: from `start` to `end` since the first byte of the
/// stream, with the bytes counted within.
#[derive(Debug, Clone, Copy, PartialEq, Eq, Structural)]
pub struct IntervalSnapshot {
    pub stream_id: u32,
    pub start: Duration,
    pub end: Duration,
    pub bytes: u64,
}

/// Millions of bits per second of `n` bytes over `secs`.
pub open spec fn megabit_rate(n: u64, secs: Double) -> Double {
    nearest(n as int, 1).product(nearest(8, 1)).quotient(nearest(1_000_000, 1)).quotient(
        positive_seconds(secs),
    )
}

/// Millions of bits per second of `n` bytes over `secs`.
pub fn megabits_per_second(n: u64, secs: Double) -> (d: Double)
    requires
        secs.within(-5_000, 60),
    ensures
        d == megabit_rate(n, secs),
        d.within(-300, 30),
{
    proof {
        lemma2_to64();
        assert(pow2_pos(3) <= 8 < pow2_pos(4));
        assert(pow2_pos(19) <= 1_000_000 < pow2_pos(20));
    }
    let bits = Double::from_u64(n).times(Double::from_u64(8));
    bits.div(Double::from_u64(1_000_000)).div(at_least_a_millionth(secs))
}

impl IntervalSnapshot {
    /// Both ends fit a span of time.
    pub open spec fn wf(self) -> bool {
        &&& self.start.nanos <= MAX_NANOS
        &&& self.end.nanos <= MAX_NANOS
    }

    /// The length of the interval in seconds.
    pub open spec fn length(self) -> Double {
        seconds_between(seconds(self.start), seconds(self.end))
    }

    /// Throughput within the interval in millions of bits per second.
    pub fn mbits_per_sec(&self) -> (d: Double)
        requires
            self.wf(),
        ensures
            d == megabit_rate(self.bytes, self.length()),
            d.within(-300, 30),
    {
        let secs = span_seconds(to_seconds(self.start), to_seconds(self.end));
        megabits_per_second(self.bytes, secs)
    }
}

/// Rolling count that gives a snapshot at each boundary.
#[derive(Debug, Clone, Copy, PartialEq, Eq, Structural)]
pub struct IntervalReporter {
    pub stream_id: u32,
    pub interval: Duration,
    /// When the first call came.
    pub origin: Option<Instant>,
    /// When the running interval ends.
    pub next_boundary: Option<Instant>,
    pub bytes_in_interval: u64,
    /// Whether any byte was ever seen.
    pub seen: bool,
}

impl IntervalReporter {
    /// Either nothing was seen yet, or the running interval opened at the
    /// origin or later.
    pub open spec fn wf(self) -> bool {
        &&& self.bytes_in_interval > 0 ==> self.seen
        &&& match (self.origin, self.next_boundary) {
            (None, None) => !self.seen,
            (Some(o), Some(b)) => b.nanos >= o.nanos + self.interval.nanos,
            _ => false,
        }
    }

    /// Where the running interval ends, for a reporter that sees bytes at
    /// `now`.
    pub open spec fn boundary_at(self, now: Instant) -> int {
        match self.next_boundary {
            Some(b) => b.nanos as int,
            None => now.nanos + self.interval.nanos,
        }
    }

    /// The origin, for a reporter that sees bytes at `now`.
    pub open spec fn origin_at(self, now: Instant) -> Instant {
        match self.origin {
            Some(o) => o,
            None => now,
        }
    }

    /// What it means to count `n` bytes seen at `now`: the reporter comes to
    /// stand as `after`, and `given` is what there is to print. The bytes go
    /// to the running interval, and a snapshot comes exactly when `now` has
    /// reached its end; it takes the whole count, and the next interval
    /// follows on.
    pub open spec fn counts(
        self,
        n: u64,
        now: Instant,
        after: IntervalReporter,
        given: Option<IntervalSnapshot>,
    ) -> bool {
        let origin = self.origin_at(now);
        let boundary = self.boundary_at(now);
        &&& after.stream_id == self.stream_id
        &&& after.interval == self.interval
        &&& after.origin == Some(origin)
        &&& after.seen == (self.seen || n > 0)
        &&& given is Some <==> now.nanos >= boundary
        &&& match given {
            None => {
                &&& after.bytes_in_interval == self.bytes_in_interval + n
                &&& after.next_boundary == Some(Instant { nanos: boundary as u128 })
            },
            Some(snap) => {
                &&& snap.stream_id == self.stream_id
                &&& snap.start.nanos == boundary - self.interval.nanos - origin.nanos
                &&& snap.end.nanos == boundary - origin.nanos
                &&& snap.bytes == self.bytes_in_interval + n
                &&& after.bytes_in_interval == 0
                &&& after.next_boundary == Some(
                    Instant { nanos: (boundary + self.interval.nanos) as u128 },
                )
            },
        }
    }

    /// What there is to print at the end of the stream, at `now`: the running
    /// interval up to then. Nothing is left if no bytes were ever seen, or if
    /// none came since the last interval closed and that is still to come.
    pub open spec fn last_snapshot(self, now: Instant) -> Option<IntervalSnapshot> {
        match (self.origin, self.next_boundary) {
            (Some(origin), Some(boundary)) => {
                let opened = boundary.nanos - self.interval.nanos;
                let start = opened - origin.nanos;
                let seen = now.nanos_since(origin);
                if !self.seen || self.bytes_in_interval == 0 && now.nanos < opened {
                    None
                } else {
                    Some(
                        IntervalSnapshot {
                            stream_id: self.stream_id,
                            start: Duration { nanos: start as u128 },
                            end: Duration {
                                nanos: if seen > start {
                                    seen as u128
                                } else {
                                    start as u128
                                },
                            },
                            bytes: self.bytes_in_interval,
                        },
                    )
                }
            },
            _ => None,
        }
    }

    /// A reporter that has seen nothing.
    pub fn new(stream_id: u32, interval: Duration) -> (r: IntervalReporter)
        ensures
            r.wf(),
            r.stream_id == stream_id,
            r.interval == interval,
            r.origin is None,
            r.bytes_in_interval == 0,
            !r.seen,
    {
        IntervalReporter {
            stream_id,
            interval,
            origin: None,
            next_boundary: None,
            bytes_in_interval: 0,
            seen: false,
        }
    }

    /// Counts `n` bytes seen at `now`. The snapshot of the running interval
    /// comes back if `now` has reached its end; at most one comes per call.
    pub fn on_bytes(&mut self, n: u64, now: Instant) -> (r: Option<IntervalSnapshot>)
        requires
            old(self).wf(),
            old(self).bytes_in_interval + n <= u64::MAX,
            old(self).boundary_at(now) + old(self).interval.nanos <= u128::MAX,
        ensures
            final(self).wf(),
            old(self).counts(n, now, *final(self), r),
    {
        let origin = match self.origin {
            Some(o) => o,
            None => now,
        };
        let boundary = match self.next_boundary {
            Some(b) => b,
            None => now.plus(self.interval),
        };
        self.origin = Some(origin);
        self.next_boundary = Some(boundary);
        self.bytes_in_interval = self.bytes_in_interval + n;
        if n > 0 {
            self.seen = true;
        }

        if now.nanos >= boundary.nanos {
            let opened = Instant { nanos: boundary.nanos - self.interval.nanos };
            let snap = IntervalSnapshot {
                stream_id: self.stream_id,
                start: opened.duration_since(origin),
                end: boundary.duration_since(origin),
                bytes: self.bytes_in_interval,
            };
            self.bytes_in_interval = 0;
            self.next_boundary = Some(boundary.plus(self.interval));
            return Some(snap);
        }
        None
    }

    /// Gives what is still counted as a last snapshot, which may cover less
    /// than a whole interval. Nothing comes if no bytes were ever seen.
    pub fn flush(&mut self, now: Instant) -> (r: Option<IntervalSnapshot>)
        requires
            old(self).wf(),
        ensures
            final(self).wf(),
            *final(self) == (IntervalReporter { bytes_in_interval: 0, ..*old(self) }),
            r == old(self).last_snapshot(now),
    {
        if !self.seen {
            return None;
        }
        let origin = match self.origin {
            Some(o) => o,
            None => {
                return None;
            },
        };
        let boundary = match self.next_boundary {
            Some(b) => b,
            None => now,
        };
        let opened = Instant { nanos: boundary.nanos - self.interval.nanos };
        if self.bytes_in_interval == 0 && now.nanos < opened.nanos {
            return None;
        }
        let start = opened.duration_since(origin);
        let seen = now.duration_since(origin);
        let end = if seen.nanos > start.nanos {
            seen
        } else {
            start
        };
        let snap = IntervalSnapshot {
            stream_id: self.stream_id,
            start,
            end,
            bytes: self.bytes_in_interval,
        };
        self.bytes_in_interval = 0;
        Some(snap)
    }
}

/// One call of `on_bytes`, with the snapshot it gave.
pub struct ReporterStep {
    pub before: IntervalReporter,
    pub n: u64,
    pub now: Instant,
    pub after: IntervalReporter,
    pub given: Option<IntervalSnapshot>,
}

impl ReporterStep {
    /// The call is one of `on_bytes`.
    pub open spec fn holds(self) -> bool {
        &&& self.before.wf()
        &&& self.before.boundary_at(self.now) + self.before.interval.nanos <= u128::MAX
        &&& self.before.counts(self.n, self.now, self.after, self.given)
    }
}

/// The calls of a run follow on each other, from a reporter that has seen
/// nothing.
pub open spec fn is_run(run: Seq<ReporterStep>) -> bool {
    &&& forall|i: int| 0 <= i < run.len() ==> (#[trigger] run[i]).holds()
    &&& forall|i: int| 0 < i < run.len() ==> (#[trigger] run[i]).before == run[i - 1].after
    &&& run.len() > 0 ==> run[0].before.origin is None
}

/// All bytes handed in over a run.
pub open spec fn bytes_in(run: Seq<ReporterStep>) -> nat
    decreases run.len(),
{
    if run.len() == 0 {
        0
    } else {
        bytes_in(run.drop_last()) + run.last().n as nat
    }
}

/// All bytes reported over a run.
pub open spec fn bytes_reported(run: Seq<ReporterStep>) -> nat
    decreases run.len(),
{
    if run.len() == 0 {
        0
    } else {
        bytes_reported(run.drop_last()) + (match run.last().given {
            Some(s) => s.bytes as nat,
            None => 0,
        })
    }
}

/// No byte is lost or counted twice: what the snapshots report and what the
/// running count still holds (which the last flush reports) is what was
/// handed in.
pub proof fn intervals_conserve_bytes(run: Seq<ReporterStep>)
    requires
        is_run(run),
        run.len() > 0,
    ensures
        bytes_in(run) == bytes_reported(run) + run.last().after.bytes_in_interval,
    decreases run.len(),
{
    let head = run.drop_last();
    assert(run.last().holds());
    if head.len() > 0 {
        assert(is_run(head)) by {
            assert forall|i: int| 0 <= i < head.len() implies (#[trigger] head[i]).holds() by {
                assert(run[i].holds());
            }
            assert forall|i: int| 0 < i < head.len() implies (#[trigger] head[i]).before == head[i
                - 1].after by {
                assert(run[i].before == run[i - 1].after);
            }
        }
        intervals_conserve_bytes(head);
        assert(run[run.len() - 1].before == run[run.len() - 2].after);
    } else {
        assert(bytes_in(head) == 0);
        assert(bytes_reported(head) == 0);
        assert(run.last() == run[0]);
    }
}

/// The intervals of a stream follow on each other without a gap: the first
/// opens at the stream's first byte, and each later one where the one before
/// it ended.
pub proof fn intervals_follow_on(a: ReporterStep, b: ReporterStep)
    requires
        a.holds(),
        b.holds(),
        b.before == a.after,
    ensures
        a.before.origin is None ==> (a.given matches Some(s) ==> s.start.nanos == 0),
        a.before.origin is None && a.given is None ==> (b.given matches Some(t) ==> t.start.nanos
            == 0),
        a.given matches Some(s) ==> (b.given matches Some(t) ==> t.start == s.end),
{
}

/// How many snapshots a run gave.
pub open spec fn snapshots_in(run: Seq<ReporterStep>) -> nat
    decreases run.len(),
{
    if run.len() == 0 {
        0
    } else {
        snapshots_in(run.drop_last()) + (if run.last().given is Some {
            1nat
        } else {
            0nat
        })
    }
}

/// The bytes that a run handed in since its last snapshot.
pub open spec fn bytes_since_snapshot(run: Seq<ReporterStep>) -> nat
    decreases run.len(),
{
    if run.len() == 0 || run.last().given is Some {
        0
    } else {
        bytes_since_snapshot(run.drop_last()) + run.last().n as nat
    }
}

/// A run without its last call is a run.
proof fn run_without_last(run: Seq<ReporterStep>)
    requires
        is_run(run),
        run.len() > 0,
    ensures
        is_run(run.drop_last()),
{
    let head = run.drop_last();
    assert forall|i: int| 0 <= i < head.len() implies (#[trigger] head[i]).holds() by {
        assert(run[i].holds());
    }
    assert forall|i: int| 0 < i < head.len() implies (#[trigger] head[i]).before == head[i
        - 1].after by {
        assert(run[i].before == run[i - 1].after);
    }
}

/// After a run, the running interval is the one behind all that were given,
/// and holds what came since.
proof fn run_state(run: Seq<ReporterStep>)
    requires
        is_run(run),
        run.len() > 0,
    ensures
        run.last().after.interval == run[0].before.interval,
        run.last().after.origin == Some(run[0].now),
        run.last().after.next_boundary matches Some(b) && b.nanos == run[0].now.nanos + (
        snapshots_in(run) + 1) * run[0].before.interval.nanos,
        run.last().after.bytes_in_interval == bytes_since_snapshot(run),
    decreases run.len(),
{
    let head = run.drop_last();
    let last = run.last();
    let k = snapshots_in(head) as int;
    let len = run[0].before.interval.nanos as int;
    assert(run[run.len() - 1].holds());
    run_without_last(run);
    assert((k + 2) * len == (k + 1) * len + len) by (nonlinear_arith);
    assert(1 * len == len);
    if head.len() > 0 {
        run_state(head);
        assert(head[0] == run[0]);
        assert(run[run.len() - 1].before == run[run.len() - 2].after);
    } else {
        assert(last == run[0]);
        assert(bytes_since_snapshot(head) == 0);
        assert(snapshots_in(head) == 0);
    }
}

/// The snapshots of a stream cut its time into intervals of equal length,
/// counted from the first call. The call that follows on `k` snapshots gives
/// one exactly when it comes `k + 1` intervals after the first call or later;
/// the snapshot is about the interval from `k` to `k + 1`, and reports all
/// bytes since the snapshot before it, those of this call included.
pub proof fn intervals_are_counted_off(run: Seq<ReporterStep>)
    requires
        is_run(run),
        run.len() > 0,
    ensures
        ({
            let k = snapshots_in(run.drop_last()) as int;
            let len = run[0].before.interval.nanos as int;
            let t0 = run[0].now.nanos as int;
            &&& run.last().given is Some <==> run.last().now.nanos >= t0 + (k + 1) * len
            &&& run.last().given matches Some(s) ==> {
                &&& s.start.nanos == k * len
                &&& s.end.nanos == (k + 1) * len
                &&& s.bytes == bytes_since_snapshot(run.drop_last()) + run.last().n
                &&& s.stream_id == run[0].before.stream_id
            }
        }),
    decreases run.len(),
{
    let head = run.drop_last();
    let k = snapshots_in(head) as int;
    let len = run[0].before.interval.nanos as int;
    assert(run[run.len() - 1].holds());
    run_without_last(run);
    stream_stays(run);
    assert((k + 1) * len - len == k * len) by (nonlinear_arith);
    if head.len() > 0 {
        run_state(head);
        assert(head[0] == run[0]);
        assert(run[run.len() - 1].before == run[run.len() - 2].after);
    } else {
        assert(run.last() == run[0]);
        assert(snapshots_in(head) == 0);
        assert(bytes_since_snapshot(head) == 0);
        assert(1 * len == len && 0 * len == 0);
    }
}

proof fn stream_stays(run: Seq<ReporterStep>)
    requires
        is_run(run),
        run.len() > 0,
    ensures
        run.last().before.stream_id == run[0].before.stream_id,
    decreases run.len(),
{
    let head = run.drop_last();
    if head.len() > 0 {
        run_without_last(run);
        stream_stays(head);
        assert(head[0] == run[0]);
        assert(head[head.len() - 1].holds());
        assert(run[run.len() - 1].before == run[run.len() - 2].after);
    }
}

} // verus!
