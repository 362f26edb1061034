//! How fast streams send, and what time and processors are taken for.

use vstd::prelude::*;

use crate::client::{settle_results, Settlement};
use crate::common::accounting::{earlier, later, span};
use crate::common::binary64::{nearest, seconds, Double};
use crate::common::cpu::{clock_ticks_per_sec, parse_proc_stat, sample, ticks_between, usage};
use crate::common::cpu::{CpuSnapshot, CpuUsage};
use crate::common::pacing::TokenBucket;
use crate::common::rounding::about_le;
use crate::common::stream::{SendStep, StreamMeter, UdpSender};
use crate::common::test::{ClientStreamReceipt, Test};
use crate::common::text::{parse_number, split_words, NumberError};
use crate::common::time::{Duration, Instant};
use crate::common::timer::has_elapsed;
use crate::laws::texts::holds_units;
use crate::server::{default_handshake_timeout, run_timeout, serving, Serving};

verus! {

// ---------------------------------------------------------------------
// Pauses.

/// Bytes per second, of bits per second.
pub open spec fn per_second(bps: u64) -> Double {
    nearest(bps as int, 1).quotient(nearest(8, 1))
}

/// The bytes that are due at `now`, by a bucket that started at `start`.
pub open spec fn due(b: TokenBucket, now: Instant) -> Double {
    let passed = Duration {
        nanos: if now.nanos > b.start.nanos {
            (now.nanos - b.start.nanos) as u128
        } else {
            0
        },
    };
    per_second(b.rate_bps).product(seconds(passed))
}

/// A sender pauses exactly while it has sent more than is due at its rate, and
/// until that is due. Without a rate it never pauses.
pub proof fn senders_pause_until_their_bytes_are_due(
    b: &TokenBucket,
    now: Instant,
    r: Option<Duration>,
)
    requires
        call_ensures(TokenBucket::wait, (b, now), r),
    ensures
        ({
            let sent = nearest(b.bytes_sent as int, 1);
            &&& r is Some <==> b.rate_bps > 0 && due(*b, now).below(sent)
            &&& r matches Some(d) ==> holds_units(
                sent.difference(due(*b, now)).quotient(per_second(b.rate_bps)),
                1_000_000_000,
                d.nanos as int,
            )
        }),
{
    let sent = nearest(b.bytes_sent as int, 1);
    let x = sent.difference(due(*b, now)).quotient(per_second(b.rate_bps));
    if x.exp < 0 {
        crate::common::binary64::pow2_pos_positive(-x.exp);
        crate::laws::doubles::half_even_is_nearest(
            x.mant * 1_000_000_000,
            crate::common::binary64::pow2_pos(-x.exp),
        );
    }
}

/// A sender that does not pause is within its rate: eight times its bytes over
/// the time since its start are no more than the rate, but for the rounding of
/// doubles.
pub proof fn senders_that_go_on_are_within_their_rate(
    b: &TokenBucket,
    now: Instant,
    r: Option<Duration>,
)
    requires
        call_ensures(TokenBucket::wait, (b, now), r),
        b.rate_bps > 0,
        r is None,
        now.nanos >= b.start.nanos,
    ensures
        about_le(
            b.bytes_sent * 8_000_000_000,
            b.rate_bps * (now.nanos - b.start.nanos),
            21,
        ),
{
    crate::common::pacing::due_bytes_are_within_the_rate(
        b.rate_bps,
        b.bytes_sent,
        b.running(now),
    );
}

/// A new bucket has counted nothing, and counts what it is told.
pub proof fn buckets_count_what_they_are_told(
    rate: u64,
    start: Instant,
    fresh: TokenBucket,
    b: &mut TokenBucket,
    n: u64,
)
    requires
        call_ensures(TokenBucket::new, (rate, start), fresh),
        call_ensures(TokenBucket::record, (b, n), ()),
    ensures
        fresh.rate_bps == rate && fresh.bytes_sent == 0 && fresh.start == start,
        final(b).rate_bps == old(b).rate_bps,
        final(b).start == old(b).start,
        old(b).bytes_sent + n <= u64::MAX ==> final(b).bytes_sent == old(b).bytes_sent + n,
        old(b).bytes_sent + n > u64::MAX ==> final(b).bytes_sent == u64::MAX,
{
}

/// What a sender does next: it stops when its time is over; else it pauses for
/// as long as its bucket says, or sends.
pub proof fn senders_stop_pause_or_send(
    m: &StreamMeter,
    s: &UdpSender,
    over: bool,
    now: Instant,
    a: SendStep,
    b: SendStep,
    wa: Option<Duration>,
    wb: Option<Duration>,
)
    requires
        m.bucket.can_wait(now),
        s.bucket.can_wait(now),
        call_ensures(StreamMeter::next_step, (m, over, now), a),
        call_ensures(UdpSender::next_step, (s, over, now), b),
        call_ensures(TokenBucket::wait, (&m.bucket, now), wa),
        call_ensures(TokenBucket::wait, (&s.bucket, now), wb),
    ensures
        over <==> a is Stop,
        over <==> b is Stop,
        !over ==> match wa {
            Some(d) => a == SendStep::Pause(d),
            None => a is Send,
        },
        !over ==> match wb {
            Some(d) => b == SendStep::Pause(d),
            None => b is Send,
        },
{
}

// ---------------------------------------------------------------------
// Time.

/// Spans count in nanoseconds.
pub proof fn spans_count_in_nanoseconds(
    n: u64,
    a: Duration,
    b: Duration,
    z: Duration,
    d: Duration,
    e: Duration,
    sum: Duration,
    empty: bool,
)
    requires
        call_ensures(Duration::from_secs, (n,), a),
        call_ensures(Duration::from_millis, (n,), b),
        call_ensures(Duration::zero, (), z),
        call_ensures(Duration::plus, (d, e), sum),
        call_ensures(Duration::is_zero, (d,), empty),
    ensures
        a.nanos == n * 1_000_000_000,
        b.nanos == n * 1_000_000,
        z.nanos == 0,
        sum.nanos == d.nanos + e.nanos,
        empty <==> d.nanos == 0,
{
}

/// Points in time lie a span apart, and none backwards.
pub proof fn points_lie_a_span_apart(
    t: Instant,
    u: Instant,
    d: Duration,
    at: Instant,
    plus: Instant,
    since: Duration,
)
    requires
        call_ensures(Instant::at, (d,), at),
        call_ensures(Instant::plus, (t, d), plus),
        call_ensures(Instant::duration_since, (u, t), since),
    ensures
        at.nanos == d.nanos,
        plus.nanos == t.nanos + d.nanos,
        u.nanos >= t.nanos ==> t.nanos + since.nanos == u.nanos,
        u.nanos < t.nanos ==> since.nanos == 0,
{
}

/// The earlier and the later of two points, and the span between.
pub proof fn points_are_put_in_order(
    a: Option<Instant>,
    b: Option<Instant>,
    e: Option<Instant>,
    l: Option<Instant>,
    d: Duration,
)
    requires
        call_ensures(earlier, (a, b), e),
        call_ensures(later, (a, b), l),
        call_ensures(span, (a, b), d),
    ensures
        e == a || e == b,
        l == a || l == b,
        a is None ==> e == b && l == b,
        b is None ==> e == a && l == a,
        a is Some && b is Some ==> {
            &&& e is Some && l is Some
            &&& e->0.nanos <= a->0.nanos && e->0.nanos <= b->0.nanos
            &&& l->0.nanos >= a->0.nanos && l->0.nanos >= b->0.nanos
        },
        match (a, b) {
            (Some(x), Some(y)) => if y.nanos >= x.nanos {
                x.nanos + d.nanos == y.nanos
            } else {
                d.nanos == 0
            },
            _ => d.nanos == 0,
        },
{
}

/// A span is over when at least as much time has passed.
pub proof fn spans_are_over_when_they_have_passed(a: Duration, b: Duration, r: bool)
    requires
        call_ensures(has_elapsed, (a, b), r),
    ensures
        r <==> a.nanos >= b.nanos,
{
}

/// A peer may be silent for half a minute, and for the whole test on top of
/// what it may otherwise while the test runs.
pub proof fn silence_is_limited(
    d: Duration,
    h: Option<Duration>,
    time: u32,
    omit: u32,
    r: Option<Duration>,
)
    requires
        call_ensures(default_handshake_timeout, (), d),
        call_ensures(run_timeout, (h, time, omit), r),
    ensures
        d.nanos == 30_000_000_000,
        h is None <==> r is None,
        h is Some ==> r->0.nanos == h->0.nanos + time * 1_000_000_000 + omit * 1_000_000_000,
{
}

/// How many tests a server runs.
pub proof fn servers_run_as_many_tests_as_told(one_off: bool, most: u32, m: Serving)
    requires
        call_ensures(serving, (one_off, most), m),
    ensures
        m == Serving::Once <==> one_off,
        m == Serving::Concurrent <==> !one_off && most > 1,
        m == Serving::Forever <==> !one_off && most <= 1,
{
}

// ---------------------------------------------------------------------
// Processors.

/// A share of time, in percent: a hundred times the seconds of so many ticks,
/// over the seconds that passed.
pub open spec fn share(secs: Double, wall: Duration) -> Double {
    nearest(100, 1).product(secs).quotient(seconds(wall))
}

/// The seconds of the ticks between two counts; none backwards.
pub open spec fn busy(from: u64, to: u64, per_sec: u64) -> Double {
    nearest(
        if to > from {
            to - from
        } else {
            0
        },
        1,
    ).quotient(nearest(per_sec as int, 1))
}

/// The use that is made of a processor: the ticks that were spent, for the
/// program and for the system, over the time that passed; none over no time.
pub open spec fn is_use(a: CpuSnapshot, b: CpuSnapshot, wall: Duration, per_sec: u64, u: CpuUsage) -> bool {
    let user = busy(a.user_ticks, b.user_ticks, per_sec);
    let system = busy(a.system_ticks, b.system_ticks, per_sec);
    if wall.nanos == 0 {
        u.user_pct.mant == 0 && u.system_pct.mant == 0 && u.total_pct.mant == 0
    } else {
        &&& u.user_pct == share(user, wall)
        &&& u.system_pct == share(system, wall)
        &&& u.total_pct == share(user.sum(system), wall)
    }
}

/// Processor use is ticks over time.
pub proof fn processor_use_is_ticks_over_time(
    a: &CpuSnapshot,
    b: &CpuSnapshot,
    wall: Duration,
    per_sec: u64,
    u: CpuUsage,
    d: CpuSnapshot,
    none: CpuUsage,
)
    requires
        call_ensures(usage, (a, b, wall, per_sec), u),
        call_ensures(ticks_between, (a, b), d),
        call_ensures(CpuUsage::zero, (), none),
    ensures
        is_use(*a, *b, wall, per_sec, u),
        b.user_ticks >= a.user_ticks ==> a.user_ticks + d.user_ticks == b.user_ticks,
        b.user_ticks < a.user_ticks ==> d.user_ticks == 0,
        b.system_ticks >= a.system_ticks ==> a.system_ticks + d.system_ticks == b.system_ticks,
        b.system_ticks < a.system_ticks ==> d.system_ticks == 0,
        none.user_pct.mant == 0 && none.system_pct.mant == 0 && none.total_pct.mant == 0,
{
}

/// What a client settles on counts the processor from the start of the test,
/// over the time in which bytes moved.
pub proof fn settled_use_is_over_the_session(
    test: &mut Test,
    arrived: Vec<ClientStreamReceipt>,
    now: CpuSnapshot,
    per_sec: u64,
    s: Option<Settlement>,
)
    requires
        call_ensures(settle_results, (test, arrived, &now, per_sec), s),
        s is Some,
    ensures
        match old(test).cpu_start {
            Some(start) => is_use(start, now, s->0.totals.session, per_sec, s->0.cpu),
            None => s->0.cpu.user_pct.mant == 0 && s->0.cpu.system_pct.mant == 0
                && s->0.cpu.total_pct.mant == 0,
        },
{
}

/// The ticks of a process stand in the twelfth and thirteenth word behind the
/// last closing bracket; without a bracket, or where those are no numbers,
/// there are none.
pub proof fn ticks_stand_behind_the_last_bracket(
    raw: &str,
    before: Seq<char>,
    rest: &[char],
    fields: Vec<Vec<char>>,
    user: &[char],
    system: &[char],
    nu: Result<u64, NumberError>,
    ns: Result<u64, NumberError>,
    r: Option<CpuSnapshot>,
    s: CpuSnapshot,
)
    requires
        call_ensures(parse_proc_stat, (raw,), r),
        call_ensures(sample, (Some(raw),), s),
        raw@ == before + seq![')'] + rest@,
        forall|i: int| 0 <= i < rest@.len() ==> #[trigger] rest@[i] != ')',
        call_ensures(split_words, (rest,), fields),
        fields@.len() > 11 ==> user@ == fields@[11]@,
        fields@.len() > 12 ==> system@ == fields@[12]@,
        call_ensures(parse_number, (user, 10, u64::MAX), nu),
        call_ensures(parse_number, (system, 10, u64::MAX), ns),
    ensures
        r is Some <==> fields@.len() > 12 && nu is Ok && ns is Ok,
        r matches Some(t) ==> t.user_ticks == nu->Ok_0 && t.system_ticks == ns->Ok_0 && s == t,
        r is None ==> s.user_ticks == 0 && s.system_ticks == 0,
{
    let close = before.len() as int;
    assert(raw@[close] == ')');
    assert forall|j: int| close < j < raw@.len() implies raw@[j] != ')' by {
        assert(raw@[j] == rest@[j - close - 1]);
    }
    assert(crate::common::cpu::is_last_paren(raw@, close));
    assert(raw@.skip(close + 1) =~= rest@);
    let views = crate::common::text::chars_views(fields@);
    assert(views.len() == fields@.len());
    if fields@.len() > 11 {
        assert(views[11] == fields@[11]@);
    }
    if fields@.len() > 12 {
        assert(views[12] == fields@[12]@);
    }
    assert(raw@.contains(')'));
}

/// Without a bracket, or without a text, there are no ticks.
pub proof fn no_ticks_without_a_bracket(raw: &str, r: Option<CpuSnapshot>, s: CpuSnapshot)
    requires
        call_ensures(parse_proc_stat, (raw,), r),
        call_ensures(sample, (None,), s),
        forall|i: int| 0 <= i < raw@.len() ==> #[trigger] raw@[i] != ')',
    ensures
        r is None,
        s.user_ticks == 0 && s.system_ticks == 0,
{
}

/// A hundred ticks make a second where the system does not say otherwise.
pub proof fn seconds_have_a_hundred_ticks_unless_told(reported: i64, n: u64)
    requires
        call_ensures(clock_ticks_per_sec, (reported,), n),
    ensures
        reported > 0 ==> n == reported,
        reported <= 0 ==> n == 100,
{
}

} // verus!
