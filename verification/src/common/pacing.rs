//! Sender pacing: a token bucket that says how long to pause when a sender
//! is ahead of the rate it was given. A rate of 0 means no limit.

use vstd::prelude::*;
use vstd::arithmetic::power2::*;

use super::binary64::{nearest, pow2_pos, pow2_pos_adds, pow2_pos_grows, pow2_pos_positive};
use super::binary64::{seconds, to_seconds, to_units, whole_units, Double, TWO_53};
use super::rounding::{about_le, about_le_cancel, about_le_scale, about_le_trans};
use super::rounding::{about_le_weaken, fine, fine_units, finer_units, in_units, is_moderate};
use super::rounding::{product_is_near, quotient_is_near, sum_is_near, whole_is_near};
use super::time::{Duration, Instant, MAX_NANOS};

verus! {

#[derive(Debug, Clone, Copy, PartialEq, Eq, Structural)]
pub struct TokenBucket {
    /// Bits per second.
    pub rate_bps: u64,
    pub bytes_sent: u64,
    pub start: Instant,
}

/// Bytes per second.
pub open spec fn byte_rate(rate_bps: u64) -> Double {
    nearest(rate_bps as int, 1).quotient(nearest(8, 1))
}

/// The bytes that were due after `elapsed`.
pub open spec fn expected_bytes(rate_bps: u64, elapsed: Duration) -> Double {
    byte_rate(rate_bps).product(seconds(elapsed))
}

/// The nanoseconds after which a sender that has sent `sent` bytes in
/// `elapsed` is back on schedule; none where it is not ahead.
pub open spec fn pause_nanos(rate_bps: u64, sent: u64, elapsed: Duration) -> Option<int> {
    let have = nearest(sent as int, 1);
    let due = expected_bytes(rate_bps, elapsed);
    if rate_bps == 0 || !due.below(have) {
        None
    } else {
        Some(
            whole_units(have.difference(due).quotient(byte_rate(rate_bps)), 1_000_000_000),
        )
    }
}

impl TokenBucket {
    pub fn new(rate_bps: u64, start: Instant) -> (b: TokenBucket)
        ensures
            b.rate_bps == rate_bps,
            b.bytes_sent == 0,
            b.start == start,
    {
        TokenBucket { rate_bps, bytes_sent: 0, start }
    }

    /// The bucket once `n` bytes more were sent.
    pub open spec fn after(self, n: u64) -> TokenBucket {
        TokenBucket {
            bytes_sent: if self.bytes_sent + n <= u64::MAX {
                (self.bytes_sent + n) as u64
            } else {
                u64::MAX
            },
            ..self
        }
    }

    /// Counts `n` bytes as sent.
    pub fn record(&mut self, n: u64)
        ensures
            *final(self) == old(self).after(n),
    {
        self.bytes_sent = self.bytes_sent.saturating_add(n);
    }

    /// How long the bucket has been running at `now`.
    pub open spec fn running(self, now: Instant) -> Duration {
        Duration { nanos: now.nanos_since(self.start) as u128 }
    }

    /// The pause at `now`.
    pub open spec fn pause_at(self, now: Instant) -> Option<int> {
        pause_nanos(self.rate_bps, self.bytes_sent, self.running(now))
    }

    /// The clock and the pause fit a span of time.
    pub open spec fn can_wait(self, now: Instant) -> bool {
        &&& now.nanos_since(self.start) <= MAX_NANOS
        &&& self.pause_at(now) matches Some(n) ==> n <= MAX_NANOS
    }

    /// All but `slack` of the bytes were due at some point in time, at `now`
    /// or before.
    pub open spec fn keeps_pace(self, slack: nat, now: Instant) -> bool {
        exists|sent: u64, at: Instant| #[trigger]
            self.was_due(sent, at) && at.nanos <= now.nanos && self.bytes_sent <= sent + slack
    }

    /// A sender that had sent `sent` bytes at `at` was not ahead.
    pub open spec fn was_due(self, sent: u64, at: Instant) -> bool {
        pause_nanos(self.rate_bps, sent, self.running(at)) is None
    }

    fn pause(&self, now: Instant) -> (r: Option<u128>)
        requires
            now.nanos_since(self.start) <= MAX_NANOS,
        ensures
            match r {
                Some(n) => self.pause_at(now) == Some(n as int),
                None => self.pause_at(now) is None,
            },
    {
        if self.rate_bps == 0 {
            return None;
        }
        proof {
            lemma2_to64();
            assert(pow2_pos(3) <= 8 < pow2_pos(4));
            assert(pow2_pos(0) <= self.rate_bps);
        }
        let elapsed = now.duration_since(self.start);
        let rate = Double::from_u64(self.rate_bps).div(Double::from_u64(8));
        let due = rate.times(to_seconds(elapsed));
        let have = Double::from_u64(self.bytes_sent);
        if !due.is_below(have) {
            return None;
        }
        proof {
            super::binary64::compare_by_exponent(due, have);
            super::binary64::compare_by_exponent(have, due);
        }
        let ahead = have.minus(due);
        let secs = ahead.div(rate);
        Some(to_units(secs, 1_000_000_000))
    }

    /// Whether the clock and the pause fit a span of time.
    pub fn check_wait(&self, now: Instant) -> (b: bool)
        ensures
            b == self.can_wait(now),
    {
        if now.duration_since(self.start).nanos > MAX_NANOS {
            return false;
        }
        match self.pause(now) {
            Some(n) => n <= MAX_NANOS,
            None => true,
        }
    }

    /// How long to pause before the next send; nothing where the sender is
    /// not ahead.
    pub fn wait(&self, now: Instant) -> (r: Option<Duration>)
        requires
            self.can_wait(now),
        ensures
            match r {
                Some(d) => self.pause_at(now) == Some(d.nanos as int),
                None => self.pause_at(now) is None,
            },
    {
        match self.pause(now) {
            Some(nanos) => Some(Duration { nanos }),
            None => None,
        }
    }
}

/// Without a rate, and before anything was sent, there is never a pause.
pub proof fn no_pause_without_rate_or_bytes(bucket: TokenBucket, now: Instant)
    requires
        bucket.rate_bps == 0 || bucket.bytes_sent == 0,
    ensures
        bucket.pause_at(now) is None,
{
    if bucket.rate_bps != 0 {
        let due = expected_bytes(bucket.rate_bps, bucket.running(now));
        let none = nearest(0, 1);
        let e = due.common_exp(none);
        super::binary64::units_not_negative(due, e);
        assert(!due.below(none));
    }
}

// ---------------------------------------------------------------------
// What the pace amounts to.

/// A quotient of two whole numbers is off by at most six parts.
proof fn whole_quotient_is_near(n: int, d: int)
    requires
        0 < n < pow2_pos(100),
        0 < d < pow2_pos(100),
    ensures
        about_le(
            in_units(nearest(n, 1).quotient(nearest(d, 1)), fine()) * d,
            n * pow2_pos(fine()),
            6,
        ),
        is_moderate(nearest(n, 1).quotient(nearest(d, 1))),
        -153 <= nearest(n, 1).quotient(nearest(d, 1)).exp <= 49,
{
    let p = pow2_pos(fine());
    let a = nearest(n, 1);
    let b = nearest(d, 1);
    pow2_pos_positive(fine());
    whole_is_near(n, fine());
    whole_is_near(d, fine());
    quotient_is_near(a, b);
    fine_units(a.quotient(b), fine());
    let q = in_units(a.quotient(b), fine());
    let au = in_units(a, fine());
    let bu = in_units(b, fine());
    assert(au * p >= 0 && (n * p) * p >= 0) by (nonlinear_arith)
        requires
            au > 0,
            p >= 1,
            n > 0,
    ;
    about_le_scale(d * p, bu, 2, q);
    assert((d * p) * q == (q * d) * p) by (nonlinear_arith);
    assert(bu * q == q * bu) by (nonlinear_arith);
    about_le_trans((q * d) * p, q * bu, au * p, 2, 1);
    about_le_scale(au, n * p, 1, p);
    about_le_trans((q * d) * p, au * p, (n * p) * p, 4, 1);
    about_le_cancel(q * d, n * p, 6, p);
}

/// A span in seconds is off by at most eight parts.
proof fn seconds_are_near(d: Duration)
    requires
        d.nanos > 0,
    ensures
        about_le(in_units(seconds(d), fine()) * 1_000_000_000, d.nanos * pow2_pos(fine()), 8),
        is_moderate(seconds(d)),
{
    let p = pow2_pos(fine());
    let billion = 1_000_000_000int;
    let whole = d.nanos as int / billion;
    let part = d.nanos as int % billion;
    let w = nearest(whole, 1);
    let f = nearest(part, 1).quotient(nearest(billion, 1));
    let wu = in_units(w, fine());
    let fu = in_units(f, fine());
    pow2_pos_positive(fine());
    lemma2_to64();
    lemma2_to64_rest();
    pow2_pos_adds(64, 36);
    pow2_pos_grows(30, 100);
    assert(pow2_pos(30) == 1_073_741_824);
    assert(pow2_pos(100) == 0x1_0000_0000_0000_0000int * 68_719_476_736);
    assert(whole < pow2_pos(100));
    let parts = whole * billion;
    assert(parts + part == d.nanos);
    // The whole seconds.
    assert(about_le(wu * billion, parts * p, 6)) by {
        if whole > 0 {
            whole_is_near(whole, fine());
            about_le_scale(wu, whole * p, 1, billion);
            assert((whole * p) * billion == parts * p && parts * p >= 0) by (nonlinear_arith)
                requires
                    parts == whole * billion,
                    whole > 0,
                    p >= 1,
                    billion > 0,
            ;
            about_le_weaken(wu * billion, parts * p, 1, 6);
        } else {
            assert(wu == 0);
            assert(parts == 0);
            assert(0 * p == 0);
        }
    }
    // The rest.
    assert(about_le(fu * billion, part * p, 6)) by {
        if part > 0 {
            whole_quotient_is_near(part, billion);
        } else {
            assert(f.mant == 0);
            assert(fu == 0);
            assert(0 * p == 0);
        }
    }
    if whole > 0 {
        whole_is_near(whole, fine());
    }
    if part > 0 {
        whole_quotient_is_near(part, billion);
    }
    sum_is_near(w, f);
    let su = in_units(seconds(d), fine());
    assert(about_le((wu + fu) * billion, d.nanos * p, 6)) by {
        let t = TWO_53 as int;
        assert((wu + fu) * billion == wu * billion + fu * billion);
        assert(d.nanos * p == parts * p + part * p) by (nonlinear_arith)
            requires
                parts + part == d.nanos,
        ;
        assert((t + 6) * (parts * p + part * p) == (t + 6) * (parts * p) + (t + 6) * (part * p))
            by (nonlinear_arith);
    }
    assert(d.nanos * p >= 0) by (nonlinear_arith)
        requires
            p >= 1,
            d.nanos >= 0,
    ;
    about_le_scale(su, wu + fu, 1, billion);
    about_le_trans(su * billion, (wu + fu) * billion, d.nanos * p, 1, 6);
}

/// What a sender had sent when it was not ahead is within its rate: no more
/// than the rate allows for the time that had passed, but for the rounding of
/// doubles, which comes to at most 21 parts in 2^53.
pub proof fn due_bytes_are_within_the_rate(rate_bps: u64, sent: u64, elapsed: Duration)
    requires
        rate_bps > 0,
        pause_nanos(rate_bps, sent, elapsed) is None,
    ensures
        about_le(sent * 8_000_000_000, rate_bps * elapsed.nanos, 21),
{
    let p = pow2_pos(fine());
    let pp = pow2_pos(2 * fine());
    let have = nearest(sent as int, 1);
    let rate = byte_rate(rate_bps);
    let secs = seconds(elapsed);
    let due = expected_bytes(rate_bps, elapsed);
    let target = rate_bps * elapsed.nanos;
    assert(target >= 0) by (nonlinear_arith)
        requires
            target == rate_bps * elapsed.nanos,
            rate_bps >= 0,
            elapsed.nanos >= 0,
    ;
    lemma2_to64();
    pow2_pos_grows(64, 100);
    assert(pow2_pos(64) == 0x1_0000_0000_0000_0000);
    pow2_pos_positive(fine());
    pow2_pos_positive(2 * fine());
    pow2_pos_adds(fine(), fine());
    whole_quotient_is_near(rate_bps as int, 8);
    if sent == 0 {
        assert(0 <= (TWO_53 + 21) * target) by (nonlinear_arith)
            requires
                target >= 0,
        ;
        return ;
    }
    whole_is_near(sent as int, 2 * fine());
    fine_units(have, 2 * fine());
    if elapsed.nanos == 0 {
        assert(secs.mant == 0) by {
            assert(nearest(0, 1).quotient(nearest(1_000_000_000, 1)).mant == 0);
        }
        assert(rate.mant * secs.mant == 0) by (nonlinear_arith)
            requires
                secs.mant == 0,
        ;
        assert(due.mant == 0);
        super::binary64::units_not_negative(have, have.exp as int);
        assert(pow2_pos(have.exp - have.exp) == 1);
        assert(have.mant * 1 == have.mant);
        assert(due.below(have));
        return ;
    }
    seconds_are_near(elapsed);
    product_is_near(rate, secs);
    // The bytes sent are no more than those due.
    let h = in_units(have, 2 * fine());
    let d = in_units(due, 2 * fine());
    let e = due.common_exp(have);
    finer_units(have, e, 2 * fine());
    finer_units(due, e, 2 * fine());
    let x = pow2_pos(e + 2 * fine());
    pow2_pos_positive(e + 2 * fine());
    assert(h <= d) by (nonlinear_arith)
        requires
            h == have.units(e) * x,
            d == due.units(e) * x,
            have.units(e) <= due.units(e),
            x >= 1,
    ;
    // Those due are no more than the rate times the time.
    let b = in_units(rate, fine());
    let s = in_units(secs, fine());
    fine_units(rate, fine());
    fine_units(secs, fine());
    let big = 8_000_000_000int;
    let rp = rate_bps * p;
    let np = elapsed.nanos * p;
    let sb = s * 1_000_000_000;
    assert(rp > 0 && np > 0 && sb > 0 && b * s > 0 && rp * sb >= 0 && rp * np >= 0)
        by (nonlinear_arith)
        requires
            rp == rate_bps * p,
            np == elapsed.nanos * p,
            sb == s * 1_000_000_000,
            rate_bps > 0,
            elapsed.nanos > 0,
            p >= 1,
            s > 0,
            b > 0,
    ;
    about_le_scale(d, b * s, 1, big);
    assert((b * s) * big == (b * 8) * sb) by (nonlinear_arith)
        requires
            sb == s * 1_000_000_000,
            big == 8_000_000_000,
    ;
    about_le_scale(b * 8, rp, 6, sb);
    about_le_trans(d * big, (b * 8) * sb, rp * sb, 1, 6);
    about_le_scale(sb, np, 8, rp);
    assert(sb * rp == rp * sb && np * rp == rp * np) by (nonlinear_arith);
    about_le_trans(d * big, rp * sb, rp * np, 8, 8);
    // Together.
    about_le_scale(sent * pp, h, 2, big);
    assert(h * big <= d * big) by (nonlinear_arith)
        requires
            h <= d,
            big == 8_000_000_000,
    ;
    assert(about_le(h * big, d * big, 0));
    assert(d * big >= 0) by (nonlinear_arith)
        requires
            h <= d,
            h > 0,
            big == 8_000_000_000,
    ;
    about_le_trans((sent * pp) * big, h * big, d * big, 2, 0);
    about_le_trans((sent * pp) * big, d * big, rp * np, 3, 17);
    assert((sent * pp) * big == (sent * big) * pp) by (nonlinear_arith);
    assert(rp * np == target * pp) by (nonlinear_arith)
        requires
            rp == rate_bps * p,
            np == elapsed.nanos * p,
            target == rate_bps * elapsed.nanos,
            pp == p * p,
    ;
    about_le_cancel(sent * big, target, 21, pp);
}

/// A sender that has sent nothing keeps its pace.
pub proof fn a_new_sender_keeps_the_pace(bucket: TokenBucket, now: Instant)
    requires
        bucket.bytes_sent == 0,
    ensures
        bucket.keeps_pace(0, now),
{
    no_pause_without_rate_or_bytes(bucket, now);
    assert(bucket.was_due(0, now));
}

/// A sender that keeps its pace does so with more slack, and later on.
pub proof fn pace_lasts(bucket: TokenBucket, slack: nat, now: Instant, more: nat, later: Instant)
    requires
        bucket.keeps_pace(slack, now),
        slack <= more,
        now.nanos <= later.nanos,
    ensures
        bucket.keeps_pace(more, later),
{
    let (sent, at) = choose|sent: u64, at: Instant| #[trigger]
        bucket.was_due(sent, at) && at.nanos <= now.nanos && bucket.bytes_sent <= sent + slack;
    assert(bucket.was_due(sent, at));
}

/// A sender that sends `n` bytes when it is not ahead keeps its pace but for
/// those.
pub proof fn sending_when_due_keeps_the_pace(bucket: TokenBucket, at: Instant, n: u64)
    requires
        bucket.pause_at(at) is None,
    ensures
        bucket.after(n).keeps_pace(n as nat, at),
{
    assert(bucket.after(n).was_due(bucket.bytes_sent, at));
}

/// A sender that keeps its pace sends no faster than its rate: at `now`, all
/// that it has sent, but for the slack, is within what the rate allows for
/// the time that has passed, but for the rounding of doubles.
pub proof fn rate_is_kept(bucket: TokenBucket, slack: nat, now: Instant)
    requires
        bucket.rate_bps > 0,
        bucket.keeps_pace(slack, now),
    ensures
        about_le(
            (bucket.bytes_sent - slack) * 8_000_000_000,
            bucket.rate_bps * bucket.running(now).nanos,
            21,
        ),
{
    let (sent, at) = choose|sent: u64, at: Instant| #[trigger]
        bucket.was_due(sent, at) && at.nanos <= now.nanos && bucket.bytes_sent <= sent + slack;
    due_bytes_are_within_the_rate(bucket.rate_bps, sent, bucket.running(at));
    let rate = bucket.rate_bps as int;
    let then = bucket.running(at).nanos as int;
    let until = bucket.running(now).nanos as int;
    assert((TWO_53 + 21) * (rate * then) <= (TWO_53 + 21) * (rate * until)) by (nonlinear_arith)
        requires
            0 <= then <= until,
            rate > 0,
    ;
}

} // verus!
