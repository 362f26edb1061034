//! The jitter estimate of RFC 1889.
//!
//! For each datagram after the first, `D = (R_j - R_i) - (S_j - S_i)`, where
//! R is when a datagram came and S when it says that it was sent, both in
//! milliseconds. The estimate moves a sixteenth of the way towards `|D|`:
//! `J = J + (|D| - J) / 16`.
//!
//! All of this is computed in double precision. The estimate may fade away to
//! the smallest numbers that double precision has, so it is told in ticks
//! here: whole multiples of the smallest double, 2 to the power -1074.

use vstd::prelude::*;
use vstd::arithmetic::power2::*;

use super::binary64::{bits_of, compare_by_exponent, doublings, doublings_fill, fits};
use super::binary64::{fitting_exponent_is_unique, half_even, half_even_of_multiple, nearest};
use super::binary64::{nearest_by_exponent, nearest_of_shifted, pow2_pos, pow2_pos_adds};
use super::binary64::{pow2_pos_grows, pow2_pos_positive, pow2_pos_step, power_of_two};
use super::binary64::{round_ratio, scaled_den, scaled_num, seconds, to_bits, to_seconds};
use super::binary64::{units_not_negative, Double, TWO_52, TWO_53};
use super::float_bits::FloatBits;
use super::time::{Duration, MAX_NANOS};
use super::udp_header::UdpHeader;

verus! {

// ---------------------------------------------------------------------
// Ticks.

/// The number is a whole multiple of the smallest double.
pub open spec fn on_grid(d: Double) -> bool {
    &&& d.wf()
    &&& d.mant == 0 || d.exp >= -1074 || (d.exp >= -1126 && d.mant as int % pow2_pos(
        -1074 - d.exp,
    ) == 0)
}

/// How many times the smallest double a number is.
pub open spec fn ticks(d: Double) -> int {
    if d.mant == 0 {
        0
    } else if d.exp >= -1074 {
        d.mant * pow2_pos(d.exp + 1074)
    } else {
        d.mant as int / pow2_pos(-1074 - d.exp)
    }
}

/// The double nearest to so many ticks.
pub open spec fn of_ticks(t: int) -> Double {
    nearest(t, 1).shifted(-1074)
}

/// So many ticks, rounded to a double.
pub open spec fn rounded(t: int) -> int {
    ticks(of_ticks(t))
}

/// No estimate, and no distance between datagrams, is larger than this many
/// milliseconds times 2^1074: 2^83 milliseconds.
pub open spec fn tick_limit() -> int {
    pow2_pos(1157)
}

/// A number that the estimate may hold.
pub open spec fn is_estimate(d: Double) -> bool {
    on_grid(d) && ticks(d) <= tick_limit()
}

proof fn half_even_scales(n: int, d: int, c: int)
    requires
        n >= 0,
        d > 0,
        c > 0,
    ensures
        half_even(n * c, d * c) == half_even(n, d),
{
    let q = n / d;
    let r = n % d;
    vstd::arithmetic::div_mod::lemma_fundamental_div_mod(n, d);
    assert(0 <= r < d) by {
        vstd::arithmetic::div_mod::lemma_mod_bound(n, d);
    }
    assert(n * c == q * (d * c) + r * c) by (nonlinear_arith)
        requires
            n == d * q + r,
    ;
    assert(0 <= r * c < d * c) by (nonlinear_arith)
        requires
            0 <= r < d,
            c > 0,
    ;
    assert(d * c > 0) by (nonlinear_arith)
        requires
            d > 0,
            c > 0,
    ;
    vstd::arithmetic::div_mod::lemma_fundamental_div_mod_converse(n * c, d * c, q, r * c);
    assert((2 * (r * c) < d * c) == (2 * r < d)) by (nonlinear_arith)
        requires
            c > 0,
    ;
    assert((2 * (r * c) == d * c) == (2 * r == d)) by (nonlinear_arith)
        requires
            c > 0,
    ;
}

/// Rounding to a whole number at most doubles.
proof fn half_even_at_most_doubles(n: int, d: int)
    requires
        n >= 0,
        d > 0,
    ensures
        0 <= half_even(n, d),
        half_even(n, d) * d <= 2 * n,
{
    let q = n / d;
    let r = n % d;
    vstd::arithmetic::div_mod::lemma_fundamental_div_mod(n, d);
    vstd::arithmetic::div_mod::lemma_mod_bound(n, d);
    assert(q >= 0) by (nonlinear_arith)
        requires
            n == d * q + r,
            n >= 0,
            0 <= r < d,
    ;
    assert(q * d <= 2 * n) by (nonlinear_arith)
        requires
            n == d * q + r,
            q >= 0,
            r >= 0,
            d > 0,
    ;
    if half_even(n, d) == q + 1 {
        assert((q + 1) * d <= 2 * n) by (nonlinear_arith)
            requires
                n == d * q + r,
                2 * r >= d,
                q >= 0,
                d > 0,
        ;
    }
}

/// What fits rounds to a mantissa, or to one more than the largest.
proof fn half_even_of_fitting(n: int, d: int)
    requires
        d > 0,
        TWO_52 * d <= n < TWO_53 * d,
    ensures
        TWO_52 <= half_even(n, d) <= TWO_53,
{
    let q = n / d;
    let r = n % d;
    vstd::arithmetic::div_mod::lemma_fundamental_div_mod(n, d);
    vstd::arithmetic::div_mod::lemma_mod_bound(n, d);
    assert(TWO_52 <= q < TWO_53) by (nonlinear_arith)
        requires
            n == d * q + r,
            0 <= r < d,
            TWO_52 * d <= n < TWO_53 * d,
    ;
}

/// Some exponent fits every whole number.
proof fn some_exponent_fits(n: int) -> (e: int)
    requires
        n > 0,
    ensures
        fits(n, 1, e),
        n >= TWO_53 ==> e >= 1,
        n < TWO_53 ==> e <= 0,
    decreases n,
{
    if n < TWO_53 {
        doublings_fill(n);
        let s = doublings(n);
        assert(scaled_num(n, -s) == n * pow2_pos(s));
        assert(scaled_den(1, -s) == 1);
        -s
    } else {
        let h = n / 2;
        let d = some_exponent_fits(h);
        if h >= TWO_53 {
            pow2_pos_step(d);
            let p = pow2_pos(d);
            assert(scaled_num(h, d) == h) by {
                assert(pow2_pos(-d) == 1);
                assert(h * 1 == h);
            }
            assert(scaled_num(n, d + 1) == n) by {
                assert(pow2_pos(-(d + 1)) == 1);
                assert(n * 1 == n);
            }
            assert(scaled_den(1, d) == p);
            assert(scaled_den(1, d + 1) == 2 * p);
            d + 1
        } else {
            lemma2_to64();
            assert(pow2_pos(1) == 2);
            assert(scaled_num(n, 1) == n) by {
                assert(pow2_pos(-1) == 1);
                assert(n * 1 == n);
            }
            assert(scaled_den(1, 1) == 2);
            1
        }
    }
}

/// Rounding does not depend on the unit.
proof fn nearest_scales(n: int, t: int)
    requires
        n > 0,
        0 <= t <= 3_000,
        n <= pow2_pos(3_000),
    ensures
        nearest(n * pow2_pos(t), 1) == nearest(n, 1).shifted(t),
{
    let e = some_exponent_fits(n);
    let c = pow2_pos(t);
    pow2_pos_positive(t);
    let num = n * c;
    assert(num > 0) by (nonlinear_arith)
        requires
            num == n * c,
            n > 0,
            c >= 1,
    ;
    exponent_in_range(n, e);
    nearest_by_exponent(n, 1, e);
    pow2_pos_positive(e);
    assert(scaled_den(1, e) == pow2_pos(e));
    half_even_of_fitting(scaled_num(n, e), scaled_den(1, e));
    if e >= 0 {
        let p = pow2_pos(e);
        pow2_pos_positive(e);
        pow2_pos_adds(e, t);
        assert(pow2_pos(-e) == 1);
        assert(pow2_pos(-(e + t)) == 1);
        assert(scaled_num(n, e) == n) by {
            assert(n * 1 == n);
        }
        assert(scaled_den(1, e) == p);
        assert(scaled_num(num, e + t) == num) by {
            assert(num * 1 == num);
        }
        assert(scaled_den(1, e + t) == p * c);
        assert(TWO_52 * (p * c) <= num < TWO_53 * (p * c)) by (nonlinear_arith)
            requires
                TWO_52 * p <= n < TWO_53 * p,
                num == n * c,
                c >= 1,
        ;
        nearest_by_exponent(num, 1, e + t);
        half_even_scales(n, p, c);
    } else if e + t <= 0 {
        pow2_pos_adds(t, -(e + t));
        assert(pow2_pos(-e) == c * pow2_pos(-(e + t)));
        assert(scaled_num(num, e + t) == scaled_num(n, e)) by (nonlinear_arith)
            requires
                scaled_num(num, e + t) == num * pow2_pos(-(e + t)),
                scaled_num(n, e) == n * pow2_pos(-e),
                num == n * c,
                pow2_pos(-e) == c * pow2_pos(-(e + t)),
        ;
        assert(scaled_den(1, e + t) == 1);
        assert(scaled_den(1, e) == 1);
        nearest_by_exponent(num, 1, e + t);
    } else {
        let a = pow2_pos(-e);
        let b = pow2_pos(e + t);
        pow2_pos_adds(-e, e + t);
        pow2_pos_positive(e + t);
        let m = n * a;
        assert(scaled_num(n, e) == m);
        assert(scaled_den(1, e) == 1);
        assert(num == m * b) by (nonlinear_arith)
            requires
                num == n * c,
                m == n * a,
                c == a * b,
        ;
        assert(pow2_pos(-(e + t)) == 1);
        assert(scaled_num(num, e + t) == num) by {
            assert(num * 1 == num);
        }
        assert(scaled_den(1, e + t) == b);
        assert(TWO_52 * b <= num < TWO_53 * b) by (nonlinear_arith)
            requires
                num == m * b,
                TWO_52 <= m < TWO_53,
                b >= 1,
        ;
        nearest_by_exponent(num, 1, e + t);
        half_even_of_multiple(m, b);
        half_even_of_multiple(m, 1);
        assert(m * 1 == m);
    }
}

/// The exponent of a number that is not too large.
proof fn exponent_in_range(n: int, e: int)
    requires
        n > 0,
        n <= pow2_pos(3_000),
        fits(n, 1, e),
    ensures
        -53 <= e <= 3_000,
{
    if e > 3_000 {
        pow2_pos_grows(3_000, e);
        pow2_pos_positive(3_000);
        assert(pow2_pos(-e) == 1);
        assert(n * 1 == n);
        assert(1 * pow2_pos(e) == pow2_pos(e));
        assert(false) by (nonlinear_arith)
            requires
                TWO_52 * pow2_pos(e) <= n,
                n <= pow2_pos(3_000),
                pow2_pos(3_000) <= pow2_pos(e),
                pow2_pos(3_000) >= 1,
        ;
    }
    if e < -53 {
        pow2_pos_grows(54, -e);
        lemma2_to64_rest();
        assert(scaled_den(1, e) == 1);
        assert(n * pow2_pos(-e) >= 2 * TWO_53) by (nonlinear_arith)
            requires
                n >= 1,
                pow2_pos(-e) >= 2 * TWO_53,
        ;
    }
}

/// In any unit, a number is as many of it as its ticks say.
proof fn units_and_ticks(d: Double, e: int)
    requires
        on_grid(d),
        d.mant > 0 ==> e <= d.exp,
    ensures
        e >= -1074 ==> d.units(e) * pow2_pos(e + 1074) == ticks(d),
        e < -1074 ==> d.units(e) == ticks(d) * pow2_pos(-1074 - e),
        ticks(d) >= 0,
        d.mant > 0 ==> ticks(d) > 0,
{
    if d.mant > 0 {
        let m = d.mant as int;
        let f = d.exp as int;
        pow2_pos_positive(f + 1074);
        pow2_pos_positive(-1074 - f);
        if f >= -1074 {
            assert(m * pow2_pos(f + 1074) > 0) by (nonlinear_arith)
                requires
                    m > 0,
                    pow2_pos(f + 1074) >= 1,
            ;
            if e >= -1074 {
                pow2_pos_adds(f - e, e + 1074);
                assert((m * pow2_pos(f - e)) * pow2_pos(e + 1074) == m * (pow2_pos(f - e)
                    * pow2_pos(e + 1074))) by (nonlinear_arith);
            } else {
                pow2_pos_adds(f + 1074, -1074 - e);
                assert((m * pow2_pos(f + 1074)) * pow2_pos(-1074 - e) == m * (pow2_pos(f + 1074)
                    * pow2_pos(-1074 - e))) by (nonlinear_arith);
            }
        } else {
            let c = pow2_pos(-1074 - f);
            let t = m / c;
            vstd::arithmetic::div_mod::lemma_fundamental_div_mod(m, c);
            assert(m == t * c) by (nonlinear_arith)
                requires
                    m == c * t + m % c,
                    m % c == 0,
            ;
            assert(t > 0) by (nonlinear_arith)
                requires
                    m == t * c,
                    m > 0,
                    c >= 1,
            ;
            pow2_pos_adds(-1074 - f, f - e);
            assert((t * c) * pow2_pos(f - e) == t * (c * pow2_pos(f - e))) by (nonlinear_arith);
        }
    } else {
        assert(0 * pow2_pos(e + 1074) == 0);
        assert(0 * pow2_pos(-1074 - e) == 0);
    }
}

/// A number of so many units is the double nearest to as many ticks.
proof fn nearest_in_ticks(units: int, e: int, t: int)
    requires
        -1_200 <= e <= 100,
        units >= 0,
        0 <= t <= 2 * tick_limit(),
        e >= -1074 ==> units * pow2_pos(e + 1074) == t,
        e < -1074 ==> units == t * pow2_pos(-1074 - e),
    ensures
        nearest(units, 1).shifted(e) == of_ticks(t),
{
    pow2_pos_positive(e + 1074);
    pow2_pos_positive(-1074 - e);
    limits();
    if e >= -1074 {
        if units == 0 {
            assert(0 * pow2_pos(e + 1074) == 0);
        } else {
            assert(units <= t) by (nonlinear_arith)
                requires
                    units * pow2_pos(e + 1074) == t,
                    pow2_pos(e + 1074) >= 1,
                    units > 0,
            ;
            nearest_scales(units, e + 1074);
            nearest_is_small(units);
        }
    } else {
        if t == 0 {
            assert(0 * pow2_pos(-1074 - e) == 0);
        } else {
            assert(units > 0) by (nonlinear_arith)
                requires
                    units == t * pow2_pos(-1074 - e),
                    t > 0,
                    pow2_pos(-1074 - e) >= 1,
            ;
            nearest_scales(t, -1074 - e);
            nearest_is_small(t);
        }
    }
}

/// The limit, and twice the limit, are far below what rounding can take.
proof fn limits()
    ensures
        tick_limit() >= TWO_53,
        2 * tick_limit() <= pow2_pos(3_000),
        2 * tick_limit() == pow2_pos(1158),
{
    pow2_pos_step(1157);
    pow2_pos_grows(1158, 3_000);
    pow2_pos_grows(53, 1157);
    lemma2_to64_rest();
}

/// The double nearest to a number that is not too large has a mantissa, and
/// an exponent that shifts without trouble.
proof fn nearest_is_small(n: int)
    requires
        0 < n <= pow2_pos(3_000),
    ensures
        TWO_52 <= nearest(n, 1).mant < TWO_53,
        -53 <= nearest(n, 1).exp <= 3_001,
{
    let e = some_exponent_fits(n);
    exponent_in_range(n, e);
    nearest_by_exponent(n, 1, e);
    pow2_pos_positive(e);
    assert(scaled_den(1, e) == pow2_pos(e));
    half_even_of_fitting(scaled_num(n, e), scaled_den(1, e));
}

/// What rounding ticks to a double comes to: small counts are exact, none
/// more than doubles, and a power of two is not crossed.
proof fn rounding_facts(t: int)
    requires
        0 <= t <= tick_limit(),
    ensures
        on_grid(of_ticks(t)),
        t < TWO_53 ==> rounded(t) == t,
        0 <= rounded(t) <= 2 * t,
        rounded(t) <= tick_limit(),
        rounded(t) == 0 ==> t == 0,
{
    limits();
    if t == 0 {
    } else if t < TWO_53 {
        let s = doublings(t);
        let m = t * pow2_pos(s);
        doublings_fill(t);
        assert(t * pow2_pos(0) == t);
        nearest_of_shifted(t, 0);
        pow2_pos_positive(s);
        let d = of_ticks(t);
        assert(d.mant == m && d.exp == -1074 - s);
        if s == 0 {
            assert(pow2_pos(0) == 1);
            assert(m * 1 == m);
            assert(t * 1 == t);
        } else {
            vstd::arithmetic::div_mod::lemma_fundamental_div_mod_converse(m, pow2_pos(s), t, 0);
        }
    } else {
        let e = some_exponent_fits(t);
        let p = pow2_pos(e);
        pow2_pos_positive(e);
        exponent_in_range(t, e);
        nearest_by_exponent(t, 1, e);
        assert(pow2_pos(-e) == 1);
        assert(scaled_num(t, e) == t) by {
            assert(t * 1 == t);
        }
        assert(scaled_den(1, e) == p);
        half_even_of_fitting(t, p);
        half_even_at_most_doubles(t, p);
        let m = half_even(t, p);
        let d = of_ticks(t);
        pow2_pos_step(e);
        assert(ticks(d) == m * p) by {
            if m == TWO_53 {
                assert(TWO_52 * (2 * p) == TWO_53 * p) by (nonlinear_arith)
                    requires
                        TWO_53 == 2 * TWO_52,
                ;
            }
        }
        assert(m * p <= tick_limit()) by {
            not_past_a_power(t, e, 1157);
        }
        assert(m * p > 0) by (nonlinear_arith)
            requires
                m >= TWO_52,
                p >= 1,
        ;
    }
}

/// Rounding does not cross a power of two.
proof fn not_past_a_power(t: int, e: int, j: int)
    requires
        0 < t <= pow2_pos(j),
        e >= 1,
        j >= 53,
        fits(t, 1, e),
    ensures
        half_even(t, pow2_pos(e)) * pow2_pos(e) <= pow2_pos(j),
{
    let p = pow2_pos(e);
    pow2_pos_positive(e);
    assert(pow2_pos(-e) == 1);
    assert(scaled_num(t, e) == t) by {
        assert(t * 1 == t);
    }
    assert(scaled_den(1, e) == p);
    half_even_of_fitting(t, p);
    lemma2_to64_rest();
    if e + 53 <= j {
        pow2_pos_adds(53, e);
        pow2_pos_grows(e + 53, j);
        assert(half_even(t, p) * p <= TWO_53 * p) by (nonlinear_arith)
            requires
                half_even(t, p) <= TWO_53,
                p >= 1,
        ;
    } else {
        // Then t is the power itself.
        pow2_pos_adds(52, e);
        pow2_pos_grows(j, e + 52);
        assert(t == TWO_52 * p);
        half_even_of_multiple(TWO_52 as int, p);
    }
}

/// The sum of two numbers is the double nearest to the sum of their ticks.
proof fn sum_in_ticks(a: Double, b: Double)
    requires
        is_estimate(a),
        is_estimate(b),
    ensures
        a.sum(b) == of_ticks(ticks(a) + ticks(b)),
{
    estimate_range(a);
    estimate_range(b);
    let e = a.common_exp(b);
    units_and_ticks(a, e);
    units_and_ticks(b, e);
    units_not_negative(a, e);
    units_not_negative(b, e);
    let n = a.units(e) + b.units(e);
    let t = ticks(a) + ticks(b);
    if e >= -1074 {
        assert(n * pow2_pos(e + 1074) == t) by (nonlinear_arith)
            requires
                n == a.units(e) + b.units(e),
                t == ticks(a) + ticks(b),
                a.units(e) * pow2_pos(e + 1074) == ticks(a),
                b.units(e) * pow2_pos(e + 1074) == ticks(b),
        ;
    } else {
        assert(n == t * pow2_pos(-1074 - e)) by (nonlinear_arith)
            requires
                n == a.units(e) + b.units(e),
                t == ticks(a) + ticks(b),
                a.units(e) == ticks(a) * pow2_pos(-1074 - e),
                b.units(e) == ticks(b) * pow2_pos(-1074 - e),
        ;
    }
    nearest_in_ticks(n, e, t);
}

/// Smaller is smaller in ticks, and the difference of two numbers is the
/// double nearest to the difference of their ticks.
proof fn difference_in_ticks(a: Double, b: Double)
    requires
        is_estimate(a),
        is_estimate(b),
    ensures
        a.below(b) <==> ticks(a) < ticks(b),
        ticks(b) <= ticks(a) ==> a.difference(b) == of_ticks(ticks(a) - ticks(b)),
{
    estimate_range(a);
    estimate_range(b);
    let e = a.common_exp(b);
    units_and_ticks(a, e);
    units_and_ticks(b, e);
    let n = a.units(e) - b.units(e);
    let t = ticks(a) - ticks(b);
    pow2_pos_positive(e + 1074);
    pow2_pos_positive(-1074 - e);
    if e >= -1074 {
        let c = pow2_pos(e + 1074);
        assert(n * c == t) by (nonlinear_arith)
            requires
                n == a.units(e) - b.units(e),
                t == ticks(a) - ticks(b),
                a.units(e) * c == ticks(a),
                b.units(e) * c == ticks(b),
        ;
        assert((n < 0) == (t < 0)) by (nonlinear_arith)
            requires
                n * c == t,
                c >= 1,
        ;
    } else {
        let c = pow2_pos(-1074 - e);
        assert(n == t * c) by (nonlinear_arith)
            requires
                n == a.units(e) - b.units(e),
                t == ticks(a) - ticks(b),
                a.units(e) == ticks(a) * c,
                b.units(e) == ticks(b) * c,
        ;
        assert((n < 0) == (t < 0)) by (nonlinear_arith)
            requires
                n == t * c,
                c >= 1,
        ;
    }
    if t >= 0 {
        limits();
        nearest_in_ticks(n, e, t);
    }
}

/// A double is what its ticks round to.
proof fn doubles_are_rounded(d: Double)
    requires
        is_estimate(d),
    ensures
        of_ticks(ticks(d)) == d,
        rounded(ticks(d)) == ticks(d),
{
    estimate_range(d);
    if d.mant > 0 {
        let m = d.mant as int;
        if d.exp >= -1074 {
            let u = d.exp + 1074;
            assert(m * pow2_pos(0) == m);
            nearest_of_shifted(m, 0);
            limits();
            pow2_pos_grows(53, 3_000);
            lemma2_to64_rest();
            nearest_scales(m, u);
        } else {
            let c = -1074 - d.exp;
            let p = pow2_pos(c);
            let t = m / p;
            pow2_pos_positive(c);
            vstd::arithmetic::div_mod::lemma_fundamental_div_mod(m, p);
            assert(m == t * p) by (nonlinear_arith)
                requires
                    m == p * t + m % p,
                    m % p == 0,
            ;
            assert(0 < t <= m) by (nonlinear_arith)
                requires
                    m == t * p,
                    m > 0,
                    p >= 1,
            ;
            let s = doublings(t);
            doublings_fill(t);
            assert(scaled_num(t, -c) == m);
            assert(scaled_den(1, -c) == 1);
            assert(scaled_num(t, -s) == t * pow2_pos(s));
            assert(scaled_den(1, -s) == 1);
            fitting_exponent_is_unique(t, 1, -c, -s);
            assert(t * pow2_pos(0) == t);
            nearest_of_shifted(t, 0);
        }
    }
}

/// The exponents that an estimate can have.
proof fn estimate_range(d: Double)
    requires
        is_estimate(d),
    ensures
        d.within(-1_126, 31),
        ticks(d) >= 0,
{
    if d.mant > 0 {
        units_and_ticks(d, d.exp as int);
        if d.exp > 31 {
            pow2_pos_adds(52, 1106);
            pow2_pos_grows(1106, d.exp + 1074);
            pow2_pos_positive(1106);
            pow2_pos_step(1157);
            lemma2_to64_rest();
            assert(d.mant * pow2_pos(d.exp + 1074) >= TWO_52 * pow2_pos(1106))
                by (nonlinear_arith)
                requires
                    d.mant >= TWO_52,
                    pow2_pos(d.exp + 1074) >= pow2_pos(1106),
                    pow2_pos(1106) >= 1,
            ;
            pow2_pos_positive(1157);
        }
    }
}

// ---------------------------------------------------------------------
// The estimate.

/// The estimate that follows on `j`, for a distance `d`, both in ticks:
/// every step is rounded to a double.
pub open spec fn update_ticks(j: int, d: int) -> int {
    if d < j {
        rounded(j - half_even(rounded(j - d), 16))
    } else {
        rounded(j + half_even(rounded(d - j), 16))
    }
}

/// The estimate that follows on `j`, for a distance `d`.
pub open spec fn estimate_after(j: Double, d: Double) -> Double {
    of_ticks(update_ticks(ticks(j), ticks(d)))
}

/// A number with a sign.
#[derive(Debug, Clone, Copy, PartialEq, Eq, Structural)]
pub struct Signed {
    pub negative: bool,
    pub size: Double,
}

/// A sixteenth of a number.
fn sixteenth(d: Double) -> (r: Double)
    requires
        is_estimate(d),
    ensures
        on_grid(r),
        ticks(r) == half_even(ticks(d), 16),
{
    proof {
        estimate_range(d);
    }
    if d.mant == 0 {
        return d;
    }
    if d.exp >= -1070 {
        let r = Double { mant: d.mant, exp: d.exp - 4 };
        proof {
            let a = pow2_pos(d.exp + 1070);
            pow2_pos_positive(d.exp + 1070);
            pow2_pos_adds(d.exp + 1070, 4);
            lemma2_to64();
            assert(d.mant * (a * 16) == (d.mant * a) * 16) by (nonlinear_arith);
            assert(d.mant * a >= 0) by (nonlinear_arith)
                requires
                    d.mant >= 0,
                    a >= 1,
            ;
            half_even_of_multiple(d.mant * a, 16);
        }
        return r;
    }
    let s: u32 = (-1070 - d.exp) as u32;
    let p: u128 = power_of_two(s);
    let mant: u128 = d.mant as u128;
    let q: u128 = mant / p;
    let rem: u128 = mant % p;
    proof {
        assert(rem < p && q <= mant) by (nonlinear_arith)
            requires
                q == mant / p,
                rem == mant % p,
                p >= 1,
                mant >= 0,
        ;
        pow2_pos_grows(s as int, 64);
        lemma2_to64();
    }
    let k: u128 = if rem * 2 < p || (rem * 2 == p && q % 2 == 0) {
        q
    } else {
        q + 1
    };
    proof {
        assert(k == half_even(mant as int, p as int));
        sixteenth_of_small(d, s as int);
        half_even_at_most_doubles(mant as int, p as int);
        assert(k < TWO_53) by (nonlinear_arith)
            requires
                k * p <= 2 * mant,
                p >= 2,
                mant < TWO_53,
        ;
        rounding_facts_small(k as int);
    }
    round_ratio(k, 1, -1074)
}

proof fn rounding_facts_small(k: int)
    requires
        0 <= k < TWO_53,
    ensures
        on_grid(of_ticks(k)),
        rounded(k) == k,
{
    limits();
    rounding_facts(k);
}

/// A sixteenth of a number that is so small that ticks are lost.
proof fn sixteenth_of_small(d: Double, s: int)
    requires
        on_grid(d),
        d.mant > 0,
        -1_126 <= d.exp < -1070,
        s == -1070 - d.exp,
    ensures
        half_even(d.mant as int, pow2_pos(s)) == half_even(ticks(d), 16),
        pow2_pos(s) >= 2,
{
    let m = d.mant as int;
    lemma2_to64();
    pow2_pos_grows(1, s);
    if d.exp >= -1074 {
        let a = pow2_pos(d.exp + 1074);
        pow2_pos_positive(d.exp + 1074);
        pow2_pos_positive(s);
        pow2_pos_adds(s, d.exp + 1074);
        half_even_scales(m, pow2_pos(s), a);
    } else {
        let c = pow2_pos(-1074 - d.exp);
        let t = m / c;
        pow2_pos_positive(-1074 - d.exp);
        pow2_pos_adds(4, -1074 - d.exp);
        vstd::arithmetic::div_mod::lemma_fundamental_div_mod(m, c);
        assert(m == t * c) by (nonlinear_arith)
            requires
                m == c * t + m % c,
                m % c == 0,
        ;
        assert(t >= 0) by (nonlinear_arith)
            requires
                m == t * c,
                m > 0,
                c >= 1,
        ;
        half_even_scales(t, 16, c);
    }
}

/// The estimate that follows on `prev_jitter`, for a distance `d` of either
/// sign.
pub fn update(prev_jitter: Double, d: Signed) -> (r: Double)
    requires
        is_estimate(prev_jitter),
        is_estimate(d.size),
    ensures
        is_estimate(r),
        r == estimate_after(prev_jitter, d.size),
{
    let j = prev_jitter;
    let size = d.size;
    proof {
        estimate_range(j);
        estimate_range(size);
        difference_in_ticks(size, j);
        difference_in_ticks(j, size);
    }
    if size.is_below(j) {
        let x = j.minus(size);
        proof {
            rounding_facts(ticks(j) - ticks(size));
        }
        let q = sixteenth(x);
        proof {
            half_even_at_most_doubles(ticks(x), 16);
            difference_in_ticks(j, q);
            rounding_facts(ticks(j) - ticks(q));
            estimate_range(q);
        }
        let r = j.minus(q);
        proof {
            doubles_are_rounded(r);
        }
        r
    } else {
        let x = size.minus(j);
        proof {
            rounding_facts(ticks(size) - ticks(j));
        }
        let q = sixteenth(x);
        proof {
            half_even_at_most_doubles(ticks(x), 16);
            estimate_range(q);
            sum_in_ticks(j, q);
            rounding_facts(ticks(j) + ticks(q));
        }
        let r = j.plus(q);
        proof {
            doubles_are_rounded(r);
        }
        r
    }
}

// ---------------------------------------------------------------------
// Times and distances.

/// The difference of two numbers.
pub open spec fn signed_difference(a: Double, b: Double) -> Signed {
    if a.below(b) {
        Signed { negative: true, size: b.difference(a) }
    } else {
        Signed { negative: false, size: a.difference(b) }
    }
}

/// How long a datagram seems to have been on its way, in milliseconds: from
/// when it says that it was sent to when it came, each on its own clock.
pub open spec fn transit(since_first: Duration, tv_sec: u32, tv_usec: u32) -> Signed {
    let thousand = nearest(1_000, 1);
    let came = seconds(since_first).product(thousand);
    let sent = nearest(tv_sec as int, 1).product(thousand).sum(
        nearest(tv_usec as int, 1).quotient(thousand),
    );
    signed_difference(came, sent)
}

/// The distance between two transit times.
pub open spec fn distance(a: Signed, b: Signed) -> Signed {
    if a.negative != b.negative {
        Signed { negative: a.negative, size: a.size.sum(b.size) }
    } else {
        let d = signed_difference(a.size, b.size);
        Signed { negative: d.negative != a.negative, size: d.size }
    }
}

/// A transit time as the clocks can give one.
pub open spec fn is_transit(t: Signed) -> bool {
    t.size.within(-301, 27)
}

fn subtract(a: Double, b: Double) -> (d: Signed)
    requires
        a.within(-400, 30),
        b.within(-400, 30),
    ensures
        d == signed_difference(a, b),
        d.size.within(-601, 31),
        a.within(-100, 26) && b.within(-100, 26) ==> is_transit(d),
        a.within(-301, 27) && b.within(-301, 27) ==> d.size.within(-502, 28),
{
    proof {
        compare_by_exponent(a, b);
    }
    if a.is_below(b) {
        Signed { negative: true, size: b.minus(a) }
    } else {
        Signed { negative: false, size: a.minus(b) }
    }
}

/// How long a datagram seems to have been on its way.
pub fn transit_of(since_first: Duration, header: &UdpHeader) -> (t: Signed)
    requires
        since_first.nanos <= MAX_NANOS,
    ensures
        t == transit(since_first, header.tv_sec, header.tv_usec),
        is_transit(t),
{
    let thousand = Double::from_u64(1_000);
    proof {
        lemma2_to64();
        assert(pow2_pos(9) <= 1_000 < pow2_pos(10));
        assert(pow2_pos(32) == 0x1_0000_0000);
    }
    let came = to_seconds(since_first).times(thousand);
    let secs = Double::from_u64(header.tv_sec as u64).times(thousand);
    let micros = Double::from_u64(header.tv_usec as u64).div(thousand);
    subtract(came, secs.plus(micros))
}

/// The distance between two transit times.
pub fn distance_of(a: Signed, b: Signed) -> (d: Signed)
    requires
        is_transit(a),
        is_transit(b),
    ensures
        d == distance(a, b),
        is_estimate(d.size),
{
    let d = if a.negative != b.negative {
        Signed { negative: a.negative, size: a.size.plus(b.size) }
    } else {
        let d = subtract(a.size, b.size);
        Signed { negative: d.negative != a.negative, size: d.size }
    };
    proof {
        normal_numbers_are_estimates(d.size);
    }
    d
}

/// Numbers that are neither very small nor very large may be estimates.
proof fn normal_numbers_are_estimates(d: Double)
    requires
        d.within(-1_074, 30),
    ensures
        is_estimate(d),
{
    limits();
    if d.mant > 0 {
        pow2_pos_positive(d.exp + 1074);
        pow2_pos_grows(d.exp + 1074, 1104);
        pow2_pos_adds(53, 1104);
        lemma2_to64_rest();
        assert(d.mant * pow2_pos(d.exp + 1074) <= TWO_53 * pow2_pos(1104)) by (nonlinear_arith)
            requires
                0 <= d.mant <= TWO_53,
                1 <= pow2_pos(d.exp + 1074) <= pow2_pos(1104),
        ;
    } else {
        pow2_pos_positive(1157);
    }
}

/// Nothing is an estimate too.
pub proof fn zero_is_an_estimate()
    ensures
        is_estimate(Double { mant: 0, exp: 0 }),
{
    normal_numbers_are_estimates(Double { mant: 0, exp: 0 });
}

/// The bits of an estimate in double precision. Where it is too small for a
/// mantissa of 53 bits, the bits are the number of ticks.
pub open spec fn estimate_bits(d: Double) -> int {
    if d.mant == 0 || d.exp < -1074 {
        ticks(d)
    } else {
        bits_of(d)
    }
}

/// The bits of an estimate in double precision.
pub fn estimate_to_bits(d: Double) -> (b: FloatBits)
    requires
        is_estimate(d),
    ensures
        b.bits == estimate_bits(d),
{
    proof {
        estimate_range(d);
    }
    if d.mant == 0 {
        FloatBits { bits: 0 }
    } else if d.exp < -1074 {
        let p: u128 = power_of_two((-1074 - d.exp) as u32);
        proof {
            assert(0 <= d.mant as int / p as int <= d.mant) by (nonlinear_arith)
                requires
                    p >= 1,
                    d.mant >= 0,
            ;
        }
        FloatBits { bits: (d.mant as u128 / p) as u64 }
    } else {
        to_bits(d)
    }
}

/// A large count that is a double is a mantissa of 53 bits times a power of
/// two.
proof fn large_double(b: int) -> (r: (int, int))
    requires
        TWO_53 <= b <= tick_limit(),
        rounded(b) == b,
    ensures
        TWO_52 <= r.0 < TWO_53,
        r.1 >= 1,
        b == r.0 * pow2_pos(r.1),
{
    limits();
    let e = some_exponent_fits(b);
    exponent_in_range(b, e);
    nearest_by_exponent(b, 1, e);
    nearest_is_small(b);
    pow2_pos_positive(e);
    assert(scaled_den(1, e) == pow2_pos(e));
    half_even_of_fitting(scaled_num(b, e), scaled_den(1, e));
    let d = nearest(b, 1);
    (d.mant as int, d.exp as int)
}

/// Rounding keeps on the same side of a count that is a double.
proof fn rounding_is_monotonic(x: int, b: int)
    requires
        0 <= x <= tick_limit(),
        0 <= b <= tick_limit(),
        rounded(b) == b,
    ensures
        x <= b ==> rounded(x) <= b,
        x >= b ==> rounded(x) >= b,
{
    rounding_facts(x);
    if x >= TWO_53 {
        limits();
        let e = some_exponent_fits(x);
        let p = pow2_pos(e);
        exponent_in_range(x, e);
        nearest_by_exponent(x, 1, e);
        pow2_pos_positive(e);
        assert(pow2_pos(-e) == 1);
        assert(scaled_num(x, e) == x) by {
            assert(x * 1 == x);
        }
        assert(scaled_den(1, e) == p);
        half_even_of_fitting(x, p);
        let m = half_even(x, p);
        pow2_pos_step(e);
        assert(rounded(x) == m * p) by {
            if m == TWO_53 {
                assert(TWO_52 * (2 * p) == TWO_53 * p) by (nonlinear_arith)
                    requires
                        TWO_53 == 2 * TWO_52,
                ;
            }
        }
        let q = x / p;
        let r = x % p;
        vstd::arithmetic::div_mod::lemma_fundamental_div_mod(x, p);
        vstd::arithmetic::div_mod::lemma_mod_bound(x, p);
        assert(x == q * p + r) by (nonlinear_arith)
            requires
                x == p * q + r,
        ;
        assert((q + 1) * p == q * p + p) by (nonlinear_arith);
        assert(TWO_52 <= q) by (nonlinear_arith)
            requires
                x == q * p + r,
                TWO_52 * p <= x,
                0 <= r < p,
        ;
        assert(TWO_52 * p <= q * p) by (nonlinear_arith)
            requires
                TWO_52 <= q,
                p >= 1,
        ;
        if b >= TWO_53 {
            let (mb, eb) = large_double(b);
            let pb = pow2_pos(eb);
            pow2_pos_positive(eb);
            if eb >= e {
                // Then b is a multiple of p.
                pow2_pos_adds(e, eb - e);
                let c = mb * pow2_pos(eb - e);
                assert(b == c * p) by (nonlinear_arith)
                    requires
                        b == mb * pb,
                        pb == p * pow2_pos(eb - e),
                        c == mb * pow2_pos(eb - e),
                ;
                if x <= b {
                    assert(r > 0 ==> c >= q + 1) by (nonlinear_arith)
                        requires
                            b == c * p,
                            x <= b,
                            x == q * p + r,
                            p >= 1,
                    ;
                    assert(c >= q) by (nonlinear_arith)
                        requires
                            b == c * p,
                            x <= b,
                            x == q * p + r,
                            r >= 0,
                            p >= 1,
                    ;
                    assert(m <= c);
                    assert(m * p <= c * p) by (nonlinear_arith)
                        requires
                            m <= c,
                            p >= 1,
                    ;
                }
                if x >= b {
                    assert(c <= q) by (nonlinear_arith)
                        requires
                            b == c * p,
                            x >= b,
                            x == q * p + r,
                            r < p,
                            p >= 1,
                    ;
                    assert(m * p >= c * p) by (nonlinear_arith)
                        requires
                            m >= q,
                            q >= c,
                            p >= 1,
                    ;
                }
            } else {
                // Then b is below all that have this exponent.
                pow2_pos_grows(eb, e - 1);
                pow2_pos_step(e - 1);
                assert(b < TWO_52 * p) by (nonlinear_arith)
                    requires
                        b == mb * pb,
                        mb < TWO_53,
                        1 <= pb,
                        2 * pb <= p,
                        TWO_53 == 2 * TWO_52,
                ;
                assert(m * p >= q * p) by (nonlinear_arith)
                    requires
                        m >= q,
                        p >= 1,
                ;
            }
        } else {
            assert(m * p >= q * p) by (nonlinear_arith)
                requires
                    m >= q,
                    p >= 1,
            ;
            pow2_pos_grows(1, e);
            lemma2_to64();
            assert(TWO_52 * p >= TWO_53) by (nonlinear_arith)
                requires
                    p >= 2,
                    TWO_53 == 2 * TWO_52,
            ;
        }
    }
}

/// The estimate moves towards the distance and never past it: the new one
/// lies between the old one and the distance. One that equals the distance
/// stays.
pub proof fn estimate_moves_towards_the_distance(j: Double, d: Double)
    requires
        is_estimate(j),
        is_estimate(d),
    ensures
        ticks(d) <= ticks(j) ==> ticks(d) <= ticks(estimate_after(j, d)) <= ticks(j),
        ticks(d) >= ticks(j) ==> ticks(j) <= ticks(estimate_after(j, d)) <= ticks(d),
{
    limits();
    estimate_range(j);
    estimate_range(d);
    doubles_are_rounded(j);
    doubles_are_rounded(d);
    let (a, b) = (ticks(j), ticks(d));
    if b < a {
        rounding_facts(a - b);
        half_even_at_most_doubles(rounded(a - b), 16);
        let x = a - half_even(rounded(a - b), 16);
        rounding_is_monotonic(x, a);
        rounding_is_monotonic(x, b);
        settled(x);
    } else {
        rounding_facts(b - a);
        half_even_at_most_doubles(rounded(b - a), 16);
        let x = a + half_even(rounded(b - a), 16);
        rounding_is_monotonic(x, a);
        rounding_is_monotonic(x, b);
        settled(x);
    }
}

/// Rounding a second time changes nothing.
proof fn settled(x: int)
    requires
        0 <= x <= tick_limit(),
    ensures
        rounded(rounded(x)) == rounded(x),
{
    rounding_facts(x);
    doubles_are_rounded(of_ticks(x));
}

/// A number in units of 2 to the power -1126.
pub open spec fn finely(d: Double) -> int {
    d.mant * pow2_pos(d.exp + 1126)
}

proof fn finely_and_ticks(d: Double)
    requires
        is_estimate(d),
    ensures
        finely(d) == ticks(d) * TWO_52,
{
    estimate_range(d);
    lemma2_to64_rest();
    assert(pow2_pos(52) == TWO_52);
    if d.mant == 0 {
        assert(0 * pow2_pos(d.exp + 1126) == 0);
    } else if d.exp >= -1074 {
        let a = pow2_pos(d.exp + 1074);
        pow2_pos_adds(d.exp + 1074, 52);
        assert(d.mant * (a * TWO_52) == (d.mant * a) * TWO_52) by (nonlinear_arith);
    } else {
        let p = pow2_pos(-1074 - d.exp);
        let b = pow2_pos(d.exp + 1126);
        let t = d.mant as int / p;
        pow2_pos_positive(-1074 - d.exp);
        pow2_pos_adds(-1074 - d.exp, d.exp + 1126);
        vstd::arithmetic::div_mod::lemma_fundamental_div_mod(d.mant as int, p);
        assert(d.mant * b == t * TWO_52) by (nonlinear_arith)
            requires
                d.mant == p * t + d.mant as int % p,
                d.mant as int % p == 0,
                p * b == TWO_52,
        ;
    }
}

/// Rounding changes a count by less than five parts in 2^53.
proof fn rounding_is_close(t: int)
    requires
        0 <= t <= tick_limit(),
    ensures
        TWO_53 * (rounded(t) - t) <= 4 * t,
        TWO_53 * (t - rounded(t)) <= 4 * t,
{
    rounding_facts(t);
    if t >= TWO_53 {
        limits();
        super::rounding::fit_exists(t, 1);
        let e = super::rounding::fit(t, 1);
        let f = some_exponent_fits(t);
        fitting_exponent_is_unique(t, 1, e, f);
        exponent_in_range(t, e);
        super::rounding::nearest_is_near(t, 1, 0);
        let d = nearest(t, 1);
        let v = super::rounding::in_units(d, 0);
        assert(v == rounded(t));
        assert(pow2_pos(0) == 1);
        assert(v * 1 == v);
        assert(t * 1 == t);
    }
}

/// The new estimate is about fifteen sixteenths of the old one and a sixteenth
/// of the distance.
pub open spec fn a_sixteenth_on(j: Double, d: Double, r: Double) -> bool {
    let x = finely(j);
    let y = finely(d);
    let z = finely(r);
    let most = if x > y {
        x
    } else {
        y
    };
    &&& TWO_53 * (16 * z - (15 * x + y)) <= 100 * most + 16 * TWO_53 * TWO_52
    &&& TWO_53 * ((15 * x + y) - 16 * z) <= 100 * most + 16 * TWO_53 * TWO_52
}

/// The estimate moves a sixteenth of the way: sixteen times the new one is
/// fifteen times the old one and the distance once, but for the rounding of
/// doubles. In particular an estimate of nothing is left behind by any
/// distance that clocks can tell.
pub proof fn estimate_moves_a_sixteenth_of_the_way(j: Double, d: Signed, r: Double)
    requires
        is_estimate(j),
        is_estimate(d.size),
        call_ensures(update, (j, d), r),
    ensures
        a_sixteenth_on(j, d.size, r),
        j.mant == 0 && d.size.mant > 0 && d.size.exp >= -1000 ==> r.mant > 0,
{
    estimate_moves_on(j, d.size, r);
}

/// How the estimate moves.
pub proof fn estimate_moves_on(j: Double, d: Double, r: Double)
    requires
        is_estimate(j),
        is_estimate(d),
        is_estimate(r),
        r == estimate_after(j, d),
    ensures
        a_sixteenth_on(j, d, r),
        j.mant == 0 && d.mant > 0 && d.exp >= -1000 ==> r.mant > 0,
{
    limits();
    estimate_range(j);
    estimate_range(d);
    doubles_are_rounded(j);
    doubles_are_rounded(d);
    finely_and_ticks(j);
    finely_and_ticks(d);
    let a = ticks(j);
    let b = ticks(d);
    let t = TWO_53 as int;
    let most = if a > b {
        a
    } else {
        b
    };
    let gap = if b < a {
        a - b
    } else {
        b - a
    };
    let g = rounded(gap);
    rounding_facts(gap);
    rounding_is_close(gap);
    super::rounding::half_even_is_near(g, 16);
    half_even_at_most_doubles(g, 16);
    let q = half_even(g, 16);
    let z0 = if b < a {
        a - q
    } else {
        a + q
    };
    assert(0 <= z0 <= most);
    rounding_facts(z0);
    rounding_is_close(z0);
    settled(z0);
    let c = rounded(z0);
    assert(r == of_ticks(c));
    assert(ticks(r) == c);
    finely_and_ticks(r);
    assert(t * (16 * c - (15 * a + b)) <= 100 * most + 16 * t);
    assert(t * ((15 * a + b) - 16 * c) <= 100 * most + 16 * t);
    let w = TWO_52 as int;
    assert(t * (16 * (c * w) - (15 * (a * w) + b * w)) <= 100 * (most * w) + 16 * t * w)
        by (nonlinear_arith)
        requires
            t * (16 * c - (15 * a + b)) <= 100 * most + 16 * t,
            w > 0,
    ;
    assert(t * ((15 * (a * w) + b * w) - 16 * (c * w)) <= 100 * (most * w) + 16 * t * w)
        by (nonlinear_arith)
        requires
            t * ((15 * a + b) - 16 * c) <= 100 * most + 16 * t,
            w > 0,
    ;
    if j.mant == 0 && d.mant > 0 && d.exp >= -1000 {
        let p = pow2_pos(d.exp + 1074);
        pow2_pos_positive(d.exp + 1074);
        assert(b >= TWO_52) by (nonlinear_arith)
            requires
                b == d.mant * p,
                d.mant >= TWO_52,
                p >= 1,
        ;
        assert(a == 0);
        assert(c > 0);
    }
}

} // verus!
