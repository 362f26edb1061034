//! What the arithmetic in double precision comes to.

use vstd::prelude::*;
use vstd::arithmetic::power2::*;

use crate::common::binary64::{at_least_a_millionth, exponent_bounds, half_even, nearest};
use crate::common::binary64::{pow2_pos, pow2_pos_adds, pow2_pos_grows, pow2_pos_positive};
use crate::common::binary64::{pow2_pos_step, scaled_den, scaled_num, to_units, Double};
use crate::common::binary64::{power_of_two, TWO_52, TWO_53};
use crate::common::rounding::{fit, fit_exists, half_even_is_near};

verus! {

/// Two to the power `e`, where that is not negative.
pub open spec fn two_to(e: int) -> int {
    if e > 0 {
        pow2(e as nat) as int
    } else {
        1
    }
}

/// `n` is the whole number nearest to `num / den`, the even one of two that
/// are as near.
pub open spec fn is_nearest_whole(num: int, den: int, n: int) -> bool {
    &&& 2 * (n * den - num) <= den
    &&& 2 * (num - n * den) <= den
    &&& 2 * (n * den - num) == den ==> n % 2 == 0
    &&& 2 * (num - n * den) == den ==> n % 2 == 0
}

/// `d` is `num / den` times 2 to the power `k`, rounded to 53 bits, to the even
/// neighbour where two are as near.
pub open spec fn is_rounded(num: int, den: int, k: int, d: Double) -> bool {
    if num == 0 {
        d == (Double { mant: 0, exp: 0 })
    } else {
        let e = d.exp - k;
        &&& 4_503_599_627_370_496 <= d.mant < 9_007_199_254_740_992
        &&& is_nearest_whole(num * two_to(-e), den * two_to(e), d.mant as int)
    }
}

/// Rounding to a whole number gives the nearest.
pub proof fn half_even_is_nearest(n: int, d: int)
    requires
        d > 0,
    ensures
        is_nearest_whole(n, d, half_even(n, d)),
{
    half_even_is_near(n, d);
    let q = n / d;
    let r = n % d;
    vstd::arithmetic::div_mod::lemma_fundamental_div_mod(n, d);
    vstd::arithmetic::div_mod::lemma_mod_bound(n, d);
    assert(q * d == d * q) by (nonlinear_arith);
    assert((q + 1) * d == q * d + d) by (nonlinear_arith);
}

/// Rounding a ratio whose exponent is not extreme.
proof fn nearest_is_rounded(num: int, den: int, k: int)
    requires
        num > 0,
        den > 0,
        -100_000 < fit(num, den) < 100_000,
        -1_000_000 < k < 1_000_000,
    ensures
        is_rounded(num, den, k, nearest(num, den).shifted(k)),
        fit(num, den) <= nearest(num, den).exp <= fit(num, den) + 1,
{
    fit_exists(num, den);
    let e = fit(num, den);
    let n = scaled_num(num, e);
    let d = scaled_den(den, e);
    let m = half_even(n, d);
    pow2_pos_positive(e);
    pow2_pos_positive(-e);
    assert(d > 0) by (nonlinear_arith)
        requires
            d == den * pow2_pos(e),
            den > 0,
            pow2_pos(e) >= 1,
    ;
    half_even_is_nearest(n, d);
    assert(TWO_52 <= m <= TWO_53) by (nonlinear_arith)
        requires
            TWO_52 * d <= n < TWO_53 * d,
            2 * (m * d - n) <= d,
            2 * (n - m * d) <= d,
            d > 0,
    ;
    let x = nearest(num, den);
    if m == TWO_53 {
        // The mantissa came up to the next power of two.
        assert(x.mant == TWO_52 && x.exp == e + 1);
        if e >= 0 {
            pow2_pos_step(e);
            let d2 = den * two_to(e + 1);
            assert(d2 == 2 * d) by (nonlinear_arith)
                requires
                    d2 == den * two_to(e + 1),
                    d == den * pow2_pos(e),
                    two_to(e + 1) == 2 * pow2_pos(e),
            ;
            assert(two_to(-(e + 1)) == 1 && pow2_pos(-e) == 1);
            assert(TWO_52 * d2 == TWO_53 * d);
            assert(num * 1 == num);
        } else {
            pow2_pos_step(-e - 1);
            let n2 = num * two_to(-(e + 1));
            assert(n == 2 * n2) by (nonlinear_arith)
                requires
                    n2 == num * two_to(-(e + 1)),
                    n == num * pow2_pos(-e),
                    pow2_pos(-e) == 2 * two_to(-(e + 1)),
            ;
            assert(two_to(e + 1) == 1 && pow2_pos(e) == 1);
            assert(den * 1 == den);
            assert(TWO_53 * d == 2 * (TWO_52 * d));
        }
    }
}

/// A whole number becomes the nearest double.
pub proof fn whole_numbers_are_rounded(n: u64, d: Double)
    requires
        call_ensures(Double::from_u64, (n,), d),
    ensures
        is_rounded(n as int, 1, 0, d),
{
    if n > 0 {
        fit_exists(n as int, 1);
        lemma2_to64();
        exponent_bounds(n as int, 1, fit(n as int, 1), 64);
        exponent_bounds(n as int, 1, fit(n as int, 1), 0);
        nearest_is_rounded(n as int, 1, 0);
    }
}

/// A quotient is the nearest double to the exact one.
pub proof fn quotients_are_rounded(a: Double, b: Double, d: Double)
    requires
        a.within(-10_000, 10_000),
        b.within(-10_000, 10_000),
        b.mant > 0,
        call_ensures(Double::div, (a, b), d),
    ensures
        is_rounded(a.mant as int, b.mant as int, a.exp - b.exp, d),
{
    if a.mant > 0 {
        let num = a.mant as int;
        let den = b.mant as int;
        fit_exists(num, den);
        lemma2_to64();
        assert(den * pow2_pos(1) == den * 2);
        exponent_bounds(num, den, fit(num, den), 1);
        nearest_is_rounded(num, den, a.exp - b.exp);
    }
}

/// A product is the nearest double to the exact one.
pub proof fn products_are_rounded(a: Double, b: Double, d: Double)
    requires
        a.within(-10_000, 10_000),
        b.within(-10_000, 10_000),
        call_ensures(Double::times, (a, b), d),
    ensures
        is_rounded(a.mant * b.mant, 1, a.exp + b.exp, d),
{
    let num = a.mant * b.mant;
    assert(num == 0 <==> a.mant == 0 || b.mant == 0) by (nonlinear_arith)
        requires
            num == a.mant * b.mant,
            a.mant >= 0,
            b.mant >= 0,
    ;
    if num != 0 {
        assert(0 < num < TWO_53 * TWO_53) by (nonlinear_arith)
            requires
                num == a.mant * b.mant,
                0 < a.mant < TWO_53,
                0 < b.mant < TWO_53,
        ;
        lemma2_to64_rest();
        lemma2_to64();
        pow2_pos_adds(53, 53);
        assert(pow2_pos(53) == TWO_53);
        fit_exists(num, 1);
        exponent_bounds(num, 1, fit(num, 1), 0);
        exponent_bounds(num, 1, fit(num, 1), 106);
        nearest_is_rounded(num, 1, a.exp + b.exp);
    }
}

/// The smaller exponent of two numbers that are not zero.
pub open spec fn lower_exp(a: Double, b: Double) -> int {
    if a.mant == 0 || b.mant > 0 && b.exp < a.exp {
        b.exp as int
    } else {
        a.exp as int
    }
}

/// A number in units of 2 to the power `e`.
pub open spec fn in_units_of(d: Double, e: int) -> int {
    if d.mant == 0 {
        0
    } else {
        d.mant * two_to(d.exp - e)
    }
}

proof fn units_agree(a: Double, b: Double)
    requires
        a.wf(),
        b.wf(),
    ensures
        a.common_exp(b) == lower_exp(a, b),
        a.units(lower_exp(a, b)) == in_units_of(a, lower_exp(a, b)),
        b.units(lower_exp(a, b)) == in_units_of(b, lower_exp(a, b)),
{
}

proof fn units_in_range(d: Double, e: int)
    requires
        d.wf(),
        d.mant > 0 ==> e <= d.exp <= e + 20_000,
    ensures
        0 <= in_units_of(d, e) < pow2_pos(20_053),
        d.mant > 0 ==> in_units_of(d, e) > 0,
{
    lemma2_to64_rest();
    assert(pow2_pos(53) == TWO_53);
    pow2_pos_positive(20_053);
    if d.mant > 0 {
        let x = pow2_pos(d.exp - e);
        let y = pow2_pos(20_000);
        pow2_pos_positive(d.exp - e);
        pow2_pos_grows(d.exp - e, 20_000);
        pow2_pos_adds(53, 20_000);
        assert(0 < d.mant * x && d.mant * x < TWO_53 * y) by (nonlinear_arith)
            requires
                0 < d.mant < TWO_53,
                1 <= x <= y,
        ;
    }
}

proof fn round_units(num: int, e: int)
    requires
        0 < num < 2 * pow2_pos(20_053),
        -10_000 <= e <= 10_000,
    ensures
        is_rounded(num, 1, e, nearest(num, 1).shifted(e)),
{
    pow2_pos_step(20_053);
    assert(pow2_pos(0) == 1);
    fit_exists(num, 1);
    exponent_bounds(num, 1, fit(num, 1), 0);
    exponent_bounds(num, 1, fit(num, 1), 20_054);
    nearest_is_rounded(num, 1, e);
}

/// A sum is the nearest double to the exact one.
pub proof fn sums_are_rounded(a: Double, b: Double, d: Double)
    requires
        a.within(-10_000, 10_000),
        b.within(-10_000, 10_000),
        call_ensures(Double::plus, (a, b), d),
    ensures
        ({
            let e = lower_exp(a, b);
            is_rounded(in_units_of(a, e) + in_units_of(b, e), 1, e, d)
        }),
{
    let e = lower_exp(a, b);
    units_agree(a, b);
    units_in_range(a, e);
    units_in_range(b, e);
    if a.mant > 0 || b.mant > 0 {
        round_units(in_units_of(a, e) + in_units_of(b, e), e);
    }
}

/// A difference is the nearest double to the exact one.
pub proof fn differences_are_rounded(a: Double, b: Double, d: Double)
    requires
        a.within(-10_000, 10_000),
        b.within(-10_000, 10_000),
        !a.below(b),
        call_ensures(Double::minus, (a, b), d),
    ensures
        ({
            let e = lower_exp(a, b);
            is_rounded(in_units_of(a, e) - in_units_of(b, e), 1, e, d)
        }),
{
    let e = lower_exp(a, b);
    units_agree(a, b);
    units_in_range(a, e);
    units_in_range(b, e);
    let num = in_units_of(a, e) - in_units_of(b, e);
    if num > 0 {
        round_units(num, e);
    }
}

/// Numbers compare by what they stand for.
pub proof fn numbers_compare_by_value(a: Double, b: Double, r: bool, m: Double)
    requires
        a.wf(),
        b.wf(),
        call_ensures(Double::is_below, (a, b), r),
        call_ensures(Double::max, (a, b), m),
    ensures
        ({
            let e = lower_exp(a, b);
            let less = in_units_of(a, e) < in_units_of(b, e);
            &&& r == less
            &&& less ==> m == b
            &&& !less ==> m == a
        }),
{
    units_agree(a, b);
}

/// The whole units in a number: exactly where it has no fraction, and the
/// nearest number of them elsewhere.
pub proof fn units_are_the_nearest_whole_number(d: Double, scale: u64, n: u128)
    requires
        d.within(-10_000, 60),
        scale > 0,
        call_ensures(to_units, (d, scale), n),
    ensures
        d.exp >= 0 ==> n == d.mant * scale * two_to(d.exp as int),
        d.exp < 0 ==> is_nearest_whole(d.mant * scale, two_to(-d.exp), n as int),
{
    if d.exp < 0 {
        pow2_pos_positive(-d.exp);
        half_even_is_nearest(d.mant * scale, pow2_pos(-d.exp));
    }
}

/// Spans count for at least a millionth of a second.
pub proof fn spans_count_for_a_microsecond(s: Double, r: Double)
    requires
        s.within(-5_000, 60),
        call_ensures(at_least_a_millionth, (s,), r),
    ensures
        ({
            let least = nearest(1, 1).quotient(nearest(1_000_000, 1));
            &&& s.below(least) ==> r == least
            &&& !s.below(least) ==> r == s
        }),
{
}

/// Zero is zero, and powers of two are what they are called.
pub proof fn zero_and_powers(z: Double, k: u32, p: u128)
    requires
        call_ensures(Double::zero, (), z),
        call_ensures(power_of_two, (k,), p),
    ensures
        z.mant == 0,
        p == two_to(k as int),
{
}

} // verus!
