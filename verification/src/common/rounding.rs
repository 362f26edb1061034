//! How far the doubles that come out of a computation can lie above what it
//! would give without rounding.

use vstd::prelude::*;
use vstd::arithmetic::power2::*;

use super::binary64::{fits, half_even, nearest, pow2_pos, pow2_pos_adds};
use super::binary64::{exponent_bounds, pow2_pos_positive, pow2_pos_step, scaled_den, scaled_num};
use super::binary64::{Double, TWO_52, TWO_53};

verus! {

/// `a` is at most `b`, but for `k` parts in 2^53.
pub open spec fn about_le(a: int, b: int, k: int) -> bool {
    TWO_53 * a <= (TWO_53 + k) * b
}

/// One step after the other.
pub proof fn about_le_trans(a: int, b: int, c: int, k: int, j: int)
    requires
        about_le(a, b, k),
        about_le(b, c, j),
        0 <= k <= 1_000,
        0 <= j <= 1_000,
        c >= 0,
    ensures
        about_le(a, c, k + j + 1),
{
    let t = TWO_53 as int;
    assert((t + k) * (t * b) <= (t + k) * ((t + j) * c)) by (nonlinear_arith)
        requires
            t * b <= (t + j) * c,
            t + k >= 0,
    ;
    assert((t + k) * ((t + j) * c) == (t * t + t * (k + j) + k * j) * c) by (nonlinear_arith);
    assert(k * j <= t) by (nonlinear_arith)
        requires
            0 <= k <= 1_000,
            0 <= j <= 1_000,
            t == 9_007_199_254_740_992,
    ;
    assert((t * t + t * (k + j) + k * j) * c <= (t * t + t * (k + j) + t) * c) by (nonlinear_arith)
        requires
            k * j <= t,
            c >= 0,
    ;
    assert((t * t + t * (k + j) + t) * c == t * ((t + (k + j + 1)) * c)) by (nonlinear_arith);
    assert(t * (t * a) <= t * ((t + k) * b)) by (nonlinear_arith)
        requires
            t * a <= (t + k) * b,
            t > 0,
    ;
    assert(t * ((t + k) * b) == (t + k) * (t * b)) by (nonlinear_arith);
    assert(t * a <= (t + (k + j + 1)) * c) by (nonlinear_arith)
        requires
            t * (t * a) <= t * ((t + (k + j + 1)) * c),
            t > 0,
    ;
}

/// Both sides times a number.
pub proof fn about_le_scale(a: int, b: int, k: int, f: int)
    requires
        about_le(a, b, k),
        f >= 0,
    ensures
        about_le(a * f, b * f, k),
{
    let t = TWO_53 as int;
    assert(t * (a * f) <= (t + k) * (b * f)) by (nonlinear_arith)
        requires
            t * a <= (t + k) * b,
            f >= 0,
    ;
}

/// Both sides divided by a number.
pub proof fn about_le_cancel(a: int, b: int, k: int, f: int)
    requires
        about_le(a * f, b * f, k),
        f > 0,
    ensures
        about_le(a, b, k),
{
    let t = TWO_53 as int;
    assert(t * a <= (t + k) * b) by (nonlinear_arith)
        requires
            t * (a * f) <= (t + k) * (b * f),
            f > 0,
    ;
}

/// More parts allow more.
pub proof fn about_le_weaken(a: int, b: int, k: int, j: int)
    requires
        about_le(a, b, k),
        k <= j,
        b >= 0,
    ensures
        about_le(a, b, j),
{
    let t = TWO_53 as int;
    assert((t + k) * b <= (t + j) * b) by (nonlinear_arith)
        requires
            k <= j,
            b >= 0,
    ;
}

/// Some exponent at or above `from` fits, where the number is not too small
/// for that one.
proof fn fit_above(num: int, den: int, from: int)
    requires
        num > 0,
        den > 0,
        from >= 0,
        TWO_52 * scaled_den(den, from) <= num,
    ensures
        exists|e: int| e >= from && fits(num, den, e),
    decreases num - scaled_den(den, from),
{
    let d = scaled_den(den, from);
    assert(pow2_pos(-from) == 1);
    assert(num * 1 == num);
    if num < TWO_53 * d {
        assert(fits(num, den, from));
    } else {
        pow2_pos_step(from);
        pow2_pos_positive(from);
        assert(scaled_den(den, from + 1) == 2 * d && d > 0) by (nonlinear_arith)
            requires
                d == den * pow2_pos(from),
                scaled_den(den, from + 1) == den * pow2_pos(from + 1),
                pow2_pos(from + 1) == 2 * pow2_pos(from),
                pow2_pos(from) >= 1,
                den > 0,
        ;
        fit_above(num, den, from + 1);
    }
}

/// Some exponent at or below `-down` fits, where the number is not too large
/// for that one.
proof fn fit_below(num: int, den: int, down: int)
    requires
        num > 0,
        den > 0,
        down >= 0,
        scaled_num(num, -down) < TWO_53 * den,
    ensures
        exists|e: int| e <= -down && fits(num, den, e),
    decreases TWO_53 * den - scaled_num(num, -down),
{
    let n = scaled_num(num, -down);
    assert(pow2_pos(-down) == 1);
    assert(den * 1 == den);
    if TWO_52 * den <= n {
        assert(fits(num, den, -down));
    } else {
        pow2_pos_step(down);
        pow2_pos_positive(down);
        assert(scaled_num(num, -(down + 1)) == 2 * n && n > 0) by (nonlinear_arith)
            requires
                n == num * pow2_pos(down),
                scaled_num(num, -(down + 1)) == num * pow2_pos(down + 1),
                pow2_pos(down + 1) == 2 * pow2_pos(down),
                pow2_pos(down) >= 1,
                num > 0,
        ;
        fit_below(num, den, down + 1);
    }
}

/// Some exponent fits.
pub proof fn fit_exists(num: int, den: int)
    requires
        num > 0,
        den > 0,
    ensures
        exists|e: int| fits(num, den, e),
{
    assert(pow2_pos(0) == 1);
    assert(den * 1 == den);
    assert(num * 1 == num);
    if TWO_52 * den <= num {
        fit_above(num, den, 0);
    } else {
        fit_below(num, den, 0);
    }
}

pub proof fn half_even_is_near(n: int, d: int)
    requires
        d > 0,
    ensures
        2 * (half_even(n, d) * d - n) <= d,
        2 * (n - half_even(n, d) * d) <= d,
{
    let q = n / d;
    let r = n % d;
    assert(n == q * d + r) by (nonlinear_arith)
        requires
            d > 0,
            q == n / d,
            r == n % d,
    ;
    assert((q + 1) * d == q * d + d) by (nonlinear_arith);
}

/// A number in units of 2 to the power `-k`.
pub open spec fn in_units(d: Double, k: int) -> int {
    d.units(-k)
}

/// The exponent of the double nearest to `num / den`, before rounding up can
/// raise it.
pub open spec fn fit(num: int, den: int) -> int {
    choose|e: int| fits(num, den, e)
}

/// The nearest double is off by at most one part in 2^53, either way.
pub proof fn nearest_is_near(num: int, den: int, k: int)
    requires
        num > 0,
        den > 0,
        k >= 0,
        fit(num, den) + k >= 0,
        -1_000_000 < fit(num, den) < 1_000_000,
    ensures
        about_le(in_units(nearest(num, den), k) * den, num * pow2_pos(k), 1),
        about_le(num * pow2_pos(k), in_units(nearest(num, den), k) * den, 2),
        in_units(nearest(num, den), k) > 0,
        TWO_52 <= nearest(num, den).mant < TWO_53,
        fit(num, den) <= nearest(num, den).exp <= fit(num, den) + 1,
{
    let t = TWO_53 as int;
    fit_exists(num, den);
    let e = fit(num, den);
    let a = pow2_pos(-e);
    let b = pow2_pos(e);
    let p = pow2_pos(k);
    let q = pow2_pos(e + k);
    let n = scaled_num(num, e);
    let d = scaled_den(den, e);
    let m = half_even(n, d);
    let v = in_units(nearest(num, den), k);
    pow2_pos_positive(e);
    pow2_pos_positive(-e);
    pow2_pos_positive(k);
    pow2_pos_positive(e + k);
    assert(d > 0) by (nonlinear_arith)
        requires
            d == den * b,
            den > 0,
            b >= 1,
    ;
    half_even_is_near(n, d);
    assert(TWO_52 <= m <= TWO_53) by (nonlinear_arith)
        requires
            TWO_52 * d <= n < TWO_53 * d,
            2 * (m * d - n) <= d,
            2 * (n - m * d) <= d,
            d > 0,
    ;
    assert(q * a == b * p) by {
        if e >= 0 {
            pow2_pos_adds(e, k);
            assert(q * 1 == b * p);
        } else {
            pow2_pos_adds(e + k, -e);
            assert(1 * p == p);
        }
    }
    assert(v == m * q) by {
        if m == TWO_53 {
            pow2_pos_step(e + k);
            assert(TWO_52 * (2 * q) == TWO_53 * q);
        }
    }
    assert(v > 0) by (nonlinear_arith)
        requires
            v == m * q,
            m >= TWO_52,
            q >= 1,
    ;
    // In terms of mantissas.
    assert(about_le(m * d, n, 1));
    assert((t - 1) * n <= t * (m * d));
    assert(about_le(n, m * d, 2)) by (nonlinear_arith)
        requires
            (t - 1) * n <= t * (m * d),
            n > 0,
            m * d >= 0,
            t == TWO_53,
    ;
    about_le_scale(m * d, n, 1, p);
    about_le_scale(n, m * d, 2, p);
    assert((v * den) * a == (m * d) * p) by (nonlinear_arith)
        requires
            v == m * q,
            d == den * b,
            q * a == b * p,
    ;
    assert((num * p) * a == n * p) by (nonlinear_arith)
        requires
            n == num * a,
    ;
    about_le_cancel(v * den, num * p, 1, a);
    about_le_cancel(num * p, v * den, 2, a);
}

/// The unit in which all numbers of a computation are whole.
pub open spec fn fine() -> int {
    200
}

/// A double that is not zero, with an exponent in the range that fine units
/// can take.
pub open spec fn is_moderate(d: Double) -> bool {
    TWO_52 <= d.mant < TWO_53 && -180 <= d.exp <= 300
}

/// A whole number below 2^100 is rounded to a moderate double.
pub proof fn whole_is_near(n: int, k: int)
    requires
        0 < n < pow2_pos(100),
        k >= 100,
    ensures
        about_le(in_units(nearest(n, 1), k), n * pow2_pos(k), 1),
        about_le(n * pow2_pos(k), in_units(nearest(n, 1), k), 2),
        in_units(nearest(n, 1), k) > 0,
        is_moderate(nearest(n, 1)),
        -52 <= nearest(n, 1).exp <= 48,
{
    fit_exists(n, 1);
    let e = fit(n, 1);
    assert(pow2_pos(0) == 1);
    exponent_bounds(n, 1, e, 0);
    exponent_bounds(n, 1, e, 100);
    nearest_is_near(n, 1, k);
    let v = in_units(nearest(n, 1), k);
    assert(v * 1 == v);
}

/// Fine units of a double, taken apart.
pub proof fn fine_units(d: Double, k: int)
    requires
        is_moderate(d),
        k >= 180,
    ensures
        in_units(d, k) == d.mant * pow2_pos(d.exp + k),
        in_units(d, k) > 0,
{
    pow2_pos_positive(d.exp + k);
    assert(d.mant * pow2_pos(d.exp + k) > 0) by (nonlinear_arith)
        requires
            d.mant >= TWO_52,
            pow2_pos(d.exp + k) >= 1,
    ;
}

/// A quotient is off by at most one part.
pub proof fn quotient_is_near(a: Double, b: Double)
    requires
        is_moderate(a),
        is_moderate(b),
        -100 <= a.exp - b.exp <= 100,
    ensures
        about_le(
            in_units(a.quotient(b), fine()) * in_units(b, fine()),
            in_units(a, fine()) * pow2_pos(fine()),
            1,
        ),
        is_moderate(a.quotient(b)),
        -153 <= a.quotient(b).exp <= 49,
{
    let num = a.mant as int;
    let den = b.mant as int;
    let k = fine() + a.exp - b.exp;
    let q = a.quotient(b);
    fit_exists(num, den);
    let e = fit(num, den);
    lemma2_to64();
    exponent_bounds(num, den, e, 1);
    assert(den * pow2_pos(1) == den * 2);
    nearest_is_near(num, den, k);
    assert(q.exp == nearest(num, den).exp + a.exp - b.exp);
    let v = in_units(q, fine());
    assert(v == in_units(nearest(num, den), k));
    let f = pow2_pos(b.exp + fine());
    pow2_pos_positive(b.exp + fine());
    about_le_scale(v * den, num * pow2_pos(k), 1, f);
    fine_units(a, fine());
    fine_units(b, fine());
    pow2_pos_adds(k, b.exp + fine());
    pow2_pos_adds(a.exp + fine(), fine());
    let x = pow2_pos(k);
    let y = pow2_pos(a.exp + fine());
    let p = pow2_pos(fine());
    assert((v * den) * f == v * (den * f)) by (nonlinear_arith);
    assert((num * x) * f == (num * y) * p) by (nonlinear_arith)
        requires
            x * f == y * p,
    ;
}

/// A product is off by at most one part.
pub proof fn product_is_near(a: Double, b: Double)
    requires
        is_moderate(a),
        is_moderate(b),
    ensures
        about_le(
            in_units(a.product(b), 2 * fine()),
            in_units(a, fine()) * in_units(b, fine()),
            1,
        ),
        TWO_52 <= a.product(b).mant < TWO_53,
        -400 <= a.product(b).exp <= 700,
{
    let num = a.mant * b.mant;
    let k = 2 * fine() + a.exp + b.exp;
    assert(TWO_52 * TWO_52 <= num < TWO_53 * TWO_53) by (nonlinear_arith)
        requires
            num == a.mant * b.mant,
            TWO_52 <= a.mant < TWO_53,
            TWO_52 <= b.mant < TWO_53,
    ;
    lemma2_to64_rest();
    lemma2_to64();
    pow2_pos_adds(53, 53);
    pow2_pos_adds(52, 52);
    assert(pow2_pos(53) == TWO_53 && pow2_pos(52) == TWO_52);
    fit_exists(num, 1);
    let e = fit(num, 1);
    exponent_bounds(num, 1, e, 104);
    exponent_bounds(num, 1, e, 106);
    nearest_is_near(num, 1, k);
    let v = in_units(a.product(b), 2 * fine());
    assert(a.product(b).exp == nearest(num, 1).exp + a.exp + b.exp);
    assert(v == in_units(nearest(num, 1), k));
    assert(v * 1 == v);
    fine_units(a, fine());
    fine_units(b, fine());
    pow2_pos_adds(a.exp + fine(), b.exp + fine());
    let x = pow2_pos(a.exp + fine());
    let y = pow2_pos(b.exp + fine());
    assert((a.mant * b.mant) * (x * y) == (a.mant * x) * (b.mant * y)) by (nonlinear_arith);
}

/// In a finer unit a number is a multiple.
pub proof fn finer_units(d: Double, e: int, k: int)
    requires
        d.mant > 0 ==> e <= d.exp,
        e + k >= 0,
    ensures
        in_units(d, k) == d.units(e) * pow2_pos(e + k),
{
    if d.mant > 0 {
        let x = pow2_pos(d.exp - e);
        let y = pow2_pos(e + k);
        pow2_pos_adds(d.exp - e, e + k);
        assert(d.mant * (x * y) == (d.mant * x) * y) by (nonlinear_arith);
    } else {
        assert(0 * pow2_pos(e + k) == 0);
    }
}

/// Bounds on a number in a unit that is not much smaller than its own.
proof fn units_bounded(d: Double, e: int)
    requires
        d.mant < TWO_53,
        d.mant > 0 ==> e <= d.exp <= e + 220,
    ensures
        0 <= d.units(e) < pow2_pos(273),
        d.mant >= TWO_52 ==> d.units(e) >= TWO_52,
{
    lemma2_to64_rest();
    assert(pow2_pos(53) == TWO_53);
    pow2_pos_positive(273);
    if d.mant > 0 {
        let x = pow2_pos(d.exp - e);
        pow2_pos_positive(d.exp - e);
        super::binary64::pow2_pos_grows(d.exp - e, 220);
        pow2_pos_adds(53, 220);
        let y = pow2_pos(220);
        assert(d.mant <= d.mant * x && d.mant * x < TWO_53 * y) by (nonlinear_arith)
            requires
                0 < d.mant < TWO_53,
                1 <= x <= y,
        ;
    }
}

/// A sum is off by at most one part.
pub proof fn sum_is_near(a: Double, b: Double)
    requires
        is_moderate(a) || a == (Double { mant: 0, exp: 0 }),
        is_moderate(b) || b == (Double { mant: 0, exp: 0 }),
        a.mant > 0 || b.mant > 0,
        a.mant > 0 ==> -160 <= a.exp <= 60,
        b.mant > 0 ==> -160 <= b.exp <= 60,
    ensures
        about_le(in_units(a.sum(b), fine()), in_units(a, fine()) + in_units(b, fine()), 1),
        is_moderate(a.sum(b)),
{
    let e = a.common_exp(b);
    let num = a.units(e) + b.units(e);
    let k = fine() + e;
    units_bounded(a, e);
    units_bounded(b, e);
    pow2_pos_step(273);
    lemma2_to64_rest();
    assert(pow2_pos(52) == TWO_52);
    fit_exists(num, 1);
    let f = fit(num, 1);
    exponent_bounds(num, 1, f, 52);
    exponent_bounds(num, 1, f, 274);
    nearest_is_near(num, 1, k);
    let v = in_units(a.sum(b), fine());
    assert(a.sum(b).exp == nearest(num, 1).exp + e);
    assert(v == in_units(nearest(num, 1), k));
    assert(v * 1 == v);
    finer_units(a, e, fine());
    finer_units(b, e, fine());
    let y = pow2_pos(e + fine());
    assert((a.units(e) + b.units(e)) * y == a.units(e) * y + b.units(e) * y) by (nonlinear_arith);
}

} // verus!
