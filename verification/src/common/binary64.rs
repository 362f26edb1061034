//! Double-precision numbers, not negative and without a smallest or largest
//! one, computed in integers: every operation gives the exact result rounded
//! to 53 significant bits, to the even neighbour where two are as near.

use vstd::prelude::*;
use vstd::arithmetic::power2::*;

use super::float_bits::FloatBits;
use super::time::{Duration, MAX_NANOS};

verus! {

/// 2^52: the smallest mantissa.
pub const TWO_52: u64 = 4_503_599_627_370_496;

/// 2^53: one more than the largest mantissa.
pub const TWO_53: u64 = 9_007_199_254_740_992;

/// The number `mant` times 2 to the power `exp`.
#[derive(Debug, Clone, Copy, PartialEq, Eq, Structural)]
pub struct Double {
    pub mant: u64,
    pub exp: i32,
}

/// The integer nearest to `n / d`, the even one where two are as near.
pub open spec fn half_even(n: int, d: int) -> int {
    let q = n / d;
    let r = n % d;
    if 2 * r < d || (2 * r == d && q % 2 == 0) {
        q
    } else {
        q + 1
    }
}

/// 2 to the power `e`, or one where `e` is negative.
pub open spec fn pow2_pos(e: int) -> int {
    if e > 0 {
        pow2(e as nat) as int
    } else {
        1
    }
}

/// The numerator of `num / den / 2^e`.
pub open spec fn scaled_num(num: int, e: int) -> int {
    num * pow2_pos(-e)
}

/// The denominator of `num / den / 2^e`.
pub open spec fn scaled_den(den: int, e: int) -> int {
    den * pow2_pos(e)
}

/// With exponent `e`, the whole part of the mantissa of `num / den` has 53
/// bits.
pub open spec fn fits(num: int, den: int, e: int) -> bool {
    TWO_52 * scaled_den(den, e) <= scaled_num(num, e) < TWO_53 * scaled_den(den, e)
}

/// The double with the given mantissa, which may have come up to 2^53 by
/// rounding, and exponent.
pub open spec fn normalized(m: int, e: int) -> Double {
    if m == TWO_53 {
        Double { mant: TWO_52, exp: (e + 1) as i32 }
    } else {
        Double { mant: m as u64, exp: e as i32 }
    }
}

/// The double nearest to `num / den`.
pub open spec fn nearest(num: int, den: int) -> Double {
    if num == 0 {
        Double { mant: 0, exp: 0 }
    } else {
        let e = choose|e: int| fits(num, den, e);
        normalized(half_even(scaled_num(num, e), scaled_den(den, e)), e)
    }
}

impl Double {
    /// Zero, or a mantissa of 53 bits with an exponent far from the limits of
    /// its type.
    pub open spec fn wf(self) -> bool {
        ||| self.mant == 0 && self.exp == 0
        ||| TWO_52 <= self.mant < TWO_53 && -1_000_000 < self.exp < 1_000_000
    }

    /// The number times 2 to the power `k`.
    pub open spec fn shifted(self, k: int) -> Double {
        if self.mant == 0 {
            self
        } else {
            Double { mant: self.mant, exp: (self.exp + k) as i32 }
        }
    }

    /// The number nearest to the quotient.
    pub open spec fn quotient(self, other: Double) -> Double {
        nearest(self.mant as int, other.mant as int).shifted(self.exp - other.exp)
    }

    /// The number nearest to the product.
    pub open spec fn product(self, other: Double) -> Double {
        nearest(self.mant * other.mant, 1).shifted(self.exp + other.exp)
    }

    /// The smaller of two exponents.
    pub open spec fn common_exp(self, other: Double) -> int {
        if self.mant == 0 {
            other.exp as int
        } else if other.mant == 0 || self.exp <= other.exp {
            self.exp as int
        } else {
            other.exp as int
        }
    }

    /// The number in units of 2 to the power `e`, where that is no larger
    /// than its own exponent.
    pub open spec fn units(self, e: int) -> int {
        if self.mant == 0 {
            0
        } else {
            self.mant * pow2_pos(self.exp - e)
        }
    }

    /// The number nearest to the sum.
    pub open spec fn sum(self, other: Double) -> Double {
        let e = self.common_exp(other);
        nearest(self.units(e) + other.units(e), 1).shifted(e)
    }

    /// The number nearest to the difference, where that is not negative.
    pub open spec fn difference(self, other: Double) -> Double {
        let e = self.common_exp(other);
        nearest(self.units(e) - other.units(e), 1).shifted(e)
    }

    /// Whether the number is smaller than the other.
    pub open spec fn below(self, other: Double) -> bool {
        let e = self.common_exp(other);
        self.units(e) < other.units(e)
    }
}

// ---------------------------------------------------------------------
// Rounding.

pub proof fn pow2_pos_positive(e: int)
    ensures
        pow2_pos(e) >= 1,
{
    if e > 0 {
        lemma_pow2_pos(e as nat);
    }
}

pub proof fn pow2_pos_step(e: int)
    requires
        e >= 0,
    ensures
        pow2_pos(e + 1) == 2 * pow2_pos(e),
{
    if e == 0 {
        lemma2_to64();
    } else {
        lemma_pow2_unfold((e + 1) as nat);
    }
}

pub proof fn pow2_pos_adds(a: int, b: int)
    requires
        a >= 0,
        b >= 0,
    ensures
        pow2_pos(a + b) == pow2_pos(a) * pow2_pos(b),
    decreases b,
{
    if b > 0 {
        pow2_pos_adds(a, b - 1);
        pow2_pos_step(b - 1);
        pow2_pos_step(a + b - 1);
        assert(pow2_pos(a) * (2 * pow2_pos(b - 1)) == 2 * (pow2_pos(a) * pow2_pos(b - 1)))
            by (nonlinear_arith);
    }
}

pub proof fn pow2_pos_grows(a: int, b: int)
    requires
        0 <= a <= b,
    ensures
        pow2_pos(a) <= pow2_pos(b),
    decreases b - a,
{
    if a < b {
        pow2_pos_grows(a, b - 1);
        pow2_pos_step(b - 1);
        pow2_pos_positive(b - 1);
    }
}

/// At most one exponent fits.
pub proof fn fitting_exponent_is_unique(num: int, den: int, e1: int, e2: int)
    requires
        num > 0,
        den > 0,
        fits(num, den, e1),
        fits(num, den, e2),
    ensures
        e1 == e2,
    decreases (if e1 > e2 { 1int } else { 0int }),
{
    if e1 > e2 {
        fitting_exponent_is_unique(num, den, e2, e1);
    } else if e1 < e2 {
        let a1 = pow2_pos(-e1);
        let b1 = pow2_pos(e1);
        let a2 = pow2_pos(-e2);
        let b2 = pow2_pos(e2);
        let d = e2 - e1;
        let p = pow2_pos(d);
        // a1 * b2 == a2 * b1 * p
        assert(a1 * b2 == a2 * b1 * p) by {
            if e1 >= 0 {
                pow2_pos_adds(e1, d);
                assert(b2 == b1 * p);
                assert(1 * b2 == 1 * b1 * p) by (nonlinear_arith)
                    requires
                        b2 == b1 * p,
                ;
            } else if e2 <= 0 {
                pow2_pos_adds(-e2, d);
                assert(a1 == a2 * p);
                assert(a1 * 1 == a2 * 1 * p) by (nonlinear_arith)
                    requires
                        a1 == a2 * p,
                ;
            } else {
                pow2_pos_adds(-e1, e2);
                assert(p == a1 * b2);
                assert(1 * 1 * p == p);
            }
        }
        pow2_pos_step(d - 1);
        pow2_pos_positive(d - 1);
        pow2_pos_positive(e1);
        pow2_pos_positive(-e1);
        pow2_pos_positive(e2);
        pow2_pos_positive(-e2);
        smaller_exponent_overflows(num, den, a1, b1, a2, b2, p);
    }
}

/// What the larger exponent fits is too much for the smaller one.
proof fn smaller_exponent_overflows(
    num: int,
    den: int,
    a1: int,
    b1: int,
    a2: int,
    b2: int,
    p: int,
)
    requires
        num > 0,
        den > 0,
        b1 >= 1,
        b2 >= 1,
        p >= 2,
        a1 * b2 == a2 * b1 * p,
        TWO_52 * (den * b2) <= num * a2,
    ensures
        num * a1 >= TWO_53 * (den * b1),
{
    let t = den * b1;
    let u = den * b2;
    let w = num * a2;
    assert(t > 0 && u > 0) by (nonlinear_arith)
        requires
            t == den * b1,
            u == den * b2,
            den > 0,
            b1 >= 1,
            b2 >= 1,
    ;
    assert(t * p > 0) by (nonlinear_arith)
        requires
            t > 0,
            p >= 2,
    ;
    assert(w * (t * p) >= (TWO_52 * u) * (t * p)) by (nonlinear_arith)
        requires
            w >= TWO_52 * u,
            t * p > 0,
    ;
    assert((TWO_52 * u) * (t * p) >= (TWO_53 * t) * u) by (nonlinear_arith)
        requires
            t > 0,
            u > 0,
            p >= 2,
            TWO_53 == 2 * TWO_52,
    ;
    assert((num * a1) * u == w * (t * p)) by (nonlinear_arith)
        requires
            w == num * a2,
            t == den * b1,
            u == den * b2,
            a1 * b2 == a2 * b1 * p,
    ;
    assert(num * a1 >= TWO_53 * t) by (nonlinear_arith)
        requires
            (num * a1) * u >= (TWO_53 * t) * u,
            u > 0,
    ;
}

/// The one exponent that fits gives the nearest double.
pub proof fn nearest_by_exponent(num: int, den: int, e: int)
    requires
        num > 0,
        den > 0,
        fits(num, den, e),
    ensures
        nearest(num, den) == normalized(half_even(scaled_num(num, e), scaled_den(den, e)), e),
{
    let c = choose|c: int| fits(num, den, c);
    fitting_exponent_is_unique(num, den, c, e);
}

/// What `num / den` is below or above bounds the exponent of the double
/// nearest to it.
pub proof fn exponent_bounds(num: int, den: int, e: int, j: int)
    requires
        num > 0,
        den > 0,
        j >= 0,
        fits(num, den, e),
    ensures
        num < den * pow2_pos(j) ==> e <= j - 53,
        num >= den * pow2_pos(j) ==> e >= j - 52,
        2 * num >= den ==> e >= -53,
{
    let a = pow2_pos(-e);
    let b = pow2_pos(e);
    let p = pow2_pos(j);
    pow2_pos_positive(e);
    pow2_pos_positive(-e);
    pow2_pos_positive(j);
    lemma2_to64_rest();
    lemma2_to64();
    assert(pow2_pos(52) == TWO_52 && pow2_pos(53) == TWO_53);
    if num < den * p && e >= j - 52 {
        if e >= 0 {
            pow2_pos_adds(52, e);
            pow2_pos_grows(j, e + 52);
            assert(TWO_52 * (den * b) >= den * p) by (nonlinear_arith)
                requires
                    TWO_52 * b >= p,
                    den > 0,
            ;
            assert(num * a == num);
        } else {
            pow2_pos_adds(j, -e);
            pow2_pos_grows(j - e, 52);
            assert(num * a < den * (p * a)) by (nonlinear_arith)
                requires
                    num < den * p,
                    a >= 1,
            ;
            assert(den * (p * a) <= TWO_52 * den) by (nonlinear_arith)
                requires
                    p * a <= TWO_52,
                    den > 0,
            ;
            assert(den * b == den);
        }
    }
    if 2 * num >= den && e < -53 {
        pow2_pos_grows(54, -e);
        assert(pow2_pos(54) == 2 * TWO_53);
        assert(num * a >= TWO_53 * den) by (nonlinear_arith)
            requires
                a >= 2 * TWO_53,
                2 * num >= den,
                num > 0,
        ;
        assert(den * b == den);
    }
    if num >= den * p && e < j - 52 {
        if e >= 0 {
            pow2_pos_adds(53, e);
            pow2_pos_grows(e + 53, j);
            assert(TWO_53 * (den * b) <= den * p) by (nonlinear_arith)
                requires
                    TWO_53 * b <= p,
                    den > 0,
            ;
            assert(num * a == num);
        } else {
            pow2_pos_adds(j, -e);
            pow2_pos_grows(53, j - e);
            assert(num * a >= den * (p * a)) by (nonlinear_arith)
                requires
                    num >= den * p,
                    a >= 1,
            ;
            assert(den * (p * a) >= TWO_53 * den) by (nonlinear_arith)
                requires
                    p * a >= TWO_53,
                    den > 0,
            ;
            assert(den * b == den);
        }
    }
}

/// Doubles `q` until `num / q` has at most 53 bits, and counts how often.
fn shrink(num: u128, den: u128) -> (r: (u128, i32))
    requires
        0 < den <= 0x1_0000_0000_0000_0000,
        0 < num <= 0x0100_0000_0000_0000_0000_0000_0000_0000,
    ensures
        0 <= r.1 <= 128,
        r.0 == den * pow2_pos(r.1 as int),
        r.0 > 0,
        r.0 <= 0x1_0000_0000_0000_0000_0000,
        num < TWO_53 * r.0,
        r.1 > 0 ==> num >= TWO_52 * r.0,
{
    let mut q: u128 = den;
    let mut e: i32 = 0;
    proof {
        assert(den * pow2_pos(0) == den);
    }
    while num / q >= TWO_53 as u128
        invariant
            0 < den <= 0x1_0000_0000_0000_0000,
            0 < num <= 0x0100_0000_0000_0000_0000_0000_0000_0000,
            0 <= e <= 128,
            0 < q <= 0x1_0000_0000_0000_0000_0000,
            q == den * pow2_pos(e as int),
            e > 0 ==> num >= TWO_52 * q,
        decreases num - q,
    {
        proof {
            assert(num >= TWO_53 * q) by (nonlinear_arith)
                requires
                    num / q >= TWO_53,
                    q > 0,
            ;
            pow2_pos_step(e as int);
            assert(den * (2 * pow2_pos(e as int)) == 2 * (den * pow2_pos(e as int)))
                by (nonlinear_arith);
            assert(q >= pow2_pos(e as int)) by (nonlinear_arith)
                requires
                    q == den * pow2_pos(e as int),
                    den >= 1,
                    pow2_pos(e as int) >= 0,
            ;
            pow2_pos_positive(e as int);
            if e >= 128 {
                pow2_pos_grows(64, e as int);
                pow2_pos_adds(64, 64);
                lemma2_to64();
                pow2_pos_grows(128, e as int);
                assert(pow2_pos(128) == 0x1_0000_0000_0000_0000 * 0x1_0000_0000_0000_0000);
            }
        }
        q = q * 2;
        e = e + 1;
    }
    proof {
        assert(num < TWO_53 * q) by (nonlinear_arith)
            requires
                num / q < TWO_53,
                q > 0,
        ;
    }
    (q, e)
}

/// The whole part and remainder of `num * 2^s / den`, where `s` is the
/// smallest number that gives the whole part 53 bits.
fn stretch(num: u128, den: u128) -> (r: (u64, u128, i32))
    requires
        0 < den <= 0x1_0000_0000_0000_0000_0000,
        0 < num < TWO_53 * den,
    ensures
        0 <= r.2 <= 200,
        TWO_52 <= r.0 < TWO_53,
        r.1 < den,
        num * pow2_pos(r.2 as int) == r.0 * den + r.1,
        num >= TWO_52 * den ==> r.2 == 0,
{
    let mut quot: u128 = num / den;
    let mut rem: u128 = num % den;
    let mut s: i32 = 0;
    proof {
        assert(num == quot * den + rem && rem < den) by (nonlinear_arith)
            requires
                quot == num / den,
                rem == num % den,
                den > 0,
        ;
        assert(quot < TWO_53) by (nonlinear_arith)
            requires
                num == quot * den + rem,
                num < TWO_53 * den,
                rem >= 0,
                den > 0,
        ;
        if num >= TWO_52 * den {
            assert(quot >= TWO_52) by (nonlinear_arith)
                requires
                    num == quot * den + rem,
                    rem < den,
                    num >= TWO_52 * den,
                    den > 0,
            ;
        }
        assert(num * pow2_pos(0) == num);
        if quot == 0 {
            assert(quot * den == 0) by (nonlinear_arith)
                requires
                    quot == 0,
            ;
        }
    }
    while quot < TWO_52 as u128
        invariant
            0 < den <= 0x1_0000_0000_0000_0000_0000,
            0 < num,
            0 <= s <= 200,
            quot < TWO_53,
            rem < den,
            quot > 0 || rem > 0,
            num * pow2_pos(s as int) == quot * den + rem,
            num >= TWO_52 * den ==> s == 0 && quot >= TWO_52,
        decreases (if quot == 0 { 1int } else { 0int }), (if quot == 0 { den - rem } else { TWO_53 - quot }),
    {
        proof {
            pow2_pos_step(s as int);
            pow2_pos_positive(s as int);
            assert(num * (2 * pow2_pos(s as int)) == 2 * (num * pow2_pos(s as int)))
                by (nonlinear_arith);
            assert((2 * quot) * den == 2 * (quot * den)) by (nonlinear_arith);
            assert((2 * quot + 1) * den == 2 * (quot * den) + den) by (nonlinear_arith);
            assert(quot * den <= TWO_52 * den) by (nonlinear_arith)
                requires
                    quot <= TWO_52,
                    den > 0,
            ;
            if s >= 200 {
                pow2_pos_adds(64, 64);
                pow2_pos_grows(128, s as int);
                lemma2_to64();
                assert(num * pow2_pos(s as int) >= pow2_pos(s as int)) by (nonlinear_arith)
                    requires
                        num >= 1,
                        pow2_pos(s as int) >= 1,
                ;
                pow2_pos_adds(128, 32);
                pow2_pos_grows(160, s as int);
                assert(pow2_pos(128) == 0x1_0000_0000_0000_0000 * 0x1_0000_0000_0000_0000);
                assert(pow2_pos(160) == pow2_pos(128) * 0x1_0000_0000);
            }
        }
        let twice: u128 = rem * 2;
        if twice >= den {
            quot = quot * 2 + 1;
            rem = twice - den;
        } else {
            quot = quot * 2;
            rem = twice;
        }
        s = s + 1;
    }
    (quot as u64, rem, s)
}

/// The double nearest to `num / den * 2^k`.
pub fn round_ratio(num: u128, den: u128, k: i32) -> (d: Double)
    requires
        0 < den <= 0x1_0000_0000_0000_0000,
        num <= 0x0100_0000_0000_0000_0000_0000_0000_0000,
        -900_000 <= k <= 900_000,
    ensures
        d == nearest(num as int, den as int).shifted(k as int),
        d.mant == 0 && d.exp == 0 || TWO_52 <= d.mant < TWO_53 && k - 201 <= d.exp <= k + 201,
        num == 0 <==> d.mant == 0,
        d.wf(),
        forall|j: int|
            j >= 0 && 0 < num < den * #[trigger] pow2_pos(j) ==> d.exp <= k + j - 52,
        forall|j: int| j >= 0 && 0 < num && num >= den * #[trigger] pow2_pos(j) ==> d.exp >= k + j
            - 52,
        0 < num && 2 * num >= den ==> d.exp >= k - 53,
{
    if num == 0 {
        return Double { mant: 0, exp: 0 };
    }
    let (q, up) = shrink(num, den);
    let (whole, rem, down) = stretch(num, q);
    let e: i32 = up - down;
    proof {
        // Either the denominator was scaled or the numerator, never both.
        assert(up == 0 || down == 0);
        if up == 0 {
            assert(den * pow2_pos(0) == den);
        } else {
            assert(num * pow2_pos(0) == num);
        }
        assert(scaled_den(den as int, e as int) == q) by {
            if up == 0 {
                assert(pow2_pos(e as int) == 1);
                assert(den * 1 == den);
            }
        }
        assert(scaled_num(num as int, e as int) == whole * q + rem) by {
            if up > 0 {
                assert(pow2_pos(-e) == 1);
                assert(num * 1 == num);
            }
        }
        let n = scaled_num(num as int, e as int);
        let m = q as int;
        assert(TWO_52 * m <= n < TWO_53 * m) by (nonlinear_arith)
            requires
                n == whole * m + rem,
                TWO_52 <= whole,
                whole < TWO_53,
                0 <= rem < m,
        ;
        assert(fits(num as int, den as int, e as int));
        nearest_by_exponent(num as int, den as int, e as int);
        assert forall|j: int| j >= 0 && 0 < num < den * #[trigger] pow2_pos(j) implies e <= j - 53 by {
            exponent_bounds(num as int, den as int, e as int, j);
        }
        assert forall|j: int| j >= 0 && 0 < num && num >= den * #[trigger] pow2_pos(j) implies e >= j
            - 52 by {
            exponent_bounds(num as int, den as int, e as int, j);
        }
        exponent_bounds(num as int, den as int, e as int, 0);
        vstd::arithmetic::div_mod::lemma_fundamental_div_mod_converse(n, m, whole as int, rem as int);
        assert(half_even(n, m) == (if 2 * rem < q || (2 * rem == q && whole % 2 == 0) {
            whole as int
        } else {
            whole + 1
        }));
    }
    let mant: u64 = if rem * 2 < q || (rem * 2 == q && whole % 2 == 0) {
        whole
    } else {
        whole + 1
    };
    if mant == TWO_53 {
        Double { mant: TWO_52, exp: e + 1 + k }
    } else {
        Double { mant, exp: e + k }
    }
}


// ---------------------------------------------------------------------
// Operations.

/// 2 to the power `k`.
pub fn power_of_two(k: u32) -> (p: u128)
    requires
        k <= 120,
    ensures
        p == pow2_pos(k as int),
        p >= 1,
{
    let mut p: u128 = 1;
    let mut i: u32 = 0;
    while i < k
        invariant
            i <= k <= 120,
            p == pow2_pos(i as int),
            p >= 1,
        decreases k - i,
    {
        proof {
            pow2_pos_step(i as int);
            pow2_pos_grows(i as int + 1, 120);
            pow2_pos_adds(60, 60);
            lemma2_to64();
            lemma2_to64_rest();
            assert(pow2_pos(120) == 0x1000_0000_0000_0000 * 0x1000_0000_0000_0000);
        }
        p = p * 2;
        i = i + 1;
    }
    p
}

/// In units of its own exponent a number is its mantissa.
proof fn own_units(d: Double)
    ensures
        d.units(d.exp as int) == d.mant,
{
    assert(pow2_pos(d.exp - d.exp) == 1);
    assert(d.mant * 1 == d.mant);
}

/// No number is negative in any unit.
pub proof fn units_not_negative(d: Double, e: int)
    ensures
        d.units(e) >= 0,
{
    pow2_pos_positive(d.exp - e);
    assert(d.mant * pow2_pos(d.exp - e) >= 0) by (nonlinear_arith)
        requires
            d.mant >= 0,
            pow2_pos(d.exp - e) >= 1,
    ;
}

/// Bounds on the powers that the operations meet.
proof fn power_bounds(d: int)
    ensures
        0 <= d <= 66 ==> 1 <= pow2_pos(d) <= 0x4_0000_0000_0000_0000,
        d >= 60 ==> pow2_pos(d) >= 0x1000_0000_0000_0000,
        d >= 1 ==> pow2_pos(d) >= 2,
{
    lemma2_to64();
    lemma2_to64_rest();
    pow2_pos_positive(d);
    if 0 <= d <= 66 {
        pow2_pos_grows(d, 66);
        pow2_pos_adds(64, 2);
        assert(pow2_pos(66) == 0x1_0000_0000_0000_0000 * 4);
    }
    if d >= 60 {
        pow2_pos_grows(60, d);
    }
    if d >= 1 {
        pow2_pos_grows(1, d);
    }
}

/// Scaling a whole number by a positive exponent.
proof fn scaled_whole(n: int, d: int)
    requires
        d >= 0,
    ensures
        scaled_num(n, d) == n,
        scaled_den(1, d) == pow2_pos(d),
{
    assert(pow2_pos(-d) == 1);
    assert(n * 1 == n);
    assert(1 * pow2_pos(d) == pow2_pos(d));
}

/// A number much smaller than half a unit of the other does not count.
proof fn small_addend_vanishes(big: int, small: int, d: int)
    requires
        TWO_52 <= big < TWO_53,
        0 <= small < TWO_53,
        d >= 60,
    ensures
        nearest(big * pow2_pos(d) + small, 1) == normalized(big, d),
{
    let p = pow2_pos(d);
    power_bounds(d);
    let n = big * p + small;
    assert(TWO_52 * p <= n < TWO_53 * p && n > 0) by (nonlinear_arith)
        requires
            n == big * p + small,
            TWO_52 <= big,
            big + 1 <= TWO_53,
            0 <= small < p,
    ;
    scaled_whole(n, d);
    nearest_by_exponent(n, 1, d);
    vstd::arithmetic::div_mod::lemma_fundamental_div_mod_converse(n, p, big, small);
}

/// The same when it is taken away.
proof fn small_subtrahend_vanishes(big: int, small: int, d: int)
    requires
        TWO_52 <= big < TWO_53,
        0 < small < TWO_53,
        d >= 61,
    ensures
        nearest(big * pow2_pos(d) - small, 1) == normalized(big, d),
{
    let p = pow2_pos(d);
    power_bounds(d);
    let n = big * p - small;
    if big > TWO_52 {
        assert(TWO_52 * p <= n < TWO_53 * p && n > 0) by (nonlinear_arith)
            requires
                n == big * p - small,
                TWO_52 + 1 <= big,
                big < TWO_53,
                0 < small < p,
        ;
        scaled_whole(n, d);
        nearest_by_exponent(n, 1, d);
        assert(n == (big - 1) * p + (p - small)) by (nonlinear_arith)
            requires
                n == big * p - small,
        ;
        vstd::arithmetic::div_mod::lemma_fundamental_div_mod_converse(n, p, big - 1, p - small);
    } else {
        let h = pow2_pos(d - 1);
        pow2_pos_step(d - 1);
        power_bounds(d - 1);
        assert(n == TWO_53 * h - small) by (nonlinear_arith)
            requires
                n == big * p - small,
                big == TWO_52,
                p == 2 * h,
                TWO_53 == 2 * TWO_52,
        ;
        assert(TWO_52 * h <= n < TWO_53 * h && n > 0) by (nonlinear_arith)
            requires
                n == TWO_53 * h - small,
                0 < small < h,
                TWO_53 == 2 * TWO_52,
        ;
        scaled_whole(n, d - 1);
        nearest_by_exponent(n, 1, d - 1);
        assert(n == (TWO_53 - 1) * h + (h - small)) by (nonlinear_arith)
            requires
                n == TWO_53 * h - small,
        ;
        vstd::arithmetic::div_mod::lemma_fundamental_div_mod_converse(n, h, TWO_53 - 1, h - small);
    }
}

impl Double {
    /// Zero.
    pub fn zero() -> (d: Double)
        ensures
            d == (Double { mant: 0, exp: 0 }),
            d.wf(),
    {
        Double { mant: 0, exp: 0 }
    }

    /// Zero, or an exponent between the two.
    pub open spec fn within(self, lo: int, hi: int) -> bool {
        self.wf() && (self.mant == 0 || lo <= self.exp <= hi)
    }

    /// The double nearest to a whole number.
    pub fn from_u64(n: u64) -> (d: Double)
        ensures
            d == nearest(n as int, 1),
            d.within(-52, 12),
            n == 0 <==> d.mant == 0,
            forall|j: int| j >= 0 && 0 < n < #[trigger] pow2_pos(j) ==> d.exp <= j - 52,
            forall|j: int| j >= 0 && 0 < n && n >= #[trigger] pow2_pos(j) ==> d.exp >= j - 52,
    {
        proof {
            lemma2_to64();
            assert(pow2_pos(64) == 0x1_0000_0000_0000_0000);
            assert(pow2_pos(0) == 1);
            assert(nearest(n as int, 1).shifted(0) == nearest(n as int, 1));
        }
        round_ratio(n as u128, 1, 0)
    }

    pub fn div(self, other: Double) -> (d: Double)
        requires
            self.within(-10_000, 10_000),
            other.within(-10_000, 10_000),
            other.mant > 0,
        ensures
            d == self.quotient(other),
            d.within(self.exp - other.exp - 53, self.exp - other.exp - 51),
            self.mant == 0 <==> d.mant == 0,
    {
        proof {
            lemma2_to64();
            assert(pow2_pos(1) == 2);
        }
        round_ratio(self.mant as u128, other.mant as u128, self.exp - other.exp)
    }

    pub fn times(self, other: Double) -> (d: Double)
        requires
            self.within(-10_000, 10_000),
            other.within(-10_000, 10_000),
        ensures
            d == self.product(other),
            d.within(self.exp + other.exp + 52, self.exp + other.exp + 54),
            self.mant == 0 || other.mant == 0 <==> d.mant == 0,
    {
        proof {
            assert(self.mant * other.mant <= 0x0100_0000_0000_0000_0000_0000_0000_0000)
                by (nonlinear_arith)
                requires
                    self.mant < TWO_53,
                    other.mant < TWO_53,
                    TWO_53 * TWO_53 <= 0x0100_0000_0000_0000_0000_0000_0000_0000,
            ;
            assert(self.mant * other.mant == 0 <==> self.mant == 0 || other.mant == 0)
                by (nonlinear_arith);
            lemma2_to64();
            lemma2_to64_rest();
            pow2_pos_adds(53, 53);
            assert(self.mant * other.mant < TWO_53 * TWO_53) by (nonlinear_arith)
                requires
                    self.mant < TWO_53,
                    other.mant < TWO_53,
            ;
            assert(pow2_pos(106) == TWO_53 * TWO_53);
            pow2_pos_adds(52, 52);
            assert(pow2_pos(104) == TWO_52 * TWO_52);
            if self.mant > 0 && other.mant > 0 {
                assert(self.mant * other.mant >= TWO_52 * TWO_52) by (nonlinear_arith)
                    requires
                        self.mant >= TWO_52,
                        other.mant >= TWO_52,
                ;
            }
        }
        round_ratio(self.mant as u128 * other.mant as u128, 1, self.exp + other.exp)
    }

    pub fn plus(self, other: Double) -> (d: Double)
        requires
            self.within(-10_000, 10_000),
            other.within(-10_000, 10_000),
        ensures
            d == self.sum(other),
            d.within(-20_000, 20_000),
            d.mant == 0 <==> self.mant == 0 && other.mant == 0,
            d.mant > 0 ==> (self.mant > 0 && d.exp <= self.exp + 2) || (other.mant > 0 && d.exp
                <= other.exp + 2),
            d.mant > 0 && self.mant > 0 ==> d.exp >= self.exp,
            d.mant > 0 && other.mant > 0 ==> d.exp >= other.exp,
    {
        proof {
            lemma2_to64();
            lemma2_to64_rest();
            assert(pow2_pos(53) == TWO_53);
            assert(pow2_pos(52) == TWO_52);
        }
        if self.mant == 0 {
            proof {
                own_units(other);
            }
            return round_ratio(other.mant as u128, 1, other.exp);
        }
        if other.mant == 0 {
            proof {
                own_units(self);
            }
            return round_ratio(self.mant as u128, 1, self.exp);
        }
        let (big, small) = if self.exp >= other.exp {
            (self, other)
        } else {
            (other, self)
        };
        let d: i32 = big.exp - small.exp;
        proof {
            assert(self.common_exp(other) == small.exp);
            own_units(small);
            assert(self.units(small.exp as int) + other.units(small.exp as int) == big.units(
                small.exp as int,
            ) + small.mant);
            power_bounds(d as int);
        }
        if d <= 66 {
            let p: u128 = power_of_two(d as u32);
            proof {
                let m = big.mant as int;
                let q = p as int;
                assert(0 < m * q <= TWO_53 * 0x4_0000_0000_0000_0000) by (nonlinear_arith)
                    requires
                        0 < m <= TWO_53,
                        1 <= q <= 0x4_0000_0000_0000_0000,
                ;
                pow2_pos_adds(54, d as int);
                pow2_pos_adds(52, d as int);
                assert(pow2_pos(54) == 2 * TWO_53);
                assert(m * q + small.mant < 2 * TWO_53 * q) by (nonlinear_arith)
                    requires
                        m < TWO_53,
                        small.mant < TWO_53,
                        q >= 1,
                ;
                assert(m * q + small.mant >= TWO_52 * q) by (nonlinear_arith)
                    requires
                        m >= TWO_52,
                        small.mant >= 0,
                        q >= 1,
                ;
            }
            round_ratio(big.mant as u128 * p + small.mant as u128, 1, small.exp)
        } else {
            proof {
                small_addend_vanishes(big.mant as int, small.mant as int, d as int);
            }
            big
        }
    }

    /// Takes the other number, which is no larger, away.
    pub fn minus(self, other: Double) -> (d: Double)
        requires
            self.within(-10_000, 10_000),
            other.within(-10_000, 10_000),
            !self.below(other),
        ensures
            d == self.difference(other),
            d.within(-20_000, 20_000),
            d.mant == 0 <==> !other.below(self),
            d.mant > 0 ==> d.exp <= self.exp + 1,
            d.mant > 0 && other.mant > 0 ==> d.exp >= other.exp - 201,
            d.mant > 0 && other.mant == 0 ==> d.exp >= self.exp - 201,
    {
        proof {
            lemma2_to64_rest();
            assert(pow2_pos(53) == TWO_53);
        }
        if other.mant == 0 {
            proof {
                if self.mant > 0 {
                    own_units(self);
                } else {
                    assert(self.units(self.exp as int) == 0);
                }
            }
            return round_ratio(self.mant as u128, 1, self.exp);
        }
        proof {
            compare_by_exponent(self, other);
        }
        let d: i32 = self.exp - other.exp;
        proof {
            assert(self.common_exp(other) == other.exp);
            assert(other.common_exp(self) == other.exp);
            own_units(other);
            power_bounds(d as int);
        }
        if d <= 66 {
            let p: u128 = power_of_two(d as u32);
            proof {
                let m = self.mant as int;
                let q = p as int;
                assert(0 < m * q <= TWO_53 * 0x4_0000_0000_0000_0000) by (nonlinear_arith)
                    requires
                        0 < m <= TWO_53,
                        1 <= q <= 0x4_0000_0000_0000_0000,
                ;
                pow2_pos_adds(53, d as int);
                assert(m * q - other.mant < TWO_53 * q) by (nonlinear_arith)
                    requires
                        m < TWO_53,
                        other.mant >= 0,
                        q >= 1,
                ;
            }
            round_ratio(self.mant as u128 * p - other.mant as u128, 1, other.exp)
        } else {
            proof {
                small_subtrahend_vanishes(self.mant as int, other.mant as int, d as int);
                assert(self.mant * pow2_pos(d as int) > other.mant) by (nonlinear_arith)
                    requires
                        self.mant >= TWO_52,
                        other.mant < TWO_53,
                        pow2_pos(d as int) >= 2,
                        TWO_53 == 2 * TWO_52,
                ;
            }
            self
        }
    }

    /// Whether the number is smaller than the other.
    pub fn is_below(self, other: Double) -> (b: bool)
        requires
            self.wf(),
            other.wf(),
        ensures
            b == self.below(other),
    {
        proof {
            compare_by_exponent(self, other);
        }
        if self.mant == 0 {
            other.mant > 0
        } else if other.mant == 0 {
            false
        } else if self.exp != other.exp {
            self.exp < other.exp
        } else {
            self.mant < other.mant
        }
    }

    /// The larger of two numbers.
    pub open spec fn spec_max(self, other: Double) -> Double {
        if self.below(other) {
            other
        } else {
            self
        }
    }

    /// The larger of two numbers.
    pub fn max(self, other: Double) -> (d: Double)
        requires
            self.wf(),
            other.wf(),
        ensures
            d == self.spec_max(other),
    {
        if self.is_below(other) {
            other
        } else {
            self
        }
    }
}

/// Numbers are ordered by their exponents, and by their mantissas where those
/// are the same.
pub proof fn compare_by_exponent(a: Double, b: Double)
    requires
        a.wf(),
        b.wf(),
    ensures
        a.below(b) == (if a.mant == 0 {
            b.mant > 0
        } else if b.mant == 0 {
            false
        } else if a.exp != b.exp {
            a.exp < b.exp
        } else {
            a.mant < b.mant
        }),
{
    if a.mant == 0 {
        if b.mant > 0 {
            own_units(b);
        }
    } else if b.mant == 0 {
        own_units(a);
    } else {
        let d = a.exp - b.exp;
        power_bounds(d);
        power_bounds(-d);
        if d > 0 {
            let p = pow2_pos(d);
            own_units(b);
            assert(a.mant * p >= b.mant) by (nonlinear_arith)
                requires
                    a.mant >= TWO_52,
                    b.mant < TWO_53,
                    p >= 2,
                    TWO_53 == 2 * TWO_52,
            ;
        } else if d < 0 {
            let p = pow2_pos(-d);
            own_units(a);
            assert(b.mant * p > a.mant) by (nonlinear_arith)
                requires
                    b.mant >= TWO_52,
                    a.mant < TWO_53,
                    p >= 2,
                    TWO_53 == 2 * TWO_52,
            ;
        } else {
            own_units(a);
            own_units(b);
        }
    }
}

// ---------------------------------------------------------------------
// Whole units, seconds and bits.

/// The number in units of one part in `scale`, rounded to a whole number of
/// them, the even one where two are as near.
pub open spec fn whole_units(d: Double, scale: int) -> int {
    if d.exp >= 0 {
        d.mant * scale * pow2_pos(d.exp as int)
    } else {
        half_even(d.mant * scale, pow2_pos(-d.exp))
    }
}

/// The number in units of one part in `scale`.
pub fn to_units(d: Double, scale: u64) -> (n: u128)
    requires
        d.within(-10_000, 60),
        0 < scale <= 1_000_000_000,
        scale <= 100 || d.within(-10_000, 30),
    ensures
        n == whole_units(d, scale as int),
        n < u128::MAX,
{
    proof {
        assert(d.mant * scale <= TWO_53 * 1_000_000_000) by (nonlinear_arith)
            requires
                0 <= d.mant < TWO_53,
                0 < scale <= 1_000_000_000,
        ;
        if scale <= 100 {
            assert(d.mant * scale <= TWO_53 * 100) by (nonlinear_arith)
                requires
                    0 <= d.mant < TWO_53,
                    0 < scale <= 100,
            ;
        }
    }
    let scaled: u128 = d.mant as u128 * scale as u128;
    if d.exp >= 0 {
        let p: u128 = power_of_two(d.exp as u32);
        proof {
            lemma2_to64();
            lemma2_to64_rest();
            assert(pow2_pos(30) == 0x4000_0000);
            assert(pow2_pos(60) == 0x1000_0000_0000_0000);
            if d.exp <= 30 {
                pow2_pos_grows(d.exp as int, 30);
                assert(scaled * p <= TWO_53 * 1_000_000_000 * 0x4000_0000) by (nonlinear_arith)
                    requires
                        0 <= scaled <= TWO_53 * 1_000_000_000,
                        0 <= p <= 0x4000_0000,
                ;
            } else {
                pow2_pos_grows(d.exp as int, 60);
                assert(scaled * p <= TWO_53 * 100 * 0x1000_0000_0000_0000) by (nonlinear_arith)
                    requires
                        0 <= scaled <= TWO_53 * 100,
                        0 <= p <= 0x1000_0000_0000_0000,
                ;
            }
        }
        scaled * p
    } else {
        let s: u32 = (-d.exp) as u32;
        if s > 120 {
            proof {
                lemma2_to64_rest();
                pow2_pos_adds(60, 60);
                pow2_pos_grows(120, s as int);
                assert(pow2_pos(120) == 0x1000_0000_0000_0000 * 0x1000_0000_0000_0000);
                vstd::arithmetic::div_mod::lemma_fundamental_div_mod_converse(
                    scaled as int,
                    pow2_pos(s as int),
                    0,
                    scaled as int,
                );
            }
            0
        } else {
            let p: u128 = power_of_two(s);
            let q: u128 = scaled / p;
            let r: u128 = scaled % p;
            proof {
                assert(q <= scaled && r < p) by (nonlinear_arith)
                    requires
                        q == scaled / p,
                        r == scaled % p,
                        p >= 1,
                        scaled >= 0,
                ;
                lemma2_to64_rest();
                pow2_pos_adds(60, 60);
                pow2_pos_grows(s as int, 120);
                assert(pow2_pos(120) == 0x1000_0000_0000_0000 * 0x1000_0000_0000_0000);
            }
            if r * 2 < p || (r * 2 == p && q % 2 == 0) {
                q
            } else {
                q + 1
            }
        }
    }
}

/// A span in seconds, whole seconds and fraction rounded apart and added.
pub open spec fn seconds(d: Duration) -> Double {
    nearest(d.nanos as int / 1_000_000_000, 1).sum(
        nearest(d.nanos as int % 1_000_000_000, 1).quotient(nearest(1_000_000_000, 1)),
    )
}

/// A span in seconds.
pub fn to_seconds(d: Duration) -> (s: Double)
    requires
        d.nanos <= MAX_NANOS,
    ensures
        s == seconds(d),
        s.within(-83, 14),
        s.mant == 0 <==> d.nanos == 0,
{
    let whole: u64 = (d.nanos / 1_000_000_000) as u64;
    let part: u64 = (d.nanos % 1_000_000_000) as u64;
    let billion = Double::from_u64(1_000_000_000);
    proof {
        lemma2_to64();
        assert(pow2_pos(29) <= 1_000_000_000 < pow2_pos(30));
        assert(pow2_pos(30) > part);
    }
    let fraction = Double::from_u64(part).div(billion);
    Double::from_u64(whole).plus(fraction)
}

/// One millionth.
pub open spec fn millionth() -> Double {
    nearest(1, 1).quotient(nearest(1_000_000, 1))
}

/// A span in seconds to divide by: never less than a millionth.
pub open spec fn positive_seconds(s: Double) -> Double {
    s.spec_max(millionth())
}

/// The larger of `s` and a millionth.
pub fn at_least_a_millionth(s: Double) -> (r: Double)
    requires
        s.within(-5_000, 60),
    ensures
        r == positive_seconds(s),
        r.within(-73, 60),
        s.within(-5_000, 30) ==> r.within(-73, 30),
        r.mant > 0,
{
    let one = Double::from_u64(1);
    let million = Double::from_u64(1_000_000);
    proof {
        lemma2_to64();
        assert(pow2_pos(0) <= 1 < pow2_pos(1));
        assert(pow2_pos(19) <= 1_000_000 < pow2_pos(20));
    }
    let least = one.div(million);
    proof {
        compare_by_exponent(s, least);
    }
    s.max(least)
}

/// The seconds from `start` to `end`, none where `end` comes first.
pub open spec fn seconds_between(start: Double, end: Double) -> Double {
    if end.below(start) {
        Double { mant: 0, exp: 0 }
    } else {
        end.difference(start)
    }
}

/// The seconds from `start` to `end`.
pub fn span_seconds(start: Double, end: Double) -> (d: Double)
    requires
        start.within(-1_000, 50),
        end.within(-1_000, 50),
    ensures
        d == seconds_between(start, end),
        d.within(-2_000, 51),
{
    if end.is_below(start) {
        Double::zero()
    } else {
        end.minus(start)
    }
}

/// The bits of the number in double precision.
pub open spec fn bits_of(d: Double) -> int {
    if d.mant == 0 {
        0
    } else {
        (d.exp + 1075) * TWO_52 + (d.mant - TWO_52)
    }
}

/// The bits of the number in double precision.
pub fn to_bits(d: Double) -> (b: FloatBits)
    requires
        d.within(-1_074, 971),
    ensures
        b.bits == bits_of(d),
{
    if d.mant == 0 {
        FloatBits { bits: 0 }
    } else {
        let biased: u64 = (d.exp + 1075) as u64;
        proof {
            assert(biased * TWO_52 <= 2046 * TWO_52) by (nonlinear_arith)
                requires
                    biased <= 2046,
            ;
        }
        FloatBits { bits: biased * TWO_52 + (d.mant - TWO_52) }
    }
}

// ---------------------------------------------------------------------
// Where nothing is rounded.

/// How often a whole number of at most 53 bits has to be doubled to have 53.
pub open spec fn doublings(n: int) -> int
    decreases TWO_53 - n,
{
    if 0 < n < TWO_52 {
        1 + doublings(2 * n)
    } else {
        0
    }
}

pub proof fn doublings_fill(n: int)
    requires
        0 < n < TWO_53,
    ensures
        0 <= doublings(n) <= 52,
        TWO_52 <= n * pow2_pos(doublings(n)) < TWO_53,
    decreases TWO_53 - n,
{
    if n < TWO_52 {
        let s = doublings(2 * n);
        doublings_fill(2 * n);
        pow2_pos_step(s);
        assert(n * (2 * pow2_pos(s)) == (2 * n) * pow2_pos(s)) by (nonlinear_arith);
        if s >= 52 {
            pow2_pos_grows(52, s);
            lemma2_to64_rest();
            assert((2 * n) * pow2_pos(s) >= TWO_53) by (nonlinear_arith)
                requires
                    n >= 1,
                    pow2_pos(s) >= TWO_52,
                    TWO_53 == 2 * TWO_52,
            ;
        }
    } else {
        assert(n * pow2_pos(0) == n);
    }
}

/// A whole multiple is its own quotient.
pub proof fn half_even_of_multiple(m: int, d: int)
    requires
        m >= 0,
        d > 0,
    ensures
        half_even(m * d, d) == m,
{
    vstd::arithmetic::div_mod::lemma_fundamental_div_mod_converse(m * d, d, m, 0);
}

/// The double of a whole number of at most 53 bits, times a power of two.
pub proof fn nearest_of_shifted(n: int, u: int)
    requires
        0 < n < TWO_53,
        0 <= u <= 1_000,
    ensures
        nearest(n * pow2_pos(u), 1) == (Double {
            mant: (n * pow2_pos(doublings(n))) as u64,
            exp: (u - doublings(n)) as i32,
        }),
{
    let s = doublings(n);
    let m = n * pow2_pos(s);
    let num = n * pow2_pos(u);
    let e = u - s;
    doublings_fill(n);
    pow2_pos_positive(u);
    assert(num > 0) by (nonlinear_arith)
        requires
            num == n * pow2_pos(u),
            n > 0,
            pow2_pos(u) >= 1,
    ;
    if e >= 0 {
        let d = pow2_pos(e);
        pow2_pos_adds(s, e);
        pow2_pos_positive(e);
        scaled_whole(num, e);
        assert(num == m * d) by (nonlinear_arith)
            requires
                num == n * pow2_pos(u),
                m == n * pow2_pos(s),
                pow2_pos(u) == pow2_pos(s) * d,
        ;
        assert(TWO_52 * d <= num < TWO_53 * d) by (nonlinear_arith)
            requires
                num == m * d,
                TWO_52 <= m,
                m < TWO_53,
                d >= 1,
        ;
        nearest_by_exponent(num, 1, e);
        half_even_of_multiple(m, d);
    } else {
        pow2_pos_adds(u, -e);
        assert(num * pow2_pos(-e) == m) by (nonlinear_arith)
            requires
                num == n * pow2_pos(u),
                m == n * pow2_pos(s),
                pow2_pos(s) == pow2_pos(u) * pow2_pos(-e),
        ;
        assert(scaled_den(1, e) == 1);
        nearest_by_exponent(num, 1, e);
        assert(m * 1 == m);
        half_even_of_multiple(m, 1);
    }
}

/// A whole number of at most 53 bits is held exactly: in units of one part in
/// `scale` it is that many times as much.
pub proof fn whole_numbers_are_exact(n: int, scale: int)
    requires
        0 <= n < TWO_53,
        scale > 0,
    ensures
        whole_units(nearest(n, 1), scale) == n * scale,
{
    if n > 0 {
        let s = doublings(n);
        let m = n * pow2_pos(s);
        doublings_fill(n);
        assert(n * pow2_pos(0) == n);
        nearest_of_shifted(n, 0);
        pow2_pos_positive(s);
        assert(m * scale == (n * scale) * pow2_pos(s)) by (nonlinear_arith)
            requires
                m == n * pow2_pos(s),
        ;
        assert(n * scale >= 0) by (nonlinear_arith)
            requires
                n > 0,
                scale > 0,
        ;
        if s > 0 {
            half_even_of_multiple(n * scale, pow2_pos(s));
        } else {
            assert(pow2_pos(0) == 1);
            assert((n * scale) * 1 == n * scale);
        }
    } else {
        assert(0 * scale == 0);
        assert(0 * pow2_pos(0) == 0);
    }
}

/// Dividing a multiple of a power of two by that power is exact.
pub proof fn dividing_by_a_power_of_two_is_exact(n: int, u: int)
    requires
        0 < n < TWO_53,
        0 <= u <= 1_000,
    ensures
        nearest(n * pow2_pos(u), 1).quotient(nearest(pow2_pos(u), 1)) == nearest(n, 1),
{
    let s = doublings(n);
    let m = n * pow2_pos(s);
    doublings_fill(n);
    doublings_fill(1);
    nearest_of_shifted(n, u);
    nearest_of_shifted(1, u);
    nearest_of_shifted(n, 0);
    assert(1 * pow2_pos(u) == pow2_pos(u));
    assert(n * pow2_pos(0) == n);
    lemma2_to64_rest();
    assert(pow2_pos(52) == TWO_52);
    one_is_doubled_52_times();
    // The mantissas are m and 2^52.
    assert(scaled_num(m, -52) == m * TWO_52);
    assert(scaled_den(TWO_52 as int, -52) == TWO_52) by {
        assert(pow2_pos(-52) == 1);
    }
    assert(TWO_52 * TWO_52 <= m * TWO_52 < TWO_53 * TWO_52) by (nonlinear_arith)
        requires
            TWO_52 <= m < TWO_53,
    ;
    nearest_by_exponent(m, TWO_52 as int, -52);
    half_even_of_multiple(m, TWO_52 as int);
}

proof fn one_is_doubled_52_times()
    ensures
        doublings(1) == 52,
        1 * pow2_pos(doublings(1)) == TWO_52,
{
    doublings_fill(1);
    let s = doublings(1);
    lemma2_to64_rest();
    if s < 52 {
        pow2_pos_grows(s, 51);
        lemma2_to64_rest();
        assert(pow2_pos(51) == 2_251_799_813_685_248);
    }
}

} // verus!
