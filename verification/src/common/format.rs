//! Numbers for people: byte counts in binary units, bit rates in units of a
//! thousand, both with two decimals.

use vstd::prelude::*;
use vstd::arithmetic::power2::*;
use vstd::string::StringExecFns;

use super::binary64::{at_least_a_millionth, nearest, positive_seconds, pow2_pos};
use super::binary64::{to_units, whole_units, Double};
use super::text::{decimal, digit_char, push_decimal, push_digit};

verus! {

/// The lowest `places` digits of a number.
pub open spec fn last_digits(n: int, places: nat) -> Seq<char>
    decreases places,
{
    if places == 0 {
        Seq::empty()
    } else {
        last_digits(n / 10, (places - 1) as nat).push(digit_char(n % 10))
    }
}

/// 10 to the power `places`.
pub open spec fn power_of_ten(places: nat) -> int
    decreases places,
{
    if places == 0 {
        1
    } else {
        10 * power_of_ten((places - 1) as nat)
    }
}

/// A number with the given number of decimals.
pub open spec fn fixed(d: Double, places: nat) -> Seq<char> {
    let units = whole_units(d, power_of_ten(places));
    decimal((units / power_of_ten(places)) as nat) + seq!['.'] + last_digits(units, places)
}

/// A number with two decimals.
pub open spec fn fixed2(d: Double) -> Seq<char> {
    fixed(d, 2)
}

fn push_last_digits(s: &mut String, n: u128, places: u32)
    ensures
        final(s)@ == old(s)@ + last_digits(n as int, places as nat),
    decreases places,
{
    if places == 0 {
        proof {
            assert(s@ =~= old(s)@ + last_digits(n as int, 0));
        }
    } else {
        push_last_digits(s, n / 10, places - 1);
        push_digit(s, (n % 10) as u8);
        proof {
            assert((n / 10) as int == (n as int) / 10);
            assert(s@ =~= old(s)@ + last_digits(n as int, places as nat));
        }
    }
}

/// Appends a number with two decimals.
pub fn push_fixed2(s: &mut String, d: Double)
    requires
        d.within(-10_000, 60),
    ensures
        final(s)@ == old(s)@ + fixed2(d),
{
    proof {
        reveal_with_fuel(power_of_ten, 3);
    }
    let n: u128 = to_units(d, 100);
    push_decimal(s, n / 100);
    s.push('.');
    push_last_digits(s, n, 2);
    proof {
        assert(s@ =~= old(s)@ + fixed2(d));
    }
}

/// Appends a number with six decimals.
pub fn push_fixed6(s: &mut String, d: Double)
    requires
        d.within(-10_000, 30),
    ensures
        final(s)@ == old(s)@ + fixed(d, 6),
{
    proof {
        reveal_with_fuel(power_of_ten, 7);
    }
    let n: u128 = to_units(d, 1_000_000);
    push_decimal(s, n / 1_000_000);
    s.push('.');
    push_last_digits(s, n, 6);
    proof {
        assert(s@ =~= old(s)@ + fixed(d, 6));
    }
}

pub const KIB: u64 = 1024;

pub const MIB: u64 = 1_048_576;

pub const GIB: u64 = 1_073_741_824;

pub const TIB: u64 = 1_099_511_627_776;

/// `n / unit` with two decimals, and the unit's name.
pub open spec fn in_unit(n: u64, unit: u64, name: Seq<char>) -> Seq<char> {
    fixed2(nearest(n as int, 1).quotient(nearest(unit as int, 1))) + name
}

/// A byte count in the largest unit of which it holds one.
pub open spec fn bytes_text(n: u64) -> Seq<char> {
    if n >= TIB {
        in_unit(n, TIB, " TBytes"@)
    } else if n >= GIB {
        in_unit(n, GIB, " GBytes"@)
    } else if n >= MIB {
        in_unit(n, MIB, " MBytes"@)
    } else if n >= KIB {
        in_unit(n, KIB, " KBytes"@)
    } else {
        decimal(n as nat) + " Bytes"@
    }
}

fn render_in_unit(n: u64, unit: u64, name: &str) -> (s: String)
    requires
        unit >= KIB,
    ensures
        s@ == in_unit(n, unit, name@),
{
    proof {
        lemma2_to64();
        assert(pow2_pos(10) == 1024);
    }
    let d = Double::from_u64(n).div(Double::from_u64(unit));
    let mut s = String::new();
    push_fixed2(&mut s, d);
    s.append(name);
    proof {
        assert(s@ =~= in_unit(n, unit, name@));
    }
    s
}

/// Renders a byte count: `500 Bytes`, `1.50 KBytes`, `2.10 TBytes`.
pub fn bytes(n: u64) -> (s: String)
    ensures
        s@ == bytes_text(n),
{
    if n >= TIB {
        render_in_unit(n, TIB, " TBytes")
    } else if n >= GIB {
        render_in_unit(n, GIB, " GBytes")
    } else if n >= MIB {
        render_in_unit(n, MIB, " MBytes")
    } else if n >= KIB {
        render_in_unit(n, KIB, " KBytes")
    } else {
        let mut s = String::new();
        push_decimal(&mut s, n as u128);
        s.append(" Bytes");
        proof {
            assert(s@ =~= bytes_text(n));
        }
        s
    }
}

/// A bit rate in the largest unit of which it holds one.
pub open spec fn bitrate_text(bps: Double) -> Seq<char> {
    let k = nearest(1_000, 1);
    let m = nearest(1_000_000, 1);
    let g = nearest(1_000_000_000, 1);
    let t = nearest(1_000_000_000_000, 1);
    if !bps.below(t) {
        fixed2(bps.quotient(t)) + " Tbits/sec"@
    } else if !bps.below(g) {
        fixed2(bps.quotient(g)) + " Gbits/sec"@
    } else if !bps.below(m) {
        fixed2(bps.quotient(m)) + " Mbits/sec"@
    } else if !bps.below(k) {
        fixed2(bps.quotient(k)) + " Kbits/sec"@
    } else {
        fixed2(bps) + " bits/sec"@
    }
}

fn render_rate(d: Double, name: &str) -> (s: String)
    requires
        d.within(-10_000, 30),
    ensures
        s@ == fixed2(d) + name@,
{
    let mut s = String::new();
    push_fixed2(&mut s, d);
    s.append(name);
    proof {
        assert(s@ =~= fixed2(d) + name@);
    }
    s
}

/// Renders a bit rate: `800.00 bits/sec`, `137.50 Mbits/sec`.
pub fn bitrate_bps(bits_per_sec: Double) -> (s: String)
    requires
        bits_per_sec.within(-5_000, 68),
    ensures
        s@ == bitrate_text(bits_per_sec),
{
    let k = Double::from_u64(1_000);
    let m = Double::from_u64(1_000_000);
    let g = Double::from_u64(1_000_000_000);
    let t = Double::from_u64(1_000_000_000_000);
    proof {
        lemma2_to64();
        lemma2_to64_rest();
        assert(pow2_pos(9) <= 1_000 < pow2_pos(10));
        assert(pow2_pos(19) <= 1_000_000 < pow2_pos(20));
        assert(pow2_pos(29) <= 1_000_000_000 < pow2_pos(30));
        assert(pow2_pos(39) <= 1_000_000_000_000 < pow2_pos(40));
        super::binary64::compare_by_exponent(bits_per_sec, k);
        super::binary64::compare_by_exponent(bits_per_sec, m);
        super::binary64::compare_by_exponent(bits_per_sec, g);
        super::binary64::compare_by_exponent(bits_per_sec, t);
    }
    if !bits_per_sec.is_below(t) {
        render_rate(bits_per_sec.div(t), " Tbits/sec")
    } else if !bits_per_sec.is_below(g) {
        render_rate(bits_per_sec.div(g), " Gbits/sec")
    } else if !bits_per_sec.is_below(m) {
        render_rate(bits_per_sec.div(m), " Mbits/sec")
    } else if !bits_per_sec.is_below(k) {
        render_rate(bits_per_sec.div(k), " Kbits/sec")
    } else {
        render_rate(bits_per_sec, " bits/sec")
    }
}

/// Bits per second of `n` bytes over `secs`, where less than a millionth of a
/// second counts as that much.
pub open spec fn rate_over(n: u64, secs: Double) -> Double {
    nearest(n as int, 1).product(nearest(8, 1)).quotient(positive_seconds(secs))
}

/// Bits per second of `n` bytes over `secs`.
pub fn bits_per_second(n: u64, secs: Double) -> (d: Double)
    requires
        secs.within(-5_000, 60),
    ensures
        d == rate_over(n, secs),
        d.within(-300, 68),
{
    let eight = Double::from_u64(8);
    proof {
        lemma2_to64();
        assert(pow2_pos(3) <= 8 < pow2_pos(4));
    }
    let bits = Double::from_u64(n).times(eight);
    bits.div(at_least_a_millionth(secs))
}

/// Renders the throughput of `bytes_count` bytes over `duration_secs`.
pub fn bitrate(bytes_count: u64, duration_secs: Double) -> (s: String)
    requires
        duration_secs.within(-5_000, 60),
    ensures
        s@ == bitrate_text(rate_over(bytes_count, duration_secs)),
{
    bitrate_bps(bits_per_second(bytes_count, duration_secs))
}

/// A whole number of units is printed as that number with two zeros behind
/// it, in every unit.
pub proof fn whole_units_print_plainly(k: u64, unit: u64, shift: int)
    requires
        k > 0,
        k * unit <= u64::MAX,
        0 <= shift <= 63,
        unit == pow2_pos(shift),
        k < 0x20_0000_0000_0000,
    ensures
        in_unit((k * unit) as u64, unit, Seq::empty()) == decimal(k as nat) + seq!['.', '0', '0'],
{
    super::binary64::dividing_by_a_power_of_two_is_exact(k as int, shift);
    super::binary64::whole_numbers_are_exact(k as int, 100);
    reveal_with_fuel(power_of_ten, 3);
    reveal_with_fuel(last_digits, 3);
    assert((k * 100) / 100 == k);
    assert((k * 100) % 10 == 0);
    assert((k * 100) / 10 % 10 == 0);
    assert(in_unit((k * unit) as u64, unit, Seq::empty()) =~= decimal(k as nat) + seq![
        '.',
        '0',
        '0',
    ]);
}

// ---------------------------------------------------------------------
// Columns.

/// So many spaces.
pub open spec fn spaces(n: int) -> Seq<char> {
    if n > 0 {
        Seq::new(n as nat, |i: int| ' ')
    } else {
        Seq::empty()
    }
}

/// A text at the right edge of a column.
pub open spec fn pad_left(s: Seq<char>, width: int) -> Seq<char> {
    spaces(width - s.len()) + s
}

/// A text at the left edge of a column.
pub open spec fn pad_right(s: Seq<char>, width: int) -> Seq<char> {
    s + spaces(width - s.len())
}

fn push_spaces(s: &mut String, n: usize)
    ensures
        final(s)@ == old(s)@ + spaces(n as int),
{
    let mut i: usize = 0;
    while i < n
        invariant
            i <= n,
            s@ == old(s)@ + spaces(i as int),
        decreases n - i,
    {
        s.push(' ');
        proof {
            assert(spaces(i as int + 1) =~= spaces(i as int).push(' '));
            assert(s@ =~= old(s)@ + spaces(i as int + 1));
        }
        i = i + 1;
    }
}

/// Appends a text at the right edge of a column.
pub fn push_padded_left(s: &mut String, text: &str, width: usize)
    ensures
        final(s)@ == old(s)@ + pad_left(text@, width as int),
{
    let n: usize = text.unicode_len();
    if n < width {
        push_spaces(s, width - n);
    }
    s.append(text);
    proof {
        assert(s@ =~= old(s)@ + pad_left(text@, width as int));
    }
}

/// Appends a text at the left edge of a column.
pub fn push_padded_right(s: &mut String, text: &str, width: usize)
    ensures
        final(s)@ == old(s)@ + pad_right(text@, width as int),
{
    let n: usize = text.unicode_len();
    s.append(text);
    if n < width {
        push_spaces(s, width - n);
    }
    proof {
        assert(s@ =~= old(s)@ + pad_right(text@, width as int));
    }
}

} // verus!
