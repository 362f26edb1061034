//! What texts are read as, and what numbers are written as.

use vstd::prelude::*;

use crate::common::binary64::{pow2_pos, Double};
use crate::common::format::{fixed, push_fixed2, push_fixed6, push_padded_left, push_padded_right};
use crate::common::text::{char_is_space, decimal, find_char, is_space, parse_number, push_decimal};
use crate::common::text::{chars_views, digit_char, index_of, lines, number, same_text};
use crate::common::text::{same_text_ignoring_case, split_lines, split_words, to_decimal};
use crate::common::text::{trim, trim_chars, trim_end, trim_start, word_len, words, NumberError};
use crate::common::test::Config;
use crate::laws::doubles::{is_nearest_whole, two_to};
use crate::laws::printing::blanks;

verus! {

// ---------------------------------------------------------------------
// Numbers as they are written.

/// All characters are decimal digits.
pub open spec fn all_digits(s: Seq<char>) -> bool {
    forall|i: int| 0 <= i < s.len() ==> '0' <= #[trigger] s[i] && s[i] <= '9'
}

/// The number that decimal digits stand for.
pub open spec fn read_decimal(s: Seq<char>) -> int
    decreases s.len(),
{
    if s.len() == 0 {
        0
    } else {
        10 * read_decimal(s.drop_last()) + (s.last() as int - '0' as int)
    }
}

proof fn digits_are_what_they_show(d: int)
    requires
        0 <= d < 10,
    ensures
        '0' <= digit_char(d) && digit_char(d) <= '9',
        digit_char(d) as int - '0' as int == d,
{
}

/// The digits of a number stand for it.
pub proof fn decimal_reads_back(n: nat)
    ensures
        decimal(n).len() >= 1,
        all_digits(decimal(n)),
        read_decimal(decimal(n)) == n,
        decimal(n).len() > 1 ==> decimal(n)[0] != '0',
        n > 0 ==> decimal(n)[0] != '0',
    decreases n,
{
    if n < 10 {
        digits_are_what_they_show(n as int);
        let s = decimal(n);
        assert(s.drop_last() =~= Seq::<char>::empty());
        assert(read_decimal(s.drop_last()) == 0);
    } else {
        decimal_reads_back(n / 10);
        digits_are_what_they_show((n % 10) as int);
        let s = decimal(n);
        assert(s.drop_last() =~= decimal(n / 10));
    }
}

/// Numbers are written in decimal digits that stand for them, without a zero
/// in front.
pub proof fn numbers_are_written_in_decimal(n: u128, s: String, m: &mut String)
    requires
        call_ensures(to_decimal, (n,), s),
        call_ensures(push_decimal, (m, n), ()),
    ensures
        s@ == decimal(n as nat),
        s@.len() >= 1,
        all_digits(s@),
        read_decimal(s@) == n,
        s@.len() > 1 ==> s@[0] != '0',
        final(m)@ == old(m)@ + s@,
{
    decimal_reads_back(n as nat);
}

proof fn last_digits_read_back(n: int, places: nat)
    requires
        n >= 0,
    ensures
        crate::common::format::last_digits(n, places).len() == places,
        all_digits(crate::common::format::last_digits(n, places)),
        read_decimal(crate::common::format::last_digits(n, places)) == n
            % crate::common::format::power_of_ten(places),
        crate::common::format::power_of_ten(places) > 0,
    decreases places,
{
    if places > 0 {
        let p = (places - 1) as nat;
        let q = crate::common::format::power_of_ten(p);
        last_digits_read_back(n / 10, p);
        digits_are_what_they_show(n % 10);
        let s = crate::common::format::last_digits(n, places);
        assert(s.drop_last() =~= crate::common::format::last_digits(n / 10, p));
        vstd::arithmetic::div_mod::lemma_fundamental_div_mod(n / 10, q);
        vstd::arithmetic::div_mod::lemma_mod_bound(n / 10, q);
        let a = (n / 10) / q;
        let b = (n / 10) % q;
        assert(n == a * (10 * q) + (10 * b + n % 10)) by (nonlinear_arith)
            requires
                n / 10 == q * a + b,
                n == 10 * (n / 10) + n % 10,
        ;
        vstd::arithmetic::div_mod::lemma_fundamental_div_mod_converse(
            n,
            10 * q,
            a,
            10 * b + n % 10,
        );
    } else {
        assert(read_decimal(Seq::<char>::empty()) == 0);
    }
}

/// A text of digits with so many behind a point, which stands for so many of
/// the smallest unit.
pub open spec fn reads_as(s: Seq<char>, places: int, units: int) -> bool {
    let k = s.len() - places - 1;
    &&& k >= 1
    &&& s[k] == '.'
    &&& all_digits(s.take(k))
    &&& all_digits(s.skip(k + 1))
    &&& k > 1 ==> s[0] != '0'
    &&& read_decimal(s.take(k)) * ten_to(places) + read_decimal(s.skip(k + 1)) == units
}

/// Ten to a power that is not negative.
pub open spec fn ten_to(places: int) -> int
    decreases places,
{
    if places <= 0 {
        1
    } else {
        10 * ten_to(places - 1)
    }
}

proof fn powers_of_ten_agree(places: nat)
    ensures
        crate::common::format::power_of_ten(places) == ten_to(places as int),
    decreases places,
{
    if places > 0 {
        powers_of_ten_agree((places - 1) as nat);
    }
}

proof fn fixed_reads(d: Double, places: nat, units: int)
    requires
        units == crate::common::binary64::whole_units(
            d,
            crate::common::format::power_of_ten(places),
        ),
        units >= 0,
    ensures
        reads_as(fixed(d, places), places as int, units),
{
    let p = crate::common::format::power_of_ten(places);
    powers_of_ten_agree(places);
    last_digits_read_back(units, places);
    assert(units / p >= 0) by (nonlinear_arith)
        requires
            units >= 0,
            p > 0,
    ;
    decimal_reads_back((units / p) as nat);
    let a = decimal((units / p) as nat);
    let b = crate::common::format::last_digits(units, places);
    let s = fixed(d, places);
    let k = a.len() as int;
    assert(s.take(k) =~= a);
    assert(s.skip(k + 1) =~= b);
    assert(s.len() == k + 1 + places);
    vstd::arithmetic::div_mod::lemma_fundamental_div_mod(units, p);
    assert(p * (units / p) == (units / p) * p) by (nonlinear_arith);
}

/// How many of a unit, of which there are `scale` in one, a number holds: the
/// nearest whole number of them.
pub open spec fn holds_units(d: Double, scale: int, units: int) -> bool {
    if d.exp >= 0 {
        units == d.mant * scale * two_to(d.exp as int)
    } else {
        is_nearest_whole(d.mant * scale, two_to(-d.exp), units)
    }
}

/// A number is written with two places, or with six: the digits stand for the
/// nearest hundredth, or millionth.
pub proof fn fractions_are_written_to_the_nearest_unit(
    d: Double,
    a: &mut String,
    b: &mut String,
)
    requires
        d.within(-10_000, 30),
        call_ensures(push_fixed2, (a, d), ()),
        call_ensures(push_fixed6, (b, d), ()),
    ensures
        final(a)@ == old(a)@ + fixed(d, 2),
        final(b)@ == old(b)@ + fixed(d, 6),
        exists|u: int| #[trigger] reads_as(fixed(d, 2), 2, u) && holds_units(d, 100, u),
        exists|u: int| #[trigger] reads_as(fixed(d, 6), 6, u) && holds_units(d, 1_000_000, u),
{
    two_places_read(d);
    reveal_with_fuel(crate::common::format::power_of_ten, 7);
    let v = crate::common::binary64::whole_units(d, 1_000_000);
    units_held(d, 1_000_000);
    assert(crate::common::format::power_of_ten(6) == 1_000_000);
    fixed_reads(d, 6, v);
}

/// The text of a number with two places.
pub proof fn two_places_read(d: Double)
    requires
        d.within(-10_000, 60),
    ensures
        exists|u: int| #[trigger] reads_as(fixed(d, 2), 2, u) && holds_units(d, 100, u),
{
    reveal_with_fuel(crate::common::format::power_of_ten, 3);
    let u = crate::common::binary64::whole_units(d, 100);
    units_held(d, 100);
    assert(crate::common::format::power_of_ten(2) == 100);
    fixed_reads(d, 2, u);
}

proof fn units_held(d: Double, scale: int)
    requires
        d.wf(),
        scale > 0,
    ensures
        holds_units(d, scale, crate::common::binary64::whole_units(d, scale)),
        crate::common::binary64::whole_units(d, scale) >= 0,
{
    assert(d.mant * scale >= 0) by (nonlinear_arith)
        requires
            d.mant >= 0,
            scale > 0,
    ;
    if d.exp >= 0 {
        crate::common::binary64::pow2_pos_positive(d.exp as int);
        let n = d.mant * scale;
        let p = pow2_pos(d.exp as int);
        assert(n * p >= 0) by (nonlinear_arith)
            requires
                n >= 0,
                p >= 1,
        ;
    } else {
        let p = pow2_pos(-d.exp);
        let n = d.mant * scale;
        crate::common::binary64::pow2_pos_positive(-d.exp);
        crate::common::rounding::half_even_is_near(n, p);
        let q = n / p;
        let r = n % p;
        vstd::arithmetic::div_mod::lemma_fundamental_div_mod(n, p);
        vstd::arithmetic::div_mod::lemma_mod_bound(n, p);
        assert(q * p == p * q) by (nonlinear_arith);
        assert((q + 1) * p == q * p + p) by (nonlinear_arith);
        assert(q >= 0) by (nonlinear_arith)
            requires
                n == p * q + r,
                n >= 0,
                0 <= r < p,
        ;
    }
}

/// Padding puts blanks on one side until the width is reached, and never cuts.
pub proof fn padding_never_cuts(a: &mut String, b: &mut String, text: &str, width: usize)
    requires
        call_ensures(push_padded_left, (a, text, width), ()),
        call_ensures(push_padded_right, (b, text, width), ()),
    ensures
        final(a)@ == old(a)@ + (blanks(width - text@.len()) + text@),
        final(b)@ == old(b)@ + (text@ + blanks(width - text@.len())),
{
    assert(crate::common::format::spaces(width - text@.len()) =~= blanks(width - text@.len()));
}

/// An address is a host and a port with a colon between.
pub proof fn addresses_are_host_and_port(c: &Config, s: String)
    requires
        call_ensures(Config::host_port, (c,), s),
    ensures
        s@.len() > c.host@.len() + 1,
        s@.take(c.host@.len() as int) == c.host@,
        s@[c.host@.len() as int] == ':',
        all_digits(s@.skip(c.host@.len() as int + 1)),
        read_decimal(s@.skip(c.host@.len() as int + 1)) == c.port,
{
    decimal_reads_back(c.port as nat);
    assert(s@.take(c.host@.len() as int) =~= c.host@);
    assert(s@.skip(c.host@.len() as int + 1) =~= decimal(c.port as nat));
}

// ---------------------------------------------------------------------
// Numbers as they are read.

/// What a character is worth as a digit: letters follow on the ten digits, in
/// either case. Others are worth nothing, which is -1 here.
pub open spec fn worth(c: char) -> int {
    if '0' <= c && c <= '9' {
        c as int - 48
    } else if 'a' <= c && c <= 'z' {
        c as int - 87
    } else if 'A' <= c && c <= 'Z' {
        c as int - 55
    } else {
        -1
    }
}

/// All characters are digits of the given radix.
pub open spec fn digits_of(s: Seq<char>, radix: int) -> bool {
    forall|i: int| 0 <= i < s.len() ==> 0 <= worth(#[trigger] s[i]) < radix
}

/// The number that digits stand for, behind others that stand for `acc`.
pub open spec fn value_behind(acc: int, s: Seq<char>, radix: int) -> int
    decreases s.len(),
{
    if s.len() == 0 {
        acc
    } else {
        value_behind(acc * radix + worth(s[0]), s.skip(1), radix)
    }
}

/// Digits are read one by one.
pub proof fn digits_one_by_one(s: Seq<char>, radix: int, acc: int, max: int)
    requires
        2 <= radix <= 36,
        0 <= acc <= max,
    ensures
        match crate::common::text::digits_from(s, radix, acc, max) {
            Ok(v) => digits_of(s, radix) && v == value_behind(acc, s, radix) && v <= max,
            Err(NumberError::TooLarge) => exists|k: int|
                0 <= k <= s.len() && digits_of(s.take(k), radix) && #[trigger] value_behind(
                    acc,
                    s.take(k),
                    radix,
                ) > max,
            Err(NumberError::InvalidDigit) => !digits_of(s, radix),
            Err(NumberError::Empty) => false,
        },
        digits_of(s, radix) ==> value_behind(acc, s, radix) >= acc,
        digits_of(s, radix) && value_behind(acc, s, radix) <= max
            ==> crate::common::text::digits_from(s, radix, acc, max) is Ok,
    decreases s.len(),
{
    if s.len() > 0 {
        let rest = s.skip(1);
        let next = acc * radix + worth(s[0]);
        if digits_of(s, radix) {
            assert(0 <= worth(s[0]) < radix);
            assert forall|i: int| 0 <= i < rest.len() implies 0 <= worth(#[trigger] rest[i])
                < radix by {
                assert(rest[i] == s[i + 1]);
            }
        }
        assert(crate::common::text::digit_value(s[0], radix) == (if 0 <= worth(s[0]) < radix {
            Some(worth(s[0]))
        } else {
            None::<int>
        }));
        if 0 <= worth(s[0]) < radix {
            assert(next >= acc) by (nonlinear_arith)
                requires
                    next == acc * radix + worth(s[0]),
                    acc >= 0,
                    radix >= 2,
                    worth(s[0]) >= 0,
            ;
            if next <= max {
                digits_one_by_one(rest, radix, next, max);
                match crate::common::text::digits_from(rest, radix, next, max) {
                    Ok(v) => {
                        assert forall|i: int| 0 <= i < s.len() implies 0 <= worth(#[trigger] s[i])
                            < radix by {
                            if i > 0 {
                                assert(s[i] == rest[i - 1]);
                            }
                        }
                    },
                    Err(NumberError::TooLarge) => {
                        let k = choose|k: int|
                            0 <= k <= rest.len() && digits_of(rest.take(k), radix)
                                && #[trigger] value_behind(next, rest.take(k), radix) > max;
                        let t = s.take(k + 1);
                        assert(t.skip(1) =~= rest.take(k));
                        assert forall|i: int| 0 <= i < t.len() implies 0 <= worth(#[trigger] t[i])
                            < radix by {
                            if i > 0 {
                                assert(t[i] == rest.take(k)[i - 1]);
                            }
                        }
                        assert(value_behind(acc, t, radix) > max);
                    },
                    _ => {},
                }
            } else {
                let t = s.take(1);
                assert(t.skip(1) =~= Seq::<char>::empty());
                assert(value_behind(next, t.skip(1), radix) == next);
                assert(value_behind(acc, t, radix) > max);
                if digits_of(s, radix) {
                    bigger_stays_bigger(rest, radix, next);
                }
            }
        }
    }
}

proof fn bigger_stays_bigger(s: Seq<char>, radix: int, acc: int)
    requires
        radix >= 2,
        acc >= 0,
        digits_of(s, radix),
    ensures
        value_behind(acc, s, radix) >= acc,
    decreases s.len(),
{
    if s.len() > 0 {
        let rest = s.skip(1);
        let next = acc * radix + worth(s[0]);
        assert(0 <= worth(s[0]) < radix);
        assert forall|i: int| 0 <= i < rest.len() implies 0 <= worth(#[trigger] rest[i]) < radix by {
            assert(rest[i] == s[i + 1]);
        }
        assert(next >= acc) by (nonlinear_arith)
            requires
                next == acc * radix + worth(s[0]),
                acc >= 0,
                radix >= 2,
                worth(s[0]) >= 0,
        ;
        bigger_stays_bigger(rest, radix, next);
    }
}

/// The digits of a number, behind a plus sign if there is one.
pub open spec fn without_plus(s: Seq<char>) -> Seq<char> {
    if s.len() > 0 && s[0] == '+' {
        s.skip(1)
    } else {
        s
    }
}

/// A number is read exactly where there are digits of the radix, with or
/// without a plus sign, and they stand for no more than the largest allowed;
/// it is what they stand for. Else the fault is told: no text, a character
/// that is no digit, or too large a number.
pub proof fn numbers_are_read_as_they_are_written(
    s: &[char],
    radix: u32,
    max: u64,
    r: Result<u64, NumberError>,
)
    requires
        2 <= radix <= 36,
        call_ensures(parse_number, (s, radix, max), r),
    ensures
        ({
            let t = without_plus(s@);
            let n = value_behind(0, t, radix as int);
            &&& r is Ok <==> t.len() > 0 && digits_of(t, radix as int) && n <= max
            &&& r matches Ok(v) ==> v == n
            &&& s@.len() == 0 <==> r == Err::<u64, NumberError>(NumberError::Empty)
            &&& r == Err::<u64, NumberError>(NumberError::InvalidDigit) ==> t.len() == 0
                || !digits_of(t, radix as int)
            &&& r == Err::<u64, NumberError>(NumberError::TooLarge) ==> exists|k: int|
                0 <= k <= t.len() && digits_of(t.take(k), radix as int) && #[trigger] value_behind(
                    0,
                    t.take(k),
                    radix as int,
                ) > max
        }),
{
    let t = without_plus(s@);
    digits_one_by_one(t, radix as int, 0, max as int);
    if s@.len() == 1 && s@[0] == '+' {
        assert(s@ =~= seq!['+']);
    }
    if s@ == seq!['+'] {
        assert(t.len() == 0);
    }
}

// ---------------------------------------------------------------------
// Words, lines and blanks.

/// White space as Unicode has it.
pub open spec fn white(c: char) -> bool {
    let n = c as int;
    9 <= n <= 13 || n == 32 || n == 133 || n == 160 || n == 5760 || 8192 <= n <= 8202 || n == 8232
        || n == 8233 || n == 8239 || n == 8287 || n == 12288
}

/// No character is white space.
pub open spec fn solid(s: Seq<char>) -> bool {
    forall|i: int| 0 <= i < s.len() ==> !white(#[trigger] s[i])
}

/// Every character is white space.
pub open spec fn hollow(s: Seq<char>) -> bool {
    forall|i: int| 0 <= i < s.len() ==> white(#[trigger] s[i])
}

/// Characters are told from white space.
pub proof fn white_space_is_that_of_unicode(c: char, b: bool)
    requires
        call_ensures(char_is_space, (c,), b),
    ensures
        b == white(c),
{
}

/// What trimming does at the start.
pub proof fn start_is_trimmed(a: Seq<char>, s: Seq<char>)
    requires
        hollow(a),
        s.len() == 0 || !white(s[0]),
    ensures
        trim_start(a + s) == s,
    decreases a.len(),
{
    let t = a + s;
    if a.len() > 0 {
        assert(white(a[0]));
        assert(is_space(t[0]));
        let b = a.skip(1);
        assert(t.skip(1) =~= b + s);
        assert forall|i: int| 0 <= i < b.len() implies white(#[trigger] b[i]) by {
            assert(white(a[i + 1]));
        }
        start_is_trimmed(b, s);
    } else {
        assert(t =~= s);
        if s.len() > 0 {
            assert(!is_space(s[0]));
        }
    }
}

/// What trimming does at the end.
pub proof fn end_is_trimmed(s: Seq<char>, b: Seq<char>)
    requires
        hollow(b),
        s.len() == 0 || !white(s.last()),
    ensures
        trim_end(s + b) == s,
    decreases b.len(),
{
    let t = s + b;
    if b.len() > 0 {
        assert(white(b[b.len() - 1]));
        assert(is_space(t.last()));
        let c = b.drop_last();
        assert(t.drop_last() =~= s + c);
        assert forall|i: int| 0 <= i < c.len() implies white(#[trigger] c[i]) by {
            assert(white(b[i]));
        }
        end_is_trimmed(s, c);
    } else {
        assert(t =~= s);
        if s.len() > 0 {
            assert(!is_space(s.last()));
        }
    }
}

/// What trimming leaves.
pub proof fn trimmed(before: Seq<char>, core: Seq<char>, after: Seq<char>)
    requires
        hollow(before),
        hollow(after),
        core.len() == 0 || !white(core[0]) && !white(core.last()),
    ensures
        trim(before + core + after) == core,
{
    let all = before + core + after;
    if core.len() > 0 {
        assert(all =~= before + (core + after));
        start_is_trimmed(before, core + after);
        end_is_trimmed(core, after);
    } else {
        assert forall|i: int| 0 <= i < all.len() implies white(#[trigger] all[i]) by {
            if i < before.len() {
                assert(all[i] == before[i]);
            } else {
                assert(all[i] == after[i - before.len()]);
            }
        }
        assert(all =~= all + Seq::<char>::empty());
        start_is_trimmed(all, Seq::empty());
        assert(core =~= Seq::<char>::empty());
    }
}

/// Trimming takes the white space off both ends, and nothing else.
pub proof fn trimming_takes_white_space_off_both_ends(
    v: &[char],
    before: Seq<char>,
    core: Seq<char>,
    after: Seq<char>,
    r: Vec<char>,
)
    requires
        call_ensures(trim_chars, (v,), r),
        v@ == before + core + after,
        hollow(before),
        hollow(after),
        core.len() == 0 || !white(core[0]) && !white(core.last()),
    ensures
        r@ == core,
{
    trimmed(before, core, after);
}

proof fn word_length(w: Seq<char>, rest: Seq<char>)
    requires
        solid(w),
        rest.len() == 0 || white(rest[0]),
    ensures
        word_len(w + rest) == w.len(),
    decreases w.len(),
{
    let t = w + rest;
    if w.len() > 0 {
        assert(!white(w[0]));
        assert(!is_space(t[0]));
        let u = w.skip(1);
        assert(t.skip(1) =~= u + rest);
        assert forall|i: int| 0 <= i < u.len() implies !white(#[trigger] u[i]) by {
            assert(!white(w[i + 1]));
        }
        word_length(u, rest);
    } else {
        assert(t =~= rest);
        if rest.len() > 0 {
            assert(is_space(rest[0]));
        }
    }
}

proof fn first_word(before: Seq<char>, w: Seq<char>, rest: Seq<char>)
    requires
        hollow(before),
        solid(w),
        w.len() > 0,
        rest.len() == 0 || white(rest[0]),
    ensures
        words(before + w + rest) == seq![w] + words(rest),
    decreases before.len(),
{
    let t = before + w + rest;
    if before.len() > 0 {
        assert(white(before[0]));
        assert(is_space(t[0]));
        let b = before.skip(1);
        assert(t.skip(1) =~= b + w + rest);
        assert forall|i: int| 0 <= i < b.len() implies white(#[trigger] b[i]) by {
            assert(white(before[i + 1]));
        }
        first_word(b, w, rest);
    } else {
        assert(t =~= w + rest);
        assert(!white(w[0]));
        assert(!is_space(t[0]));
        word_length(w, rest);
        assert(t.take(w.len() as int) =~= w);
        assert(t.skip(w.len() as int) =~= rest);
    }
}

/// Words are what white space separates: behind white space, the first word
/// goes up to the next, and the others follow as they would without it.
pub proof fn words_are_what_white_space_separates(
    v: &[char],
    before: Seq<char>,
    w: Seq<char>,
    tail: &[char],
    r: Vec<Vec<char>>,
    others: Vec<Vec<char>>,
)
    requires
        call_ensures(split_words, (v,), r),
        call_ensures(split_words, (tail,), others),
        v@ == before + w + tail@,
        hollow(before),
        solid(w),
        w.len() > 0,
        tail@.len() == 0 || white(tail@[0]),
    ensures
        r@.len() == others@.len() + 1,
        r@[0]@ == w,
        forall|i: int| 0 <= i < others@.len() ==> (#[trigger] others@[i])@ == r@[i + 1]@,
{
    first_word(before, w, tail@);
    let a = chars_views(r@);
    let b = chars_views(others@);
    assert(a.len() == r@.len() && b.len() == others@.len());
    assert(a[0] == r@[0]@);
    assert forall|i: int| 0 <= i < others@.len() implies (#[trigger] others@[i])@ == r@[i
        + 1]@ by {
        assert(b[i] == others@[i]@);
        assert(a[i + 1] == r@[i + 1]@);
    }
}

proof fn no_words(s: Seq<char>)
    requires
        hollow(s),
    ensures
        words(s).len() == 0,
    decreases s.len(),
{
    if s.len() > 0 {
        assert(white(s[0]));
        assert(is_space(s[0]));
        let t = s.skip(1);
        assert forall|i: int| 0 <= i < t.len() implies white(#[trigger] t[i]) by {
            assert(white(s[i + 1]));
        }
        no_words(t);
    }
}

/// White space alone holds no words.
pub proof fn white_space_holds_no_words(v: &[char], r: Vec<Vec<char>>)
    requires
        call_ensures(split_words, (v,), r),
        hollow(v@),
    ensures
        r@.len() == 0,
{
    no_words(v@);
    assert(chars_views(r@).len() == r@.len());
}

/// Where a character stands first.
pub proof fn first_at(s: Seq<char>, c: char)
    ensures
        0 <= index_of(s, c) <= s.len(),
        index_of(s, c) < s.len() ==> s[index_of(s, c)] == c,
        forall|j: int| 0 <= j < index_of(s, c) ==> #[trigger] s[j] != c,
    decreases s.len(),
{
    if s.len() > 0 && s[0] != c {
        let t = s.skip(1);
        first_at(t, c);
        assert forall|j: int| 0 <= j < index_of(s, c) implies #[trigger] s[j] != c by {
            if j > 0 {
                assert(s[j] == t[j - 1]);
            }
        }
    }
}

/// A character is found where it stands first; behind the end if nowhere.
pub proof fn characters_are_found_where_they_stand_first(v: &[char], c: char, i: usize)
    requires
        call_ensures(find_char, (v, c), i),
    ensures
        i <= v@.len(),
        i < v@.len() ==> v@[i as int] == c,
        forall|j: int| 0 <= j < i ==> #[trigger] v@[j] != c,
{
    first_at(v@, c);
}

/// Lines are what line feeds end: the first goes up to the first line feed,
/// and the others follow; a text without one is a line of its own, and an
/// empty text is none.
pub proof fn lines_are_what_line_feeds_end(
    v: &[char],
    line: Seq<char>,
    tail: &[char],
    r: Vec<Vec<char>>,
    others: Vec<Vec<char>>,
)
    requires
        call_ensures(split_lines, (v,), r),
        call_ensures(split_lines, (tail,), others),
        forall|i: int| 0 <= i < line.len() ==> #[trigger] line[i] != '\n',
    ensures
        v@ == line + seq!['\n'] + tail@ ==> {
            &&& r@.len() == others@.len() + 1
            &&& r@[0]@ == line
            &&& forall|i: int| 0 <= i < others@.len() ==> (#[trigger] others@[i])@ == r@[i + 1]@
        },
        v@ == line && line.len() > 0 ==> r@.len() == 1 && r@[0]@ == line,
        v@.len() == 0 ==> r@.len() == 0,
{
    let a = chars_views(r@);
    let b = chars_views(others@);
    assert(a.len() == r@.len() && b.len() == others@.len());
    let i = index_of(v@, '\n');
    first_at(v@, '\n');
    if v@ == line + seq!['\n'] + tail@ {
        let n = line.len() as int;
        assert(v@[n] == '\n');
        if i < n {
            assert(v@[i] == line[i]);
        }
        if i > n {
            assert(v@[n] != '\n');
        }
        assert(v@.take(n) =~= line);
        assert(v@.skip(n + 1) =~= tail@);
        assert(a[0] == r@[0]@);
        assert forall|k: int| 0 <= k < others@.len() implies (#[trigger] others@[k])@ == r@[k
            + 1]@ by {
            assert(b[k] == others@[k]@);
            assert(a[k + 1] == r@[k + 1]@);
        }
    } else if v@ == line && line.len() > 0 {
        if i < line.len() {
            assert(line[i] != '\n');
        }
        assert(a[0] == r@[0]@);
    }
}

/// A letter without its case.
pub open spec fn caseless(c: char) -> int {
    if 'A' <= c && c <= 'Z' {
        c as int + 32
    } else {
        c as int
    }
}

/// Texts are the same where all characters are; without case, where all are
/// but for the case of the letters of ASCII.
pub proof fn texts_compare_character_by_character(a: &str, b: &str, r: bool, q: bool)
    requires
        call_ensures(same_text, (a, b), r),
        call_ensures(same_text_ignoring_case, (a, b), q),
    ensures
        r <==> a@ == b@,
        q <==> a@.len() == b@.len() && forall|i: int|
            0 <= i < a@.len() ==> caseless(#[trigger] a@[i]) == caseless(b@[i]),
{
    assert forall|x: char, y: char|
        #[trigger] crate::common::text::same_letter(x, y) <==> caseless(x) == caseless(y) by {}
    if a@.len() == b@.len() {
        if q {
            assert forall|i: int| 0 <= i < a@.len() implies caseless(#[trigger] a@[i])
                == caseless(b@[i]) by {
                assert(crate::common::text::same_letter(a@[i], b@[i]));
            }
        }
        if forall|i: int|
            0 <= i < a@.len() ==> caseless(#[trigger] a@[i]) == caseless(b@[i]) {
            assert forall|i: int| 0 <= i < a@.len() implies crate::common::text::same_letter(
                #[trigger] a@[i],
                b@[i],
            ) by {
                assert(caseless(a@[i]) == caseless(b@[i]));
            }
        }
    }
}

} // verus!
