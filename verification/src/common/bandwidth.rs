//! Rates, sizes and type-of-service values as they stand on the command line.
//!
//! A rate (`-b`) is an integer number of bits per second with an optional
//! K, M or G in units of a thousand. A size (`-w`, `-n`) takes the same
//! letters in units of 1024. The empty text is 0, which means unlimited.

use vstd::prelude::*;
use vstd::string::StringExecFns;

use super::text::{number, number_error_message, number_error_text, parse_number, slice_chars};
use super::text::{push_decimal, to_chars, NumberError, decimal};

verus! {

/// Why a text is no rate or size.
#[derive(Debug, Clone, Copy, PartialEq, Eq, Structural)]
pub enum ScaleError {
    /// What stands before the suffix is no number.
    Number(NumberError),
    /// The number times its unit does not fit 64 bits.
    Overflow,
}

/// What the last letter of a text multiplies by, where a K stands for `unit`.
pub open spec fn multiplier(last: char, unit: int) -> Option<int> {
    if last == 'k' || last == 'K' {
        Some(unit)
    } else if last == 'm' || last == 'M' {
        Some(unit * unit)
    } else if last == 'g' || last == 'G' {
        Some(unit * unit * unit)
    } else {
        None
    }
}

/// The value of a text with an optional suffix, where a K stands for `unit`.
pub open spec fn scaled(s: Seq<char>, unit: int) -> Result<int, ScaleError> {
    if s.len() == 0 {
        Ok(0)
    } else {
        let (digits, factor) = match multiplier(s.last(), unit) {
            Some(f) => (s.drop_last(), f),
            None => (s, 1),
        };
        match number(digits, 10, u64::MAX as int) {
            Err(e) => Err(ScaleError::Number(e)),
            Ok(n) => if n * factor > u64::MAX {
                Err(ScaleError::Overflow)
            } else {
                Ok(n * factor)
            },
        }
    }
}

/// The message for a text `s` that is no `what`.
pub open spec fn scale_error_text(what: Seq<char>, s: Seq<char>, e: ScaleError) -> Seq<char> {
    match e {
        ScaleError::Number(n) => "invalid "@ + what + " '"@ + s + "': "@ + number_error_text(n),
        ScaleError::Overflow => what + " '"@ + s + "' overflows u64"@,
    }
}

fn scale_error_message(what: &str, s: &str, e: ScaleError) -> (m: String)
    ensures
        m@ == scale_error_text(what@, s@, e),
{
    match e {
        ScaleError::Number(n) => {
            let mut m = "invalid ".to_owned();
            m.append(what);
            m.append(" '");
            m.append(s);
            m.append("': ");
            m.append(number_error_message(n));
            m
        },
        ScaleError::Overflow => {
            let mut m = what.to_owned();
            m.append(" '");
            m.append(s);
            m.append("' overflows u64");
            m
        },
    }
}

fn parse_scaled(s: &str, unit: u64) -> (r: Result<u64, ScaleError>)
    requires
        1 <= unit <= 1024,
    ensures
        match r {
            Ok(v) => scaled(s@, unit as int) == Ok::<int, ScaleError>(v as int),
            Err(e) => scaled(s@, unit as int) == Err::<int, ScaleError>(e),
        },
{
    let chars = to_chars(s);
    let n: usize = chars.len();
    if n == 0 {
        return Ok(0);
    }
    let last = chars[n - 1];
    proof {
        assert(unit * unit <= 1024 * 1024) by (nonlinear_arith)
            requires
                1 <= unit <= 1024,
        ;
        assert(unit * unit * unit <= 1024 * 1024 * 1024) by (nonlinear_arith)
            requires
                1 <= unit <= 1024,
                unit * unit <= 1024 * 1024,
        ;
    }
    let (end, factor): (usize, u64) = match last {
        'k' | 'K' => (n - 1, unit),
        'm' | 'M' => (n - 1, unit * unit),
        'g' | 'G' => (n - 1, unit * unit * unit),
        _ => (n, 1),
    };
    let digits = slice_chars(&chars, 0, end);
    proof {
        assert(s@.subrange(0, n as int) == s@);
        assert(s@.subrange(0, n as int - 1) == s@.drop_last());
    }
    match parse_number(&digits, 10, u64::MAX) {
        Err(e) => Err(ScaleError::Number(e)),
        Ok(v) => match v.checked_mul(factor) {
            Some(p) => Ok(p),
            None => Err(ScaleError::Overflow),
        },
    }
}

/// Parses a byte size. Examples: "256K" is 262144, "1M" is 1048576, "1G" is
/// 1073741824, "4096" is 4096.
pub fn parse_size(s: &str) -> (r: Result<u64, String>)
    ensures
        match scaled(s@, 1024) {
            Ok(v) => r == Ok::<u64, String>(v as u64) && 0 <= v <= u64::MAX,
            Err(e) => r is Err && r->Err_0@ == scale_error_text("size"@, s@, e),
        },
{
    match parse_scaled(s, 1024) {
        Ok(v) => Ok(v),
        Err(e) => Err(scale_error_message("size", s, e)),
    }
}

/// Parses a rate in bits per second.
pub fn parse(s: &str) -> (r: Result<u64, String>)
    ensures
        match scaled(s@, 1000) {
            Ok(v) => r == Ok::<u64, String>(v as u64) && 0 <= v <= u64::MAX,
            Err(e) => r is Err && r->Err_0@ == scale_error_text("bandwidth"@, s@, e),
        },
{
    match parse_scaled(s, 1000) {
        Ok(v) => Ok(v),
        Err(e) => Err(scale_error_message("bandwidth", s, e)),
    }
}

/// How a type-of-service value is written.
#[derive(Debug, Clone, Copy, PartialEq, Eq, Structural)]
pub enum TosNotation {
    Hex,
    Octal,
    Decimal,
}

/// The notation of a text: hexadecimal behind `0x`, octal behind `0`, else
/// decimal.
pub open spec fn tos_notation(s: Seq<char>) -> TosNotation {
    if s.len() >= 2 && s[0] == '0' && (s[1] == 'x' || s[1] == 'X') {
        TosNotation::Hex
    } else if s.len() >= 2 && s[0] == '0' {
        TosNotation::Octal
    } else {
        TosNotation::Decimal
    }
}

/// The 32-bit number that a type-of-service text writes.
pub open spec fn tos_number(s: Seq<char>) -> Result<int, NumberError> {
    match tos_notation(s) {
        TosNotation::Hex => number(s.skip(2), 16, u32::MAX as int),
        TosNotation::Octal => number(s.skip(1), 8, u32::MAX as int),
        TosNotation::Decimal => number(s, 10, u32::MAX as int),
    }
}

/// The words that introduce a text which is no type-of-service value.
pub open spec fn tos_error_lead(s: Seq<char>) -> Seq<char> {
    match tos_notation(s) {
        TosNotation::Hex => "invalid TOS hex '"@,
        TosNotation::Octal => "invalid TOS octal '"@,
        TosNotation::Decimal => "invalid TOS '"@,
    }
}

/// Parses a type-of-service byte: decimal "16", hexadecimal "0x10" or octal
/// "020".
pub fn parse_tos(s: &str) -> (r: Result<u8, String>)
    ensures
        match tos_number(s@) {
            Err(e) => r is Err && r->Err_0@ == tos_error_lead(s@) + s@ + "': "@ + number_error_text(
                e,
            ),
            Ok(v) => if v > 255 {
                r is Err && r->Err_0@ == "TOS value "@ + decimal(v as nat)
                    + " out of range (0-255)"@
            } else {
                r == Ok::<u8, String>(v as u8) && 0 <= v
            },
        },
{
    let chars = to_chars(s);
    let n: usize = chars.len();
    let (start, radix, lead): (usize, u32, &str) = if n >= 2 && chars[0] == '0' && (chars[1] == 'x'
        || chars[1] == 'X') {
        (2, 16, "invalid TOS hex '")
    } else if n >= 2 && chars[0] == '0' {
        (1, 8, "invalid TOS octal '")
    } else {
        (0, 10, "invalid TOS '")
    };
    let digits = slice_chars(&chars, start, n);
    proof {
        assert(digits@ == s@.skip(start as int));
        assert(s@.skip(0) == s@);
    }
    match parse_number(&digits, radix, 0xffff_ffff) {
        Err(e) => {
            let mut m = lead.to_owned();
            m.append(s);
            m.append("': ");
            m.append(number_error_message(e));
            Err(m)
        },
        Ok(v) => {
            if v > 255 {
                let mut m = "TOS value ".to_owned();
                push_decimal(&mut m, v as u128);
                m.append(" out of range (0-255)");
                Err(m)
            } else {
                Ok(v as u8)
            }
        },
    }
}

proof fn decimal_ends_in_digit(n: nat)
    ensures
        decimal(n).len() > 0,
        '0' <= decimal(n).last() && decimal(n).last() <= '9',
{
    super::text::decimal_is_digits(n);
}

/// A number written without a suffix stands for itself, as a rate and as a
/// size.
pub proof fn plain_number_is_itself(n: u64, unit: int)
    ensures
        scaled(decimal(n as nat), unit) == Ok::<int, ScaleError>(n as int),
{
    decimal_ends_in_digit(n as nat);
    super::text::decimal_round_trip(n as nat, u64::MAX as int);
}

/// A number with a K, M or G behind it, of either case, is that many units,
/// units of units, or units of those; and it is refused exactly when that
/// does not fit 64 bits.
pub proof fn suffix_multiplies(n: u64, letter: char, unit: int)
    requires
        multiplier(letter, unit) is Some,
    ensures
        scaled(decimal(n as nat).push(letter), unit) == (if n * multiplier(letter, unit)->0
            > u64::MAX {
            Err::<int, ScaleError>(ScaleError::Overflow)
        } else {
            Ok::<int, ScaleError>(n * multiplier(letter, unit)->0)
        }),
{
    let s = decimal(n as nat).push(letter);
    assert(s.drop_last() =~= decimal(n as nat));
    super::text::decimal_round_trip(n as nat, u64::MAX as int);
}

} // verus!
