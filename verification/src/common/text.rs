//! Text as sequences of characters: decimal numbers, white space, words and
//! lines.

use vstd::prelude::*;

verus! {

/// `String::push` appends one character to a string.
pub assume_specification[ String::push ](s: &mut String, c: char)
    ensures
        final(s)@ == old(s)@.push(c),
;

/// The characters of a string, one by one.
pub fn to_chars(s: &str) -> (v: Vec<char>)
    ensures
        v@ == s@,
{
    let mut v: Vec<char> = Vec::new();
    let n: usize = s.unicode_len();
    let mut i: usize = 0;
    while i < n
        invariant
            i <= n,
            n == s@.len(),
            v@ == s@.take(i as int),
        decreases n - i,
    {
        let c = s.get_char(i);
        v.push(c);
        proof {
            assert(s@.take(i as int + 1) == s@.take(i as int).push(s@[i as int]));
        }
        i = i + 1;
    }
    proof {
        assert(s@.take(n as int) == s@);
    }
    v
}

/// The string made of the given characters.
pub fn from_chars(chars: &[char]) -> (s: String)
    ensures
        s@ == chars@,
{
    let mut s = String::new();
    push_chars(&mut s, chars);
    s
}

/// Appends characters to a string.
pub fn push_chars(s: &mut String, chars: &[char])
    ensures
        final(s)@ == old(s)@ + chars@,
{
    let mut i: usize = 0;
    while i < chars.len()
        invariant
            i <= chars.len(),
            s@ == old(s)@ + chars@.take(i as int),
        decreases chars.len() - i,
    {
        s.push(chars[i]);
        proof {
            assert(chars@.take(i as int + 1) == chars@.take(i as int).push(chars@[i as int]));
        }
        i = i + 1;
    }
    proof {
        assert(chars@.take(chars@.len() as int) == chars@);
    }
}

/// The characters of `v` from `start` up to `end`.
pub fn slice_chars(v: &[char], start: usize, end: usize) -> (r: Vec<char>)
    requires
        start <= end <= v@.len(),
    ensures
        r@ == v@.subrange(start as int, end as int),
{
    let mut r: Vec<char> = Vec::new();
    let mut i: usize = start;
    while i < end
        invariant
            start <= i <= end <= v@.len(),
            r@ == v@.subrange(start as int, i as int),
        decreases end - i,
    {
        r.push(v[i]);
        proof {
            assert(v@.subrange(start as int, i as int + 1) == v@.subrange(
                start as int,
                i as int,
            ).push(v@[i as int]));
        }
        i = i + 1;
    }
    r
}

// ---------------------------------------------------------------------
// Decimal numbers.

/// The character of a digit.
pub open spec fn digit_char(d: int) -> char {
    if d == 0 {
        '0'
    } else if d == 1 {
        '1'
    } else if d == 2 {
        '2'
    } else if d == 3 {
        '3'
    } else if d == 4 {
        '4'
    } else if d == 5 {
        '5'
    } else if d == 6 {
        '6'
    } else if d == 7 {
        '7'
    } else if d == 8 {
        '8'
    } else {
        '9'
    }
}

/// The decimal notation of a number, without leading zeros.
pub open spec fn decimal(n: nat) -> Seq<char>
    decreases n,
{
    if n < 10 {
        seq![digit_char(n as int)]
    } else {
        decimal(n / 10).push(digit_char((n % 10) as int))
    }
}

fn digit_to_char(d: u8) -> (c: char)
    requires
        d < 10,
    ensures
        c == digit_char(d as int),
{
    match d {
        0 => '0',
        1 => '1',
        2 => '2',
        3 => '3',
        4 => '4',
        5 => '5',
        6 => '6',
        7 => '7',
        8 => '8',
        _ => '9',
    }
}

/// Appends a digit.
pub fn push_digit(s: &mut String, d: u8)
    requires
        d < 10,
    ensures
        final(s)@ == old(s)@.push(digit_char(d as int)),
{
    s.push(digit_to_char(d));
}

/// Appends the decimal notation of `n`.
pub fn push_decimal(s: &mut String, n: u128)
    ensures
        final(s)@ == old(s)@ + decimal(n as nat),
    decreases n,
{
    if n < 10 {
        s.push(digit_to_char(n as u8));
        proof {
            assert(old(s)@.push(digit_char(n as int)) == old(s)@ + seq![digit_char(n as int)]);
        }
    } else {
        push_decimal(s, n / 10);
        s.push(digit_to_char((n % 10) as u8));
        proof {
            let head = decimal((n / 10) as nat);
            let d = digit_char((n % 10) as int);
            assert((n as nat) / 10 == (n / 10) as nat);
            assert((old(s)@ + head).push(d) == old(s)@ + head.push(d));
        }
    }
}

/// The decimal notation of `n`.
pub fn to_decimal(n: u128) -> (s: String)
    ensures
        s@ == decimal(n as nat),
{
    let mut s = String::new();
    push_decimal(&mut s, n);
    proof {
        assert(Seq::<char>::empty() + decimal(n as nat) == decimal(n as nat));
    }
    s
}

// ---------------------------------------------------------------------
// Reading numbers.

/// Why a text is no number.
#[derive(Debug, Clone, Copy, PartialEq, Eq, Structural)]
pub enum NumberError {
    Empty,
    InvalidDigit,
    TooLarge,
}

/// The value of a digit in the given radix, letters of either case counting
/// on from ten.
pub open spec fn digit_value(c: char, radix: int) -> Option<int> {
    let v: int = if '0' <= c && c <= '9' {
        c as int - '0' as int
    } else if 'a' <= c && c <= 'z' {
        c as int - 'a' as int + 10
    } else if 'A' <= c && c <= 'Z' {
        c as int - 'A' as int + 10
    } else {
        radix
    };
    if v < radix {
        Some(v)
    } else {
        None
    }
}

/// Reads the digits of `s` from the left, behind a number that already
/// stands at `acc`. The first digit that is none, or that would take the
/// number past `max`, decides the error.
pub open spec fn digits_from(s: Seq<char>, radix: int, acc: int, max: int) -> Result<
    int,
    NumberError,
>
    decreases s.len(),
{
    if s.len() == 0 {
        Ok(acc)
    } else {
        match digit_value(s[0], radix) {
            None => Err(NumberError::InvalidDigit),
            Some(d) => if acc * radix + d > max {
                Err(NumberError::TooLarge)
            } else {
                digits_from(s.skip(1), radix, acc * radix + d, max)
            },
        }
    }
}

/// The number that `s` writes in the given radix: digits behind an optional
/// plus sign, no larger than `max`.
pub open spec fn number(s: Seq<char>, radix: int, max: int) -> Result<int, NumberError> {
    if s.len() == 0 {
        Err(NumberError::Empty)
    } else if s == seq!['+'] {
        Err(NumberError::InvalidDigit)
    } else if s[0] == '+' {
        digits_from(s.skip(1), radix, 0, max)
    } else {
        digits_from(s, radix, 0, max)
    }
}

fn char_to_digit(c: char, radix: u32) -> (r: Option<u32>)
    requires
        2 <= radix <= 36,
    ensures
        match r {
            Some(d) => digit_value(c, radix as int) == Some(d as int) && d < radix,
            None => digit_value(c, radix as int) is None,
        },
{
    let v: u32 = if '0' <= c && c <= '9' {
        c as u32 - '0' as u32
    } else if 'a' <= c && c <= 'z' {
        c as u32 - 'a' as u32 + 10
    } else if 'A' <= c && c <= 'Z' {
        c as u32 - 'A' as u32 + 10
    } else {
        radix
    };
    if v < radix {
        Some(v)
    } else {
        None
    }
}

/// Reads a number in the given radix, as `from_str_radix` of the unsigned
/// integer types does.
pub fn parse_number(s: &[char], radix: u32, max: u64) -> (r: Result<u64, NumberError>)
    requires
        2 <= radix <= 36,
    ensures
        match r {
            Ok(v) => number(s@, radix as int, max as int) == Ok::<int, NumberError>(v as int) && v
                <= max,
            Err(e) => number(s@, radix as int, max as int) == Err::<int, NumberError>(e),
        },
{
    if s.len() == 0 {
        return Err(NumberError::Empty);
    }
    let mut i: usize = 0;
    if s[0] == '+' {
        if s.len() == 1 {
            proof {
                assert(s@ =~= seq!['+']);
            }
            return Err(NumberError::InvalidDigit);
        }
        i = 1;
    }
    let ghost start = i as int;
    proof {
        assert(s@.skip(0) == s@);
        if s@.len() > 1 {
            assert(s@ != seq!['+']);
        }
    }
    let mut acc: u64 = 0;
    while i < s.len()
        invariant
            start <= i <= s.len(),
            2 <= radix <= 36,
            acc <= max,
            digits_from(s@.skip(i as int), radix as int, acc as int, max as int) == digits_from(
                s@.skip(start),
                radix as int,
                0,
                max as int,
            ),
            number(s@, radix as int, max as int) == digits_from(
                s@.skip(start),
                radix as int,
                0,
                max as int,
            ),
        decreases s.len() - i,
    {
        proof {
            assert(s@.skip(i as int).skip(1) == s@.skip(i as int + 1));
            assert(acc * radix <= 0xffff_ffff_ffff_ffff * 36) by (nonlinear_arith)
                requires
                    acc <= 0xffff_ffff_ffff_ffff,
                    radix <= 36,
            ;
        }
        match char_to_digit(s[i], radix) {
            None => {
                return Err(NumberError::InvalidDigit);
            },
            Some(d) => {
                let next: u128 = acc as u128 * radix as u128 + d as u128;
                if next > max as u128 {
                    return Err(NumberError::TooLarge);
                }
                acc = next as u64;
            },
        }
        i = i + 1;
    }
    Ok(acc)
}

/// What the standard library says of a text that is no number.
pub open spec fn number_error_text(e: NumberError) -> Seq<char> {
    match e {
        NumberError::Empty => "cannot parse integer from empty string"@,
        NumberError::InvalidDigit => "invalid digit found in string"@,
        NumberError::TooLarge => "number too large to fit in target type"@,
    }
}

pub fn number_error_message(e: NumberError) -> (s: &'static str)
    ensures
        s@ == number_error_text(e),
{
    match e {
        NumberError::Empty => "cannot parse integer from empty string",
        NumberError::InvalidDigit => "invalid digit found in string",
        NumberError::TooLarge => "number too large to fit in target type",
    }
}

proof fn decimal_digit_value(d: int)
    requires
        0 <= d < 10,
    ensures
        digit_value(digit_char(d), 10) == Some(d),
        digit_char(d) != '+',
{
}

/// Reading from the left can be cut anywhere.
proof fn digits_split(a: Seq<char>, c: char, radix: int, acc: int, max: int)
    ensures
        digits_from(a.push(c), radix, acc, max) == (match digits_from(a, radix, acc, max) {
            Err(e) => Err::<int, NumberError>(e),
            Ok(v) => digits_from(seq![c], radix, v, max),
        }),
    decreases a.len(),
{
    let s = a.push(c);
    if a.len() == 0 {
        assert(s =~= seq![c]);
    } else {
        assert(s[0] == a[0]);
        assert(s.skip(1) =~= a.skip(1).push(c));
        match digit_value(a[0], radix) {
            None => {},
            Some(d) => {
                if acc * radix + d <= max {
                    digits_split(a.skip(1), c, radix, acc * radix + d, max);
                }
            },
        }
    }
}

proof fn decimal_reads_back(n: nat, max: int)
    requires
        n <= max,
    ensures
        digits_from(decimal(n), 10, 0, max) == Ok::<int, NumberError>(n as int),
        decimal(n).len() > 0,
        decimal(n)[0] != '+',
    decreases n,
{
    reveal_with_fuel(digits_from, 3);
    if n < 10 {
        decimal_digit_value(n as int);
        assert(decimal(n).skip(1) =~= Seq::<char>::empty());
    } else {
        let head = decimal(n / 10);
        let d = (n % 10) as int;
        decimal_reads_back(n / 10, max);
        decimal_digit_value(d);
        digits_split(head, digit_char(d), 10, 0, max);
        assert(seq![digit_char(d)].skip(1) =~= Seq::<char>::empty());
        assert(decimal(n)[0] == head[0]);
    }
}

/// Reading what was written gives the number back: every number up to `max`
/// survives its decimal notation.
pub proof fn decimal_round_trip(n: nat, max: int)
    requires
        n <= max,
    ensures
        number(decimal(n), 10, max) == Ok::<int, NumberError>(n as int),
{
    decimal_reads_back(n, max);
    if decimal(n) == seq!['+'] {
        assert(decimal(n)[0] == '+');
    }
}

/// The decimal notation is made of digits.
pub proof fn decimal_is_digits(n: nat)
    ensures
        decimal(n).len() > 0,
        forall|i: int| 0 <= i < decimal(n).len() ==> '0' <= #[trigger] decimal(n)[i] && decimal(
            n,
        )[i] <= '9',
    decreases n,
{
    if n >= 10 {
        decimal_is_digits(n / 10);
    }
}

// ---------------------------------------------------------------------
// White space and words.

/// White space as Unicode defines it.
pub open spec fn is_space(c: char) -> bool {
    ||| '\u{9}' <= c && c <= '\u{d}'
    ||| c == ' '
    ||| c == '\u{85}'
    ||| c == '\u{a0}'
    ||| c == '\u{1680}'
    ||| '\u{2000}' <= c && c <= '\u{200a}'
    ||| c == '\u{2028}'
    ||| c == '\u{2029}'
    ||| c == '\u{202f}'
    ||| c == '\u{205f}'
    ||| c == '\u{3000}'
}

pub fn char_is_space(c: char) -> (b: bool)
    ensures
        b == is_space(c),
{
    ('\u{9}' <= c && c <= '\u{d}') || c == ' ' || c == '\u{85}' || c == '\u{a0}' || c == '\u{1680}'
        || ('\u{2000}' <= c && c <= '\u{200a}') || c == '\u{2028}' || c == '\u{2029}' || c
        == '\u{202f}' || c == '\u{205f}' || c == '\u{3000}'
}

/// The text without the white space in front of it.
pub open spec fn trim_start(s: Seq<char>) -> Seq<char>
    decreases s.len(),
{
    if s.len() > 0 && is_space(s[0]) {
        trim_start(s.skip(1))
    } else {
        s
    }
}

/// The text without the white space behind it.
pub open spec fn trim_end(s: Seq<char>) -> Seq<char>
    decreases s.len(),
{
    if s.len() > 0 && is_space(s.last()) {
        trim_end(s.drop_last())
    } else {
        s
    }
}

/// The text without the white space around it.
pub open spec fn trim(s: Seq<char>) -> Seq<char> {
    trim_end(trim_start(s))
}

pub fn trim_chars(v: &[char]) -> (r: Vec<char>)
    ensures
        r@ == trim(v@),
{
    let mut start: usize = 0;
    proof {
        assert(v@.skip(0) == v@);
    }
    while start < v.len() && char_is_space(v[start])
        invariant
            start <= v.len(),
            trim_start(v@.skip(start as int)) == trim_start(v@),
        decreases v.len() - start,
    {
        proof {
            assert(v@.skip(start as int).skip(1) == v@.skip(start as int + 1));
        }
        start = start + 1;
    }
    let ghost rest = v@.skip(start as int);
    proof {
        assert(trim_start(rest) == rest);
    }
    let mut end: usize = v.len();
    proof {
        assert(v@.subrange(start as int, end as int) == rest);
    }
    while end > start && char_is_space(v[end - 1])
        invariant
            start <= end <= v.len(),
            trim_end(v@.subrange(start as int, end as int)) == trim_end(rest),
        decreases end,
    {
        proof {
            let cur = v@.subrange(start as int, end as int);
            assert(cur.last() == v@[end - 1]);
            assert(cur.drop_last() == v@.subrange(start as int, end as int - 1));
        }
        end = end - 1;
    }
    proof {
        let cur = v@.subrange(start as int, end as int);
        if cur.len() > 0 {
            assert(cur.last() == v@[end - 1]);
        }
        assert(trim_end(cur) == cur);
    }
    slice_chars(v, start, end)
}

/// How many characters of `s` come before the first white space.
pub open spec fn word_len(s: Seq<char>) -> int
    decreases s.len(),
{
    if s.len() == 0 || is_space(s[0]) {
        0
    } else {
        1 + word_len(s.skip(1))
    }
}

pub proof fn word_len_bound(s: Seq<char>)
    ensures
        0 <= word_len(s) <= s.len(),
    decreases s.len(),
{
    if s.len() > 0 && !is_space(s[0]) {
        word_len_bound(s.skip(1));
    }
}

/// The words of a text: its longest runs without white space, in order.
pub open spec fn words(s: Seq<char>) -> Seq<Seq<char>>
    decreases s.len(),
{
    if s.len() == 0 {
        seq![]
    } else if is_space(s[0]) {
        words(s.skip(1))
    } else {
        let n = word_len(s);
        if 0 < n <= s.len() {
            seq![s.take(n)] + words(s.skip(n))
        } else {
            seq![]
        }
    }
}

/// The texts of a list, as sequences of characters.
pub open spec fn chars_views(v: Seq<Vec<char>>) -> Seq<Seq<char>> {
    v.map_values(|w: Vec<char>| w@)
}

pub fn split_words(v: &[char]) -> (r: Vec<Vec<char>>)
    ensures
        chars_views(r@) == words(v@),
{
    let mut r: Vec<Vec<char>> = Vec::new();
    let mut i: usize = 0;
    proof {
        assert(v@.skip(0) == v@);
        assert(chars_views(r@) + words(v@) =~= words(v@));
    }
    while i < v.len()
        invariant
            i <= v.len(),
            chars_views(r@) + words(v@.skip(i as int)) == words(v@),
        decreases v.len() - i,
    {
        let ghost rest = v@.skip(i as int);
        if char_is_space(v[i]) {
            proof {
                assert(rest.skip(1) == v@.skip(i as int + 1));
            }
            i = i + 1;
        } else {
            let mut j: usize = i;
            proof {
                assert(v@.skip(j as int) == rest);
            }
            while j < v.len() && !char_is_space(v[j])
                invariant
                    i <= j <= v.len(),
                    rest == v@.skip(i as int),
                    word_len(rest) == (j - i) + word_len(v@.skip(j as int)),
                decreases v.len() - j,
            {
                proof {
                    assert(v@.skip(j as int).skip(1) == v@.skip(j as int + 1));
                }
                j = j + 1;
            }
            proof {
                word_len_bound(rest);
                assert(word_len(v@.skip(j as int)) == 0);
                assert(word_len(rest) == j - i);
                assert(word_len(rest) > 0);
                assert(rest.skip(j - i) == v@.skip(j as int));
                assert(rest.take(j - i) == v@.subrange(i as int, j as int));
            }
            let ghost before = chars_views(r@);
            r.push(slice_chars(v, i, j));
            proof {
                let word = v@.subrange(i as int, j as int);
                assert(chars_views(r@) == before.push(word));
                assert(before.push(word) + words(v@.skip(j as int)) == before + (seq![word] + words(
                    v@.skip(j as int),
                )));
            }
            i = j;
        }
    }
    proof {
        assert(v@.skip(v@.len() as int) == Seq::<char>::empty());
        assert(chars_views(r@) + words(Seq::<char>::empty()) =~= chars_views(r@));
    }
    r
}

// ---------------------------------------------------------------------
// Splitting.

/// Where `c` stands first, or the length of the text where it stands nowhere.
pub open spec fn index_of(s: Seq<char>, c: char) -> int
    decreases s.len(),
{
    if s.len() == 0 || s[0] == c {
        0
    } else {
        1 + index_of(s.skip(1), c)
    }
}

pub proof fn index_of_bounds(s: Seq<char>, c: char)
    ensures
        0 <= index_of(s, c) <= s.len(),
        index_of(s, c) < s.len() ==> s[index_of(s, c)] == c,
        forall|i: int| 0 <= i < index_of(s, c) ==> s[i] != c,
    decreases s.len(),
{
    if s.len() > 0 && s[0] != c {
        let rest = s.skip(1);
        index_of_bounds(rest, c);
        assert forall|i: int| 0 <= i < index_of(s, c) implies s[i] != c by {
            if i > 0 {
                assert(s[i] == rest[i - 1]);
            }
        }
    }
}

/// A text without `c`, then `c`: that is where it stands first.
pub proof fn index_of_joined(a: Seq<char>, c: char, b: Seq<char>)
    requires
        !a.contains(c),
    ensures
        index_of(a + seq![c] + b, c) == a.len(),
        (a + seq![c] + b).take(a.len() as int) == a,
        (a + seq![c] + b).skip(a.len() as int + 1) == b,
{
    let s = a + seq![c] + b;
    index_of_bounds(s, c);
    let i = index_of(s, c);
    assert(s[a.len() as int] == c);
    if i < a.len() {
        assert(s[i] == a[i]);
        assert(a.contains(a[i]));
    }
    assert(s.take(a.len() as int) =~= a);
    assert(s.skip(a.len() as int + 1) =~= b);
}

/// Where `c` stands first.
pub fn find_char(v: &[char], c: char) -> (i: usize)
    ensures
        i == index_of(v@, c),
        i <= v@.len(),
{
    let mut i: usize = 0;
    proof {
        assert(v@.skip(0) =~= v@);
    }
    while i < v.len() && v[i] != c
        invariant
            i <= v.len(),
            index_of(v@, c) == i + index_of(v@.skip(i as int), c),
        decreases v.len() - i,
    {
        proof {
            assert(v@.skip(i as int).skip(1) =~= v@.skip(i as int + 1));
        }
        i = i + 1;
    }
    i
}

/// The lines of a text: what stands between line feeds. Nothing stands
/// behind the last one.
pub open spec fn lines(s: Seq<char>) -> Seq<Seq<char>>
    decreases s.len(),
{
    if s.len() == 0 {
        seq![]
    } else {
        let i = index_of(s, '\n');
        if 0 <= i < s.len() {
            seq![s.take(i)] + lines(s.skip(i + 1))
        } else {
            seq![s]
        }
    }
}

/// The lines of a text.
pub fn split_lines(v: &[char]) -> (r: Vec<Vec<char>>)
    ensures
        chars_views(r@) == lines(v@),
{
    let mut r: Vec<Vec<char>> = Vec::new();
    let mut start: usize = 0;
    proof {
        assert(v@.skip(0) =~= v@);
        assert(chars_views(r@) + lines(v@) =~= lines(v@));
    }
    while start < v.len()
        invariant
            start <= v.len(),
            chars_views(r@) + lines(v@.skip(start as int)) == lines(v@),
        decreases v.len() - start,
    {
        let ghost before = chars_views(r@);
        let rest = slice_chars(v, start, v.len());
        proof {
            assert(rest@ =~= v@.skip(start as int));
        }
        let i: usize = find_char(&rest, '\n');
        let line = slice_chars(&rest, 0, i);
        proof {
            assert(line@ =~= rest@.take(i as int));
        }
        r.push(line);
        proof {
            assert(chars_views(r@) =~= before.push(line@));
        }
        if i < rest.len() {
            proof {
                assert(rest@.skip(i as int + 1) =~= v@.skip(start + i + 1));
                assert(before.push(line@) + lines(v@.skip(start + i + 1)) =~= before + (
                seq![line@] + lines(v@.skip(start + i + 1))));
            }
            start = start + i + 1;
        } else {
            proof {
                assert(line@ =~= rest@);
                assert(v@.skip(v@.len() as int) =~= Seq::<char>::empty());
                assert(before.push(line@) + lines(Seq::<char>::empty()) =~= before + seq![line@]);
            }
            start = v.len();
        }
    }
    proof {
        assert(v@.skip(v@.len() as int) =~= Seq::<char>::empty());
        assert(chars_views(r@) + lines(Seq::<char>::empty()) =~= chars_views(r@));
    }
    r
}

/// Whether two texts are the same.
pub fn same_text(a: &str, b: &str) -> (r: bool)
    ensures
        r == (a@ == b@),
{
    let n: usize = a.unicode_len();
    if n != b.unicode_len() {
        return false;
    }
    let mut i: usize = 0;
    while i < n
        invariant
            i <= n,
            n == a@.len(),
            n == b@.len(),
            forall|j: int| 0 <= j < i ==> a@[j] == b@[j],
        decreases n - i,
    {
        if a.get_char(i) != b.get_char(i) {
            return false;
        }
        i = i + 1;
    }
    proof {
        assert(a@ =~= b@);
    }
    true
}

/// Two characters are the same up to the case of ASCII letters.
pub open spec fn same_letter(a: char, b: char) -> bool {
    ||| a == b
    ||| 'a' <= a && a <= 'z' && b as int == a as int - 32
    ||| 'a' <= b && b <= 'z' && a as int == b as int - 32
}

/// Two texts are the same up to the case of ASCII letters.
pub open spec fn same_ignoring_case(a: Seq<char>, b: Seq<char>) -> bool {
    &&& a.len() == b.len()
    &&& forall|i: int| 0 <= i < a.len() ==> same_letter(#[trigger] a[i], b[i])
}

/// Whether two texts are the same up to the case of ASCII letters.
pub fn same_text_ignoring_case(a: &str, b: &str) -> (r: bool)
    ensures
        r == same_ignoring_case(a@, b@),
{
    let n: usize = a.unicode_len();
    if n != b.unicode_len() {
        return false;
    }
    let mut i: usize = 0;
    while i < n
        invariant
            i <= n,
            n == a@.len(),
            n == b@.len(),
            forall|j: int| 0 <= j < i ==> same_letter(#[trigger] a@[j], b@[j]),
        decreases n - i,
    {
        let x = a.get_char(i);
        let y = b.get_char(i);
        let same = x == y || ('a' <= x && x <= 'z' && y as u32 == x as u32 - 32) || ('a' <= y && y
            <= 'z' && x as u32 == y as u32 - 32);
        if !same {
            proof {
                assert(!same_letter(a@[i as int], b@[i as int]));
            }
            return false;
        }
        i = i + 1;
    }
    true
}

} // verus!
