use rperf3::common::text::{
    char_is_space, from_chars, parse_number, same_text, same_text_ignoring_case, split_lines,
    split_words, to_chars, to_decimal, trim_chars, NumberError,
};

const SAMPLES: [&str; 9] = [
    "",
    " ",
    "one",
    "  two words\t",
    "a\u{a0}b\u{3000}c\u{2003}",
    "\n\nlines\n and more\r\n",
    "tail\n",
    "é ü\u{85}ß",
    "\u{200b}not a space\u{feff}",
];

fn text(v: &[char]) -> String {
    from_chars(v)
}

#[test]
fn white_space_is_that_of_unicode() {
    for c in '\0'..=char::MAX {
        assert_eq!(char_is_space(c), c.is_whitespace(), "{:?}", c);
    }
}

#[test]
fn trimming_and_splitting_agree_with_the_standard_library() {
    for s in SAMPLES {
        let chars = to_chars(s);
        assert_eq!(text(&chars), s);
        assert_eq!(text(&trim_chars(&chars)), s.trim());
        let words: Vec<String> = split_words(&chars).iter().map(|w| text(w)).collect();
        assert_eq!(words, s.split_whitespace().collect::<Vec<_>>());
        let lines: Vec<String> = split_lines(&chars)
            .iter()
            .map(|l| text(l).trim_end_matches('\r').to_string())
            .collect();
        assert_eq!(lines, s.lines().collect::<Vec<_>>());
    }
}

#[test]
fn numbers_survive_their_decimal_notation() {
    for n in [0, 1, 9, 10, 99, 100, 12_345, u64::MAX] {
        let written = to_decimal(n as u128);
        assert_eq!(written, n.to_string());
        assert_eq!(parse_number(&to_chars(&written), 10, u64::MAX), Ok(n));
    }
    assert_eq!(to_decimal(u128::MAX), u128::MAX.to_string());
}

#[test]
fn the_first_fault_of_a_number_is_told() {
    let read = |s: &str| parse_number(&to_chars(s), 10, 100);
    assert_eq!(read(""), Err(NumberError::Empty));
    assert_eq!(read("+"), Err(NumberError::InvalidDigit));
    assert_eq!(read("-1"), Err(NumberError::InvalidDigit));
    assert_eq!(read("101"), Err(NumberError::TooLarge));
    assert_eq!(read("1000x"), Err(NumberError::TooLarge), "too large before the letter");
    assert_eq!(read("10x00"), Err(NumberError::InvalidDigit));
    assert_eq!(read("+100"), Ok(100));
    assert_eq!(parse_number(&to_chars("zZ"), 36, u64::MAX), Ok(35 * 36 + 35));
}

#[test]
fn texts_compare_as_in_the_standard_library() {
    let samples = ["", "a", "A", "ab", "aB", "é", "É", "@", "`", "[", "{", "z", "Z"];
    for a in samples {
        for b in samples {
            assert_eq!(same_text(a, b), a == b);
            assert_eq!(same_text_ignoring_case(a, b), a.eq_ignore_ascii_case(b), "{} {}", a, b);
        }
    }
}
