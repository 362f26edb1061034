use rperf3::common::bandwidth::{parse, parse_size, parse_tos};

#[test]
fn zero_is_unlimited() {
    assert_eq!(parse("0").unwrap(), 0);
    assert_eq!(parse("").unwrap(), 0);
}

#[test]
fn integer_bps_passthrough() {
    assert_eq!(parse("1000").unwrap(), 1_000);
}

#[test]
fn k_suffix_is_thousand_bits() {
    assert_eq!(parse("1k").unwrap(), 1_000);
    assert_eq!(parse("250K").unwrap(), 250_000);
}

#[test]
fn m_suffix_is_million_bits() {
    assert_eq!(parse("1M").unwrap(), 1_000_000);
    assert_eq!(parse("100m").unwrap(), 100_000_000);
}

#[test]
fn g_suffix_is_billion_bits() {
    assert_eq!(parse("2G").unwrap(), 2_000_000_000);
}

#[test]
fn invalid_input_errors() {
    assert!(parse("abc").is_err());
    assert!(parse("1.5M").is_err());
    assert!(parse("M").is_err());
}

#[test]
fn overflow_errors() {
    assert!(parse("99999999999G").is_err());
}

#[test]
fn sizes_count_in_1024s() {
    assert_eq!(parse_size("256K").unwrap(), 262_144);
    assert_eq!(parse_size("1M").unwrap(), 1_048_576);
    assert_eq!(parse_size("1g").unwrap(), 1_073_741_824);
    assert_eq!(parse_size("4096").unwrap(), 4_096);
    assert_eq!(parse_size("").unwrap(), 0);
}

#[test]
fn rates_and_sizes_name_what_is_wrong() {
    assert_eq!(parse("abc").unwrap_err(), "invalid bandwidth 'abc': invalid digit found in string");
    assert_eq!(parse("M").unwrap_err(), "invalid bandwidth 'M': cannot parse integer from empty string");
    assert_eq!(
        parse("18446744073709551616").unwrap_err(),
        "invalid bandwidth '18446744073709551616': number too large to fit in target type"
    );
    assert_eq!(parse("99999999999G").unwrap_err(), "bandwidth '99999999999G' overflows u64");
    assert_eq!(parse_size("-1").unwrap_err(), "invalid size '-1': invalid digit found in string");
    assert_eq!(parse_size("18446744073709551615K").unwrap_err(), "size '18446744073709551615K' overflows u64");
}

#[test]
fn largest_rate_fits() {
    assert_eq!(parse("18446744073709551615").unwrap(), u64::MAX);
    assert_eq!(parse("+7").unwrap(), 7);
    assert!(parse("+").is_err());
}

#[test]
fn numbers_are_read_as_the_standard_library_reads_them() {
    for s in ["", "+", "-", "+0", "00012", "12a", "9é", "é", "１２", "4294967296", " 1", "1 "] {
        let expected = match s.parse::<u64>() {
            Ok(n) => Ok(n),
            Err(e) => Err(format!("invalid size '{}': {}", s, e)),
        };
        if s.is_empty() {
            assert_eq!(parse_size(s), Ok(0));
        } else {
            assert_eq!(parse_size(s), expected, "{}", s);
        }
    }
}

#[test]
fn tos_in_three_notations() {
    assert_eq!(parse_tos("16").unwrap(), 16);
    assert_eq!(parse_tos("0x10").unwrap(), 16);
    assert_eq!(parse_tos("0XfF").unwrap(), 255);
    assert_eq!(parse_tos("020").unwrap(), 16);
    assert_eq!(parse_tos("0").unwrap(), 0);
}

#[test]
fn tos_errors_name_the_notation() {
    assert_eq!(parse_tos("0x").unwrap_err(), "invalid TOS hex '0x': cannot parse integer from empty string");
    assert_eq!(parse_tos("09").unwrap_err(), "invalid TOS octal '09': invalid digit found in string");
    assert_eq!(parse_tos("ten").unwrap_err(), "invalid TOS 'ten': invalid digit found in string");
    assert_eq!(parse_tos("256").unwrap_err(), "TOS value 256 out of range (0-255)");
    assert_eq!(
        parse_tos("4294967296").unwrap_err(),
        "invalid TOS '4294967296': number too large to fit in target type"
    );
}
