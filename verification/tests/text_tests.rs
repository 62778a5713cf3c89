use rosav::text::{decimal_len, decimal_string, parse_unsigned, push_decimal, push_padded_decimal};

#[test]
fn decimal_string_writes_digits() {
    assert_eq!(decimal_string(0), "0");
    assert_eq!(decimal_string(7), "7");
    assert_eq!(decimal_string(10), "10");
    assert_eq!(decimal_string(255), "255");
    assert_eq!(decimal_string(u64::MAX), "18446744073709551615");
}

#[test]
fn decimal_len_counts_digits() {
    assert_eq!(decimal_len(0), 1);
    assert_eq!(decimal_len(9), 1);
    assert_eq!(decimal_len(10), 2);
    assert_eq!(decimal_len(99999), 5);
    assert_eq!(decimal_len(u64::MAX), 20);
}

#[test]
fn push_decimal_appends() {
    let mut s = String::from("n=");
    push_decimal(&mut s, 305);
    assert_eq!(s, "n=305");
}

#[test]
fn push_padded_decimal_pads_to_width() {
    let mut s = String::new();
    push_padded_decimal(&mut s, 7, 3);
    assert_eq!(s, "007");
    let mut s = String::new();
    push_padded_decimal(&mut s, 42, 3);
    assert_eq!(s, "042");
    let mut s = String::new();
    push_padded_decimal(&mut s, 1234, 3);
    assert_eq!(s, "1234");
    let mut s = String::from("x");
    push_padded_decimal(&mut s, 0, 0);
    assert_eq!(s, "x0");
}

#[test]
fn parse_unsigned_reads_like_from_str() {
    assert_eq!(parse_unsigned(b"0", u64::MAX), Some(0));
    assert_eq!(parse_unsigned(b"42", u64::MAX), Some(42));
    assert_eq!(parse_unsigned(b"+42", u64::MAX), Some(42));
    assert_eq!(parse_unsigned(b"007", u64::MAX), Some(7));
    assert_eq!(parse_unsigned(b"", u64::MAX), None);
    assert_eq!(parse_unsigned(b"+", u64::MAX), None);
    assert_eq!(parse_unsigned(b"-1", u64::MAX), None);
    assert_eq!(parse_unsigned(b" 1", u64::MAX), None);
    assert_eq!(parse_unsigned(b"1 ", u64::MAX), None);
    assert_eq!(parse_unsigned(b"12a", u64::MAX), None);
    assert_eq!(parse_unsigned(b"++1", u64::MAX), None);
    assert_eq!(parse_unsigned(b"18446744073709551615", u64::MAX), Some(u64::MAX));
    assert_eq!(parse_unsigned(b"18446744073709551616", u64::MAX), None);
}

#[test]
fn parse_unsigned_respects_the_bound() {
    assert_eq!(parse_unsigned(b"255", 255), Some(255));
    assert_eq!(parse_unsigned(b"256", 255), None);
    assert_eq!(parse_unsigned(b"4294967295", u32::MAX as u64), Some(4294967295));
    assert_eq!(parse_unsigned(b"4294967296", u32::MAX as u64), None);
}

#[test]
fn parse_unsigned_agrees_with_std() {
    let inputs = ["0", "1", "+9", "65535", "65536", "", "x", "1_0", "00", "+0", "99999999999999999999"];
    for input in inputs {
        assert_eq!(parse_unsigned(input.as_bytes(), u16::MAX as u64), input.parse::<u16>().ok().map(|v| v as u64));
        assert_eq!(parse_unsigned(input.as_bytes(), u64::MAX), input.parse::<u64>().ok());
    }
}

#[test]
fn printed_decimal_parses_back() {
    for n in [0u64, 1, 9, 10, 600, 65535, u64::MAX] {
        let printed = decimal_string(n);
        assert_eq!(parse_unsigned(printed.as_bytes(), u64::MAX), Some(n));
    }
}
