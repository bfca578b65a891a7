use beebot::digits::{parse_u64, push_decimal, read_number};

#[test]
fn decimal_text_of_small_and_large_numbers() {
    let mut out: Vec<u8> = Vec::new();
    push_decimal(&mut out, 0);
    assert_eq!(out, b"0".to_vec());
    push_decimal(&mut out, 7);
    push_decimal(&mut out, 10);
    push_decimal(&mut out, 4600);
    assert_eq!(out, b"07104600".to_vec());
    let mut max: Vec<u8> = Vec::new();
    push_decimal(&mut max, u64::MAX);
    assert_eq!(max, b"18446744073709551615".to_vec());
}

#[test]
fn decimal_text_keeps_what_was_there() {
    let mut out: Vec<u8> = b"x=".to_vec();
    push_decimal(&mut out, 305);
    assert_eq!(out, b"x=305".to_vec());
}

#[test]
fn parse_u64_reads_digits() {
    assert_eq!(parse_u64("0"), Some(0));
    assert_eq!(parse_u64("42"), Some(42));
    assert_eq!(parse_u64("007"), Some(7));
    assert_eq!(parse_u64("+5"), Some(5));
    assert_eq!(parse_u64("18446744073709551615"), Some(u64::MAX));
}

#[test]
fn parse_u64_refuses_what_is_no_number() {
    assert_eq!(parse_u64(""), None);
    assert_eq!(parse_u64("+"), None);
    assert_eq!(parse_u64("-1"), None);
    assert_eq!(parse_u64("1a"), None);
    assert_eq!(parse_u64(" 1"), None);
    assert_eq!(parse_u64("1 "), None);
    assert_eq!(parse_u64("1_000"), None);
    assert_eq!(parse_u64("++1"), None);
    assert_eq!(parse_u64("12é"), None);
}

#[test]
fn parse_u64_refuses_what_does_not_fit() {
    assert_eq!(parse_u64("18446744073709551616"), None);
    assert_eq!(parse_u64("99999999999999999999999"), None);
    assert_eq!(parse_u64("018446744073709551615"), Some(u64::MAX));
}

#[test]
fn parse_u64_agrees_with_std() {
    for text in ["0", "1", "+17", "0009", "", "+", "-3", "x", "184467440737095516150", "12 "] {
        assert_eq!(parse_u64(text), text.parse::<u64>().ok(), "{}", text);
    }
}

#[test]
fn read_number_stops_behind_the_digits() {
    assert_eq!(read_number(b"ab123,4", 2), Some((123, 5)));
    assert_eq!(read_number(b"ab123,4", 6), Some((4, 7)));
    assert_eq!(read_number(b"ab123,4", 5), None);
    assert_eq!(read_number(b"ab123,4", 7), None);
    assert_eq!(read_number(b"ab123,4", 0), None);
    assert_eq!(read_number(b"99999999999999999999", 0), None);
}

#[test]
fn decimal_text_reads_back() {
    for n in [0u64, 1, 9, 10, 99, 100, 4600, 1_000_000_007, u64::MAX - 1, u64::MAX] {
        let mut out: Vec<u8> = Vec::new();
        push_decimal(&mut out, n);
        let end = out.len();
        assert_eq!(read_number(&out, 0), Some((n, end)));
        assert_eq!(String::from_utf8(out).unwrap(), format!("{}", n));
    }
}
