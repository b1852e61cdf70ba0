use portcheck::text::{parse_number, push_decimal};

fn written(n: u64) -> String {
    let mut out = String::new();
    push_decimal(&mut out, n);
    out
}

#[test]
fn number_reads_plain_digits() {
    assert_eq!(parse_number("80"), Some(80));
    assert_eq!(parse_number("0"), Some(0));
    assert_eq!(parse_number("65535"), Some(65535));
}

#[test]
fn number_takes_a_plus_and_leading_zeros() {
    assert_eq!(parse_number("+80"), Some(80));
    assert_eq!(parse_number("0080"), Some(80));
    assert_eq!(parse_number("+0"), Some(0));
}

#[test]
fn number_fits_in_64_bits() {
    assert_eq!(parse_number("18446744073709551615"), Some(u64::MAX));
    assert_eq!(parse_number("18446744073709551616"), None);
    assert_eq!(parse_number("99999999999999999999999999"), None);
    assert_eq!(parse_number("000000000000000000000000000000000000007"), Some(7));
}

#[test]
fn number_refuses_what_is_no_number() {
    assert_eq!(parse_number(""), None);
    assert_eq!(parse_number("+"), None);
    assert_eq!(parse_number("-1"), None);
    assert_eq!(parse_number("++1"), None);
    assert_eq!(parse_number("8a"), None);
    assert_eq!(parse_number("a8"), None);
    assert_eq!(parse_number(" 8"), None);
    assert_eq!(parse_number("8 "), None);
    assert_eq!(parse_number("8.0"), None);
}

#[test]
fn number_refuses_digits_outside_ascii() {
    assert_eq!(parse_number("\u{ff18}\u{ff10}"), None);
    assert_eq!(parse_number("8\u{e9}"), None);
    assert_eq!(parse_number("\u{661}"), None);
}

#[test]
fn decimal_writes_without_leading_zeros() {
    assert_eq!(written(0), "0");
    assert_eq!(written(7), "7");
    assert_eq!(written(10), "10");
    assert_eq!(written(8080), "8080");
    assert_eq!(written(u64::MAX), "18446744073709551615");
}

#[test]
fn decimal_is_added_at_the_end() {
    let mut out = String::from("port ");
    push_decimal(&mut out, 443);
    push_decimal(&mut out, 0);
    assert_eq!(out, "port 4430");
}

#[test]
fn decimal_reads_back() {
    for n in [0u64, 1, 9, 10, 99, 100, 65535, 65536, 4294967295, u64::MAX - 1, u64::MAX] {
        assert_eq!(parse_number(&written(n)), Some(n));
    }
}
