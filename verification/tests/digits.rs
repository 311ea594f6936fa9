use tstee::digits::{push_decimal, push_zero_padded};
use tstee::token::Token;

fn decimal(n: u64) -> String {
    let mut out = String::new();
    push_decimal(&mut out, n);
    out
}

fn padded(n: u64, width: usize) -> String {
    let mut out = String::new();
    push_zero_padded(&mut out, n, width);
    out
}

fn text(token: Token, secs: u64, nanos: u32) -> String {
    let mut out = String::new();
    token.push_text(secs, nanos, &mut out);
    out
}

#[test]
fn plain_numbers() {
    assert_eq!(decimal(0), "0");
    assert_eq!(decimal(9), "9");
    assert_eq!(decimal(10), "10");
    assert_eq!(decimal(1234567890), "1234567890");
    assert_eq!(decimal(u64::MAX), "18446744073709551615");
}

#[test]
fn numbers_are_added_at_the_end() {
    let mut out = String::from("n=");
    push_decimal(&mut out, 42);
    out.push(';');
    push_zero_padded(&mut out, 7, 3);
    assert_eq!(out, "n=42;007");
}

#[test]
fn padded_numbers() {
    assert_eq!(padded(0, 2), "00");
    assert_eq!(padded(7, 2), "07");
    assert_eq!(padded(59, 2), "59");
    assert_eq!(padded(0, 9), "000000000");
    assert_eq!(padded(183340, 9), "000183340");
    assert_eq!(padded(5, 1), "5");
    assert_eq!(padded(0, 1), "0");
}

#[test]
fn a_wide_number_keeps_all_its_digits() {
    assert_eq!(padded(123, 2), "123");
    assert_eq!(padded(100, 2), "100");
    assert_eq!(padded(0, 0), "0");
    assert_eq!(padded(45, 0), "45");
    assert_eq!(padded(u64::MAX, 22), "0018446744073709551615");
}

#[test]
fn padding_is_what_the_formatter_does() {
    for n in [0u64, 1, 9, 10, 99, 100, 12345, 999_999_999, u64::MAX] {
        assert_eq!(decimal(n), format!("{}", n));
        for width in 0..=12usize {
            assert_eq!(padded(n, width), format!("{:0>width$}", n, width = width));
        }
    }
}

#[test]
fn the_text_of_every_token() {
    assert_eq!(text(Token::TotalHours, 94028, 602718334), "26");
    assert_eq!(text(Token::HoursOfDay, 94028, 602718334), "02");
    assert_eq!(text(Token::TotalMinutes, 94028, 602718334), "1567");
    assert_eq!(text(Token::MinutesOfHour, 94028, 602718334), "07");
    assert_eq!(text(Token::TotalSeconds, 94028, 602718334), "94028");
    assert_eq!(text(Token::SecondsOfMinute, 94028, 602718334), "08");
    assert_eq!(text(Token::Fraction(1), 94028, 602718334), ".6");
    assert_eq!(text(Token::Fraction(2), 94028, 602718334), ".60");
    assert_eq!(text(Token::Fraction(6), 94028, 602718334), ".602718");
    assert_eq!(text(Token::Fraction(9), 94028, 602718334), ".602718334");
}
