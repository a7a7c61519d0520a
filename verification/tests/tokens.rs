use dbc_parser::number::{is_ascii_digit, parse_decimal};
use dbc_parser::primitives::{expect_literal, newline, same_bytes, take_until, take_while};
use dbc_parser::ErrorKind;

#[test]
fn expect_literal_consumes_the_literal() {
    assert_eq!(
        expect_literal("BO_".as_bytes(), "BO_ 500".as_bytes()),
        Ok((" 500".as_bytes(), ()))
    );
    assert_eq!(
        expect_literal("BO_".as_bytes(), "BO_".as_bytes()),
        Ok(("".as_bytes(), ()))
    );
}

#[test]
fn expect_literal_with_empty_literal_consumes_nothing() {
    assert_eq!(
        expect_literal("".as_bytes(), "abc".as_bytes()),
        Ok(("abc".as_bytes(), ()))
    );
    assert_eq!(
        expect_literal("".as_bytes(), "".as_bytes()),
        Ok(("".as_bytes(), ()))
    );
}

#[test]
fn expect_literal_compares_byte_for_byte() {
    assert_eq!(
        expect_literal("BO_".as_bytes(), "bo_ 500".as_bytes()),
        Err(ErrorKind::ExpectedLiteral("BO_".as_bytes().to_vec()))
    );
    assert_eq!(
        expect_literal("BO_".as_bytes(), "BO".as_bytes()),
        Err(ErrorKind::ExpectedLiteral("BO_".as_bytes().to_vec()))
    );
    assert_eq!(
        expect_literal("BO_".as_bytes(), " BO_".as_bytes()),
        Err(ErrorKind::ExpectedLiteral("BO_".as_bytes().to_vec()))
    );
    assert_eq!(
        expect_literal("BO_".as_bytes(), "BOX".as_bytes()),
        Err(ErrorKind::ExpectedLiteral("BO_".as_bytes().to_vec()))
    );
}

#[test]
fn take_while_takes_the_longest_run() {
    assert_eq!(
        take_while(is_ascii_digit, "500 IO".as_bytes()),
        (" IO".as_bytes(), "500".as_bytes())
    );
    assert_eq!(
        take_while(is_ascii_digit, "500".as_bytes()),
        ("".as_bytes(), "500".as_bytes())
    );
    assert_eq!(
        take_while(|b: u8| b != 0x3a, "a:b:c".as_bytes()),
        (":b:c".as_bytes(), "a".as_bytes())
    );
}

#[test]
fn take_while_may_match_nothing() {
    assert_eq!(
        take_while(is_ascii_digit, "IO 500".as_bytes()),
        ("IO 500".as_bytes(), "".as_bytes())
    );
    assert_eq!(
        take_while(is_ascii_digit, "".as_bytes()),
        ("".as_bytes(), "".as_bytes())
    );
    assert_eq!(
        take_while(|_b: u8| false, "abc".as_bytes()),
        ("abc".as_bytes(), "".as_bytes())
    );
}

#[test]
fn take_until_stops_before_the_first_delimiter() {
    assert_eq!(
        take_until(":".as_bytes(), "IO_DEBUG: 4: 5".as_bytes()),
        Ok((": 4: 5".as_bytes(), "IO_DEBUG".as_bytes()))
    );
    assert_eq!(
        take_until(":".as_bytes(), ":x".as_bytes()),
        Ok((":x".as_bytes(), "".as_bytes()))
    );
    assert_eq!(
        take_until(":".as_bytes(), "x:".as_bytes()),
        Ok((":".as_bytes(), "x".as_bytes()))
    );
}

#[test]
fn take_until_with_a_longer_delimiter() {
    assert_eq!(
        take_until(" : ".as_bytes(), "a: b :c : d".as_bytes()),
        Ok((" : d".as_bytes(), "a: b :c".as_bytes()))
    );
    assert_eq!(
        take_until("aab".as_bytes(), "aaab".as_bytes()),
        Ok(("aab".as_bytes(), "a".as_bytes()))
    );
    assert_eq!(
        take_until("abc".as_bytes(), "ab".as_bytes()),
        Err(ErrorKind::DelimiterNotFound("abc".as_bytes().to_vec()))
    );
}

#[test]
fn take_until_with_empty_delimiter_takes_nothing() {
    assert_eq!(
        take_until("".as_bytes(), "abc".as_bytes()),
        Ok(("abc".as_bytes(), "".as_bytes()))
    );
    assert_eq!(
        take_until("".as_bytes(), "".as_bytes()),
        Ok(("".as_bytes(), "".as_bytes()))
    );
}

#[test]
fn take_until_fails_without_delimiter() {
    assert_eq!(
        take_until(":".as_bytes(), "IO_DEBUG 4".as_bytes()),
        Err(ErrorKind::DelimiterNotFound(":".as_bytes().to_vec()))
    );
    assert_eq!(
        take_until(":".as_bytes(), "".as_bytes()),
        Err(ErrorKind::DelimiterNotFound(":".as_bytes().to_vec()))
    );
}

#[test]
fn newline_consumes_one_line_feed() {
    assert_eq!(newline("\n SG_".as_bytes()), Ok((" SG_".as_bytes(), ())));
    assert_eq!(newline("\n\n".as_bytes()), Ok(("\n".as_bytes(), ())));
    assert_eq!(newline("\n".as_bytes()), Ok(("".as_bytes(), ())));
}

#[test]
fn newline_fails_on_anything_else() {
    assert_eq!(newline("".as_bytes()), Err(ErrorKind::ExpectedNewline));
    assert_eq!(newline("\r\n".as_bytes()), Err(ErrorKind::ExpectedNewline));
    assert_eq!(newline(" \n".as_bytes()), Err(ErrorKind::ExpectedNewline));
}

#[test]
fn digits_are_the_ten_ascii_digits() {
    for b in 0..=255u8 {
        assert_eq!(is_ascii_digit(b), b.is_ascii_digit());
    }
}

#[test]
fn parse_decimal_reads_digits() {
    assert_eq!(parse_decimal("0".as_bytes()), Ok(0));
    assert_eq!(parse_decimal("4".as_bytes()), Ok(4));
    assert_eq!(parse_decimal("1234567890".as_bytes()), Ok(1234567890));
    assert_eq!(parse_decimal("0000000000000042".as_bytes()), Ok(42));
    assert_eq!(parse_decimal("4294967295".as_bytes()), Ok(4294967295));
}

#[test]
fn parse_decimal_refuses_what_is_no_number() {
    for text in ["", " ", "+4", "-4", "4 ", " 4", "4x", "x4", "0x10", "1_000", "4.0", "\u{664}"] {
        assert_eq!(
            parse_decimal(text.as_bytes()),
            Err(ErrorKind::InvalidNumber(text.as_bytes().to_vec())),
            "{:?}",
            text
        );
    }
}

#[test]
fn parse_decimal_refuses_what_does_not_fit() {
    for text in ["4294967296", "4294967300", "42949672950", "99999999999999999999999999"] {
        assert_eq!(
            parse_decimal(text.as_bytes()),
            Err(ErrorKind::InvalidNumber(text.as_bytes().to_vec())),
            "{:?}",
            text
        );
    }
}

#[test]
fn same_bytes_compares_length_and_content() {
    assert!(same_bytes("".as_bytes(), "".as_bytes()));
    assert!(same_bytes("BO_".as_bytes(), "BO_".as_bytes()));
    assert!(!same_bytes("BO_".as_bytes(), "BO".as_bytes()));
    assert!(!same_bytes("BO".as_bytes(), "BO_".as_bytes()));
    assert!(!same_bytes("BO_".as_bytes(), "SG_".as_bytes()));
    assert!(!same_bytes("BO_".as_bytes(), "BOx".as_bytes()));
}

#[test]
fn failures_compare_by_kind_and_bytes() {
    let literal = |text: &str| ErrorKind::ExpectedLiteral(text.as_bytes().to_vec());
    let delimiter = |text: &str| ErrorKind::DelimiterNotFound(text.as_bytes().to_vec());
    let number = |text: &str| ErrorKind::InvalidNumber(text.as_bytes().to_vec());
    assert_eq!(literal(":"), literal(":"));
    assert_ne!(literal(":"), literal(" "));
    assert_ne!(literal(":"), literal("::"));
    assert_ne!(literal(":"), delimiter(":"));
    assert_ne!(literal(":"), number(":"));
    assert_eq!(delimiter(":"), delimiter(":"));
    assert_ne!(delimiter(":"), delimiter(" "));
    assert_eq!(number("4x"), number("4x"));
    assert_ne!(number("4x"), number("4"));
    assert_eq!(ErrorKind::ExpectedNewline, ErrorKind::ExpectedNewline);
    assert_eq!(ErrorKind::NoAlternativeMatched, ErrorKind::NoAlternativeMatched);
    assert_ne!(ErrorKind::ExpectedNewline, ErrorKind::NoAlternativeMatched);
    assert_ne!(ErrorKind::ExpectedNewline, literal(""));
}
