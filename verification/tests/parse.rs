use q_num::gen::{generate, Input};
use q_num::parse::{parse_int_bits, parse_notation, ParseError};
use q_num::text::decimal_string;

#[test]
fn test_parse_int_bits_1() {
    let x = parse_int_bits("10");
    assert!(x.is_ok());
}

#[test]
fn test_parse_int_bits_2() {
    let x = parse_int_bits("31x");
    assert!(x.is_err());
}

#[test]
fn parse_int_bits_values() {
    assert_eq!(parse_int_bits("0"), Ok(0));
    assert_eq!(parse_int_bits("10"), Ok(10));
    assert_eq!(parse_int_bits("007"), Ok(7));
    assert_eq!(parse_int_bits("+12"), Ok(12));
    assert_eq!(parse_int_bits("255"), Ok(255));
}

#[test]
fn parse_int_bits_rejects() {
    for text in ["", "+", "-1", "256", "1000", "1 ", " 1", "1_0", "++1", "x", "\u{FF11}"] {
        assert_eq!(parse_int_bits(text), Err(ParseError::ExpectedInteger), "{:?}", text);
    }
}

#[test]
fn parse_int_bits_agrees_with_std() {
    let texts = [
        "", "+", "-", "0", "+0", "-0", "12", "+12", "255", "256", "0255", "00256", "999999",
        "1a", "a1", "+-1", "1+", "\u{663}",
    ];
    for text in texts {
        assert_eq!(parse_int_bits(text).ok(), text.parse::<u8>().ok(), "{:?}", text);
    }
    for n in 0..=300u32 {
        let text = format!("{}", n);
        assert_eq!(parse_int_bits(&text).ok(), text.parse::<u8>().ok());
    }
}

#[test]
fn parse_notation_signed_and_unsigned() {
    assert_eq!(parse_notation("Q12"), Ok((true, 12)));
    assert_eq!(parse_notation("UQ5"), Ok((false, 5)));
    assert_eq!(parse_notation("Q1"), Ok((true, 1)));
    assert_eq!(parse_notation("UQ255"), Ok((false, 255)));
}

#[test]
fn parse_notation_rejects() {
    assert_eq!(parse_notation(""), Err(ParseError::ExpectedNotation));
    assert_eq!(parse_notation("X12"), Err(ParseError::ExpectedNotation));
    assert_eq!(parse_notation("U12"), Err(ParseError::ExpectedNotation));
    assert_eq!(parse_notation("q12"), Err(ParseError::ExpectedNotation));
    assert_eq!(parse_notation("Q"), Err(ParseError::ExpectedInteger));
    assert_eq!(parse_notation("UQ"), Err(ParseError::ExpectedInteger));
    assert_eq!(parse_notation("Q31x"), Err(ParseError::ExpectedInteger));
    assert_eq!(parse_notation("Q256"), Err(ParseError::ExpectedInteger));
    assert_eq!(parse_notation("QU5"), Err(ParseError::ExpectedInteger));
}

#[test]
fn parse_error_messages() {
    assert_eq!(ParseError::ExpectedNotation.message(), "Expected UQ or Q");
    assert_eq!(ParseError::ExpectedInteger.message(), "Expected integer");
}

#[test]
fn decimal_text_reads_back() {
    for n in 0..=255u8 {
        assert_eq!(parse_int_bits(&decimal_string(n as u64)), Ok(n));
    }
}

#[test]
fn notation_head_reads_back() {
    for signed in [true, false] {
        for int_bits in 1..=64u8 {
            let input = Input { signed, int_bits, frac_bits: 64 - int_bits };
            let descriptor = generate(input).unwrap();
            let label = descriptor.q_notation();
            let (head, frac) = label.split_once('.').unwrap();
            assert_eq!(parse_notation(head), Ok((signed, int_bits)));
            assert_eq!(parse_int_bits(frac), Ok(64 - int_bits));
        }
    }
}
