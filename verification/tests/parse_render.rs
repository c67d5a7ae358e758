use calculator::eval::Eval;
use calculator::parse::{intparse, parse_i64, preparse, ParseError};
use calculator::render::{render_eval, render_int};

#[test]
fn preparse_wants_a_digit_in_each_token() {
    assert!(preparse("12", "3"));
    assert!(preparse("12x", "3"));
    assert!(!preparse("abc", "5"));
    assert!(!preparse("5", "abc"));
    assert!(!preparse("", ""));
}

#[test]
fn operands_parse_independently() {
    let (a, b) = intparse("1x", "5");
    assert_eq!(a, Err(ParseError::InvalidDigit));
    assert_eq!(b, Ok(5));
    let (a, b) = intparse("5", "1x");
    assert_eq!(a, Ok(5));
    assert_eq!(b, Err(ParseError::InvalidDigit));
}

#[test]
fn failed_prefilter_short_circuits_both_operands() {
    let (a, b) = intparse("abc", "5");
    assert_eq!(a, Err(ParseError::NotNumeric));
    assert_eq!(b, Err(ParseError::NotNumeric));
}

#[test]
fn parse_trims_whitespace_and_reads_signs() {
    assert_eq!(parse_i64(" 42 "), Ok(42));
    assert_eq!(parse_i64("\t-12\n"), Ok(-12));
    assert_eq!(parse_i64("+7"), Ok(7));
    assert_eq!(parse_i64("007"), Ok(7));
}

#[test]
fn parse_rejects_bad_lexical_forms() {
    assert_eq!(parse_i64(""), Err(ParseError::Empty));
    assert_eq!(parse_i64("   "), Err(ParseError::Empty));
    assert_eq!(parse_i64("+"), Err(ParseError::InvalidDigit));
    assert_eq!(parse_i64("-"), Err(ParseError::InvalidDigit));
    assert_eq!(parse_i64("1.5"), Err(ParseError::InvalidDigit));
    assert_eq!(parse_i64("1..5"), Err(ParseError::InvalidDigit));
    assert_eq!(parse_i64("12x"), Err(ParseError::InvalidDigit));
    assert_eq!(parse_i64("1 2"), Err(ParseError::InvalidDigit));
}

#[test]
fn parse_respects_the_64_bit_range() {
    assert_eq!(parse_i64("9223372036854775807"), Ok(i64::MAX));
    assert_eq!(parse_i64("-9223372036854775808"), Ok(i64::MIN));
    assert_eq!(parse_i64("9223372036854775808"), Err(ParseError::OutOfRange));
    assert_eq!(parse_i64("-9223372036854775809"), Err(ParseError::OutOfRange));
    assert_eq!(parse_i64("99999999999999999999999999"), Err(ParseError::OutOfRange));
}

#[test]
fn parse_failures_carry_descriptions() {
    assert_eq!(ParseError::Empty.describe(), "empty operand");
    assert_eq!(ParseError::InvalidDigit.describe(), "operand is not a valid integer");
    assert_eq!(ParseError::OutOfRange.describe(), "operand is out of range");
    assert_eq!(ParseError::NotNumeric.describe(), "pre-parse validation failed");
}

#[test]
fn rendering_is_plain_decimal() {
    assert_eq!(render_int(0), "0");
    assert_eq!(render_int(7), "7");
    assert_eq!(render_int(-12), "-12");
    assert_eq!(render_int(i64::MAX), "9223372036854775807");
    assert_eq!(render_int(i64::MIN), "-9223372036854775808");
}

#[test]
fn rendering_shows_nonzero_remainders() {
    assert_eq!(render_eval(&Eval { value: 3, remainder: 1 }), "3 R1");
    assert_eq!(render_eval(&Eval { value: 4, remainder: 0 }), "4");
    assert_eq!(render_eval(&Eval { value: -3, remainder: -1 }), "-3 R-1");
}

#[test]
fn rendered_values_parse_back() {
    for v in [0i64, 1, -1, 7, -7, 123456789, i64::MAX, i64::MIN] {
        assert_eq!(parse_i64(&render_int(v)), Ok(v));
    }
}
