use calculator::eval::Error;
use calculator::parse::ParseError;
use calculator::session::{process_line, tokenize, Response};

fn expect_value(line: &str, shown: &str) {
    match process_line(line) {
        Response::Value(s) => assert_eq!(s, shown),
        other => panic!("expected a value for {:?}, got {:?}", line, other),
    }
}

#[test]
fn tokens_split_on_whitespace() {
    assert_eq!(tokenize("3 + 4"), vec!["3", "+", "4"]);
    assert_eq!(tokenize("  10 \t /   0 "), vec!["10", "/", "0"]);
    assert_eq!(tokenize(""), Vec::<String>::new());
    assert_eq!(tokenize("   "), Vec::<String>::new());
    assert_eq!(tokenize("exit"), vec!["exit"]);
}

#[test]
fn simple_addition_line() {
    expect_value("3 + 4", "7");
}

#[test]
fn division_by_zero_line_reports_and_continues() {
    match process_line("10 / 0") {
        Response::CalcFailed(e) => assert_eq!(e, Error::DivideByZero),
        other => panic!("expected a calculation failure, got {:?}", other),
    }
}

#[test]
fn unary_square_root_lines() {
    expect_value("sqrt 16", "4");
    expect_value("16 sqrt", "4");
    expect_value("sqrt 0", "0");
}

#[test]
fn integer_division_line_shows_remainder() {
    expect_value("7 / 2", "3 R1");
}

#[test]
fn exit_keyword_terminates() {
    assert!(matches!(process_line("exit"), Response::Exit));
    assert!(matches!(process_line("  exit  "), Response::Exit));
}

#[test]
fn exit_keyword_only_counts_alone() {
    assert!(matches!(process_line("exit exit"), Response::Malformed));
    assert!(matches!(
        process_line("exit + 3"),
        Response::BadOperands(Some(ParseError::NotNumeric), Some(ParseError::NotNumeric))
    ));
}

#[test]
fn unparseable_first_operand_is_identified() {
    match process_line("foo + 3") {
        Response::BadOperands(a, b) => {
            assert_eq!(a, Some(ParseError::NotNumeric));
            assert_eq!(b, Some(ParseError::NotNumeric));
        },
        other => panic!("expected operand failures, got {:?}", other),
    }
    match process_line("1x + 3") {
        Response::BadOperands(a, b) => {
            assert_eq!(a, Some(ParseError::InvalidDigit));
            assert_eq!(b, None);
        },
        other => panic!("expected operand failures, got {:?}", other),
    }
}

#[test]
fn wrong_token_counts_are_malformed() {
    assert!(matches!(process_line(""), Response::Malformed));
    assert!(matches!(process_line("3 +"), Response::Malformed));
    assert!(matches!(process_line("3"), Response::Malformed));
    assert!(matches!(process_line("3 + 4 5"), Response::Malformed));
}

#[test]
fn unknown_operator_line() {
    match process_line("1 %unknown% 2") {
        Response::CalcFailed(e) => assert_eq!(e, Error::InvalidOperation),
        other => panic!("expected a calculation failure, got {:?}", other),
    }
}

#[test]
fn unrepresentable_results_are_flagged() {
    assert!(matches!(process_line("9223372036854775807 + 1"), Response::OutOfRange));
    assert!(matches!(process_line("2 ^ 64"), Response::OutOfRange));
    assert!(matches!(process_line("sqrt -4"), Response::OutOfRange));
}

#[test]
fn negative_operands_flow_through() {
    expect_value("-7 / 2", "-3 R-1");
    expect_value("-3 + -4", "-7");
    expect_value("-2 ^ 3", "-8");
}
