use calculator::eval::{try_calc, Error, Eval};

fn ev(v1: i64, op: &str, v2: i64) -> Result<Eval, Error> {
    calculator::eval::calc(v1, op, v2)
}

#[test]
fn addition_matches_table() {
    assert_eq!(ev(3, "+", 4), Ok(Eval { value: 7, remainder: 0 }));
    assert_eq!(ev(-3, "+", 4), Ok(Eval { value: 1, remainder: 0 }));
}

#[test]
fn subtraction_matches_table() {
    assert_eq!(ev(10, "-", 4), Ok(Eval { value: 6, remainder: 0 }));
    assert_eq!(ev(4, "-", 10), Ok(Eval { value: -6, remainder: 0 }));
}

#[test]
fn multiplication_matches_table() {
    assert_eq!(ev(6, "*", 7), Ok(Eval { value: 42, remainder: 0 }));
    assert_eq!(ev(-6, "*", 7), Ok(Eval { value: -42, remainder: 0 }));
}

#[test]
fn division_gives_quotient_and_remainder() {
    assert_eq!(ev(7, "/", 2), Ok(Eval { value: 3, remainder: 1 }));
    assert_eq!(ev(8, "/", 2), Ok(Eval { value: 4, remainder: 0 }));
    assert_eq!(ev(-7, "/", 2), Ok(Eval { value: -3, remainder: -1 }));
    assert_eq!(ev(7, "/", -2), Ok(Eval { value: -3, remainder: 1 }));
}

#[test]
fn division_by_zero_is_reported() {
    assert_eq!(ev(5, "/", 0), Err(Error::DivideByZero));
    assert_eq!(ev(0, "/", 0), Err(Error::DivideByZero));
    assert_eq!(ev(-17, "/", 0), Err(Error::DivideByZero));
    assert_eq!(ev(i64::MAX, "/", 0), Err(Error::DivideByZero));
}

#[test]
fn exponentiation_matches_table() {
    assert_eq!(ev(2, "^", 10), Ok(Eval { value: 1024, remainder: 0 }));
    assert_eq!(ev(5, "^", 0), Ok(Eval { value: 1, remainder: 0 }));
    assert_eq!(ev(-2, "^", 3), Ok(Eval { value: -8, remainder: 0 }));
    assert_eq!(ev(-1, "^", 1000000000000), Ok(Eval { value: 1, remainder: 0 }));
    assert_eq!(ev(-1, "^", 999999999999), Ok(Eval { value: -1, remainder: 0 }));
    assert_eq!(ev(2, "^", 62), Ok(Eval { value: 4611686018427387904, remainder: 0 }));
}

#[test]
fn square_root_is_floored() {
    assert_eq!(ev(16, "sqrt", 0), Ok(Eval { value: 4, remainder: 0 }));
    assert_eq!(ev(17, "sqrt", 99), Ok(Eval { value: 4, remainder: 0 }));
    assert_eq!(ev(0, "sqrt", 0), Ok(Eval { value: 0, remainder: 0 }));
    assert_eq!(ev(1, "sqrt", 0), Ok(Eval { value: 1, remainder: 0 }));
    assert_eq!(ev(i64::MAX, "sqrt", 0), Ok(Eval { value: 3037000499, remainder: 0 }));
}

#[test]
fn unknown_operators_are_invalid() {
    assert_eq!(ev(1, "%unknown%", 2), Err(Error::InvalidOperation));
    assert_eq!(ev(3, "plus", 4), Err(Error::InvalidOperation));
    assert_eq!(ev(3, "", 4), Err(Error::InvalidOperation));
    assert_eq!(ev(-100, "++", 100), Err(Error::InvalidOperation));
}

#[test]
fn try_calc_agrees_with_calc_in_range() {
    assert_eq!(try_calc(3, "+", 4), Some(Ok(Eval { value: 7, remainder: 0 })));
    assert_eq!(try_calc(5, "/", 0), Some(Err(Error::DivideByZero)));
    assert_eq!(try_calc(1, "nope", 2), Some(Err(Error::InvalidOperation)));
}

#[test]
fn try_calc_reports_unrepresentable_results() {
    assert_eq!(try_calc(i64::MAX, "+", 1), None);
    assert_eq!(try_calc(i64::MIN, "-", 1), None);
    assert_eq!(try_calc(i64::MAX, "*", 2), None);
    assert_eq!(try_calc(i64::MIN, "/", -1), None);
    assert_eq!(try_calc(2, "^", 63), None);
    assert_eq!(try_calc(2, "^", -1), None);
    assert_eq!(try_calc(-4, "sqrt", 0), None);
}
