use rpn::{CalcError, Calculator, Operator};

fn assert_expression(expression: &str, expected: i64) {
    match Calculator::run(expression) {
        Ok(n) => assert_eq!(n, expected, "{}", expression),
        Err(e) => panic!("{}: {}", expression, e.message()),
    }
}

fn assert_failure(expression: &str, expected: CalcError) {
    match Calculator::run(expression) {
        Ok(n) => panic!("{} should have failed, gave {}", expression, n),
        Err(e) => assert_eq!(e, expected, "{}", expression),
    }
}

#[test]
fn valid_integer_expressions() {
    assert_expression("3 4 +", 7);
    assert_expression("-3 4 +", 1);
    assert_expression("3 4 + 2 *", 14);
    assert_expression("3 5 * 3 /", 5);
    assert_expression("15 7 1 1 + - / 3 * 2 1 1 + + -", 5);
}

#[test]
fn invalid_expressions() {
    let result = Calculator::run("3 + 4");
    match result {
        Ok(_) => assert!(false, "expression should have failed"),
        Err(e) => assert_eq!(e, CalcError::InvalidLeftSide),
    }

    let result = Calculator::run("3 4 + 2");
    match result {
        Ok(_) => assert!(false, "expression should have failed"),
        Err(e) => assert_eq!(e, CalcError::EvaluationError),
    }

    let result = Calculator::run("3, 4 +");
    match result {
        Ok(_) => assert!(false, "expression should have failed"),
        Err(e) => assert_eq!(e, CalcError::InvalidOperator),
    }

    let result = Calculator::run("5 0 /");
    match result {
        Ok(_) => assert!(false, "division by zero, expression should have failed"),
        Err(e) => assert_eq!(e, CalcError::EvaluationError),
    }
}

#[test]
fn addition_of_two_literals() {
    assert_eq!(Calculator::run("3 4 +"), Ok(7));
}

#[test]
fn product_of_a_sum() {
    assert_eq!(Calculator::run("3 4 + 2 *"), Ok(14));
}

#[test]
fn long_expression_keeps_operand_order() {
    assert_eq!(Calculator::run("15 7 1 1 + - / 3 * 2 1 1 + + -"), Ok(5));
}

#[test]
fn operator_with_one_operand_lacks_left_side() {
    assert_eq!(Calculator::run("3 + 4"), Err(CalcError::InvalidLeftSide));
}

#[test]
fn operator_on_empty_stack_lacks_right_side() {
    assert_eq!(Calculator::run("+"), Err(CalcError::InvalidRightSide));
    assert_eq!(Calculator::run("+ x"), Err(CalcError::InvalidRightSide));
}

#[test]
fn leftover_values_are_an_evaluation_error() {
    assert_eq!(Calculator::run("3 4 + 2"), Err(CalcError::EvaluationError));
    assert_eq!(Calculator::run("3 4 5 +"), Err(CalcError::EvaluationError));
}

#[test]
fn empty_expression_is_an_evaluation_error() {
    assert_eq!(Calculator::run(""), Err(CalcError::EvaluationError));
    assert_eq!(Calculator::run(" \t\n "), Err(CalcError::EvaluationError));
}

#[test]
fn unparseable_token_is_an_invalid_operator() {
    assert_eq!(Calculator::run("3, 4 +"), Err(CalcError::InvalidOperator));
    assert_eq!(Calculator::run("3 x +"), Err(CalcError::InvalidOperator));
    assert_eq!(Calculator::run("3.5 1 +"), Err(CalcError::InvalidOperator));
    assert_eq!(Calculator::run("3 4 ++"), Err(CalcError::InvalidOperator));
    assert_eq!(Calculator::run("3 4 - -"), Err(CalcError::InvalidLeftSide));
}

#[test]
fn division_by_zero_is_an_evaluation_error() {
    assert_eq!(Calculator::run("5 0 /"), Err(CalcError::EvaluationError));
    assert_eq!(Calculator::run("1 0 / x"), Err(CalcError::EvaluationError));
}

#[test]
fn overflow_is_an_evaluation_error() {
    assert_eq!(
        Calculator::run("9223372036854775807 1 +"),
        Err(CalcError::EvaluationError)
    );
    assert_eq!(
        Calculator::run("-9223372036854775808 1 -"),
        Err(CalcError::EvaluationError)
    );
    assert_eq!(
        Calculator::run("4611686018427387904 2 *"),
        Err(CalcError::EvaluationError)
    );
    assert_eq!(
        Calculator::run("-9223372036854775808 -1 /"),
        Err(CalcError::EvaluationError)
    );
}

#[test]
fn literals_cover_the_whole_range() {
    assert_eq!(Calculator::run("9223372036854775807"), Ok(i64::MAX));
    assert_eq!(Calculator::run("-9223372036854775808"), Ok(i64::MIN));
    assert_eq!(Calculator::run("+42"), Ok(42));
    assert_eq!(Calculator::run("007"), Ok(7));
    assert_eq!(
        Calculator::run("9223372036854775808"),
        Err(CalcError::InvalidOperator)
    );
    assert_eq!(
        Calculator::run("-9223372036854775809"),
        Err(CalcError::InvalidOperator)
    );
    assert_eq!(
        Calculator::run("99999999999999999999999"),
        Err(CalcError::InvalidOperator)
    );
}

#[test]
fn division_rounds_toward_zero() {
    assert_eq!(Calculator::run("7 2 /"), Ok(3));
    assert_eq!(Calculator::run("-7 2 /"), Ok(-3));
    assert_eq!(Calculator::run("7 -2 /"), Ok(-3));
    assert_eq!(Calculator::run("-7 -2 /"), Ok(3));
}

#[test]
fn subtraction_keeps_operand_order() {
    assert_eq!(Calculator::run("10 3 -"), Ok(7));
    assert_eq!(Calculator::run("3 10 -"), Ok(-7));
}

#[test]
fn repeated_evaluation_gives_the_same_result() {
    for expression in ["3 4 +", "3 + 4", "5 0 /", "15 7 1 1 + - / 3 * 2 1 1 + + -"] {
        let first = Calculator::run(expression);
        let second = Calculator::run(expression);
        assert_eq!(first, second);
    }
}

#[test]
fn surrounding_and_repeated_whitespace_is_ignored() {
    assert_eq!(Calculator::run("  3   4\t+ \n"), Ok(7));
    assert_eq!(Calculator::run("3 4 +\n"), Ok(7));
    assert_eq!(Calculator::run("3\u{3000}4\u{a0}+"), Ok(7));
    assert_eq!(
        Calculator::run("\t15 7  1 1 + -  / 3 * 2 1 1 + + -   "),
        Ok(5)
    );
}

#[test]
fn error_messages() {
    assert_eq!(
        CalcError::InvalidOperator.message(),
        "Failed to parse operator value"
    );
    assert_eq!(
        CalcError::InvalidRightSide.message(),
        "Failed to parse right side value"
    );
    assert_eq!(
        CalcError::InvalidLeftSide.message(),
        "Failed to parse left side value"
    );
    assert_eq!(
        CalcError::EvaluationError.message(),
        "Failed to parse evaluation error value"
    );
}

#[test]
fn operators_apply_left_to_right() {
    assert_eq!(Operator::Add.apply(2, 3), Some(5));
    assert_eq!(Operator::Sub.apply(2, 3), Some(-1));
    assert_eq!(Operator::Mul.apply(-2, 3), Some(-6));
    assert_eq!(Operator::Div.apply(9, 2), Some(4));
    assert_eq!(Operator::Div.apply(9, 0), None);
    assert_eq!(Operator::Add.apply(i64::MAX, 1), None);
}
