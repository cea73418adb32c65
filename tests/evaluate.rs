use exprcalc::ast::{ASTExpression, ASTExpressionKind, ASTBinaryOperatorKind, Ast};
use exprcalc::evaluator::{evaluate_program, EvalError};
use exprcalc::lexer::tokenize;
use exprcalc::parser::parse_program;

#[test]
fn sum_with_parenthesized_product_is_62() {
    let ast = parse_program(tokenize("6 + (7 * 8)"));
    assert_eq!(ast.statements.len(), 1);
    assert_eq!(evaluate_program(&ast), Some(Ok(62)));
}

#[test]
fn parenthesized_difference_times_negative_one_is_1() {
    assert_eq!(evaluate_program(&parse_program(tokenize("(7 - 8) * -1"))), Some(Ok(1)));
}

#[test]
fn multiplication_binds_tighter_than_addition() {
    assert_eq!(evaluate_program(&parse_program(tokenize("2 + 3 * 4"))), Some(Ok(14)));
}

#[test]
fn subtraction_groups_to_the_left() {
    assert_eq!(evaluate_program(&parse_program(tokenize("10 - 3 - 2"))), Some(Ok(5)));
}

#[test]
fn unary_minus_binds_tightest() {
    assert_eq!(evaluate_program(&parse_program(tokenize("-2 * 3"))), Some(Ok(-6)));
    assert_eq!(evaluate_program(&parse_program(tokenize("-(2 + 3)"))), Some(Ok(-5)));
}

#[test]
fn division_truncates_toward_zero() {
    assert_eq!(evaluate_program(&parse_program(tokenize("7 / 2"))), Some(Ok(3)));
    assert_eq!(evaluate_program(&parse_program(tokenize("-7 / 2"))), Some(Ok(-3)));
    assert_eq!(evaluate_program(&parse_program(tokenize("7 / -2"))), Some(Ok(-3)));
}

#[test]
fn division_by_zero_is_reported() {
    assert_eq!(
        evaluate_program(&parse_program(tokenize("1 / 0"))),
        Some(Err(EvalError::DivisionByZero))
    );
}

#[test]
fn overflow_is_reported() {
    assert_eq!(
        evaluate_program(&parse_program(tokenize("9223372036854775807 + 1"))),
        Some(Err(EvalError::Overflow))
    );
    assert_eq!(
        evaluate_program(&parse_program(tokenize("(0 - 9223372036854775807 - 1) / -1"))),
        Some(Err(EvalError::Overflow))
    );
}

#[test]
fn fault_stops_later_statements() {
    let ast = parse_program(tokenize("1 / 0 5"));
    assert_eq!(ast.statements.len(), 2);
    assert_eq!(evaluate_program(&ast), Some(Err(EvalError::DivisionByZero)));
}

#[test]
fn last_statement_gives_the_result() {
    let ast = parse_program(tokenize("1 + 1 2 * 5"));
    assert_eq!(ast.statements.len(), 2);
    assert_eq!(evaluate_program(&ast), Some(Ok(10)));
}

#[test]
fn empty_program_has_no_value() {
    assert_eq!(evaluate_program(&Ast::new()), None);
}

#[test]
fn expression_built_by_hand_evaluates() {
    let e = ASTExpression::parenthesized(ASTExpression::number(4));
    assert!(matches!(e.kind, ASTExpressionKind::Parenthesized(_)));
    assert_eq!(exprcalc::evaluator::evaluate(&e), Ok(4));
    let _ = ASTBinaryOperatorKind::Plus;
}
