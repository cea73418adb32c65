use exprcalc::ast::{ASTBinaryOperatorKind, ASTExpression, ASTExpressionKind, ASTStatementKind};
use exprcalc::lexer::tokenize;
use exprcalc::parser::{parse_program, Parser};

#[test]
fn sum_with_parenthesized_product_shape() {
    let ast = parse_program(tokenize("6 + (7 * 8)"));
    assert_eq!(ast.statements.len(), 1);
    let ASTStatementKind::Expression(e) = &ast.statements[0].kind;
    match &e.kind {
        ASTExpressionKind::Binary(b) => {
            assert_eq!(b.operator.kind, ASTBinaryOperatorKind::Plus);
            assert_eq!(b.operator.precedence(), 1);
            assert!(matches!(b.left.kind, ASTExpressionKind::Number(ref n) if n.number == 6));
            match &b.right.kind {
                ASTExpressionKind::Parenthesized(p) => match &p.expression.kind {
                    ASTExpressionKind::Binary(inner) => {
                        assert_eq!(inner.operator.kind, ASTBinaryOperatorKind::Multiply);
                        assert_eq!(inner.operator.precedence(), 2);
                    }
                    _ => panic!("expected a product"),
                },
                _ => panic!("expected parentheses"),
            }
        }
        _ => panic!("expected a sum"),
    }
}

#[test]
fn unary_minus_is_zero_minus_operand() {
    let ast = parse_program(tokenize("-5"));
    let ASTStatementKind::Expression(e) = &ast.statements[0].kind;
    match &e.kind {
        ASTExpressionKind::Binary(b) => {
            assert_eq!(b.operator.kind, ASTBinaryOperatorKind::Minus);
            assert!(matches!(b.left.kind, ASTExpressionKind::Number(ref n) if n.number == 0));
            assert!(matches!(b.right.kind, ASTExpressionKind::Number(ref n) if n.number == 5));
        }
        _ => panic!("expected a difference"),
    }
}

#[test]
fn unmatched_open_paren_yields_nothing() {
    let mut parser = Parser::new(tokenize("(1 + 2"));
    assert!(parser.next_statement().is_none());
    assert!(parser.failed);
    assert!(parser.next_statement().is_none());
    assert_eq!(parse_program(tokenize("(1 + 2")).statements.len(), 0);
}

#[test]
fn failure_keeps_earlier_statements() {
    let ast = parse_program(tokenize("1 + 2 3 * ) 4"));
    assert_eq!(ast.statements.len(), 1);
}

#[test]
fn operator_without_right_operand_fails() {
    assert_eq!(parse_program(tokenize("1 +")).statements.len(), 0);
}

#[test]
fn bad_and_space_tokens_are_invisible() {
    let ast = parse_program(tokenize(" 1 $+ 2 "));
    assert_eq!(ast.statements.len(), 1);
    assert_eq!(exprcalc::evaluator::evaluate_program(&ast), Some(Ok(3)));
}

#[test]
fn peek_past_the_end_is_end() {
    let parser = Parser::new(tokenize("1"));
    assert_eq!(parser.peek_at(1), exprcalc::lexer::TokenKind::End);
    assert_eq!(parser.peek_at(100), exprcalc::lexer::TokenKind::End);
    let _ = ASTExpression::number(1);
}
