use exprcalc::ast::{ASTBinaryOperatorKind, ASTPrinter, NodeLabel, PrintLine};
use exprcalc::lexer::tokenize;
use exprcalc::parser::parse_program;

#[test]
fn outline_of_a_sum_with_parentheses() {
    let ast = parse_program(tokenize("1 + (2)"));
    let lines = ast.visualize();
    let expected = vec![
        PrintLine { indent: 0, label: NodeLabel::Statement },
        PrintLine { indent: 2, label: NodeLabel::Expression },
        PrintLine { indent: 4, label: NodeLabel::BinaryExpression },
        PrintLine { indent: 6, label: NodeLabel::Operator(ASTBinaryOperatorKind::Plus) },
        PrintLine { indent: 6, label: NodeLabel::Expression },
        PrintLine { indent: 8, label: NodeLabel::Number(1) },
        PrintLine { indent: 6, label: NodeLabel::Expression },
        PrintLine { indent: 8, label: NodeLabel::ParenthesizedExpression },
        PrintLine { indent: 10, label: NodeLabel::Expression },
        PrintLine { indent: 12, label: NodeLabel::Number(2) },
    ];
    assert_eq!(lines, expected);
}

#[test]
fn printer_restores_indent_between_statements() {
    let ast = parse_program(tokenize("1 2"));
    let mut printer = ASTPrinter::new();
    ast.visit(&mut printer);
    assert_eq!(printer.indent, 0);
    assert_eq!(printer.lines.len(), 6);
    assert_eq!(printer.lines[3], PrintLine { indent: 0, label: NodeLabel::Statement });
}
