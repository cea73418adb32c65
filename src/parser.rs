use vstd::prelude::*;

use crate::ast::{
    Ast, binary_expr, number_expr, paren_expr, precedence_of, ASTBinaryOperator, ASTBinaryOperatorKind,
    ASTExpression, ASTStatement, ASTStatementKind,
};
use crate::lexer::{Token, TokenKind};

verus! {

/// Whitespace and bad tokens are invisible to the grammar.
pub open spec fn is_significant(t: Token) -> bool {
    !(t.kind is Whitespace) && !(t.kind is Bad)
}

/// The tokens of `ts` that the grammar sees, in order.
pub open spec fn significant(ts: Seq<Token>) -> Seq<Token>
    decreases ts.len(),
{
    if ts.len() == 0 {
        seq![]
    } else if is_significant(ts.last()) {
        significant(ts.drop_last()).push(ts.last())
    } else {
        significant(ts.drop_last())
    }
}

/// The kind of the token at `i`; past the last token, `End`.
pub open spec fn kind_at(ts: Seq<Token>, i: int) -> TokenKind {
    if 0 <= i < ts.len() {
        ts[i].kind
    } else {
        TokenKind::End
    }
}

/// The binary operator that a token kind stands for, if any.
pub open spec fn binary_operator_of(k: TokenKind) -> Option<ASTBinaryOperatorKind> {
    match k {
        TokenKind::Plus => Some(ASTBinaryOperatorKind::Plus),
        TokenKind::Minus => Some(ASTBinaryOperatorKind::Minus),
        TokenKind::Star => Some(ASTBinaryOperatorKind::Multiply),
        TokenKind::Slash => Some(ASTBinaryOperatorKind::Divide),
        _ => None,
    }
}

/// A primary expression at `i`: a number, a unary minus (read as `0 - p`)
/// or a parenthesized expression. With the expression, the index after it.
pub open spec fn parse_primary(ts: Seq<Token>, i: int) -> Option<(ASTExpression, int)>
    decreases ts.len() - i, 1int,
{
    if i < 0 || i >= ts.len() {
        None
    } else {
        match ts[i].kind {
            TokenKind::Number(n) => Some((number_expr(n), i + 1)),
            TokenKind::Minus => match parse_primary(ts, i + 1) {
                Some((e, j)) => Some(
                    (
                        binary_expr(
                            number_expr(0),
                            ASTBinaryOperator { kind: ASTBinaryOperatorKind::Minus, token: ts[i] },
                            e,
                        ),
                        j,
                    ),
                ),
                None => None,
            },
            TokenKind::LeftParen => match parse_expr(ts, i + 1, 0) {
                Some((e, j)) => if kind_at(ts, j) is RightParen {
                    Some((paren_expr(e), j + 1))
                } else {
                    None
                },
                None => None,
            },
            _ => None,
        }
    }
}

/// An expression at `i` whose operators all bind tighter than `min`.
pub open spec fn parse_expr(ts: Seq<Token>, i: int, min: u8) -> Option<(ASTExpression, int)>
    decreases ts.len() - i, 2int,
{
    if i < 0 || i >= ts.len() {
        None
    } else {
        match parse_primary(ts, i) {
            Some((left, j)) => if i < j <= ts.len() {
                climb(ts, left, j, min)
            } else {
                None
            },
            None => None,
        }
    }
}

/// Folds into `left` each following operator that binds tighter than `min`,
/// with its right operand; operators of equal strength group to the left.
pub open spec fn climb(ts: Seq<Token>, left: ASTExpression, j: int, min: u8) -> Option<
    (ASTExpression, int),
>
    decreases ts.len() - j, 3int,
{
    if j < 0 || j > ts.len() {
        None
    } else {
        match binary_operator_of(kind_at(ts, j)) {
            Some(op) => if precedence_of(op) > min {
                match parse_expr(ts, j + 1, precedence_of(op)) {
                    Some((right, k)) => if j < k <= ts.len() {
                        climb(
                            ts,
                            binary_expr(left, ASTBinaryOperator { kind: op, token: ts[j] }, right),
                            k,
                            min,
                        )
                    } else {
                        None
                    },
                    None => None,
                }
            } else {
                Some((left, j))
            },
            None => Some((left, j)),
        }
    }
}

/// Reads statements, one expression each, from a sequence of tokens.
pub struct Parser {
    pub tokens: Vec<Token>,
    pub current: usize,
    pub failed: bool,
}

impl Parser {
    pub open spec fn wf(&self) -> bool {
        self.current <= self.tokens@.len()
    }

    /// Keeps the tokens that the grammar sees.
    pub fn new(tokens: Vec<Token>) -> (r: Self)
        ensures
            r.wf(),
            r.tokens@ == significant(tokens@),
            r.current == 0,
            !r.failed,
    {
        let mut kept: Vec<Token> = Vec::new();
        let mut i: usize = 0;
        while i < tokens.len()
            invariant
                i <= tokens@.len(),
                kept@ == significant(tokens@.subrange(0, i as int)),
            decreases tokens@.len() - i,
        {
            let t = tokens[i];
            assert(tokens@.subrange(0, i + 1).drop_last() =~= tokens@.subrange(0, i as int));
            if !matches!(t.kind, TokenKind::Whitespace | TokenKind::Bad) {
                kept.push(t);
            }
            i = i + 1;
        }
        assert(tokens@.subrange(0, tokens@.len() as int) =~= tokens@);
        Parser { tokens: kept, current: 0, failed: false }
    }

    /// The kind of the token at `pos`, `End` past the last one.
    pub fn peek_at(&self, pos: usize) -> (r: TokenKind)
        ensures
            r == kind_at(self.tokens@, pos as int),
    {
        if pos < self.tokens.len() {
            self.tokens[pos].kind
        } else {
            TokenKind::End
        }
    }

    fn parse_primary(&self, i: usize) -> (r: Option<(ASTExpression, usize)>)
        ensures
            match r {
                Some((e, j)) => parse_primary(self.tokens@, i as int) == Some((e, j as int)),
                None => parse_primary(self.tokens@, i as int) is None,
            },
        decreases self.tokens@.len() - i, 1int,
    {
        if i >= self.tokens.len() {
            return None;
        }
        let t = self.tokens[i];
        match t.kind {
            TokenKind::Number(n) => Some((ASTExpression::number(n), i + 1)),
            TokenKind::Minus => match self.parse_primary(i + 1) {
                Some((e, j)) => {
                    let zero = ASTExpression::number(0);
                    let op = ASTBinaryOperator::new(ASTBinaryOperatorKind::Minus, t);
                    Some((ASTExpression::binary(zero, op, e), j))
                },
                None => None,
            },
            TokenKind::LeftParen => match self.parse_expression(i + 1, 0) {
                Some((e, j)) => {
                    if matches!(self.peek_at(j), TokenKind::RightParen) {
                        Some((ASTExpression::parenthesized(e), j + 1))
                    } else {
                        None
                    }
                },
                None => None,
            },
            _ => None,
        }
    }

    fn binary_operator(&self, pos: usize) -> (r: Option<ASTBinaryOperatorKind>)
        ensures
            r == binary_operator_of(kind_at(self.tokens@, pos as int)),
    {
        match self.peek_at(pos) {
            TokenKind::Plus => Some(ASTBinaryOperatorKind::Plus),
            TokenKind::Minus => Some(ASTBinaryOperatorKind::Minus),
            TokenKind::Star => Some(ASTBinaryOperatorKind::Multiply),
            TokenKind::Slash => Some(ASTBinaryOperatorKind::Divide),
            _ => None,
        }
    }

    /// Precedence climbing from `i`: a primary expression, then each
    /// operator stronger than `min` with its right operand.
    fn parse_expression(&self, i: usize, min: u8) -> (r: Option<(ASTExpression, usize)>)
        ensures
            match r {
                Some((e, j)) => parse_expr(self.tokens@, i as int, min) == Some((e, j as int)),
                None => parse_expr(self.tokens@, i as int, min) is None,
            },
            r matches Some((_, j)) ==> i < j <= self.tokens@.len(),
        decreases self.tokens@.len() - i, 2int,
    {
        if i >= self.tokens.len() {
            return None;
        }
        let (mut left, mut j) = match self.parse_primary(i) {
            Some((e, j)) => (e, j),
            None => {
                return None;
            },
        };
        if !(i < j && j <= self.tokens.len()) {
            return None;
        }
        let ghost ts = self.tokens@;
        loop
            invariant
                i < j <= ts.len(),
                ts == self.tokens@,
                ts.len() <= usize::MAX,
                climb(ts, left, j as int, min) == parse_expr(ts, i as int, min),
            decreases ts.len() - j,
        {
            let op = match self.binary_operator(j) {
                Some(op) => op,
                None => {
                    return Some((left, j));
                },
            };
            let token = self.tokens[j];
            let op_node = ASTBinaryOperator::new(op, token);
            let p = op_node.precedence();
            if p <= min {
                return Some((left, j));
            }
            let (right, k) = match self.parse_expression(j + 1, p) {
                Some((e, k)) => (e, k),
                None => {
                    return None;
                },
            };
            if k <= j || k > self.tokens.len() {
                return None;
            }
            left = ASTExpression::binary(left, op_node, right);
            j = k;
        }
    }

    /// The next statement, or `None` at the end of the tokens or once a
    /// statement fails to parse; nothing is read after such a failure.
    pub fn next_statement(&mut self) -> (r: Option<ASTStatement>)
        requires
            old(self).wf(),
        ensures
            final(self).wf(),
            final(self).tokens@ == old(self).tokens@,
            old(self).failed || kind_at(old(self).tokens@, old(self).current as int) is End ==> {
                &&& r is None
                &&& final(self).current == old(self).current
                &&& final(self).failed == old(self).failed
            },
            !old(self).failed && !(kind_at(old(self).tokens@, old(self).current as int) is End)
                ==> match parse_expr(old(self).tokens@, old(self).current as int, 0) {
                Some((e, j)) => {
                    &&& r matches Some(s) && s.kind == ASTStatementKind::Expression(e)
                    &&& final(self).current == j
                    &&& old(self).current < final(self).current
                    &&& !final(self).failed
                },
                None => r is None && final(self).failed && final(self).current == old(
                    self,
                ).current,
            },
    {
        if self.failed || matches!(self.peek_at(self.current), TokenKind::End) {
            return None;
        }
        match self.parse_expression(self.current, 0) {
            Some((e, j)) => {
                self.current = j;
                Some(ASTStatement::expression(e))
            },
            None => {
                self.failed = true;
                None
            },
        }
    }
}

/// The statements that parsing `ts` from `i` yields: one per expression,
/// up to the end of the tokens or to the first one that fails to parse.
pub open spec fn statements_from(ts: Seq<Token>, i: int) -> Seq<ASTStatement>
    decreases ts.len() - i,
{
    if i < 0 || i >= ts.len() || kind_at(ts, i) is End {
        seq![]
    } else {
        match parse_expr(ts, i, 0) {
            Some((e, j)) => if i < j <= ts.len() {
                seq![ASTStatement { kind: ASTStatementKind::Expression(e) }] + statements_from(
                    ts,
                    j,
                )
            } else {
                seq![]
            },
            None => seq![],
        }
    }
}

/// Parses every statement of `tokens` into an [`Ast`], stopping at the end
/// or at the first statement that fails to parse.
pub fn parse_program(tokens: Vec<Token>) -> (r: Ast)
    ensures
        r.statements@ == statements_from(significant(tokens@), 0),
{
    let ghost given = tokens@;
    let mut parser = Parser::new(tokens);
    let mut ast = Ast::new();
    let ghost ts = parser.tokens@;
    assert(ast.statements@ + statements_from(ts, 0) =~= statements_from(ts, 0));
    loop
        invariant
            ts == significant(given),
            given == tokens@,
            parser.wf(),
            parser.tokens@ == ts,
            !parser.failed ==> ast.statements@ + statements_from(ts, parser.current as int)
                == statements_from(ts, 0),
            parser.failed ==> ast.statements@ == statements_from(ts, 0),
        decreases ts.len() - parser.current + (if parser.failed { 0int } else { 1int }),
    {
        let ghost cur = parser.current as int;
        let ghost before = ast.statements@;
        let ghost was_failed = parser.failed;
        match parser.next_statement() {
            Some(statement) => {
                proof {
                    let (e, j) = parse_expr(ts, cur, 0)->Some_0;
                    assert(statement == ASTStatement { kind: ASTStatementKind::Expression(e) });
                    assert(statements_from(ts, cur) == seq![statement] + statements_from(
                        ts,
                        parser.current as int,
                    ));
                }
                ast.add_statement(statement);
                assert(ast.statements@ + statements_from(ts, parser.current as int)
                    =~= before + statements_from(ts, cur));
            },
            None => {
                proof {
                    if !was_failed {
                        assert(statements_from(ts, cur) =~= Seq::<ASTStatement>::empty());
                        assert(ast.statements@ =~= before + statements_from(ts, cur));
                    }
                }
                return ast;
            },
        }
    }
}

} // verus!
