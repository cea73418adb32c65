use vstd::prelude::*;

use crate::ast::{
    can_visit_all, visit_all, Ast, ASTBinaryOperatorKind, ASTExpression, ASTExpressionKind, ASTStatement, ASTStatementKind,
    ASTVisitor,
};

verus! {

/// Why an expression has no value.
#[derive(Clone, Copy, Debug, PartialEq, Eq, Structural)]
pub enum EvalError {
    DivisionByZero,
    Overflow,
}

/// Division that rounds toward zero.
pub open spec fn trunc_div(a: int, b: int) -> int {
    let q = abs(a) / abs(b);
    if (a < 0) != (b < 0) {
        -q
    } else {
        q
    }
}

pub open spec fn abs(a: int) -> int {
    if a < 0 {
        -a
    } else {
        a
    }
}

pub open spec fn in_i64(v: int) -> bool {
    i64::MIN <= v <= i64::MAX
}

pub open spec fn checked(v: int) -> Result<i64, EvalError> {
    if in_i64(v) {
        Ok(v as i64)
    } else {
        Err(EvalError::Overflow)
    }
}

/// One operator applied to two 64-bit values.
pub open spec fn apply_operator(op: ASTBinaryOperatorKind, l: i64, r: i64) -> Result<
    i64,
    EvalError,
> {
    match op {
        ASTBinaryOperatorKind::Plus => checked(l + r),
        ASTBinaryOperatorKind::Minus => checked(l - r),
        ASTBinaryOperatorKind::Multiply => checked(l * r),
        ASTBinaryOperatorKind::Divide => if r == 0 {
            Err(EvalError::DivisionByZero)
        } else {
            checked(trunc_div(l as int, r as int))
        },
    }
}

/// The value of an expression: left operand first, then right; the first
/// fault met is the result.
pub open spec fn eval(e: ASTExpression) -> Result<i64, EvalError>
    decreases e,
{
    match e.kind {
        ASTExpressionKind::Number(n) => Ok(n.number),
        ASTExpressionKind::Binary(b) => match eval(*b.left) {
            Err(x) => Err(x),
            Ok(l) => match eval(*b.right) {
                Err(x) => Err(x),
                Ok(r) => apply_operator(b.operator.kind, l, r),
            },
        },
        ASTExpressionKind::Parenthesized(p) => eval(*p.expression),
    }
}

pub open spec fn eval_statement(s: ASTStatement) -> Result<i64, EvalError> {
    match s.kind {
        ASTStatementKind::Expression(e) => eval(e),
    }
}

fn apply(op: ASTBinaryOperatorKind, l: i64, r: i64) -> (res: Result<i64, EvalError>)
    ensures
        res == apply_operator(op, l, r),
{
    let v = match op {
        ASTBinaryOperatorKind::Plus => l.checked_add(r),
        ASTBinaryOperatorKind::Minus => l.checked_sub(r),
        ASTBinaryOperatorKind::Multiply => l.checked_mul(r),
        ASTBinaryOperatorKind::Divide => {
            if r == 0 {
                return Err(EvalError::DivisionByZero);
            }
            l.checked_div(r)
        },
    };
    match v {
        Some(x) => Ok(x),
        None => Err(EvalError::Overflow),
    }
}

/// Evaluates an expression with 64-bit integers; division by zero and
/// overflow are reported, never wrapped.
pub fn evaluate(e: &ASTExpression) -> (r: Result<i64, EvalError>)
    ensures
        r == eval(*e),
    decreases e,
{
    match &e.kind {
        ASTExpressionKind::Number(n) => Ok(n.number),
        ASTExpressionKind::Binary(b) => {
            let l = match evaluate(&b.left) {
                Ok(l) => l,
                Err(x) => {
                    return Err(x);
                },
            };
            let r = match evaluate(&b.right) {
                Ok(r) => r,
                Err(x) => {
                    return Err(x);
                },
            };
            apply(b.operator.kind, l, r)
        },
        ASTExpressionKind::Parenthesized(p) => evaluate(&p.expression),
    }
}

/// Keeps the value of the statement visited last; once a statement has
/// faulted, later ones are not evaluated.
pub struct ASTEvaluator {
    pub last_value: Option<Result<i64, EvalError>>,
}

pub open spec fn evaluator_step(
    last: Option<Result<i64, EvalError>>,
    s: ASTStatement,
) -> Option<Result<i64, EvalError>> {
    if last matches Some(Err(_)) {
        last
    } else {
        Some(eval_statement(s))
    }
}

impl ASTEvaluator {
    pub fn new() -> (r: Self)
        ensures
            r.last_value is None,
    {
        ASTEvaluator { last_value: None }
    }
}

impl ASTVisitor for ASTEvaluator {
    type State = Option<Result<i64, EvalError>>;

    open spec fn state(&self) -> Option<Result<i64, EvalError>> {
        self.last_value
    }

    open spec fn can_visit(state: Option<Result<i64, EvalError>>, s: ASTStatement) -> bool {
        true
    }

    open spec fn step(state: Option<Result<i64, EvalError>>, s: ASTStatement) -> Option<
        Result<i64, EvalError>,
    > {
        evaluator_step(state, s)
    }

    fn visit_statement(&mut self, statement: &ASTStatement) {
        if let Some(Err(_)) = self.last_value {
            return;
        }
        match &statement.kind {
            ASTStatementKind::Expression(e) => {
                self.last_value = Some(evaluate(e));
            },
        }
    }
}

/// What evaluating statements `ss` in order leaves: the value of the last
/// one, or the first fault met; `None` when there are none.
pub open spec fn eval_all(ss: Seq<ASTStatement>) -> Option<Result<i64, EvalError>> {
    visit_all::<ASTEvaluator>(None, ss)
}

/// Evaluates every statement of `ast`, in order.
pub fn evaluate_program(ast: &Ast) -> (r: Option<Result<i64, EvalError>>)
    ensures
        r == eval_all(ast.statements@),
{
    let mut evaluator = ASTEvaluator::new();
    proof {
        lemma_evaluator_runs(None, ast.statements@);
    }
    ast.visit(&mut evaluator);
    evaluator.last_value
}

proof fn lemma_evaluator_runs(state: Option<Result<i64, EvalError>>, ss: Seq<ASTStatement>)
    ensures
        can_visit_all::<ASTEvaluator>(state, ss),
    decreases ss.len(),
{
    if ss.len() > 0 {
        lemma_evaluator_runs(state, ss.drop_last());
    }
}

} // verus!
