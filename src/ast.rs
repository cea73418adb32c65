use vstd::prelude::*;

use crate::lexer::Token;

verus! {

/// A sequence of statements, in source order.
pub struct Ast {
    pub statements: Vec<ASTStatement>,
}

pub enum ASTStatementKind {
    Expression(ASTExpression),
}

pub struct ASTStatement {
    pub kind: ASTStatementKind,
}

#[derive(Debug)]
pub enum ASTExpressionKind {
    Number(ASTNumberExpression),
    Binary(ASTBinaryExpression),
    Parenthesized(ASTParenthesizedExpression),
}

#[derive(Debug)]
pub struct ASTNumberExpression {
    pub number: i64,
}

#[derive(Clone, Copy, Debug, PartialEq, Eq, Structural)]
pub enum ASTBinaryOperatorKind {
    Plus,
    Minus,
    Multiply,
    Divide,
}

#[derive(Clone, Copy, Debug, PartialEq, Eq, Structural)]
pub struct ASTBinaryOperator {
    pub kind: ASTBinaryOperatorKind,
    pub token: Token,
}

#[derive(Debug)]
pub struct ASTBinaryExpression {
    pub left: Box<ASTExpression>,
    pub operator: ASTBinaryOperator,
    pub right: Box<ASTExpression>,
}

#[derive(Debug)]
pub struct ASTParenthesizedExpression {
    pub expression: Box<ASTExpression>,
}

#[derive(Debug)]
pub struct ASTExpression {
    pub kind: ASTExpressionKind,
}

/// Binding strength of an operator: a higher number binds tighter.
pub open spec fn precedence_of(kind: ASTBinaryOperatorKind) -> u8 {
    match kind {
        ASTBinaryOperatorKind::Plus | ASTBinaryOperatorKind::Minus => 1,
        ASTBinaryOperatorKind::Multiply | ASTBinaryOperatorKind::Divide => 2,
    }
}

pub open spec fn number_expr(n: i64) -> ASTExpression {
    ASTExpression { kind: ASTExpressionKind::Number(ASTNumberExpression { number: n }) }
}

pub open spec fn binary_expr(
    left: ASTExpression,
    operator: ASTBinaryOperator,
    right: ASTExpression,
) -> ASTExpression {
    ASTExpression {
        kind: ASTExpressionKind::Binary(
            ASTBinaryExpression { left: Box::new(left), operator, right: Box::new(right) },
        ),
    }
}

pub open spec fn paren_expr(inner: ASTExpression) -> ASTExpression {
    ASTExpression {
        kind: ASTExpressionKind::Parenthesized(
            ASTParenthesizedExpression { expression: Box::new(inner) },
        ),
    }
}

/// A pass over the statements of an [`Ast`]. What a visitor holds is
/// described by `state`; `step` says what visiting one statement makes of it.
pub trait ASTVisitor: Sized {
    type State;

    spec fn state(&self) -> Self::State;

    spec fn can_visit(state: Self::State, s: ASTStatement) -> bool;

    spec fn step(state: Self::State, s: ASTStatement) -> Self::State;

    fn visit_statement(&mut self, statement: &ASTStatement)
        requires
            Self::can_visit(old(self).state(), *statement),
        ensures
            final(self).state() == Self::step(old(self).state(), *statement),
    ;
}

/// The state of a visitor after it has visited `ss` in order from `state`.
pub open spec fn visit_all<V: ASTVisitor>(state: V::State, ss: Seq<ASTStatement>) -> V::State
    decreases ss.len(),
{
    if ss.len() == 0 {
        state
    } else {
        V::step(visit_all::<V>(state, ss.drop_last()), ss.last())
    }
}

/// Every statement of `ss` may be visited in turn from `state`.
pub open spec fn can_visit_all<V: ASTVisitor>(state: V::State, ss: Seq<ASTStatement>) -> bool
    decreases ss.len(),
{
    if ss.len() == 0 {
        true
    } else {
        can_visit_all::<V>(state, ss.drop_last()) && V::can_visit(
            visit_all::<V>(state, ss.drop_last()),
            ss.last(),
        )
    }
}

/// What one line of the printed tree says.
#[derive(Clone, Copy, Debug, PartialEq, Eq, Structural)]
pub enum NodeLabel {
    Statement,
    Expression,
    Number(i64),
    BinaryExpression,
    Operator(ASTBinaryOperatorKind),
    ParenthesizedExpression,
}

/// One line of the printed tree: its label, `indent` columns in.
#[derive(Clone, Copy, Debug, PartialEq, Eq, Structural)]
pub struct PrintLine {
    pub indent: usize,
    pub label: NodeLabel,
}

/// Columns added for each level of nesting.
pub const LEVEL_INDENT: usize = 2;

pub open spec fn line(indent: int, label: NodeLabel) -> PrintLine {
    PrintLine { indent: indent as usize, label }
}

/// Levels of nesting below an expression, itself included.
pub open spec fn expr_depth(e: ASTExpression) -> nat
    decreases e,
{
    match e.kind {
        ASTExpressionKind::Number(_) => 1,
        ASTExpressionKind::Binary(b) => {
            let l = expr_depth(*b.left);
            let r = expr_depth(*b.right);
            1 + if l >= r {
                l
            } else {
                r
            }
        },
        ASTExpressionKind::Parenthesized(p) => 1 + expr_depth(*p.expression),
    }
}

pub open spec fn statement_expr(s: ASTStatement) -> ASTExpression {
    match s.kind {
        ASTStatementKind::Expression(e) => e,
    }
}

/// The printed lines of an expression whose first line stands `indent`
/// columns in: each node, then its children two columns further in.
pub open spec fn render_expr(e: ASTExpression, indent: int) -> Seq<PrintLine>
    decreases e,
{
    seq![line(indent, NodeLabel::Expression)] + match e.kind {
        ASTExpressionKind::Number(n) => seq![line(indent + 2, NodeLabel::Number(n.number))],
        ASTExpressionKind::Binary(b) => seq![
            line(indent + 2, NodeLabel::BinaryExpression),
            line(indent + 4, NodeLabel::Operator(b.operator.kind)),
        ] + render_expr(*b.left, indent + 4) + render_expr(*b.right, indent + 4),
        ASTExpressionKind::Parenthesized(p) => seq![
            line(indent + 2, NodeLabel::ParenthesizedExpression),
        ] + render_expr(*p.expression, indent + 4),
    }
}

pub open spec fn render_statement(s: ASTStatement, indent: int) -> Seq<PrintLine> {
    seq![line(indent, NodeLabel::Statement)] + render_expr(statement_expr(s), indent + 2)
}

/// The structure of an expression: the kind of each node and how nodes
/// nest, without the tokens they came from.
pub enum Shape {
    Number(i64),
    Binary(ASTBinaryOperatorKind, Box<Shape>, Box<Shape>),
    Parenthesized(Box<Shape>),
}

pub open spec fn shape_of(e: ASTExpression) -> Shape
    decreases e,
{
    match e.kind {
        ASTExpressionKind::Number(n) => Shape::Number(n.number),
        ASTExpressionKind::Binary(b) => Shape::Binary(
            b.operator.kind,
            Box::new(shape_of(*b.left)),
            Box::new(shape_of(*b.right)),
        ),
        ASTExpressionKind::Parenthesized(p) => Shape::Parenthesized(
            Box::new(shape_of(*p.expression)),
        ),
    }
}

/// Reads back, from printed lines, the shape of the expression whose first
/// line is at `i` and stands `indent` columns in; with the index after it.
pub open spec fn read_expr(lines: Seq<PrintLine>, i: int, indent: int) -> Option<(Shape, int)>
    decreases lines.len() - i,
{
    if i < 0 || i + 1 >= lines.len() || lines[i] != line(indent, NodeLabel::Expression)
        || lines[i + 1] != line(indent + 2, lines[i + 1].label) {
        None
    } else {
        match lines[i + 1].label {
            NodeLabel::Number(n) => Some((Shape::Number(n), i + 2)),
            NodeLabel::BinaryExpression => if i + 2 < lines.len() && lines[i + 2] == line(
                indent + 4,
                lines[i + 2].label,
            ) && lines[i + 2].label is Operator {
                match read_expr(lines, i + 3, indent + 4) {
                    Some((a, j)) => if i + 3 < j <= lines.len() {
                        match read_expr(lines, j, indent + 4) {
                            Some((b, k)) => Some(
                                (
                                    Shape::Binary(
                                        lines[i + 2].label->Operator_0,
                                        Box::new(a),
                                        Box::new(b),
                                    ),
                                    k,
                                ),
                            ),
                            None => None,
                        }
                    } else {
                        None
                    },
                    None => None,
                }
            } else {
                None
            },
            NodeLabel::ParenthesizedExpression => match read_expr(lines, i + 2, indent + 4) {
                Some((a, j)) => Some((Shape::Parenthesized(Box::new(a)), j)),
                None => None,
            },
            _ => None,
        }
    }
}

proof fn lemma_render_len(e: ASTExpression, indent: int)
    ensures
        render_expr(e, indent).len() >= 2,
    decreases e,
{
    match e.kind {
        ASTExpressionKind::Number(_) => {},
        ASTExpressionKind::Binary(b) => {
            lemma_render_len(*b.left, indent + 4);
        },
        ASTExpressionKind::Parenthesized(p) => {
            lemma_render_len(*p.expression, indent + 4);
        },
    }
}

/// Reading the printed lines of an expression back, whatever stands before
/// and after them, gives the expression's shape and ends where they end.
pub proof fn lemma_read_rendered(
    e: ASTExpression,
    indent: int,
    pre: Seq<PrintLine>,
    post: Seq<PrintLine>,
)
    ensures
        read_expr(pre + render_expr(e, indent) + post, pre.len() as int, indent) == Some(
            (shape_of(e), pre.len() + render_expr(e, indent).len() as int),
        ),
    decreases e,
{
    let r = render_expr(e, indent);
    let all = pre + r + post;
    let i = pre.len() as int;
    lemma_render_len(e, indent);
    assert(all[i] == r[0]);
    assert(all[i + 1] == r[1]);
    match e.kind {
        ASTExpressionKind::Number(n) => {},
        ASTExpressionKind::Binary(b) => {
            let head = seq![
                line(indent, NodeLabel::Expression),
                line(indent + 2, NodeLabel::BinaryExpression),
                line(indent + 4, NodeLabel::Operator(b.operator.kind)),
            ];
            let rl = render_expr(*b.left, indent + 4);
            let rr = render_expr(*b.right, indent + 4);
            assert(r =~= head + rl + rr);
            assert(all[i + 2] == r[2]);
            lemma_read_rendered(*b.left, indent + 4, pre + head, rr + post);
            assert(pre + head + rl + (rr + post) =~= all);
            lemma_render_len(*b.left, indent + 4);
            lemma_read_rendered(*b.right, indent + 4, pre + head + rl, post);
            assert(pre + head + rl + rr + post =~= all);
        },
        ASTExpressionKind::Parenthesized(p) => {
            let head = seq![
                line(indent, NodeLabel::Expression),
                line(indent + 2, NodeLabel::ParenthesizedExpression),
            ];
            let rp = render_expr(*p.expression, indent + 4);
            assert(r =~= head + rp);
            lemma_read_rendered(*p.expression, indent + 4, pre + head, post);
            assert(pre + head + rp + post =~= all);
        },
    }
}

/// Printing loses no structure: the shape of an expression, node kinds and
/// nesting, can be read back from its printed lines alone.
pub proof fn lemma_print_round_trip(e: ASTExpression, indent: int)
    ensures
        read_expr(render_expr(e, indent), 0, indent) == Some(
            (shape_of(e), render_expr(e, indent).len() as int),
        ),
{
    lemma_read_rendered(e, indent, Seq::empty(), Seq::empty());
    assert(Seq::<PrintLine>::empty() + render_expr(e, indent) + Seq::<PrintLine>::empty()
        =~= render_expr(e, indent));
}

/// Renders statements as an indented outline, one line per node.
pub struct ASTPrinter {
    pub indent: usize,
    pub lines: Vec<PrintLine>,
}

impl ASTPrinter {
    pub fn new() -> (r: Self)
        ensures
            r.indent == 0,
            r.lines@ == Seq::<PrintLine>::empty(),
    {
        ASTPrinter { indent: 0, lines: Vec::new() }
    }

    fn print_with_indent(&mut self, label: NodeLabel)
        ensures
            final(self).indent == old(self).indent,
            final(self).lines@ == old(self).lines@.push(
                PrintLine { indent: old(self).indent, label },
            ),
    {
        self.lines.push(PrintLine { indent: self.indent, label });
    }

    fn visit_expression(&mut self, e: &ASTExpression)
        requires
            old(self).indent + 4 * expr_depth(*e) <= usize::MAX,
        ensures
            final(self).indent == old(self).indent,
            final(self).lines@ == old(self).lines@ + render_expr(*e, old(self).indent as int),
        decreases e,
    {
        let ghost before = self.lines@;
        let ghost ind = self.indent as int;
        self.print_with_indent(NodeLabel::Expression);
        self.indent = self.indent + LEVEL_INDENT;
        match &e.kind {
            ASTExpressionKind::Number(n) => {
                self.print_with_indent(NodeLabel::Number(n.number));
            },
            ASTExpressionKind::Binary(b) => {
                self.print_with_indent(NodeLabel::BinaryExpression);
                self.indent = self.indent + LEVEL_INDENT;
                self.print_with_indent(NodeLabel::Operator(b.operator.kind));
                self.visit_expression(&b.left);
                self.visit_expression(&b.right);
                self.indent = self.indent - LEVEL_INDENT;
            },
            ASTExpressionKind::Parenthesized(p) => {
                self.print_with_indent(NodeLabel::ParenthesizedExpression);
                self.indent = self.indent + LEVEL_INDENT;
                self.visit_expression(&p.expression);
                self.indent = self.indent - LEVEL_INDENT;
            },
        }
        self.indent = self.indent - LEVEL_INDENT;
        assert(self.lines@ =~= before + render_expr(*e, ind));
    }
}

impl ASTVisitor for ASTPrinter {
    type State = (usize, Seq<PrintLine>);

    open spec fn state(&self) -> (usize, Seq<PrintLine>) {
        (self.indent, self.lines@)
    }

    open spec fn can_visit(state: (usize, Seq<PrintLine>), s: ASTStatement) -> bool {
        state.0 + 2 + 4 * expr_depth(statement_expr(s)) <= usize::MAX
    }

    open spec fn step(state: (usize, Seq<PrintLine>), s: ASTStatement) -> (
        usize,
        Seq<PrintLine>,
    ) {
        (state.0, state.1 + render_statement(s, state.0 as int))
    }

    fn visit_statement(&mut self, statement: &ASTStatement) {
        let ghost before = self.lines@;
        self.print_with_indent(NodeLabel::Statement);
        self.indent = self.indent + LEVEL_INDENT;
        match &statement.kind {
            ASTStatementKind::Expression(e) => {
                self.visit_expression(e);
            },
        }
        self.indent = self.indent - LEVEL_INDENT;
        assert(self.lines@ =~= before + render_statement(*statement, self.indent as int));
    }
}

/// The printed lines of statements `ss`, one after the other.
pub open spec fn render_all(ss: Seq<ASTStatement>) -> Seq<PrintLine>
    decreases ss.len(),
{
    if ss.len() == 0 {
        seq![]
    } else {
        render_all(ss.drop_last()) + render_statement(ss.last(), 0)
    }
}

impl Ast {
    pub fn new() -> (r: Self)
        ensures
            r.statements@ == Seq::<ASTStatement>::empty(),
    {
        Ast { statements: Vec::new() }
    }

    pub fn add_statement(&mut self, statement: ASTStatement)
        ensures
            final(self).statements@ == old(self).statements@.push(statement),
    {
        self.statements.push(statement);
    }

    /// Hands each statement to `visitor`, in order.
    pub fn visit<V: ASTVisitor>(&self, visitor: &mut V)
        requires
            can_visit_all::<V>(old(visitor).state(), self.statements@),
        ensures
            final(visitor).state() == visit_all::<V>(old(visitor).state(), self.statements@),
    {
        let ghost start = visitor.state();
        let ghost ss = self.statements@;
        let mut i: usize = 0;
        while i < self.statements.len()
            invariant
                i <= ss.len(),
                ss == self.statements@,
                can_visit_all::<V>(start, ss),
                visitor.state() == visit_all::<V>(start, ss.subrange(0, i as int)),
            decreases ss.len() - i,
        {
            proof {
                lemma_can_visit_prefix::<V>(start, ss, i as int + 1);
                assert(ss.subrange(0, i + 1).drop_last() =~= ss.subrange(0, i as int));
            }
            visitor.visit_statement(&self.statements[i]);
            i = i + 1;
        }
        assert(ss.subrange(0, i as int) =~= ss);
    }

    /// Whether every statement is shallow enough for its outline's indents
    /// to fit in a `usize`, as [`Ast::visualize`] needs.
    pub fn fits_outline(&self) -> (r: bool)
        ensures
            r == forall|i: int|
                0 <= i < self.statements@.len() ==> 2 + 4 * expr_depth(
                    statement_expr(#[trigger] self.statements@[i]),
                ) <= usize::MAX,
    {
        let limit: usize = (usize::MAX - 2) / 4;
        let mut i: usize = 0;
        while i < self.statements.len()
            invariant
                i <= self.statements@.len(),
                limit == (usize::MAX - 2) / 4,
                forall|k: int|
                    0 <= k < i ==> 2 + 4 * expr_depth(statement_expr(#[trigger] self.statements@[k]))
                        <= usize::MAX,
            decreases self.statements@.len() - i,
        {
            let ASTStatementKind::Expression(e) = &self.statements[i].kind;
            match depth_within(e, limit) {
                Some(_) => {},
                None => {
                    assert(!(2 + 4 * expr_depth(statement_expr(self.statements@[i as int]))
                        <= usize::MAX));
                    return false;
                },
            }
            i = i + 1;
        }
        true
    }

    /// The outline of every statement, in order, each from column 0.
    pub fn visualize(&self) -> (r: Vec<PrintLine>)
        requires
            forall|i: int|
                0 <= i < self.statements@.len() ==> 2 + 4 * expr_depth(
                    statement_expr(#[trigger] self.statements@[i]),
                ) <= usize::MAX,
        ensures
            r@ == render_all(self.statements@),
    {
        let mut printer = ASTPrinter::new();
        proof {
            lemma_printer_runs(self.statements@);
        }
        self.visit(&mut printer);
        printer.lines
    }
}

/// The depth of `e` when it is at most `limit`.
fn depth_within(e: &ASTExpression, limit: usize) -> (r: Option<usize>)
    ensures
        match r {
            Some(d) => d == expr_depth(*e) && d <= limit,
            None => expr_depth(*e) > limit,
        },
    decreases e,
{
    if limit == 0 {
        return None;
    }
    match &e.kind {
        ASTExpressionKind::Number(_) => Some(1),
        ASTExpressionKind::Binary(b) => {
            let l = match depth_within(&b.left, limit - 1) {
                Some(l) => l,
                None => {
                    return None;
                },
            };
            let r = match depth_within(&b.right, limit - 1) {
                Some(r) => r,
                None => {
                    return None;
                },
            };
            if l >= r {
                Some(1 + l)
            } else {
                Some(1 + r)
            }
        },
        ASTExpressionKind::Parenthesized(p) => match depth_within(&p.expression, limit - 1) {
            Some(d) => Some(1 + d),
            None => None,
        },
    }
}

proof fn lemma_printer_runs(ss: Seq<ASTStatement>)
    requires
        forall|i: int|
            0 <= i < ss.len() ==> 2 + 4 * expr_depth(statement_expr(#[trigger] ss[i]))
                <= usize::MAX,
    ensures
        can_visit_all::<ASTPrinter>((0usize, Seq::empty()), ss),
        visit_all::<ASTPrinter>((0usize, Seq::empty()), ss) == (0usize, render_all(ss)),
    decreases ss.len(),
{
    if ss.len() > 0 {
        lemma_printer_runs(ss.drop_last());
        assert(ss.last() == ss[ss.len() - 1]);
    }
}

proof fn lemma_can_visit_prefix<V: ASTVisitor>(state: V::State, ss: Seq<ASTStatement>, k: int)
    requires
        0 <= k <= ss.len(),
        can_visit_all::<V>(state, ss),
    ensures
        can_visit_all::<V>(state, ss.subrange(0, k)),
    decreases ss.len() - k,
{
    if k < ss.len() {
        assert(ss.drop_last() =~= ss.subrange(0, ss.len() - 1));
        lemma_can_visit_prefix::<V>(state, ss.drop_last(), k);
        assert(ss.drop_last().subrange(0, k) =~= ss.subrange(0, k));
    } else {
        assert(ss.subrange(0, k) =~= ss);
    }
}

impl ASTStatement {
    pub fn new(kind: ASTStatementKind) -> (r: Self)
        ensures
            r.kind == kind,
    {
        ASTStatement { kind }
    }

    pub fn expression(expr: ASTExpression) -> (r: Self)
        ensures
            r.kind == ASTStatementKind::Expression(expr),
    {
        Self::new(ASTStatementKind::Expression(expr))
    }
}

impl ASTBinaryOperator {
    pub fn new(kind: ASTBinaryOperatorKind, token: Token) -> (r: Self)
        ensures
            r.kind == kind,
            r.token == token,
    {
        ASTBinaryOperator { kind, token }
    }

    pub fn precedence(&self) -> (r: u8)
        ensures
            r == precedence_of(self.kind),
    {
        match self.kind {
            ASTBinaryOperatorKind::Plus | ASTBinaryOperatorKind::Minus => 1,
            ASTBinaryOperatorKind::Multiply | ASTBinaryOperatorKind::Divide => 2,
        }
    }
}

impl ASTExpression {
    pub fn new(kind: ASTExpressionKind) -> (r: Self)
        ensures
            r.kind == kind,
    {
        ASTExpression { kind }
    }

    pub fn number(number: i64) -> (r: Self)
        ensures
            r == number_expr(number),
    {
        Self::new(ASTExpressionKind::Number(ASTNumberExpression { number }))
    }

    pub fn binary(left: ASTExpression, operator: ASTBinaryOperator, right: ASTExpression) -> (r:
        Self)
        ensures
            r == binary_expr(left, operator, right),
    {
        Self::new(
            ASTExpressionKind::Binary(
                ASTBinaryExpression { left: Box::new(left), operator, right: Box::new(right) },
            ),
        )
    }

    pub fn parenthesized(expression: ASTExpression) -> (r: Self)
        ensures
            r == paren_expr(expression),
    {
        Self::new(
            ASTExpressionKind::Parenthesized(
                ASTParenthesizedExpression { expression: Box::new(expression) },
            ),
        )
    }
}

} // verus!
