use vstd::prelude::*;
use vstd::std_specs::iter::IteratorSpec;

verus! {

/// What a token is, with the integer value of a number literal.
#[derive(Clone, Copy, Debug, PartialEq, Eq, Structural)]
pub enum TokenKind {
    Number(i64),
    Plus,
    Minus,
    Star,
    Slash,
    LeftParen,
    RightParen,
    Whitespace,
    Bad,
    End,
}

/// Where a token stands in the input: the characters `start..end`.
#[derive(Clone, Copy, Debug, PartialEq, Eq, Structural)]
pub struct TextSpan {
    pub start: usize,
    pub end: usize,
}

#[derive(Clone, Copy, Debug, PartialEq, Eq, Structural)]
pub struct Token {
    pub kind: TokenKind,
    pub span: TextSpan,
}

pub open spec fn is_digit(c: char) -> bool {
    '0' <= c && c <= '9'
}

/// The characters that have the Unicode `White_Space` property.
pub open spec fn is_space(c: char) -> bool {
    ||| c == '\t' || c == '\n' || c == '\u{0B}' || c == '\u{0C}' || c == '\r' || c == ' '
    ||| c == '\u{85}' || c == '\u{A0}' || c == '\u{1680}'
    ||| '\u{2000}' <= c && c <= '\u{200A}'
    ||| c == '\u{2028}' || c == '\u{2029}' || c == '\u{202F}' || c == '\u{205F}' || c == '\u{3000}'
}

/// First index at or after `i` that does not hold a digit.
pub open spec fn digit_run_end(s: Seq<char>, i: int) -> int
    decreases s.len() - i,
{
    if 0 <= i < s.len() && is_digit(s[i]) {
        digit_run_end(s, i + 1)
    } else {
        i
    }
}

/// First index at or after `i` that does not hold whitespace.
pub open spec fn space_run_end(s: Seq<char>, i: int) -> int
    decreases s.len() - i,
{
    if 0 <= i < s.len() && is_space(s[i]) {
        space_run_end(s, i + 1)
    } else {
        i
    }
}

/// The number that a sequence of decimal digits denotes.
pub open spec fn digits_value(d: Seq<char>) -> nat
    decreases d.len(),
{
    if d.len() == 0 {
        0
    } else {
        (digits_value(d.drop_last()) * 10 + (d.last() as int - '0' as int)) as nat
    }
}

/// Where the token that starts at `i` ends.
pub open spec fn token_end(s: Seq<char>, i: int) -> int {
    if is_digit(s[i]) {
        digit_run_end(s, i)
    } else if is_space(s[i]) {
        space_run_end(s, i)
    } else {
        i + 1
    }
}

/// The kind of the token that starts at `i`. A number too large for `i64`
/// is a `Bad` token.
pub open spec fn token_kind_at(s: Seq<char>, i: int) -> TokenKind {
    let c = s[i];
    if is_digit(c) {
        let v = digits_value(s.subrange(i, token_end(s, i)));
        if v <= i64::MAX {
            TokenKind::Number(v as i64)
        } else {
            TokenKind::Bad
        }
    } else if is_space(c) {
        TokenKind::Whitespace
    } else if c == '+' {
        TokenKind::Plus
    } else if c == '-' {
        TokenKind::Minus
    } else if c == '*' {
        TokenKind::Star
    } else if c == '/' {
        TokenKind::Slash
    } else if c == '(' {
        TokenKind::LeftParen
    } else if c == ')' {
        TokenKind::RightParen
    } else {
        TokenKind::Bad
    }
}

pub open spec fn token_at(s: Seq<char>, i: int) -> Token {
    Token {
        kind: token_kind_at(s, i),
        span: TextSpan { start: i as usize, end: token_end(s, i) as usize },
    }
}

pub open spec fn end_token(s: Seq<char>) -> Token {
    Token { kind: TokenKind::End, span: TextSpan { start: s.len() as usize, end: s.len() as usize } }
}

/// The tokens of `s` from index `i` on, closed by the `End` token.
pub open spec fn lex_from(s: Seq<char>, i: int) -> Seq<Token>
    decreases s.len() - i,
{
    if i < 0 || i >= s.len() {
        seq![end_token(s)]
    } else if token_end(s, i) <= i || token_end(s, i) > s.len() {
        seq![]
    } else {
        seq![token_at(s, i)] + lex_from(s, token_end(s, i))
    }
}

/// All the tokens of `s`, closed by the `End` token.
pub open spec fn lex(s: Seq<char>) -> Seq<Token> {
    lex_from(s, 0)
}

/// The text that the tokens `ts` cover in `s`, one after the other.
pub open spec fn literals(s: Seq<char>, ts: Seq<Token>) -> Seq<char>
    decreases ts.len(),
{
    if ts.len() == 0 {
        seq![]
    } else {
        literals(s, ts.drop_last()) + s.subrange(
            ts.last().span.start as int,
            ts.last().span.end as int,
        )
    }
}

pub proof fn lemma_digit_run_end(s: Seq<char>, i: int)
    requires
        0 <= i <= s.len(),
    ensures
        i <= digit_run_end(s, i) <= s.len(),
        forall|k: int| i <= k < digit_run_end(s, i) ==> is_digit(#[trigger] s[k]),
        digit_run_end(s, i) < s.len() ==> !is_digit(s[digit_run_end(s, i)]),
    decreases s.len() - i,
{
    if i < s.len() && is_digit(s[i]) {
        lemma_digit_run_end(s, i + 1);
    }
}

pub proof fn lemma_space_run_end(s: Seq<char>, i: int)
    requires
        0 <= i <= s.len(),
    ensures
        i <= space_run_end(s, i) <= s.len(),
        forall|k: int| i <= k < space_run_end(s, i) ==> is_space(#[trigger] s[k]),
        space_run_end(s, i) < s.len() ==> !is_space(s[space_run_end(s, i)]),
    decreases s.len() - i,
{
    if i < s.len() && is_space(s[i]) {
        lemma_space_run_end(s, i + 1);
    }
}

pub proof fn lemma_token_end(s: Seq<char>, i: int)
    requires
        0 <= i < s.len(),
    ensures
        i < token_end(s, i) <= s.len(),
{
    lemma_digit_run_end(s, i);
    lemma_space_run_end(s, i);
    if is_digit(s[i]) {
        lemma_digit_run_end(s, i + 1);
    }
    if is_space(s[i]) {
        lemma_space_run_end(s, i + 1);
    }
}

pub proof fn lemma_literals_append(s: Seq<char>, a: Seq<Token>, b: Seq<Token>)
    ensures
        literals(s, a + b) == literals(s, a) + literals(s, b),
    decreases b.len(),
{
    if b.len() == 0 {
        assert(a + b =~= a);
        assert(literals(s, a) + literals(s, b) =~= literals(s, a));
    } else {
        lemma_literals_append(s, a, b.drop_last());
        assert((a + b).drop_last() =~= a + b.drop_last());
        assert(literals(s, a + b) =~= literals(s, a) + literals(s, b));
    }
}

/// The tokens from `i` on cover the rest of the input exactly, and the last
/// of them is the `End` token.
pub proof fn lemma_lex_from_lossless(s: Seq<char>, i: int)
    requires
        0 <= i <= s.len(),
        s.len() <= usize::MAX,
    ensures
        lex_from(s, i).len() >= 1,
        lex_from(s, i).last() == end_token(s),
        literals(s, lex_from(s, i).drop_last()) == s.subrange(i, s.len() as int),
    decreases s.len() - i,
{
    if i == s.len() {
        assert(lex_from(s, i).drop_last() =~= seq![]);
        assert(s.subrange(i, s.len() as int) =~= seq![]);
    } else {
        lemma_token_end(s, i);
        let e = token_end(s, i);
        lemma_lex_from_lossless(s, e);
        let head = seq![token_at(s, i)];
        let rest = lex_from(s, e);
        assert(lex_from(s, i) == head + rest);
        assert(lex_from(s, i).drop_last() =~= head + rest.drop_last());
        lemma_literals_append(s, head, rest.drop_last());
        assert(head.drop_last() =~= Seq::<Token>::empty());
        assert(literals(s, Seq::<Token>::empty()) =~= Seq::<char>::empty());
        assert(literals(s, head) =~= s.subrange(i, e));
        assert(s.subrange(i, e) + s.subrange(e, s.len() as int) =~= s.subrange(i, s.len() as int));
    }
}

/// Lexing loses nothing: the text of every token but the closing `End`,
/// one after the other, is the input itself.
pub proof fn lemma_lex_lossless(s: Seq<char>)
    requires
        s.len() <= usize::MAX,
    ensures
        lex(s).len() >= 1,
        lex(s).last() == end_token(s),
        literals(s, lex(s).drop_last()) == s,
{
    lemma_lex_from_lossless(s, 0);
    assert(s.subrange(0, s.len() as int) =~= s);
}

fn is_digit_char(c: char) -> (r: bool)
    ensures
        r == is_digit(c),
{
    '0' <= c && c <= '9'
}

fn is_space_char(c: char) -> (r: bool)
    ensures
        r == is_space(c),
{
    c == '\t' || c == '\n' || c == '\u{0B}' || c == '\u{0C}' || c == '\r' || c == ' '
        || c == '\u{85}' || c == '\u{A0}' || c == '\u{1680}' || ('\u{2000}' <= c && c
        <= '\u{200A}') || c == '\u{2028}' || c == '\u{2029}' || c == '\u{202F}' || c
        == '\u{205F}' || c == '\u{3000}'
}

/// The characters of `s`, in order.
pub fn chars_of(s: &str) -> (r: Vec<char>)
    ensures
        r@ == s@,
{
    let mut it = s.chars();
    let mut r: Vec<char> = Vec::new();
    broadcast use vstd::string::axiom_spec_iter, vstd::string::next_postcondition;
    loop
        invariant
            it.obeys_prophetic_iter_laws(),
            r@ + it.remaining() == s@,
        decreases s@.len() - r@.len(),
    {
        match it.next() {
            Some(c) => {
                r.push(c);
            },
            None => {
                assert(r@ + it.remaining() =~= r@);
                return r;
            },
        }
    }
}

/// A single forward pass over the characters of one input.
pub struct Lexer {
    pub input: Vec<char>,
    pub current_pos: usize,
    pub finished: bool,
}

impl Lexer {
    pub open spec fn wf(&self) -> bool {
        &&& self.current_pos <= self.input@.len()
        &&& self.finished ==> self.current_pos == self.input@.len()
    }

    pub fn new(input: &str) -> (r: Self)
        ensures
            r.wf(),
            r.input@ == input@,
            r.current_pos == 0,
            !r.finished,
    {
        Lexer { input: chars_of(input), current_pos: 0, finished: false }
    }

    /// The next token, `End` once the input is used up, and `None` after that.
    pub fn next_token(&mut self) -> (r: Option<Token>)
        requires
            old(self).wf(),
        ensures
            final(self).wf(),
            final(self).input@ == old(self).input@,
            old(self).current_pos < old(self).input@.len() ==> {
                &&& r == Some(token_at(old(self).input@, old(self).current_pos as int))
                &&& final(self).current_pos == token_end(
                    old(self).input@,
                    old(self).current_pos as int,
                )
                &&& !final(self).finished
            },
            old(self).current_pos == old(self).input@.len() && !old(self).finished ==> {
                &&& r == Some(end_token(old(self).input@))
                &&& final(self).finished
            },
            old(self).finished ==> r is None && *final(self) == *old(self),
    {
        let len = self.input.len();
        if self.finished {
            return None;
        }
        if self.current_pos == len {
            self.finished = true;
            return Some(
                Token { kind: TokenKind::End, span: TextSpan { start: len, end: len } },
            );
        }
        let ghost s = self.input@;
        let start = self.current_pos;
        proof {
            lemma_digit_run_end(s, start as int);
            lemma_space_run_end(s, start as int);
        }
        let c = self.input[start];
        let kind;
        let mut end = start + 1;
        if is_digit_char(c) {
            let mut end_d = start;
            let mut value: i64 = 0;
            let mut fits = true;
            while end_d < len && is_digit_char(self.input[end_d])
                invariant
                    s == self.input@,
                    len == s.len(),
                    start <= end_d <= len,
                    digit_run_end(s, start as int) == digit_run_end(s, end_d as int),
                    fits ==> value == digits_value(s.subrange(start as int, end_d as int)),
                    !fits ==> digits_value(s.subrange(start as int, end_d as int)) > i64::MAX,
                    0 <= value,
                decreases len - end_d,
            {
                let ghost prev = s.subrange(start as int, end_d as int);
                let d = (self.input[end_d] as u32 - 48) as i64;
                assert(s.subrange(start as int, end_d + 1).drop_last() =~= prev);
                assert(0 <= d <= 9);
                if fits {
                    if value <= (i64::MAX - d) / 10 {
                        assert(value * 10 + d <= i64::MAX) by (nonlinear_arith)
                            requires
                                value <= (i64::MAX - d) / 10,
                                0 <= d <= 9,
                        ;
                        value = value * 10 + d;
                    } else {
                        assert(value * 10 + d > i64::MAX) by (nonlinear_arith)
                            requires
                                value > (i64::MAX - d) / 10,
                                0 <= d <= 9,
                        ;
                        fits = false;
                    }
                } else {
                    assert(digits_value(prev) * 10 + d >= digits_value(prev)) by (nonlinear_arith)
                        requires
                            0 <= d,
                    ;
                }
                end_d = end_d + 1;
            }
            end = end_d;
            if fits {
                kind = TokenKind::Number(value);
            } else {
                kind = TokenKind::Bad;
            }
        } else if is_space_char(c) {
            let mut end_s = start;
            while end_s < len && is_space_char(self.input[end_s])
                invariant
                    s == self.input@,
                    len == s.len(),
                    start <= end_s <= len,
                    space_run_end(s, start as int) == space_run_end(s, end_s as int),
                decreases len - end_s,
            {
                end_s = end_s + 1;
            }
            end = end_s;
            kind = TokenKind::Whitespace;
        } else if c == '+' {
            kind = TokenKind::Plus;
        } else if c == '-' {
            kind = TokenKind::Minus;
        } else if c == '*' {
            kind = TokenKind::Star;
        } else if c == '/' {
            kind = TokenKind::Slash;
        } else if c == '(' {
            kind = TokenKind::LeftParen;
        } else if c == ')' {
            kind = TokenKind::RightParen;
        } else {
            kind = TokenKind::Bad;
        }
        self.current_pos = end;
        Some(Token { kind, span: TextSpan { start, end } })
    }
}

/// Runs a lexer over `input` to its end: every token, the closing `End`
/// included. Their texts, but for `End`, make up the input again.
pub fn tokenize(input: &str) -> (r: Vec<Token>)
    ensures
        r@ == lex(input@),
        r@.len() >= 1,
        r@.last() == end_token(input@),
        literals(input@, r@.drop_last()) == input@,
{
    let mut lexer = Lexer::new(input);
    let ghost s = input@;
    let mut tokens: Vec<Token> = Vec::new();
    let n: usize = lexer.input.len();
    proof {
        assert(s.len() == n);
        lemma_lex_lossless(s);
    }
    loop
        invariant
            lexer.wf(),
            lexer.input@ == s,
            s == input@,
            s.len() <= usize::MAX,
            lex(s).len() >= 1,
            lex(s).last() == end_token(s),
            literals(s, lex(s).drop_last()) == s,
            !lexer.finished ==> tokens@ + lex_from(s, lexer.current_pos as int) == lex(s),
            lexer.finished ==> tokens@ == lex(s),
        decreases s.len() - lexer.current_pos + (if lexer.finished { 0int } else { 1int }),
    {
        let ghost pos = lexer.current_pos as int;
        proof {
            if pos < s.len() {
                lemma_token_end(s, pos);
            }
        }
        match lexer.next_token() {
            Some(token) => {
                proof {
                    if pos < s.len() {
                        assert(lex_from(s, pos) == seq![token] + lex_from(s, token_end(s, pos)));
                    } else {
                        assert(lex_from(s, pos) == seq![token]);
                    }
                }
                let ghost before = tokens@;
                tokens.push(token);
                assert(tokens@ == before.push(token));
                proof {
                    if pos < s.len() {
                        assert(tokens@ + lex_from(s, lexer.current_pos as int) =~= lex(s));
                    } else {
                        assert(tokens@ =~= lex(s));
                    }
                }
            },
            None => {
                return tokens;
            },
        }
    }
}

} // verus!
