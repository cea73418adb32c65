use exprcalc::lexer::{chars_of, tokenize, Lexer, TextSpan, Token, TokenKind};

#[test]
fn tokens_of_sum_with_parenthesized_product() {
    let tokens = tokenize("6 + (7 * 8)");
    let kinds: Vec<TokenKind> = tokens
        .iter()
        .map(|t| t.kind)
        .filter(|k| *k != TokenKind::Whitespace)
        .collect();
    assert_eq!(
        kinds,
        vec![
            TokenKind::Number(6),
            TokenKind::Plus,
            TokenKind::LeftParen,
            TokenKind::Number(7),
            TokenKind::Star,
            TokenKind::Number(8),
            TokenKind::RightParen,
            TokenKind::End,
        ]
    );
    assert_eq!(tokens.len(), 12);
    assert_eq!(tokens[1].kind, TokenKind::Whitespace);
}

#[test]
fn token_texts_rebuild_the_input() {
    let input = "12 +  (3*x) é/ 45\t)";
    let chars = chars_of(input);
    let tokens = tokenize(input);
    let mut rebuilt: Vec<char> = Vec::new();
    for t in &tokens[..tokens.len() - 1] {
        rebuilt.extend_from_slice(&chars[t.span.start..t.span.end]);
    }
    assert_eq!(rebuilt, chars);
    let last = tokens[tokens.len() - 1];
    assert_eq!(last.kind, TokenKind::End);
    assert_eq!(last.span, TextSpan { start: chars.len(), end: chars.len() });
}

#[test]
fn numbers_and_runs_are_maximal() {
    let tokens = tokenize("123   45");
    assert_eq!(tokens.len(), 4);
    assert_eq!(tokens[0], Token { kind: TokenKind::Number(123), span: TextSpan { start: 0, end: 3 } });
    assert_eq!(tokens[1], Token { kind: TokenKind::Whitespace, span: TextSpan { start: 3, end: 6 } });
    assert_eq!(tokens[2], Token { kind: TokenKind::Number(45), span: TextSpan { start: 6, end: 8 } });
}

#[test]
fn unknown_character_is_bad_and_skipped_over() {
    let tokens = tokenize("1$2");
    let kinds: Vec<TokenKind> = tokens.iter().map(|t| t.kind).collect();
    assert_eq!(
        kinds,
        vec![TokenKind::Number(1), TokenKind::Bad, TokenKind::Number(2), TokenKind::End]
    );
}

#[test]
fn cursor_counts_characters_not_bytes() {
    let tokens = tokenize("é1");
    assert_eq!(tokens[0].kind, TokenKind::Bad);
    assert_eq!(tokens[1], Token { kind: TokenKind::Number(1), span: TextSpan { start: 1, end: 2 } });
}

#[test]
fn number_too_large_is_bad() {
    let tokens = tokenize("9223372036854775807 9223372036854775808");
    assert_eq!(tokens[0].kind, TokenKind::Number(i64::MAX));
    assert_eq!(tokens[2].kind, TokenKind::Bad);
    assert_eq!(tokens[2].span, TextSpan { start: 20, end: 39 });
}

#[test]
fn end_is_emitted_once_then_none() {
    let mut lexer = Lexer::new("");
    let first = lexer.next_token();
    assert_eq!(first, Some(Token { kind: TokenKind::End, span: TextSpan { start: 0, end: 0 } }));
    assert_eq!(lexer.next_token(), None);
    assert_eq!(lexer.next_token(), None);
}
