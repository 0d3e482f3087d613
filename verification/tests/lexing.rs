use gamma_parser::ast::Span;
use gamma_parser::lexer::{lex, RawToken, Token};

fn kinds(tokens: &[Token]) -> Vec<RawToken> {
    tokens.iter().map(|t| t.raw).collect()
}

#[test]
fn classifies_every_token_kind() {
    let tokens = lex("; $ => . = lambda \\ let ( ) abc");
    assert_eq!(
        kinds(&tokens),
        vec![
            RawToken::Semicolon,
            RawToken::Dollar,
            RawToken::RightArrow,
            RawToken::Period,
            RawToken::Assign,
            RawToken::Lambda,
            RawToken::Lambda,
            RawToken::Let,
            RawToken::Lparen,
            RawToken::Rparen,
            RawToken::Identifier,
        ]
    );
}

#[test]
fn spans_and_literals_match_source() {
    let src = "let a = x;";
    let tokens = lex(src);
    assert_eq!(tokens.len(), 5);
    for t in &tokens {
        assert_eq!(t.literal, src.as_bytes()[t.span.start..t.span.end].to_vec());
    }
    assert_eq!(tokens[0].span, Span { start: 0, end: 3 });
    assert_eq!(tokens[1].span, Span { start: 4, end: 5 });
    assert_eq!(tokens[2].span, Span { start: 6, end: 7 });
    assert_eq!(tokens[3].span, Span { start: 8, end: 9 });
    assert_eq!(tokens[4].span, Span { start: 9, end: 10 });
}

#[test]
fn keywords_use_longest_match() {
    let tokens = lex("let letx lambda lambdas");
    assert_eq!(
        kinds(&tokens),
        vec![RawToken::Let, RawToken::Identifier, RawToken::Lambda, RawToken::Identifier]
    );
    assert_eq!(tokens[1].literal, b"letx".to_vec());
    assert_eq!(tokens[3].literal, b"lambdas".to_vec());
}

#[test]
fn assign_versus_right_arrow() {
    let tokens = lex("= => =x =>x");
    assert_eq!(
        kinds(&tokens),
        vec![
            RawToken::Assign,
            RawToken::RightArrow,
            RawToken::Assign,
            RawToken::Identifier,
            RawToken::RightArrow,
            RawToken::Identifier,
        ]
    );
}

#[test]
fn greek_lambda_is_two_bytes() {
    let tokens = lex("\u{03bb}x");
    assert_eq!(kinds(&tokens), vec![RawToken::Lambda, RawToken::Identifier]);
    assert_eq!(tokens[0].span, Span { start: 0, end: 2 });
    assert_eq!(tokens[1].span, Span { start: 2, end: 3 });
}

#[test]
fn unrecognized_bytes_become_error_tokens() {
    let tokens = lex("a # b");
    assert_eq!(
        kinds(&tokens),
        vec![RawToken::Identifier, RawToken::Error, RawToken::Identifier]
    );
    assert_eq!(tokens[1].span, Span { start: 2, end: 3 });
    assert_eq!(tokens[1].literal, b"#".to_vec());
}

#[test]
fn whitespace_is_skipped_not_tokens() {
    let tokens = lex(" \t\r\n a \u{c} b ");
    assert_eq!(kinds(&tokens), vec![RawToken::Identifier, RawToken::Identifier]);
    assert_eq!(tokens[0].span, Span { start: 5, end: 6 });
}

#[test]
fn identifiers_take_digits_and_underscore() {
    let tokens = lex("_x9 42abc");
    assert_eq!(kinds(&tokens), vec![RawToken::Identifier, RawToken::Identifier]);
    assert_eq!(tokens[0].literal, b"_x9".to_vec());
    assert_eq!(tokens[1].literal, b"42abc".to_vec());
}

#[test]
fn empty_source_has_no_tokens() {
    assert!(lex("").is_empty());
}
