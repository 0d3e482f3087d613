//! The tokenizer: classifies raw source bytes into tokens, longest match
//! first, skipping whitespace runs and never dropping unrecognized input.

use crate::ast::Span;
use vstd::prelude::*;
use vstd::slice::{slice_index_get, slice_subrange, slice_to_vec};
use vstd::string::StringSliceAdditionalSpecFns;

verus! {

/// The lexical classes of the language.
#[derive(Clone, Copy, Debug, PartialEq, Eq, Structural)]
pub enum RawToken {
    /// `;`
    Semicolon,
    /// `$`
    Dollar,
    /// `=>`
    RightArrow,
    /// `.`
    Period,
    /// `=`
    Assign,
    /// `lambda`, `\` or the Greek lowercase lambda
    Lambda,
    /// `let`
    Let,
    /// `(`
    Lparen,
    /// `)`
    Rparen,
    /// `[_0-9a-zA-Z]+`
    Identifier,
    /// A byte matching no lexical class; the parser must reject it itself.
    Error,
}

/// A classified piece of source text: its class, its byte range, and the
/// matched bytes themselves.
#[derive(Clone, Debug, PartialEq)]
pub struct Token {
    pub raw: RawToken,
    pub span: Span,
    pub literal: Vec<u8>,
}

/// The mathematical shape of a [`Token`].
pub ghost struct TokenModel {
    pub raw: RawToken,
    pub span: Span,
    pub literal: Seq<u8>,
}

impl View for Token {
    type V = TokenModel;

    open spec fn view(&self) -> TokenModel {
        TokenModel { raw: self.raw, span: self.span, literal: self.literal@ }
    }
}

/// Bytes skipped between tokens: space, tab, line feed, carriage return and
/// form feed.
pub open spec fn is_whitespace_byte(b: u8) -> bool {
    b == 32 || b == 9 || b == 10 || b == 13 || b == 12
}

/// Bytes that may make up an identifier: `_`, digits and ASCII letters.
pub open spec fn is_identifier_byte(b: u8) -> bool {
    b == 95 || (48 <= b && b <= 57) || (65 <= b && b <= 90) || (97 <= b && b <= 122)
}

/// The first position at or after `pos` whose byte no longer belongs to an
/// identifier run.
pub open spec fn identifier_end(src: Seq<u8>, pos: nat) -> nat
    decreases src.len() - pos,
{
    if pos < src.len() && is_identifier_byte(src[pos as int]) {
        identifier_end(src, pos + 1)
    } else {
        pos
    }
}

pub proof fn lemma_identifier_end(src: Seq<u8>, pos: nat)
    requires
        pos <= src.len(),
    ensures
        pos <= identifier_end(src, pos) <= src.len(),
        pos < src.len() && is_identifier_byte(src[pos as int]) ==> pos < identifier_end(src, pos),
        forall|i: int| pos <= i < identifier_end(src, pos) ==> is_identifier_byte(src[i]),
        identifier_end(src, pos) < src.len() ==> !is_identifier_byte(
            src[identifier_end(src, pos) as int],
        ),
    decreases src.len() - pos,
{
    if pos < src.len() && is_identifier_byte(src[pos as int]) {
        lemma_identifier_end(src, pos + 1);
    }
}

/// The bytes of the keyword `let`.
pub open spec fn let_bytes() -> Seq<u8> {
    seq![108u8, 101u8, 116u8]
}

/// The bytes of the keyword `lambda`.
pub open spec fn lambda_bytes() -> Seq<u8> {
    seq![108u8, 97u8, 109u8, 98u8, 100u8, 97u8]
}

/// A classification outcome: the class of the token starting at some
/// position, and the position one past its last byte.
pub ghost struct Lexeme {
    pub raw: RawToken,
    pub end: nat,
}

/// Longest-match classification of the token that starts at `pos`.  An
/// identifier run that spells a keyword is that keyword; `=` is `=>` only
/// when a `>` follows; the two-byte Greek lambda is recognized as a lambda
/// marker; any other unmatched byte is a one-byte `Error` token.
pub open spec fn lexeme_at(src: Seq<u8>, pos: nat) -> Lexeme
    recommends
        pos < src.len(),
{
    let b = src[pos as int];
    if is_identifier_byte(b) {
        let end = identifier_end(src, pos);
        let run = src.subrange(pos as int, end as int);
        if run == let_bytes() {
            Lexeme { raw: RawToken::Let, end }
        } else if run == lambda_bytes() {
            Lexeme { raw: RawToken::Lambda, end }
        } else {
            Lexeme { raw: RawToken::Identifier, end }
        }
    } else if b == 59 {
        Lexeme { raw: RawToken::Semicolon, end: pos + 1 }
    } else if b == 36 {
        Lexeme { raw: RawToken::Dollar, end: pos + 1 }
    } else if b == 40 {
        Lexeme { raw: RawToken::Lparen, end: pos + 1 }
    } else if b == 41 {
        Lexeme { raw: RawToken::Rparen, end: pos + 1 }
    } else if b == 46 {
        Lexeme { raw: RawToken::Period, end: pos + 1 }
    } else if b == 92 {
        Lexeme { raw: RawToken::Lambda, end: pos + 1 }
    } else if b == 61 {
        if pos + 1 < src.len() && src[pos as int + 1] == 62 {
            Lexeme { raw: RawToken::RightArrow, end: pos + 2 }
        } else {
            Lexeme { raw: RawToken::Assign, end: pos + 1 }
        }
    } else if b == 0xce {
        if pos + 1 < src.len() && src[pos as int + 1] == 0xbb {
            Lexeme { raw: RawToken::Lambda, end: pos + 2 }
        } else {
            Lexeme { raw: RawToken::Error, end: pos + 1 }
        }
    } else {
        Lexeme { raw: RawToken::Error, end: pos + 1 }
    }
}

pub proof fn lemma_lexeme_at(src: Seq<u8>, pos: nat)
    requires
        pos < src.len(),
    ensures
        pos < lexeme_at(src, pos).end <= src.len(),
{
    if is_identifier_byte(src[pos as int]) {
        lemma_identifier_end(src, pos);
    }
}

/// The token that starts at `pos`: its literal is exactly the matched range
/// of the source.
pub open spec fn token_model_at(src: Seq<u8>, pos: nat) -> TokenModel {
    let lx = lexeme_at(src, pos);
    TokenModel {
        raw: lx.raw,
        span: Span { start: pos as usize, end: lx.end as usize },
        literal: src.subrange(pos as int, lx.end as int),
    }
}

/// The token sequence of the source from `pos` on: whitespace is skipped,
/// every other byte starts a token.
pub open spec fn spec_lex_from(src: Seq<u8>, pos: nat) -> Seq<TokenModel>
    decreases src.len() - pos,
    via spec_lex_from_decreases
{
    if pos >= src.len() {
        Seq::empty()
    } else if is_whitespace_byte(src[pos as int]) {
        spec_lex_from(src, pos + 1)
    } else {
        seq![token_model_at(src, pos)] + spec_lex_from(src, lexeme_at(src, pos).end)
    }
}

#[via_fn]
proof fn spec_lex_from_decreases(src: Seq<u8>, pos: nat) {
    if pos < src.len() && !is_whitespace_byte(src[pos as int]) {
        lemma_lexeme_at(src, pos);
    }
}

/// The token sequence of the whole source.
pub open spec fn spec_lex(src: Seq<u8>) -> Seq<TokenModel> {
    spec_lex_from(src, 0)
}

/// Every produced token's span lies inside the source, never runs backwards
/// or is empty, its literal is exactly the spanned bytes, and tokens appear
/// in strict source order.
pub proof fn lemma_lex_spans(src: Seq<u8>, pos: nat)
    requires
        pos <= src.len(),
        src.len() <= usize::MAX,
    ensures
        forall|i: int|
            0 <= i < spec_lex_from(src, pos).len() ==> {
                let t = #[trigger] spec_lex_from(src, pos)[i];
                pos <= t.span.start < t.span.end <= src.len() && t.literal == src.subrange(
                    t.span.start as int,
                    t.span.end as int,
                )
            },
        forall|i: int|
            0 <= i && i + 1 < spec_lex_from(src, pos).len() ==> #[trigger] spec_lex_from(
                src,
                pos,
            )[i].span.end <= spec_lex_from(src, pos)[i + 1].span.start,
    decreases src.len() - pos,
{
    if pos >= src.len() {
    } else if is_whitespace_byte(src[pos as int]) {
        lemma_lex_spans(src, pos + 1);
    } else {
        lemma_lexeme_at(src, pos);
        lemma_lex_spans(src, lexeme_at(src, pos).end);
    }
}

fn byte_is_whitespace(b: u8) -> (r: bool)
    ensures
        r == is_whitespace_byte(b),
{
    b == 32 || b == 9 || b == 10 || b == 13 || b == 12
}

fn byte_is_identifier(b: u8) -> (r: bool)
    ensures
        r == is_identifier_byte(b),
{
    b == 95 || (48 <= b && b <= 57) || (65 <= b && b <= 90) || (97 <= b && b <= 122)
}

/// Scans to the end of the identifier run that starts at `pos`.
fn scan_identifier(src: &[u8], pos: usize) -> (end: usize)
    requires
        pos <= src@.len(),
    ensures
        end == identifier_end(src@, pos as nat),
{
    let n = src.len();
    let mut i = pos;
    loop
        invariant
            n == src@.len(),
            pos <= i <= n,
            identifier_end(src@, pos as nat) == identifier_end(src@, i as nat),
        ensures
            i == identifier_end(src@, pos as nat),
        decreases n - i,
    {
        if i >= n {
            break ;
        }
        let b = *slice_index_get(src, i);
        if !byte_is_identifier(b) {
            break ;
        }
        proof {
            assert(identifier_end(src@, i as nat) == identifier_end(src@, (i + 1) as nat));
        }
        i = i + 1;
    }
    i
}

/// Decides whether the identifier run `[pos, end)` spells a keyword.
fn keyword_kind(src: &[u8], pos: usize, end: usize) -> (raw: RawToken)
    requires
        pos < end <= src@.len(),
    ensures
        ({
            let run = src@.subrange(pos as int, end as int);
            raw == (if run == let_bytes() {
                RawToken::Let
            } else if run == lambda_bytes() {
                RawToken::Lambda
            } else {
                RawToken::Identifier
            })
        }),
{
    let ghost run = src@.subrange(pos as int, end as int);
    proof {
        assert(run.len() == end - pos);
    }
    let is_let: bool = end - pos == 3 && *slice_index_get(src, pos) == 108 && *slice_index_get(
        src,
        pos + 1,
    ) == 101 && *slice_index_get(src, pos + 2) == 116;
    if is_let {
        proof {
            assert(run =~= let_bytes());
        }
        return RawToken::Let;
    }
    let is_lambda: bool = end - pos == 6 && *slice_index_get(src, pos) == 108 && *slice_index_get(
        src,
        pos + 1,
    ) == 97 && *slice_index_get(src, pos + 2) == 109 && *slice_index_get(src, pos + 3) == 98
        && *slice_index_get(src, pos + 4) == 100 && *slice_index_get(src, pos + 5) == 97;
    if is_lambda {
        proof {
            assert(run =~= lambda_bytes());
        }
        return RawToken::Lambda;
    }
    proof {
        if run == let_bytes() {
            assert(run[0] == 108 && run[1] == 101 && run[2] == 116);
            assert(false);
        }
        if run == lambda_bytes() {
            assert(run[0] == 108 && run[1] == 97 && run[2] == 109 && run[3] == 98 && run[4] == 100
                && run[5] == 97);
            assert(false);
        }
    }
    RawToken::Identifier
}

/// Classifies the token that starts at `pos`, returning its class and the
/// position one past its last byte.
fn classify(src: &[u8], pos: usize) -> (r: (RawToken, usize))
    requires
        pos < src@.len(),
    ensures
        r.0 == lexeme_at(src@, pos as nat).raw,
        r.1 == lexeme_at(src@, pos as nat).end,
        pos < r.1 <= src@.len(),
{
    proof {
        lemma_lexeme_at(src@, pos as nat);
    }
    let n = src.len();
    let b = *slice_index_get(src, pos);
    if byte_is_identifier(b) {
        let end = scan_identifier(src, pos);
        proof {
            lemma_identifier_end(src@, pos as nat);
        }
        let raw = keyword_kind(src, pos, end);
        (raw, end)
    } else if b == 59 {
        (RawToken::Semicolon, pos + 1)
    } else if b == 36 {
        (RawToken::Dollar, pos + 1)
    } else if b == 40 {
        (RawToken::Lparen, pos + 1)
    } else if b == 41 {
        (RawToken::Rparen, pos + 1)
    } else if b == 46 {
        (RawToken::Period, pos + 1)
    } else if b == 92 {
        (RawToken::Lambda, pos + 1)
    } else if b == 61 {
        if pos + 1 < n && *slice_index_get(src, pos + 1) == 62 {
            (RawToken::RightArrow, pos + 2)
        } else {
            (RawToken::Assign, pos + 1)
        }
    } else if b == 0xce {
        if pos + 1 < n && *slice_index_get(src, pos + 1) == 0xbb {
            (RawToken::Lambda, pos + 2)
        } else {
            (RawToken::Error, pos + 1)
        }
    } else {
        (RawToken::Error, pos + 1)
    }
}

/// Tokenizes a byte slice: the result is exactly [`spec_lex`] of its
/// contents.
pub fn lex_bytes(src: &[u8]) -> (tokens: Vec<Token>)
    ensures
        tokens@.map_values(|t: Token| t@) == spec_lex(src@),
{
    let n = src.len();
    let mut tokens: Vec<Token> = Vec::new();
    let mut pos: usize = 0;
    proof {
        assert(tokens@.map_values(|t: Token| t@) + spec_lex_from(src@, 0) =~= spec_lex(src@));
    }
    while pos < n
        invariant
            n == src@.len(),
            pos <= n,
            tokens@.map_values(|t: Token| t@) + spec_lex_from(src@, pos as nat) == spec_lex(src@),
        decreases n - pos,
    {
        let b = *slice_index_get(src, pos);
        if byte_is_whitespace(b) {
            pos = pos + 1;
        } else {
            let (raw, end) = classify(src, pos);
            let literal = slice_to_vec(slice_subrange(src, pos, end));
            let t = Token { raw, span: Span { start: pos, end }, literal };
            proof {
                let prefix = tokens@.map_values(|x: Token| x@);
                let rest = spec_lex_from(src@, end as nat);
                assert(t@ == token_model_at(src@, pos as nat));
                assert(spec_lex_from(src@, pos as nat) == seq![t@] + rest);
                assert(tokens@.push(t).map_values(|x: Token| x@) =~= prefix.push(t@));
                assert(prefix.push(t@) + rest =~= prefix + (seq![t@] + rest));
            }
            tokens.push(t);
            pos = end;
        }
    }
    proof {
        assert(tokens@.map_values(|t: Token| t@) + spec_lex_from(src@, pos as nat) =~= tokens@.map_values(|t: Token| t@));
    }
    tokens
}

/// Tokenizes the whole source text into a finite token sequence.
pub fn lex(src: &str) -> (tokens: Vec<Token>)
    ensures
        tokens@.map_values(|t: Token| t@) == spec_lex(src.spec_bytes()),
{
    let bytes: &[u8] = src.as_bytes();
    lex_bytes(bytes)
}

} // verus!
