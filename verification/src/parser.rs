//! The single-token-lookahead recursive-descent parser.
//!
//! The grammar:
//!
//! ```text
//! Program    ::= Statement* EOF
//! Statement  ::= (Let | Expression) ";"
//! Let        ::= "let" Identifier "=" Expression
//! Expression ::= Abstraction | Application | Identifier | "(" Expression ")"
//! Application ::= Function Argument
//! Function   ::= Identifier | Application | "(" Expression ")"
//! Argument   ::= Identifier | "(" Expression ")"
//! ```
//!
//! The spec functions below define what parsing means, one per grammar rule:
//! each takes the cursor state and returns the state after the rule ran, the
//! diagnostics it recorded, and its result.  The executable methods of
//! [`Parser`] are proved to follow them exactly.
//!
//! Failure of a statement is local: the driving loop goes on with the next
//! attempt from wherever the lookahead sits, without resynchronizing to a
//! statement boundary, so one malformed statement can cascade into further
//! diagnostics; that weakness is kept deliberately.

use crate::ast::{Expression, ExpressionModel, Span, Statement, StatementModel, AST};
use crate::diagnostic::{diag_model, Diagnostic, DiagnosticModel, Level, SpanStyle};
use crate::lexer::{lex, spec_lex, RawToken, Token, TokenModel};
use vstd::prelude::*;
use vstd::slice::slice_to_vec;
use vstd::string::{StringExecFns, StringSliceAdditionalSpecFns};

verus! {

broadcast use vstd::seq_lib::group_seq_lib_default;

/// The cursor state the parser threads through every grammar rule: the fixed
/// token sequence, the index of the lookahead token, and the span of the last
/// consumed token (the anchor for end-of-input diagnostics).
pub ghost struct ParseState {
    pub tokens: Seq<TokenModel>,
    pub position: nat,
    pub previous: Option<Span>,
}

impl ParseState {
    /// The cursor never leaves the token sequence.
    pub open spec fn wf(self) -> bool {
        self.position <= self.tokens.len()
    }
}

/// What one grammar rule did: the state it left behind, the diagnostics it
/// recorded, and its result (`None` when the rule failed).
pub ghost struct Step<T> {
    pub state: ParseState,
    pub diags: Seq<DiagnosticModel>,
    pub result: Option<T>,
}

/// What a token check did: [`spec_check_token`].
pub ghost struct Check {
    pub state: ParseState,
    pub diags: Seq<DiagnosticModel>,
    pub ok: bool,
}

/// What parsing a whole program did.
pub ghost struct ProgramStep {
    pub state: ParseState,
    pub diags: Seq<DiagnosticModel>,
    pub statements: Seq<StatementModel>,
}

/// The lookahead token, if any input is left.
pub open spec fn lookahead(s: ParseState) -> Option<TokenModel> {
    if s.position < s.tokens.len() {
        Some(s.tokens[s.position as int])
    } else {
        None
    }
}

/// Moving past the lookahead: its span becomes the anchor for later
/// end-of-input diagnostics.  At the end of input nothing moves and the
/// anchor is cleared.
pub open spec fn spec_consume(s: ParseState) -> ParseState {
    match lookahead(s) {
        Some(t) => ParseState { tokens: s.tokens, position: s.position + 1, previous: Some(t.span) },
        None => ParseState { tokens: s.tokens, position: s.position, previous: None },
    }
}

/// Where a diagnostic points when there is no lookahead token: the last
/// consumed token, or the start of the file if nothing was ever consumed.
pub open spec fn eof_anchor(s: ParseState) -> Span {
    match s.previous {
        Some(sp) => sp,
        None => Span { start: 0, end: 1 },
    }
}

/// Where a diagnostic about the current position points.
pub open spec fn token_anchor(s: ParseState) -> Span {
    match lookahead(s) {
        Some(t) => t.span,
        None => eof_anchor(s),
    }
}

/// A syntax error: one primary label under the stable code `E001`.
pub open spec fn error_diag(span: Span, label: Seq<char>) -> DiagnosticModel {
    diag_model(Level::Error, "parsing error found"@, "E001"@, span, SpanStyle::Primary, label)
}

/// The diagnostic reported when input ends where a construct was expected.
pub open spec fn eof_diag(s: ParseState) -> DiagnosticModel {
    error_diag(eof_anchor(s), "unexpected end of file/input"@)
}

/// The non-fatal warning reported for the legacy `.` abstraction separator.
pub open spec fn deprecated_separator_diag(span: Span) -> DiagnosticModel {
    diag_model(
        Level::Warning,
        "use '=>' in abstractions"@,
        "W002"@,
        span,
        SpanStyle::Primary,
        "help: use '=>' instead of '.' because Gamma uses different syntax rather than usual one in Lambda calculus."@,
    )
}

/// Checking the lookahead against an expected class: on a match nothing is
/// consumed and nothing is reported; on a mismatch or at end of input a
/// diagnostic carrying `label` is recorded and one token is consumed.
pub open spec fn spec_check_token(s: ParseState, expected: RawToken, label: Seq<char>) -> Check {
    match lookahead(s) {
        Some(t) => {
            if t.raw == expected {
                Check { state: s, diags: Seq::empty(), ok: true }
            } else {
                Check { state: spec_consume(s), diags: seq![error_diag(t.span, label)], ok: false }
            }
        },
        None => Check {
            state: spec_consume(s),
            diags: seq![error_diag(eof_anchor(s), label)],
            ok: false,
        },
    }
}

/// Left-fold of an atom run into nested binary application: `f x y` is
/// `(f x) y`.  The folded span runs from the first atom's start to the last
/// atom's end.
pub open spec fn left_fold_apply(atoms: Seq<(ExpressionModel, Span)>) -> (ExpressionModel, Span)
    recommends
        atoms.len() >= 1,
    decreases atoms.len(),
{
    if atoms.len() <= 1 {
        atoms[0]
    } else {
        let front = left_fold_apply(atoms.drop_last());
        let last = atoms.last();
        (
            ExpressionModel::Apply {
                lhs: Box::new(front.0),
                lhs_span: front.1,
                rhs: Box::new(last.0),
                rhs_span: last.1,
            },
            Span { start: front.1.start, end: last.1.end },
        )
    }
}

/// Parsing an expression: dispatch on the lookahead.  A lambda marker starts
/// an abstraction; an identifier or `(` starts an application run; anything
/// else is rejected with a diagnostic and consumed.
pub open spec fn spec_parse_expression(s: ParseState) -> Step<(ExpressionModel, Span)>
    decreases s.tokens.len() - s.position, 4int,
{
    match lookahead(s) {
        None => Step { state: s, diags: seq![eof_diag(s)], result: None },
        Some(t) => {
            if t.raw == RawToken::Lambda {
                spec_parse_abstraction(s)
            } else if t.raw == RawToken::Lparen || t.raw == RawToken::Identifier {
                spec_parse_application(s)
            } else {
                Step {
                    state: spec_consume(s),
                    diags: seq![
                        error_diag(
                            t.span,
                            "expression must start with identifier, 'lambda', '\\' or '('"@,
                        ),
                    ],
                    result: None,
                }
            }
        },
    }
}

/// Parsing an abstraction: the lambda marker, the argument name, a separator
/// (`=>`, or `.` with a warning), then the body.  The recorded span ends at
/// the start of the token following the body, so a token must follow.
pub open spec fn spec_parse_abstraction(s: ParseState) -> Step<(ExpressionModel, Span)>
    decreases s.tokens.len() - s.position, 3int,
{
    if s.position >= s.tokens.len() {
        Step { state: s, diags: Seq::empty(), result: None }
    } else {
        let start = s.tokens[s.position as int].span.start;
        let s1 = spec_consume(s);
        let c1 = spec_check_token(s1, RawToken::Identifier, "expected argument name"@);
        if !c1.ok {
            Step { state: c1.state, diags: c1.diags, result: None }
        } else {
            let name_tok = s1.tokens[s1.position as int];
            let s2 = spec_consume(s1);
            let sep_is_period = lookahead(s2) matches Some(sep) && sep.raw == RawToken::Period;
            let sep_diags: Seq<DiagnosticModel> = if sep_is_period {
                seq![deprecated_separator_diag(s2.tokens[s2.position as int].span)]
            } else {
                Seq::empty()
            };
            let c2 = spec_check_token(s2, RawToken::RightArrow, "help: consider adding '=>'"@);
            if !sep_is_period && !c2.ok {
                Step { state: c2.state, diags: c2.diags, result: None }
            } else {
                let s3 = spec_consume(s2);
                let body = spec_parse_expression(s3);
                match body.result {
                    None => Step { state: body.state, diags: sep_diags + body.diags, result: None },
                    Some(b) => {
                        match lookahead(body.state) {
                            None => Step {
                                state: body.state,
                                diags: sep_diags + body.diags + seq![eof_diag(body.state)],
                                result: None,
                            },
                            Some(next) => Step {
                                state: body.state,
                                diags: sep_diags + body.diags,
                                result: Some(
                                    (
                                        ExpressionModel::Abstraction {
                                            name: name_tok.literal,
                                            name_span: name_tok.span,
                                            expression: Box::new(b.0),
                                            expression_span: b.1,
                                        },
                                        Span { start, end: next.span.start },
                                    ),
                                ),
                            },
                        }
                    },
                }
            }
        }
    }
}

/// Parsing a parenthesized expression: `(`, the inner expression, `)`.  The
/// recorded span ends at the start of the token following `)`, so a token
/// must follow even though the construct itself is complete.
pub open spec fn spec_parse_paren(s: ParseState) -> Step<(ExpressionModel, Span)>
    decreases s.tokens.len() - s.position, 0int,
{
    if s.position >= s.tokens.len() {
        Step { state: s, diags: Seq::empty(), result: None }
    } else {
        let start = s.tokens[s.position as int].span.start;
        let s1 = spec_consume(s);
        let inner = spec_parse_expression(s1);
        match inner.result {
            None => Step { state: inner.state, diags: inner.diags, result: None },
            Some(b) => {
                let c = spec_check_token(
                    inner.state,
                    RawToken::Rparen,
                    "help: consider adding ')' at the end of parenthesised expression"@,
                );
                if !c.ok {
                    Step { state: c.state, diags: inner.diags + c.diags, result: None }
                } else {
                    let s2 = spec_consume(c.state);
                    match lookahead(s2) {
                        None => Step {
                            state: s2,
                            diags: inner.diags + seq![eof_diag(s2)],
                            result: None,
                        },
                        Some(next) => Step {
                            state: s2,
                            diags: inner.diags,
                            result: Some(
                                (
                                    ExpressionModel::Paren {
                                        expression: Box::new(b.0),
                                        expression_span: b.1,
                                    },
                                    Span { start, end: next.span.start },
                                ),
                            ),
                        },
                    }
                }
            },
        }
    }
}

/// Collecting the maximal run of atoms (identifiers and parenthesized
/// expressions) that starts at the cursor, appended to `acc`.  The run stops
/// at the first lookahead that starts neither; end of input inside the run is
/// an error.
pub open spec fn spec_parse_atoms(s: ParseState, acc: Seq<(ExpressionModel, Span)>) -> Step<
    Seq<(ExpressionModel, Span)>,
>
    decreases s.tokens.len() - s.position, 2int,
{
    match lookahead(s) {
        None => Step { state: s, diags: seq![eof_diag(s)], result: None },
        Some(t) => {
            if t.raw == RawToken::Identifier {
                let atom = (ExpressionModel::Var { name: t.literal, name_span: t.span }, t.span);
                spec_parse_atoms(spec_consume(s), acc.push(atom))
            } else if t.raw == RawToken::Lparen {
                let st = spec_parse_paren(s);
                match st.result {
                    None => Step { state: st.state, diags: st.diags, result: None },
                    Some(atom) => {
                        // The condition keeps this recursion well-founded; the
                        // progress lemmas below show it always holds.
                        if s.position < st.state.position <= st.state.tokens.len()
                            && st.state.tokens.len() == s.tokens.len() {
                            let rest = spec_parse_atoms(st.state, acc.push(atom));
                            Step {
                                state: rest.state,
                                diags: st.diags + rest.diags,
                                result: rest.result,
                            }
                        } else {
                            Step { state: st.state, diags: st.diags, result: None }
                        }
                    },
                }
            } else {
                Step { state: s, diags: Seq::empty(), result: Some(acc) }
            }
        },
    }
}

/// Parsing an application run: zero atoms is an error, one atom stands
/// unwrapped, two or more fold left-associatively.
pub open spec fn spec_parse_application(s: ParseState) -> Step<(ExpressionModel, Span)>
    decreases s.tokens.len() - s.position, 3int,
{
    let st = spec_parse_atoms(s, Seq::empty());
    match st.result {
        None => Step { state: st.state, diags: st.diags, result: None },
        Some(atoms) => {
            if atoms.len() == 0 {
                Step {
                    state: st.state,
                    diags: st.diags + seq![
                        error_diag(token_anchor(st.state), "do not write empty expressions"@),
                    ],
                    result: None,
                }
            } else {
                Step { state: st.state, diags: st.diags, result: Some(left_fold_apply(atoms)) }
            }
        },
    }
}

/// Parsing a `let` statement: `let` Identifier `=` Expression `;`.  The
/// recorded span runs from the `let` keyword through the terminating `;`.
pub open spec fn spec_parse_let(s: ParseState) -> Step<StatementModel>
    decreases s.tokens.len() - s.position, 5int,
{
    if s.position >= s.tokens.len() {
        Step { state: s, diags: Seq::empty(), result: None }
    } else {
        let start = s.tokens[s.position as int].span.start;
        let s1 = spec_consume(s);
        let c1 = spec_check_token(
            s1,
            RawToken::Identifier,
            "expected name of variable in the let statement"@,
        );
        if !c1.ok {
            Step { state: c1.state, diags: c1.diags, result: None }
        } else {
            let name_tok = s1.tokens[s1.position as int];
            let s2 = spec_consume(s1);
            let c2 = spec_check_token(
                s2,
                RawToken::Assign,
                "help: consider adding '=' in the let statement"@,
            );
            if !c2.ok {
                Step { state: c2.state, diags: c2.diags, result: None }
            } else {
                let s3 = spec_consume(s2);
                let body = spec_parse_expression(s3);
                match body.result {
                    None => Step { state: body.state, diags: body.diags, result: None },
                    Some(b) => {
                        let c3 = spec_check_token(
                            body.state,
                            RawToken::Semicolon,
                            "help: consider adding ';' at the end of the let statement"@,
                        );
                        if !c3.ok {
                            Step { state: c3.state, diags: body.diags + c3.diags, result: None }
                        } else {
                            let semi = body.state.tokens[body.state.position as int];
                            Step {
                                state: spec_consume(c3.state),
                                diags: body.diags,
                                result: Some(
                                    StatementModel::Let {
                                        name: name_tok.literal,
                                        name_span: name_tok.span,
                                        expression: b.0,
                                        expression_span: b.1,
                                        span: Span { start, end: semi.span.end },
                                    },
                                ),
                            }
                        }
                    },
                }
            }
        }
    }
}

/// Parsing an expression statement: Expression `;`.  The recorded span runs
/// from the expression's start through the terminating `;`.
pub open spec fn spec_parse_expression_statement(s: ParseState) -> Step<StatementModel>
    decreases s.tokens.len() - s.position, 5int,
{
    let body = spec_parse_expression(s);
    match body.result {
        None => Step { state: body.state, diags: body.diags, result: None },
        Some(b) => {
            let c = spec_check_token(
                body.state,
                RawToken::Semicolon,
                "help: consider adding ';' at the end of expression statement"@,
            );
            if !c.ok {
                Step { state: c.state, diags: body.diags + c.diags, result: None }
            } else {
                let semi = body.state.tokens[body.state.position as int];
                Step {
                    state: spec_consume(c.state),
                    diags: body.diags,
                    result: Some(
                        StatementModel::Expression {
                            expression: b.0,
                            expression_span: b.1,
                            span: Span { start: b.1.start, end: semi.span.end },
                        },
                    ),
                }
            }
        },
    }
}

/// Parsing one statement: `let` dispatches to a let statement, anything else
/// to an expression statement; end of input is an error.
pub open spec fn spec_parse_statement(s: ParseState) -> Step<StatementModel>
    decreases s.tokens.len() - s.position, 6int,
{
    match lookahead(s) {
        None => Step { state: s, diags: seq![eof_diag(s)], result: None },
        Some(t) => {
            if t.raw == RawToken::Let {
                spec_parse_let(s)
            } else {
                spec_parse_expression_statement(s)
            }
        },
    }
}

/// Parsing a whole program: statements are attempted while input remains;
/// each success is appended, each failure is skipped, and the loop goes on
/// from wherever the failed attempt left the cursor.
pub open spec fn spec_parse_program(s: ParseState) -> ProgramStep
    decreases s.tokens.len() - s.position, 7int,
{
    if s.position >= s.tokens.len() {
        ProgramStep { state: s, diags: Seq::empty(), statements: Seq::empty() }
    } else {
        let st = spec_parse_statement(s);
        let first: Seq<StatementModel> = match st.result {
            Some(m) => seq![m],
            None => Seq::empty(),
        };
        // The condition keeps this recursion well-founded; lemma_statement_progress
        // shows it always holds.
        if s.position < st.state.position <= st.state.tokens.len() && st.state.tokens.len()
            == s.tokens.len() {
            let rest = spec_parse_program(st.state);
            ProgramStep {
                state: rest.state,
                diags: st.diags + rest.diags,
                statements: first + rest.statements,
            }
        } else {
            ProgramStep { state: st.state, diags: st.diags, statements: first }
        }
    }
}

/// Every grammar rule leaves the token sequence alone and moves the cursor
/// forward, never past the end; a rule whose first token is present moves it
/// strictly.  The lemmas below establish this, one per rule.
pub proof fn lemma_paren_progress(s: ParseState)
    requires
        s.wf(),
    ensures
        ({
            let st = spec_parse_paren(s);
            st.state.tokens == s.tokens && s.position <= st.state.position <= s.tokens.len() && (
            s.position < s.tokens.len() ==> s.position < st.state.position)
        }),
    decreases s.tokens.len() - s.position, 1int,
{
    if s.position < s.tokens.len() {
        lemma_expression_progress(spec_consume(s));
    }
}

pub proof fn lemma_atoms_progress(s: ParseState, acc: Seq<(ExpressionModel, Span)>)
    requires
        s.wf(),
    ensures
        ({
            let st = spec_parse_atoms(s, acc);
            st.state.tokens == s.tokens && s.position <= st.state.position <= s.tokens.len() && (
            match st.result {
                Some(res) => res.len() >= acc.len() && (res.len() > acc.len() ==> s.position
                    < st.state.position),
                None => true,
            }) && (match lookahead(s) {
                Some(t) => (t.raw == RawToken::Identifier || t.raw == RawToken::Lparen)
                    ==> s.position < st.state.position,
                None => true,
            })
        }),
    decreases s.tokens.len() - s.position, 3int,
{
    match lookahead(s) {
        None => {},
        Some(t) => {
            if t.raw == RawToken::Identifier {
                let atom = (ExpressionModel::Var { name: t.literal, name_span: t.span }, t.span);
                lemma_atoms_progress(spec_consume(s), acc.push(atom));
            } else if t.raw == RawToken::Lparen {
                lemma_paren_progress(s);
                let st = spec_parse_paren(s);
                match st.result {
                    None => {},
                    Some(atom) => {
                        lemma_atoms_progress(st.state, acc.push(atom));
                    },
                }
            }
        },
    }
}

pub proof fn lemma_application_progress(s: ParseState)
    requires
        s.wf(),
    ensures
        ({
            let st = spec_parse_application(s);
            st.state.tokens == s.tokens && s.position <= st.state.position <= s.tokens.len() && (
            match lookahead(s) {
                Some(t) => (t.raw == RawToken::Identifier || t.raw == RawToken::Lparen)
                    ==> s.position < st.state.position,
                None => true,
            })
        }),
    decreases s.tokens.len() - s.position, 4int,
{
    lemma_atoms_progress(s, Seq::empty());
}

pub proof fn lemma_abstraction_progress(s: ParseState)
    requires
        s.wf(),
    ensures
        ({
            let st = spec_parse_abstraction(s);
            st.state.tokens == s.tokens && s.position <= st.state.position <= s.tokens.len() && (
            s.position < s.tokens.len() ==> s.position < st.state.position)
        }),
    decreases s.tokens.len() - s.position, 4int,
{
    if s.position < s.tokens.len() {
        let s1 = spec_consume(s);
        let c1 = spec_check_token(s1, RawToken::Identifier, "expected argument name"@);
        if c1.ok {
            let s2 = spec_consume(s1);
            let sep_is_period = lookahead(s2) matches Some(sep) && sep.raw == RawToken::Period;
            let c2 = spec_check_token(s2, RawToken::RightArrow, "help: consider adding '=>'"@);
            if sep_is_period || c2.ok {
                lemma_expression_progress(spec_consume(s2));
            }
        }
    }
}

pub proof fn lemma_expression_progress(s: ParseState)
    requires
        s.wf(),
    ensures
        ({
            let st = spec_parse_expression(s);
            st.state.tokens == s.tokens && s.position <= st.state.position <= s.tokens.len() && (
            s.position < s.tokens.len() ==> s.position < st.state.position)
        }),
    decreases s.tokens.len() - s.position, 5int,
{
    match lookahead(s) {
        None => {},
        Some(t) => {
            if t.raw == RawToken::Lambda {
                lemma_abstraction_progress(s);
            } else if t.raw == RawToken::Lparen || t.raw == RawToken::Identifier {
                lemma_application_progress(s);
            }
        },
    }
}

pub proof fn lemma_let_progress(s: ParseState)
    requires
        s.wf(),
    ensures
        ({
            let st = spec_parse_let(s);
            st.state.tokens == s.tokens && s.position <= st.state.position <= s.tokens.len() && (
            s.position < s.tokens.len() ==> s.position < st.state.position)
        }),
    decreases s.tokens.len() - s.position, 6int,
{
    if s.position < s.tokens.len() {
        let s1 = spec_consume(s);
        let c1 = spec_check_token(
            s1,
            RawToken::Identifier,
            "expected name of variable in the let statement"@,
        );
        if c1.ok {
            let s2 = spec_consume(s1);
            let c2 = spec_check_token(
                s2,
                RawToken::Assign,
                "help: consider adding '=' in the let statement"@,
            );
            if c2.ok {
                lemma_expression_progress(spec_consume(s2));
            }
        }
    }
}

pub proof fn lemma_expression_statement_progress(s: ParseState)
    requires
        s.wf(),
    ensures
        ({
            let st = spec_parse_expression_statement(s);
            st.state.tokens == s.tokens && s.position <= st.state.position <= s.tokens.len() && (
            s.position < s.tokens.len() ==> s.position < st.state.position)
        }),
    decreases s.tokens.len() - s.position, 6int,
{
    lemma_expression_progress(s);
}

pub proof fn lemma_statement_progress(s: ParseState)
    requires
        s.wf(),
    ensures
        ({
            let st = spec_parse_statement(s);
            st.state.tokens == s.tokens && s.position <= st.state.position <= s.tokens.len() && (
            s.position < s.tokens.len() ==> s.position < st.state.position)
        }),
    decreases s.tokens.len() - s.position, 7int,
{
    match lookahead(s) {
        None => {},
        Some(t) => {
            if t.raw == RawToken::Let {
                lemma_let_progress(s);
            } else {
                lemma_expression_statement_progress(s);
            }
        },
    }
}

/// The views of a collected atom run.
pub open spec fn atoms_model(v: Seq<(Expression, Span)>) -> Seq<(ExpressionModel, Span)> {
    v.map_values(|p: (Expression, Span)| (p.0@, p.1))
}

/// The view of an optional expression result.
pub open spec fn expression_result_model(r: Option<(Expression, Span)>) -> Option<
    (ExpressionModel, Span),
> {
    match r {
        Some(p) => Some((p.0@, p.1)),
        None => None,
    }
}

/// The view of an optional statement result.
pub open spec fn statement_result_model(r: Option<Statement>) -> Option<StatementModel> {
    match r {
        Some(st) => Some(st@),
        None => None,
    }
}

/// The parser.  It owns the token cursor and records every diagnostic as a
/// value in `diagnostics`; rendering them is the caller's business.
pub struct Parser {
    tokens: Vec<Token>,
    position: usize,
    previous_token_span: Option<Span>,
    /// The name the source was presented under, kept for diagnostic
    /// rendering by the caller.
    pub filename: String,
    /// Everything reported so far, in the order it was reported.
    pub diagnostics: Vec<Diagnostic>,
}

/// The mathematical shape of a [`Parser`]: its cursor state, its recorded
/// diagnostics, and the source name.
pub ghost struct ParserModel {
    pub state: ParseState,
    pub diagnostics: Seq<DiagnosticModel>,
    pub filename: Seq<char>,
}

impl View for Parser {
    type V = ParserModel;

    closed spec fn view(&self) -> ParserModel {
        ParserModel {
            state: ParseState {
                tokens: self.tokens@.map_values(|t: Token| t@),
                position: self.position as nat,
                previous: self.previous_token_span,
            },
            diagnostics: self.diagnostics@.map_values(|d: Diagnostic| d@),
            filename: self.filename@,
        }
    }
}

impl Parser {
    pub open spec fn wf(self) -> bool {
        self@.state.wf()
    }

    /// Builds a parser over the token sequence of `source`; `filename` is
    /// kept so the caller can render diagnostics against the right source.
    pub fn new(source: &str, filename: &str) -> (parser: Parser)
        ensures
            parser.wf(),
            parser@.state.tokens == spec_lex(source.spec_bytes()),
            parser@.state.position == 0,
            parser@.state.previous is None,
            parser@.diagnostics == Seq::<DiagnosticModel>::empty(),
            parser@.filename == filename@,
    {
        let parser = Parser {
            tokens: lex(source),
            position: 0,
            previous_token_span: None,
            filename: filename.to_owned(),
            diagnostics: Vec::new(),
        };
        proof {
            assert(parser@.diagnostics =~= Seq::<DiagnosticModel>::empty());
        }
        parser
    }

    /// True when a lookahead token exists.
    fn has_token(&self) -> (r: bool)
        ensures
            r == (lookahead(self@.state) is Some),
    {
        self.position < self.tokens.len()
    }

    /// The class of the lookahead token.
    fn current_raw(&self) -> (raw: RawToken)
        requires
            lookahead(self@.state) is Some,
        ensures
            raw == self@.state.tokens[self@.state.position as int].raw,
    {
        self.tokens[self.position].raw
    }

    /// The span of the lookahead token.
    fn current_span(&self) -> (sp: Span)
        requires
            lookahead(self@.state) is Some,
        ensures
            sp == self@.state.tokens[self@.state.position as int].span,
    {
        self.tokens[self.position].span
    }

    /// A copy of the lookahead token's literal.
    fn current_literal(&self) -> (lit: Vec<u8>)
        requires
            lookahead(self@.state) is Some,
        ensures
            lit@ == self@.state.tokens[self@.state.position as int].literal,
    {
        slice_to_vec(self.tokens[self.position].literal.as_slice())
    }

    /// Moves past the lookahead token; the only mutator of the cursor.
    fn consume_token(&mut self)
        requires
            old(self).wf(),
        ensures
            final(self).wf(),
            final(self)@.state == spec_consume(old(self)@.state),
            final(self)@.diagnostics == old(self)@.diagnostics,
            final(self)@.filename == old(self)@.filename,
    {
        if self.position < self.tokens.len() {
            self.previous_token_span = Some(self.tokens[self.position].span);
            self.position = self.position + 1;
        } else {
            self.previous_token_span = None;
        }
    }

    /// Records one diagnostic.
    fn emit(&mut self, d: Diagnostic)
        ensures
            final(self)@.state == old(self)@.state,
            final(self)@.diagnostics == old(self)@.diagnostics.push(d@),
            final(self)@.filename == old(self)@.filename,
    {
        let ghost before = self.diagnostics@.map_values(|x: Diagnostic| x@);
        self.diagnostics.push(d);
        proof {
            assert(self.diagnostics@.map_values(|x: Diagnostic| x@) =~= before.push(d@));
        }
    }

    /// Reports that input ended where a construct was expected, anchored at
    /// the last consumed token, or at the start of the file if nothing was
    /// ever consumed.
    pub fn unexpected_eof(&mut self)
        requires
            old(self).wf(),
        ensures
            final(self).wf(),
            final(self)@.state == old(self)@.state,
            final(self)@.diagnostics == old(self)@.diagnostics.push(eof_diag(old(self)@.state)),
            final(self)@.filename == old(self)@.filename,
    {
        let anchor = match self.previous_token_span {
            Some(sp) => sp,
            None => Span { start: 0, end: 1 },
        };
        let d = Diagnostic::labelled(
            Level::Error,
            String::from_str("parsing error found"),
            String::from_str("E001"),
            anchor,
            SpanStyle::Primary,
            String::from_str("unexpected end of file/input"),
        );
        self.emit(d);
    }

    /// Reports that the lookahead token cannot stand here, under `message`.
    pub fn unexpected_token(&mut self, message: String)
        requires
            old(self).wf(),
            lookahead(old(self)@.state) is Some,
        ensures
            final(self).wf(),
            final(self)@.state == old(self)@.state,
            final(self)@.diagnostics == old(self)@.diagnostics.push(
                error_diag(old(self)@.state.tokens[old(self)@.state.position as int].span, message@),
            ),
            final(self)@.filename == old(self)@.filename,
    {
        let anchor = self.current_span();
        let d = Diagnostic::labelled(
            Level::Error,
            String::from_str("parsing error found"),
            String::from_str("E001"),
            anchor,
            SpanStyle::Primary,
            message,
        );
        self.emit(d);
    }

    /// Checks the lookahead against `expected`: on a match nothing is
    /// consumed or reported and the check succeeds; otherwise a diagnostic
    /// carrying `message` is reported, one token is consumed, and the check
    /// fails.
    pub fn check_token(&mut self, expected: RawToken, message: String) -> (ok: bool)
        requires
            old(self).wf(),
        ensures
            final(self).wf(),
            ({
                let c = spec_check_token(old(self)@.state, expected, message@);
                final(self)@.state == c.state && final(self)@.diagnostics == old(self)@.diagnostics
                    + c.diags && ok == c.ok && final(self)@.filename == old(self)@.filename
            }),
    {
        let ghost c = spec_check_token(old(self)@.state, expected, message@);
        if self.has_token() {
            if self.current_raw() == expected {
                proof {
                    assert(final(self)@.diagnostics =~= old(self)@.diagnostics + c.diags);
                }
                return true;
            }
            let anchor = self.current_span();
            let d = Diagnostic::labelled(
                Level::Error,
                String::from_str("parsing error found"),
                String::from_str("E001"),
                anchor,
                SpanStyle::Primary,
                message,
            );
            self.emit(d);
            self.consume_token();
            proof {
                assert(final(self)@.diagnostics =~= old(self)@.diagnostics + c.diags);
            }
            false
        } else {
            let anchor = match self.previous_token_span {
                Some(sp) => sp,
                None => Span { start: 0, end: 1 },
            };
            let d = Diagnostic::labelled(
                Level::Error,
                String::from_str("parsing error found"),
                String::from_str("E001"),
                anchor,
                SpanStyle::Primary,
                message,
            );
            self.emit(d);
            self.consume_token();
            proof {
                assert(final(self)@.diagnostics =~= old(self)@.diagnostics + c.diags);
            }
            false
        }
    }

    /// Parses a bare identifier into a variable reference.
    fn parse_name_expression(&mut self) -> (r: Option<(Expression, Span)>)
        requires
            old(self).wf(),
            lookahead(old(self)@.state) is Some,
        ensures
            final(self).wf(),
            final(self)@.state == spec_consume(old(self)@.state),
            final(self)@.diagnostics == old(self)@.diagnostics,
            final(self)@.filename == old(self)@.filename,
            ({
                let t = old(self)@.state.tokens[old(self)@.state.position as int];
                expression_result_model(r) == Some(
                    ((ExpressionModel::Var { name: t.literal, name_span: t.span }), t.span),
                )
            }),
    {
        let name = self.current_literal();
        let name_span = self.current_span();
        self.consume_token();
        Some((Expression::Var { name, name_span }, name_span))
    }

    /// Parses `(` Expression `)`.  The node's span ends at the start of the
    /// token following `)`, which therefore must exist.
    fn parse_paren_expression(&mut self) -> (r: Option<(Expression, Span)>)
        requires
            old(self).wf(),
            lookahead(old(self)@.state) is Some,
        ensures
            final(self).wf(),
            ({
                let st = spec_parse_paren(old(self)@.state);
                final(self)@.state == st.state && final(self)@.diagnostics == old(self)@.diagnostics + st.diags && expression_result_model(r) == st.result && final(self)@.filename == old(self)@.filename
            }),
        decreases old(self)@.state.tokens.len() - old(self)@.state.position, 1int,
    {
        let ghost st = spec_parse_paren(old(self)@.state);
        let start = self.current_span().start;
        self.consume_token();
        let inner = self.parse_expression();
        match inner {
            None => {
                proof {
                    assert(self@.diagnostics =~= old(self)@.diagnostics + st.diags);
                }
                None
            },
            Some(pair) => {
                let (expression, expression_span) = pair;
                if !self.check_token(
                    RawToken::Rparen,
                    String::from_str("help: consider adding ')' at the end of parenthesised expression"),
                ) {
                    proof {
                        assert(self@.diagnostics =~= old(self)@.diagnostics + st.diags);
                    }
                    return None;
                }
                self.consume_token();
                if !self.has_token() {
                    self.unexpected_eof();
                    proof {
                        assert(self@.diagnostics =~= old(self)@.diagnostics + st.diags);
                    }
                    return None;
                }
                let end = self.current_span().start;
                let r = Some(
                    (
                        Expression::Paren { expression: Box::new(expression), expression_span },
                        Span { start, end },
                    ),
                );
                proof {
                    assert(self@.diagnostics =~= old(self)@.diagnostics + st.diags);
                    assert(expression_result_model(r) == st.result);
                }
                r
            },
        }
    }

    /// Parses a lambda abstraction: the marker, the argument name, `=>` (or
    /// the legacy `.`, with a warning), then the body.  The node's span ends
    /// at the start of the token following the body.
    fn parse_abstraction_expression(&mut self) -> (r: Option<(Expression, Span)>)
        requires
            old(self).wf(),
            lookahead(old(self)@.state) is Some,
        ensures
            final(self).wf(),
            ({
                let st = spec_parse_abstraction(old(self)@.state);
                final(self)@.state == st.state && final(self)@.diagnostics == old(self)@.diagnostics + st.diags && expression_result_model(r) == st.result && final(self)@.filename == old(self)@.filename
            }),
        decreases old(self)@.state.tokens.len() - old(self)@.state.position, 3int,
    {
        let ghost st = spec_parse_abstraction(old(self)@.state);
        let start = self.current_span().start;
        self.consume_token();
        if !self.check_token(RawToken::Identifier, String::from_str("expected argument name")) {
            proof {
                assert(self@.diagnostics =~= old(self)@.diagnostics + st.diags);
            }
            return None;
        }
        let name = self.current_literal();
        let name_span = self.current_span();
        self.consume_token();
        let sep_is_period = self.has_token() && self.current_raw() == RawToken::Period;
        if sep_is_period {
            let d = Diagnostic::labelled(
                Level::Warning,
                String::from_str("use '=>' in abstractions"),
                String::from_str("W002"),
                self.current_span(),
                SpanStyle::Primary,
                String::from_str("help: use '=>' instead of '.' because Gamma uses different syntax rather than usual one in Lambda calculus."),
            );
            self.emit(d);
        } else {
            if !self.check_token(RawToken::RightArrow, String::from_str("help: consider adding '=>'")) {
                proof {
                    assert(self@.diagnostics =~= old(self)@.diagnostics + st.diags);
                }
                return None;
            }
        }
        self.consume_token();
        let body = self.parse_expression();
        match body {
            None => {
                proof {
                    assert(self@.diagnostics =~= old(self)@.diagnostics + st.diags);
                }
                None
            },
            Some(pair) => {
                let (expression, expression_span) = pair;
                if !self.has_token() {
                    self.unexpected_eof();
                    proof {
                        assert(self@.diagnostics =~= old(self)@.diagnostics + st.diags);
                    }
                    return None;
                }
                let end = self.current_span().start;
                let r = Some(
                    (
                        Expression::Abstraction {
                            name,
                            name_span,
                            expression: Box::new(expression),
                            expression_span,
                        },
                        Span { start, end },
                    ),
                );
                proof {
                    assert(self@.diagnostics =~= old(self)@.diagnostics + st.diags);
                    assert(expression_result_model(r) == st.result);
                }
                r
            },
        }
    }

    /// Parses a maximal run of atoms (identifiers and parenthesized
    /// expressions) and folds it into left-nested binary application: `f x y`
    /// is `(f x) y`.  An empty run is an error; a single atom stands
    /// unwrapped.
    fn parse_application(&mut self) -> (r: Option<(Expression, Span)>)
        requires
            old(self).wf(),
        ensures
            final(self).wf(),
            ({
                let st = spec_parse_application(old(self)@.state);
                final(self)@.state == st.state && final(self)@.diagnostics == old(self)@.diagnostics + st.diags && expression_result_model(r) == st.result && final(self)@.filename == old(self)@.filename
            }),
        decreases old(self)@.state.tokens.len() - old(self)@.state.position, 3int,
    {
        let ghost s0 = old(self)@.state;
        let ghost d0 = old(self)@.diagnostics;
        let ghost full = spec_parse_atoms(s0, Seq::empty());
        let mut expressions: Vec<(Expression, Span)> = Vec::new();
        proof {
            assert(atoms_model(expressions@) =~= Seq::<(ExpressionModel, Span)>::empty());
        }
        loop
            invariant
                self.wf(),
                s0 == old(self)@.state,
                d0 == old(self)@.diagnostics,
                full == spec_parse_atoms(s0, Seq::empty()),
                self@.filename == old(self)@.filename,
                old(self)@.state.tokens == self@.state.tokens,
                old(self)@.state.position <= self@.state.position,
                ({
                    let cur = spec_parse_atoms(self@.state, atoms_model(expressions@));
                    full.state == cur.state && full.result == cur.result && d0 + full.diags
                        == self@.diagnostics + cur.diags
                }),
            ensures
                self.wf(),
                self@.filename == old(self)@.filename,
                lookahead(self@.state) matches Some(t) && t.raw != RawToken::Identifier && t.raw
                    != RawToken::Lparen,
                full.state == self@.state,
                full.result == Some(atoms_model(expressions@)),
                self@.diagnostics == d0 + full.diags,
            decreases self@.state.tokens.len() - self@.state.position,
        {
            let ghost sc = self@.state;
            let ghost accv = atoms_model(expressions@);
            let ghost db = self@.diagnostics;
            if !self.has_token() {
                self.unexpected_eof();
                proof {
                    let cur = spec_parse_atoms(sc, accv);
                    assert(cur.diags == seq![eof_diag(sc)]);
                    assert(self@.diagnostics =~= db + seq![eof_diag(sc)]);
                    assert(self@.diagnostics == d0 + full.diags);
                    assert(full.result is None);
                    reveal_with_fuel(spec_parse_application, 1);
                    assert(spec_parse_application(s0).diags == full.diags);
                }
                return None;
            }
            let raw = self.current_raw();
            if raw == RawToken::Identifier {
                let atom = self.parse_name_expression();
                match atom {
                    Some(p) => {
                        expressions.push(p);
                        proof {
                            assert(atoms_model(expressions@) =~= accv.push((p.0@, p.1)));
                        }
                    },
                    None => {
                        proof {
                            assert(false);
                        }
                        return None;
                    },
                }
            } else if raw == RawToken::Lparen {
                proof {
                    lemma_paren_progress(sc);
                }
                let atom = self.parse_paren_expression();
                let ghost stp = spec_parse_paren(sc);
                match atom {
                    Some(p) => {
                        expressions.push(p);
                        proof {
                            let cur = spec_parse_atoms(sc, accv);
                            assert(atoms_model(expressions@) =~= accv.push((p.0@, p.1)));
                            let rest = spec_parse_atoms(stp.state, atoms_model(expressions@));
                            assert(cur.state == rest.state && cur.result == rest.result
                                && cur.diags == stp.diags + rest.diags);
                            assert(self@.diagnostics =~= db + stp.diags);
                            assert(d0 + full.diags == db + cur.diags);
                            assert(db + (stp.diags + rest.diags) =~= (db + stp.diags)
                                + rest.diags);
                            assert(d0 + full.diags == self@.diagnostics + rest.diags);
                        }
                    },
                    None => {
                        proof {
                            let cur = spec_parse_atoms(sc, accv);
                            assert(cur.state == stp.state && cur.diags == stp.diags
                                && cur.result is None);
                            assert(self@.diagnostics =~= db + stp.diags);
                            assert(self@.diagnostics == d0 + full.diags);
                            assert(spec_parse_application(s0).diags == full.diags);
                        }
                        return None;
                    },
                }
            } else {
                proof {
                    assert(self@.diagnostics + Seq::<DiagnosticModel>::empty()
                        =~= self@.diagnostics);
                }
                break ;
            }
        }
        let ghost st = spec_parse_application(s0);
        let ghost collected = atoms_model(expressions@);
        if expressions.len() == 0 {
            let ghost db2 = self@.diagnostics;
            self.unexpected_token(String::from_str("do not write empty expressions"));
            proof {
                assert(collected =~= Seq::<(ExpressionModel, Span)>::empty());
                let e = error_diag(
                    token_anchor(full.state),
                    "do not write empty expressions"@,
                );
                assert(self@.diagnostics =~= db2 + seq![e]);
                assert((d0 + full.diags) + seq![e] =~= d0 + (full.diags + seq![e]));
                assert(self@.diagnostics == d0 + st.diags);
            }
            return None;
        }
        proof {
            assert(collected.len() >= 1);
        }
        let mut accum = expressions.remove(0);
        let ghost mut k: int = 1;
        proof {
            assert(collected.take(1) =~= seq![collected[0]]);
            assert(collected[0] == (accum.0@, accum.1));
            assert((accum.0@, accum.1) == left_fold_apply(collected.take(k)));
            assert(atoms_model(expressions@) =~= collected.skip(1));
        }
        while expressions.len() > 0
            invariant
                1 <= k <= collected.len(),
                atoms_model(expressions@) == collected.skip(k),
                (accum.0@, accum.1) == left_fold_apply(collected.take(k)),
            decreases expressions@.len(),
        {
            let ghost pre = atoms_model(expressions@);
            let next = expressions.remove(0);
            proof {
                assert(pre == collected.skip(k));
                assert(pre.len() > 0);
                assert(k < collected.len());
                assert(pre[0] == (next.0@, next.1));
                assert(collected.skip(k)[0] == collected[k]);
                assert(atoms_model(expressions@) =~= pre.skip(1));
                assert(pre.skip(1) =~= collected.skip(k + 1));
            }
            let new_span = Span { start: accum.1.start, end: next.1.end };
            accum = (
                Expression::Apply {
                    lhs: Box::new(accum.0),
                    lhs_span: accum.1,
                    rhs: Box::new(next.0),
                    rhs_span: next.1,
                },
                new_span,
            );
            proof {
                k = k + 1;
                assert(collected.take(k).drop_last() =~= collected.take(k - 1));
                assert(collected.take(k).last() == collected[k - 1]);
                assert((accum.0@, accum.1) == left_fold_apply(collected.take(k)));
                assert(atoms_model(expressions@) =~= collected.skip(k));
            }
        }
        proof {
            assert(collected.skip(k).len() == 0);
            assert(k == collected.len());
            assert(collected.take(k) =~= collected);
        }
        let r = Some((accum.0, accum.1));
        proof {
            assert(expression_result_model(r) == st.result);
            assert(self@.diagnostics == d0 + st.diags);
        }
        r
    }

    /// Parses an expression, dispatching on the lookahead: a lambda marker
    /// starts an abstraction, an identifier or `(` starts an application
    /// run, anything else is rejected and consumed.
    fn parse_expression(&mut self) -> (r: Option<(Expression, Span)>)
        requires
            old(self).wf(),
        ensures
            final(self).wf(),
            ({
                let st = spec_parse_expression(old(self)@.state);
                final(self)@.state == st.state && final(self)@.diagnostics == old(self)@.diagnostics + st.diags && expression_result_model(r) == st.result && final(self)@.filename == old(self)@.filename
            }),
        decreases old(self)@.state.tokens.len() - old(self)@.state.position, 4int,
    {
        let ghost st = spec_parse_expression(old(self)@.state);
        if !self.has_token() {
            self.unexpected_eof();
            proof {
                assert(self@.diagnostics =~= old(self)@.diagnostics + st.diags);
            }
            return None;
        }
        let raw = self.current_raw();
        if raw == RawToken::Lambda {
            self.parse_abstraction_expression()
        } else if raw == RawToken::Lparen || raw == RawToken::Identifier {
            self.parse_application()
        } else {
            self.unexpected_token(
                String::from_str("expression must start with identifier, 'lambda', '\\' or '('"),
            );
            self.consume_token();
            proof {
                assert(self@.diagnostics =~= old(self)@.diagnostics + st.diags);
            }
            None
        }
    }

    /// Parses `let` Identifier `=` Expression `;`.  The statement's span
    /// runs from the `let` keyword through the terminating `;`.
    fn parse_let_statement(&mut self) -> (r: Option<Statement>)
        requires
            old(self).wf(),
            lookahead(old(self)@.state) is Some,
        ensures
            final(self).wf(),
            ({
                let st = spec_parse_let(old(self)@.state);
                final(self)@.state == st.state && final(self)@.diagnostics == old(self)@.diagnostics + st.diags && statement_result_model(r) == st.result && final(self)@.filename == old(self)@.filename
            }),
        decreases old(self)@.state.tokens.len() - old(self)@.state.position, 5int,
    {
        let ghost st = spec_parse_let(old(self)@.state);
        let start = self.current_span().start;
        self.consume_token();
        if !self.check_token(
            RawToken::Identifier,
            String::from_str("expected name of variable in the let statement"),
        ) {
            proof {
                assert(self@.diagnostics =~= old(self)@.diagnostics + st.diags);
            }
            return None;
        }
        let name = self.current_literal();
        let name_span = self.current_span();
        self.consume_token();
        if !self.check_token(
            RawToken::Assign,
            String::from_str("help: consider adding '=' in the let statement"),
        ) {
            proof {
                assert(self@.diagnostics =~= old(self)@.diagnostics + st.diags);
            }
            return None;
        }
        self.consume_token();
        let body = self.parse_expression();
        match body {
            None => {
                proof {
                    assert(self@.diagnostics =~= old(self)@.diagnostics + st.diags);
                }
                None
            },
            Some(pair) => {
                let (expression, expression_span) = pair;
                if !self.check_token(
                    RawToken::Semicolon,
                    String::from_str("help: consider adding ';' at the end of the let statement"),
                ) {
                    proof {
                        assert(self@.diagnostics =~= old(self)@.diagnostics + st.diags);
                    }
                    return None;
                }
                let end = self.current_span().end;
                self.consume_token();
                let r = Some(
                    Statement::Let {
                        name,
                        name_span,
                        expression,
                        expression_span,
                        span: Span { start, end },
                    },
                );
                proof {
                    assert(self@.diagnostics =~= old(self)@.diagnostics + st.diags);
                    assert(statement_result_model(r) == st.result);
                }
                r
            },
        }
    }

    /// Parses Expression `;`.  The statement's span runs from the
    /// expression's start through the terminating `;`.
    fn parse_expression_statement(&mut self) -> (r: Option<Statement>)
        requires
            old(self).wf(),
        ensures
            final(self).wf(),
            ({
                let st = spec_parse_expression_statement(old(self)@.state);
                final(self)@.state == st.state && final(self)@.diagnostics == old(self)@.diagnostics + st.diags && statement_result_model(r) == st.result && final(self)@.filename == old(self)@.filename
            }),
        decreases old(self)@.state.tokens.len() - old(self)@.state.position, 5int,
    {
        let ghost st = spec_parse_expression_statement(old(self)@.state);
        let body = self.parse_expression();
        match body {
            None => {
                proof {
                    assert(self@.diagnostics =~= old(self)@.diagnostics + st.diags);
                }
                None
            },
            Some(pair) => {
                let (expression, expression_span) = pair;
                if !self.check_token(
                    RawToken::Semicolon,
                    String::from_str("help: consider adding ';' at the end of expression statement"),
                ) {
                    proof {
                        assert(self@.diagnostics =~= old(self)@.diagnostics + st.diags);
                    }
                    return None;
                }
                let start = expression_span.start;
                let end = self.current_span().end;
                self.consume_token();
                let r = Some(
                    Statement::Expression { expression, expression_span, span: Span { start, end } },
                );
                proof {
                    assert(self@.diagnostics =~= old(self)@.diagnostics + st.diags);
                    assert(statement_result_model(r) == st.result);
                }
                r
            },
        }
    }

    /// Parses one statement: `let` starts a let statement, anything else an
    /// expression statement; at end of input an error is reported.
    pub fn parse_statement(&mut self) -> (r: Option<Statement>)
        requires
            old(self).wf(),
        ensures
            final(self).wf(),
            ({
                let st = spec_parse_statement(old(self)@.state);
                final(self)@.state == st.state && final(self)@.diagnostics == old(self)@.diagnostics + st.diags && statement_result_model(r) == st.result && final(self)@.filename == old(self)@.filename
            }),
        decreases old(self)@.state.tokens.len() - old(self)@.state.position, 6int,
    {
        let ghost st = spec_parse_statement(old(self)@.state);
        if !self.has_token() {
            self.unexpected_eof();
            proof {
                assert(self@.diagnostics =~= old(self)@.diagnostics + st.diags);
            }
            return None;
        }
        if self.current_raw() == RawToken::Let {
            self.parse_let_statement()
        } else {
            self.parse_expression_statement()
        }
    }

    /// Parses the whole program.  Total: every successful statement is
    /// appended in source order, every failed one is skipped, and parsing
    /// goes on from wherever the failed attempt left the cursor; what went
    /// wrong is visible in `diagnostics`.
    pub fn parse(&mut self) -> (ast: AST)
        requires
            old(self).wf(),
        ensures
            final(self).wf(),
            ({
                let pr = spec_parse_program(old(self)@.state);
                final(self)@.state == pr.state && final(self)@.diagnostics == old(self)@.diagnostics + pr.diags && ast@.map_values(|st: Statement| st@) == pr.statements && final(self)@.filename == old(self)@.filename
            }),
    {
        let ghost s0 = old(self)@.state;
        let ghost d0 = old(self)@.diagnostics;
        let ghost pr = spec_parse_program(s0);
        let mut ast: Vec<Statement> = Vec::new();
        proof {
            assert(ast@.map_values(|st: Statement| st@) =~= Seq::<StatementModel>::empty());
        }
        while self.has_token()
            invariant
                self.wf(),
                s0 == old(self)@.state,
                d0 == old(self)@.diagnostics,
                pr == spec_parse_program(s0),
                self@.filename == old(self)@.filename,
                ({
                    let rest = spec_parse_program(self@.state);
                    pr.state == rest.state && d0 + pr.diags == self@.diagnostics + rest.diags
                        && pr.statements == ast@.map_values(|st: Statement| st@) + rest.statements
                }),
            decreases self@.state.tokens.len() - self@.state.position,
        {
            let ghost sc = self@.state;
            let ghost db = self@.diagnostics;
            let ghost av = ast@.map_values(|st: Statement| st@);
            proof {
                lemma_statement_progress(sc);
            }
            let statement = self.parse_statement();
            let ghost stp = spec_parse_statement(sc);
            let ghost rest_new = spec_parse_program(stp.state);
            proof {
                assert(db + (stp.diags + rest_new.diags) =~= (db + stp.diags) + rest_new.diags);
            }
            match statement {
                Some(stmt) => {
                    ast.push(stmt);
                    proof {
                        assert(ast@.map_values(|st: Statement| st@) =~= av.push(stmt@));
                        assert(av.push(stmt@) =~= av + seq![stmt@]);
                        assert(av + (seq![stmt@] + rest_new.statements) =~= (av + seq![stmt@])
                            + rest_new.statements);
                    }
                },
                None => {
                    proof {
                        assert(Seq::<StatementModel>::empty() + rest_new.statements
                            =~= rest_new.statements);
                    }
                },
            }
        }
        proof {
            let rest = spec_parse_program(self@.state);
            assert(rest.diags =~= Seq::<DiagnosticModel>::empty());
            assert(d0 + pr.diags =~= self@.diagnostics + rest.diags);
            assert(self@.diagnostics + rest.diags =~= self@.diagnostics);
            assert(ast@.map_values(|st: Statement| st@) + rest.statements =~= ast@.map_values(
                |st: Statement| st@,
            ));
        }
        ast
    }
}


/// Statements appear in the result in source order, one per successful
/// attempt: when input remains, the program's statements are those of the
/// first statement attempt (kept only on success) followed by everything
/// parsed after it, so the statement count equals the number of successful
/// attempts.
pub proof fn lemma_parse_program_order(s: ParseState)
    requires
        s.wf(),
        lookahead(s) is Some,
    ensures
        ({
            let st = spec_parse_statement(s);
            let rest = spec_parse_program(st.state);
            spec_parse_program(s).statements == (match st.result {
                Some(m) => seq![m] + rest.statements,
                None => rest.statements,
            })
        }),
{
    lemma_statement_progress(s);
    let st = spec_parse_statement(s);
    let rest = spec_parse_program(st.state);
    if st.result is None {
        assert(Seq::<StatementModel>::empty() + rest.statements =~= rest.statements);
    }
}

/// Round trip for a successful `let` statement: its name and `name_span`
/// are exactly those of the identifier token after `let`, and its `span`
/// runs from the start of the `let` token through the end of the
/// terminating `;` token.
pub proof fn lemma_let_round_trip(s: ParseState)
    requires
        s.wf(),
        spec_parse_let(s).result is Some,
    ensures
        s.position + 1 < s.tokens.len(),
        spec_parse_let(s).state.position >= 1,
        ({
            let st = spec_parse_let(s);
            let name_tok = s.tokens[s.position as int + 1];
            let semi_tok = s.tokens[st.state.position as int - 1];
            &&& name_tok.raw == RawToken::Identifier
            &&& semi_tok.raw == RawToken::Semicolon
            &&& st.result matches Some(m) && m matches StatementModel::Let {
                name,
                name_span,
                expression,
                expression_span,
                span,
            } && name == name_tok.literal && name_span == name_tok.span && span.start == s.tokens[
                s.position as int
            ].span.start && span.end == semi_tok.span.end
        }),
{
    let s1 = spec_consume(s);
    let c1 = spec_check_token(s1, RawToken::Identifier, "expected name of variable in the let statement"@);
    let s2 = spec_consume(s1);
    let c2 = spec_check_token(s2, RawToken::Assign, "help: consider adding '=' in the let statement"@);
    let s3 = spec_consume(s2);
    lemma_expression_progress(s3);
}

/// Application folds left-associatively: a run of two or more atoms yields
/// an `Apply` whose right operand is the last atom and whose left operand is
/// the fold of the rest, spanning from the first atom's start to the last
/// atom's end; a single atom is handed back unwrapped.
pub proof fn lemma_left_fold_shape(atoms: Seq<(ExpressionModel, Span)>)
    requires
        atoms.len() >= 1,
    ensures
        atoms.len() == 1 ==> left_fold_apply(atoms) == atoms[0],
        atoms.len() >= 2 ==> left_fold_apply(atoms) == (
            (
                ExpressionModel::Apply {
                    lhs: Box::new(left_fold_apply(atoms.drop_last()).0),
                    lhs_span: left_fold_apply(atoms.drop_last()).1,
                    rhs: Box::new(atoms.last().0),
                    rhs_span: atoms.last().1,
                },
                Span { start: atoms[0].1.start, end: atoms.last().1.end },
            )
        ),
    decreases atoms.len(),
{
    if atoms.len() >= 2 {
        lemma_left_fold_shape(atoms.drop_last());
        assert(atoms.drop_last()[0] == atoms[0]);
    }
}

/// Abstraction accepts both `=>` and the legacy `.` separator: either way
/// the same abstraction is built, from the same argument-name token and the
/// same body parse, whose spans do not depend on which separator stood
/// there; the `.` form alone records one extra `Warning`-level diagnostic,
/// in front, and succeeds all the same.
pub proof fn lemma_abstraction_separators(s: ParseState)
    requires
        s.wf(),
        s.position + 3 <= s.tokens.len(),
        s.tokens[s.position as int + 1].raw == RawToken::Identifier,
        s.tokens[s.position as int + 2].raw == RawToken::Period || s.tokens[
            s.position as int + 2
        ].raw == RawToken::RightArrow,
    ensures
        ({
            let st = spec_parse_abstraction(s);
            let name_tok = s.tokens[s.position as int + 1];
            let sep = s.tokens[s.position as int + 2];
            let body = spec_parse_expression(
                ParseState { tokens: s.tokens, position: s.position + 3, previous: Some(sep.span) },
            );
            let warn: Seq<DiagnosticModel> = if sep.raw == RawToken::Period {
                seq![deprecated_separator_diag(sep.span)]
            } else {
                Seq::empty()
            };
            &&& st.state == body.state
            &&& st.diags == warn + (match body.result {
                None => body.diags,
                Some(b) => match lookahead(body.state) {
                    None => body.diags + seq![eof_diag(body.state)],
                    Some(next) => body.diags,
                },
            })
            &&& st.result == (match body.result {
                Some(b) => match lookahead(body.state) {
                    Some(next) => Some(
                        (
                            ExpressionModel::Abstraction {
                                name: name_tok.literal,
                                name_span: name_tok.span,
                                expression: Box::new(b.0),
                                expression_span: b.1,
                            },
                            Span {
                                start: s.tokens[s.position as int].span.start,
                                end: next.span.start,
                            },
                        ),
                    ),
                    None => None,
                },
                None => None,
            })
        }),
{
    let s1 = spec_consume(s);
    let s2 = spec_consume(s1);
    let s3 = spec_consume(s2);
    lemma_expression_progress(s3);
    let sep = s.tokens[s.position as int + 2];
    let body = spec_parse_expression(s3);
    if sep.raw != RawToken::Period {
        assert(Seq::<DiagnosticModel>::empty() + (match body.result {
            None => body.diags,
            Some(b) => match lookahead(body.state) {
                None => body.diags + seq![eof_diag(body.state)],
                Some(next) => body.diags,
            },
        }) =~= (match body.result {
            None => body.diags,
            Some(b) => match lookahead(body.state) {
                None => body.diags + seq![eof_diag(body.state)],
                Some(next) => body.diags,
            },
        }));
    }
}


/// Tying the tokenizer to the parser: when the tokens come from `src`, a
/// successful `let` statement's name is exactly the source bytes under its
/// `name_span`, which lies inside the source.
pub proof fn lemma_let_names_source(src: Seq<u8>, s: ParseState)
    requires
        src.len() <= usize::MAX,
        s.tokens == crate::lexer::spec_lex(src),
        s.wf(),
        spec_parse_let(s).result is Some,
    ensures
        ({
            let st = spec_parse_let(s);
            st.result matches Some(m) && m matches StatementModel::Let { name, name_span, .. }
                && name_span.start < name_span.end <= src.len() && name == src.subrange(
                name_span.start as int,
                name_span.end as int,
            )
        }),
{
    lemma_let_round_trip(s);
    crate::lexer::lemma_lex_spans(src, 0);
}


/// Both offsets of a span stay inside a source of `n` bytes.
pub open spec fn span_within(sp: Span, n: int) -> bool {
    sp.start <= n && sp.end <= n
}

/// Every span recorded anywhere in an expression stays inside a source of
/// `n` bytes.
pub open spec fn expression_spans_within(e: ExpressionModel, n: int) -> bool
    decreases e,
{
    match e {
        ExpressionModel::Var { name_span, .. } => span_within(name_span, n),
        ExpressionModel::Apply { lhs, lhs_span, rhs, rhs_span } => span_within(lhs_span, n)
            && span_within(rhs_span, n) && expression_spans_within(*lhs, n)
            && expression_spans_within(*rhs, n),
        ExpressionModel::Paren { expression, expression_span } => span_within(expression_span, n)
            && expression_spans_within(*expression, n),
        ExpressionModel::Abstraction { name_span, expression, expression_span, .. } => span_within(
            name_span,
            n,
        ) && span_within(expression_span, n) && expression_spans_within(*expression, n),
    }
}

/// Every span recorded anywhere in a statement stays inside a source of `n`
/// bytes.
pub open spec fn statement_spans_within(m: StatementModel, n: int) -> bool {
    match m {
        StatementModel::Expression { expression, expression_span, span } => span_within(
            expression_span,
            n,
        ) && span_within(span, n) && expression_spans_within(expression, n),
        StatementModel::Let { name_span, expression, expression_span, span, .. } => span_within(
            name_span,
            n,
        ) && span_within(expression_span, n) && span_within(span, n) && expression_spans_within(
            expression,
            n,
        ),
    }
}

/// Every token span stays inside a source of `n` bytes.
pub open spec fn tokens_spans_within(tokens: Seq<TokenModel>, n: int) -> bool {
    forall|i: int| 0 <= i < tokens.len() ==> span_within((#[trigger] tokens[i]).span, n)
}

/// All offsets the parser records come from token spans, so they stay inside
/// the source as long as the token spans do.  One lemma per grammar rule.
pub proof fn lemma_left_fold_spans(atoms: Seq<(ExpressionModel, Span)>, n: int)
    requires
        atoms.len() >= 1,
        forall|i: int|
            0 <= i < atoms.len() ==> expression_spans_within((#[trigger] atoms[i]).0, n)
                && span_within(atoms[i].1, n),
    ensures
        expression_spans_within(left_fold_apply(atoms).0, n),
        span_within(left_fold_apply(atoms).1, n),
    decreases atoms.len(),
{
    if atoms.len() >= 2 {
        lemma_left_fold_spans(atoms.drop_last(), n);
    }
}

pub proof fn lemma_paren_spans(s: ParseState, n: int)
    requires
        s.wf(),
        tokens_spans_within(s.tokens, n),
    ensures
        ({
            let st = spec_parse_paren(s);
            st.result matches Some(b) ==> expression_spans_within(b.0, n) && span_within(b.1, n)
        }),
    decreases s.tokens.len() - s.position, 1int,
{
    if s.position < s.tokens.len() {
        let s1 = spec_consume(s);
        lemma_expression_progress(s1);
        lemma_expression_spans(s1, n);
    }
}

pub proof fn lemma_atoms_spans(s: ParseState, acc: Seq<(ExpressionModel, Span)>, n: int)
    requires
        s.wf(),
        tokens_spans_within(s.tokens, n),
        forall|i: int|
            0 <= i < acc.len() ==> expression_spans_within((#[trigger] acc[i]).0, n)
                && span_within(acc[i].1, n),
    ensures
        ({
            let st = spec_parse_atoms(s, acc);
            st.result matches Some(res) ==> forall|i: int|
                0 <= i < res.len() ==> expression_spans_within((#[trigger] res[i]).0, n)
                    && span_within(res[i].1, n)
        }),
    decreases s.tokens.len() - s.position, 3int,
{
    match lookahead(s) {
        None => {},
        Some(t) => {
            if t.raw == RawToken::Identifier {
                let atom = (ExpressionModel::Var { name: t.literal, name_span: t.span }, t.span);
                lemma_atoms_progress(spec_consume(s), acc.push(atom));
                lemma_atoms_spans(spec_consume(s), acc.push(atom), n);
            } else if t.raw == RawToken::Lparen {
                lemma_paren_progress(s);
                lemma_paren_spans(s, n);
                let st = spec_parse_paren(s);
                match st.result {
                    None => {},
                    Some(atom) => {
                        lemma_atoms_spans(st.state, acc.push(atom), n);
                    },
                }
            }
        },
    }
}

pub proof fn lemma_application_spans(s: ParseState, n: int)
    requires
        s.wf(),
        tokens_spans_within(s.tokens, n),
    ensures
        ({
            let st = spec_parse_application(s);
            st.result matches Some(b) ==> expression_spans_within(b.0, n) && span_within(b.1, n)
        }),
    decreases s.tokens.len() - s.position, 4int,
{
    lemma_atoms_spans(s, Seq::empty(), n);
    let st = spec_parse_atoms(s, Seq::empty());
    match st.result {
        None => {},
        Some(atoms) => {
            if atoms.len() >= 1 {
                lemma_left_fold_spans(atoms, n);
            }
        },
    }
}

pub proof fn lemma_abstraction_spans(s: ParseState, n: int)
    requires
        s.wf(),
        tokens_spans_within(s.tokens, n),
    ensures
        ({
            let st = spec_parse_abstraction(s);
            st.result matches Some(b) ==> expression_spans_within(b.0, n) && span_within(b.1, n)
        }),
    decreases s.tokens.len() - s.position, 4int,
{
    if s.position < s.tokens.len() {
        let s1 = spec_consume(s);
        let c1 = spec_check_token(s1, RawToken::Identifier, "expected argument name"@);
        if c1.ok {
            let s2 = spec_consume(s1);
            let sep_is_period = lookahead(s2) matches Some(sep) && sep.raw == RawToken::Period;
            let c2 = spec_check_token(s2, RawToken::RightArrow, "help: consider adding '=>'"@);
            if sep_is_period || c2.ok {
                let s3 = spec_consume(s2);
                lemma_expression_progress(s3);
                lemma_expression_spans(s3, n);
            }
        }
    }
}

pub proof fn lemma_expression_spans(s: ParseState, n: int)
    requires
        s.wf(),
        tokens_spans_within(s.tokens, n),
    ensures
        ({
            let st = spec_parse_expression(s);
            st.result matches Some(b) ==> expression_spans_within(b.0, n) && span_within(b.1, n)
        }),
    decreases s.tokens.len() - s.position, 5int,
{
    match lookahead(s) {
        None => {},
        Some(t) => {
            if t.raw == RawToken::Lambda {
                lemma_abstraction_spans(s, n);
            } else if t.raw == RawToken::Lparen || t.raw == RawToken::Identifier {
                lemma_application_spans(s, n);
            }
        },
    }
}

pub proof fn lemma_statement_spans(s: ParseState, n: int)
    requires
        s.wf(),
        tokens_spans_within(s.tokens, n),
    ensures
        ({
            let st = spec_parse_statement(s);
            st.result matches Some(m) ==> statement_spans_within(m, n)
        }),
    decreases s.tokens.len() - s.position, 7int,
{
    match lookahead(s) {
        None => {},
        Some(t) => {
            if t.raw == RawToken::Let {
                if s.position < s.tokens.len() {
                    let s1 = spec_consume(s);
                    let c1 = spec_check_token(
                        s1,
                        RawToken::Identifier,
                        "expected name of variable in the let statement"@,
                    );
                    if c1.ok {
                        let s2 = spec_consume(s1);
                        let c2 = spec_check_token(
                            s2,
                            RawToken::Assign,
                            "help: consider adding '=' in the let statement"@,
                        );
                        if c2.ok {
                            let s3 = spec_consume(s2);
                            lemma_expression_progress(s3);
                            lemma_expression_spans(s3, n);
                        }
                    }
                }
            } else {
                lemma_expression_progress(s);
                lemma_expression_spans(s, n);
            }
        },
    }
}

pub proof fn lemma_program_spans(s: ParseState, n: int)
    requires
        s.wf(),
        tokens_spans_within(s.tokens, n),
    ensures
        forall|i: int|
            0 <= i < spec_parse_program(s).statements.len() ==> statement_spans_within(
                #[trigger] spec_parse_program(s).statements[i],
                n,
            ),
    decreases s.tokens.len() - s.position, 8int,
{
    if s.position < s.tokens.len() {
        lemma_statement_progress(s);
        lemma_statement_spans(s, n);
        let st = spec_parse_statement(s);
        lemma_program_spans(st.state, n);
        let first: Seq<StatementModel> = match st.result {
            Some(m) => seq![m],
            None => Seq::empty(),
        };
        let rest = spec_parse_program(st.state);
        assert forall|i: int|
            0 <= i < spec_parse_program(s).statements.len() implies statement_spans_within(
            #[trigger] spec_parse_program(s).statements[i],
            n,
        ) by {
            if i < first.len() {
                assert(spec_parse_program(s).statements[i] == first[i]);
            } else {
                assert(spec_parse_program(s).statements[i] == rest.statements[i - first.len()]);
            }
        };
    }
}

/// Every span recorded anywhere in a parsed statement is a sub-range of the
/// source buffer the tokens came from: no offset exceeds the source length.
pub proof fn lemma_parse_spans_in_source(src: Seq<u8>, s: ParseState)
    requires
        src.len() <= usize::MAX,
        s.tokens == crate::lexer::spec_lex(src),
        s.wf(),
    ensures
        forall|i: int|
            0 <= i < spec_parse_program(s).statements.len() ==> statement_spans_within(
                #[trigger] spec_parse_program(s).statements[i],
                src.len() as int,
            ),
{
    crate::lexer::lemma_lex_spans(src, 0);
    lemma_program_spans(s, src.len() as int);
}

} // verus!
