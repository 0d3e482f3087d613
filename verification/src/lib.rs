//! Front end for the Gamma surface language, a minimal lambda calculus.
//!
//! Source text is turned into a span-annotated abstract syntax tree by a
//! tokenizer ([`lexer`]) and a single-token-lookahead recursive-descent
//! parser ([`parser`]).  Malformed input produces structured, span-anchored
//! [`diagnostic`] values; rendering them against the source is left to the
//! caller.

pub mod ast;
pub mod diagnostic;
pub mod lexer;
pub mod parser;
