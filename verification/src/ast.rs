//! The syntax tree produced by parsing, and the spans that anchor every node
//! to the source text.

use vstd::prelude::*;

verus! {

/// A half-open range `[start, end)` of byte offsets into the source text.
#[derive(Clone, Copy, Debug, PartialEq, Eq, Structural)]
pub struct Span {
    pub start: usize,
    pub end: usize,
}

/// An expression of the surface language.  Every variant records, besides its
/// sub-expressions, the spans of those sub-expressions; the span of the node
/// itself is held by whatever contains it.
#[derive(Debug, PartialEq)]
pub enum Expression {
    /// A bound or free identifier reference.
    Var { name: Vec<u8>, name_span: Span },
    /// Function application; always binary, n-ary application is left-nested.
    Apply { lhs: Box<Expression>, lhs_span: Span, rhs: Box<Expression>, rhs_span: Span },
    /// A parenthesized expression, kept as a distinct node so the tree
    /// reflects user-written grouping.
    Paren { expression: Box<Expression>, expression_span: Span },
    /// A single-parameter lambda; multi-argument functions are nested.
    Abstraction { name: Vec<u8>, name_span: Span, expression: Box<Expression>, expression_span: Span },
}

/// The mathematical shape of an [`Expression`]: identifier names appear as
/// byte sequences.
pub ghost enum ExpressionModel {
    Var { name: Seq<u8>, name_span: Span },
    Apply { lhs: Box<ExpressionModel>, lhs_span: Span, rhs: Box<ExpressionModel>, rhs_span: Span },
    Paren { expression: Box<ExpressionModel>, expression_span: Span },
    Abstraction { name: Seq<u8>, name_span: Span, expression: Box<ExpressionModel>, expression_span: Span },
}

impl Expression {
    pub open spec fn model(self) -> ExpressionModel
        decreases self,
    {
        match self {
            Expression::Var { name, name_span } => ExpressionModel::Var { name: name@, name_span },
            Expression::Apply { lhs, lhs_span, rhs, rhs_span } => ExpressionModel::Apply {
                lhs: Box::new((*lhs).model()),
                lhs_span,
                rhs: Box::new((*rhs).model()),
                rhs_span,
            },
            Expression::Paren { expression, expression_span } => ExpressionModel::Paren {
                expression: Box::new((*expression).model()),
                expression_span,
            },
            Expression::Abstraction { name, name_span, expression, expression_span } => ExpressionModel::Abstraction {
                name: name@,
                name_span,
                expression: Box::new((*expression).model()),
                expression_span,
            },
        }
    }
}

impl View for Expression {
    type V = ExpressionModel;

    open spec fn view(&self) -> ExpressionModel {
        (*self).model()
    }
}

/// A statement: an expression terminated by `;`, or a named `let` binding.
/// `span` covers the whole statement, terminator included.
#[derive(Debug, PartialEq)]
pub enum Statement {
    Expression { expression: Expression, expression_span: Span, span: Span },
    Let { name: Vec<u8>, name_span: Span, expression: Expression, expression_span: Span, span: Span },
}

/// The mathematical shape of a [`Statement`].
pub ghost enum StatementModel {
    Expression { expression: ExpressionModel, expression_span: Span, span: Span },
    Let { name: Seq<u8>, name_span: Span, expression: ExpressionModel, expression_span: Span, span: Span },
}

impl View for Statement {
    type V = StatementModel;

    open spec fn view(&self) -> StatementModel {
        match *self {
            Statement::Expression { expression, expression_span, span } => StatementModel::Expression {
                expression: expression.model(),
                expression_span,
                span,
            },
            Statement::Let { name, name_span, expression, expression_span, span } => StatementModel::Let {
                name: name@,
                name_span,
                expression: expression.model(),
                expression_span,
                span,
            },
        }
    }
}

/// A parsed program: its statements in source order.
pub type AST = Vec<Statement>;

} // verus!
