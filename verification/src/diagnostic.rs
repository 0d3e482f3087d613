//! Structured, span-anchored messages reported on malformed input.
//!
//! The parser only records these values; rendering them against the source
//! text is the caller's business.

use crate::ast::Span;
use vstd::prelude::*;

verus! {

/// Severity of a reported message.
#[derive(Clone, Copy, Debug, PartialEq, Eq, Structural)]
pub enum Level {
    Error,
    Warning,
    Note,
}

/// Whether a labelled span is the offending location or supporting context.
#[derive(Clone, Copy, Debug, PartialEq, Eq, Structural)]
pub enum SpanStyle {
    Primary,
    Secondary,
}

/// One labelled source range inside a diagnostic.
#[derive(Clone, Debug, PartialEq)]
pub struct SpanLabel {
    pub span: Span,
    pub style: SpanStyle,
    pub label: String,
}

/// A structured message: severity, a stable code, a primary message, and one
/// or more labelled spans.
#[derive(Clone, Debug, PartialEq)]
pub struct Diagnostic {
    pub level: Level,
    pub message: String,
    pub spans: Vec<SpanLabel>,
    pub code: String,
}

/// The mathematical shape of a [`SpanLabel`].
pub ghost struct SpanLabelModel {
    pub span: Span,
    pub style: SpanStyle,
    pub label: Seq<char>,
}

/// The mathematical shape of a [`Diagnostic`].
pub ghost struct DiagnosticModel {
    pub level: Level,
    pub message: Seq<char>,
    pub spans: Seq<SpanLabelModel>,
    pub code: Seq<char>,
}

impl View for SpanLabel {
    type V = SpanLabelModel;

    open spec fn view(&self) -> SpanLabelModel {
        SpanLabelModel { span: self.span, style: self.style, label: self.label@ }
    }
}

impl View for Diagnostic {
    type V = DiagnosticModel;

    open spec fn view(&self) -> DiagnosticModel {
        DiagnosticModel {
            level: self.level,
            message: self.message@,
            spans: self.spans@.map_values(|l: SpanLabel| l@),
            code: self.code@,
        }
    }
}

/// The model of a diagnostic carrying exactly one labelled span.
pub open spec fn diag_model(
    level: Level,
    message: Seq<char>,
    code: Seq<char>,
    span: Span,
    style: SpanStyle,
    label: Seq<char>,
) -> DiagnosticModel {
    DiagnosticModel { level, message, code, spans: seq![SpanLabelModel { span, style, label }] }
}

impl Diagnostic {
    /// Builds a diagnostic with a single labelled span.
    pub fn labelled(
        level: Level,
        message: String,
        code: String,
        span: Span,
        style: SpanStyle,
        label: String,
    ) -> (d: Diagnostic)
        ensures
            d@ == diag_model(level, message@, code@, span, style, label@),
    {
        let ghost label_view = label@;
        let mut spans: Vec<SpanLabel> = Vec::new();
        spans.push(SpanLabel { span, style, label });
        let d = Diagnostic { level, message, spans, code };
        proof {
            assert(d@.spans =~= seq![SpanLabelModel { span, style, label: label_view }]);
        }
        d
    }
}

} // verus!
