use vstd::prelude::*;
use ropey::Rope;
use crate::diagnostics::types::{Diagnostic, DiagnosticView, Severity};
use crate::text::positions::{char_idx_to_position, char_idx_to_position_spec, Range};
use crate::text::rope::rope_text;

verus! {

/// A diagnostic as the language server protocol reports it: a range of
/// positions, a severity, the tool that found it, and a message.
#[derive(Debug)]
pub struct LspDiagnostic {
    pub range: Range,
    pub severity: Option<Severity>,
    pub source: Option<String>,
    pub message: String,
}

pub struct LspDiagnosticView {
    pub range: Range,
    pub severity: Option<Severity>,
    pub source: Option<Seq<char>>,
    pub message: Seq<char>,
}

impl View for LspDiagnostic {
    type V = LspDiagnosticView;

    open spec fn view(&self) -> LspDiagnosticView {
        LspDiagnosticView {
            range: self.range,
            severity: self.severity,
            source: match self.source {
                Some(s) => Some(s@),
                None => None,
            },
            message: self.message@,
        }
    }
}

/// The protocol form of a diagnostic of the text `t`.
pub open spec fn lsp_form(t: Seq<char>, d: DiagnosticView) -> LspDiagnosticView {
    LspDiagnosticView {
        range: Range {
            start: char_idx_to_position_spec(t, d.range.start as int),
            end: char_idx_to_position_spec(t, d.range.end as int),
        },
        severity: Some(d.severity),
        source: Some("kotlin-analyzer"@),
        message: d.message,
    }
}

/// The name under which the diagnostics are published.
pub fn diagnostic_source() -> (s: String)
    ensures
        s@ == "kotlin-analyzer"@,
{
    "kotlin-analyzer".to_owned()
}

/// The protocol form of a diagnostic: its char range turned into positions
/// in `text`, its severity, this tool as its source, and its message.
pub fn to_lsp_diagnostic(diag: &Diagnostic, text: &Rope) -> (d: LspDiagnostic)
    ensures
        d.range == (Range {
            start: char_idx_to_position_spec(rope_text(*text), diag.range.start as int),
            end: char_idx_to_position_spec(rope_text(*text), diag.range.end as int),
        }),
        d.severity == Some(diag.severity),
        d.source matches Some(src) && src@ == "kotlin-analyzer"@,
        d.message@ == diag.message@,
        d@ == lsp_form(rope_text(*text), diag@),
{
    let start = char_idx_to_position(text, diag.range.start);
    let end = char_idx_to_position(text, diag.range.end);
    let severity = match diag.severity {
        Severity::Error => Severity::Error,
        Severity::Warning => Severity::Warning,
    };
    LspDiagnostic {
        range: Range { start, end },
        severity: Some(severity),
        source: Some(diagnostic_source()),
        message: diag.message.clone(),
    }
}

} // verus!
