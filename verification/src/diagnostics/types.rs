use vstd::prelude::*;

verus! {

#[derive(Clone, Copy, Debug, PartialEq, Eq, Structural)]
pub enum Severity {
    Error,
    Warning,
}

/// A range of char indices in a text.
#[derive(Clone, Copy, Debug, PartialEq, Eq, Structural)]
pub struct TextRange {
    pub start: usize,
    pub end: usize,
}

impl TextRange {
    pub fn new(start: usize, end: usize) -> (r: Self)
        ensures
            r.start == start,
            r.end == end,
    {
        Self { start, end }
    }
}

/// A problem found in a text, located by char indices.
#[derive(Debug)]
pub struct Diagnostic {
    pub range: TextRange,
    pub severity: Severity,
    pub message: String,
}

/// What a diagnostic says: where, how severe, and its message's chars.
pub struct DiagnosticView {
    pub range: TextRange,
    pub severity: Severity,
    pub message: Seq<char>,
}

impl View for Diagnostic {
    type V = DiagnosticView;

    open spec fn view(&self) -> DiagnosticView {
        DiagnosticView { range: self.range, severity: self.severity, message: self.message@ }
    }
}

impl Diagnostic {
    pub fn new(range: TextRange, severity: Severity, message: String) -> (d: Self)
        ensures
            d.range == range,
            d.severity == severity,
            d.message@ == message@,
    {
        Self { range, severity, message }
    }
}

impl Clone for Diagnostic {
    fn clone(&self) -> (d: Self)
        ensures
            d@ == self@,
    {
        Diagnostic { range: self.range, severity: self.severity, message: self.message.clone() }
    }
}

} // verus!
