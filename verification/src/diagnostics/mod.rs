pub mod types;
pub mod convert;

pub use convert::{to_lsp_diagnostic, LspDiagnostic};
pub use types::{Diagnostic, DiagnosticView, Severity, TextRange};
