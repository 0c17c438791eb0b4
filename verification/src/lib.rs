//! Core logic of a Kotlin language server: a text model with UTF-16
//! position mapping, a lexer and declaration parser for a Kotlin subset,
//! syntax diagnostics, per-file and workspace symbol indexes, and the
//! decisions taken by the server around them.
pub mod text;
pub mod diagnostics;
pub mod parser;
pub mod analysis;
pub mod index;
pub mod gradle;
pub mod lsp;
