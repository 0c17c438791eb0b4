pub mod chars;
pub mod lexer;
pub mod ast;
pub mod grammar;
pub mod analyze;

pub use analyze::{parse, parse_with_ast};
pub use ast::{ClassDecl, Decl, DeclKind, DeclView, File, FunDecl, Ident, Mutability, PropertyDecl, Span};
