pub mod definition;
pub mod commands;
pub mod session;

pub use commands::{collect_workspace_roots, parse_gradle_roots};
pub use definition::{goto_definition, identifier_at_position, is_ident_char, DefinitionResponse};
pub use session::{document_changed, document_closed, document_opened};
