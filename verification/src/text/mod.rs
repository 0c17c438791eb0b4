pub mod lines;
pub mod rope;
pub mod positions;
pub mod strings;
pub mod collation;
pub mod uri;

pub use positions::{char_idx_to_position, position_to_char_idx, Position, Range};
pub use rope::rope_text;
pub mod document;
pub use document::{TextDocument, TextDocumentContentChangeEvent};
pub mod store;
pub use store::DocumentStore;
