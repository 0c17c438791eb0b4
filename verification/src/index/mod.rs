pub mod walk;
pub mod workspace;

pub use walk::{classify_source_entry, WalkAction};
pub use workspace::{DiskFile, FileStamp, Location, WorkspaceIndex};
