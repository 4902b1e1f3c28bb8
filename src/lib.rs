//! A sticky-note store: the notes file's text format, and the operations that
//! add, complete and remove notes by their 1-based position.

pub mod format;
pub mod laws;
pub mod list;
pub mod note;

pub use format::{decode, encode};
pub use list::{has_line_break, NoteList};
pub use note::{Note, NoteError, StorageError, DONE_MARKER, LINE_BREAK};
