use vstd::prelude::*;

verus! {

/// The reserved first character of a line that marks its note as done.
pub const DONE_MARKER: char = '*';

/// The character that ends each line of the persisted text.
pub const LINE_BREAK: char = '\n';

/// One sticky note: its text and whether it has been completed.
#[derive(Debug, Clone, PartialEq, Eq)]
pub struct Note {
    pub text: String,
    pub done: bool,
}

/// The mathematical value of a note: its text as characters, and its flag.
pub type NoteView = (Seq<char>, bool);

impl View for Note {
    type V = NoteView;

    open spec fn view(&self) -> NoteView {
        (self.text@, self.done)
    }
}

/// A text that holds no line break, and so fits on one persisted line.
pub open spec fn single_line(t: Seq<char>) -> bool {
    forall|i: int| 0 <= i < t.len() ==> t[i] != LINE_BREAK
}

/// Whether `t` begins with the done marker.
pub open spec fn starts_with_marker(t: Seq<char>) -> bool {
    t.len() > 0 && t[0] == DONE_MARKER
}

/// A note that survives being written out and read back: its text is one line,
/// and a note that is not done does not begin with the marker (which would read
/// back as done).
pub open spec fn note_well_formed(n: NoteView) -> bool {
    single_line(n.0) && (n.1 || !starts_with_marker(n.0))
}

/// Every note of `s` is well formed.
pub open spec fn notes_well_formed(s: Seq<NoteView>) -> bool {
    forall|i: int| 0 <= i < s.len() ==> #[trigger] note_well_formed(s[i])
}

/// The views of a vector of notes.
pub open spec fn notes_view(v: Seq<Note>) -> Seq<NoteView> {
    v.map_values(|n: Note| n@)
}

/// Why the file could not be used.
#[derive(Debug, Clone, Copy, PartialEq, Eq, Structural)]
pub enum StorageError {
    /// The notes file could not be opened or read.
    Unreadable,
    /// The notes file could not be written.
    Unwritable,
}

/// The ways a note operation can fail.
#[derive(Debug, Clone, Copy, PartialEq, Eq, Structural)]
pub enum NoteError {
    /// The notes file could not be read or written.
    Storage(StorageError),
    /// A 1-based index was 0 or past the last note.
    IndexOutOfRange,
    /// A note's text held a line break.
    InvalidNote,
}

} // verus!
