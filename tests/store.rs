use sticky::{decode, encode, has_line_break, Note, NoteError, NoteList};

fn note(text: &str, done: bool) -> Note {
    Note { text: text.to_string(), done }
}

fn texts(list: &NoteList) -> Vec<(String, bool)> {
    list.notes().iter().map(|n| (n.text.clone(), n.done)).collect()
}

#[test]
fn scenario_load_toggle_remove() {
    let mut list = NoteList::from_text("Buy milk\n*Call mom\n");
    assert_eq!(list.notes(), &[note("Buy milk", false), note("Call mom", true)][..]);
    assert_eq!(list.toggle_done(1), Ok(true));
    let text = list.to_text();
    assert_eq!(text, "*Buy milk\n*Call mom\n");
    let mut list = NoteList::from_text(&text);
    assert_eq!(list.remove(2), Ok(()));
    assert_eq!(list.to_text(), "*Buy milk\n");
}

#[test]
fn save_after_load_keeps_bytes() {
    for text in ["", "a\n", "a\n\n*b\n", "**x\n*\n\n", "one\n*two\nthree\n"] {
        assert_eq!(NoteList::from_text(text).to_text(), text);
    }
}

#[test]
fn load_without_trailing_break() {
    let list = NoteList::from_text("a\n*b");
    assert_eq!(texts(&list), vec![("a".to_string(), false), ("b".to_string(), true)]);
    assert_eq!(list.to_text(), "a\n*b\n");
}

#[test]
fn blank_lines_are_notes() {
    let list = NoteList::from_text("\n\nx\n");
    assert_eq!(list.len(), 3);
    assert_eq!(list.notes()[0], note("", false));
    assert_eq!(list.notes()[2], note("x", false));
}

#[test]
fn append_adds_one_note_at_the_end() {
    let mut list = NoteList::from_text("a\n*b\n");
    assert_eq!(list.append("c".to_string()), Ok(()));
    let reloaded = NoteList::from_text(&list.to_text());
    assert_eq!(reloaded.len(), 3);
    assert_eq!(
        reloaded.notes(),
        &[note("a", false), note("b", true), note("c", false)][..]
    );
}

#[test]
fn append_to_empty_file() {
    let mut list = NoteList::from_text("");
    assert_eq!(list.append("first".to_string()), Ok(()));
    assert_eq!(list.to_text(), "first\n");
}

#[test]
fn append_refuses_line_break() {
    let mut list = NoteList::from_text("a\n");
    assert_eq!(list.append("b\nc".to_string()), Err(NoteError::InvalidNote));
    assert_eq!(list.to_text(), "a\n");
}

#[test]
fn remove_bounds() {
    let mut list = NoteList::from_text("a\nb\nc\n");
    assert_eq!(list.remove(0), Err(NoteError::IndexOutOfRange));
    assert_eq!(list.remove(4), Err(NoteError::IndexOutOfRange));
    assert_eq!(list.to_text(), "a\nb\nc\n");
    let mut empty = NoteList::new();
    assert_eq!(empty.remove(1), Err(NoteError::IndexOutOfRange));
}

#[test]
fn remove_shifts_indices() {
    let mut list = NoteList::from_text("A\nB\nC\n");
    assert_eq!(list.remove(2), Ok(()));
    assert_eq!(list.to_text(), "A\nC\n");
    assert_eq!(list.remove(2), Ok(()));
    assert_eq!(list.to_text(), "A\n");
}

#[test]
fn toggle_is_its_own_inverse() {
    let mut list = NoteList::from_text("a\n*b\nc\n");
    assert_eq!(list.toggle_done(2), Ok(false));
    assert_eq!(list.to_text(), "a\nb\nc\n");
    assert_eq!(list.toggle_done(2), Ok(true));
    assert_eq!(list.to_text(), "a\n*b\nc\n");
}

#[test]
fn toggle_bounds() {
    let mut list = NoteList::from_text("a\n");
    assert_eq!(list.toggle_done(0), Err(NoteError::IndexOutOfRange));
    assert_eq!(list.toggle_done(2), Err(NoteError::IndexOutOfRange));
    assert_eq!(list.to_text(), "a\n");
}

#[test]
fn marker_encoding() {
    let mut list = NoteList::from_text("call bob\n");
    assert_eq!(list.toggle_done(1), Ok(true));
    let text = list.to_text();
    assert_eq!(text, "*call bob\n");
    let back = NoteList::from_text(&text);
    assert_eq!(back.notes(), &[note("call bob", true)][..]);
}

#[test]
fn only_one_marker_is_stripped() {
    let list = NoteList::from_text("**x\n");
    assert_eq!(list.notes(), &[note("*x", true)][..]);
    assert_eq!(list.to_text(), "**x\n");
}

#[test]
fn empty_list_round_trip() {
    assert!(NoteList::from_text("").is_empty());
    let mut list = NoteList::from_text("a\n");
    assert_eq!(list.remove(1), Ok(()));
    assert_eq!(list.to_text(), "");
    assert_eq!(NoteList::new().to_text(), "");
}

#[test]
fn remove_many_descending() {
    let mut list = NoteList::from_text("a\nb\nc\nd\ne\n");
    assert_eq!(list.remove_many(&vec![2, 4, 2]), Ok(()));
    assert_eq!(list.to_text(), "a\nc\ne\n");
}

#[test]
fn remove_many_refuses_whole_batch() {
    let mut list = NoteList::from_text("a\nb\nc\n");
    assert_eq!(list.remove_many(&vec![1, 4]), Err(NoteError::IndexOutOfRange));
    assert_eq!(list.remove_many(&vec![0]), Err(NoteError::IndexOutOfRange));
    assert_eq!(list.to_text(), "a\nb\nc\n");
    assert_eq!(list.remove_many(&vec![]), Ok(()));
    assert_eq!(list.len(), 3);
}

#[test]
fn decode_and_encode_directly() {
    let notes = decode("x\n*y\n");
    assert_eq!(notes, vec![note("x", false), note("y", true)]);
    assert_eq!(encode(&notes), "x\n*y\n");
    assert_eq!(encode(&vec![note("é ü", true)]), "*é ü\n");
}

#[test]
fn line_break_detection() {
    assert!(has_line_break("a\nb"));
    assert!(!has_line_break("ab"));
    assert!(!has_line_break(""));
}
