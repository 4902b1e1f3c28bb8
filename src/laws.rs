use vstd::prelude::*;

use crate::format::{
    lemma_lines_of_render, lemma_parse_render, lemma_parse_well_formed, lemma_render_parse,
    encode_line, lines_of, parse, render, text_well_formed,
};
use crate::list::{in_range, removed, toggled};
use crate::note::{
    note_well_formed, notes_well_formed, single_line, starts_with_marker, NoteView, DONE_MARKER,
};

verus! {

/// Reading a well-formed notes file and writing the notes straight back
/// leaves its text exactly as it was.
pub proof fn save_after_load_keeps_text(s: Seq<char>)
    requires
        text_well_formed(s),
    ensures
        render(parse(s)) == s,
{
    lemma_render_parse(s);
}

/// Appending a note to what a file holds and writing it out, then reading the
/// file again, gives the earlier notes followed by the new one, not done: one
/// note more. This needs text on one line that does not begin with the done
/// marker (such text would read back as a done note).
pub proof fn load_after_append(s: Seq<char>, t: Seq<char>)
    requires
        single_line(t),
        !starts_with_marker(t),
    ensures
        parse(render(parse(s).push((t, false)))) == parse(s).push((t, false)),
        parse(render(parse(s).push((t, false)))).len() == parse(s).len() + 1,
{
    let notes = parse(s).push((t, false));
    lemma_parse_well_formed(s);
    assert(notes_well_formed(notes)) by {
        assert forall|i: int| 0 <= i < notes.len() implies #[trigger] note_well_formed(
            notes[i],
        ) by {
            if i < parse(s).len() {
                assert(notes[i] == parse(s)[i]);
            }
        }
    }
    lemma_parse_render(notes);
}

/// Positions are not identities: from three notes, removing the second leaves
/// the first and the third, and removing the second again then takes out what
/// was the third.
pub proof fn removal_shifts_positions(a: NoteView, b: NoteView, c: NoteView)
    ensures
        removed(seq![a, b, c], 2) == seq![a, c],
        removed(removed(seq![a, b, c], 2), 2) == seq![a],
{
    assert(removed(seq![a, b, c], 2) == seq![a, c]);
    assert(removed(seq![a, c], 2) == seq![a]);
}

/// Toggling the same note twice gives back the list as it was.
pub proof fn toggle_twice_restores(s: Seq<NoteView>, index: int)
    requires
        in_range(s.len() as int, index),
    ensures
        toggled(toggled(s, index), index) == s,
{
    assert(toggled(toggled(s, index), index) == s);
}

/// A note that a toggle makes done is written on a line that starts with the
/// done marker followed by its text, and reads back as done with that same
/// text.
pub proof fn toggled_note_is_marked(s: Seq<NoteView>, index: int)
    requires
        notes_well_formed(s),
        in_range(s.len() as int, index),
        !s[index - 1].1,
    ensures
        lines_of(render(toggled(s, index)))[index - 1] == seq![DONE_MARKER] + s[index - 1].0,
        parse(render(toggled(s, index)))[index - 1] == (s[index - 1].0, true),
{
    let t = toggled(s, index);
    assert(notes_well_formed(t)) by {
        assert forall|i: int| 0 <= i < t.len() implies #[trigger] note_well_formed(t[i]) by {
            assert(note_well_formed(s[i]));
        }
    }
    assert forall|i: int| 0 <= i < t.len() implies single_line(#[trigger] t[i].0) by {
        assert(note_well_formed(t[i]));
    }
    lemma_lines_of_render(t);
    assert(encode_line(t[index - 1]) == seq![DONE_MARKER] + s[index - 1].0);
    lemma_parse_render(t);
}

/// An empty file holds no notes, and no notes are written as an empty file.
pub proof fn empty_list_round_trip()
    ensures
        parse(Seq::<char>::empty()) == Seq::<NoteView>::empty(),
        render(Seq::<NoteView>::empty()) == Seq::<char>::empty(),
{
    assert(parse(Seq::<char>::empty()) == Seq::<NoteView>::empty());
}

} // verus!
