use vstd::prelude::*;

use crate::note::{
    note_well_formed, notes_view, notes_well_formed, single_line, Note, NoteView, DONE_MARKER,
    LINE_BREAK,
};

verus! {

/// The lines of `s` that a line break has closed, in order.
pub open spec fn closed_lines(s: Seq<char>) -> Seq<Seq<char>>
    decreases s.len(),
{
    if s.len() == 0 {
        Seq::empty()
    } else if s.last() == LINE_BREAK {
        closed_lines(s.drop_last()).push(open_line(s.drop_last()))
    } else {
        closed_lines(s.drop_last())
    }
}

/// What follows the last line break of `s` (all of `s` if it has none).
pub open spec fn open_line(s: Seq<char>) -> Seq<char>
    decreases s.len(),
{
    if s.len() == 0 {
        Seq::empty()
    } else if s.last() == LINE_BREAK {
        Seq::empty()
    } else {
        open_line(s.drop_last()).push(s.last())
    }
}

/// The lines of `s`: split at each line break, with a last line that lacks a
/// break counted only when it is not empty.
pub open spec fn lines_of(s: Seq<char>) -> Seq<Seq<char>> {
    if open_line(s).len() == 0 {
        closed_lines(s)
    } else {
        closed_lines(s).push(open_line(s))
    }
}

/// Text as the notes file holds it when written by this library: empty, or
/// ending in a line break.
pub open spec fn text_well_formed(s: Seq<char>) -> bool {
    s.len() == 0 || s.last() == LINE_BREAK
}

/// The note that one persisted line stands for: a leading marker is taken off
/// the text and sets the flag.
pub open spec fn decode_line(l: Seq<char>) -> NoteView {
    if l.len() > 0 && l[0] == DONE_MARKER {
        (l.drop_first(), true)
    } else {
        (l, false)
    }
}

/// The notes that the persisted text `s` holds.
pub open spec fn parse(s: Seq<char>) -> Seq<NoteView> {
    lines_of(s).map_values(|l: Seq<char>| decode_line(l))
}

/// Appends `c` to `s`.
/// Relies on String::push, which appends one character to the string.
#[verifier::external_body]
fn push_char(s: &mut String, c: char)
    ensures
        final(s)@ == old(s)@.push(c),
{
    s.push(c)
}

/// Reads the notes out of the persisted text `content`.
pub fn decode(content: &str) -> (r: Vec<Note>)
    ensures
        notes_view(r@) == parse(content@),
{
    let mut notes: Vec<Note> = Vec::new();
    let mut text = String::new();
    let mut done = false;
    let mut fresh = true;
    for c in it: content.chars()
        invariant
            it.seq() == content@,
            ({
                let seen = content@.take(it.index() as int);
                &&& notes_view(notes@) == closed_lines(seen).map_values(
                    |l: Seq<char>| decode_line(l),
                )
                &&& (text@, done) == decode_line(open_line(seen))
                &&& fresh == (open_line(seen).len() == 0)
            }),
    {
        let ghost seen = content@.take(it.index() as int);
        let ghost line = open_line(seen);
        assert(content@.take(it.index() + 1) == seen.push(c));
        assert(seen.push(c).drop_last() == seen);
        let ghost before = notes@;
        if c == LINE_BREAK {
            notes.push(Note { text, done });
            proof {
                assert(notes_view(notes@) == notes_view(before).push(decode_line(line)));
            }
            text = String::new();
            done = false;
            fresh = true;
        } else {
            if fresh && c == DONE_MARKER {
                done = true;
                assert(seq![DONE_MARKER].drop_first() == Seq::<char>::empty());
            } else {
                push_char(&mut text, c);
                if !fresh {
                    assert(line.push(c).drop_first() == line.drop_first().push(c));
                }
            }
            fresh = false;
        }
    }
    assert(content@.take(content@.len() as int) == content@);
    let ghost before = notes@;
    if !fresh {
        notes.push(Note { text, done });
        assert(notes_view(notes@) == notes_view(before).push(decode_line(open_line(content@))));
    }
    assert(notes_view(notes@) == parse(content@));
    notes
}

/// The persisted line of one note: its text, behind the marker when done.
pub open spec fn encode_line(n: NoteView) -> Seq<char> {
    if n.1 {
        seq![DONE_MARKER] + n.0
    } else {
        n.0
    }
}

/// The persisted text of a list of notes: each note's line followed by a line
/// break; nothing at all for no notes.
pub open spec fn render(notes: Seq<NoteView>) -> Seq<char>
    decreases notes.len(),
{
    if notes.len() == 0 {
        Seq::empty()
    } else {
        render(notes.drop_last()) + encode_line(notes.last()) + seq![LINE_BREAK]
    }
}

/// Writes `notes` out in the persisted text format.
pub fn encode(notes: &Vec<Note>) -> (r: String)
    ensures
        r@ == render(notes_view(notes@)),
{
    let mut out = String::new();
    for i in 0..notes.len()
        invariant
            out@ == render(notes_view(notes@).take(i as int)),
    {
        let ghost done_before = notes_view(notes@).take(i as int);
        assert(notes_view(notes@).take(i + 1).drop_last() == done_before);
        if notes[i].done {
            push_char(&mut out, DONE_MARKER);
        }
        out.append(notes[i].text.as_str());
        push_char(&mut out, LINE_BREAK);
        assert(out@ == render(done_before) + encode_line(notes[i as int]@) + seq![LINE_BREAK]);
    }
    assert(notes_view(notes@).take(notes@.len() as int) == notes_view(notes@));
    out
}

/// Text without a line break adds nothing to the closed lines and extends the
/// open one.
proof fn lemma_extend_open_line(a: Seq<char>, l: Seq<char>)
    requires
        single_line(l),
    ensures
        closed_lines(a + l) == closed_lines(a),
        open_line(a + l) == open_line(a) + l,
    decreases l.len(),
{
    if l.len() == 0 {
        assert(a + l == a);
        assert(open_line(a) + l == open_line(a));
    } else {
        lemma_extend_open_line(a, l.drop_last());
        assert((a + l).drop_last() == a + l.drop_last());
        assert((open_line(a) + l.drop_last()).push(l.last()) == open_line(a) + l);
    }
}

/// A line break closes the open line.
proof fn lemma_close_line(a: Seq<char>)
    ensures
        closed_lines(a.push(LINE_BREAK)) == closed_lines(a).push(open_line(a)),
        open_line(a.push(LINE_BREAK)) == Seq::<char>::empty(),
{
    assert(a.push(LINE_BREAK).drop_last() == a);
}

/// The lines of a rendered list are the notes' encoded lines, and nothing is
/// left open after the last break.
pub(crate) proof fn lemma_lines_of_render(notes: Seq<NoteView>)
    requires
        forall|i: int| 0 <= i < notes.len() ==> single_line(#[trigger] notes[i].0),
    ensures
        closed_lines(render(notes)) == notes.map_values(|n: NoteView| encode_line(n)),
        open_line(render(notes)) == Seq::<char>::empty(),
        lines_of(render(notes)) == notes.map_values(|n: NoteView| encode_line(n)),
    decreases notes.len(),
{
    if notes.len() == 0 {
        assert(notes.map_values(|n: NoteView| encode_line(n)) == Seq::<Seq<char>>::empty());
    } else {
        let front = notes.drop_last();
        let n = notes.last();
        assert forall|i: int| 0 <= i < front.len() implies single_line(#[trigger] front[i].0) by {
            assert(front[i] == notes[i]);
        }
        lemma_extend_open_line(render(front), encode_line(n));
        assert(single_line(n.0));
        assert(single_line(encode_line(n)));
        lemma_close_line(render(front) + encode_line(n));
        lemma_lines_of_render(front);
        assert(Seq::<char>::empty() + encode_line(n) == encode_line(n));
        assert((render(front) + encode_line(n)).push(LINE_BREAK) == render(notes));
        assert(notes.map_values(|n: NoteView| encode_line(n)) == front.map_values(
            |n: NoteView| encode_line(n),
        ).push(encode_line(n)));
    }
}

/// Reading back the text of well-formed notes gives the same notes.
pub(crate) proof fn lemma_parse_render(notes: Seq<NoteView>)
    requires
        notes_well_formed(notes),
    ensures
        parse(render(notes)) == notes,
{
    assert forall|i: int| 0 <= i < notes.len() implies single_line(#[trigger] notes[i].0) by {
        assert(note_well_formed(notes[i]));
    }
    lemma_lines_of_render(notes);
    assert(parse(render(notes)) == notes) by {
        assert forall|i: int| 0 <= i < notes.len() implies #[trigger] parse(render(notes))[i]
            == notes[i] by {
            assert(note_well_formed(notes[i]));
            let n = notes[i];
            if n.1 {
                assert((seq![DONE_MARKER] + n.0).drop_first() == n.0);
            }
        }
    }
}

/// Encoding the note that a line stands for gives the line back.
proof fn lemma_encode_decode_line(l: Seq<char>)
    ensures
        encode_line(decode_line(l)) == l,
{
    if l.len() > 0 && l[0] == DONE_MARKER {
        assert(seq![DONE_MARKER] + l.drop_first() == l);
    }
}

/// Writing out what was read gives back the text up to its open line.
proof fn lemma_render_parse_prefix(s: Seq<char>)
    ensures
        render(closed_lines(s).map_values(|l: Seq<char>| decode_line(l))) + open_line(s) == s,
    decreases s.len(),
{
    if s.len() > 0 {
        let front = s.drop_last();
        lemma_render_parse_prefix(front);
        let notes = closed_lines(front).map_values(|l: Seq<char>| decode_line(l));
        if s.last() == LINE_BREAK {
            let line = open_line(front);
            lemma_encode_decode_line(line);
            let more = closed_lines(s).map_values(|l: Seq<char>| decode_line(l));
            assert(more == notes.push(decode_line(line)));
            assert(more.drop_last() == notes);
            assert(render(more) + open_line(s) == render(notes) + line + seq![LINE_BREAK]);
            assert(front.push(LINE_BREAK) == s);
        } else {
            assert((render(notes) + open_line(front)).push(s.last()) == render(notes) + open_line(
                front,
            ).push(s.last()));
            assert(front.push(s.last()) == s);
        }
    }
}

/// Text that is empty or ends in a line break is written back exactly as read.
pub(crate) proof fn lemma_render_parse(s: Seq<char>)
    requires
        text_well_formed(s),
    ensures
        render(parse(s)) == s,
{
    lemma_render_parse_prefix(s);
    if s.len() > 0 {
        lemma_close_line(s.drop_last());
        assert(s.drop_last().push(LINE_BREAK) == s);
    }
    assert(s + Seq::<char>::empty() == s);
}

/// No line holds a line break.
proof fn lemma_lines_single(s: Seq<char>)
    ensures
        single_line(open_line(s)),
        forall|i: int| 0 <= i < closed_lines(s).len() ==> single_line(#[trigger] closed_lines(s)[i]),
    decreases s.len(),
{
    if s.len() > 0 {
        let front = s.drop_last();
        lemma_lines_single(front);
        if s.last() == LINE_BREAK {
            assert forall|i: int| 0 <= i < closed_lines(s).len() implies single_line(
                #[trigger] closed_lines(s)[i],
            ) by {
                if i < closed_lines(front).len() {
                    assert(closed_lines(s)[i] == closed_lines(front)[i]);
                }
            }
        } else {
            let line = open_line(front);
            assert forall|j: int| 0 <= j < line.push(s.last()).len() implies line.push(
                s.last(),
            )[j] != LINE_BREAK by {
                if j < line.len() {
                    assert(line.push(s.last())[j] == line[j]);
                }
            }
        }
    }
}

/// Every note read from any text is well formed.
pub(crate) proof fn lemma_parse_well_formed(s: Seq<char>)
    ensures
        notes_well_formed(parse(s)),
{
    lemma_lines_single(s);
    let lines = lines_of(s);
    assert forall|i: int| 0 <= i < lines.len() implies single_line(#[trigger] lines[i]) by {
        if i == closed_lines(s).len() {
        }
    }
    assert forall|i: int| 0 <= i < parse(s).len() implies #[trigger] note_well_formed(parse(s)[i]) by {
        let l = lines[i];
        assert(single_line(l));
        if l.len() > 0 && l[0] == DONE_MARKER {
            assert(single_line(l.drop_first())) by {
                assert forall|j: int| 0 <= j < l.drop_first().len() implies l.drop_first()[j] != LINE_BREAK by {
                    assert(l.drop_first()[j] == l[j + 1]);
                }
            }
        }
    }
}

} // verus!
