use vstd::prelude::*;

use crate::format::{decode, encode, parse, render};
use crate::note::{notes_view, single_line, Note, NoteError, NoteView, LINE_BREAK};

verus! {

/// Whether `index` addresses one of `len` notes by 1-based position.
pub open spec fn in_range(len: int, index: int) -> bool {
    1 <= index <= len
}

/// `s` after the note at 1-based position `index` is taken out; every later
/// note moves up one place.
pub open spec fn removed(s: Seq<NoteView>, index: int) -> Seq<NoteView> {
    s.remove(index - 1)
}

/// `s` with the flag of the note at 1-based position `index` flipped.
pub open spec fn toggled(s: Seq<NoteView>, index: int) -> Seq<NoteView> {
    s.update(index - 1, (s[index - 1].0, !s[index - 1].1))
}

/// The notes of `s` from 0-based offset `k` on whose 1-based positions are not
/// listed in `indices`, in order.
pub open spec fn kept_from(s: Seq<NoteView>, indices: Seq<usize>, k: int) -> Seq<NoteView>
    decreases s.len() - k,
{
    if k < 0 || k >= s.len() {
        Seq::empty()
    } else if indices.contains((k + 1) as usize) {
        kept_from(s, indices, k + 1)
    } else {
        seq![s[k]] + kept_from(s, indices, k + 1)
    }
}

/// `s` with every note whose 1-based position is listed in `indices` taken out.
pub open spec fn without_positions(s: Seq<NoteView>, indices: Seq<usize>) -> Seq<NoteView> {
    kept_from(s, indices, 0)
}

/// Whether `text` holds a line break.
pub fn has_line_break(text: &str) -> (r: bool)
    ensures
        r == !single_line(text@),
{
    for c in it: text.chars()
        invariant
            it.seq() == text@,
            single_line(text@.take(it.index() as int)),
    {
        if c == LINE_BREAK {
            assert(text@[it.index() as int] == LINE_BREAK);
            return true;
        }
        assert(text@.take(it.index() + 1) == text@.take(it.index() as int).push(c));
    }
    assert(text@.take(text@.len() as int) == text@);
    false
}

/// Whether `indices` lists `p`.
fn lists(indices: &Vec<usize>, p: usize) -> (r: bool)
    ensures
        r == indices@.contains(p),
{
    for j in 0..indices.len()
        invariant
            forall|k: int| 0 <= k < j ==> indices@[k] != p,
    {
        if indices[j] == p {
            return true;
        }
    }
    false
}

/// The notes of one file, in display order, addressed by 1-based position.
#[derive(Debug)]
pub struct NoteList {
    notes: Vec<Note>,
}

impl View for NoteList {
    type V = Seq<NoteView>;

    closed spec fn view(&self) -> Seq<NoteView> {
        notes_view(self.notes@)
    }
}

impl NoteList {
    /// A list with no notes.
    pub fn new() -> (r: NoteList)
        ensures
            r@ == Seq::<NoteView>::empty(),
    {
        let r = NoteList { notes: Vec::new() };
        assert(r@ == Seq::<NoteView>::empty());
        r
    }

    /// The notes that the persisted text `content` holds.
    pub fn from_text(content: &str) -> (r: NoteList)
        ensures
            r@ == parse(content@),
    {
        NoteList { notes: decode(content) }
    }

    /// The persisted text of the list.
    pub fn to_text(&self) -> (r: String)
        ensures
            r@ == render(self@),
    {
        encode(&self.notes)
    }

    /// The number of notes.
    pub fn len(&self) -> (r: usize)
        ensures
            r == self@.len(),
    {
        self.notes.len()
    }

    /// Whether the list holds no notes.
    pub fn is_empty(&self) -> (r: bool)
        ensures
            r == (self@.len() == 0),
    {
        self.notes.len() == 0
    }

    /// The notes, in display order.
    pub fn notes(&self) -> (r: &[Note])
        ensures
            notes_view(r@) == self@,
    {
        self.notes.as_slice()
    }

    /// Adds a note that is not done at the end of the list. Text with a line
    /// break is refused, and the list is then left as it was.
    pub fn append(&mut self, text: String) -> (r: Result<(), NoteError>)
        ensures
            r is Ok <==> single_line(text@),
            r is Ok ==> final(self)@ == old(self)@.push((text@, false)),
            r is Err ==> r == Err::<(), NoteError>(NoteError::InvalidNote) && final(self)@ == old(
                self,
            )@,
    {
        if has_line_break(text.as_str()) {
            return Err(NoteError::InvalidNote);
        }
        let ghost before = self.notes@;
        self.notes.push(Note { text, done: false });
        assert(notes_view(self.notes@) == notes_view(before).push((text@, false)));
        Ok(())
    }

    /// Takes out the note at 1-based position `index`; the notes after it move
    /// up one place. An index of 0 or past the last note is refused, and the
    /// list is then left as it was.
    pub fn remove(&mut self, index: usize) -> (r: Result<(), NoteError>)
        ensures
            r is Ok <==> in_range(old(self)@.len() as int, index as int),
            r is Ok ==> final(self)@ == removed(old(self)@, index as int),
            r is Err ==> r == Err::<(), NoteError>(NoteError::IndexOutOfRange) && final(self)@
                == old(self)@,
    {
        if index == 0 || index > self.notes.len() {
            return Err(NoteError::IndexOutOfRange);
        }
        let ghost before = self.notes@;
        self.notes.remove(index - 1);
        assert(notes_view(self.notes@) == notes_view(before).remove(index - 1));
        Ok(())
    }

    /// Flips the done flag of the note at 1-based position `index` and returns
    /// the flag it now has. An index of 0 or past the last note is refused,
    /// and the list is then left as it was.
    pub fn toggle_done(&mut self, index: usize) -> (r: Result<bool, NoteError>)
        ensures
            r is Ok <==> in_range(old(self)@.len() as int, index as int),
            r is Ok ==> final(self)@ == toggled(old(self)@, index as int) && r == Ok::<
                bool,
                NoteError,
            >(!old(self)@[index - 1].1),
            r is Err ==> r == Err::<bool, NoteError>(NoteError::IndexOutOfRange) && final(self)@
                == old(self)@,
    {
        if index == 0 || index > self.notes.len() {
            return Err(NoteError::IndexOutOfRange);
        }
        let ghost before = self.notes@;
        let mut note = self.notes.remove(index - 1);
        note.done = !note.done;
        let done = note.done;
        self.notes.insert(index - 1, note);
        assert(self.notes@ == before.update(index - 1, note));
        assert(notes_view(self.notes@) == toggled(notes_view(before), index as int));
        Ok(done)
    }

    /// Takes out every note whose 1-based position `indices` lists, in one
    /// pass from the last position down, so that no removal shifts a position
    /// still to be removed. A position listed twice is removed once. If any
    /// listed position is 0 or past the last note, nothing is removed.
    pub fn remove_many(&mut self, indices: &Vec<usize>) -> (r: Result<(), NoteError>)
        ensures
            r is Ok <==> forall|j: int|
                0 <= j < indices@.len() ==> in_range(
                    old(self)@.len() as int,
                    #[trigger] indices@[j] as int,
                ),
            r is Ok ==> final(self)@ == without_positions(old(self)@, indices@),
            r is Err ==> r == Err::<(), NoteError>(NoteError::IndexOutOfRange) && final(self)@
                == old(self)@,
    {
        let n = self.notes.len();
        for j in 0..indices.len()
            invariant
                n == self.notes@.len(),
                forall|k: int| 0 <= k < j ==> in_range(n as int, #[trigger] indices@[k] as int),
        {
            if indices[j] == 0 || indices[j] > n {
                return Err(NoteError::IndexOutOfRange);
            }
        }
        let ghost all = notes_view(self.notes@);
        let mut k = n;
        while k > 0
            invariant
                k <= n,
                n == all.len(),
                notes_view(self.notes@) == all.take(k as int) + kept_from(all, indices@, k as int),
            decreases k,
        {
            let ghost before = self.notes@;
            assert(notes_view(before).len() == before.len());
            assert(before.len() >= k);
            if lists(indices, k) {
                self.notes.remove(k - 1);
                assert(notes_view(self.notes@) == notes_view(before).remove(k - 1));
                assert(all.take(k as int).remove(k - 1) == all.take(k - 1));
            } else {
                assert(all.take(k as int) == all.take(k - 1).push(all[k - 1]));
                assert(all.take(k - 1) + (seq![all[k - 1]] + kept_from(all, indices@, k as int))
                    == all.take(k as int) + kept_from(all, indices@, k as int));
            }
            k = k - 1;
        }
        assert(all.take(0) + kept_from(all, indices@, 0) == kept_from(all, indices@, 0));
        Ok(())
    }
}

} // verus!
