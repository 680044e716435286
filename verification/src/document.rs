//! The mathematical model of a document buffer: its text, cursor, selection
//! and history, what each operation of the buffer does to them, and the laws
//! that undo and redo obey.
//!
//! Everything here is ghost. The executable buffer in [`crate::text`] states
//! its contracts over this model.

use crate::caret::{caret_column, caret_line, lemma_caret_in_text, offset_at};
use crate::event::{lemma_apply_keeps_last, lemma_inverse_undoes, Edit};
use crate::lines::{
    lemma_last_line_empty, lemma_line_start, lemma_line_start_bounds, line_count, line_len,
    line_start,
};
use vstd::prelude::*;

verus! {

/// A direction in which the cursor moves by one step.
#[derive(Debug, Clone, Copy, PartialEq, Eq, Structural)]
pub enum Direction {
    Left,
    Right,
    Up,
    Down,
}

/// The state of a document buffer.
#[verifier::ext_equal]
pub struct Document {
    /// The path of the file that the buffer was opened for.
    pub path: Seq<char>,
    /// The content.
    pub text: Seq<char>,
    /// The offset of the cursor.
    pub cursor: nat,
    /// The selection, as anchor and head, in either order.
    pub selection: Option<(nat, nat)>,
    /// Every event that was committed and not discarded since.
    pub log: Seq<Edit>,
    /// How many events of the log are applied to the text.
    pub replay: nat,
    /// The net number of edits since the buffer was saved, if any are counted.
    pub dirty: Option<nat>,
}

/// Whether the first `k` events of `log` can be undone from `text`, last one
/// first, each inverse fitting the text that the undo before it left.
pub open spec fn undoable(log: Seq<Edit>, k: nat, text: Seq<char>) -> bool
    decreases k,
{
    k == 0 || {
        &&& k <= log.len()
        &&& log[k - 1].inverse().fits(text)
        &&& undoable(log, (k - 1) as nat, log[k - 1].inverse().apply(text))
    }
}

/// Whether the events of `log` from index `k` on can be applied to `text` in
/// order, each fitting the text that the one before it left.
pub open spec fn redoable(log: Seq<Edit>, k: nat, text: Seq<char>) -> bool
    decreases log.len() - k,
{
    k >= log.len() || {
        &&& log[k as int].fits(text)
        &&& redoable(log, k + 1, log[k as int].apply(text))
    }
}

/// The dirty count after one more edit is applied.
pub open spec fn bumped(dirty: Option<nat>) -> Option<nat> {
    match dirty {
        Some(n) => Some(n + 1),
        None => Some(1),
    }
}

/// The dirty count after one edit is taken back. The count does not go below
/// zero: taking an edit back where none is counted leaves no count at all.
pub open spec fn lowered(dirty: Option<nat>) -> Option<nat> {
    match dirty {
        Some(n) => if n >= 1 {
            Some((n - 1) as nat)
        } else {
            None
        },
        None => None,
    }
}

/// The smaller of two offsets.
pub open spec fn least(a: nat, b: nat) -> nat {
    if a <= b {
        a
    } else {
        b
    }
}

/// The larger of two offsets.
pub open spec fn greatest(a: nat, b: nat) -> nat {
    if a <= b {
        b
    } else {
        a
    }
}

impl Document {
    /// The content ends with a line feed, and the cursor is on a character.
    pub open spec fn buffer_wf(self) -> bool {
        &&& self.text.len() > 0
        &&& self.text.last() == '\n'
        &&& self.cursor < self.text.len()
    }

    /// The events that are applied can be undone one by one, those that are
    /// not can be redone one by one, and the dirty count is no more than the
    /// number of applied events.
    pub open spec fn history_wf(self) -> bool {
        &&& self.replay <= self.log.len()
        &&& undoable(self.log, self.replay, self.text)
        &&& redoable(self.log, self.replay, self.text)
        &&& self.dirty is Some ==> self.dirty->0 <= self.replay
    }

    /// The invariant of a document buffer.
    pub open spec fn wf(self) -> bool {
        self.buffer_wf() && self.history_wf()
    }

    /// A freshly opened buffer for `path` with content `text`.
    pub open spec fn fresh(path: Seq<char>, text: Seq<char>) -> Document {
        Document {
            path,
            text,
            cursor: 0,
            selection: None,
            log: Seq::empty(),
            replay: 0,
            dirty: None,
        }
    }

    // ---------------------------------------------------------------
    // Coordinates and caret movement

    /// The line of the cursor.
    pub open spec fn line(self) -> nat {
        caret_line(self.text, self.cursor)
    }

    /// The column of the cursor.
    pub open spec fn column(self) -> nat {
        caret_column(self.text, self.cursor)
    }

    /// The buffer with the cursor at `cursor`.
    pub open spec fn with_cursor(self, cursor: nat) -> Document {
        Document { cursor, ..self }
    }

    /// One character to the left, staying at offset 0.
    pub open spec fn moved_left(self) -> Document {
        self.with_cursor(
            if self.cursor == 0 {
                0
            } else {
                (self.cursor - 1) as nat
            },
        )
    }

    /// One character to the right, staying on the last character.
    pub open spec fn moved_right(self) -> Document {
        self.with_cursor(
            if self.cursor + 1 < self.text.len() {
                self.cursor + 1
            } else {
                (self.text.len() - 1) as nat
            },
        )
    }

    /// Where the cursor goes on line `line` when it comes from column
    /// `column`: to that column, or to the last character of the line when
    /// the line is shorter.
    pub open spec fn landing(self, line: nat, column: nat) -> nat {
        let len = line_len(self.text, line);
        if column < len {
            (line_start(self.text, line) + column) as nat
        } else {
            (line_start(self.text, line) + len - 1) as nat
        }
    }

    /// One line down, keeping the column where the next line is long enough.
    /// Onto the empty last line the cursor does not go: it stops on the last
    /// character of the text. On the last line nothing moves.
    pub open spec fn moved_down(self) -> Document {
        if self.line() + 1 >= line_count(self.text) {
            self
        } else if line_len(self.text, self.line() + 1) == 0 {
            self.with_cursor((self.text.len() - 1) as nat)
        } else {
            self.with_cursor(self.landing(self.line() + 1, self.column()))
        }
    }

    /// One line up, keeping the column where the previous line is long
    /// enough. From the first line the cursor goes to offset 0.
    pub open spec fn moved_up(self) -> Document {
        if self.line() == 0 {
            self.with_cursor(0)
        } else {
            self.with_cursor(self.landing((self.line() - 1) as nat, self.column()))
        }
    }

    /// One step in `direction`.
    pub open spec fn moved(self, direction: Direction) -> Document {
        match direction {
            Direction::Left => self.moved_left(),
            Direction::Right => self.moved_right(),
            Direction::Up => self.moved_up(),
            Direction::Down => self.moved_down(),
        }
    }

    // ---------------------------------------------------------------
    // Selection

    /// The selection after the cursor has moved from `previous` to where it
    /// is now. Without `extend` there is none. With it, a selection whose head
    /// is already at the cursor collapses; another one keeps its anchor and
    /// gets the cursor as its head; and where there was none, one starts at
    /// `previous`.
    pub open spec fn selected(self, extend: bool, previous: nat) -> Document {
        Document {
            selection: if !extend {
                None
            } else {
                match self.selection {
                    Some((anchor, head)) => if head == self.cursor {
                        None
                    } else {
                        Some((anchor, self.cursor))
                    },
                    None => Some((previous, self.cursor)),
                }
            },
            ..self
        }
    }

    /// The buffer without a selection.
    pub open spec fn unselected(self) -> Document {
        Document { selection: None, ..self }
    }

    /// The cursor on the caret `line`, `column`, kept on the text, and the
    /// selection extended from where the cursor was, or dropped.
    pub open spec fn caret_set(self, line: nat, column: nat, extend: bool) -> Document {
        self.with_cursor(
            least(offset_at(self.text, line, column), (self.text.len() - 1) as nat),
        ).selected(extend, self.cursor)
    }

    /// The two ends of the selection in order, the smaller one first.
    pub open spec fn span(self) -> (nat, nat)
        recommends
            self.selection is Some,
    {
        let (anchor, head) = self.selection->0;
        (least(anchor, head), greatest(anchor, head))
    }

    /// The text from the first end of the selection up to and including the
    /// character at its other end, as far as the content reaches.
    pub open spec fn selected_text(self) -> Option<Seq<char>> {
        match self.selection {
            None => None,
            Some(_) => {
                let (first, last) = self.span();
                let end = least(last + 1, self.text.len());
                let start = least(first, end);
                Some(self.text.subrange(start as int, end as int))
            },
        }
    }

    /// The event that takes out the selection: the text from its first end up
    /// to, not including, the character at its other end. Both ends are kept
    /// in front of the last character of the content.
    pub open spec fn selection_removal(self) -> Edit
        recommends
            self.selection is Some,
    {
        let (first, last) = self.span();
        let end = least(last, (self.text.len() - 1) as nat);
        let start = least(first, end);
        Edit::RemoveString(self.text.subrange(start as int, end as int), start)
    }

    // ---------------------------------------------------------------
    // Edits and history

    /// The text and the cursor after `e` is applied. The history is as it
    /// was.
    pub open spec fn applied(self, e: Edit) -> Document {
        Document { text: e.apply(self.text), cursor: e.cursor_after(), ..self }
    }

    /// The commit step: the events that could be redone are discarded, `e`
    /// is appended to the log and applied, and the dirty count goes up.
    pub open spec fn committed(self, e: Edit) -> Document {
        Document {
            text: e.apply(self.text),
            cursor: e.cursor_after(),
            log: self.log.take(self.replay as int).push(e),
            replay: self.replay + 1,
            dirty: bumped(self.dirty),
            ..self
        }
    }

    /// The last applied event taken back: its inverse is applied, and the
    /// replay cursor and the dirty count go down. With no event applied
    /// nothing changes.
    pub open spec fn undone(self) -> Document {
        if self.replay == 0 || self.replay > self.log.len() {
            self
        } else {
            let back = self.log[self.replay - 1].inverse();
            Document {
                text: back.apply(self.text),
                cursor: back.cursor_after(),
                replay: (self.replay - 1) as nat,
                dirty: lowered(self.dirty),
                ..self
            }
        }
    }

    /// The first event that is not applied, applied again, with the replay
    /// cursor and the dirty count going up. With every event applied nothing
    /// changes.
    pub open spec fn redone(self) -> Document {
        if self.replay >= self.log.len() {
            self
        } else {
            let again = self.log[self.replay as int];
            Document {
                text: again.apply(self.text),
                cursor: again.cursor_after(),
                replay: self.replay + 1,
                dirty: bumped(self.dirty),
                ..self
            }
        }
    }

    /// The selection taken out as an event of its own, and dropped. Without
    /// a selection nothing changes.
    pub open spec fn selection_deleted(self) -> Document {
        if self.selection is Some {
            self.committed(self.selection_removal()).unselected()
        } else {
            self
        }
    }

    /// `c` typed at the cursor, in place of the selection if there is one.
    pub open spec fn char_inserted(self, c: char) -> Document {
        let gone = self.selection_deleted();
        gone.committed(Edit::AddChar(c, gone.cursor))
    }

    /// `s` put in at the cursor, in place of the selection if there is one.
    pub open spec fn string_inserted(self, s: Seq<char>) -> Document {
        let gone = self.selection_deleted();
        gone.committed(Edit::AddString(s, gone.cursor))
    }

    /// The selection taken out, or else the character before the cursor. At
    /// offset 0 with no selection nothing changes.
    pub open spec fn backspaced(self) -> Document {
        if self.selection is Some {
            self.selection_deleted()
        } else if self.cursor == 0 {
            self
        } else {
            self.committed(
                Edit::RemoveChar(self.text[self.cursor - 1], (self.cursor - 1) as nat),
            )
        }
    }

    /// The selection taken out, or else the character at the cursor. On the
    /// last character with no selection nothing changes.
    pub open spec fn deleted(self) -> Document {
        if self.selection is Some {
            self.selection_deleted()
        } else if self.cursor + 1 >= self.text.len() {
            self
        } else {
            self.committed(Edit::RemoveChar(self.text[self.cursor as int], self.cursor))
        }
    }

    /// The buffer after its content was written out: no edit is pending.
    pub open spec fn saved(self) -> Document {
        Document { dirty: None, ..self }
    }
}

// -------------------------------------------------------------------
// The invariant is kept

/// Whether the first `k` events can be undone depends on those events only.
pub proof fn lemma_undoable_prefix(a: Seq<Edit>, b: Seq<Edit>, k: nat, text: Seq<char>)
    requires
        k <= a.len(),
        k <= b.len(),
        forall|i: int| 0 <= i < k ==> a[i] == b[i],
    ensures
        undoable(a, k, text) == undoable(b, k, text),
    decreases k,
{
    if k > 0 {
        lemma_undoable_prefix(a, b, (k - 1) as nat, a[k - 1].inverse().apply(text));
    }
}

/// Committing an event that fits keeps the invariant.
pub proof fn lemma_committed_wf(d: Document, e: Edit)
    requires
        d.wf(),
        e.fits(d.text),
    ensures
        d.committed(e).wf(),
{
    let c = d.committed(e);
    lemma_apply_keeps_last(e, d.text);
    lemma_inverse_undoes(e, d.text);
    lemma_undoable_prefix(d.log, c.log, d.replay, d.text);
    assert(c.log[c.replay - 1] == e);
}

/// Undo keeps the invariant.
pub proof fn lemma_undone_wf(d: Document)
    requires
        d.wf(),
    ensures
        d.undone().wf(),
{
    if d.replay > 0 {
        let e = d.log[d.replay - 1];
        let back = e.inverse();
        lemma_apply_keeps_last(back, d.text);
        lemma_inverse_undoes(back, d.text);
        let u = d.undone();
        assert(u.log[u.replay as int] == e);
        assert(back.inverse() == e) by {
            assert(e.inverse().inverse() == e);
        }
    }
}

/// Redo keeps the invariant.
pub proof fn lemma_redone_wf(d: Document)
    requires
        d.wf(),
    ensures
        d.redone().wf(),
{
    if d.replay < d.log.len() {
        let e = d.log[d.replay as int];
        lemma_apply_keeps_last(e, d.text);
        lemma_inverse_undoes(e, d.text);
        let r = d.redone();
        assert(r.log[r.replay - 1] == e);
    }
}

/// The event that takes out the selection fits the content.
pub proof fn lemma_selection_removal_fits(d: Document)
    requires
        d.buffer_wf(),
        d.selection is Some,
    ensures
        d.selection_removal().fits(d.text),
        d.selection_removal().at() <= d.text.len() - 1,
{
}

/// Where the cursor lands on a line above the last is a character of that
/// line.
pub proof fn lemma_landing(d: Document, line: nat, column: nat)
    requires
        d.buffer_wf(),
        line + 1 < line_count(d.text),
    ensures
        line_len(d.text, line) >= 1,
        line_start(d.text, line) <= d.landing(line, column) < line_start(d.text, line + 1),
        d.landing(line, column) < d.text.len(),
{
    lemma_line_start(d.text, line + 1);
    lemma_line_start_bounds(d.text, line);
    lemma_line_start_bounds(d.text, line + 1);
}

/// The cursor of a buffer in order is on a line above the empty last line.
pub proof fn lemma_cursor_line(d: Document)
    requires
        d.buffer_wf(),
    ensures
        d.line() + 1 < line_count(d.text),
        line_start(d.text, d.line()) + d.column() == d.cursor,
        d.cursor < line_start(d.text, d.line() + 1),
{
    lemma_last_line_empty(d.text);
    lemma_caret_in_text(d.text, d.cursor);
}

/// Moving the caret keeps the cursor on the text.
pub proof fn lemma_moves_wf(d: Document)
    requires
        d.wf(),
    ensures
        d.moved_left().wf(),
        d.moved_right().wf(),
        d.moved_up().wf(),
        d.moved_down().wf(),
{
    lemma_cursor_line(d);
    if d.line() > 0 {
        lemma_landing(d, (d.line() - 1) as nat, d.column());
    }
    if d.line() + 1 < line_count(d.text) && line_len(d.text, d.line() + 1) != 0 {
        if d.line() + 2 < line_count(d.text) {
            lemma_landing(d, d.line() + 1, d.column());
        } else {
            lemma_last_line_empty(d.text);
            crate::lines::lemma_line_start_past_end(d.text, d.line() + 2);
        }
    }
}

// -------------------------------------------------------------------
// Laws

/// The round trip of one edit. Undo right after an event was committed gives
/// back the content, the selection and the replay cursor that the buffer had
/// before, and puts the cursor where the event began: at its offset after an
/// insertion, behind its text after a removal. Redo after that undo gives
/// back the buffer as it was after the commit, in every part.
pub proof fn law_undo_redo_round_trip(d: Document, e: Edit)
    requires
        d.wf(),
        e.fits(d.text),
    ensures
        d.committed(e).undone().text == d.text,
        d.committed(e).undone().selection == d.selection,
        d.committed(e).undone().replay == d.replay,
        d.committed(e).undone().cursor == e.inverse().cursor_after(),
        d.committed(e).undone().redone() == d.committed(e),
{
    let c = d.committed(e);
    lemma_inverse_undoes(e, d.text);
    assert(c.log[c.replay - 1] == e);
    let u = c.undone();
    assert(u.log[u.replay as int] == e);
    assert(u.redone().dirty == c.dirty);
    assert(u.redone() =~= c);
}

/// Undo after typing a character or a string, or after a backspace, with no
/// selection in the way, gives back the content and the cursor offset that
/// the buffer had before, and redo then gives back the buffer as it was
/// after the edit.
pub proof fn law_undo_restores_edit(d: Document, c: char, s: Seq<char>)
    requires
        d.wf(),
        d.selection is None,
    ensures
        d.char_inserted(c).undone().text == d.text,
        d.char_inserted(c).undone().cursor == d.cursor,
        d.char_inserted(c).undone().redone() == d.char_inserted(c),
        d.string_inserted(s).undone().text == d.text,
        d.string_inserted(s).undone().cursor == d.cursor,
        d.string_inserted(s).undone().redone() == d.string_inserted(s),
        d.cursor > 0 ==> {
            &&& d.backspaced().undone().text == d.text
            &&& d.backspaced().undone().cursor == d.cursor
            &&& d.backspaced().undone().redone() == d.backspaced()
        },
{
    law_undo_redo_round_trip(d, Edit::AddChar(c, d.cursor));
    law_undo_redo_round_trip(d, Edit::AddString(s, d.cursor));
    if d.cursor > 0 {
        let e = Edit::RemoveChar(d.text[d.cursor - 1], (d.cursor - 1) as nat);
        assert(d.text.subrange(d.cursor - 1, d.cursor as int) =~= seq![d.text[d.cursor - 1]]);
        law_undo_redo_round_trip(d, e);
    }
}

/// Undo after deleting the character at the cursor gives back the content,
/// with the cursor behind the character that came back, and redo then gives
/// back the buffer as it was after the deletion.
pub proof fn law_undo_restores_delete(d: Document)
    requires
        d.wf(),
        d.selection is None,
        d.cursor + 1 < d.text.len(),
    ensures
        d.deleted().undone().text == d.text,
        d.deleted().undone().cursor == d.cursor + 1,
        d.deleted().undone().redone() == d.deleted(),
{
    let e = Edit::RemoveChar(d.text[d.cursor as int], d.cursor);
    assert(d.text.subrange(d.cursor as int, (d.cursor + 1) as int) =~= seq![d.text[d.cursor as int]]);
    law_undo_redo_round_trip(d, e);
}

/// Undo after the selection was taken out gives back the content, with the
/// cursor behind the text that came back, and redo then gives back the
/// buffer as it was after the removal.
pub proof fn law_undo_restores_selection(d: Document)
    requires
        d.wf(),
        d.selection is Some,
    ensures
        d.selection_deleted().undone().text == d.text,
        d.selection_deleted().undone().redone() == d.selection_deleted(),
{
    let e = d.selection_removal();
    lemma_selection_removal_fits(d);
    law_undo_redo_round_trip(d, e);
    let c = d.committed(e);
    assert(c.log[c.replay - 1] == e);
    assert(c.unselected().log[c.replay - 1] == e);
    let u = c.unselected().undone();
    assert(u.log[u.replay as int] == e);
    assert(u.redone() =~= c.unselected());
}

/// Branch discarding: a commit leaves nothing to redo, whatever could be
/// redone before it. The log is the events that were applied, followed by
/// the new one, and redo does nothing until an undo has taken place.
pub proof fn law_commit_discards_redo(d: Document, e: Edit)
    requires
        d.wf(),
    ensures
        d.committed(e).log == d.log.take(d.replay as int).push(e),
        d.committed(e).replay == d.committed(e).log.len(),
        d.committed(e).redone() == d.committed(e),
{
}

/// Every edit of the buffer that changes anything ends with a commit, so
/// after it nothing can be redone: every event of the history is applied,
/// and redo does nothing.
pub proof fn law_edit_discards_redo(d: Document, c: char, s: Seq<char>)
    requires
        d.wf(),
    ensures
        d.char_inserted(c).replay == d.char_inserted(c).log.len(),
        d.char_inserted(c).redone() == d.char_inserted(c),
        d.string_inserted(s).replay == d.string_inserted(s).log.len(),
        d.string_inserted(s).redone() == d.string_inserted(s),
        d.selection is Some || d.cursor > 0 ==> d.backspaced().replay == d.backspaced().log.len()
            && d.backspaced().redone() == d.backspaced(),
        d.selection is Some || d.cursor + 1 < d.text.len() ==> d.deleted().replay
            == d.deleted().log.len() && d.deleted().redone() == d.deleted(),
{
    let gone = d.selection_deleted();
    if d.selection is Some {
        lemma_selection_removal_fits(d);
        lemma_committed_wf(d, d.selection_removal());
        law_commit_discards_redo(d, d.selection_removal());
    }
    law_commit_discards_redo(gone, Edit::AddChar(c, gone.cursor));
    law_commit_discards_redo(gone, Edit::AddString(s, gone.cursor));
    if d.selection is None && d.cursor > 0 {
        law_commit_discards_redo(
            d,
            Edit::RemoveChar(d.text[d.cursor - 1], (d.cursor - 1) as nat),
        );
    }
    if d.selection is None && d.cursor + 1 < d.text.len() {
        law_commit_discards_redo(d, Edit::RemoveChar(d.text[d.cursor as int], d.cursor));
    }
}

/// Extending the selection twice to the same head offset leaves no
/// selection, unless the head stood at that offset before the first of the
/// two steps.
pub proof fn law_selection_collapses(d: Document, first: nat, second: nat)
    requires
        !(d.selection is Some && d.selection.unwrap().1 == d.cursor),
    ensures
        d.selected(true, first).selected(true, second).selection is None,
{
}

} // verus!
