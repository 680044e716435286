//! The document buffer: the text of one file in a rope, with a cursor, a
//! selection and a linear history of edits that can be undone and redone.

use crate::caret::{caret_column, caret_line, law_offset_round_trip, offset_at, Caret};
use crate::document::{
    lemma_committed_wf, lemma_cursor_line, lemma_landing, lemma_moves_wf, lemma_redone_wf,
    lemma_selection_removal_fits, lemma_undone_wf, Direction, Document,
};
use crate::event::{edits_of, lemma_apply_keeps_last, Edit, HistoryEvent};
use crate::lines::{
    lemma_line_of_between, lemma_line_start_bounds, lemma_line_start_past_end, line_count,
    line_start,
};
use crate::rope::{
    rope_char, rope_clone, rope_from_str, rope_insert, rope_insert_char, rope_len_chars,
    rope_len_lines, rope_line_to_char, rope_remove, rope_slice_to_string, rope_text,
    rope_to_string,
};
use crate::strings::{normalize, normalized};
use ropey::Rope;
use vstd::prelude::*;
use vstd::string::StrSliceExecFns;

verus! {

/// The buffer of one open file.
#[derive(Debug, PartialEq)]
pub struct TextFile {
    /// The path of the file. It identifies the buffer among the open tabs.
    pub path: String,
    /// The content.
    pub rope: Rope,
    /// The offset of the cursor.
    pub char_idx: usize,
    /// The events of the history, oldest first, applied or not.
    pub event_history: Vec<HistoryEvent>,
    /// How many events of the history are applied.
    pub history_idx: usize,
    /// The net number of edits since the buffer was saved, if any are
    /// counted.
    pub dirty_changes: Option<usize>,
    /// The selection, as anchor and head, in either order.
    pub selection: Option<(usize, usize)>,
}

/// Why saving a buffer failed.
#[derive(Debug, Clone, Copy, PartialEq, Eq, Structural)]
pub enum SaveError {
    /// The content could not be written to the file.
    NotWritten,
}

/// A selection of the buffer as a pair of offsets.
pub open spec fn selection_of(selection: Option<(usize, usize)>) -> Option<(nat, nat)> {
    match selection {
        Some((anchor, head)) => Some((anchor as nat, head as nat)),
        None => None,
    }
}

/// A dirty count of the buffer as a number.
pub open spec fn count_of(dirty: Option<usize>) -> Option<nat> {
    match dirty {
        Some(n) => Some(n as nat),
        None => None,
    }
}

impl View for TextFile {
    type V = Document;

    open spec fn view(&self) -> Document {
        Document {
            path: self.path@,
            text: rope_text(self.rope),
            cursor: self.char_idx as nat,
            selection: selection_of(self.selection),
            log: edits_of(self.event_history@),
            replay: self.history_idx as nat,
            dirty: count_of(self.dirty_changes),
        }
    }
}

impl Clone for TextFile {
    fn clone(&self) -> (copy: Self)
        ensures
            copy@ == self@,
    {
        let mut events: Vec<HistoryEvent> = Vec::new();
        let mut i: usize = 0;
        while i < self.event_history.len()
            invariant
                i <= self.event_history@.len(),
                events@.len() == i,
                edits_of(events@) == edits_of(self.event_history@).take(i as int),
            decreases self.event_history@.len() - i,
        {
            let ghost before = events@;
            events.push(self.event_history[i].clone());
            assert forall|j: int| 0 <= j <= i implies edits_of(events@)[j] == edits_of(
                self.event_history@,
            )[j] by {
                if j < i {
                    assert(edits_of(before)[j] == edits_of(self.event_history@).take(i as int)[j]);
                }
            }
            assert(edits_of(events@) =~= edits_of(self.event_history@).take(i + 1));
            i += 1;
        }
        assert(edits_of(events@) =~= edits_of(self.event_history@));
        Self {
            path: self.path.clone(),
            rope: rope_clone(&self.rope),
            char_idx: self.char_idx,
            event_history: events,
            history_idx: self.history_idx,
            dirty_changes: self.dirty_changes,
            selection: self.selection,
        }
    }
}

impl TextFile {
    /// The invariant of the buffer: the content ends with a line feed, the
    /// cursor is on a character, and the history can be replayed in both
    /// directions.
    pub open spec fn wf(&self) -> bool {
        self@.wf()
    }

    /// A buffer for the file at `path`, whose text is `loaded`, or for a file
    /// that could not be read, which is taken as empty. CR LF becomes LF, and
    /// the content ends with a line feed. The cursor is at the start, nothing
    /// is selected, and the history is empty.
    pub fn new(path: String, loaded: Option<String>) -> (file: Self)
        ensures
            file@ == Document::fresh(
                path@,
                normalized(
                    match loaded {
                        Some(text) => text@,
                        None => Seq::empty(),
                    },
                ),
            ),
            file.wf(),
    {
        let content = match loaded {
            Some(text) => normalize(text.as_str()),
            None => normalize(""),
        };
        proof {
            reveal_strlit("");
            assert(""@ =~= Seq::<char>::empty());
        }
        let file = Self {
            path,
            rope: rope_from_str(content.as_str()),
            char_idx: 0,
            event_history: Vec::new(),
            history_idx: 0,
            dirty_changes: None,
            selection: None,
        };
        assert(file@.log =~= Seq::<Edit>::empty());
        file
    }

    /// The content as a string.
    pub fn to_string(&self) -> (s: String)
        ensures
            s@ == self@.text,
    {
        rope_to_string(&self.rope)
    }

    /// The lines of the content, in order. Each holds the break that ends
    /// it; the last one has none, and is empty when the content ends with a
    /// break.
    pub fn chars(&self) -> (lines: Vec<String>)
        ensures
            lines@.len() == line_count(self@.text),
            forall|k: int|
                0 <= k < lines@.len() ==> (#[trigger] lines@[k])@ == self@.text.subrange(
                    line_start(self@.text, k as nat),
                    line_start(self@.text, (k + 1) as nat),
                ),
    {
        let ghost text = self@.text;
        let count = rope_len_lines(&self.rope);
        let mut lines: Vec<String> = Vec::new();
        let mut k: usize = 0;
        while k < count
            invariant
                k <= count,
                count == line_count(text),
                text == rope_text(self.rope),
                lines@.len() == k,
                forall|j: int|
                    0 <= j < k ==> (#[trigger] lines@[j])@ == text.subrange(
                        line_start(text, j as nat),
                        line_start(text, (j + 1) as nat),
                    ),
            decreases count - k,
        {
            let start = rope_line_to_char(&self.rope, k);
            let end = rope_line_to_char(&self.rope, k + 1);
            proof {
                lemma_line_start_bounds(text, k as nat);
            }
            lines.push(rope_slice_to_string(&self.rope, start, end));
            k += 1;
        }
        lines
    }

    /// The caret of the cursor.
    pub fn get_caret(&self) -> (caret: Caret)
        ensures
            caret.ln == self@.line(),
            caret.col == self@.column(),
    {
        self.get_caret_from_idx(self.char_idx)
    }

    /// The caret that stands for the offset `idx`: its line, and how far it
    /// is from the start of that line. An offset at or beyond the end of the
    /// content gives the end of the last line. The caret of an offset inside
    /// the content stands for that offset again.
    pub fn get_caret_from_idx(&self, idx: usize) -> (caret: Caret)
        ensures
            caret.ln == caret_line(self@.text, idx as nat),
            caret.col == caret_column(self@.text, idx as nat),
            idx < self@.text.len() ==> offset_at(self@.text, caret.ln as nat, caret.col as nat)
                == idx,
    {
        let ghost text = self@.text;
        let count = rope_len_lines(&self.rope);
        let len = rope_len_chars(&self.rope);
        proof {
            if idx < len {
                law_offset_round_trip(text, idx as nat);
            }
        }
        let mut line: usize = 0;
        let mut start: usize = 0;
        while line < count
            invariant
                line <= count,
                count == line_count(text),
                len == text.len(),
                text == rope_text(self.rope),
                start == line_start(text, line as nat),
                start <= idx,
            decreases count - line,
        {
            let end = rope_line_to_char(&self.rope, line + 1);
            proof {
                lemma_line_start_bounds(text, line as nat);
            }
            if end > idx {
                proof {
                    lemma_line_of_between(text, line as nat, idx as int);
                }
                return Caret::from(line, idx - start);
            }
            start = end;
            line += 1;
        }
        proof {
            lemma_line_start_past_end(text, count as nat);
            lemma_line_start_bounds(text, (count - 1) as nat);
        }
        let last = count - 1;
        let last_start = rope_line_to_char(&self.rope, last);
        Caret::from(last, len - last_start)
    }

    /// The offset that `caret` stands for: the start of its line plus its
    /// column. The column is not held against the length of the line. A caret
    /// on a line that does not exist, or so far right that its offset would
    /// not fit a `usize`, stands for the last character of the content.
    pub fn get_char_idx(&self, caret: Caret) -> (idx: usize)
        requires
            self@.text.len() > 0,
        ensures
            idx == offset_at(self@.text, caret.ln as nat, caret.col as nat),
    {
        let len = rope_len_chars(&self.rope);
        if caret.ln < rope_len_lines(&self.rope) {
            let start = rope_line_to_char(&self.rope, caret.ln);
            match start.checked_add(caret.col) {
                Some(idx) => idx,
                None => len - 1,
            }
        } else {
            len - 1
        }
    }
}

/// The smaller of two offsets.
fn least(a: usize, b: usize) -> (m: usize)
    ensures
        m == crate::document::least(a as nat, b as nat),
{
    if a <= b {
        a
    } else {
        b
    }
}

/// The larger of two offsets.
fn greatest(a: usize, b: usize) -> (m: usize)
    ensures
        m == crate::document::greatest(a as nat, b as nat),
{
    if a <= b {
        b
    } else {
        a
    }
}

impl TextFile {
    // ---------------------------------------------------------------
    // Caret movement

    /// Moves the cursor one character to the left. At offset 0 it stays.
    pub fn caret_move_left(&mut self)
        requires
            old(self).wf(),
        ensures
            final(self)@ == old(self)@.moved_left(),
            final(self).wf(),
    {
        proof {
            lemma_moves_wf(self@);
        }
        if self.char_idx > 0 {
            self.char_idx = self.char_idx - 1;
        }
    }

    /// Moves the cursor one character to the right. On the last character,
    /// the line feed that ends the content, it stays.
    pub fn caret_move_right(&mut self)
        requires
            old(self).wf(),
        ensures
            final(self)@ == old(self)@.moved_right(),
            final(self).wf(),
    {
        proof {
            lemma_moves_wf(self@);
        }
        let len = rope_len_chars(&self.rope);
        if self.char_idx + 1 < len {
            self.char_idx = self.char_idx + 1;
        } else {
            self.char_idx = len - 1;
        }
    }

    /// Moves the cursor one line down. It keeps its column where the next
    /// line is long enough, and else goes to the last character of that line.
    /// It does not go onto the empty line after the last line feed: from the
    /// line before that it goes to the last character of the content.
    pub fn caret_move_down(&mut self)
        requires
            old(self).wf(),
        ensures
            final(self)@ == old(self)@.moved_down(),
            final(self).wf(),
    {
        let ghost text = self@.text;
        proof {
            lemma_moves_wf(self@);
            lemma_cursor_line(self@);
        }
        let caret = self.get_caret();
        let count = rope_len_lines(&self.rope);
        let len = rope_len_chars(&self.rope);
        if caret.ln + 1 == count {
            return ;
        }
        let here = rope_line_to_char(&self.rope, caret.ln);
        let next = rope_line_to_char(&self.rope, caret.ln + 1);
        let after = rope_line_to_char(&self.rope, caret.ln + 2);
        proof {
            lemma_line_start_bounds(text, caret.ln as nat);
            lemma_line_start_bounds(text, (caret.ln + 1) as nat);
        }
        let line_len = next - here;
        let next_len = after - next;
        if next_len == 0 {
            self.char_idx = len - 1;
            return ;
        }
        if caret.col < next_len {
            self.char_idx = self.char_idx + line_len;
        } else {
            self.char_idx = self.char_idx - caret.col + line_len + next_len - 1;
        }
    }

    /// Moves the cursor one line up. It keeps its column where the previous
    /// line is long enough, and else goes to the last character of that line.
    /// From the first line it goes to offset 0.
    pub fn caret_move_up(&mut self)
        requires
            old(self).wf(),
        ensures
            final(self)@ == old(self)@.moved_up(),
            final(self).wf(),
    {
        let ghost text = self@.text;
        proof {
            lemma_moves_wf(self@);
            lemma_cursor_line(self@);
        }
        let caret = self.get_caret();
        if caret.ln == 0 {
            self.char_idx = 0;
            return ;
        }
        let before = rope_line_to_char(&self.rope, caret.ln - 1);
        let here = rope_line_to_char(&self.rope, caret.ln);
        proof {
            lemma_landing(self@, (caret.ln - 1) as nat, caret.col as nat);
        }
        let before_len = here - before;
        if caret.col < before_len {
            self.char_idx = self.char_idx - before_len;
        } else {
            self.char_idx = self.char_idx - (caret.col + 1);
        }
    }

    /// Puts the cursor on the caret `line`, `column`. A caret beyond the
    /// content puts it on the last character. With `selection` the selection
    /// is extended from where the cursor was; without it the selection is
    /// dropped.
    pub fn set_caret_position(&mut self, line: usize, column: usize, selection: bool)
        requires
            old(self).wf(),
        ensures
            final(self)@ == old(self)@.caret_set(line as nat, column as nat, selection),
            final(self).wf(),
    {
        let old_idx = self.char_idx;
        let len = rope_len_chars(&self.rope);
        self.char_idx = least(self.get_char_idx(Caret::from(line, column)), len - 1);
        if selection {
            self.set_selection(true, old_idx);
        } else {
            self.clear_selection();
        }
    }

    // ---------------------------------------------------------------
    // Selection

    /// Drops the selection.
    pub fn clear_selection(&mut self)
        ensures
            final(self)@ == old(self)@.unselected(),
            old(self).wf() ==> final(self).wf(),
    {
        self.selection = None;
    }

    /// Brings the selection up to date after the cursor has moved from
    /// `old_idx` to where it is now. Without `selection` it is dropped. With
    /// it, a selection whose head is already at the cursor is dropped, another
    /// one gets the cursor as its head, and where there was none, one is
    /// started with `old_idx` as its anchor.
    pub fn set_selection(&mut self, selection: bool, old_idx: usize)
        ensures
            final(self)@ == old(self)@.selected(selection, old_idx as nat),
            old(self).wf() ==> final(self).wf(),
    {
        if !selection {
            self.selection = None;
        } else {
            match self.selection {
                Some((start, end)) => {
                    if self.char_idx == end {
                        self.selection = None;
                    } else {
                        self.selection = Some((start, self.char_idx));
                    }
                },
                None => {
                    self.selection = Some((old_idx, self.char_idx));
                },
            }
        }
    }

    /// The text of the selection: from its first end up to and including the
    /// character at its other end, as far as the content reaches.
    pub fn get_selection(&self) -> (text: Option<String>)
        ensures
            match text {
                Some(s) => self@.selected_text() == Some(s@),
                None => self@.selected_text() is None,
            },
    {
        match self.selection {
            Some((start, end)) => {
                let len = rope_len_chars(&self.rope);
                let first = least(start, end);
                let last = greatest(start, end);
                let stop = if last < len {
                    last + 1
                } else {
                    len
                };
                let begin = least(first, stop);
                Some(rope_slice_to_string(&self.rope, begin, stop))
            },
            None => None,
        }
    }

    /// The two ends of the selection in order, the smaller one first.
    pub fn get_selection_span(&self) -> (span: Option<(usize, usize)>)
        ensures
            match span {
                Some((first, last)) => self@.selection is Some && self@.span() == (
                    first as nat,
                    last as nat,
                ),
                None => self@.selection is None,
            },
    {
        match self.selection {
            Some((start, end)) => Some((least(start, end), greatest(start, end))),
            None => None,
        }
    }

    /// The carets of the two ends of the selection, the one of the smaller
    /// offset first.
    pub fn get_selection_carets(&self) -> (carets: Option<(Caret, Caret)>)
        ensures
            match carets {
                Some((first, last)) => {
                    &&& self@.selection is Some
                    &&& first.ln == caret_line(self@.text, self@.span().0)
                    &&& first.col == caret_column(self@.text, self@.span().0)
                    &&& last.ln == caret_line(self@.text, self@.span().1)
                    &&& last.col == caret_column(self@.text, self@.span().1)
                },
                None => self@.selection is None,
            },
    {
        match self.get_selection_span() {
            Some((first, last)) => Some(
                (self.get_caret_from_idx(first), self.get_caret_from_idx(last)),
            ),
            None => None,
        }
    }

    /// Moves the cursor one step in `direction`, and extends the selection
    /// from where the cursor was, or drops it.
    pub fn move_caret(&mut self, direction: Direction, extend: bool)
        requires
            old(self).wf(),
        ensures
            final(self)@ == old(self)@.moved(direction).selected(extend, old(self)@.cursor),
            final(self).wf(),
    {
        let old_idx = self.char_idx;
        match direction {
            Direction::Left => self.caret_move_left(),
            Direction::Right => self.caret_move_right(),
            Direction::Up => self.caret_move_up(),
            Direction::Down => self.caret_move_down(),
        }
        self.set_selection(extend, old_idx);
    }

    // ---------------------------------------------------------------
    // Edits

    /// Whether `event` can be applied to the content as it is: an insertion
    /// in front of the last character, or a removal that ends in front of it
    /// and names the text that stands at its offset.
    pub fn accepts(&self, event: &HistoryEvent) -> (yes: bool)
        ensures
            yes == event@.fits(self@.text),
    {
        let len = rope_len_chars(&self.rope);
        match event {
            HistoryEvent::AddChar(_, at) => *at < len,
            HistoryEvent::AddString(_, at) => *at < len,
            HistoryEvent::RemoveChar(c, at) => {
                if *at < len && *at + 1 < len {
                    let found = rope_char(&self.rope, *at);
                    proof {
                        assert(self@.text.subrange(*at as int, *at + 1) =~= seq![found]);
                        if found != *c {
                            assert(seq![found][0] != seq![*c][0]);
                        }
                    }
                    found == *c
                } else {
                    false
                }
            },
            HistoryEvent::RemoveString(s, at) => {
                let chars = crate::strings::chars_of(s.as_str());
                if *at < len && chars.len() < len - *at {
                    let ghost text = self@.text;
                    let mut i: usize = 0;
                    while i < chars.len()
                        invariant
                            i <= chars@.len(),
                            *at + chars@.len() < len,
                            len == text.len(),
                            text == rope_text(self.rope),
                            event@ == Edit::RemoveString(chars@, *at as nat),
                            forall|j: int| 0 <= j < i ==> text[*at + j] == chars@[j],
                        decreases chars@.len() - i,
                    {
                        if rope_char(&self.rope, *at + i) != chars[i] {
                            proof {
                                let part = text.subrange(*at as int, *at + chars@.len());
                                assert(part[i as int] == text[*at + i]);
                            }
                            return false;
                        }
                        i += 1;
                    }
                    assert(text.subrange(*at as int, *at + chars@.len()) =~= chars@);
                    true
                } else {
                    false
                }
            },
        }
    }

    /// Applies `event` to the content and puts the cursor behind text that
    /// went in, or where text went out. The history is left as it is.
    pub fn apply_event(&mut self, event: HistoryEvent)
        requires
            old(self)@.buffer_wf(),
            event@.fits(old(self)@.text),
        ensures
            final(self)@ == old(self)@.applied(event@),
            final(self)@.buffer_wf(),
    {
        proof {
            lemma_apply_keeps_last(event@, self@.text);
        }
        let len = rope_len_chars(&self.rope);
        match event {
            HistoryEvent::AddChar(c, idx) => {
                rope_insert_char(&mut self.rope, idx, c);
                self.char_idx = idx + 1;
            },
            HistoryEvent::RemoveChar(_c, idx) => {
                rope_remove(&mut self.rope, idx, idx + 1);
                self.char_idx = idx;
            },
            HistoryEvent::AddString(s, idx) => {
                rope_insert(&mut self.rope, idx, s.as_str());
                let grown = rope_len_chars(&self.rope);
                self.char_idx = idx + (grown - len);
            },
            HistoryEvent::RemoveString(s, idx) => {
                rope_remove(&mut self.rope, idx, idx + s.as_str().unicode_len());
                self.char_idx = idx;
            },
        }
    }

    /// The commit step of every edit: the events that could be redone are
    /// discarded, `event` is appended to the history and applied, and the
    /// dirty count goes up by one.
    pub fn apply_new_event(&mut self, event: HistoryEvent)
        requires
            old(self).wf(),
            event@.fits(old(self)@.text),
        ensures
            final(self)@ == old(self)@.committed(event@),
            final(self).wf(),
    {
        let ghost before = self@;
        let ghost events = self.event_history@;
        proof {
            lemma_committed_wf(before, event@);
        }
        self.event_history.truncate(self.history_idx);
        self.event_history.push(event.clone());
        proof {
            assert(edits_of(self.event_history@) =~= before.log.take(before.replay as int).push(
                event@,
            ));
        }
        self.apply_event(event);
        assert(edits_of(self.event_history@).len() == self.history_idx + 1);
        assert(self.event_history.len() == self.history_idx + 1);
        self.history_idx = self.history_idx + 1;
        self.dirty_changes = Some(
            match self.dirty_changes {
                Some(d) => d + 1,
                None => 1,
            },
        );
    }

    /// Takes the last applied event back: applies its inverse, and lowers the
    /// number of applied events and the dirty count by one. The event stays
    /// in the history, to be redone. With no event applied nothing changes,
    /// and `false` is returned.
    pub fn undo_event(&mut self) -> (changed: bool)
        requires
            old(self).wf(),
        ensures
            final(self)@ == old(self)@.undone(),
            changed == (old(self)@.replay > 0),
            final(self).wf(),
    {
        proof {
            lemma_undone_wf(self@);
        }
        if self.history_idx == 0 {
            return false;
        }
        let event = self.event_history[self.history_idx - 1].clone();
        self.apply_event(event.inverse());
        self.history_idx = self.history_idx - 1;
        self.dirty_changes = match self.dirty_changes {
            Some(d) => if d >= 1 {
                Some(d - 1)
            } else {
                None
            },
            None => None,
        };
        true
    }

    /// Applies the first event that was taken back again, and raises the
    /// number of applied events and the dirty count by one. With every event
    /// applied nothing changes, and `false` is returned.
    pub fn redo_event(&mut self) -> (changed: bool)
        requires
            old(self).wf(),
        ensures
            final(self)@ == old(self)@.redone(),
            changed == (old(self)@.replay < old(self)@.log.len()),
            final(self).wf(),
    {
        proof {
            lemma_redone_wf(self@);
        }
        if self.history_idx == self.event_history.len() {
            return false;
        }
        let event = self.event_history[self.history_idx].clone();
        self.apply_event(event);
        self.history_idx = self.history_idx + 1;
        self.dirty_changes = Some(
            match self.dirty_changes {
                Some(d) => d + 1,
                None => 1,
            },
        );
        true
    }

    /// Takes the selection out, as an event of its own, and drops it. The
    /// text that goes is the one from the first end of the selection up to,
    /// not including, the character at its other end; the last character of
    /// the content always stays. Without a selection nothing changes, and
    /// `false` is returned.
    pub fn delete_selection(&mut self) -> (changed: bool)
        requires
            old(self).wf(),
        ensures
            final(self)@ == old(self)@.selection_deleted(),
            changed == (old(self)@.selection is Some),
            final(self).wf(),
    {
        match self.selection {
            Some((start, end)) => {
                proof {
                    lemma_selection_removal_fits(self@);
                }
                let len = rope_len_chars(&self.rope);
                let stop = least(greatest(start, end), len - 1);
                let begin = least(least(start, end), stop);
                let text = rope_slice_to_string(&self.rope, begin, stop);
                self.apply_new_event(HistoryEvent::RemoveString(text, begin));
                self.clear_selection();
                true
            },
            None => false,
        }
    }

    /// Deletes backwards: the selection if there is one, and else the
    /// character before the cursor. At offset 0 with no selection nothing
    /// changes, and `false` is returned.
    pub fn backspace(&mut self) -> (changed: bool)
        requires
            old(self).wf(),
        ensures
            final(self)@ == old(self)@.backspaced(),
            changed == (old(self)@.selection is Some || old(self)@.cursor > 0),
            final(self).wf(),
    {
        if self.selection.is_some() {
            return self.delete_selection();
        }
        if self.char_idx == 0 {
            return false;
        }
        let at = self.char_idx - 1;
        let c = rope_char(&self.rope, at);
        proof {
            assert(self@.text.subrange(at as int, at + 1) =~= seq![c]);
        }
        self.apply_new_event(HistoryEvent::RemoveChar(c, at));
        true
    }

    /// Deletes forwards: the selection if there is one, and else the
    /// character at the cursor. On the last character of the content with no
    /// selection nothing changes, and `false` is returned.
    pub fn delete(&mut self) -> (changed: bool)
        requires
            old(self).wf(),
        ensures
            final(self)@ == old(self)@.deleted(),
            changed == (old(self)@.selection is Some || old(self)@.cursor + 1 < old(
                self,
            )@.text.len()),
            final(self).wf(),
    {
        if self.selection.is_some() {
            return self.delete_selection();
        }
        if self.char_idx == rope_len_chars(&self.rope) - 1 {
            return false;
        }
        let at = self.char_idx;
        let c = rope_char(&self.rope, at);
        proof {
            assert(self@.text.subrange(at as int, at + 1) =~= seq![c]);
        }
        self.apply_new_event(HistoryEvent::RemoveChar(c, at));
        true
    }

    /// Types `c` at the cursor, in place of the selection if there is one.
    /// The cursor ends behind the character.
    pub fn insert_char(&mut self, c: char)
        requires
            old(self).wf(),
        ensures
            final(self)@ == old(self)@.char_inserted(c),
            final(self).wf(),
    {
        let _ = self.delete_selection();
        self.apply_new_event(HistoryEvent::AddChar(c, self.char_idx));
    }

    /// Types a line feed at the cursor.
    pub fn insert_newline(&mut self)
        requires
            old(self).wf(),
        ensures
            final(self)@ == old(self)@.char_inserted('\n'),
            final(self).wf(),
    {
        self.insert_char('\n');
    }

    /// Puts `s` in at the cursor, in place of the selection if there is one.
    /// The cursor ends behind the text.
    pub fn insert_string(&mut self, s: String)
        requires
            old(self).wf(),
        ensures
            final(self)@ == old(self)@.string_inserted(s@),
            final(self).wf(),
    {
        let _ = self.delete_selection();
        self.apply_new_event(HistoryEvent::AddString(s, self.char_idx));
    }

    /// Records how writing the content to the file went. After a write that
    /// succeeded no edit is pending. After one that failed the buffer is as
    /// it was, and the failure is handed back.
    pub fn save_to_file(&mut self, written: bool) -> (saved: Result<(), SaveError>)
        ensures
            saved is Ok == written,
            final(self)@ == (if written {
                old(self)@.saved()
            } else {
                old(self)@
            }),
            old(self).wf() ==> final(self).wf(),
    {
        if written {
            self.dirty_changes = None;
            Ok(())
        } else {
            Err(SaveError::NotWritten)
        }
    }
}

} // verus!
