//! The caret: a position given as line and column, and its translation to and
//! from a character offset.

use crate::lines::{
    lemma_line_of, lemma_line_start_bounds, line_count, line_of, line_start,
};
use vstd::prelude::*;

verus! {

/// A position in a text as a line and a column, both counted from zero.
#[derive(Debug, Clone, Copy, PartialEq, Eq, Structural)]
pub struct Caret {
    pub ln: usize,
    pub col: usize,
}

impl Caret {
    /// The caret on line `l`, column `c`.
    pub fn from(l: usize, c: usize) -> (caret: Self)
        ensures
            caret.ln == l,
            caret.col == c,
    {
        Self { ln: l, col: c }
    }

    /// The caret at the start of a text.
    pub fn new() -> (caret: Self)
        ensures
            caret.ln == 0,
            caret.col == 0,
    {
        Self { ln: 0, col: 0 }
    }
}

/// Whether the position `a` comes before `b` in reading order, or is `b`.
pub open spec fn not_after(a: Caret, b: Caret) -> bool {
    a.ln < b.ln || (a.ln == b.ln && a.col <= b.col)
}

impl Caret {
    /// Whether the caret lies between `first` and `last` in reading order,
    /// both ends included.
    pub fn is_between(&self, first: Caret, last: Caret) -> (yes: bool)
        ensures
            yes == (not_after(first, *self) && not_after(*self, last)),
    {
        (first.ln < self.ln || (first.ln == self.ln && first.col <= self.col)) && (self.ln
            < last.ln || (self.ln == last.ln && self.col <= last.col))
    }
}

/// `offset`, or the length of `text` when `offset` lies beyond it.
pub open spec fn clamped(text: Seq<char>, offset: nat) -> nat {
    if offset < text.len() {
        offset
    } else {
        text.len()
    }
}

/// The line of the caret that stands for `offset`. An offset at or beyond the
/// end of the text is on the last line.
pub open spec fn caret_line(text: Seq<char>, offset: nat) -> nat {
    line_of(text, clamped(text, offset) as int)
}

/// The column of the caret that stands for `offset`: how far the offset is
/// from the start of its line. An offset at or beyond the end of the text
/// stands at the end of the last line.
pub open spec fn caret_column(text: Seq<char>, offset: nat) -> nat {
    (clamped(text, offset) - line_start(text, caret_line(text, offset))) as nat
}

/// The offset that a caret stands for: the start of its line plus its column,
/// whether or not the line is that long. A caret on a line that does not
/// exist, or so far right that the offset would not fit a `usize`, stands for
/// the last character of the text.
pub open spec fn offset_at(text: Seq<char>, line: nat, column: nat) -> nat {
    if line < line_count(text) && line_start(text, line) + column <= usize::MAX {
        (line_start(text, line) + column) as nat
    } else {
        (text.len() - 1) as nat
    }
}

/// The caret of an offset names a line that exists and a column on it.
pub proof fn lemma_caret_in_text(text: Seq<char>, offset: nat)
    ensures
        caret_line(text, offset) < line_count(text),
        line_start(text, caret_line(text, offset)) + caret_column(text, offset) == clamped(
            text,
            offset,
        ),
        offset < text.len() ==> clamped(text, offset) < line_start(
            text,
            caret_line(text, offset) + 1,
        ),
{
    lemma_line_of(text, clamped(text, offset) as int);
}

/// Translating an offset inside the text to a caret and back gives the
/// offset again.
pub proof fn law_offset_round_trip(text: Seq<char>, offset: nat)
    requires
        offset < text.len() <= usize::MAX,
    ensures
        offset_at(text, caret_line(text, offset), caret_column(text, offset)) == offset,
{
    lemma_caret_in_text(text, offset);
}

/// Translating a caret on a line that exists, with a column on that line, to
/// an offset and back gives the caret again.
pub proof fn law_caret_round_trip(text: Seq<char>, line: nat, column: nat)
    requires
        line < line_count(text),
        line_start(text, line) + column < line_start(text, line + 1),
        text.len() <= usize::MAX,
    ensures
        caret_line(text, offset_at(text, line, column)) == line,
        caret_column(text, offset_at(text, line, column)) == column,
{
    lemma_line_start_bounds(text, line);
    crate::lines::lemma_line_of_between(text, line, line_start(text, line) + column);
}

} // verus!
