//! The boundary with `ropey`: the rope type, its contents as a sequence of
//! characters, and one contract per rope operation that the buffer uses.
//!
//! Nothing in this file is proved. Each contract restates, over the
//! characters that the rope holds, what `ropey` documents for the function
//! that the body calls. Indices are character indices throughout, as they are
//! in `ropey`. The line functions assume `ropey`'s default line breaks, which
//! are the ones that [`crate::lines`] defines.

use crate::event::{inserted, removed};
use crate::lines::{line_count, line_start};
use ropey::Rope;
use vstd::prelude::*;

verus! {

#[verifier::external_type_specification]
#[verifier::external_body]
pub struct ExRope(ropey::Rope);

/// The characters that a rope holds, in order.
pub uninterp spec fn rope_text(r: Rope) -> Seq<char>;

/// `Rope::from_str`: the new rope holds exactly the characters of `s`.
#[verifier::external_body]
pub(crate) fn rope_from_str(s: &str) -> (r: Rope)
    ensures
        rope_text(r) == s@,
{
    Rope::from_str(s)
}

/// `Clone::clone` of a rope: the copy holds the same characters.
#[verifier::external_body]
pub(crate) fn rope_clone(r: &Rope) -> (copy: Rope)
    ensures
        rope_text(copy) == rope_text(*r),
{
    r.clone()
}

/// `Rope::len_chars`: the number of characters in the rope.
#[verifier::external_body]
pub(crate) fn rope_len_chars(r: &Rope) -> (n: usize)
    ensures
        n == rope_text(*r).len(),
{
    r.len_chars()
}

/// `Rope::len_lines`: the number of lines, which is the number of line breaks
/// plus one.
#[verifier::external_body]
pub(crate) fn rope_len_lines(r: &Rope) -> (n: usize)
    ensures
        n == line_count(rope_text(*r)),
{
    r.len_lines()
}

/// `Rope::line_to_char`: the index of the first character of line `line`.
/// The line index may be one past the last line, which gives the length of
/// the rope; `ropey` panics on a larger one, so those are left out.
#[verifier::external_body]
pub(crate) fn rope_line_to_char(r: &Rope, line: usize) -> (start: usize)
    requires
        line <= line_count(rope_text(*r)),
    ensures
        start == line_start(rope_text(*r), line as nat),
{
    r.line_to_char(line)
}

/// `Rope::char`: the character at index `at`. `ropey` panics when `at` is not
/// below the length.
#[verifier::external_body]
pub(crate) fn rope_char(r: &Rope, at: usize) -> (c: char)
    requires
        at < rope_text(*r).len(),
    ensures
        c == rope_text(*r)[at as int],
{
    r.char(at)
}

/// `Rope::insert_char`: `c` becomes the character at index `at`, and what
/// stood at or after `at` moves one place to the right. `ropey` panics when
/// `at` is above the length.
#[verifier::external_body]
pub(crate) fn rope_insert_char(r: &mut Rope, at: usize, c: char)
    requires
        at <= rope_text(*old(r)).len(),
    ensures
        rope_text(*final(r)) == inserted(rope_text(*old(r)), at as int, seq![c]),
{
    r.insert_char(at, c)
}

/// `Rope::insert`: the characters of `s` stand at index `at`, between what
/// was before `at` and what was at or after it. `ropey` panics when `at` is
/// above the length.
#[verifier::external_body]
pub(crate) fn rope_insert(r: &mut Rope, at: usize, s: &str)
    requires
        at <= rope_text(*old(r)).len(),
    ensures
        rope_text(*final(r)) == inserted(rope_text(*old(r)), at as int, s@),
{
    r.insert(at, s)
}

/// `Rope::remove` on the range `start..end`: the characters from `start` up
/// to, not including, `end` are gone and the rest keeps its order. `ropey`
/// panics when `start` is above `end` or `end` above the length.
#[verifier::external_body]
pub(crate) fn rope_remove(r: &mut Rope, start: usize, end: usize)
    requires
        start <= end <= rope_text(*old(r)).len(),
    ensures
        rope_text(*final(r)) == removed(rope_text(*old(r)), start as int, end - start),
{
    r.remove(start..end)
}

/// `Rope::slice` on the range `start..end`, written out as a `String`: the
/// characters from `start` up to, not including, `end`. `ropey` panics when
/// `start` is above `end` or `end` above the length.
#[verifier::external_body]
pub(crate) fn rope_slice_to_string(r: &Rope, start: usize, end: usize) -> (s: String)
    requires
        start <= end <= rope_text(*r).len(),
    ensures
        s@ == rope_text(*r).subrange(start as int, end as int),
{
    String::from(r.slice(start..end))
}

/// `String::from` of a rope: all of its characters, in order.
#[verifier::external_body]
pub(crate) fn rope_to_string(r: &Rope) -> (s: String)
    ensures
        s@ == rope_text(*r),
{
    String::from(r)
}

} // verus!
