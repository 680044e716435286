//! Lines of a text, as positions in its sequence of characters.
//!
//! A line break is one of LF, VT, FF, CR, NEL, LS and PS, with CR LF counting
//! as a single break. A break belongs to the line that it ends, and a new line
//! starts right after it, so a text that ends in a break has a last line that
//! is empty.

use vstd::prelude::*;

verus! {

/// The characters that end a line wherever they stand. CR is not among them:
/// whether it ends a line depends on what follows it.
pub open spec fn is_break_char(c: char) -> bool {
    c == '\n' || c == '\u{0B}' || c == '\u{0C}' || c == '\u{85}' || c == '\u{2028}' || c
        == '\u{2029}'
}

/// Whether the character at index `i` is the last one of its line.
pub open spec fn ends_line(text: Seq<char>, i: int) -> bool {
    &&& 0 <= i < text.len()
    &&& is_break_char(text[i]) || (text[i] == '\r' && !(i + 1 < text.len() && text[i + 1]
        == '\n'))
}

/// The number of line breaks that end before position `p`.
pub open spec fn breaks_before(text: Seq<char>, p: int) -> nat
    decreases p,
{
    if p <= 0 {
        0
    } else if ends_line(text, p - 1) {
        breaks_before(text, p - 1) + 1
    } else {
        breaks_before(text, p - 1)
    }
}

/// The number of lines of `text`: one more than it has line breaks.
pub open spec fn line_count(text: Seq<char>) -> nat {
    breaks_before(text, text.len() as int) + 1
}

/// Where the line after the one that holds position `p` starts, or the length
/// of the text when no break follows.
pub open spec fn next_line(text: Seq<char>, p: int) -> int
    decreases text.len() - p,
{
    if p < 0 || p >= text.len() {
        text.len() as int
    } else if ends_line(text, p) {
        p + 1
    } else {
        next_line(text, p + 1)
    }
}

/// Where line `k` starts. For `k` at or past the number of lines this is the
/// length of the text.
pub open spec fn line_start(text: Seq<char>, k: nat) -> int
    decreases k,
{
    if k == 0 {
        0
    } else {
        next_line(text, line_start(text, (k - 1) as nat))
    }
}

/// The line that holds position `p`: the number of breaks before it.
pub open spec fn line_of(text: Seq<char>, p: int) -> nat {
    breaks_before(text, p)
}

/// The length of line `k`, its break included.
pub open spec fn line_len(text: Seq<char>, k: nat) -> int {
    line_start(text, k + 1) - line_start(text, k)
}

/// Breaks are counted monotonically.
pub proof fn lemma_breaks_monotone(text: Seq<char>, p: int, q: int)
    requires
        p <= q,
    ensures
        breaks_before(text, p) <= breaks_before(text, q),
    decreases q - p,
{
    if p < q {
        lemma_breaks_monotone(text, p, q - 1);
    }
}

/// What one step from a position to the start of the next line passes over:
/// no break before the last character, and at most one break in all.
pub proof fn lemma_next_line(text: Seq<char>, p: int)
    requires
        0 <= p <= text.len(),
    ensures
        p <= next_line(text, p) <= text.len(),
        forall|r: int|
            p <= r < next_line(text, p) ==> #[trigger] breaks_before(text, r) == breaks_before(
                text,
                p,
            ),
        (next_line(text, p) > p && ends_line(text, next_line(text, p) - 1) && breaks_before(
            text,
            next_line(text, p),
        ) == breaks_before(text, p) + 1) || (next_line(text, p) == text.len() && breaks_before(
            text,
            text.len() as int,
        ) == breaks_before(text, p)),
    decreases text.len() - p,
{
    if p >= text.len() {
    } else if ends_line(text, p) {
        assert(breaks_before(text, p + 1) == breaks_before(text, p) + 1);
    } else {
        lemma_next_line(text, p + 1);
        assert(breaks_before(text, p + 1) == breaks_before(text, p));
    }
}

/// Line `k` of a text with more than `k` lines starts after exactly `k`
/// breaks, the last of which stands right before it.
pub proof fn lemma_line_start(text: Seq<char>, k: nat)
    requires
        k < line_count(text),
    ensures
        0 <= line_start(text, k) <= text.len(),
        breaks_before(text, line_start(text, k)) == k,
        k > 0 ==> line_start(text, (k - 1) as nat) < line_start(text, k) && ends_line(
            text,
            line_start(text, k) - 1,
        ),
    decreases k,
{
    if k > 0 {
        lemma_line_start(text, (k - 1) as nat);
        lemma_next_line(text, line_start(text, (k - 1) as nat));
    }
}

/// Past the last line every start is the end of the text.
pub proof fn lemma_line_start_past_end(text: Seq<char>, k: nat)
    requires
        k >= line_count(text),
    ensures
        line_start(text, k) == text.len(),
    decreases k,
{
    let last = (line_count(text) - 1) as nat;
    if k == line_count(text) {
        lemma_line_start(text, last);
        lemma_next_line(text, line_start(text, last));
        lemma_breaks_monotone(text, line_start(text, k), text.len() as int);
    } else {
        lemma_line_start_past_end(text, (k - 1) as nat);
    }
}

/// Every start lies in the text, and starts do not go backwards.
pub proof fn lemma_line_start_bounds(text: Seq<char>, k: nat)
    ensures
        0 <= line_start(text, k) <= line_start(text, k + 1) <= text.len(),
{
    if k < line_count(text) {
        lemma_line_start(text, k);
    } else {
        lemma_line_start_past_end(text, k);
    }
    lemma_next_line(text, line_start(text, k));
}

/// A position between the start of line `k` and the start of the next line
/// is on line `k`.
pub proof fn lemma_line_of_between(text: Seq<char>, k: nat, p: int)
    requires
        k < line_count(text),
        line_start(text, k) <= p,
        p < line_start(text, k + 1) || (k + 1 == line_count(text) && p <= text.len()),
    ensures
        line_of(text, p) == k,
{
    lemma_line_start(text, k);
    lemma_next_line(text, line_start(text, k));
    if p >= line_start(text, k + 1) {
        lemma_line_start_past_end(text, k + 1);
        lemma_breaks_monotone(text, line_start(text, k), p);
        lemma_breaks_monotone(text, p, text.len() as int);
    }
}

/// A position in the text lies on a line that exists, at or after the start
/// of that line and, unless it is the end of the text, before the next start.
pub proof fn lemma_line_of(text: Seq<char>, p: int)
    requires
        0 <= p <= text.len(),
    ensures
        line_of(text, p) < line_count(text),
        line_start(text, line_of(text, p)) <= p,
        p < text.len() ==> p < line_start(text, line_of(text, p) + 1),
{
    let k = line_of(text, p);
    lemma_breaks_monotone(text, p, text.len() as int);
    lemma_line_start(text, k);
    let s = line_start(text, k);
    if s > p {
        lemma_breaks_monotone(text, p, s - 1);
        assert(breaks_before(text, s) == breaks_before(text, s - 1) + 1);
    }
    lemma_next_line(text, s);
    let q = line_start(text, k + 1);
    if q <= p {
        lemma_breaks_monotone(text, q, p);
    }
}

/// A text that ends in a line feed has at least two lines, and its last line
/// is the empty one that starts at its end.
pub proof fn lemma_last_line_empty(text: Seq<char>)
    requires
        text.len() > 0,
        text.last() == '\n',
    ensures
        line_count(text) >= 2,
        line_start(text, (line_count(text) - 1) as nat) == text.len(),
        forall|p: int| 0 <= p < text.len() ==> line_of(text, p) + 1 < line_count(text),
{
    let n = text.len() as int;
    assert(ends_line(text, n - 1));
    assert(breaks_before(text, n) == breaks_before(text, n - 1) + 1);
    let last = (line_count(text) - 1) as nat;
    lemma_line_start(text, last);
    let s = line_start(text, last);
    if s < n {
        lemma_breaks_monotone(text, s, n - 1);
    }
    assert forall|p: int| 0 <= p < text.len() implies line_of(text, p) + 1 < line_count(text) by {
        lemma_breaks_monotone(text, p, n - 1);
    }
}

} // verus!
