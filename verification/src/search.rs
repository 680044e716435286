//! Substring search over a document buffer, forwards and backwards, with or
//! without regard to the case of ASCII letters, and wrapping around the ends
//! of the content on demand.

use crate::rope::{rope_char, rope_len_chars, rope_text};
use crate::strings::chars_of;
use crate::text::TextFile;
use vstd::prelude::*;

verus! {

/// `c` with an ASCII capital letter replaced by its small letter.
pub open spec fn ascii_lower(c: char) -> char {
    if 'A' <= c && c <= 'Z' {
        ((c as u8 + 32) as u8) as char
    } else {
        c
    }
}

/// Whether two characters count as the same in a search. Without regard to
/// case, an ASCII letter is the same as its other case; every other character
/// is the same as itself only.
pub open spec fn same_char(a: char, b: char, case_sensitive: bool) -> bool {
    if case_sensitive {
        a == b
    } else {
        ascii_lower(a) == ascii_lower(b)
    }
}

/// Whether `needle` occurs in `text` with its first character at `at`.
pub open spec fn matches_at(
    text: Seq<char>,
    needle: Seq<char>,
    at: int,
    case_sensitive: bool,
) -> bool {
    &&& 0 <= at
    &&& at + needle.len() <= text.len()
    &&& forall|j: int|
        0 <= j < needle.len() ==> same_char(#[trigger] text[at + j], needle[j], case_sensitive)
}

/// No occurrence of `needle` starts in `lo..hi`.
pub open spec fn none_between(
    text: Seq<char>,
    needle: Seq<char>,
    lo: int,
    hi: int,
    case_sensitive: bool,
) -> bool {
    forall|j: int| lo <= j < hi ==> !matches_at(text, needle, j, case_sensitive)
}

/// `at` is where the first occurrence of `needle` that starts at or after
/// `from` starts.
pub open spec fn first_from(
    text: Seq<char>,
    needle: Seq<char>,
    from: int,
    at: int,
    case_sensitive: bool,
) -> bool {
    &&& from <= at
    &&& matches_at(text, needle, at, case_sensitive)
    &&& none_between(text, needle, from, at, case_sensitive)
}

/// `at` is where the last occurrence of `needle` that ends at or before
/// `until` starts.
pub open spec fn last_until(
    text: Seq<char>,
    needle: Seq<char>,
    until: int,
    at: int,
    case_sensitive: bool,
) -> bool {
    &&& at + needle.len() <= until
    &&& matches_at(text, needle, at, case_sensitive)
    &&& none_between(text, needle, at + 1, until - needle.len() + 1, case_sensitive)
}

/// What a forward search from `start` finds: the first occurrence that
/// starts at or after `start`; or, when there is none and the search wraps,
/// the first occurrence in the whole text; or nothing. An empty needle is
/// never found.
pub open spec fn forward_hit(
    text: Seq<char>,
    needle: Seq<char>,
    start: int,
    wrap: bool,
    case_sensitive: bool,
    hit: Option<int>,
) -> bool {
    match hit {
        Some(at) => needle.len() > 0 && (first_from(text, needle, start, at, case_sensitive) || (
        wrap && none_between(text, needle, start, text.len() as int, case_sensitive)
            && first_from(text, needle, 0, at, case_sensitive))),
        None => needle.len() == 0 || none_between(
            text,
            needle,
            if wrap {
                0
            } else {
                start
            },
            text.len() as int,
            case_sensitive,
        ),
    }
}

/// What a backward search from `start` finds: the last occurrence that ends
/// at or before `start`; or, when there is none and the search wraps, the
/// last occurrence in the whole text; or nothing. An empty needle is never
/// found.
pub open spec fn backward_hit(
    text: Seq<char>,
    needle: Seq<char>,
    start: int,
    wrap: bool,
    case_sensitive: bool,
    hit: Option<int>,
) -> bool {
    match hit {
        Some(at) => needle.len() > 0 && (last_until(text, needle, start, at, case_sensitive) || (
        wrap && none_between(text, needle, 0, start - needle.len() + 1, case_sensitive)
            && last_until(text, needle, text.len() as int, at, case_sensitive))),
        None => needle.len() == 0 || none_between(
            text,
            needle,
            0,
            if wrap {
                text.len() as int
            } else {
                start - needle.len() + 1
            },
            case_sensitive,
        ),
    }
}

/// `c` with an ASCII capital letter replaced by its small letter.
pub fn to_ascii_lower(c: char) -> (low: char)
    ensures
        low == ascii_lower(c),
{
    if 'A' <= c && c <= 'Z' {
        ((c as u8) + 32) as char
    } else {
        c
    }
}

/// Whether two characters count as the same in a search.
pub fn chars_agree(a: char, b: char, case_sensitive: bool) -> (yes: bool)
    ensures
        yes == same_char(a, b, case_sensitive),
{
    if case_sensitive {
        a == b
    } else {
        to_ascii_lower(a) == to_ascii_lower(b)
    }
}

impl TextFile {
    /// Whether `needle` occurs in the content with its first character at
    /// `at`.
    pub fn matches(&self, needle: &Vec<char>, at: usize, case_sensitive: bool) -> (yes: bool)
        ensures
            yes == matches_at(self@.text, needle@, at as int, case_sensitive),
    {
        let ghost text = self@.text;
        let len = rope_len_chars(&self.rope);
        if at > len || needle.len() > len - at {
            return false;
        }
        let mut j: usize = 0;
        while j < needle.len()
            invariant
                j <= needle@.len(),
                at + needle@.len() <= len,
                len == text.len(),
                text == rope_text(self.rope),
                forall|k: int|
                    0 <= k < j ==> same_char(#[trigger] text[at + k], needle@[k], case_sensitive),
            decreases needle@.len() - j,
        {
            if !chars_agree(rope_char(&self.rope, at + j), needle[j], case_sensitive) {
                assert(!same_char(text[at + j], needle@[j as int], case_sensitive));
                return false;
            }
            j += 1;
        }
        true
    }

    /// The first place in `lo..hi` where `needle` occurs, if there is one.
    pub fn scan_forward(
        &self,
        needle: &Vec<char>,
        lo: usize,
        hi: usize,
        case_sensitive: bool,
    ) -> (hit: Option<usize>)
        ensures
            match hit {
                Some(at) => lo <= at < hi && first_from(
                    self@.text,
                    needle@,
                    lo as int,
                    at as int,
                    case_sensitive,
                ),
                None => none_between(self@.text, needle@, lo as int, hi as int, case_sensitive),
            },
    {
        let mut at = lo;
        while at < hi
            invariant
                lo <= at,
                none_between(self@.text, needle@, lo as int, at as int, case_sensitive),
            decreases hi - at,
        {
            if self.matches(needle, at, case_sensitive) {
                return Some(at);
            }
            at += 1;
        }
        None
    }

    /// The last place in `lo..hi` where `needle` occurs, if there is one.
    pub fn scan_backward(
        &self,
        needle: &Vec<char>,
        lo: usize,
        hi: usize,
        case_sensitive: bool,
    ) -> (hit: Option<usize>)
        ensures
            match hit {
                Some(at) => lo <= at < hi && matches_at(
                    self@.text,
                    needle@,
                    at as int,
                    case_sensitive,
                ) && none_between(self@.text, needle@, at + 1, hi as int, case_sensitive),
                None => none_between(self@.text, needle@, lo as int, hi as int, case_sensitive),
            },
    {
        let mut at = hi;
        while at > lo
            invariant
                at <= hi,
                none_between(self@.text, needle@, at as int, hi as int, case_sensitive),
            decreases at,
        {
            at -= 1;
            if self.matches(needle, at, case_sensitive) {
                return Some(at);
            }
        }
        None
    }

    /// Searches forwards for `needle`, starting at the offset `start_offset`.
    /// The first occurrence at or after that offset is found; when there is
    /// none and `wrap` is set, the search goes on from the start of the
    /// content. Without `case_sensitive` the case of ASCII letters does not
    /// count. What is found becomes the selection, from its first character
    /// to the offset behind its last, and that second offset is returned. If
    /// nothing is found, or `needle` is empty, nothing changes.
    pub fn find(
        &mut self,
        start_offset: usize,
        needle: &str,
        wrap: bool,
        case_sensitive: bool,
    ) -> (end: Option<usize>)
        ensures
            forward_hit(
                old(self)@.text,
                needle@,
                start_offset as int,
                wrap,
                case_sensitive,
                match end {
                    Some(e) => Some(e - needle@.len()),
                    None => None,
                },
            ),
            match end {
                Some(e) => e >= needle@.len() && final(self)@ == (crate::document::Document {
                    selection: Some(((e - needle@.len()) as nat, e as nat)),
                    ..old(self)@
                }),
                None => final(self)@ == old(self)@,
            },
            old(self).wf() ==> final(self).wf(),
    {
        let chars = chars_of(needle);
        let len = rope_len_chars(&self.rope);
        if chars.len() == 0 || chars.len() > len {
            return None;
        }
        let stop = len - chars.len() + 1;
        let mut hit = self.scan_forward(&chars, start_offset, stop, case_sensitive);
        if hit.is_none() && wrap {
            hit = self.scan_forward(&chars, 0, stop, case_sensitive);
        }
        match hit {
            Some(at) => {
                self.selection = Some((at, at + chars.len()));
                Some(at + chars.len())
            },
            None => None,
        }
    }

    /// Searches backwards for `needle`, starting at the offset
    /// `start_offset`. The last occurrence that ends at or before that
    /// offset is found; when there is none and `wrap` is set, the search goes
    /// on from the end of the content. Without `case_sensitive` the case of
    /// ASCII letters does not count. What is found becomes the selection,
    /// from its first character to the offset behind its last, and the first
    /// of the two offsets is returned. If nothing is found, or `needle` is
    /// empty, nothing changes.
    pub fn find_backward(
        &mut self,
        start_offset: usize,
        needle: &str,
        wrap: bool,
        case_sensitive: bool,
    ) -> (start: Option<usize>)
        ensures
            backward_hit(
                old(self)@.text,
                needle@,
                start_offset as int,
                wrap,
                case_sensitive,
                match start {
                    Some(s) => Some(s as int),
                    None => None,
                },
            ),
            match start {
                Some(s) => final(self)@ == (crate::document::Document {
                    selection: Some((s as nat, s as nat + needle@.len())),
                    ..old(self)@
                }),
                None => final(self)@ == old(self)@,
            },
            old(self).wf() ==> final(self).wf(),
    {
        let chars = chars_of(needle);
        let len = rope_len_chars(&self.rope);
        if chars.len() == 0 || chars.len() > len {
            return None;
        }
        let stop = len - chars.len() + 1;
        let near = if start_offset >= chars.len() {
            let bound = start_offset - chars.len() + 1;
            if bound < stop {
                bound
            } else {
                stop
            }
        } else {
            0
        };
        let mut hit = self.scan_backward(&chars, 0, near, case_sensitive);
        if hit.is_none() && wrap {
            hit = self.scan_backward(&chars, 0, stop, case_sensitive);
        }
        match hit {
            Some(at) => {
                self.selection = Some((at, at + chars.len()));
                Some(at)
            },
            None => None,
        }
    }
}

} // verus!
