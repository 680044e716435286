//! Strings as sequences of characters: reading one into a vector, and
//! normalising the text of a file that was read.

use vstd::prelude::*;

verus! {

/// Assumed of `String::push`, as the standard library documents it: the
/// character is appended to the string, and what the string held stays in
/// front of it.
pub assume_specification[ String::push ](s: &mut String, c: char)
    ensures
        final(s)@ == old(s)@.push(c),
;

/// The characters of `s`, in order.
pub fn chars_of(s: &str) -> (v: Vec<char>)
    ensures
        v@ == s@,
{
    let mut v: Vec<char> = Vec::new();
    for c in it: s.chars()
        invariant
            it.seq() == s@,
            v@ == s@.take(it.index() as int),
    {
        v.push(c);
        assert(s@.take(it.index() + 1) =~= s@.take(it.index() as int).push(c));
    }
    assert(s@.take(s@.len() as int) =~= s@);
    v
}

/// `raw` from index `from` on, with every CR LF pair replaced by a single LF.
pub open spec fn crlf_to_lf(raw: Seq<char>, from: int) -> Seq<char>
    decreases raw.len() - from,
{
    if from < 0 || from >= raw.len() {
        Seq::empty()
    } else if raw[from] == '\r' && from + 1 < raw.len() && raw[from + 1] == '\n' {
        seq!['\n'] + crlf_to_lf(raw, from + 2)
    } else {
        seq![raw[from]] + crlf_to_lf(raw, from + 1)
    }
}

/// `text`, with a line feed appended unless it ends with one.
pub open spec fn with_final_newline(text: Seq<char>) -> Seq<char> {
    if text.len() > 0 && text.last() == '\n' {
        text
    } else {
        text.push('\n')
    }
}

/// The content of a buffer for a file that holds `raw`: CR LF becomes LF, and
/// the text ends with a line feed.
pub open spec fn normalized(raw: Seq<char>) -> Seq<char> {
    with_final_newline(crlf_to_lf(raw, 0))
}

/// Normalises the text of a file for a buffer.
pub fn normalize(raw: &str) -> (out: String)
    ensures
        out@ == normalized(raw@),
        out@.len() > 0,
        out@.last() == '\n',
{
    let chars = chars_of(raw);
    let mut out = String::new();
    let mut ends_with_newline = false;
    let mut i: usize = 0;
    while i < chars.len()
        invariant
            i <= chars@.len(),
            out@ + crlf_to_lf(chars@, i as int) == crlf_to_lf(chars@, 0),
            ends_with_newline == (out@.len() > 0 && out@.last() == '\n'),
        decreases chars@.len() - i,
    {
        let ghost before = out@;
        let c = chars[i];
        if c == '\r' && i + 1 < chars.len() && chars[i + 1] == '\n' {
            out.push('\n');
            ends_with_newline = true;
            assert(out@ + crlf_to_lf(chars@, i + 2) =~= before + crlf_to_lf(chars@, i as int));
            i += 2;
        } else {
            out.push(c);
            ends_with_newline = c == '\n';
            assert(out@ + crlf_to_lf(chars@, i + 1) =~= before + crlf_to_lf(chars@, i as int));
            i += 1;
        }
    }
    assert(out@ =~= crlf_to_lf(chars@, 0));
    if !ends_with_newline {
        out.push('\n');
    }
    out
}

} // verus!
