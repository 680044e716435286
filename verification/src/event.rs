//! Edit events: what one entry of a buffer's history records, what applying
//! it does to a text, and why applying its inverse undoes it exactly.

use vstd::prelude::*;
use vstd::string::{StrSliceExecFns, StringExecFns};

verus! {

/// One edit of a buffer, as its history keeps it. An event carries the text
/// that it put in or took out, so that it can be inverted without looking at
/// the buffer. Offsets count characters.
#[derive(Debug, PartialEq, Eq)]
pub enum HistoryEvent {
    /// The character was put in at the offset.
    AddChar(char, usize),
    /// The character was taken out at the offset.
    RemoveChar(char, usize),
    /// The string was put in, its first character at the offset.
    AddString(String, usize),
    /// The string was taken out, its first character at the offset.
    RemoveString(String, usize),
}

/// The mathematical value of a [`HistoryEvent`].
#[verifier::ext_equal]
pub enum Edit {
    AddChar(char, nat),
    RemoveChar(char, nat),
    AddString(Seq<char>, nat),
    RemoveString(Seq<char>, nat),
}

/// `doc` with `text` put in at offset `at`.
pub open spec fn inserted(doc: Seq<char>, at: int, text: Seq<char>) -> Seq<char> {
    doc.subrange(0, at) + text + doc.subrange(at, doc.len() as int)
}

/// `doc` without the `n` characters that start at offset `at`.
pub open spec fn removed(doc: Seq<char>, at: int, n: int) -> Seq<char> {
    doc.subrange(0, at) + doc.subrange(at + n, doc.len() as int)
}

impl Edit {
    /// Whether the edit puts text in, rather than taking it out.
    pub open spec fn inserts(self) -> bool {
        self is AddChar || self is AddString
    }

    /// The text that the edit puts in or takes out.
    pub open spec fn text(self) -> Seq<char> {
        match self {
            Edit::AddChar(c, _) => seq![c],
            Edit::RemoveChar(c, _) => seq![c],
            Edit::AddString(s, _) => s,
            Edit::RemoveString(s, _) => s,
        }
    }

    /// The offset of the first character that the edit puts in or takes out.
    pub open spec fn at(self) -> nat {
        match self {
            Edit::AddChar(_, i) => i,
            Edit::RemoveChar(_, i) => i,
            Edit::AddString(_, i) => i,
            Edit::RemoveString(_, i) => i,
        }
    }

    /// The edit that undoes this one: the same text at the same offset, put
    /// in where this one takes out and taken out where this one puts in.
    pub open spec fn inverse(self) -> Edit {
        match self {
            Edit::AddChar(c, i) => Edit::RemoveChar(c, i),
            Edit::RemoveChar(c, i) => Edit::AddChar(c, i),
            Edit::AddString(s, i) => Edit::RemoveString(s, i),
            Edit::RemoveString(s, i) => Edit::AddString(s, i),
        }
    }

    /// Whether the edit can be applied to `doc`. It must leave the last
    /// character of `doc` in place: an insertion goes before it, and a removal
    /// ends before it. A removal must also name the very text that stands at
    /// its offset.
    pub open spec fn fits(self, doc: Seq<char>) -> bool {
        if self.inserts() {
            self.at() < doc.len()
        } else {
            &&& self.at() + self.text().len() < doc.len()
            &&& doc.subrange(self.at() as int, (self.at() + self.text().len()) as int) == self.text()
        }
    }

    /// The text that applying the edit to `doc` gives.
    pub open spec fn apply(self, doc: Seq<char>) -> Seq<char> {
        if self.inserts() {
            inserted(doc, self.at() as int, self.text())
        } else {
            removed(doc, self.at() as int, self.text().len() as int)
        }
    }

    /// Where the cursor stands once the edit is applied: right after text put
    /// in, or where text was taken out.
    pub open spec fn cursor_after(self) -> nat {
        if self.inserts() {
            self.at() + self.text().len()
        } else {
            self.at()
        }
    }
}

impl View for HistoryEvent {
    type V = Edit;

    open spec fn view(&self) -> Edit {
        match self {
            HistoryEvent::AddChar(c, i) => Edit::AddChar(*c, *i as nat),
            HistoryEvent::RemoveChar(c, i) => Edit::RemoveChar(*c, *i as nat),
            HistoryEvent::AddString(s, i) => Edit::AddString(s@, *i as nat),
            HistoryEvent::RemoveString(s, i) => Edit::RemoveString(s@, *i as nat),
        }
    }
}

impl Clone for HistoryEvent {
    fn clone(&self) -> (copy: Self)
        ensures
            copy@ == self@,
    {
        match self {
            HistoryEvent::AddChar(c, i) => HistoryEvent::AddChar(*c, *i),
            HistoryEvent::RemoveChar(c, i) => HistoryEvent::RemoveChar(*c, *i),
            HistoryEvent::AddString(s, i) => HistoryEvent::AddString(s.clone(), *i),
            HistoryEvent::RemoveString(s, i) => HistoryEvent::RemoveString(s.clone(), *i),
        }
    }
}

impl HistoryEvent {
    /// The event that undoes this one: the same text at the same offset, put
    /// in where this one takes out and taken out where this one puts in.
    pub fn inverse(self) -> (back: Self)
        ensures
            back@ == self@.inverse(),
    {
        match self {
            HistoryEvent::AddChar(c, i) => HistoryEvent::RemoveChar(c, i),
            HistoryEvent::RemoveChar(c, i) => HistoryEvent::AddChar(c, i),
            HistoryEvent::AddString(s, i) => HistoryEvent::RemoveString(s, i),
            HistoryEvent::RemoveString(s, i) => HistoryEvent::AddString(s, i),
        }
    }
}

/// How the text of an event is shown in a label: a lone blank as a low line,
/// a lone line feed as a return sign, and any other text as it is.
pub open spec fn shown(text: Seq<char>) -> Seq<char> {
    if text == seq![' '] {
        seq!['_']
    } else if text == seq!['\n'] {
        seq!['\u{23ce}']
    } else {
        text
    }
}

/// The label of an event: `Add` for text put in and `Del` for text taken out,
/// then the text as it is shown, between grave accents for a character and
/// between quotation marks for a string.
pub open spec fn label_of(e: Edit) -> Seq<char> {
    match e {
        Edit::AddChar(c, _) => "Add `"@ + shown(seq![c]) + "`"@,
        Edit::RemoveChar(c, _) => "Del `"@ + shown(seq![c]) + "`"@,
        Edit::AddString(s, _) => "Add \""@ + shown(s) + "\""@,
        Edit::RemoveString(s, _) => "Del \""@ + shown(s) + "\""@,
    }
}

/// Appends `c` to `label` as it is shown.
fn push_shown_char(label: &mut String, c: char)
    ensures
        final(label)@ == old(label)@ + shown(seq![c]),
{
    let ghost before = label@;
    if c == ' ' {
        label.push('_');
        assert(seq![c] =~= seq![' ']);
    } else if c == '\n' {
        label.push('\u{23ce}');
        assert(seq![c] =~= seq!['\n']);
        assert(seq!['\n'][0] != seq![' '][0]);
    } else {
        label.push(c);
        assert(seq![c][0] != seq![' '][0]);
        assert(seq![c][0] != seq!['\n'][0]);
    }
    assert(label@ =~= before + shown(seq![c]));
}

/// Appends `text` to `label` as it is shown.
fn push_shown_str(label: &mut String, text: &str)
    ensures
        final(label)@ == old(label)@ + shown(text@),
{
    if text.unicode_len() == 1 {
        let c = text.get_char(0);
        assert(text@ =~= seq![c]);
        push_shown_char(label, c);
    } else {
        assert(seq![' '].len() == 1 && seq!['\n'].len() == 1);
        label.append(text);
    }
}

impl HistoryEvent {
    /// The label of the event, for a list of the history.
    pub fn label(&self) -> (label: String)
        ensures
            label@ == label_of(self@),
    {
        let mut label = match self {
            HistoryEvent::AddChar(_, _) => String::from_str("Add `"),
            HistoryEvent::RemoveChar(_, _) => String::from_str("Del `"),
            HistoryEvent::AddString(_, _) => String::from_str("Add \""),
            HistoryEvent::RemoveString(_, _) => String::from_str("Del \""),
        };
        proof {
            reveal_strlit("`");
            reveal_strlit("\"");
        }
        match self {
            HistoryEvent::AddChar(c, _) => {
                push_shown_char(&mut label, *c);
                label.push('`');
            },
            HistoryEvent::RemoveChar(c, _) => {
                push_shown_char(&mut label, *c);
                label.push('`');
            },
            HistoryEvent::AddString(s, _) => {
                push_shown_str(&mut label, s.as_str());
                label.push('"');
            },
            HistoryEvent::RemoveString(s, _) => {
                push_shown_str(&mut label, s.as_str());
                label.push('"');
            },
        }
        proof {
            assert("`"@ =~= seq!['`']);
            assert("\""@ =~= seq!['"']);
            assert(label@ =~= label_of(self@));
        }
        label
    }
}

/// The values of a sequence of events.
pub open spec fn edits_of(events: Seq<HistoryEvent>) -> Seq<Edit> {
    events.map_values(|e: HistoryEvent| e@)
}

/// Taking out what was just put in gives the text back.
pub proof fn lemma_removed_inserted(doc: Seq<char>, at: int, text: Seq<char>)
    requires
        0 <= at <= doc.len(),
    ensures
        inserted(doc, at, text).len() == doc.len() + text.len(),
        inserted(doc, at, text).subrange(at, at + text.len()) == text,
        removed(inserted(doc, at, text), at, text.len() as int) == doc,
{
    let big = inserted(doc, at, text);
    assert(big.subrange(at, at + text.len()) =~= text);
    assert(removed(big, at, text.len() as int) =~= doc);
}

/// Putting back what was just taken out gives the text back.
pub proof fn lemma_inserted_removed(doc: Seq<char>, at: int, n: int)
    requires
        0 <= at,
        0 <= n,
        at + n <= doc.len(),
    ensures
        removed(doc, at, n).len() == doc.len() - n,
        inserted(removed(doc, at, n), at, doc.subrange(at, at + n)) == doc,
{
    assert(inserted(removed(doc, at, n), at, doc.subrange(at, at + n)) =~= doc);
}

/// An edit that fits a text leaves the last character of the text in place.
pub proof fn lemma_apply_keeps_last(e: Edit, doc: Seq<char>)
    requires
        e.fits(doc),
    ensures
        e.inserts() ==> e.apply(doc).len() == doc.len() + e.text().len(),
        !e.inserts() ==> e.apply(doc).len() == doc.len() - e.text().len(),
        e.apply(doc).len() > 0,
        e.apply(doc).last() == doc.last(),
        e.cursor_after() < e.apply(doc).len(),
{
}

/// Exact invertibility: after an edit that fits, its inverse fits, and
/// applying the inverse gives back the text that the edit was applied to.
pub proof fn lemma_inverse_undoes(e: Edit, doc: Seq<char>)
    requires
        e.fits(doc),
    ensures
        e.inverse().inverse() == e,
        e.inverse().fits(e.apply(doc)),
        e.inverse().apply(e.apply(doc)) == doc,
{
    if e.inserts() {
        lemma_removed_inserted(doc, e.at() as int, e.text());
    } else {
        lemma_inserted_removed(doc, e.at() as int, e.text().len() as int);
    }
}

} // verus!
