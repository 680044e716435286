//! The registry of open tabs: the buffers of the open files in the order in
//! which they were opened, and which of them is active.

use crate::document::Document;
use crate::strings::normalized;
use crate::text::TextFile;
use vstd::prelude::*;

verus! {

/// The open tabs of an editor session.
#[derive(Debug, PartialEq)]
pub struct Tabs {
    /// The buffers, in the order in which they were opened, which is the
    /// order in which they are shown.
    pub opened_tabs: Vec<TextFile>,
    /// The path of the active buffer, if one is active.
    pub current_file: Option<String>,
}

/// The mathematical value of [`Tabs`].
#[verifier::ext_equal]
pub struct Registry {
    /// The buffers, in order.
    pub tabs: Seq<Document>,
    /// The path of the active buffer.
    pub active: Option<Seq<char>>,
}

/// The values of a sequence of buffers.
pub open spec fn documents_of(files: Seq<TextFile>) -> Seq<Document> {
    files.map_values(|f: TextFile| f@)
}

/// The value of a path that may be missing.
pub open spec fn path_of(path: Option<String>) -> Option<Seq<char>> {
    match path {
        Some(p) => Some(p@),
        None => None,
    }
}

impl Registry {
    /// Whether a buffer for `path` is open.
    pub open spec fn holds(self, path: Seq<char>) -> bool {
        exists|i: int| 0 <= i < self.tabs.len() && #[trigger] self.tabs[i].path == path
    }

    /// The index of the first buffer for `path`.
    pub open spec fn position(self, path: Seq<char>) -> int
        recommends
            self.holds(path),
    {
        choose|i: int|
            0 <= i < self.tabs.len() && #[trigger] self.tabs[i].path == path && forall|j: int|
                0 <= j < i ==> (#[trigger] self.tabs[j]).path != path
    }

    /// The invariant of the registry: no two buffers have the same path, and
    /// every buffer is in order.
    pub open spec fn wf(self) -> bool {
        &&& forall|i: int| 0 <= i < self.tabs.len() ==> (#[trigger] self.tabs[i]).wf()
        &&& forall|i: int, j: int|
            0 <= i < j < self.tabs.len() ==> (#[trigger] self.tabs[i]).path != (
            #[trigger] self.tabs[j]).path
    }

    /// Whether the active path, if there is one, is that of an open buffer.
    pub open spec fn active_is_open(self) -> bool {
        self.active is Some ==> self.holds(self.active->0)
    }

    /// The active buffer: the one whose path is the active path.
    pub open spec fn active_tab(self) -> Option<Document> {
        match self.active {
            Some(path) => if self.holds(path) {
                Some(self.tabs[self.position(path)])
            } else {
                None
            },
            None => None,
        }
    }

    /// The registry with `path` as the active path, open or not.
    pub open spec fn activated(self, path: Seq<char>) -> Registry {
        Registry { active: Some(path), ..self }
    }

    /// The registry after `path` was opened. It is the active path. If no
    /// buffer for it was open, a fresh one for the text `loaded`, normalised,
    /// is the last of the buffers.
    pub open spec fn opened(self, path: Seq<char>, loaded: Seq<char>) -> Registry {
        Registry {
            tabs: if self.holds(path) {
                self.tabs
            } else {
                self.tabs.push(Document::fresh(path, normalized(loaded)))
            },
            active: Some(path),
        }
    }

    /// The registry after the buffer for `path` was closed. With no such
    /// buffer nothing changes. Else the buffer is gone. If none is left, none
    /// is active. If the closed one was active, the buffer that now stands at
    /// its index is active, or the last one where there is none at that
    /// index. Else the active path is the same.
    pub open spec fn closed(self, path: Seq<char>) -> Registry {
        if !self.holds(path) {
            self
        } else {
            let at = self.position(path);
            let rest = self.tabs.remove(at);
            Registry {
                tabs: rest,
                active: if rest.len() == 0 {
                    None
                } else if self.active == Some(path) {
                    Some(
                        rest[if at < rest.len() {
                            at
                        } else {
                            rest.len() - 1
                        }].path,
                    )
                } else {
                    self.active
                },
            }
        }
    }
}

impl View for Tabs {
    type V = Registry;

    open spec fn view(&self) -> Registry {
        Registry { tabs: documents_of(self.opened_tabs@), active: path_of(self.current_file) }
    }
}

impl Clone for Tabs {
    fn clone(&self) -> (copy: Self)
        ensures
            copy@ == self@,
    {
        let mut files: Vec<TextFile> = Vec::new();
        let mut i: usize = 0;
        while i < self.opened_tabs.len()
            invariant
                i <= self.opened_tabs@.len(),
                files@.len() == i,
                forall|j: int| 0 <= j < i ==> (#[trigger] files@[j])@ == self.opened_tabs@[j]@,
            decreases self.opened_tabs@.len() - i,
        {
            files.push(self.opened_tabs[i].clone());
            i += 1;
        }
        assert(documents_of(files@) =~= documents_of(self.opened_tabs@));
        Self { opened_tabs: files, current_file: self.current_file.clone() }
    }
}

/// The first buffer for a path is found by its index: the buffer at `at` has
/// the path, and none before it has.
pub proof fn lemma_position(r: Registry, path: Seq<char>, at: int)
    requires
        0 <= at < r.tabs.len(),
        r.tabs[at].path == path,
        forall|j: int| 0 <= j < at ==> (#[trigger] r.tabs[j]).path != path,
    ensures
        r.holds(path),
        r.position(path) == at,
{
    let p = r.position(path);
    if p < at {
        assert(r.tabs[p].path != path);
    }
    if at < p {
        assert(r.tabs[at].path != path);
    }
}

/// Where a buffer for a path is open, there is a first one.
pub proof fn lemma_first_position(r: Registry, path: Seq<char>, from: int)
    requires
        0 <= from,
        exists|i: int| from <= i < r.tabs.len() && #[trigger] r.tabs[i].path == path,
        forall|j: int| 0 <= j < from ==> (#[trigger] r.tabs[j]).path != path,
    ensures
        r.holds(path),
        0 <= r.position(path) < r.tabs.len(),
        r.tabs[r.position(path)].path == path,
        forall|j: int| 0 <= j < r.position(path) ==> (#[trigger] r.tabs[j]).path != path,
    decreases r.tabs.len() - from,
{
    if r.tabs[from].path == path {
        lemma_position(r, path, from);
    } else {
        lemma_first_position(r, path, from + 1);
    }
}

/// Closing a buffer keeps the invariant, and keeps the active path that of an
/// open buffer where it was one.
pub proof fn lemma_closed_wf(r: Registry, path: Seq<char>)
    requires
        r.wf(),
    ensures
        r.closed(path).wf(),
        r.active_is_open() ==> r.closed(path).active_is_open(),
{
    if r.holds(path) {
        lemma_first_position(r, path, 0);
        if r.active is Some && r.holds(r.active->0) {
            lemma_first_position(r, r.active->0, 0);
        }
        let at = r.position(path);
        let c = r.closed(path);
        assert forall|i: int| 0 <= i < c.tabs.len() implies (#[trigger] c.tabs[i]).wf() by {
            if i < at {
                assert(c.tabs[i] == r.tabs[i]);
            } else {
                assert(c.tabs[i] == r.tabs[i + 1]);
            }
        }
        assert forall|i: int, j: int| 0 <= i < j < c.tabs.len() implies (#[trigger] c.tabs[i]).path
            != (#[trigger] c.tabs[j]).path by {
            let a = if i < at {
                i
            } else {
                i + 1
            };
            let b = if j < at {
                j
            } else {
                j + 1
            };
            assert(c.tabs[i] == r.tabs[a]);
            assert(c.tabs[j] == r.tabs[b]);
        }
        if r.active_is_open() && c.active is Some {
            if r.active == Some(path) {
                let k = if at < c.tabs.len() {
                    at
                } else {
                    c.tabs.len() - 1
                };
                assert(c.tabs[k].path == c.active->0);
            } else {
                let q = r.active->0;
                let k = r.position(q);
                assert(k != at);
                if k < at {
                    assert(c.tabs[k] == r.tabs[k]);
                    assert(c.tabs[k].path == q);
                } else {
                    assert(c.tabs[k - 1] == r.tabs[k]);
                    assert(c.tabs[k - 1].path == q);
                }
            }
        }
    }
}

/// Closing the only open tab leaves no tab active.
pub proof fn law_close_only_tab(r: Registry, path: Seq<char>)
    requires
        r.tabs.len() == 1,
        r.tabs[0].path == path,
    ensures
        r.closed(path).tabs.len() == 0,
        r.closed(path).active is None,
{
    lemma_position(r, path, 0);
}

/// Closing a tab that is not the active one leaves the active path as it is,
/// where the active path is that of an open tab or there is none.
pub proof fn law_close_other_tab(r: Registry, path: Seq<char>)
    requires
        r.active_is_open(),
        r.active != Some(path),
    ensures
        r.closed(path).active == r.active,
{
    if r.holds(path) && r.active is Some {
        lemma_first_position(r, path, 0);
        lemma_first_position(r, r.active->0, 0);
        let at = r.position(path);
        let k = r.position(r.active->0);
        assert(k != at);
        assert(r.tabs.remove(at).len() > 0);
    }
}

impl Tabs {
    /// The invariant of the registry.
    pub open spec fn wf(&self) -> bool {
        self@.wf()
    }

    /// A registry with no tab open and none active.
    pub fn new() -> (tabs: Self)
        ensures
            tabs@.tabs.len() == 0,
            tabs@.active is None,
            tabs.wf(),
    {
        Self { opened_tabs: Vec::new(), current_file: None }
    }

    /// The index of the first buffer for `path`, if one is open.
    pub fn position(&self, path: &String) -> (at: Option<usize>)
        ensures
            match at {
                Some(i) => self@.holds(path@) && i == self@.position(path@) && i
                    < self.opened_tabs@.len(),
                None => !self@.holds(path@),
            },
    {
        let mut i: usize = 0;
        while i < self.opened_tabs.len()
            invariant
                i <= self.opened_tabs@.len(),
                forall|j: int| 0 <= j < i ==> (#[trigger] self@.tabs[j]).path != path@,
            decreases self.opened_tabs@.len() - i,
        {
            if self.opened_tabs[i].path == *path {
                proof {
                    assert(self@.tabs[i as int].path == path@);
                    lemma_position(self@, path@, i as int);
                }
                return Some(i);
            }
            assert(self@.tabs[i as int].path != path@);
            i += 1;
        }
        None
    }

    /// A copy of the buffer for `path`, if one is open.
    pub fn get_file(&self, path: &String) -> (file: Option<TextFile>)
        ensures
            match file {
                Some(f) => self@.holds(path@) && f@ == self@.tabs[self@.position(path@)],
                None => !self@.holds(path@),
            },
    {
        match self.position(path) {
            Some(i) => Some(self.opened_tabs[i].clone()),
            None => None,
        }
    }

    /// A copy of the active buffer, if the active path is that of an open
    /// buffer.
    pub fn get_current_file(&self) -> (file: Option<TextFile>)
        ensures
            match file {
                Some(f) => self@.active_tab() == Some(f@),
                None => self@.active_tab() is None,
            },
    {
        match &self.current_file {
            Some(path) => self.get_file(path),
            None => None,
        }
    }

    /// The active buffer, to be changed in place, if the active path is that
    /// of an open buffer. Whatever is done to it is done to the buffer in the
    /// registry; the other buffers and the active path stay as they are.
    pub fn get_current_file_mut(&mut self) -> (file: Option<&mut TextFile>)
        ensures
            match file {
                Some(f) => {
                    let at = old(self)@.position(old(self)@.active->0);
                    &&& old(self)@.active_tab() == Some(f@)
                    &&& final(self)@.tabs == old(self)@.tabs.update(at, final(f)@)
                    &&& final(self)@.active == old(self)@.active
                },
                None => old(self)@.active_tab() is None && *final(self) == *old(self),
            },
    {
        let found = match &self.current_file {
            Some(path) => self.position(path),
            None => None,
        };
        match found {
            Some(i) => {
                let ghost before = self.opened_tabs@;
                let file = &mut self.opened_tabs[i];
                proof {
                    assert(documents_of(before.update(i as int, *final(file))) =~= documents_of(
                        before,
                    ).update(i as int, final(file)@));
                }
                Some(file)
            },
            None => None,
        }
    }

    /// Opens `path` and makes it active. If no buffer for it is open, one is
    /// made from `loaded`, the text of the file, or from nothing where the
    /// file could not be read, and becomes the last tab.
    pub fn open_tab(&mut self, path: String, loaded: Option<String>)
        requires
            old(self).wf(),
        ensures
            final(self)@ == old(self)@.opened(
                path@,
                match loaded {
                    Some(text) => text@,
                    None => Seq::empty(),
                },
            ),
            final(self).wf(),
            final(self)@.active_is_open(),
    {
        let ghost before = self@;
        self.set_current_file(path.clone());
        if self.position(&path).is_none() {
            let file = TextFile::new(path, loaded);
            let ghost files = self.opened_tabs@;
            self.opened_tabs.push(file);
            proof {
                assert(documents_of(self.opened_tabs@) =~= documents_of(files).push(file@));
                let last = self@.tabs.len() - 1;
                assert(self@.tabs[last].path == path@);
                assert forall|i: int, j: int| 0 <= i < j < self@.tabs.len() implies (
                #[trigger] self@.tabs[i]).path != (#[trigger] self@.tabs[j]).path by {
                    assert(self@.tabs[i] == before.tabs[i]);
                    if j < last {
                        assert(self@.tabs[j] == before.tabs[j]);
                    }
                }
                assert forall|i: int| 0 <= i < self@.tabs.len() implies (
                #[trigger] self@.tabs[i]).wf() by {
                    if i < last {
                        assert(self@.tabs[i] == before.tabs[i]);
                    }
                }
            }
        }
    }

    /// Closes the tab for `path`. With no such tab nothing changes. If no
    /// tab is left, none is active. If the closed tab was the active one, the
    /// tab that now stands at its index becomes active, or the last tab where
    /// there is none at that index. Else the active path stays as it is.
    pub fn close_tab(&mut self, path: String)
        requires
            old(self).wf(),
        ensures
            final(self)@ == old(self)@.closed(path@),
            final(self).wf(),
            old(self)@.active_is_open() ==> final(self)@.active_is_open(),
    {
        let ghost before = self@;
        proof {
            lemma_closed_wf(before, path@);
        }
        match self.position(&path) {
            Some(i) => {
                let was_active = match &self.current_file {
                    Some(active) => *active == path,
                    None => false,
                };
                let ghost files = self.opened_tabs@;
                let _ = self.opened_tabs.remove(i);
                proof {
                    assert(documents_of(self.opened_tabs@) =~= documents_of(files).remove(
                        i as int,
                    ));
                }
                let left = self.opened_tabs.len();
                if left == 0 {
                    self.current_file = None;
                } else if was_active {
                    let next = if i < left {
                        i
                    } else {
                        left - 1
                    };
                    self.current_file = Some(self.opened_tabs[next].path.clone());
                }
            },
            None => {},
        }
    }

    /// Makes `path` the active path. It need not be that of an open tab:
    /// until it is, there is no active buffer.
    pub fn set_current_file(&mut self, path: String)
        ensures
            final(self)@ == old(self)@.activated(path@),
            old(self).wf() ==> final(self).wf(),
    {
        self.current_file = Some(path);
    }
}

} // verus!
