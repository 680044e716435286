//! The file tree of the explorer: directories that are open or closed, the
//! files in the open ones, and which path has the focus.
//!
//! The tree does not read the disk. Whoever opens a directory hands in its
//! listing, or nothing where the directory could not be read.

use vstd::prelude::*;

verus! {

/// What stands in a directory of the tree.
#[derive(Debug, PartialEq)]
pub enum DirectoryItems {
    /// The directory is closed: what it holds is not known.
    ClosedDirectory,
    /// The directory is open and holds these items, in this order.
    OpenedDirectory(Vec<DirectoryItem>),
}

/// One item of an open directory.
#[derive(Debug, PartialEq)]
pub enum DirectoryItem {
    /// A file, by its path.
    File(String),
    /// A directory.
    Directory(Dir),
}

/// A directory of the tree.
#[derive(Debug, PartialEq)]
pub struct Dir {
    pub path: String,
    pub children: DirectoryItems,
}

/// What kind of thing an entry of a directory listing is.
#[derive(Debug, Clone, Copy, PartialEq, Eq, Structural)]
pub enum EntryKind {
    Directory,
    File,
    /// Neither a directory nor a file, or of a kind that could not be found
    /// out.
    Other,
}

/// One entry of a directory listing.
#[derive(Debug, PartialEq)]
pub struct DirEntry {
    pub path: String,
    pub kind: EntryKind,
}

/// The mathematical value of a [`DirectoryItem`], and of a [`Dir`]: a file,
/// or a directory that is closed (no items) or open (with its items).
pub enum Tree {
    File(Seq<char>),
    Folder(Seq<char>, Option<Seq<Tree>>),
}

/// The value of a directory.
pub open spec fn dir_tree(d: Dir) -> Tree
    decreases d, 0nat,
{
    match d.children {
        DirectoryItems::ClosedDirectory => Tree::Folder(d.path@, None),
        DirectoryItems::OpenedDirectory(items) => Tree::Folder(
            d.path@,
            Some(item_trees(items, items@.len())),
        ),
    }
}

/// The value of an item.
pub open spec fn item_tree(item: DirectoryItem) -> Tree
    decreases item, 0nat,
{
    match item {
        DirectoryItem::File(path) => Tree::File(path@),
        DirectoryItem::Directory(d) => dir_tree(d),
    }
}

/// The values of the first `n` of `items`.
pub open spec fn item_trees(items: Vec<DirectoryItem>, n: nat) -> Seq<Tree>
    decreases items, n,
{
    if n == 0 || n > items@.len() {
        Seq::empty()
    } else {
        item_trees(items, (n - 1) as nat).push(item_tree(items@[n - 1]))
    }
}

/// The items that the first `n` entries of a listing give: a closed directory
/// for each directory, a file for each file, in the order of the listing.
/// Other entries give nothing.
pub open spec fn listed(entries: Seq<DirEntry>, n: nat) -> Seq<Tree>
    decreases n,
{
    if n == 0 || n > entries.len() {
        Seq::empty()
    } else {
        let e = entries[n - 1];
        let before = listed(entries, (n - 1) as nat);
        match e.kind {
            EntryKind::Directory => before.push(Tree::Folder(e.path@, None)),
            EntryKind::File => before.push(Tree::File(e.path@)),
            EntryKind::Other => before,
        }
    }
}

/// The items of a whole listing, or nothing for a directory that could not
/// be read.
pub open spec fn listing_trees(listing: Option<&Vec<DirEntry>>) -> Option<Seq<Tree>> {
    match listing {
        Some(entries) => Some(listed(entries@, entries@.len())),
        None => None,
    }
}

impl Tree {
    /// The path of the file or directory.
    pub open spec fn path(self) -> Seq<char> {
        match self {
            Tree::File(p) => p,
            Tree::Folder(p, _) => p,
        }
    }

    /// The directory opened with the items of a listing. Where there is no
    /// listing it is as it was.
    pub open spec fn opened(self, listing: Option<Seq<Tree>>) -> Tree {
        match listing {
            Some(items) => Tree::Folder(self.path(), Some(items)),
            None => self,
        }
    }

    /// The directory closed.
    pub open spec fn shut(self) -> Tree {
        Tree::Folder(self.path(), None)
    }

    /// A closed directory opened, an open one closed.
    pub open spec fn flipped(self, listing: Option<Seq<Tree>>) -> Tree {
        match self {
            Tree::Folder(_, None) => self.opened(listing),
            _ => self.shut(),
        }
    }

    /// The directory after a click on `path`. If the directory has that
    /// path, it is opened or closed. Else the click goes to the items of an
    /// open directory in their order, see [`clicked_items`].
    pub open spec fn clicked(self, path: Seq<char>, listing: Option<Seq<Tree>>) -> Tree
        decreases self, 0nat,
    {
        match self {
            Tree::File(_) => self,
            Tree::Folder(own, children) => if own == path {
                self.flipped(listing)
            } else {
                match children {
                    None => self,
                    Some(items) => Tree::Folder(own, Some(clicked_items(items, 0, path, listing))),
                }
            },
        }
    }
}

/// The items of a directory from index `from` on, after a click on `path`.
/// Every directory among them gets the click, up to the first file that has
/// the path: the items behind that file are as they were.
pub open spec fn clicked_items(
    items: Seq<Tree>,
    from: nat,
    path: Seq<char>,
    listing: Option<Seq<Tree>>,
) -> Seq<Tree>
    decreases items, items.len() - from,
{
    if from >= items.len() {
        Seq::empty()
    } else if items[from as int] == Tree::File(path) {
        items.subrange(from as int, items.len() as int)
    } else {
        seq![items[from as int].clicked(path, listing)] + clicked_items(
            items,
            from + 1,
            path,
            listing,
        )
    }
}

/// The file explorer's tree: its root directory, if a directory is open in
/// the explorer, and the path that has the focus, if one has.
#[derive(Debug, PartialEq)]
pub struct FileSystem {
    root: Option<Dir>,
    focus: Option<String>,
}

impl View for Dir {
    type V = Tree;

    open spec fn view(&self) -> Tree {
        dir_tree(*self)
    }
}

impl View for DirectoryItem {
    type V = Tree;

    open spec fn view(&self) -> Tree {
        item_tree(*self)
    }
}

/// The values of the first `n` items are the values of the items, one by
/// one.
pub proof fn lemma_item_trees(items: Vec<DirectoryItem>, n: nat)
    requires
        n <= items@.len(),
    ensures
        item_trees(items, n).len() == n,
        forall|j: int| 0 <= j < n ==> #[trigger] item_trees(items, n)[j] == item_tree(items@[j]),
    decreases n,
{
    if n > 0 {
        lemma_item_trees(items, (n - 1) as nat);
    }
}

impl Clone for Dir {
    fn clone(&self) -> (copy: Self)
        ensures
            copy@ == self@,
    {
        self.duplicate()
    }
}

impl Clone for DirectoryItem {
    fn clone(&self) -> (copy: Self)
        ensures
            copy@ == self@,
    {
        match self {
            DirectoryItem::File(path) => DirectoryItem::File(path.clone()),
            DirectoryItem::Directory(dir) => DirectoryItem::Directory(dir.duplicate()),
        }
    }
}

impl Clone for DirectoryItems {
    fn clone(&self) -> (copy: Self)
        ensures
            self is ClosedDirectory ==> copy is ClosedDirectory,
            self is OpenedDirectory ==> copy is OpenedDirectory && item_trees(
                copy->OpenedDirectory_0,
                copy->OpenedDirectory_0@.len(),
            ) == item_trees(self->OpenedDirectory_0, self->OpenedDirectory_0@.len()),
    {
        match self {
            DirectoryItems::ClosedDirectory => DirectoryItems::ClosedDirectory,
            DirectoryItems::OpenedDirectory(items) => {
                let mut copies: Vec<DirectoryItem> = Vec::new();
                let mut i: usize = 0;
                while i < items.len()
                    invariant
                        i <= items@.len(),
                        copies@.len() == i,
                        forall|j: int|
                            0 <= j < i ==> item_tree(#[trigger] copies@[j]) == item_tree(
                                items@[j],
                            ),
                    decreases items@.len() - i,
                {
                    copies.push(items[i].clone());
                    i += 1;
                }
                proof {
                    lemma_item_trees(copies, copies@.len());
                    lemma_item_trees(*items, items@.len());
                    assert(item_trees(copies, copies@.len()) =~= item_trees(*items, items@.len()));
                }
                DirectoryItems::OpenedDirectory(copies)
            },
        }
    }
}

impl Clone for DirEntry {
    fn clone(&self) -> (copy: Self)
        ensures
            copy.path@ == self.path@,
            copy.kind == self.kind,
    {
        DirEntry { path: self.path.clone(), kind: self.kind }
    }
}

/// The items that a listing gives, as items of the tree.
pub fn items_from(listing: &Vec<DirEntry>) -> (items: Vec<DirectoryItem>)
    ensures
        item_trees(items, items@.len()) == listed(listing@, listing@.len()),
{
    let mut items: Vec<DirectoryItem> = Vec::new();
    let mut i: usize = 0;
    while i < listing.len()
        invariant
            i <= listing@.len(),
            item_trees(items, items@.len()) == listed(listing@, i as nat),
        decreases listing@.len() - i,
    {
        let ghost before = items;
        let entry = &listing[i];
        proof {
            lemma_item_trees(before, before@.len());
        }
        match entry.kind {
            EntryKind::Directory => {
                items.push(DirectoryItem::Directory(Dir::new(entry.path.clone())));
                proof {
                    lemma_item_trees(items, items@.len());
                    assert(item_trees(items, items@.len()) =~= item_trees(
                        before,
                        before@.len(),
                    ).push(Tree::Folder(entry.path@, None)));
                }
            },
            EntryKind::File => {
                items.push(DirectoryItem::File(entry.path.clone()));
                proof {
                    lemma_item_trees(items, items@.len());
                    assert(item_trees(items, items@.len()) =~= item_trees(
                        before,
                        before@.len(),
                    ).push(Tree::File(entry.path@)));
                }
            },
            EntryKind::Other => {},
        }
        i += 1;
    }
    items
}

impl Dir {
    /// A copy of the directory and of everything below it.
    fn duplicate(&self) -> (copy: Self)
        ensures
            copy@ == self@,
        decreases self,
    {
        match &self.children {
            DirectoryItems::ClosedDirectory => Dir::new(self.path.clone()),
            DirectoryItems::OpenedDirectory(items) => {
                let mut copies: Vec<DirectoryItem> = Vec::new();
                let mut i: usize = 0;
                while i < items.len()
                    invariant
                        i <= items@.len(),
                        copies@.len() == i,
                        self.children == DirectoryItems::OpenedDirectory(*items),
                        forall|j: int|
                            0 <= j < i ==> item_tree(#[trigger] copies@[j]) == item_tree(
                                items@[j],
                            ),
                    decreases items@.len() - i,
                {
                    let copy = match &items[i] {
                        DirectoryItem::File(path) => DirectoryItem::File(path.clone()),
                        DirectoryItem::Directory(dir) => {
                            proof {
                                vstd::std_specs::vec::axiom_vec_index_decreases(*items, i as int);
                                assert(self.children->OpenedDirectory_0 == *items);
                                assert(decreases_to!(self.children => self.children->OpenedDirectory_0));
                                assert(decreases_to!(items@[i as int] => *dir));
                            }
                            DirectoryItem::Directory(dir.duplicate())
                        },
                    };
                    copies.push(copy);
                    i += 1;
                }
                proof {
                    lemma_item_trees(copies, copies@.len());
                    lemma_item_trees(*items, items@.len());
                    assert(item_trees(copies, copies@.len()) =~= item_trees(*items, items@.len()));
                }
                Dir { path: self.path.clone(), children: DirectoryItems::OpenedDirectory(copies) }
            },
        }
    }

    /// A closed directory at `path`.
    pub fn new(path: String) -> (dir: Self)
        ensures
            dir@ == Tree::Folder(path@, None),
    {
        Self { path, children: DirectoryItems::ClosedDirectory }
    }

    /// Handles a click on `path` in the tree below this directory. If this
    /// directory has the path, it is opened with `listing`, or closed if it
    /// was open. Else every directory among the items of this directory, if
    /// it is open, gets the click in turn, up to the first file that has the
    /// path.
    pub fn find(&mut self, path: &String, listing: Option<&Vec<DirEntry>>)
        ensures
            final(self)@ == old(self)@.clicked(path@, listing_trees(listing)),
        decreases *old(self),
    {
        if *path == self.path {
            self.open_close(listing);
            return ;
        }
        let ghost own = self.path@;
        let ghost shown = listing_trees(listing);
        match &mut self.children {
            DirectoryItems::ClosedDirectory => {},
            DirectoryItems::OpenedDirectory(items) => {
                let ghost before = *items;
                let ghost first = item_trees(before, before@.len());
                let n = items.len();
                let mut i: usize = 0;
                proof {
                    lemma_item_trees(before, before@.len());
                    assert(item_trees(*items, n as nat).subrange(0, 0) + clicked_items(
                        first,
                        0,
                        path@,
                        shown,
                    ) =~= clicked_items(first, 0, path@, shown));
                }
                loop
                    invariant_except_break
                        i <= n,
                        forall|j: int| i <= j < n ==> items@[j] == before@[j],
                        item_trees(*items, n as nat).subrange(0, i as int) + clicked_items(
                            first,
                            i as nat,
                            path@,
                            shown,
                        ) == clicked_items(first, 0, path@, shown),
                    invariant
                        n == items@.len(),
                        n == before@.len(),
                        first == item_trees(before, before@.len()),
                        first.len() == n,
                        old(self).children == DirectoryItems::OpenedDirectory(before),
                        shown == listing_trees(listing),
                    ensures
                        item_trees(*items, n as nat) == clicked_items(first, 0, path@, shown),
                    decreases n - i,
                {
                    if i >= n {
                        proof {
                            lemma_item_trees(*items, n as nat);
                            assert(item_trees(*items, n as nat).subrange(0, n as int)
                                =~= item_trees(*items, n as nat));
                            assert(item_trees(*items, n as nat) =~= item_trees(
                                *items,
                                n as nat,
                            ) + clicked_items(first, n as nat, path@, shown));
                        }
                        break ;
                    }
                    let ghost now = *items;
                    let ghost trees = item_trees(now, n as nat);
                    proof {
                        lemma_item_trees(now, n as nat);
                        lemma_item_trees(before, n as nat);
                        assert(first[i as int] == item_tree(before@[i as int]));
                    }
                    let mut found = false;
                    match &mut items[i] {
                        DirectoryItem::Directory(dir) => {
                            proof {
                                vstd::std_specs::vec::axiom_vec_index_decreases(before, i as int);
                                assert(old(self).children->OpenedDirectory_0 == before);
                                assert(decreases_to!(old(self).children => old(self).children->OpenedDirectory_0));
                                assert(decreases_to!(before@[i as int] => *dir));
                            }
                            dir.find(path, listing);
                        },
                        DirectoryItem::File(file) => {
                            found = *file == *path;
                        },
                    }
                    if found {
                        proof {
                            lemma_item_trees(*items, n as nat);
                            let same = item_trees(*items, n as nat);
                            assert(items@ =~= now@);
                            assert(same =~= trees);
                            assert(first[i as int] == Tree::File(path@));
                            assert forall|j: int| i <= j < n implies trees[j] == first[j] by {}
                            assert(trees =~= trees.subrange(0, i as int) + first.subrange(
                                i as int,
                                n as int,
                            ));
                        }
                        break ;
                    }
                    proof {
                        lemma_item_trees(*items, n as nat);
                        let after = item_trees(*items, n as nat);
                        assert(after[i as int] == first[i as int].clicked(path@, shown));
                        assert forall|j: int| 0 <= j < i implies after[j] == trees[j] by {}
                        assert(after.subrange(0, i + 1) =~= trees.subrange(0, i as int) + seq![
                            first[i as int].clicked(path@, shown),
                        ]);
                        assert(after.subrange(0, i + 1) + clicked_items(
                            first,
                            (i + 1) as nat,
                            path@,
                            shown,
                        ) =~= trees.subrange(0, i as int) + clicked_items(
                            first,
                            i as nat,
                            path@,
                            shown,
                        ));
                    }
                    i += 1;
                }
            },
        }
    }

    /// Opens the directory with `listing` if it is closed, and closes it if
    /// it is open.
    pub fn open_close(&mut self, listing: Option<&Vec<DirEntry>>)
        ensures
            final(self)@ == old(self)@.flipped(listing_trees(listing)),
    {
        match self.children {
            DirectoryItems::ClosedDirectory => self.open(listing),
            DirectoryItems::OpenedDirectory(_) => self.close(),
        }
    }

    /// Opens the directory: its items are those that `listing` gives. For a
    /// directory that could not be read, where there is no listing, nothing
    /// changes.
    pub fn open(&mut self, listing: Option<&Vec<DirEntry>>)
        ensures
            final(self)@ == old(self)@.opened(listing_trees(listing)),
    {
        match listing {
            Some(entries) => {
                self.children = DirectoryItems::OpenedDirectory(items_from(entries));
            },
            None => {},
        }
    }

    /// Closes the directory: its items are forgotten.
    pub fn close(&mut self)
        ensures
            final(self)@ == old(self)@.shut(),
    {
        self.children = DirectoryItems::ClosedDirectory;
    }
}

impl Clone for FileSystem {
    fn clone(&self) -> (copy: Self)
        ensures
            copy.root_tree() == self.root_tree(),
            copy.focus_path() == self.focus_path(),
    {
        FileSystem {
            root: match &self.root {
                Some(root) => Some(root.duplicate()),
                None => None,
            },
            focus: self.focus.clone(),
        }
    }
}

impl FileSystem {
    /// The root directory of the tree, if it has one.
    pub closed spec fn root_tree(&self) -> Option<Tree> {
        match self.root {
            Some(dir) => Some(dir@),
            None => None,
        }
    }

    /// The path that has the focus, if one has.
    pub closed spec fn focus_path(&self) -> Option<Seq<char>> {
        match self.focus {
            Some(path) => Some(path@),
            None => None,
        }
    }

    /// A tree with `root` as its root directory and no focus.
    pub fn from(root: Dir) -> (tree: Self)
        ensures
            tree.root_tree() == Some(root@),
            tree.focus_path() is None,
    {
        Self { root: Some(root), focus: None }
    }

    /// A tree without a root directory and without a focus.
    pub fn new() -> (tree: Self)
        ensures
            tree.root_tree() is None,
            tree.focus_path() is None,
    {
        Self { root: None, focus: None }
    }

    /// Handles a click on the directory `path`: see [`Dir::find`]. A tree
    /// without a root directory stays as it is. The focus does not move.
    pub fn find(&mut self, path: &String, listing: Option<&Vec<DirEntry>>)
        ensures
            final(self).root_tree() == (match old(self).root_tree() {
                Some(root) => Some(root.clicked(path@, listing_trees(listing))),
                None => None,
            }),
            final(self).focus_path() == old(self).focus_path(),
    {
        match &mut self.root {
            Some(root) => {
                root.find(path, listing);
            },
            None => {},
        }
    }

    /// Gives `path` the focus.
    pub fn change_focus(&mut self, path: &String)
        ensures
            final(self).focus_path() == Some(path@),
            final(self).root_tree() == old(self).root_tree(),
    {
        self.focus = Some(path.clone());
    }

    /// Takes the focus away.
    pub fn clear_focus(&mut self)
        ensures
            final(self).focus_path() is None,
            final(self).root_tree() == old(self).root_tree(),
    {
        self.focus = None;
    }

    /// Whether `path` has the focus.
    pub fn is_focused(&self, path: &String) -> (yes: bool)
        ensures
            yes == (self.focus_path() == Some(path@)),
    {
        match &self.focus {
            Some(focus) => *focus == *path,
            None => false,
        }
    }

    /// The root directory, if the tree has one.
    pub fn get_root(&self) -> (root: Option<&Dir>)
        ensures
            match root {
                Some(dir) => self.root_tree() == Some(dir@),
                None => self.root_tree() is None,
            },
    {
        self.root.as_ref()
    }

    /// The path of the root directory, if the tree has one.
    pub fn get_root_path(&self) -> (path: Option<&String>)
        ensures
            match path {
                Some(p) => self.root_tree() is Some && self.root_tree()->0.path() == p@,
                None => self.root_tree() is None,
            },
    {
        match &self.root {
            Some(root) => Some(&root.path),
            None => None,
        }
    }
}

} // verus!
