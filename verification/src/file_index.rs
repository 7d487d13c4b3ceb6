//! The index of the regular files under a root directory.
//!
//! The index is a set of relative paths, each the normal form of a file's path from
//! the root on. A path comes in as the outcome of its resolution, which the caller
//! makes on disk; a resolved path is stripped of the root, and what does not lie
//! under the root never enters the set.
use crate::path::{
    components, is_absolute, is_name, is_normalized, is_resolved,
    is_resolved_path, join, join_root, lemma_components_are_names, lemma_components_of_rendered,
    lemma_joined_is_under_root, lemma_relative_is_normalized, lemma_rendered_is_normalized,
    normalize, normalized, relative_to, text_of, texts, PathError,
};
use vstd::hash_set::StringHashSet;
use vstd::prelude::*;

verus! {

/// The identity of an indexed file: its path relative to the index root.
#[derive(Clone, Debug, Hash)]
pub struct FileEntry {
    pub path: String,
}

impl View for FileEntry {
    type V = Seq<char>;

    open spec fn view(&self) -> Seq<char> {
        self.path@
    }
}

/// Entries are equal where their paths are equal as text. The index holds paths in
/// normal form only, where equal text and equal components are one.
impl PartialEq for FileEntry {
    fn eq(&self, other: &Self) -> (equal: bool) {
        self.path == other.path
    }
}

impl Eq for FileEntry {

}

impl vstd::std_specs::cmp::PartialEqSpecImpl for FileEntry {
    open spec fn obeys_eq_spec() -> bool {
        true
    }

    open spec fn eq_spec(&self, other: &Self) -> bool {
        self.path@ == other.path@
    }
}

impl FileEntry {
    /// The entry for the file at `path`.
    pub fn new(path: &str) -> (entry: Self)
        ensures
            entry@ == path@,
    {
        FileEntry { path: path.to_owned() }
    }
}

/// Why no index could be built.
#[derive(Clone, Copy, Debug, PartialEq, Eq, Structural)]
pub enum IndexError {
    /// The root could not be resolved or could not be traversed.
    RootUnreadable,
}

/// What a traversal of the root reports of one node of the tree.
#[derive(Debug)]
pub enum WalkItem {
    /// A node was visited: what resolution made of its path, and whether it is a
    /// regular file.
    Entry { resolved: Result<String, PathError>, is_file: bool },
    /// A node could not be read; `depth` counts the directories between it and the
    /// root, the root itself being at depth 0.
    Error { depth: usize },
}

/// Whether `item` reports a failure to read the root itself, which ends the scan.
pub open spec fn is_fatal(item: WalkItem) -> bool {
    item matches WalkItem::Error { depth } && depth == 0
}

/// Whether one of `items` ends the scan.
pub open spec fn any_fatal(items: Seq<WalkItem>) -> bool {
    exists|i: int| 0 <= i < items.len() && is_fatal(#[trigger] items[i])
}

/// Whether `item` reports a regular file.
pub open spec fn is_file(item: WalkItem) -> bool {
    item matches WalkItem::Entry { is_file, .. } && is_file
}

/// Whether the scan indexes `relative` on account of `item`: the item reports a
/// regular file, and its path was resolved to one that `relative` names under `root`.
pub open spec fn indexes(root: Seq<char>, item: WalkItem, relative: Seq<char>) -> bool {
    item matches WalkItem::Entry { resolved, is_file } && is_file && normalized(
        root,
        text_of(resolved),
    ) == Ok::<Seq<char>, PathError>(relative)
}

/// The set that a scan of `items` gives: the relative forms of the resolved paths of
/// the items that report a regular file.
pub open spec fn scanned(root: Seq<char>, items: Seq<WalkItem>) -> Set<Seq<char>> {
    Set::new(
        |relative: Seq<char>|
            exists|i: int| 0 <= i < items.len() && indexes(root, #[trigger] items[i], relative),
    )
}

/// What a scan comes to, where `root` is what resolution made of the root: the root
/// and the indexed set, or `RootUnreadable` where the root was not resolved or an
/// item reports a failure to read it.
pub open spec fn scan_result(root: Result<Seq<char>, PathError>, items: Seq<WalkItem>) -> Result<
    (Seq<char>, Set<Seq<char>>),
    IndexError,
> {
    match root {
        Ok(base) if is_resolved(base) && !any_fatal(items) => Ok((base, scanned(base, items))),
        _ => Err(IndexError::RootUnreadable),
    }
}

/// The root and the set of the index that a scan made, or the scan's error.
pub open spec fn scan_view(result: Result<(FileIndex, usize), IndexError>) -> Result<
    (Seq<char>, Set<Seq<char>>),
    IndexError,
> {
    match result {
        Ok((index, _)) => Ok((index.root_view(), index@)),
        Err(e) => Err(e),
    }
}

/// The set after the insertion of a path whose resolution gave `resolved`.
pub open spec fn inserted(
    entries: Set<Seq<char>>,
    root: Seq<char>,
    resolved: Result<Seq<char>, PathError>,
) -> Set<Seq<char>> {
    match normalized(root, resolved) {
        Ok(relative) => entries.insert(relative),
        Err(_) => entries,
    }
}

/// The set after the removal of a path whose resolution gave `resolved`.
pub open spec fn removed(
    entries: Set<Seq<char>>,
    root: Seq<char>,
    resolved: Result<Seq<char>, PathError>,
) -> Set<Seq<char>> {
    match normalized(root, resolved) {
        Ok(relative) => entries.remove(relative),
        Err(_) => entries,
    }
}

/// Whether a normalization succeeded, without the path that it gave.
pub open spec fn verdict(relative: Result<Seq<char>, PathError>) -> Result<(), PathError> {
    match relative {
        Ok(_) => Ok(()),
        Err(e) => Err(e),
    }
}

/// The paths of a sequence of entries.
pub open spec fn paths_of(entries: Seq<FileEntry>) -> Seq<Seq<char>> {
    entries.map_values(|entry: FileEntry| entry@)
}

/// The set of indexed files under a fixed root. The entries are held in a list, for
/// reading them out, and their paths in a hash set, for finding them.
pub struct FileIndex {
    root: String,
    entries: Vec<FileEntry>,
    known: StringHashSet,
}

impl View for FileIndex {
    type V = Set<Seq<char>>;

    open spec fn view(&self) -> Set<Seq<char>> {
        self.listing().to_set()
    }
}

impl FileIndex {
    /// The root of the index, as text.
    pub closed spec fn root_view(&self) -> Seq<char> {
        self.root@
    }

    /// The indexed paths in the order in which the index holds them.
    pub closed spec fn listing(&self) -> Seq<Seq<char>> {
        paths_of(self.entries@)
    }

    /// Whether the hash set holds the paths of the list, and no others.
    pub closed spec fn lookup_agrees(&self) -> bool {
        self.known@ == paths_of(self.entries@).to_set()
    }

    /// The invariant of the index: the root is resolved, no path is held twice, each
    /// is the normal form of a relative path, free of `..`, and what is found is what
    /// is listed.
    pub open spec fn well_formed(&self) -> bool {
        &&& self.lookup_agrees()
        &&& is_resolved(self.root_view())
        &&& self.listing().no_duplicates()
        &&& forall|i: int|
            0 <= i < self.listing().len() ==> is_normalized(#[trigger] self.listing()[i])
    }

    /// An empty index on the root that a resolution gave; `RootUnreadable` where the
    /// resolution had failed or did not give a resolved path.
    pub fn with_root(resolved: &Result<String, PathError>) -> (index: Result<Self, IndexError>)
        ensures
            match text_of(*resolved) {
                Ok(root) if is_resolved(root) => {
                    &&& index matches Ok(made)
                    &&& made.well_formed()
                    &&& made.root_view() == root
                    &&& made@ == Set::<Seq<char>>::empty()
                },
                _ => index matches Err(e) && e == IndexError::RootUnreadable,
            },
    {
        match resolved {
            Ok(root) => {
                if is_resolved_path(root.as_str()) {
                    let made = FileIndex {
                        root: root.clone(),
                        entries: Vec::new(),
                        known: StringHashSet::new(),
                    };
                    assert(made@ =~= Set::<Seq<char>>::empty());
                    Ok(made)
                } else {
                    Err(IndexError::RootUnreadable)
                }
            },
            Err(_) => Err(IndexError::RootUnreadable),
        }
    }

    /// Builds the index from what a traversal of the root reported, where `root` is
    /// what resolution made of the root, and counts the files indexed. The scan fails
    /// where the root was not resolved or an item reports a failure at depth 0.
    /// Otherwise each item that reports a regular file adds the relative form of its
    /// resolved path; failures below the root, nodes that are no regular files, and
    /// files whose path was not resolved or lies outside the root add nothing.
    pub fn from_path(root: &Result<String, PathError>, items: &Vec<WalkItem>) -> (result: Result<
        (Self, usize),
        IndexError,
    >)
        ensures
            scan_view(result) == scan_result(text_of(*root), items@),
            result matches Ok((index, count)) ==> index.well_formed() && count == index@.len(),
    {
        let mut index = match Self::with_root(root) {
            Ok(made) => made,
            Err(e) => {
                return Err(e);
            },
        };
        let ghost base = index.root_view();
        let mut i: usize = 0;
        assert(index@ =~= scanned(base, items@.take(0)));
        while i < items.len()
            invariant
                i <= items.len(),
                index.well_formed(),
                index.root_view() == base,
                forall|j: int| 0 <= j < i ==> !is_fatal(#[trigger] items@[j]),
                index@ == scanned(base, items@.take(i as int)),
            decreases items.len() - i,
        {
            proof {
                lemma_scanned_next(base, items@, i as int);
            }
            match &items[i] {
                WalkItem::Error { depth } => {
                    if *depth == 0 {
                        assert(is_fatal(items@[i as int]));
                        return Err(IndexError::RootUnreadable);
                    }
                },
                WalkItem::Entry { resolved, is_file } => {
                    if *is_file {
                        let _ = index.insert(resolved);
                    }
                },
            }
            i += 1;
        }
        proof {
            assert(items@.take(i as int) =~= items@);
            assert(!any_fatal(items@));
        }
        let count: usize = index.len();
        Ok((index, count))
    }

    /// The root of the index: a resolved path, the same for the index's lifetime.
    pub fn root(&self) -> (root: &String)
        ensures
            root@ == self.root_view(),
    {
        &self.root
    }

    /// The entries of the index, each once, for reading.
    pub fn entries(&self) -> (entries: &Vec<FileEntry>)
        ensures
            paths_of(entries@) == self.listing(),
    {
        &self.entries
    }

    /// The number of indexed files.
    pub fn len(&self) -> (count: usize)
        requires
            self.well_formed(),
        ensures
            count == self@.len(),
            self@.finite(),
    {
        proof {
            self.listing().unique_seq_to_set();
            vstd::seq_lib::seq_to_set_is_finite(self.listing());
        }
        self.entries.len()
    }

    fn position(&self, relative: &String) -> (at: Option<usize>)
        ensures
            match at {
                Some(i) => i < self.listing().len() && self.listing()[i as int] == relative@,
                None => !self@.contains(relative@),
            },
    {
        let mut i: usize = 0;
        while i < self.entries.len()
            invariant
                i <= self.entries.len(),
                forall|j: int| 0 <= j < i ==> self.listing()[j] != relative@,
            decreases self.entries.len() - i,
        {
            if self.entries[i].path == *relative {
                return Some(i);
            }
            i += 1;
        }
        None
    }

    /// Whether the relative path `relative` is indexed.
    pub fn contains(&self, relative: &str) -> (found: bool)
        requires
            self.well_formed(),
        ensures
            found == self@.contains(relative@),
    {
        self.known.contains(relative)
    }

    /// The indexed paths, each once, as a copy that later changes of the index leave
    /// alone.
    pub fn snapshot(&self) -> (paths: Vec<String>)
        ensures
            texts(paths@) == self.listing(),
    {
        let mut paths: Vec<String> = Vec::new();
        let mut i: usize = 0;
        while i < self.entries.len()
            invariant
                i <= self.entries.len(),
                paths.len() == i,
                forall|j: int| 0 <= j < i ==> paths@[j]@ == self.entries@[j]@,
            decreases self.entries.len() - i,
        {
            paths.push(self.entries[i].path.clone());
            i += 1;
        }
        assert(texts(paths@) =~= self.listing());
        paths
    }

    /// The absolute path of the place that `relative` names under the root.
    pub fn absolute_path(&self, relative: &str) -> (path: String)
        ensures
            path@ == join(self.root_view(), relative@),
    {
        join_root(self.root.as_str(), relative)
    }

    /// Brings the outcome of a resolution into the form relative to the root: a
    /// resolved path is stripped of the root, `PathOutsideRoot` where it does not
    /// lie under it; a failed resolution is passed on.
    pub fn canonical_relative_path(&self, resolved: &Result<String, PathError>) -> (relative:
        Result<String, PathError>)
        ensures
            text_of(relative) == normalized(self.root_view(), text_of(*resolved)),
    {
        normalize(self.root.as_str(), resolved)
    }

    /// Inserts the path that a resolution gave, in its form relative to the root.
    /// A path that is held already, a failed resolution and a path outside the root
    /// leave the set as it is; the result tells the last two apart from success.
    pub fn insert(&mut self, resolved: &Result<String, PathError>) -> (outcome: Result<
        (),
        PathError,
    >)
        requires
            old(self).well_formed(),
        ensures
            final(self).well_formed(),
            final(self).root_view() == old(self).root_view(),
            final(self)@ == inserted(old(self)@, old(self).root_view(), text_of(*resolved)),
            outcome == verdict(normalized(old(self).root_view(), text_of(*resolved))),
    {
        match normalize(self.root.as_str(), resolved) {
            Ok(relative) => {
                proof {
                    lemma_relative_is_normalized(resolved->Ok_0@, self.root@);
                }
                if self.known.contains(relative.as_str()) {
                    assert(self@ =~= self@.insert(relative@));
                } else {
                    let ghost before = self.listing();
                    self.known.insert(relative.clone());
                    self.entries.push(FileEntry { path: relative });
                    proof {
                        let after = self.listing();
                        assert(after =~= before.push(relative@));
                        assert forall|p: Seq<char>| after.contains(p) <==> (before.contains(p)
                            || p == relative@) by {
                            if before.contains(p) {
                                let k = choose|k: int| 0 <= k < before.len() && before[k] == p;
                                assert(after[k] == p);
                            }
                            if p == relative@ {
                                assert(after[before.len() as int] == p);
                            }
                        }
                        assert(self@ =~= old(self)@.insert(relative@));
                    }
                }
                Ok(())
            },
            Err(e) => Err(e),
        }
    }

    /// Removes the path that a resolution gave, in its form relative to the root.
    /// A path that is not held, a failed resolution and a path outside the root
    /// leave the set as it is; the result tells the last two apart from success.
    pub fn remove(&mut self, resolved: &Result<String, PathError>) -> (outcome: Result<
        (),
        PathError,
    >)
        requires
            old(self).well_formed(),
        ensures
            final(self).well_formed(),
            final(self).root_view() == old(self).root_view(),
            final(self)@ == removed(old(self)@, old(self).root_view(), text_of(*resolved)),
            outcome == verdict(normalized(old(self).root_view(), text_of(*resolved))),
    {
        match normalize(self.root.as_str(), resolved) {
            Ok(relative) => {
                if self.known.remove(relative.as_str()) {
                    assert(self@.contains(relative@));
                    match self.position(&relative) {
                        Some(i) => {
                            let ghost before = self.listing();
                            self.entries.remove(i);
                            proof {
                                let after = self.listing();
                                assert(after =~= before.remove(i as int));
                                assert forall|p: Seq<char>| after.contains(p) <==> (
                                before.contains(p) && p != relative@) by {
                                    if after.contains(p) {
                                        let k = choose|k: int|
                                            0 <= k < after.len() && after[k] == p;
                                        if k < i {
                                            assert(before[k] == p);
                                        } else {
                                            assert(before[k + 1] == p);
                                        }
                                    }
                                    if before.contains(p) && p != relative@ {
                                        let k = choose|k: int|
                                            0 <= k < before.len() && before[k] == p;
                                        if k < i {
                                            assert(after[k] == p);
                                        } else {
                                            assert(after[k - 1] == p);
                                        }
                                    }
                                }
                                assert(self@ =~= old(self)@.remove(relative@));
                            }
                        },
                        None => {},
                    }
                } else {
                    assert(self@ =~= self@.remove(relative@));
                }
                Ok(())
            },
            Err(e) => Err(e),
        }
    }

}

/// One more item adds to the scanned set the relative form of its resolved path, if
/// it reports a regular file, and nothing otherwise.
proof fn lemma_scanned_next(root: Seq<char>, items: Seq<WalkItem>, done: int)
    requires
        0 <= done < items.len(),
    ensures
        scanned(root, items.take(done + 1)) == match items[done] {
            WalkItem::Entry { resolved, is_file } if is_file => inserted(
                scanned(root, items.take(done)),
                root,
                text_of(resolved),
            ),
            _ => scanned(root, items.take(done)),
        },
{
    let earlier = items.take(done);
    let now = items.take(done + 1);
    let before = scanned(root, earlier);
    let after = scanned(root, now);
    let expected = match items[done] {
        WalkItem::Entry { resolved, is_file } if is_file => inserted(
            before,
            root,
            text_of(resolved),
        ),
        _ => before,
    };
    assert forall|relative: Seq<char>| after.contains(relative) <==> expected.contains(
        relative,
    ) by {
        if after.contains(relative) {
            let i = choose|i: int| 0 <= i < now.len() && indexes(root, #[trigger] now[i], relative);
            if i < done {
                assert(indexes(root, earlier[i], relative));
            }
        }
        if before.contains(relative) {
            let i = choose|i: int|
                0 <= i < earlier.len() && indexes(root, #[trigger] earlier[i], relative);
            assert(indexes(root, now[i], relative));
        }
        if indexes(root, items[done], relative) {
            assert(indexes(root, now[done], relative));
        }
    }
    assert(after =~= expected);
}

/// Inserting a path a second time leaves the set as the first insertion made it.
pub proof fn lemma_insert_idempotent(
    entries: Set<Seq<char>>,
    root: Seq<char>,
    resolved: Result<Seq<char>, PathError>,
)
    ensures
        inserted(inserted(entries, root, resolved), root, resolved) == inserted(
            entries,
            root,
            resolved,
        ),
{
    assert(inserted(inserted(entries, root, resolved), root, resolved) =~= inserted(
        entries,
        root,
        resolved,
    ));
}

/// Removing a path that the set does not hold leaves the set unchanged.
pub proof fn lemma_remove_absent(
    entries: Set<Seq<char>>,
    root: Seq<char>,
    resolved: Result<Seq<char>, PathError>,
)
    requires
        normalized(root, resolved) matches Ok(relative) ==> !entries.contains(relative),
    ensures
        removed(entries, root, resolved) == entries,
{
    assert(removed(entries, root, resolved) =~= entries);
}

/// A path that was removed is not held, whatever was inserted before.
pub proof fn lemma_removed_is_absent(
    entries: Set<Seq<char>>,
    root: Seq<char>,
    resolved: Result<Seq<char>, PathError>,
)
    ensures
        normalized(root, resolved) matches Ok(relative) ==> !removed(
            entries,
            root,
            resolved,
        ).contains(relative),
{
}

/// A path that does not lie under the root is never inserted: the set stays as it is.
pub proof fn lemma_outside_root_is_rejected(
    entries: Set<Seq<char>>,
    root: Seq<char>,
    absolute: Seq<char>,
)
    requires
        relative_to(absolute, root) is None,
    ensures
        inserted(entries, root, Ok(absolute)) == entries,
        removed(entries, root, Ok(absolute)) == entries,
{
}

/// Containment of what is inserted: a path that an insertion adds comes from a
/// resolution that succeeded; it is relative, in normal form and free of `..`, and
/// taken from the root on it has the very components of the resolved path, so it
/// names the place of that path under the root.
pub proof fn lemma_inserted_path_lies_under_root(
    entries: Set<Seq<char>>,
    root: Seq<char>,
    resolved: Result<Seq<char>, PathError>,
    relative: Seq<char>,
)
    requires
        inserted(entries, root, resolved).contains(relative),
        !entries.contains(relative),
    ensures
        resolved is Ok,
        is_normalized(relative),
        !is_absolute(relative),
        components(join(root, relative)) == components(resolved->Ok_0),
        relative_to(join(root, relative), root) == Some(relative),
{
    let path = resolved->Ok_0;
    let all = components(path);
    let rest = all.skip(components(root).len() as int);
    lemma_relative_is_normalized(path, root);
    lemma_joined_is_under_root(root, relative);
    lemma_components_are_names(path);
    assert forall|i: int| 0 <= i < rest.len() implies is_name(#[trigger] rest[i]) by {
        assert(rest[i] == all[i + components(root).len()]);
    }
    lemma_components_of_rendered(rest);
    assert(components(root) + rest =~= all);
}

/// Containment: every path that a well-formed index holds is relative, in normal
/// form and free of `..`; taken from the root on, it has the components of the
/// root followed by its own, so it names a place under the root, and it is the
/// relative form of that place.
pub proof fn lemma_entries_lie_under_root(index: FileIndex, relative: Seq<char>)
    requires
        index.well_formed(),
        index@.contains(relative),
    ensures
        is_normalized(relative),
        !is_absolute(relative),
        components(join(index.root_view(), relative)) == components(index.root_view())
            + components(relative),
        is_resolved(join(index.root_view(), relative)),
        relative_to(join(index.root_view(), relative), index.root_view()) == Some(relative),
{
    let i = choose|i: int| 0 <= i < index.listing().len() && index.listing()[i] == relative;
    assert(is_normalized(index.listing()[i]));
    lemma_joined_is_under_root(index.root_view(), relative);
    lemma_components_are_names(relative);
    lemma_rendered_is_normalized(components(relative));
}

} // verus!
