use vstd::prelude::*;
use gix::object::tree::diff::ChangeDetached;
use vstd::string::StringSliceAdditionalSpecFns;
use crate::branch_visibility::bytes_as_str;
use crate::changes::FileStatus;
use crate::git_types::{commit_parents, commit_tree_id, find_commit, find_tree, oid_as_bytes, oid_bytes, oid_eq};
use crate::oids::{git2_oid_bytes, git2_to_gix_oid};
use crate::paths::{components, components_view, path_components};
use crate::text::{normalize_path_chars, normalize_path_seq, str_chars, string_from_chars};

verus! {

/// The mode of a tree entry: its value and whether it is a tree, a symlink or a submodule.
#[derive(Clone, Copy, Debug, PartialEq, Eq, Structural)]
pub struct EntryKind {
    pub mode: u16,
    pub is_tree: bool,
    pub is_link: bool,
    pub is_commit: bool,
}

/// Whether an entry changed between a tree, a symlink, a submodule and a file.
pub open spec fn is_typechange(previous: EntryKind, current: EntryKind) -> bool {
    previous.is_tree != current.is_tree || previous.is_link != current.is_link || previous.is_commit != current.is_commit
}

pub fn typechange(previous: EntryKind, current: EntryKind) -> (b: bool)
    ensures
        b == is_typechange(previous, current),
{
    previous.is_tree != current.is_tree || previous.is_link != current.is_link || previous.is_commit != current.is_commit
}

/// A change between two trees, as the tree diff reports it.
pub enum TreeChange {
    Addition { location: Vec<u8>, kind: EntryKind, id: gix::ObjectId },
    Deletion { location: Vec<u8>, kind: EntryKind, id: gix::ObjectId },
    Modification { location: Vec<u8>, previous: EntryKind, current: EntryKind },
    Rewrite { source_location: Vec<u8>, location: Vec<u8>, copy: bool },
}

/// The status of `path` that a change implies, if it concerns the path: an addition or deletion
/// at the path, a modification (a type change counts as a deletion), or a rewrite to the path
/// (added when copied, renamed when moved) or away from it (renamed, unless copied).
pub open spec fn status_from_change(change: TreeChange, path: Seq<u8>) -> Option<FileStatus> {
    match change {
        TreeChange::Addition { location, .. } => if location@ == path { Some(FileStatus::Added) } else { None },
        TreeChange::Deletion { location, .. } => if location@ == path { Some(FileStatus::Deleted) } else { None },
        TreeChange::Modification { location, previous, current } => if location@ == path {
            Some(if is_typechange(previous, current) { FileStatus::Deleted } else { FileStatus::Modified })
        } else {
            None
        },
        TreeChange::Rewrite { source_location, location, copy } => if location@ == path {
            Some(if copy { FileStatus::Added } else { FileStatus::Renamed })
        } else if !copy && source_location@ == path {
            Some(FileStatus::Renamed)
        } else {
            None
        },
    }
}

fn bytes_eq(a: &[u8], b: &[u8]) -> (r: bool)
    ensures
        r == (a@ == b@),
{
    if a.len() != b.len() {
        return false;
    }
    let mut i: usize = 0;
    while i < a.len()
        invariant
            i <= a@.len(),
            a@.len() == b@.len(),
            forall|k: int| 0 <= k < i ==> a@[k] == b@[k],
        decreases a@.len() - i,
    {
        if a[i] != b[i] {
            return false;
        }
        i += 1;
    }
    assert(a@ =~= b@);
    true
}

pub fn file_status_from_change(change: &TreeChange, path: &[u8]) -> (r: Option<FileStatus>)
    ensures
        r == status_from_change(*change, path@),
{
    match change {
        TreeChange::Addition { location, .. } => if bytes_eq(location.as_slice(), path) { Some(FileStatus::Added) } else { None },
        TreeChange::Deletion { location, .. } => if bytes_eq(location.as_slice(), path) { Some(FileStatus::Deleted) } else { None },
        TreeChange::Modification { location, previous, current } => if bytes_eq(location.as_slice(), path) {
            Some(if typechange(*previous, *current) { FileStatus::Deleted } else { FileStatus::Modified })
        } else {
            None
        },
        TreeChange::Rewrite { source_location, location, copy } => if bytes_eq(location.as_slice(), path) {
            Some(if *copy { FileStatus::Added } else { FileStatus::Renamed })
        } else if !*copy && bytes_eq(source_location.as_slice(), path) {
            Some(FileStatus::Renamed)
        } else {
            None
        },
    }
}

/// The status from the first of the first `n` changes that concerns `path`.
pub open spec fn first_status(changes: Seq<TreeChange>, path: Seq<u8>, n: int) -> Option<FileStatus>
    decreases n,
{
    if n <= 0 {
        None
    } else {
        match first_status(changes, path, n - 1) {
            Some(s) => Some(s),
            None => status_from_change(changes[n - 1], path),
        }
    }
}

/// The status of `path` from the first change that concerns it.
pub fn status_from_changes(changes: &Vec<TreeChange>, path: &[u8]) -> (r: Option<FileStatus>)
    ensures
        r == first_status(changes@, path@, changes@.len() as int),
{
    let mut i: usize = 0;
    while i < changes.len()
        invariant
            i <= changes@.len(),
            first_status(changes@, path@, i as int) is None,
        decreases changes@.len() - i,
    {
        if let Some(status) = file_status_from_change(&changes[i], path) {
            proof {
                lemma_first_status_stays(changes@, path@, i + 1, changes@.len() as int);
            }
            return Some(status);
        }
        i += 1;
    }
    None
}

proof fn lemma_first_status_stays(changes: Seq<TreeChange>, path: Seq<u8>, i: int, n: int)
    requires
        0 <= i <= n,
        first_status(changes, path, i) is Some,
    ensures
        first_status(changes, path, n) == first_status(changes, path, i),
    decreases n - i,
{
    if i < n {
        lemma_first_status_stays(changes, path, i, n - 1);
    }
}

/// What looking the path up in both trees says.
#[derive(Clone, Copy, Debug, PartialEq, Eq, Structural)]
pub enum PathLookupStatus {
    Changed(FileStatus),
    Unchanged,
    NeedsRenameDetection,
}

/// An entry found at the path: its id and mode.
pub struct EntryIdentity {
    pub id: gix::ObjectId,
    pub kind: EntryKind,
}

pub open spec fn same_identity(a: EntryIdentity, b: EntryIdentity) -> bool {
    oid_bytes(a.id) == oid_bytes(b.id) && a.kind == b.kind
}

fn same_identity_exec(a: &EntryIdentity, b: &EntryIdentity) -> (r: bool)
    ensures
        r == same_identity(*a, *b),
{
    oid_eq(&a.id, &b.id) && a.kind == b.kind
}

/// The next step after looking the path up: in which case the exact-path checks for a missing
/// or a new path are needed.
#[derive(Clone, Copy, Debug, PartialEq, Eq, Structural)]
pub enum LookupStep {
    Done(PathLookupStatus),
    CheckMissing,
    CheckNew,
}

/// The decision table on the entries at the path in the parent tree and in the commit's tree:
/// the same entry is unchanged, a type change reads as a deletion, another change as a
/// modification; a path only in a root commit is added; a path gone or new needs the exact
/// checks; anything else the rename detection.
pub open spec fn lookup_step(parent: Option<EntryIdentity>, current: Option<EntryIdentity>, has_parent_tree: bool) -> LookupStep {
    match (parent, current) {
        (Some(p), Some(c)) => if same_identity(p, c) {
            LookupStep::Done(PathLookupStatus::Unchanged)
        } else if is_typechange(p.kind, c.kind) {
            LookupStep::Done(PathLookupStatus::Changed(FileStatus::Deleted))
        } else {
            LookupStep::Done(PathLookupStatus::Changed(FileStatus::Modified))
        },
        (None, Some(_)) => if !has_parent_tree { LookupStep::Done(PathLookupStatus::Changed(FileStatus::Added)) } else { LookupStep::CheckNew },
        (Some(_), None) => LookupStep::CheckMissing,
        (None, None) => LookupStep::Done(PathLookupStatus::NeedsRenameDetection),
    }
}

pub fn path_lookup_step(parent: &Option<EntryIdentity>, current: &Option<EntryIdentity>, has_parent_tree: bool) -> (r: LookupStep)
    ensures
        r == lookup_step(*parent, *current, has_parent_tree),
{
    match (parent, current) {
        (Some(p), Some(c)) => if same_identity_exec(p, c) {
            LookupStep::Done(PathLookupStatus::Unchanged)
        } else if typechange(p.kind, c.kind) {
            LookupStep::Done(PathLookupStatus::Changed(FileStatus::Deleted))
        } else {
            LookupStep::Done(PathLookupStatus::Changed(FileStatus::Modified))
        },
        (None, Some(_)) => if !has_parent_tree { LookupStep::Done(PathLookupStatus::Changed(FileStatus::Added)) } else { LookupStep::CheckNew },
        (Some(_), None) => LookupStep::CheckMissing,
        (None, None) => LookupStep::Done(PathLookupStatus::NeedsRenameDetection),
    }
}

/// The status of a path gone from the commit's tree: renamed when the same entry sits under
/// another name in the same directory or was added elsewhere, else deleted.
pub fn missing_path_status(same_directory_copy: bool, added_elsewhere: bool) -> (r: PathLookupStatus)
    ensures
        r == PathLookupStatus::Changed(if same_directory_copy || added_elsewhere { FileStatus::Renamed } else { FileStatus::Deleted }),
{
    if same_directory_copy || added_elsewhere {
        PathLookupStatus::Changed(FileStatus::Renamed)
    } else {
        PathLookupStatus::Changed(FileStatus::Deleted)
    }
}

/// The status of a path new in the commit's tree, given whether a same entry was found under
/// another name and, if so, whether that source still exists: added when no source or the source
/// stays, renamed when the source went away.
pub fn new_path_status(source_still_exists: Option<bool>) -> (r: PathLookupStatus)
    ensures
        r == PathLookupStatus::Changed(match source_still_exists {
            Some(false) => FileStatus::Renamed,
            _ => FileStatus::Added,
        }),
{
    match source_still_exists {
        Some(false) => PathLookupStatus::Changed(FileStatus::Renamed),
        _ => PathLookupStatus::Changed(FileStatus::Added),
    }
}

/// A cache of file statuses by repository path, commit id bytes and normalised file path.
pub struct FileStatusCache {
    pub entries: Vec<(String, Vec<u8>, String, Option<FileStatus>)>,
}

pub open spec fn cache_key_matches(e: (String, Vec<u8>, String, Option<FileStatus>), repo: Seq<char>, oid: Seq<u8>, path: Seq<char>) -> bool {
    e.0@ == repo && e.1@ == oid && e.2@ == path
}

impl FileStatusCache {
    pub fn new() -> (c: FileStatusCache)
        ensures
            c.entries@.len() == 0,
    {
        FileStatusCache { entries: Vec::new() }
    }

    /// The cached status, if the key was stored.
    pub fn get(&self, repo: &String, oid: &Vec<u8>, path: &String) -> (r: Option<Option<FileStatus>>)
        ensures
            match r {
                Some(s) => exists|k: int| 0 <= k < self.entries@.len() && cache_key_matches(#[trigger] self.entries@[k], repo@, oid@, path@) && self.entries@[k].3 == s,
                None => forall|k: int| 0 <= k < self.entries@.len() ==> !cache_key_matches(#[trigger] self.entries@[k], repo@, oid@, path@),
            },
    {
        let mut i: usize = 0;
        while i < self.entries.len()
            invariant
                i <= self.entries@.len(),
                forall|k: int| 0 <= k < i ==> !cache_key_matches(#[trigger] self.entries@[k], repo@, oid@, path@),
            decreases self.entries@.len() - i,
        {
            let e = &self.entries[i];
            if e.0 == *repo && e.2 == *path && bytes_eq(e.1.as_slice(), oid.as_slice()) {
                assert(cache_key_matches(self.entries@[i as int], repo@, oid@, path@));
                return Some(e.3);
            }
            i += 1;
        }
        None
    }

    /// Store a status under a key, replacing the status stored under it before.
    pub fn insert(&mut self, repo: String, oid: Vec<u8>, path: String, status: Option<FileStatus>)
        ensures
            (exists|k: int| 0 <= k < old(self).entries@.len() && cache_key_matches(#[trigger] old(self).entries@[k], repo@, oid@, path@)) ==> {
                let k = choose|k: int| 0 <= k < old(self).entries@.len() && cache_key_matches(#[trigger] old(self).entries@[k], repo@, oid@, path@)
                    && forall|j: int| 0 <= j < k ==> !cache_key_matches(#[trigger] old(self).entries@[j], repo@, oid@, path@);
                &&& final(self).entries@.len() == old(self).entries@.len()
                &&& forall|j: int| 0 <= j < old(self).entries@.len() && j != k ==> #[trigger] final(self).entries@[j] == old(self).entries@[j]
                &&& cache_key_matches(final(self).entries@[k], repo@, oid@, path@)
                &&& final(self).entries@[k].3 == status
            },
            !(exists|k: int| 0 <= k < old(self).entries@.len() && cache_key_matches(#[trigger] old(self).entries@[k], repo@, oid@, path@)) ==>
                final(self).entries@ == old(self).entries@.push((repo, oid, path, status)),
    {
        let mut i: usize = 0;
        while i < self.entries.len()
            invariant
                i <= self.entries@.len(),
                self.entries@ == old(self).entries@,
                forall|k: int| 0 <= k < i ==> !cache_key_matches(#[trigger] self.entries@[k], repo@, oid@, path@),
            decreases self.entries@.len() - i,
        {
            let matches = {
                let e = &self.entries[i];
                e.0 == repo && e.2 == path && bytes_eq(e.1.as_slice(), oid.as_slice())
            };
            if matches {
                proof {
                    let c = choose|k: int| 0 <= k < old(self).entries@.len() && cache_key_matches(#[trigger] old(self).entries@[k], repo@, oid@, path@)
                        && forall|j: int| 0 <= j < k ==> !cache_key_matches(#[trigger] old(self).entries@[j], repo@, oid@, path@);
                    assert(cache_key_matches(old(self).entries@[i as int], repo@, oid@, path@));
                    if c < i {
                        assert(!cache_key_matches(old(self).entries@[c], repo@, oid@, path@));
                    }
                    if i < c {
                        assert(!cache_key_matches(old(self).entries@[i as int], repo@, oid@, path@));
                    }
                }
                let ghost before = self.entries@;
                self.entries.set(i, (repo, oid, path, status));
                return;
            }
            i += 1;
        }
        self.entries.push((repo, oid, path, status));
    }

    /// Forget every cached status.
    pub fn clear(&mut self)
        ensures
            final(self).entries@.len() == 0,
    {
        self.entries.clear();
    }
}

/// Forget the cached file statuses.
pub fn clear_changed_file_status_cache(cache: &mut FileStatusCache)
    ensures
        final(cache).entries@.len() == 0,
{
    cache.clear();
}


#[verifier::external_type_specification]
#[verifier::external_body]
pub struct ExEntryMode(gix::object::tree::EntryMode);

/// `EntryMode::value`, `is_tree`, `is_link` and `is_commit` of a tree entry mode.
#[verifier::external_body]
fn entry_kind_of(mode: gix::object::tree::EntryMode) -> EntryKind {
    EntryKind { mode: mode.value(), is_tree: mode.is_tree(), is_link: mode.is_link(), is_commit: mode.is_commit() }
}

/// The tree id of commit `oid`, and that of its first parent where it has one.
fn commit_tree_ids(repo: &gix::Repository, oid: gix::ObjectId) -> Result<(gix::ObjectId, Option<gix::ObjectId>), git2::Error> {
    let commit = find_commit(repo, oid)?;
    let tree_id = commit_tree_id(&commit)?;
    let parents = commit_parents(&commit);
    if parents.len() == 0 {
        return Ok((tree_id, None));
    }
    let parent = find_commit(repo, parents[0])?;
    let parent_tree = commit_tree_id(&parent)?;
    Ok((tree_id, Some(parent_tree)))
}

/// `Tree::find_entry(name)`: the entry named `name` at the tree's top level. What the tree
/// holds decides, so nothing is stated.
#[verifier::external_body]
fn tree_entry_named(tree: &gix::Tree<'_>, name: &[u8]) -> Option<EntryIdentity> {
    tree.find_entry(name).map(|entry| EntryIdentity { id: entry.object_id(), kind: entry_kind_of(entry.mode()) })
}

/// `Tree::lookup_entry_by_path(path)`. What the trees hold decides, so nothing is stated.
#[verifier::external_body]
pub(crate) fn tree_entry_at(tree: &gix::Tree<'_>, path: &str) -> Result<Option<EntryIdentity>, git2::Error> {
    let entry = tree.lookup_entry_by_path(path).map_err(|e| git2::Error::from_str(&e.to_string()))?;
    Ok(entry.map(|entry| EntryIdentity { id: entry.object_id(), kind: entry_kind_of(entry.mode()) }))
}

/// `Tree::iter`: the top-level entries (name, id, mode) in tree order, or the first error.
/// What the tree holds decides, so nothing is stated.
#[verifier::external_body]
fn tree_entry_list(tree: &gix::Tree<'_>) -> Result<Vec<(Vec<u8>, EntryIdentity)>, git2::Error> {
    let mut out = Vec::new();
    for entry in tree.iter() {
        let entry = entry.map_err(|e| git2::Error::from_str(&e.to_string()))?;
        out.push((entry.filename().to_vec(), EntryIdentity { id: entry.oid().to_owned(), kind: entry_kind_of(entry.mode()) }));
    }
    Ok(out)
}

/// The entry named `name` at the top level of the tree `tree_id`.
fn tree_find_entry(repo: &gix::Repository, tree_id: gix::ObjectId, name: &[u8]) -> Result<Option<EntryIdentity>, git2::Error> {
    let tree = find_tree(repo, tree_id)?;
    Ok(tree_entry_named(&tree, name))
}

/// The entry at `path` in the tree `tree_id`.
fn tree_lookup_path(repo: &gix::Repository, tree_id: gix::ObjectId, path: &str) -> Result<Option<EntryIdentity>, git2::Error> {
    let tree = find_tree(repo, tree_id)?;
    tree_entry_at(&tree, path)
}

/// The top-level entries of the tree `tree_id`.
fn tree_entries(repo: &gix::Repository, tree_id: gix::ObjectId) -> Result<Vec<(Vec<u8>, EntryIdentity)>, git2::Error> {
    let tree = find_tree(repo, tree_id)?;
    tree_entry_list(&tree)
}

#[verifier::external_type_specification]
#[verifier::external_body]
pub struct ExChangeDetached(gix::object::tree::diff::ChangeDetached);

/// A tree change as gix reports it, with the entry modes still to be read.
pub enum RawTreeChange {
    Addition { location: Vec<u8>, mode: gix::object::tree::EntryMode, id: gix::ObjectId },
    Deletion { location: Vec<u8>, mode: gix::object::tree::EntryMode, id: gix::ObjectId },
    Modification { location: Vec<u8>, previous: gix::object::tree::EntryMode, current: gix::object::tree::EntryMode },
    Rewrite { source_location: Vec<u8>, location: Vec<u8>, copy: bool },
}

/// `Repository::diff_tree_to_tree` with path tracking, and with the default rewrite tracking
/// when `rewrites` is set. What the trees hold decides, so nothing is stated.
#[verifier::external_body]
fn diff_trees(repo: &gix::Repository, parent: Option<&gix::Tree<'_>>, tree: &gix::Tree<'_>, rewrites: bool) -> Result<Vec<ChangeDetached>, git2::Error> {
    let mut options = gix::diff::Options::default();
    options.track_path().track_rewrites(if rewrites { Some(gix::diff::Rewrites::default()) } else { None });
    repo.diff_tree_to_tree(parent, Some(tree), Some(options)).map_err(|e| git2::Error::from_str(&e.to_string()))
}

/// The changes from the tree `parent_tree` (none: the empty tree) to the tree `tree` (see
/// `diff_trees`).
fn tree_diff(repo: &gix::Repository, parent_tree: Option<gix::ObjectId>, tree: gix::ObjectId, rewrites: bool) -> Result<Vec<ChangeDetached>, git2::Error> {
    let tree = find_tree(repo, tree)?;
    match parent_tree {
        Some(id) => {
            let parent = find_tree(repo, id)?;
            diff_trees(repo, Some(&parent), &tree, rewrites)
        },
        None => diff_trees(repo, None, &tree, rewrites),
    }
}

/// The variant of a detached change with its location, modes, id and copy flag moved out.
#[verifier::external_body]
fn raw_tree_change(change: gix::object::tree::diff::ChangeDetached) -> RawTreeChange {
    match change {
        ChangeDetached::Addition { location, entry_mode, id, .. } => RawTreeChange::Addition { location: location.into(), mode: entry_mode, id },
        ChangeDetached::Deletion { location, entry_mode, id, .. } => RawTreeChange::Deletion { location: location.into(), mode: entry_mode, id },
        ChangeDetached::Modification { location, previous_entry_mode, entry_mode, .. } => RawTreeChange::Modification { location: location.into(), previous: previous_entry_mode, current: entry_mode },
        ChangeDetached::Rewrite { source_location, location, copy, .. } => RawTreeChange::Rewrite { source_location: source_location.into(), location: location.into(), copy },
    }
}

/// The changes between two trees (see `tree_diff`), with the kind of each entry read from its mode.
fn tree_changes(repo: &gix::Repository, parent_tree: Option<gix::ObjectId>, tree: gix::ObjectId, rewrites: bool) -> Result<Vec<TreeChange>, git2::Error> {
    let changes = match tree_diff(repo, parent_tree, tree, rewrites) {
        Ok(changes) => changes,
        Err(e) => {
            return Err(e);
        },
    };
    let mut out: Vec<TreeChange> = Vec::new();
    for change in changes {
        let converted = match raw_tree_change(change) {
            RawTreeChange::Addition { location, mode, id } => TreeChange::Addition { location, kind: entry_kind_of(mode), id },
            RawTreeChange::Deletion { location, mode, id } => TreeChange::Deletion { location, kind: entry_kind_of(mode), id },
            RawTreeChange::Modification { location, previous, current } => TreeChange::Modification { location, previous: entry_kind_of(previous), current: entry_kind_of(current) },
            RawTreeChange::Rewrite { source_location, location, copy } => TreeChange::Rewrite { source_location, location, copy },
        };
        out.push(converted);
    }
    Ok(out)
}

/// The single name component of a path at a tree's top level: `Some(Some(name))` for one name,
/// `Some(None)` for a top-level path without a name (empty, `/`, `..`), `None` for a nested path.
fn top_level_name(path: &Vec<char>) -> (r: Option<Option<Vec<char>>>)
    ensures
        ({
            let c = path_components(path@);
            match r {
                None => c.len() > 1,
                Some(None) => c.len() == 0 || (c.len() == 1 && c[0].0 != 4),
                Some(Some(name)) => c.len() == 1 && c[0].0 == 4 && c[0].1 == name@,
            }
        }),
{
    let comps = components(path);
    if comps.len() > 1 {
        return None;
    }
    if comps.len() == 1 && comps[0].kind == 4 {
        let name = comps[0].name.clone();
        assert(components_view(comps@)[0] == (comps@[0].kind, comps@[0].name@));
        return Some(Some(name));
    }
    assert(comps@.len() == 1 ==> components_view(comps@)[0].0 == comps@[0].kind);
    Some(None)
}

/// The entry at `path` in the tree: by name at the top level, else by path.
fn tree_entry_identity(repo: &gix::Repository, tree_id: gix::ObjectId, path: &Vec<char>) -> (r: Result<Option<EntryIdentity>, git2::Error>)
    ensures
        path_components(path@).len() == 0 || (path_components(path@).len() == 1 && path_components(path@)[0].0 != 4) ==> r matches Ok(None),
{
    match top_level_name(path) {
        Some(None) => Ok(None),
        Some(Some(name)) => {
            let text = string_from_chars(&name);
            tree_find_entry(repo, tree_id, text.as_str().as_bytes())
        },
        None => {
            let text = string_from_chars(path);
            tree_lookup_path(repo, tree_id, text.as_str())
        },
    }
}

/// Another top-level entry of the tree with the same id and mode as `wanted`, when `path` is at
/// the top level: its name (an error when the name is not UTF-8).
fn same_directory_exact_entry_path(repo: &gix::Repository, tree_id: gix::ObjectId, path: &Vec<char>, wanted: &EntryIdentity) -> (r: Result<Option<String>, git2::Error>)
    ensures
        !(path_components(path@).len() == 1 && path_components(path@)[0].0 == 4) ==> r matches Ok(None),
{
    let name = match top_level_name(path) {
        Some(Some(name)) => name,
        _ => {
            return Ok(None);
        },
    };
    let name_text = string_from_chars(&name);
    let name_bytes = name_text.as_str().as_bytes();
    let entries = match tree_entries(repo, tree_id) {
        Ok(entries) => entries,
        Err(e) => {
            return Err(e);
        },
    };
    let mut i: usize = 0;
    while i < entries.len()
        invariant
            path_components(path@).len() == 1 && path_components(path@)[0].0 == 4,
            i <= entries@.len(),
        decreases entries@.len() - i,
    {
        let (filename, entry) = &entries[i];
        if !bytes_eq(filename.as_slice(), name_bytes) && same_identity_exec(entry, wanted) {
            return match bytes_as_str(filename.as_slice()) {
                Some(text) => Ok(Some(text.to_string())),
                None => Err(crate::git_types::error_from_message("tree entry name is not valid UTF-8")),
            };
        }
        i += 1;
    }
    Ok(None)
}

/// Whether a change adds (`additions`) or deletes the entry `wanted` at a path other than `path`.
pub open spec fn moves_entry(c: TreeChange, path: Seq<u8>, wanted: EntryIdentity, additions: bool) -> bool {
    match c {
        TreeChange::Addition { location, kind, id } => additions && location@ != path && oid_bytes(id) == oid_bytes(wanted.id) && kind == wanted.kind,
        TreeChange::Deletion { location, kind, id } => !additions && location@ != path && oid_bytes(id) == oid_bytes(wanted.id) && kind == wanted.kind,
        _ => false,
    }
}

/// The location of the first change from index `i` on that `moves_entry`.
pub open spec fn first_move(changes: Seq<TreeChange>, path: Seq<u8>, wanted: EntryIdentity, additions: bool, i: int) -> Option<Seq<u8>>
    decreases changes.len() - i,
{
    if i < 0 || i >= changes.len() {
        None
    } else if moves_entry(changes[i], path, wanted, additions) {
        match changes[i] {
            TreeChange::Addition { location, .. } => Some(location@),
            TreeChange::Deletion { location, .. } => Some(location@),
            _ => None,
        }
    } else {
        first_move(changes, path, wanted, additions, i + 1)
    }
}

/// The location of the first change that adds (`additions`) or deletes the entry `wanted` at a
/// path other than `path`.
fn moved_entry(changes: &Vec<TreeChange>, path: &[u8], wanted: &EntryIdentity, additions: bool) -> (r: Option<Vec<u8>>)
    ensures
        match r {
            Some(l) => first_move(changes@, path@, *wanted, additions, 0) == Some(l@),
            None => first_move(changes@, path@, *wanted, additions, 0) is None,
        },
        r matches Some(l) ==> l@ != path@,
{
    let mut i: usize = 0;
    while i < changes.len()
        invariant
            i <= changes@.len(),
            first_move(changes@, path@, *wanted, additions, 0) == first_move(changes@, path@, *wanted, additions, i as int),
        decreases changes@.len() - i,
    {
        match &changes[i] {
            TreeChange::Addition { location, kind, id } => {
                if additions && !bytes_eq(location.as_slice(), path) && oid_eq(id, &wanted.id) && *kind == wanted.kind {
                    return Some(location.clone());
                }
            },
            TreeChange::Deletion { location, kind, id } => {
                if !additions && !bytes_eq(location.as_slice(), path) && oid_eq(id, &wanted.id) && *kind == wanted.kind {
                    return Some(location.clone());
                }
            },
            _ => {},
        }
        i += 1;
    }
    None
}

/// Whether the entry at `source` in the tree is still `wanted`.
fn source_still_exists(repo: &gix::Repository, tree_id: gix::ObjectId, source: &str, wanted: &EntryIdentity) -> Result<bool, git2::Error> {
    match tree_lookup_path(repo, tree_id, source) {
        Ok(Some(entry)) => Ok(same_identity_exec(&entry, wanted)),
        Ok(None) => Ok(false),
        Err(e) => Err(e),
    }
}

/// How the file at `path` changed in commit `oid` against its first parent, if it did: by
/// looking the path up in both trees, with exact checks for a path that appeared or vanished,
/// and the tree diff with rename tracking when the lookups cannot tell.
pub fn changed_file_status_at_commit_from_repo(repo: &gix::Repository, oid: gix::ObjectId, path: &str) -> (r: Result<Option<FileStatus>, git2::Error>)
    ensures
        normalize_path_seq(path@).len() == 0 ==> r matches Ok(None),
{
    let normalized = normalize_path_chars(&str_chars(path));
    if normalized.len() == 0 {
        return Ok(None);
    }
    let path_text = string_from_chars(&normalized);
    let path_bytes = path_text.as_str().as_bytes();
    let (tree, parent_tree) = match commit_tree_ids(repo, oid) {
        Ok(ids) => ids,
        Err(e) => {
            return Err(e);
        },
    };
    let current = match tree_entry_identity(repo, tree, &normalized) {
        Ok(entry) => entry,
        Err(e) => {
            return Err(e);
        },
    };
    let parent = match parent_tree {
        Some(parent_tree) => match tree_entry_identity(repo, parent_tree, &normalized) {
            Ok(entry) => entry,
            Err(e) => {
                return Err(e);
            },
        },
        None => None,
    };
    let step = path_lookup_step(&parent, &current, parent_tree.is_some());
    let status = match step {
        LookupStep::Done(status) => status,
        LookupStep::CheckMissing => {
            match (&parent, parent_tree) {
                (Some(wanted), Some(parent_tree_id)) => {
                    let same_dir = match same_directory_exact_entry_path(repo, tree, &normalized, wanted) {
                        Ok(found) => found.is_some(),
                        Err(e) => {
                            return Err(e);
                        },
                    };
                    let added_elsewhere = if same_dir {
                        false
                    } else {
                        match tree_changes(repo, Some(parent_tree_id), tree, false) {
                            Ok(changes) => moved_entry(&changes, path_bytes, wanted, true).is_some(),
                            Err(e) => {
                                return Err(e);
                            },
                        }
                    };
                    missing_path_status(same_dir, added_elsewhere)
                },
                _ => PathLookupStatus::NeedsRenameDetection,
            }
        },
        LookupStep::CheckNew => {
            match (&current, parent_tree) {
                (Some(wanted), Some(parent_tree_id)) => {
                    let source = match same_directory_exact_entry_path(repo, parent_tree_id, &normalized, wanted) {
                        Ok(source) => source,
                        Err(e) => {
                            return Err(e);
                        },
                    };
                    let source = match source {
                        Some(source) => Some(source),
                        None => match tree_changes(repo, Some(parent_tree_id), tree, false) {
                            Ok(changes) => match moved_entry(&changes, path_bytes, wanted, false) {
                                Some(location) => match bytes_as_str(location.as_slice()) {
                                    Some(text) => Some(text.to_string()),
                                    None => {
                                        return Err(crate::git_types::error_from_message("moved path is not valid UTF-8"));
                                    },
                                },
                                None => None,
                            },
                            Err(e) => {
                                return Err(e);
                            },
                        },
                    };
                    let still = match source {
                        Some(source) => match source_still_exists(repo, tree, source.as_str(), wanted) {
                            Ok(still) => Some(still),
                            Err(e) => {
                                return Err(e);
                            },
                        },
                        None => None,
                    };
                    new_path_status(still)
                },
                _ => PathLookupStatus::Changed(FileStatus::Added),
            }
        },
    };
    match status {
        PathLookupStatus::Changed(s) => Ok(Some(s)),
        PathLookupStatus::Unchanged => Ok(None),
        PathLookupStatus::NeedsRenameDetection => match tree_changes(repo, parent_tree, tree, true) {
            Ok(changes) => Ok(status_from_changes(&changes, path_bytes)),
            Err(e) => Err(e),
        },
    }
}


/// Whether the cache holds `status` under the key of repository text `repo`, commit id bytes
/// `oid` and file path `path`.
pub open spec fn cache_holds(cache: FileStatusCache, repo: Seq<char>, oid: Seq<u8>, path: Seq<char>, status: Option<FileStatus>) -> bool {
    exists|k: int| 0 <= k < cache.entries@.len() && cache_key_matches(#[trigger] cache.entries@[k], repo, oid, path) && cache.entries@[k].3 == status
}

/// How the file at `path` changed in commit `oid` (see `changed_file_status_at_commit_from_repo`),
/// looked up first in `cache` under the repository's directory (working directory, else git
/// directory), the commit and the normalised path, and stored there once computed. An error
/// leaves the cache as it was; a success leaves the answer in it.
pub fn changed_file_status_at_commit(repo: &git2::Repository, oid: git2::Oid, path: &str, cache: &mut FileStatusCache) -> (r: Result<Option<FileStatus>, git2::Error>)
    ensures
        r is Err ==> final(cache).entries@ == old(cache).entries@,
        r matches Ok(status) ==> exists|repo_text: Seq<char>| #[trigger] cache_holds(*final(cache), repo_text, git2_oid_bytes(oid), normalize_path_seq(path@), status),
{
    let (workdir, git_dir) = crate::refs::git2_repo_dirs(repo);
    let repo_path = match workdir {
        Some(dir) => dir,
        None => git_dir,
    };
    let normalized = string_from_chars(&normalize_path_chars(&str_chars(path)));
    let gix_oid = git2_to_gix_oid(oid);
    let oid_vec = vstd::slice::slice_to_vec(oid_as_bytes(&gix_oid));
    match cache.get(&repo_path, &oid_vec, &normalized) {
        Some(status) => {
            assert(cache_holds(*cache, repo_path@, git2_oid_bytes(oid), normalize_path_seq(path@), status));
            return Ok(status);
        },
        None => {},
    }
    let gix_repo = crate::git_types::open_repo(repo_path.as_str())?;
    let status = changed_file_status_at_commit_from_repo(&gix_repo, gix_oid, normalized.as_str())?;
    let ghost key = (repo_path@, oid_vec@, normalized@);
    cache.insert(repo_path, oid_vec, normalized, status);
    proof {
        if exists|k: int| 0 <= k < old(cache).entries@.len() && cache_key_matches(#[trigger] old(cache).entries@[k], key.0, key.1, key.2) {
            let k = choose|k: int| 0 <= k < old(cache).entries@.len() && cache_key_matches(#[trigger] old(cache).entries@[k], key.0, key.1, key.2)
                && forall|j: int| 0 <= j < k ==> !cache_key_matches(#[trigger] old(cache).entries@[j], key.0, key.1, key.2);
            assert(cache_key_matches(cache.entries@[k], key.0, key.1, key.2));
        } else {
            assert(cache_key_matches(cache.entries@[cache.entries@.len() - 1], key.0, key.1, key.2));
        }
        assert(cache_holds(*cache, key.0, git2_oid_bytes(oid), normalize_path_seq(path@), status));
    }
    Ok(status)
}

} // verus!
