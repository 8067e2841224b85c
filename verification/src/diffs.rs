use vstd::prelude::*;
use crate::changes::{finalize_uncommitted_changes, push_unique, texts, FileChanges, FileStatus, UncommittedChanges};
use crate::paths::{components, components_start_with, components_view, path_components};
use crate::text::str_chars;
use crate::git_types::{oid_bytes, oid_eq};

verus! {

/// The kind of a change between the HEAD tree and the index.
#[derive(Clone, Copy, Debug, PartialEq, Eq, Structural)]
pub enum IndexChangeKind {
    Addition,
    Deletion,
    Modification,
    Rewrite,
}

/// The summary of a change between the index and the working tree.
#[derive(Clone, Copy, Debug, PartialEq, Eq, Structural)]
pub enum WorktreeSummary {
    Conflict,
    Removed,
    Added,
    IntentToAdd,
    Modified,
    TypeChange,
    Renamed,
    Copied,
}

/// Which list of the uncommitted changes a path goes to.
#[derive(Clone, Copy, Debug, PartialEq, Eq, Structural)]
pub enum Bucket {
    StagedAdded,
    StagedDeleted,
    StagedModified,
    UnstagedAdded,
    UnstagedDeleted,
    UnstagedModified,
    Conflicts,
}

/// The staged list for a HEAD-to-index change: renames count as modifications.
pub open spec fn staged_bucket_of(kind: IndexChangeKind) -> Bucket {
    match kind {
        IndexChangeKind::Addition => Bucket::StagedAdded,
        IndexChangeKind::Deletion => Bucket::StagedDeleted,
        IndexChangeKind::Modification | IndexChangeKind::Rewrite => Bucket::StagedModified,
    }
}

pub fn staged_bucket(kind: IndexChangeKind) -> (b: Bucket)
    ensures
        b == staged_bucket_of(kind),
{
    match kind {
        IndexChangeKind::Addition => Bucket::StagedAdded,
        IndexChangeKind::Deletion => Bucket::StagedDeleted,
        IndexChangeKind::Modification | IndexChangeKind::Rewrite => Bucket::StagedModified,
    }
}

/// The list for an index-to-working-tree change: conflicts apart, intent-to-add counts as
/// added, type changes, renames and copies as modified; no summary, no list.
pub open spec fn worktree_bucket_of(summary: Option<WorktreeSummary>) -> Option<Bucket> {
    match summary {
        None => None,
        Some(WorktreeSummary::Conflict) => Some(Bucket::Conflicts),
        Some(WorktreeSummary::Removed) => Some(Bucket::UnstagedDeleted),
        Some(WorktreeSummary::Added) | Some(WorktreeSummary::IntentToAdd) => Some(Bucket::UnstagedAdded),
        Some(_) => Some(Bucket::UnstagedModified),
    }
}

pub fn worktree_bucket(summary: Option<WorktreeSummary>) -> (b: Option<Bucket>)
    ensures
        b == worktree_bucket_of(summary),
{
    match summary {
        None => None,
        Some(WorktreeSummary::Conflict) => Some(Bucket::Conflicts),
        Some(WorktreeSummary::Removed) => Some(Bucket::UnstagedDeleted),
        Some(WorktreeSummary::Added) | Some(WorktreeSummary::IntentToAdd) => Some(Bucket::UnstagedAdded),
        Some(_) => Some(Bucket::UnstagedModified),
    }
}

/// The list `bucket` of the changes, as texts.
pub open spec fn bucket_paths(c: UncommittedChanges, bucket: Bucket) -> Seq<Seq<char>> {
    match bucket {
        Bucket::StagedAdded => texts(c.staged.added@),
        Bucket::StagedDeleted => texts(c.staged.deleted@),
        Bucket::StagedModified => texts(c.staged.modified@),
        Bucket::UnstagedAdded => texts(c.unstaged.added@),
        Bucket::UnstagedDeleted => texts(c.unstaged.deleted@),
        Bucket::UnstagedModified => texts(c.unstaged.modified@),
        Bucket::Conflicts => texts(c.conflicts@),
    }
}

/// `paths` with `path` added at the end unless it holds it.
pub open spec fn with_unique(paths: Seq<Seq<char>>, path: Seq<char>) -> Seq<Seq<char>> {
    if paths.contains(path) { paths } else { paths.push(path) }
}

/// Add `path` to the list `bucket` unless it holds it; the other lists and figures stay.
pub fn add_to_bucket(changes: &mut UncommittedChanges, bucket: Bucket, path: String)
    ensures
        forall|b: Bucket| #[trigger] bucket_paths(*final(changes), b) == if b == bucket {
            with_unique(bucket_paths(*old(changes), b), path@)
        } else {
            bucket_paths(*old(changes), b)
        },
{
    match bucket {
        Bucket::StagedAdded => push_unique(&mut changes.staged.added, path),
        Bucket::StagedDeleted => push_unique(&mut changes.staged.deleted, path),
        Bucket::StagedModified => push_unique(&mut changes.staged.modified, path),
        Bucket::UnstagedAdded => push_unique(&mut changes.unstaged.added, path),
        Bucket::UnstagedDeleted => push_unique(&mut changes.unstaged.deleted, path),
        Bucket::UnstagedModified => push_unique(&mut changes.unstaged.modified, path),
        Bucket::Conflicts => push_unique(&mut changes.conflicts, path),
    }
}

/// The paths of the first `n` staged changes that fall in `bucket`, each once, in order.
pub open spec fn staged_paths(items: Seq<(IndexChangeKind, Seq<char>)>, bucket: Bucket, n: int) -> Seq<Seq<char>>
    decreases n,
{
    if n <= 0 {
        seq![]
    } else {
        let prev = staged_paths(items, bucket, n - 1);
        if staged_bucket_of(items[n - 1].0) == bucket { with_unique(prev, items[n - 1].1) } else { prev }
    }
}

pub open spec fn change_items(items: Seq<(IndexChangeKind, String)>) -> Seq<(IndexChangeKind, Seq<char>)> {
    items.map_values(|x: (IndexChangeKind, String)| (x.0, x.1@))
}

/// The uncommitted changes made of HEAD-to-index changes: each path once per list, in order,
/// with the summary figures filled in.
pub fn staged_changes_from(items: &Vec<(IndexChangeKind, String)>) -> (c: UncommittedChanges)
    ensures
        forall|b: Bucket| #[trigger] bucket_paths(c, b) == staged_paths(change_items(items@), b, items@.len() as int),
        c.modified_count == c.staged.modified@.len(),
        c.added_count == c.staged.added@.len(),
        c.deleted_count == c.staged.deleted@.len(),
        c.conflict_count == 0 && !c.has_conflicts && !c.is_unstaged,
        c.is_staged == (items@.len() > 0),
        c.is_clean == (items@.len() == 0),
        texts(c.staged.added@).no_duplicates() && texts(c.staged.deleted@).no_duplicates() && texts(c.staged.modified@).no_duplicates(),
        c.is_staged == (c.staged.modified@.len() > 0 || c.staged.added@.len() > 0 || c.staged.deleted@.len() > 0),
        c.is_clean == !c.is_staged,
        c.conflicts@.len() == 0,
{
    let mut changes = UncommittedChanges::new();
    let ghost ci = change_items(items@);
    let mut i: usize = 0;
    while i < items.len()
        invariant
            i <= items@.len(),
            ci == change_items(items@),
            forall|b: Bucket| #[trigger] bucket_paths(changes, b) == staged_paths(ci, b, i as int),
            i > 0 ==> changes.staged.modified@.len() + changes.staged.added@.len() + changes.staged.deleted@.len() > 0,
        decreases items@.len() - i,
    {
        let (kind, path) = &items[i];
        let bucket = staged_bucket(*kind);
        assert(ci[i as int] == (*kind, path@));
        add_to_bucket(&mut changes, bucket, path.clone());
        proof {
            assert forall|b: Bucket| #[trigger] bucket_paths(changes, b) == staged_paths(ci, b, i + 1) by {
            }
            assert(bucket_paths(changes, bucket).len() > 0);
        }
        i += 1;
    }
    proof {
        assert(bucket_paths(changes, Bucket::StagedModified) == texts(changes.staged.modified@));
        assert(bucket_paths(changes, Bucket::StagedAdded) == texts(changes.staged.added@));
        assert(bucket_paths(changes, Bucket::StagedDeleted) == texts(changes.staged.deleted@));
        assert(bucket_paths(changes, Bucket::Conflicts) == texts(changes.conflicts@));
        assert(staged_paths(ci, Bucket::Conflicts, i as int) =~= seq![]) by {
            lemma_no_conflicts(ci, i as int);
        }
        lemma_staged_unique(ci, Bucket::StagedModified, i as int);
        lemma_staged_unique(ci, Bucket::StagedAdded, i as int);
        lemma_staged_unique(ci, Bucket::StagedDeleted, i as int);
        lemma_no_unstaged(ci, i as int);
        assert(bucket_paths(changes, Bucket::UnstagedModified) == texts(changes.unstaged.modified@));
        assert(bucket_paths(changes, Bucket::UnstagedAdded) == texts(changes.unstaged.added@));
        assert(bucket_paths(changes, Bucket::UnstagedDeleted) == texts(changes.unstaged.deleted@));
        assert(changes.unstaged.modified@.len() == 0);
        assert(changes.unstaged.added@.len() == 0);
        assert(changes.unstaged.deleted@.len() == 0);
    }
    let ghost before = changes;
    finalize_uncommitted_changes(&mut changes);
    proof {
        lemma_distinct_one_side(before.staged.modified@, before.unstaged.modified@);
        lemma_distinct_one_side(before.staged.added@, before.unstaged.added@);
        lemma_distinct_one_side(before.staged.deleted@, before.unstaged.deleted@);
    }
    changes
}

proof fn lemma_no_conflicts(items: Seq<(IndexChangeKind, Seq<char>)>, n: int)
    requires
        0 <= n,
    ensures
        staged_paths(items, Bucket::Conflicts, n).len() == 0,
    decreases n,
{
    if n > 0 {
        lemma_no_conflicts(items, n - 1);
    }
}

proof fn lemma_no_unstaged(items: Seq<(IndexChangeKind, Seq<char>)>, n: int)
    requires
        0 <= n,
    ensures
        staged_paths(items, Bucket::UnstagedAdded, n).len() == 0,
        staged_paths(items, Bucket::UnstagedDeleted, n).len() == 0,
        staged_paths(items, Bucket::UnstagedModified, n).len() == 0,
    decreases n,
{
    if n > 0 {
        lemma_no_unstaged(items, n - 1);
    }
}

proof fn lemma_staged_unique(items: Seq<(IndexChangeKind, Seq<char>)>, bucket: Bucket, n: int)
    requires
        0 <= n,
    ensures
        staged_paths(items, bucket, n).no_duplicates(),
    decreases n,
{
    if n > 0 {
        lemma_staged_unique(items, bucket, n - 1);
        let prev = staged_paths(items, bucket, n - 1);
        let x = items[n - 1].1;
        if !prev.contains(x) {
            assert forall|i: int, j: int| 0 <= i < j < prev.push(x).len() implies prev.push(x)[i] != prev.push(x)[j] by {
                if j == prev.len() {
                    assert(prev[i] == prev.push(x)[i]);
                }
            }
        }
    }
}

proof fn lemma_distinct_one_side(a: Seq<String>, b: Seq<String>)
    requires
        texts(a).no_duplicates(),
        b.len() == 0,
    ensures
        crate::changes::distinct_paths(a, b) == a.len(),
{
    assert(texts(b).to_set() =~= Set::<Seq<char>>::empty());
    assert(texts(a).to_set() + texts(b).to_set() =~= texts(a).to_set());
    texts(a).unique_seq_to_set();
}


#[verifier::external_type_specification]
#[verifier::external_body]
pub struct ExIndexChangeRef<'lhs, 'rhs>(gix::diff::index::ChangeRef<'lhs, 'rhs>);

/// `head_tree_id`, `index_or_empty` and `tree_index_status` without rename tracking: the
/// changes between HEAD's tree and the index, in the order reported; `Ok(None)` when HEAD has no
/// tree. What is on disk decides, so nothing is stated.
#[verifier::external_body]
fn staged_index_changes(repo: &gix::Repository) -> Result<Option<Vec<gix::diff::index::Change>>, git2::Error> {
    let to_error = |error: &dyn std::fmt::Display| git2::Error::from_str(&error.to_string());
    let Ok(head_tree_id) = repo.head_tree_id() else { return Ok(None) };
    let index = repo.index_or_empty().map_err(|e| to_error(&e))?;
    let mut items = Vec::new();
    let renames = gix::status::tree_index::TrackRenames::Disabled;
    repo.tree_index_status(&head_tree_id, &index, None, renames, |change, _, _| {
        items.push(change.into_owned());
        Ok(std::ops::ControlFlow::Continue(()))
    }).map_err(|e| to_error(&e))?;
    Ok(Some(items))
}

/// The variant of an index change and its location as lossy UTF-8.
#[verifier::external_body]
pub(crate) fn index_change_parts(change: &gix::diff::index::Change) -> (IndexChangeKind, String) {
    let kind = match change {
        gix::diff::index::ChangeRef::Addition { .. } => IndexChangeKind::Addition,
        gix::diff::index::ChangeRef::Deletion { .. } => IndexChangeKind::Deletion,
        gix::diff::index::ChangeRef::Modification { .. } => IndexChangeKind::Modification,
        gix::diff::index::ChangeRef::Rewrite { .. } => IndexChangeKind::Rewrite,
    };
    let location: &[u8] = change.location();
    (kind, gix::bstr::ByteSlice::to_str_lossy(location).into_owned())
}

/// The staged changes of the repository at `path` (HEAD against the index), with the summary
/// figures; no changes when HEAD has no tree.
pub fn get_staged_filenames_diff_from_path(path: &str) -> (r: Result<UncommittedChanges, git2::Error>)
    ensures
        r matches Ok(c) ==> !c.is_unstaged && c.conflict_count == 0 && c.unstaged.added@.len() == 0
            && c.unstaged.deleted@.len() == 0 && c.unstaged.modified@.len() == 0,
        r matches Ok(c) ==> c.conflicts@.len() == 0 && !c.has_conflicts,
        r matches Ok(c) ==> texts(c.staged.added@).no_duplicates() && texts(c.staged.deleted@).no_duplicates()
            && texts(c.staged.modified@).no_duplicates(),
        r matches Ok(c) ==> c.is_staged == (c.staged.modified@.len() > 0 || c.staged.added@.len() > 0 || c.staged.deleted@.len() > 0),
        r matches Ok(c) ==> c.is_clean == !c.is_staged || (!c.is_clean && !c.is_staged),
{
    let repo = match crate::git_types::open_repo(path) {
        Ok(repo) => repo,
        Err(e) => {
            return Err(e);
        },
    };
    match staged_index_changes(&repo) {
        Err(e) => Err(e),
        Ok(None) => Ok(UncommittedChanges::new()),
        Ok(Some(changes)) => {
            let mut items: Vec<(IndexChangeKind, String)> = Vec::new();
            let mut i: usize = 0;
            while i < changes.len()
                invariant
                    i <= changes@.len(),
                decreases changes@.len() - i,
            {
                items.push(index_change_parts(&changes[i]));
                i += 1;
            }
            let c = staged_changes_from(&items);
            proof {
                lemma_no_unstaged(change_items(items@), items@.len() as int);
                assert(bucket_paths(c, Bucket::UnstagedAdded).len() == 0);
                assert(bucket_paths(c, Bucket::UnstagedDeleted).len() == 0);
                assert(bucket_paths(c, Bucket::UnstagedModified).len() == 0);
            }
            Ok(c)
        },
    }
}


/// `s` without its trailing `/` characters (`str::trim_end_matches('/')`).
pub open spec fn trim_trailing_slashes(s: Seq<char>) -> Seq<char>
    decreases s.len(),
{
    if s.len() > 0 && s.last() == '/' {
        trim_trailing_slashes(s.drop_last())
    } else {
        s
    }
}

/// Whether the components of `base` begin those of `path` (`Path::starts_with`).
pub open spec fn path_starts_with(path: Seq<char>, base: Seq<char>) -> bool {
    let p = path_components(path);
    let b = path_components(base);
    b.len() <= p.len() && p.take(b.len() as int) == b
}

/// Whether a status path lies at or inside one of the submodule paths: trailing `/` dropped,
/// compared component by component; an empty path never does.
pub open spec fn in_submodule(path: Seq<char>, submodule_paths: Seq<Seq<char>>) -> bool {
    path.len() > 0 && exists|k: int| 0 <= k < submodule_paths.len() && path_starts_with(trim_trailing_slashes(path), #[trigger] submodule_paths[k])
}

/// Whether a status path belongs to a submodule (see `in_submodule`).
pub fn is_submodule_status_path(path: &str, submodule_paths: &Vec<String>) -> (r: bool)
    ensures
        r == in_submodule(path@, texts(submodule_paths@)),
{
    let chars = str_chars(path);
    if chars.len() == 0 {
        return false;
    }
    let mut end: usize = chars.len();
    assert(chars@.take(end as int) =~= chars@);
    while end > 0 && chars[end - 1] == '/'
        invariant
            end <= chars@.len(),
            trim_trailing_slashes(chars@.take(end as int)) == trim_trailing_slashes(chars@),
        decreases end,
    {
        assert(chars@.take(end as int).drop_last() =~= chars@.take(end - 1));
        end -= 1;
    }
    let mut trimmed: Vec<char> = Vec::new();
    let mut i: usize = 0;
    while i < end
        invariant
            i <= end <= chars@.len(),
            trimmed@ == chars@.take(i as int),
        decreases end - i,
    {
        trimmed.push(chars[i]);
        assert(chars@.take(i + 1) =~= chars@.take(i as int).push(chars@[i as int]));
        i += 1;
    }
    assert(trimmed@ == trim_trailing_slashes(chars@));
    let own = components(&trimmed);
    let mut k: usize = 0;
    while k < submodule_paths.len()
        invariant
            k <= submodule_paths@.len(),
            chars@ == path@,
            path@.len() > 0,
            components_view(own@) == path_components(trim_trailing_slashes(path@)),
            forall|j: int| 0 <= j < k ==> !path_starts_with(trim_trailing_slashes(path@), #[trigger] texts(submodule_paths@)[j]),
        decreases submodule_paths@.len() - k,
    {
        let base_chars = str_chars(submodule_paths[k].as_str());
        let base = components(&base_chars);
        if components_start_with(&own, &base) {
            assert(path_starts_with(trim_trailing_slashes(path@), texts(submodule_paths@)[k as int]));
            assert(0 <= k < texts(submodule_paths@).len());
            return true;
        }
        k += 1;
    }
    false
}

/// Record a HEAD-to-index change (see `staged_bucket_of`) unless its path belongs to a submodule.
pub fn apply_tree_index_change(changes: &mut UncommittedChanges, kind: IndexChangeKind, path: String, submodule_paths: &Vec<String>)
    ensures
        in_submodule(path@, texts(submodule_paths@)) ==> *final(changes) == *old(changes),
        !in_submodule(path@, texts(submodule_paths@)) ==> forall|b: Bucket| #[trigger] bucket_paths(*final(changes), b) == if b == staged_bucket_of(kind) {
            with_unique(bucket_paths(*old(changes), b), path@)
        } else {
            bucket_paths(*old(changes), b)
        },
{
    if !is_submodule_status_path(path.as_str(), submodule_paths) {
        add_to_bucket(changes, staged_bucket(kind), path);
    }
}

/// Record an index-to-working-tree change (see `worktree_bucket_of`) unless its path belongs to
/// a submodule.
pub fn apply_index_worktree_change(changes: &mut UncommittedChanges, path: String, summary: Option<WorktreeSummary>, submodule_paths: &Vec<String>)
    ensures
        in_submodule(path@, texts(submodule_paths@)) || worktree_bucket_of(summary) is None ==> *final(changes) == *old(changes),
        !in_submodule(path@, texts(submodule_paths@)) && worktree_bucket_of(summary) is Some ==> forall|b: Bucket| #[trigger] bucket_paths(*final(changes), b) == if b == worktree_bucket_of(summary)->0 {
            with_unique(bucket_paths(*old(changes), b), path@)
        } else {
            bucket_paths(*old(changes), b)
        },
{
    if !is_submodule_status_path(path.as_str(), submodule_paths) {
        if let Some(bucket) = worktree_bucket(summary) {
            add_to_bucket(changes, bucket, path);
        }
    }
}

/// What is known of one submodule for the uncommitted changes: its status flags in the index and
/// working tree, whether HEAD's tree and the index have an entry at its path, whether both have
/// one with different ids, and whether it has new commits.
#[derive(Clone, Copy, Debug)]
pub struct SubmodulePointerFacts {
    pub index_added: bool,
    pub index_deleted: bool,
    pub index_modified: bool,
    pub wd_added: bool,
    pub wd_deleted: bool,
    pub in_head: bool,
    pub in_index: bool,
    pub ids_differ: bool,
    pub has_new_commits: bool,
}

/// The lists a submodule's path goes to: staged added, deleted and modified by its index status
/// or by its entries in HEAD and the index; unstaged added, else deleted, else modified when it
/// has new commits.
pub open spec fn pointer_buckets(f: SubmodulePointerFacts) -> Set<Bucket> {
    Set::new(|b: Bucket| match b {
        Bucket::StagedAdded => f.index_added || (!f.in_head && f.in_index),
        Bucket::StagedDeleted => f.index_deleted || (f.in_head && !f.in_index),
        Bucket::StagedModified => f.index_modified || (f.in_head && f.in_index && f.ids_differ),
        Bucket::UnstagedAdded => f.wd_added,
        Bucket::UnstagedDeleted => !f.wd_added && f.wd_deleted,
        Bucket::UnstagedModified => !f.wd_added && !f.wd_deleted && f.has_new_commits,
        Bucket::Conflicts => false,
    })
}

/// Record the pointer changes of the submodule at `path` (see `pointer_buckets`).
pub fn add_submodule_pointer_change(changes: &mut UncommittedChanges, path: String, facts: SubmodulePointerFacts)
    ensures
        forall|b: Bucket| #[trigger] bucket_paths(*final(changes), b) == if pointer_buckets(facts).contains(b) {
            with_unique(bucket_paths(*old(changes), b), path@)
        } else {
            bucket_paths(*old(changes), b)
        },
{
    if facts.index_added || (!facts.in_head && facts.in_index) {
        add_to_bucket(changes, Bucket::StagedAdded, path.clone());
    }
    if facts.index_deleted || (facts.in_head && !facts.in_index) {
        add_to_bucket(changes, Bucket::StagedDeleted, path.clone());
    }
    if facts.index_modified || (facts.in_head && facts.in_index && facts.ids_differ) {
        add_to_bucket(changes, Bucket::StagedModified, path.clone());
    }
    if facts.wd_added {
        add_to_bucket(changes, Bucket::UnstagedAdded, path);
    } else if facts.wd_deleted {
        add_to_bucket(changes, Bucket::UnstagedDeleted, path);
    } else if facts.has_new_commits {
        add_to_bucket(changes, Bucket::UnstagedModified, path);
    }
}

/// How a commit changed a submodule's recorded commit, from its entries in the parent's tree and
/// the commit's tree: none when both are absent or name the same id.
pub open spec fn committed_submodule_status(parent: Option<Seq<u8>>, new: Option<Seq<u8>>) -> Option<FileStatus> {
    match (parent, new) {
        (Some(old), Some(new)) => if old == new { None } else { Some(FileStatus::Modified) },
        (Some(_), None) => Some(FileStatus::Deleted),
        (None, Some(_)) => Some(FileStatus::Added),
        (None, None) => None,
    }
}

/// The change of a submodule's recorded commit between two trees (see
/// `committed_submodule_status`).
pub fn committed_submodule_change_status(parent_entry: Option<gix::ObjectId>, new_entry: Option<gix::ObjectId>) -> (r: Option<FileStatus>)
    ensures
        r == committed_submodule_status(
            match parent_entry { Some(id) => Some(oid_bytes(id)), None => None },
            match new_entry { Some(id) => Some(oid_bytes(id)), None => None },
        ),
{
    match (parent_entry, new_entry) {
        (Some(old), Some(new)) => {
            if oid_eq(&old, &new) {
                None
            } else {
                Some(FileStatus::Modified)
            }
        },
        (Some(_), None) => Some(FileStatus::Deleted),
        (None, Some(_)) => Some(FileStatus::Added),
        (None, None) => None,
    }
}

} // verus!
