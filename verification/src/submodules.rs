use vstd::prelude::*;
use crate::git_types::{oid_bytes, oid_eq};
use crate::paths::{components, components_before, components_view, components_lt, lemma_components_lt_order, path_components};
use crate::text::str_chars;

verus! {

broadcast use vstd::seq_lib::group_to_multiset_ensures;

/// A submodule as listed: where it is, what it points to, and what changed in it.
#[derive(Clone, Debug, PartialEq, Eq)]
pub struct SubmoduleEntry {
    pub name: String,
    pub path: String,
    pub absolute_path: String,
    pub url: Option<String>,
    pub branch: Option<String>,
    pub head: Option<gix::ObjectId>,
    pub index: Option<gix::ObjectId>,
    pub workdir: Option<gix::ObjectId>,
    pub is_open: bool,
    pub is_uninitialized: bool,
    pub is_in_head: bool,
    pub is_in_index: bool,
    pub is_in_config: bool,
    pub is_in_workdir: bool,
    pub is_index_modified: bool,
    pub is_workdir_modified: bool,
    pub has_new_commits: bool,
    pub has_modified_content: bool,
    pub has_untracked_content: bool,
}

/// What a directory walk found for an entry (gix's `dir::entry::Status`).
#[derive(Clone, Copy, Debug, PartialEq, Eq, Structural)]
pub enum DirEntryStatus {
    Pruned,
    TrackedFile,
    Ignored,
    Untracked,
}

/// How an index entry compares with the working tree (gix's `index_as_worktree::EntryStatus`,
/// its `Change` variants flattened).
#[derive(Clone, Copy, Debug, PartialEq, Eq, Structural)]
pub enum WorktreeEntryStatus {
    Conflict,
    Removed,
    TypeChange,
    Modification,
    SubmoduleModification,
    NeedsUpdate,
    IntentToAdd,
}

/// One change reported inside a submodule's checkout.
#[derive(Clone, Copy, Debug, PartialEq, Eq, Structural)]
pub enum ContentChange {
    /// A change between the submodule's HEAD tree and its index.
    TreeIndex,
    /// Directory contents found by the walk.
    DirectoryContents { walk_status: DirEntryStatus },
    /// A rename or copy in the working tree.
    Rewrite,
    /// An index entry against the working tree.
    Modification { entry_status: WorktreeEntryStatus },
}

/// Whether an index entry's status counts as modified content: everything but an entry whose
/// stat data merely needs an update.
pub open spec fn modifies_content(status: WorktreeEntryStatus) -> bool {
    status != WorktreeEntryStatus::NeedsUpdate
}

/// Whether the changes modify content, and whether they include untracked files.
pub open spec fn content_flags(changes: Seq<ContentChange>, n: int) -> (bool, bool)
    decreases n,
{
    if n <= 0 {
        (false, false)
    } else {
        let (modified, untracked) = content_flags(changes, n - 1);
        match changes[n - 1] {
            ContentChange::TreeIndex => (true, untracked),
            ContentChange::DirectoryContents { walk_status } => {
                let u = walk_status == DirEntryStatus::Untracked;
                (modified || !u, untracked || u)
            },
            ContentChange::Rewrite => (true, untracked),
            ContentChange::Modification { entry_status } => (modified || modifies_content(entry_status), untracked),
        }
    }
}

/// Whether a submodule's changes modify content, and whether they include untracked files.
pub fn changed_content_flags(changes: &Vec<ContentChange>) -> (r: (bool, bool))
    ensures
        r == content_flags(changes@, changes@.len() as int),
{
    let mut modified = false;
    let mut untracked = false;
    let mut i: usize = 0;
    while i < changes.len()
        invariant
            i <= changes@.len(),
            (modified, untracked) == content_flags(changes@, i as int),
        decreases changes@.len() - i,
    {
        match changes[i] {
            ContentChange::TreeIndex => {
                modified = true;
            },
            ContentChange::DirectoryContents { walk_status } => {
                let u = match walk_status {
                    DirEntryStatus::Untracked => true,
                    _ => false,
                };
                modified = modified || !u;
                untracked = untracked || u;
            },
            ContentChange::Rewrite => {
                modified = true;
            },
            ContentChange::Modification { entry_status } => {
                let modifies = match entry_status {
                    WorktreeEntryStatus::NeedsUpdate => false,
                    _ => true,
                };
                modified = modified || modifies;
            },
        }
        i += 1;
    }
    (modified, untracked)
}

/// What was read of a submodule, before the flags are worked out.
pub struct SubmoduleFacts {
    pub name: String,
    pub path: String,
    pub absolute_path: String,
    pub url: Option<String>,
    pub branch: Option<String>,
    pub head: Option<gix::ObjectId>,
    pub index: Option<gix::ObjectId>,
    pub workdir: Option<gix::ObjectId>,
    pub is_open: bool,
    pub repository_exists: bool,
    pub superproject_configuration: bool,
    pub worktree_checkout: bool,
    /// The changes of its status, when the status could be read.
    pub changes: Option<Vec<ContentChange>>,
}

/// Whether two optional ids are the same.
pub open spec fn same_id(a: Option<gix::ObjectId>, b: Option<gix::ObjectId>) -> bool {
    match (a, b) {
        (None, None) => true,
        (Some(x), Some(y)) => oid_bytes(x) == oid_bytes(y),
        _ => false,
    }
}

fn same_id_exec(a: &Option<gix::ObjectId>, b: &Option<gix::ObjectId>) -> (r: bool)
    ensures
        r == same_id(*a, *b),
{
    match (a, b) {
        (None, None) => true,
        (Some(x), Some(y)) => oid_eq(x, y),
        _ => false,
    }
}

/// The entry for a submodule: the index differs from HEAD when their ids differ; it has new
/// commits when its checkout's HEAD and the index both exist and differ; its working tree is
/// modified by new commits, modified content or untracked files.
pub fn submodule_entry_from(facts: SubmoduleFacts) -> (e: SubmoduleEntry)
    ensures
        e.name == facts.name && e.path == facts.path && e.absolute_path == facts.absolute_path,
        e.url == facts.url && e.branch == facts.branch,
        e.head == facts.head && e.index == facts.index && e.workdir == facts.workdir,
        e.is_open == facts.is_open,
        e.is_uninitialized == !facts.repository_exists,
        e.is_in_head == facts.head is Some,
        e.is_in_index == facts.index is Some,
        e.is_in_config == facts.superproject_configuration,
        e.is_in_workdir == facts.worktree_checkout,
        e.is_index_modified == !same_id(facts.head, facts.index),
        e.has_new_commits == (facts.workdir is Some && facts.index is Some && !same_id(facts.workdir, facts.index)),
        (e.has_modified_content, e.has_untracked_content) == match facts.changes {
            Some(c) => content_flags(c@, c@.len() as int),
            None => (false, false),
        },
        e.is_workdir_modified == (e.has_new_commits || e.has_modified_content || e.has_untracked_content),
{
    let (has_modified_content, has_untracked_content) = match &facts.changes {
        Some(changes) => changed_content_flags(changes),
        None => (false, false),
    };
    let is_index_modified = !same_id_exec(&facts.head, &facts.index);
    let has_new_commits = facts.workdir.is_some() && facts.index.is_some() && !same_id_exec(&facts.workdir, &facts.index);
    let is_workdir_modified = has_new_commits || has_modified_content || has_untracked_content;
    SubmoduleEntry {
        is_in_head: facts.head.is_some(),
        is_in_index: facts.index.is_some(),
        name: facts.name,
        path: facts.path,
        absolute_path: facts.absolute_path,
        url: facts.url,
        branch: facts.branch,
        head: facts.head,
        index: facts.index,
        workdir: facts.workdir,
        is_open: facts.is_open,
        is_uninitialized: !facts.repository_exists,
        is_in_config: facts.superproject_configuration,
        is_in_workdir: facts.worktree_checkout,
        is_index_modified,
        is_workdir_modified,
        has_new_commits,
        has_modified_content,
        has_untracked_content,
    }
}

/// Whether an entry's flags agree with its ids and content flags as `submodule_entry_from` works
/// them out.
pub open spec fn entry_flags_agree(e: SubmoduleEntry) -> bool {
    &&& e.is_in_head == e.head is Some
    &&& e.is_in_index == e.index is Some
    &&& e.is_index_modified == !same_id(e.head, e.index)
    &&& e.has_new_commits == (e.workdir is Some && e.index is Some && !same_id(e.workdir, e.index))
    &&& e.is_workdir_modified == (e.has_new_commits || e.has_modified_content || e.has_untracked_content)
}

pub open spec fn path_order_key(e: SubmoduleEntry) -> Seq<(u8, Seq<char>)> {
    path_components(e.path@)
}

/// Ordered by path, as `Path` orders paths (component by component).
pub open spec fn sorted_by_path(v: Seq<SubmoduleEntry>) -> bool {
    forall|i: int, j: int| 0 <= i < j < v.len() ==> !components_lt(path_order_key(#[trigger] v[j]), path_order_key(#[trigger] v[i]))
}

/// The entries ordered by path.
pub fn sort_submodules(entries: Vec<SubmoduleEntry>) -> (r: Vec<SubmoduleEntry>)
    ensures
        r@.to_multiset() == entries@.to_multiset(),
        sorted_by_path(r@),
{
    let mut rest = entries;
    let mut out: Vec<SubmoduleEntry> = Vec::new();
    while rest.len() > 0
        invariant
            out@.to_multiset().add(rest@.to_multiset()) == entries@.to_multiset(),
            sorted_by_path(out@),
            forall|i: int, j: int| 0 <= i < out@.len() && 0 <= j < rest@.len() ==> !components_lt(path_order_key(#[trigger] rest@[j]), path_order_key(#[trigger] out@[i])),
        decreases rest@.len(),
    {
        let mut best: usize = 0;
        let mut best_key = components(&str_chars(rest[0].path.as_str()));
        let mut k: usize = 1;
        proof {
            lemma_components_lt_order(path_order_key(rest@[0]), path_order_key(rest@[0]), path_order_key(rest@[0]));
        }
        while k < rest.len()
            invariant
                0 <= best < rest@.len(),
                k <= rest@.len(),
                components_view(best_key@) == path_order_key(rest@[best as int]),
                forall|j: int| 0 <= j < k ==> !components_lt(path_order_key(#[trigger] rest@[j]), path_order_key(rest@[best as int])),
            decreases rest@.len() - k,
        {
            let key = components(&str_chars(rest[k].path.as_str()));
            if components_before(&key, &best_key) {
                proof {
                    assert forall|j: int| 0 <= j < k + 1 implies !components_lt(path_order_key(#[trigger] rest@[j]), path_order_key(rest@[k as int])) by {
                        lemma_components_lt_order(path_order_key(rest@[j]), path_order_key(rest@[k as int]), path_order_key(rest@[best as int]));
                    }
                }
                best = k;
                best_key = key;
            } else {
                proof {
                    lemma_components_lt_order(path_order_key(rest@[k as int]), path_order_key(rest@[best as int]), path_order_key(rest@[best as int]));
                }
            }
            k += 1;
        }
        let ghost before_rest = rest@;
        let ghost before_out = out@;
        let entry = rest.remove(best);
        proof {
            assert(before_rest.remove(best as int).to_multiset() =~= before_rest.to_multiset().remove(entry));
            assert(out@.push(entry).to_multiset() =~= out@.to_multiset().insert(entry));
        }
        out.push(entry);
        proof {
            assert forall|i: int, j: int| 0 <= i < out@.len() && 0 <= j < rest@.len() implies !components_lt(path_order_key(#[trigger] rest@[j]), path_order_key(#[trigger] out@[i])) by {
                let jj = if j < best { j } else { j + 1 };
                assert(rest@[j] == before_rest[jj]);
                if i < before_out.len() {
                    assert(out@[i] == before_out[i]);
                }
            }
            assert forall|i: int, j: int| 0 <= i < j < out@.len() implies !components_lt(path_order_key(#[trigger] out@[j]), path_order_key(#[trigger] out@[i])) by {
                if j < before_out.len() {
                    assert(out@[i] == before_out[i] && out@[j] == before_out[j]);
                } else {
                    assert(out@[i] == before_out[i]);
                    assert(out@[j] == before_rest[best as int]);
                }
            }
        }
    }
    assert(rest@.to_multiset() =~= vstd::multiset::Multiset::empty());
    out
}

} // verus!
