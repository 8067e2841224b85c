use vstd::prelude::*;
use crate::changes::{distinct_paths, finalize_uncommitted_changes, UncommittedChanges};
use crate::diffs::{
    add_submodule_pointer_change, apply_index_worktree_change, apply_tree_index_change, get_staged_filenames_diff_from_path,
    index_change_parts, IndexChangeKind, SubmodulePointerFacts, WorktreeSummary,
};
use crate::git_types::{error_from_message, oid_bytes, oid_eq, open_repo};
use crate::oids::{git2_oid_bytes, git2_to_gix_oid};
use crate::refs::git2_repo_dirs;
use crate::staging::{index_entry_id, repo_index, submodule_status_for};
use crate::submodule_list::{head_tree_entry_id, list_submodules};
use crate::submodules::SubmoduleEntry;
use gix::status::index_worktree::iter::Summary;

verus! {

#[verifier::external_type_specification]
#[verifier::external_body]
pub struct ExSummary(gix::status::index_worktree::iter::Summary);

/// One item of a working-tree status: a HEAD-to-index change, or an index-to-working-tree one
/// with its summary (none for an entry whose stat data merely needs an update, or a directory
/// entry that is not untracked).
pub enum StatusChange {
    TreeIndex { kind: IndexChangeKind, path: String },
    IndexWorktree { path: String, summary: Option<WorktreeSummary> },
}

#[verifier::external_type_specification]
#[verifier::external_body]
pub struct ExUntrackedFiles(gix::status::UntrackedFiles);

#[verifier::external_type_specification]
#[verifier::external_body]
pub struct ExTrackRenames(gix::status::tree_index::TrackRenames);

#[verifier::external_type_specification]
#[verifier::external_body]
pub struct ExRewrites(gix::diff::Rewrites);

/// How a status lists untracked files (`gix::status::UntrackedFiles`).
pub enum UntrackedListing {
    Omitted,
    Collapsed,
    Files,
}

/// Whether a status tracks renames between HEAD and the index
/// (`gix::status::tree_index::TrackRenames`, without given settings).
pub enum RenameTracking {
    AsConfigured,
    Disabled,
}

/// The settings of a working-tree status: untracked files, rename tracking between HEAD and the
/// index, rename settings between the index and the working tree (none: no tracking), and
/// whether submodules, taken as configured, are checked for changes.
pub struct WorkdirStatusOptions {
    pub untracked: UntrackedListing,
    pub tree_index_renames: RenameTracking,
    pub worktree_rewrites: Option<gix::diff::Rewrites>,
    pub check_submodules_dirty: bool,
}

/// The status the uncommitted changes are read from: untracked files listed one by one, no
/// rename tracking on either side, submodules as configured and checked for changes.
pub fn uncommitted_status_options() -> (o: WorkdirStatusOptions)
    ensures
        o.untracked is Files,
        o.tree_index_renames is Disabled,
        o.worktree_rewrites is None,
        o.check_submodules_dirty,
{
    WorkdirStatusOptions { untracked: UntrackedListing::Files, tree_index_renames: RenameTracking::Disabled, worktree_rewrites: None, check_submodules_dirty: true }
}

/// `gix::status::UntrackedFiles`, variant by variant.
#[verifier::external_body]
fn untracked_files(listing: UntrackedListing) -> gix::status::UntrackedFiles {
    match listing {
        UntrackedListing::Omitted => gix::status::UntrackedFiles::None,
        UntrackedListing::Collapsed => gix::status::UntrackedFiles::Collapsed,
        UntrackedListing::Files => gix::status::UntrackedFiles::Files,
    }
}

/// `gix::status::tree_index::TrackRenames`, variant by variant.
#[verifier::external_body]
fn track_renames(tracking: RenameTracking) -> gix::status::tree_index::TrackRenames {
    match tracking {
        RenameTracking::AsConfigured => gix::status::tree_index::TrackRenames::AsConfigured,
        RenameTracking::Disabled => gix::status::tree_index::TrackRenames::Disabled,
    }
}

/// `Repository::status` with the settings of `options`, then its items, each in the order
/// reported; the first error ends it. What is on disk decides, so nothing is stated.
#[verifier::external_body]
fn workdir_status_items(repo: &gix::Repository, options: WorkdirStatusOptions) -> Result<Vec<gix::status::Item>, git2::Error> {
    let to_error = |error: &dyn std::fmt::Display| git2::Error::from_str(&error.to_string());
    let status = repo.status(gix::progress::Discard).map_err(|e| to_error(&e))?;
    let status = status.untracked_files(untracked_files(options.untracked)).tree_index_track_renames(track_renames(options.tree_index_renames));
    let submodules = gix::status::Submodule::AsConfigured { check_dirty: options.check_submodules_dirty };
    let status = status.index_worktree_rewrites(options.worktree_rewrites).index_worktree_submodules(submodules);
    let items = status.into_iter(Vec::new()).map_err(|e| to_error(&e))?;
    items.map(|item| item.map_err(|e| to_error(&e))).collect()
}

/// `index_worktree::iter::Summary`, variant by variant.
#[verifier::external_body]
fn worktree_summary(summary: Summary) -> WorktreeSummary {
    match summary {
        Summary::Added => WorktreeSummary::Added,
        Summary::Removed => WorktreeSummary::Removed,
        Summary::Modified => WorktreeSummary::Modified,
        Summary::TypeChange => WorktreeSummary::TypeChange,
        Summary::Renamed => WorktreeSummary::Renamed,
        Summary::Copied => WorktreeSummary::Copied,
        Summary::IntentToAdd => WorktreeSummary::IntentToAdd,
        Summary::Conflict => WorktreeSummary::Conflict,
    }
}

/// A status item, variant by variant: the change's kind and location, or the entry's relative
/// path and `Item::summary`, paths as lossy UTF-8.
#[verifier::external_body]
fn status_change(item: &gix::status::Item) -> StatusChange {
    match item {
        gix::status::Item::TreeIndex(change) => {
            let (kind, path) = index_change_parts(change);
            StatusChange::TreeIndex { kind, path }
        },
        gix::status::Item::IndexWorktree(item) => {
            let path: &[u8] = item.rela_path();
            StatusChange::IndexWorktree { path: gix::bstr::ByteSlice::to_str_lossy(path).into_owned(), summary: item.summary().map(worktree_summary) }
        },
    }
}

/// `Index::read(true)`, its error ignored: the index as it is on disk now.
#[verifier::external_body]
fn reload_index(index: &mut git2::Index) {
    let _ = index.read(true);
}

/// Whether two optional ids, one from HEAD's tree and one from the index, are both present and
/// differ.
fn ids_differ(head: Option<gix::ObjectId>, index: Option<git2::Oid>) -> (r: bool)
    ensures
        r == match (head, index) {
            (Some(h), Some(i)) => oid_bytes(h) != git2_oid_bytes(i),
            _ => false,
        },
{
    match (head, index) {
        (Some(head), Some(index)) => !oid_eq(&head, &git2_to_gix_oid(index)),
        _ => false,
    }
}

/// Record each submodule's pointer changes (see `add_submodule_pointer_change`), from its status
/// flags, its entries in the index and in HEAD's tree, and whether it has new commits.
fn add_submodule_pointer_changes(repo: &git2::Repository, gix_repo: &gix::Repository, submodules: &Vec<SubmoduleEntry>, changes: &mut UncommittedChanges) {
    let mut index = match repo_index(repo) {
        Ok(index) => Some(index),
        Err(_) => None,
    };
    match &mut index {
        Some(index) => reload_index(index),
        None => {},
    }
    let mut i: usize = 0;
    while i < submodules.len()
        invariant
            i <= submodules@.len(),
        decreases submodules@.len() - i,
    {
        let submodule = &submodules[i];
        let path = submodule.path.clone();
        let status = submodule_status_for(repo, submodule.name.as_str(), path.as_str());
        let index_entry = match &index {
            Some(index) => index_entry_id(index, path.as_str()),
            None => None,
        };
        let head_entry = head_tree_entry_id(gix_repo, path.as_str());
        let facts = SubmodulePointerFacts {
            index_added: status.index_added,
            index_deleted: status.index_deleted,
            index_modified: status.index_modified,
            wd_added: status.wd_added,
            wd_deleted: status.wd_deleted,
            in_head: head_entry.is_some(),
            in_index: index_entry.is_some(),
            ids_differ: ids_differ(head_entry, index_entry),
            has_new_commits: submodule.has_new_commits,
        };
        add_submodule_pointer_change(changes, path, facts);
        i += 1;
    }
}

/// Whether the summary figures of the changes agree with their lists (see
/// `finalize_uncommitted_changes`).
pub open spec fn summarized(c: UncommittedChanges) -> bool {
    &&& c.modified_count == distinct_paths(c.staged.modified@, c.unstaged.modified@)
    &&& c.added_count == distinct_paths(c.staged.added@, c.unstaged.added@)
    &&& c.deleted_count == distinct_paths(c.staged.deleted@, c.unstaged.deleted@)
    &&& c.conflict_count == c.conflicts@.len()
    &&& c.has_conflicts == (c.conflicts@.len() > 0)
    &&& c.is_staged == (c.conflicts@.len() > 0 || c.staged.modified@.len() > 0 || c.staged.added@.len() > 0 || c.staged.deleted@.len() > 0)
    &&& c.is_unstaged == (c.conflicts@.len() > 0 || c.unstaged.modified@.len() > 0 || c.unstaged.added@.len() > 0 || c.unstaged.deleted@.len() > 0)
    &&& c.is_clean == (!c.is_staged && !c.is_unstaged && !c.has_conflicts)
}

/// The staged and unstaged changes of the working tree: each status item goes to its list (see
/// `apply_tree_index_change`, `apply_index_worktree_change`; paths inside submodules are left
/// out), then the submodules' pointer changes are added, then the figures summed up. A bare
/// repository is refused (`bare repositories are not supported`).
pub fn get_filenames_diff_at_workdir(repo: &git2::Repository) -> (r: Result<UncommittedChanges, git2::Error>)
    ensures
        r matches Ok(c) ==> summarized(c),
{
    let (workdir, _) = git2_repo_dirs(repo);
    let workdir = match workdir {
        Some(workdir) => workdir,
        None => {
            return Err(error_from_message("bare repositories are not supported"));
        },
    };
    let gix_repo = open_repo(workdir.as_str())?;
    let submodules = match list_submodules(repo) {
        Ok(submodules) => submodules,
        Err(_) => Vec::new(),
    };
    let mut submodule_paths: Vec<String> = Vec::new();
    let mut k: usize = 0;
    while k < submodules.len()
        invariant
            k <= submodules@.len(),
        decreases submodules@.len() - k,
    {
        submodule_paths.push(submodules[k].path.clone());
        k += 1;
    }
    let mut changes = UncommittedChanges::new();
    let items = workdir_status_items(&gix_repo, uncommitted_status_options())?;
    let mut i: usize = 0;
    while i < items.len()
        invariant
            i <= items@.len(),
        decreases items@.len() - i,
    {
        match status_change(&items[i]) {
            StatusChange::TreeIndex { kind, path } => apply_tree_index_change(&mut changes, kind, path, &submodule_paths),
            StatusChange::IndexWorktree { path, summary } => apply_index_worktree_change(&mut changes, path, summary, &submodule_paths),
        }
        i += 1;
    }
    add_submodule_pointer_changes(repo, &gix_repo, &submodules, &mut changes);
    finalize_uncommitted_changes(&mut changes);
    Ok(changes)
}

/// The staged changes of the working tree (HEAD against the index; see
/// `get_staged_filenames_diff_from_path`). A bare repository is refused (`bare repositories are
/// not supported`).
pub fn get_staged_filenames_diff(repo: &git2::Repository) -> (r: Result<UncommittedChanges, git2::Error>)
    ensures
        r matches Ok(c) ==> !c.is_unstaged && c.conflict_count == 0 && c.unstaged.added@.len() == 0
            && c.unstaged.deleted@.len() == 0 && c.unstaged.modified@.len() == 0,
{
    let (workdir, _) = git2_repo_dirs(repo);
    match workdir {
        Some(workdir) => get_staged_filenames_diff_from_path(workdir.as_str()),
        None => Err(error_from_message("bare repositories are not supported")),
    }
}

} // verus!
