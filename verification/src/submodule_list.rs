use vstd::prelude::*;
use crate::branch_visibility::bytes_as_str;
use crate::refs::{git2_repo_dirs, gix_repo_for};
use crate::staging::path_exists;
use crate::submodule_actions::{gix_submodule_name_and_path, gix_submodules, head_id, open_submodule};
use crate::submodules::{
    entry_flags_agree, sort_submodules, sorted_by_path, submodule_entry_from, ContentChange, DirEntryStatus, SubmoduleEntry, SubmoduleFacts,
    WorktreeEntryStatus,
};
use crate::git_types::{find_tree, open_repo};
use crate::file_history::tree_entry_at;
use crate::text::{str_chars, string_from_chars};
use gix::status::index_worktree::Item as IndexWorktreeItem;
use gix::status::plumbing::index_as_worktree::{Change, EntryStatus};

verus! {

#[verifier::external_type_specification]
#[verifier::external_body]
pub struct ExStatusItem(gix::status::Item);

#[verifier::external_type_specification]
#[verifier::external_body]
pub struct ExSubmoduleStatus(gix::submodule::Status);

#[verifier::external_type_specification]
#[verifier::external_body]
pub struct ExDirStatus(gix::dir::entry::Status);

#[verifier::external_type_specification]
#[verifier::external_body]
#[verifier::reject_recursive_types(T)]
#[verifier::reject_recursive_types(U)]
pub struct ExEntryStatus<T, U>(gix::status::plumbing::index_as_worktree::EntryStatus<T, U>);

/// The state flags of a submodule that a listing reads.
#[derive(Clone, Copy, Debug, PartialEq, Eq, Structural)]
pub struct SubmoduleState {
    pub repository_exists: bool,
    pub superproject_configuration: bool,
    pub worktree_checkout: bool,
}

/// The branch a submodule's configuration names.
pub enum ConfiguredBranch {
    /// `.`: the superproject's current branch.
    CurrentInSuperproject,
    /// A branch name, as bytes.
    Name(Vec<u8>),
}

/// `dir::entry::Status`, variant by variant (the last arm is its one remaining variant, the
/// tracked entry).
#[verifier::external_body]
fn dir_entry_status(status: &gix::dir::entry::Status) -> DirEntryStatus {
    match status {
        gix::dir::entry::Status::Pruned => DirEntryStatus::Pruned,
        gix::dir::entry::Status::Ignored(_) => DirEntryStatus::Ignored,
        gix::dir::entry::Status::Untracked => DirEntryStatus::Untracked,
        _ => DirEntryStatus::TrackedFile,
    }
}

/// `index_as_worktree::EntryStatus`, variant by variant, with the `Change` variants flattened.
#[verifier::external_body]
fn worktree_entry_status(status: &EntryStatus<(), gix::submodule::Status>) -> WorktreeEntryStatus {
    match status {
        EntryStatus::Conflict { .. } => WorktreeEntryStatus::Conflict,
        EntryStatus::Change(Change::Removed) => WorktreeEntryStatus::Removed,
        EntryStatus::Change(Change::Type { .. }) => WorktreeEntryStatus::TypeChange,
        EntryStatus::Change(Change::Modification { .. }) => WorktreeEntryStatus::Modification,
        EntryStatus::Change(Change::SubmoduleModification(_)) => WorktreeEntryStatus::SubmoduleModification,
        EntryStatus::NeedsUpdate(_) => WorktreeEntryStatus::NeedsUpdate,
        EntryStatus::IntentToAdd => WorktreeEntryStatus::IntentToAdd,
    }
}

/// A status item of a submodule's checkout, variant by variant.
#[verifier::external_body]
fn content_change(item: &gix::status::Item) -> ContentChange {
    match item {
        gix::status::Item::TreeIndex(_) => ContentChange::TreeIndex,
        gix::status::Item::IndexWorktree(IndexWorktreeItem::DirectoryContents { entry, .. }) => ContentChange::DirectoryContents { walk_status: dir_entry_status(&entry.status) },
        gix::status::Item::IndexWorktree(IndexWorktreeItem::Rewrite { .. }) => ContentChange::Rewrite,
        gix::status::Item::IndexWorktree(IndexWorktreeItem::Modification { status, .. }) => ContentChange::Modification { entry_status: worktree_entry_status(status) },
    }
}

/// `Submodule::status(Ignore::None, false)`, where it can be read. What is on disk decides, so
/// nothing is stated.
#[verifier::external_body]
fn submodule_status(submodule: &gix::Submodule<'_>) -> Option<gix::submodule::Status> {
    submodule.status(gix::submodule::config::Ignore::None, false).ok()
}

/// The state flags of a submodule status.
#[verifier::external_body]
fn status_state(status: &gix::submodule::Status) -> SubmoduleState {
    let state = &status.state;
    SubmoduleState { repository_exists: state.repository_exists, superproject_configuration: state.superproject_configuration, worktree_checkout: state.worktree_checkout }
}

/// The changes of a submodule status, each as a `ContentChange`; none where they were not
/// computed.
#[verifier::external_body]
fn status_changes(status: &gix::submodule::Status) -> Option<Vec<ContentChange>> {
    status.changes.as_ref().map(|changes| changes.iter().map(content_change).collect())
}

/// `Submodule::state`, the default (all flags clear) where it cannot be read.
#[verifier::external_body]
fn submodule_state(submodule: &gix::Submodule<'_>) -> SubmoduleState {
    let state = submodule.state().unwrap_or_default();
    SubmoduleState { repository_exists: state.repository_exists, superproject_configuration: state.superproject_configuration, worktree_checkout: state.worktree_checkout }
}

/// `Submodule::path` as a path's display text, where it can be read.
#[verifier::external_body]
fn submodule_path_text(submodule: &gix::Submodule<'_>) -> Option<String> {
    let path = gix::path::from_bstring(submodule.path().ok()?).ok()?;
    Some(path.display().to_string())
}

/// `Submodule::branch`, variant by variant, where it can be read and is set.
#[verifier::external_body]
fn submodule_branch(submodule: &gix::Submodule<'_>) -> Option<ConfiguredBranch> {
    match submodule.branch().ok().flatten()? {
        gix::submodule::config::Branch::CurrentInSuperproject => Some(ConfiguredBranch::CurrentInSuperproject),
        gix::submodule::config::Branch::Name(name) => Some(ConfiguredBranch::Name(name.to_vec())),
    }
}

/// `Submodule::url` as text, where it can be read.
#[verifier::external_body]
fn submodule_url(submodule: &gix::Submodule<'_>) -> Option<String> {
    submodule.url().ok().map(|url| url.to_string())
}

/// `Submodule::head_id` and `Submodule::index_id`, where they can be read.
#[verifier::external_body]
fn submodule_head_and_index(submodule: &gix::Submodule<'_>) -> (Option<gix::ObjectId>, Option<gix::ObjectId>) {
    (submodule.head_id().ok().flatten(), submodule.index_id().ok().flatten())
}

/// `Repository::head_name` shortened (`main` for `refs/heads/main`), where HEAD names a branch
/// whose short name is UTF-8.
#[verifier::external_body]
fn head_branch_short_name(repo: &gix::Repository) -> Option<String> {
    let head = repo.head_name().ok().flatten()?;
    let short: &[u8] = head.shorten();
    gix::bstr::ByteSlice::to_str(short).ok().map(str::to_string)
}

/// `Path::join` of `dir` and `name`, as display text.
#[verifier::external_body]
pub(crate) fn join_path(dir: &str, name: &str) -> String {
    std::path::Path::new(dir).join(name).display().to_string()
}

/// `Repository::head_tree_id_or_empty`, detached: HEAD's tree, the empty tree where HEAD is
/// unborn. What is on disk decides, so nothing is stated.
#[verifier::external_body]
fn head_tree_id_or_empty(repo: &gix::Repository) -> Result<gix::ObjectId, git2::Error> {
    repo.head_tree_id_or_empty().map(|id| id.detach()).map_err(|e| git2::Error::from_str(&e.to_string()))
}

/// The id of the entry at `path` in HEAD's tree (the empty tree where HEAD is unborn), where
/// there is one and it can be read.
pub(crate) fn head_tree_entry_id(repo: &gix::Repository, path: &str) -> Option<gix::ObjectId> {
    let tree_id = match head_tree_id_or_empty(repo) {
        Ok(id) => id,
        Err(_) => {
            return None;
        },
    };
    let tree = match find_tree(repo, tree_id) {
        Ok(tree) => tree,
        Err(_) => {
            return None;
        },
    };
    match tree_entry_at(&tree, path) {
        Ok(Some(entry)) => Some(entry.id),
        _ => None,
    }
}

/// The branch a submodule's configuration names, as text: `.` for the superproject's current
/// branch, a name only where it is UTF-8.
pub fn configured_branch_name(branch: Option<ConfiguredBranch>) -> (r: Option<String>)
    ensures
        branch is None ==> r is None,
        branch matches Some(ConfiguredBranch::CurrentInSuperproject) ==> r matches Some(s) && s@ == "."@,
{
    match branch {
        None => None,
        Some(ConfiguredBranch::CurrentInSuperproject) => Some(string_from_chars(&str_chars("."))),
        Some(ConfiguredBranch::Name(name)) => match bytes_as_str(name.as_slice()) {
            Some(text) => Some(string_from_chars(&str_chars(text))),
            None => None,
        },
    }
}

/// What is read of one submodule, none where its path cannot be read: its name where UTF-8
/// (else its path), where it lies under `workdir`, its URL, its branch (the checkout's current
/// branch, else the configured one), its ids, its state and the changes of its checkout.
fn submodule_facts(submodule: &gix::Submodule<'_>, workdir: &str) -> Option<SubmoduleFacts> {
    let path = submodule_path_text(submodule)?;
    let (name_bytes, _) = gix_submodule_name_and_path(submodule);
    let name = match bytes_as_str(name_bytes.as_slice()) {
        Some(name) => string_from_chars(&str_chars(name)),
        None => path.clone(),
    };
    let opened = match open_submodule(submodule) {
        Ok(opened) => opened,
        Err(_) => None,
    };
    let status = submodule_status(submodule);
    let state = match &status {
        Some(status) => status_state(status),
        None => submodule_state(submodule),
    };
    let branch = match &opened {
        Some(repo) => head_branch_short_name(repo),
        None => None,
    };
    let branch = match branch {
        Some(branch) => Some(branch),
        None => configured_branch_name(submodule_branch(submodule)),
    };
    let (head, index) = submodule_head_and_index(submodule);
    let workdir_id = match &opened {
        Some(repo) => match head_id(repo) {
            Ok(id) => Some(id),
            Err(_) => None,
        },
        None => None,
    };
    let changes = match &status {
        Some(status) => status_changes(status),
        None => None,
    };
    let absolute_path = join_path(workdir, path.as_str());
    Some(SubmoduleFacts {
        name,
        path,
        absolute_path,
        url: submodule_url(submodule),
        branch,
        head,
        index,
        workdir: workdir_id,
        is_open: opened.is_some(),
        repository_exists: state.repository_exists,
        superproject_configuration: state.superproject_configuration,
        worktree_checkout: state.worktree_checkout,
        changes,
    })
}

/// The submodules of a repository whose working directory is `workdir`, ordered by path;
/// those whose path cannot be read are left out.
pub fn list_submodules_from_gix_repo(repo: &gix::Repository, workdir: &str) -> (r: Result<Vec<SubmoduleEntry>, git2::Error>)
    ensures
        r matches Ok(entries) ==> sorted_by_path(entries@),
        r matches Ok(entries) ==> forall|i: int| 0 <= i < entries@.len() ==> entry_flags_agree(#[trigger] entries@[i]),
{
    let submodules = match gix_submodules(repo)? {
        Some(submodules) => submodules,
        None => Vec::new(),
    };
    let mut entries: Vec<SubmoduleEntry> = Vec::new();
    let mut i: usize = 0;
    while i < submodules.len()
        invariant
            i <= submodules@.len(),
            forall|k: int| 0 <= k < entries@.len() ==> entry_flags_agree(#[trigger] entries@[k]),
        decreases submodules@.len() - i,
    {
        match submodule_facts(&submodules[i], workdir) {
            Some(facts) => entries.push(submodule_entry_from(facts)),
            None => {},
        }
        i += 1;
    }
    let sorted = sort_submodules(entries);
    proof {
        broadcast use vstd::seq_lib::group_to_multiset_ensures;
        assert forall|k: int| 0 <= k < sorted@.len() implies entry_flags_agree(#[trigger] sorted@[k]) by {
            assert(sorted@.to_multiset().count(sorted@[k]) > 0);
            assert(entries@.contains(sorted@[k]));
        }
    }
    Ok(sorted)
}

/// Whether the working directory or HEAD's tree has a `.gitmodules` file.
pub fn has_committed_or_workdir_submodule_metadata(repo: &git2::Repository) -> bool {
    let (workdir, _) = git2_repo_dirs(repo);
    let workdir_has_gitmodules = match workdir {
        Some(dir) => path_exists(join_path(dir.as_str(), ".gitmodules").as_str()),
        None => false,
    };
    let head_has_gitmodules = match gix_repo_for(repo) {
        Ok(gix_repo) => head_tree_entry_id(&gix_repo, ".gitmodules").is_some(),
        Err(_) => false,
    };
    workdir_has_gitmodules || head_has_gitmodules
}

/// Whether the repository at `path` has a `.gitmodules` file in its working directory or in
/// HEAD's tree.
pub fn has_committed_or_workdir_submodule_metadata_from_path(path: &str) -> bool {
    let workdir_has_gitmodules = path_exists(join_path(path, ".gitmodules").as_str());
    let head_has_gitmodules = match open_repo(path) {
        Ok(gix_repo) => head_tree_entry_id(&gix_repo, ".gitmodules").is_some(),
        Err(_) => false,
    };
    workdir_has_gitmodules || head_has_gitmodules
}

/// The submodules of a repository, ordered by path; none where it has no `.gitmodules` (see
/// `has_committed_or_workdir_submodule_metadata`).
pub fn list_submodules(repo: &git2::Repository) -> (r: Result<Vec<SubmoduleEntry>, git2::Error>)
    ensures
        r matches Ok(entries) ==> sorted_by_path(entries@),
        r matches Ok(entries) ==> forall|i: int| 0 <= i < entries@.len() ==> entry_flags_agree(#[trigger] entries@[i]),
{
    if !has_committed_or_workdir_submodule_metadata(repo) {
        return Ok(Vec::new());
    }
    let gix_repo = gix_repo_for(repo)?;
    let (workdir, _) = git2_repo_dirs(repo);
    let workdir = match workdir {
        Some(dir) => dir,
        None => string_from_chars(&str_chars(".")),
    };
    list_submodules_from_gix_repo(&gix_repo, workdir.as_str())
}

/// The submodules of the repository at `path`, ordered by path; none where it has no
/// `.gitmodules`.
pub fn list_submodules_from_path(path: &str) -> (r: Result<Vec<SubmoduleEntry>, git2::Error>)
    ensures
        r matches Ok(entries) ==> sorted_by_path(entries@),
        r matches Ok(entries) ==> forall|i: int| 0 <= i < entries@.len() ==> entry_flags_agree(#[trigger] entries@[i]),
{
    if !has_committed_or_workdir_submodule_metadata_from_path(path) {
        return Ok(Vec::new());
    }
    let gix_repo = open_repo(path)?;
    list_submodules_from_gix_repo(&gix_repo, path)
}

} // verus!
