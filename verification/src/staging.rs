use vstd::prelude::*;
use crate::changes::texts;
use crate::diffs::{in_submodule, is_submodule_status_path};
use crate::git_types::{oid_bytes, oid_eq};
use crate::oids::{git2_oid_bytes, git2_to_gix_oid};
use vstd::utf8::encode_utf8;

verus! {

#[verifier::external_type_specification]
#[verifier::external_body]
pub struct ExGit2Index(git2::Index);

#[verifier::external_type_specification]
#[verifier::external_body]
pub struct ExGit2Submodule<'repo>(git2::Submodule<'repo>);

#[verifier::external_type_specification]
#[verifier::external_body]
pub struct ExGit2Commit<'repo>(git2::Commit<'repo>);

/// What staging does with one path.
#[derive(Clone, Copy, Debug, PartialEq, Eq, Structural)]
pub enum StageStep {
    /// Leave the index as it is.
    Skip,
    /// Remove the path's index entry.
    RemoveFromIndex,
    /// Add the path's current content to the index.
    AddToIndex,
}

/// The step for one entry of the working-tree status when everything is staged: entries at or
/// inside a submodule are skipped (the submodule's recorded commit is staged on its own); a path
/// deleted in the working tree or in the index leaves the index where it has an entry there; any
/// other path is added.
pub open spec fn stage_step_of(path: Seq<char>, deleted: bool, in_index: bool, submodule_paths: Seq<Seq<char>>) -> StageStep {
    if in_submodule(path, submodule_paths) {
        StageStep::Skip
    } else if deleted {
        if in_index { StageStep::RemoveFromIndex } else { StageStep::Skip }
    } else {
        StageStep::AddToIndex
    }
}

/// The step for one status entry (see `stage_step_of`).
pub fn stage_step(path: &str, deleted: bool, in_index: bool, submodule_paths: &Vec<String>) -> (s: StageStep)
    ensures
        s == stage_step_of(path@, deleted, in_index, texts(submodule_paths@)),
{
    if is_submodule_status_path(path, submodule_paths) {
        StageStep::Skip
    } else if deleted {
        if in_index { StageStep::RemoveFromIndex } else { StageStep::Skip }
    } else {
        StageStep::AddToIndex
    }
}

/// The step when one file is staged: a file that exists is added, a missing one is staged as a
/// deletion by removing its index entry.
pub fn stage_file_step(exists: bool) -> (s: StageStep)
    ensures
        s == (if exists { StageStep::AddToIndex } else { StageStep::RemoveFromIndex }),
{
    if exists { StageStep::AddToIndex } else { StageStep::RemoveFromIndex }
}

/// The working-directory flags of a submodule's status that staging reads.
#[derive(Clone, Copy, Debug, PartialEq, Eq, Structural)]
pub struct WorkdirPointerStatus {
    pub wd_added: bool,
    pub wd_deleted: bool,
    pub wd_modified: bool,
}

/// How a submodule's recorded commit differs from what its working directory holds.
#[derive(Clone, Copy, Debug, PartialEq, Eq, Structural)]
pub enum PointerChange {
    /// Nothing to stage.
    Unchanged,
    /// The submodule's directory is gone: its index entry is removed.
    Deleted,
    /// The submodule is added to the index with its checked-out commit.
    Changed,
}

/// A submodule needs staging when its working directory was added, deleted or modified, or when
/// its checked-out commit and its index commit are both known and differ; a deleted one is
/// removed from the index.
pub open spec fn pointer_change_of(status: WorkdirPointerStatus, workdir_id: Option<Seq<u8>>, index_id: Option<Seq<u8>>) -> PointerChange {
    let ids_differ = match (workdir_id, index_id) {
        (Some(w), Some(i)) => w != i,
        _ => false,
    };
    if !(status.wd_added || status.wd_deleted || status.wd_modified || ids_differ) {
        PointerChange::Unchanged
    } else if status.wd_deleted {
        PointerChange::Deleted
    } else {
        PointerChange::Changed
    }
}

pub open spec fn git2_id_view(id: Option<git2::Oid>) -> Option<Seq<u8>> {
    match id {
        Some(id) => Some(git2_oid_bytes(id)),
        None => None,
    }
}

/// What staging does with a submodule's recorded commit (see `pointer_change_of`).
pub fn pointer_change(status: WorkdirPointerStatus, workdir_id: Option<git2::Oid>, index_id: Option<git2::Oid>) -> (c: PointerChange)
    ensures
        c == pointer_change_of(status, git2_id_view(workdir_id), git2_id_view(index_id)),
{
    let ids_differ = match (workdir_id, index_id) {
        (Some(w), Some(i)) => {
            let w = git2_to_gix_oid(w);
            let i = git2_to_gix_oid(i);
            !oid_eq(&w, &i)
        },
        _ => false,
    };
    if !(status.wd_added || status.wd_deleted || status.wd_modified || ids_differ) {
        PointerChange::Unchanged
    } else if status.wd_deleted {
        PointerChange::Deleted
    } else {
        PointerChange::Changed
    }
}


#[verifier::external_type_specification]
#[verifier::external_body]
pub struct ExGit2Reference<'repo>(git2::Reference<'repo>);

/// One entry of a working-tree status listing: its path where the path is UTF-8, and whether the
/// file was deleted in the working tree or in the index.
pub struct StatusEntry {
    pub path: Option<String>,
    pub wt_deleted: bool,
    pub index_deleted: bool,
}

/// `Repository::index`. What is on disk decides, so nothing is stated.
#[verifier::external_body]
pub(crate) fn repo_index(repo: &git2::Repository) -> Result<git2::Index, git2::Error> {
    repo.index()
}

/// Which entries a status listing holds (the `git2::StatusOptions` of the same names).
pub struct StatusSelection {
    pub include_untracked: bool,
    pub recurse_untracked_dirs: bool,
    pub include_ignored: bool,
    pub include_unmodified: bool,
    pub exclude_submodules: bool,
}

/// The listing that staging everything works from: untracked files, recursing into untracked
/// directories, and no ignored files, unmodified files or submodules.
pub fn staging_selection() -> (s: StatusSelection)
    ensures
        s.include_untracked && s.recurse_untracked_dirs,
        !s.include_ignored && !s.include_unmodified,
        s.exclude_submodules,
{
    StatusSelection { include_untracked: true, recurse_untracked_dirs: true, include_ignored: false, include_unmodified: false, exclude_submodules: true }
}

/// `Repository::statuses` with the options of `selection`: each entry's path and deletion flags,
/// in the listing's order. What is on disk decides, so nothing is stated.
#[verifier::external_body]
fn worktree_statuses(repo: &git2::Repository, selection: StatusSelection) -> Result<Vec<StatusEntry>, git2::Error> {
    let mut opts = git2::StatusOptions::new();
    opts.include_untracked(selection.include_untracked).recurse_untracked_dirs(selection.recurse_untracked_dirs);
    opts.include_ignored(selection.include_ignored).include_unmodified(selection.include_unmodified).exclude_submodules(selection.exclude_submodules);
    let statuses = repo.statuses(Some(&mut opts))?;
    let entry = |e: git2::StatusEntry<'_>| StatusEntry { path: e.path().ok().map(str::to_string), wt_deleted: e.status().is_wt_deleted(), index_deleted: e.status().is_index_deleted() };
    Ok(statuses.iter().map(entry).collect())
}

/// The paths (as bytes) that have an unconflicted (stage 0) entry in an index.
pub uninterp spec fn index_paths(index: git2::Index) -> Set<Seq<u8>>;

/// `Index::get_path(path, 0)`: the id of the index's unconflicted entry for `path`, where it has
/// one. The entry's id is not stated.
#[verifier::external_body]
pub(crate) fn index_entry_id(index: &git2::Index, path: &str) -> (r: Option<git2::Oid>)
    ensures
        r is Some == index_paths(*index).contains(encode_utf8(path@)),
{
    index.get_path(std::path::Path::new(path), 0).map(|entry| entry.id)
}

/// `Index::remove_path`: the entries at `path` leave the index.
#[verifier::external_body]
fn index_remove_path(index: &mut git2::Index, path: &str) -> (r: Result<(), git2::Error>)
    ensures
        r is Ok ==> index_paths(*final(index)) == index_paths(*old(index)).remove(encode_utf8(path@)),
{
    index.remove_path(std::path::Path::new(path))
}

/// `Index::add_path`: the file's current content from the working tree becomes the unconflicted
/// entry at `path`. The content is not stated.
#[verifier::external_body]
fn index_add_path(index: &mut git2::Index, path: &str) -> (r: Result<(), git2::Error>)
    ensures
        r is Ok ==> index_paths(*final(index)) == index_paths(*old(index)).insert(encode_utf8(path@)),
{
    index.add_path(std::path::Path::new(path))
}

/// `Index::write`: the index back to disk; its entries stay.
#[verifier::external_body]
fn index_write(index: &mut git2::Index) -> (r: Result<(), git2::Error>)
    ensures
        index_paths(*final(index)) == index_paths(*old(index)),
{
    index.write()
}

/// The index paths after the status entries `statuses` were staged one by one from `paths` (see
/// `stage_step_of`; an entry without a UTF-8 path is passed over).
pub open spec fn staged_paths(paths: Set<Seq<u8>>, statuses: Seq<StatusEntry>, submodule_paths: Seq<Seq<char>>) -> Set<Seq<u8>>
    decreases statuses.len(),
{
    if statuses.len() == 0 {
        paths
    } else {
        let before = staged_paths(paths, statuses.drop_last(), submodule_paths);
        let e = statuses.last();
        match e.path {
            None => before,
            Some(path) => {
                let bytes = encode_utf8(path@);
                match stage_step_of(path@, e.wt_deleted || e.index_deleted, before.contains(bytes), submodule_paths) {
                    StageStep::Skip => before,
                    StageStep::RemoveFromIndex => before.remove(bytes),
                    StageStep::AddToIndex => before.insert(bytes),
                }
            },
        }
    }
}

/// Stage each status entry in `index`, in order (see `staged_paths`). The first error stops the
/// work and is returned; on success the index holds the paths `staged_paths` gives.
pub fn stage_entries(index: &mut git2::Index, statuses: &Vec<StatusEntry>, submodule_paths: &Vec<String>) -> (r: Result<(), git2::Error>)
    ensures
        r is Ok ==> index_paths(*final(index)) == staged_paths(index_paths(*old(index)), statuses@, texts(submodule_paths@)),
{
    let mut i: usize = 0;
    while i < statuses.len()
        invariant
            i <= statuses@.len(),
            index_paths(*index) == staged_paths(index_paths(*old(index)), statuses@.take(i as int), texts(submodule_paths@)),
        decreases statuses@.len() - i,
    {
        proof {
            assert(statuses@.take(i as int + 1).drop_last() =~= statuses@.take(i as int));
        }
        if let Some(path) = &statuses[i].path {
            let deleted = statuses[i].wt_deleted || statuses[i].index_deleted;
            let in_index = deleted && index_entry_id(index, path.as_str()).is_some();
            match stage_step(path.as_str(), deleted, in_index, submodule_paths) {
                StageStep::Skip => {},
                StageStep::RemoveFromIndex => index_remove_path(index, path.as_str())?,
                StageStep::AddToIndex => index_add_path(index, path.as_str())?,
            }
        }
        i += 1;
    }
    assert(statuses@.take(statuses@.len() as int) =~= statuses@);
    Ok(())
}

/// Stage the one `path` in `index` (see `stage_file_step`): added where the file exists,
/// removed where it does not.
pub fn stage_path(index: &mut git2::Index, path: &str, exists: bool) -> (r: Result<(), git2::Error>)
    ensures
        r is Ok ==> index_paths(*final(index)) == (if exists {
            index_paths(*old(index)).insert(encode_utf8(path@))
        } else {
            index_paths(*old(index)).remove(encode_utf8(path@))
        }),
{
    match stage_file_step(exists) {
        StageStep::AddToIndex => index_add_path(index, path),
        _ => index_remove_path(index, path),
    }
}

/// `Repository::submodules`. What is on disk decides, so nothing is stated.
#[verifier::external_body]
fn repo_submodules(repo: &git2::Repository) -> Result<Vec<git2::Submodule<'_>>, git2::Error> {
    repo.submodules()
}

/// `Submodule::path` as lossy UTF-8 and `Submodule::name` where it is UTF-8.
#[verifier::external_body]
fn submodule_path_and_name(submodule: &git2::Submodule<'_>) -> (String, Option<String>) {
    (submodule.path().to_string_lossy().to_string(), submodule.name().ok().map(str::to_string))
}

/// `Submodule::workdir_id` and `Submodule::index_id`. Nothing is stated.
#[verifier::external_body]
fn submodule_ids(submodule: &git2::Submodule<'_>) -> (Option<git2::Oid>, Option<git2::Oid>) {
    (submodule.workdir_id(), submodule.index_id())
}

/// The index and working-directory flags of a submodule's status.
#[derive(Clone, Copy, Debug, PartialEq, Eq, Structural)]
pub struct SubmoduleStatusFlags {
    pub index_added: bool,
    pub index_deleted: bool,
    pub index_modified: bool,
    pub wd_added: bool,
    pub wd_deleted: bool,
    pub wd_modified: bool,
}

/// `Repository::submodule_status(name, SubmoduleIgnore::None)`: its index and working-directory
/// flags. What is on disk decides, so nothing is stated.
#[verifier::external_body]
fn submodule_status_flags(repo: &git2::Repository, name: &str) -> Result<SubmoduleStatusFlags, git2::Error> {
    let s = repo.submodule_status(name, git2::SubmoduleIgnore::None)?;
    let (index_added, index_deleted, index_modified) = (s.is_index_added(), s.is_index_deleted(), s.is_index_modified());
    Ok(SubmoduleStatusFlags { index_added, index_deleted, index_modified, wd_added: s.is_wd_added(), wd_deleted: s.is_wd_deleted(), wd_modified: s.is_wd_modified() })
}

/// `Submodule::add_to_index(true)`: the submodule's checked-out commit into the index, which is
/// written. Nothing is stated.
#[verifier::external_body]
fn submodule_add_to_index(submodule: &mut git2::Submodule<'_>) -> Result<(), git2::Error> {
    submodule.add_to_index(true)
}

/// `Repository::head`. What is on disk decides, so nothing is stated.
#[verifier::external_body]
fn repo_head(repo: &git2::Repository) -> Result<git2::Reference<'_>, git2::Error> {
    repo.head()
}

/// `Reference::peel_to_commit`. Nothing is stated.
#[verifier::external_body]
fn peel_to_commit<'repo>(reference: &git2::Reference<'repo>) -> Result<git2::Commit<'repo>, git2::Error> {
    reference.peel_to_commit()
}

/// `Repository::reset` to `commit` with `ResetType::Mixed`: the index returns to the commit's
/// tree, the working tree is kept. Nothing is stated.
#[verifier::external_body]
fn reset_index_to(repo: &git2::Repository, commit: git2::Commit<'_>) -> Result<(), git2::Error> {
    repo.reset(&commit.into_object(), git2::ResetType::Mixed, None)
}

/// `Repository::reset_default` of the one `path` to `commit`. Nothing is stated.
#[verifier::external_body]
fn reset_path_to(repo: &git2::Repository, commit: git2::Commit<'_>, path: &str) -> Result<(), git2::Error> {
    repo.reset_default(Some(&commit.into_object()), [path])
}

/// `Path::exists`. What is on disk decides, so nothing is stated.
#[verifier::external_body]
pub(crate) fn path_exists(path: &str) -> bool {
    std::path::Path::new(path).exists()
}

/// A submodule's status flags, asked by its name and else by its path; all flags clear when
/// neither answers.
pub(crate) fn submodule_status_for(repo: &git2::Repository, name: &str, path: &str) -> SubmoduleStatusFlags {
    match submodule_status_flags(repo, name) {
        Ok(status) => status,
        Err(_) => match submodule_status_flags(repo, path) {
            Ok(status) => status,
            Err(_) => SubmoduleStatusFlags {
                index_added: false,
                index_deleted: false,
                index_modified: false,
                wd_added: false,
                wd_deleted: false,
                wd_modified: false,
            },
        },
    }
}

/// Stage a submodule's recorded commit where it changed (see `pointer_change_of`): a deleted
/// submodule leaves the index, a changed one is added with its checked-out commit.
fn stage_submodule_pointer_change(repo: &git2::Repository, mut submodule: git2::Submodule<'_>) -> Result<(), git2::Error> {
    let (path, name) = submodule_path_and_name(&submodule);
    let name = match name {
        Some(name) => name,
        None => path.clone(),
    };
    let flags = submodule_status_for(repo, name.as_str(), path.as_str());
    let status = WorkdirPointerStatus { wd_added: flags.wd_added, wd_deleted: flags.wd_deleted, wd_modified: flags.wd_modified };
    let (workdir_id, index_id) = submodule_ids(&submodule);
    match pointer_change(status, workdir_id, index_id) {
        PointerChange::Unchanged => Ok(()),
        PointerChange::Deleted => {
            let mut index = repo_index(repo)?;
            if index_entry_id(&index, path.as_str()).is_some() {
                index_remove_path(&mut index, path.as_str())?;
                index_write(&mut index)?;
            }
            Ok(())
        },
        PointerChange::Changed => submodule_add_to_index(&mut submodule),
    }
}

/// Whether `s` is the listing that staging everything asks for (see `staging_selection`).
pub open spec fn is_staging_selection(s: StatusSelection) -> bool {
    s.include_untracked && s.recurse_untracked_dirs && !s.include_ignored && !s.include_unmodified && s.exclude_submodules
}

/// Stage every status entry that `statuses` lists for the staging selection (see
/// `staging_selection` and `staged_paths`) in `index`, then write it. On success the index paths
/// are those of `staged_paths` for the listing `statuses` gave; an error of the listing or of a
/// step is returned.
pub fn stage_all_in<S: FnOnce(StatusSelection) -> Result<Vec<StatusEntry>, git2::Error>>(index: &mut git2::Index, statuses: S, submodule_paths: &Vec<String>) -> (r: Result<(), git2::Error>)
    requires
        forall|s: StatusSelection| call_requires(statuses, (s,)),
    ensures
        r is Ok ==> exists|sel: StatusSelection, listed: Vec<StatusEntry>|
            #![trigger call_ensures(statuses, (sel,), Ok::<Vec<StatusEntry>, git2::Error>(listed))]
            is_staging_selection(sel) && call_ensures(statuses, (sel,), Ok::<Vec<StatusEntry>, git2::Error>(listed))
            && index_paths(*final(index)) == staged_paths(index_paths(*old(index)), listed@, texts(submodule_paths@)),
{
    let selection = staging_selection();
    let ghost sel = selection;
    let listed = statuses(selection)?;
    let ghost got = listed;
    stage_entries(index, &listed, submodule_paths)?;
    index_write(index)?;
    proof {
        assert(is_staging_selection(sel));
        assert(call_ensures(statuses, (sel,), Ok::<Vec<StatusEntry>, git2::Error>(got)));
    }
    Ok(())
}

/// Stage every change of the working tree: each status entry takes the step of `stage_step_of`
/// (submodule paths from the repository's submodules, none where they cannot be listed), the
/// index is written, then each submodule's recorded commit is staged where it changed. The first
/// error stops the work and is returned. What the calls find on disk decides the outcome, so
/// nothing is stated of it.
pub fn stage_all(repo: &git2::Repository) -> Result<(), git2::Error> {
    let mut index = repo_index(repo)?;
    let mut submodules = match repo_submodules(repo) {
        Ok(submodules) => submodules,
        Err(_) => Vec::new(),
    };
    let mut submodule_paths: Vec<String> = Vec::new();
    let mut k: usize = 0;
    while k < submodules.len()
        invariant
            k <= submodules@.len(),
        decreases submodules@.len() - k,
    {
        let (path, _) = submodule_path_and_name(&submodules[k]);
        submodule_paths.push(path);
        k += 1;
    }
    stage_all_in(&mut index, |selection: StatusSelection| worktree_statuses(repo, selection), &submodule_paths)?;
    while submodules.len() > 0
        decreases submodules@.len(),
    {
        let submodule = submodules.remove(0);
        stage_submodule_pointer_change(repo, submodule)?;
    }
    Ok(())
}

/// Return the whole index to HEAD's tree, keeping the working tree (a mixed reset); nothing is
/// done where the repository has no HEAD. Errors of the calls are returned; what is on disk
/// decides, so nothing is stated of the outcome.
pub fn unstage_all(repo: &git2::Repository) -> Result<(), git2::Error> {
    let head = match repo_head(repo) {
        Ok(head) => head,
        Err(_) => {
            return Ok(());
        },
    };
    let commit = peel_to_commit(&head)?;
    reset_index_to(repo, commit)
}

/// Stage one file (see `stage_file_step`): an existing path is added, a missing one removed from
/// the index; the index is then written. What is on disk decides, so nothing is stated of the
/// outcome.
pub fn stage_file(repo: &git2::Repository, path: &str) -> Result<(), git2::Error> {
    let mut index = repo_index(repo)?;
    stage_file_in(&mut index, path, &|p: &str| path_exists(p))
}

/// The index paths after staging one `path`: `path` is in them exactly when the file exists, and
/// every other path stays as it was.
pub open spec fn staged_one(before: Set<Seq<u8>>, after: Set<Seq<u8>>, path: Seq<char>, exists: bool) -> bool {
    after == (if exists { before.insert(encode_utf8(path)) } else { before.remove(encode_utf8(path)) })
}

/// Stage `path` in `index` by what `file_exists` tells of the file, then write the index: on
/// success the file's path is added when `file_exists` answered that the file is there, removed otherwise.
pub fn stage_file_in<E: Fn(&str) -> bool>(index: &mut git2::Index, path: &str, file_exists: &E) -> (r: Result<(), git2::Error>)
    requires
        call_requires(*file_exists, (path,)),
    ensures
        r is Ok ==> exists|b: bool| #[trigger] call_ensures(*file_exists, (path,), b)
            && staged_one(index_paths(*old(index)), index_paths(*final(index)), path@, b),
{
    let present = file_exists(path);
    stage_path(index, path, present)?;
    index_write(index)
}

/// Staging one file, for every index and path: afterwards the index holds the path exactly when
/// the file exists, and no other path is added or removed.
pub proof fn law_stage_one_file(before: Set<Seq<u8>>, after: Set<Seq<u8>>, path: Seq<char>, exists: bool)
    requires
        staged_one(before, after, path, exists),
    ensures
        after.contains(encode_utf8(path)) == exists,
        forall|other: Seq<u8>| other != encode_utf8(path) ==> (#[trigger] after.contains(other) == before.contains(other)),
{
}

/// Unstage one file: its index entry returns to HEAD's version; without HEAD the entry is removed
/// and the index written. What is on disk decides, so nothing is stated of the outcome.
pub fn unstage_file(repo: &git2::Repository, path: &str) -> Result<(), git2::Error> {
    match repo_head(repo) {
        Ok(head) => {
            let commit = peel_to_commit(&head)?;
            reset_path_to(repo, commit, path)
        },
        Err(_) => {
            let mut index = repo_index(repo)?;
            index_remove_path(&mut index, path)?;
            index_write(&mut index)
        },
    }
}

} // verus!
