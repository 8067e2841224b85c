use vstd::prelude::*;
use crate::branch_visibility::bytes_as_str;
use crate::checkout::{index_file_entries, path_join, repo_workdir, same_entries_elsewhere, sort_index_entries, write_index_file};
use crate::git_types::oid_bytes;
use crate::git_types::error_from_message;
use crate::refs::{gix_repo_for, prefixed_name};

verus! {

#[verifier::external_type_specification]
#[verifier::external_body]
pub struct ExGixSubmodule<'repo>(gix::Submodule<'repo>);

#[verifier::external_type_specification]
#[verifier::external_body]
pub struct ExGixUrl(gix::Url);

#[verifier::external_type_specification]
#[verifier::external_body]
pub struct ExConfigFile(gix::config::File);

/// Whether a submodule is the one asked for: its name is `wanted`, or its path (where it can be
/// read) is.
pub fn submodule_matches(name: &[u8], path: &Option<Vec<u8>>, wanted: &[u8]) -> (r: bool)
    ensures
        r == (name@ == wanted@ || (path matches Some(p) && p@ == wanted@)),
{
    if bytes_equal(name, wanted) {
        return true;
    }
    match path {
        Some(p) => bytes_equal(p.as_slice(), wanted),
        None => false,
    }
}

fn bytes_equal(a: &[u8], b: &[u8]) -> (r: bool)
    ensures
        r == (a@ == b@),
{
    if a.len() != b.len() {
        return false;
    }
    let mut i: usize = 0;
    while i < a.len()
        invariant
            a@.len() == b@.len(),
            i <= a@.len(),
            forall|k: int| 0 <= k < i ==> a@[k] == b@[k],
        decreases a@.len() - i,
    {
        if a[i] != b[i] {
            return false;
        }
        i += 1;
    }
    assert(a@ =~= b@);
    true
}

/// `Repository::submodules`, collected in their order; none where the repository has no
/// submodule configuration. What is on disk decides, so nothing is stated.
#[verifier::external_body]
pub(crate) fn gix_submodules(repo: &gix::Repository) -> Result<Option<Vec<gix::Submodule<'_>>>, git2::Error> {
    repo.submodules().map(|found| found.map(|iter| iter.collect())).map_err(|error| git2::Error::from_str(&error.to_string()))
}

/// `Submodule::name`, and `Submodule::path` where it can be read, as bytes.
#[verifier::external_body]
pub(crate) fn gix_submodule_name_and_path(submodule: &gix::Submodule<'_>) -> (Vec<u8>, Option<Vec<u8>>) {
    (submodule.name().to_vec(), submodule.path().ok().map(|path| path.to_vec()))
}

/// `Submodule::path` as bytes. Nothing is stated.
#[verifier::external_body]
fn gix_submodule_path(submodule: &gix::Submodule<'_>) -> Result<Vec<u8>, git2::Error> {
    submodule.path().map(|path| path.to_vec()).map_err(|error| git2::Error::from_str(&error.to_string()))
}

/// `Submodule::open`: the submodule's repository, none where it is not checked out. Nothing is
/// stated.
#[verifier::external_body]
pub(crate) fn open_submodule(submodule: &gix::Submodule<'_>) -> Result<Option<gix::Repository>, git2::Error> {
    submodule.open().map_err(|error| git2::Error::from_str(&error.to_string()))
}

/// `Repository::head_id`, detached. Nothing is stated.
#[verifier::external_body]
pub(crate) fn head_id(repo: &gix::Repository) -> Result<gix::ObjectId, git2::Error> {
    repo.head_id().map(|id| id.detach()).map_err(|error| git2::Error::from_str(&error.to_string()))
}

/// `Repository::index_or_load_from_head_or_empty`, owned. Nothing is stated.
#[verifier::external_body]
fn index_or_head_or_empty(repo: &gix::Repository) -> Result<gix::index::File, git2::Error> {
    repo.index_or_load_from_head_or_empty().map(|index| index.into_owned()).map_err(|error| git2::Error::from_str(&error.to_string()))
}

/// The mode of an index entry (`gix::index::entry::Mode`).
pub enum IndexEntryMode {
    Commit,
    File,
    FileExecutable,
    Symlink,
}

#[verifier::external_type_specification]
#[verifier::external_body]
pub struct ExIndexMode(gix::index::entry::Mode);

/// `index::entry::Mode`, variant by variant.
#[verifier::external_body]
fn entry_mode(mode: IndexEntryMode) -> gix::index::entry::Mode {
    match mode {
        IndexEntryMode::Commit => gix::index::entry::Mode::COMMIT,
        IndexEntryMode::File => gix::index::entry::Mode::FILE,
        IndexEntryMode::FileExecutable => gix::index::entry::Mode::FILE_EXECUTABLE,
        IndexEntryMode::Symlink => gix::index::entry::Mode::SYMLINK,
    }
}

/// `index::File::entry_mut_by_path_and_stage` for the unconflicted entry at `path`: where its
/// search (by path, over sorted entries) finds one, that entry's id becomes `id` and its mode
/// `mode`, and `true` is returned; else nothing changes. Other entries at `path`, where an
/// unsorted index holds several, are not stated.
#[verifier::external_body]
fn set_entry(index: &mut gix::index::File, path: &[u8], id: gix::ObjectId, mode: IndexEntryMode) -> (found: bool)
    ensures
        found ==> index_file_entries(*final(index)).contains((path@, oid_bytes(id))),
        found ==> same_entries_elsewhere(index_file_entries(*final(index)), index_file_entries(*old(index)), path@),
        !found ==> index_file_entries(*final(index)) == index_file_entries(*old(index)),
{
    match index.entry_mut_by_path_and_stage(gix::bstr::ByteSlice::as_bstr(path), gix::index::entry::Stage::Unconflicted) {
        Some(entry) => {
            entry.id = id;
            entry.mode = entry_mode(mode);
            true
        },
        None => false,
    }
}

/// `index::File::dangerously_push_entry`: a new unconflicted entry at `path` with id `id`, mode
/// `mode`, no flags and no stat data, where there is none yet.
#[verifier::external_body]
fn push_entry(index: &mut gix::index::File, path: &[u8], id: gix::ObjectId, mode: IndexEntryMode)
    ensures
        index_file_entries(*final(index)) == index_file_entries(*old(index)).insert((path@, oid_bytes(id))),
{
    let flags = gix::index::entry::Flags::empty();
    index.dangerously_push_entry(Default::default(), id, flags, entry_mode(mode), gix::bstr::ByteSlice::as_bstr(path));
}

/// Whether an index entry is the unconflicted (stage 0) entry at `path`.
pub fn is_unconflicted_entry_at(existing: &[u8], path: &[u8], stage: u32) -> (r: bool)
    ensures
        r == (existing@ == path@ && stage == 0),
{
    stage == 0 && bytes_equal(existing, path)
}

/// `index::File::remove_entries` of the entries that `is_unconflicted_entry_at` picks for `path`.
#[verifier::external_body]
fn remove_unconflicted_entry(index: &mut gix::index::File, path: &[u8])
    ensures
        forall|e: (Seq<u8>, Seq<u8>)| #[trigger] index_file_entries(*final(index)).contains(e) <==> (index_file_entries(*old(index)).contains(e) && e.0 != path@),
{
    index.remove_entries(|_, existing, entry| is_unconflicted_entry_at(existing, path, entry.stage_raw()));
}

/// HEAD's tree entry at `path`: whether it is a commit (a submodule) and its id; none where HEAD,
/// its tree or the entry cannot be read.
#[verifier::external_body]
fn head_tree_entry(repo: &gix::Repository, path: &[u8]) -> Option<(bool, gix::ObjectId)> {
    let mut tree = repo.head_commit().ok()?.tree().ok()?;
    let path = gix::path::from_bstr(gix::bstr::ByteSlice::as_bstr(path)).ok()?;
    let entry = tree.peel_to_entry_by_path(path).ok().flatten()?;
    Some((entry.mode().is_commit(), entry.object_id()))
}

/// Point the unconflicted index entry at `path` to the commit `id`, adding a commit entry where
/// there is none.
pub fn stage_commit_pointer(index: &mut gix::index::File, path: &[u8], id: gix::ObjectId)
    ensures
        index_file_entries(*final(index)).contains((path@, oid_bytes(id))),
        same_entries_elsewhere(index_file_entries(*final(index)), index_file_entries(*old(index)), path@),
{
    if !set_entry(index, path, id, IndexEntryMode::Commit) {
        push_entry(index, path, id, IndexEntryMode::Commit);
    }
}

/// Return the index entry at `path` to what HEAD's tree records there (`head_entry`: whether it
/// is a commit, and its id): the commit where it is one, else no entry.
pub fn restore_pointer_entry(index: &mut gix::index::File, path: &[u8], head_entry: Option<(bool, gix::ObjectId)>)
    ensures
        same_entries_elsewhere(index_file_entries(*final(index)), index_file_entries(*old(index)), path@),
        head_entry matches Some((true, id)) ==> index_file_entries(*final(index)).contains((path@, oid_bytes(id))),
        !(head_entry matches Some((true, _))) ==> forall|x: Seq<u8>| !#[trigger] index_file_entries(*final(index)).contains((path@, x)),
{
    match head_entry {
        Some((true, id)) => stage_commit_pointer(index, path, id),
        _ => remove_unconflicted_entry(index, path),
    }
}

/// The submodule named, or with the path, `name`: the first of the repository's submodules that
/// `submodule_matches`; none where there is no such submodule or no submodule configuration.
fn find_submodule<'repo>(repo: &'repo gix::Repository, name: &str) -> Result<Option<gix::Submodule<'repo>>, git2::Error> {
    let mut submodules = match gix_submodules(repo)? {
        Some(submodules) => submodules,
        None => {
            return Ok(None);
        },
    };
    let wanted = name.as_bytes();
    let mut i: usize = 0;
    while i < submodules.len()
        invariant
            i <= submodules@.len(),
        decreases submodules@.len() - i,
    {
        let (sub_name, sub_path) = gix_submodule_name_and_path(&submodules[i]);
        if submodule_matches(sub_name.as_slice(), &sub_path, wanted) {
            return Ok(Some(submodules.remove(i)));
        }
        i += 1;
    }
    Ok(None)
}

/// Sort the index and write it; its entries stay.
fn write_index(index: &mut gix::index::File) -> (r: Result<(), git2::Error>)
    ensures
        index_file_entries(*final(index)) == index_file_entries(*old(index)),
{
    sort_index_entries(index);
    write_index_file(index)
}

/// Stage the commit checked out in submodule `name` as its recorded commit: the index entry at
/// the submodule's path points to the submodule's HEAD (`Submodule not found`, `Submodule is not
/// initialized` where it is missing or not checked out).
pub fn stage_submodule_head(repo: &git2::Repository, name: &str) -> Result<(), git2::Error> {
    let gix_repo = gix_repo_for(repo)?;
    let submodule = match find_submodule(&gix_repo, name)? {
        Some(submodule) => submodule,
        None => {
            return Err(error_from_message("Submodule not found"));
        },
    };
    let path = gix_submodule_path(&submodule)?;
    let sub_repo = match open_submodule(&submodule)? {
        Some(sub_repo) => sub_repo,
        None => {
            return Err(error_from_message("Submodule is not initialized"));
        },
    };
    let head = head_id(&sub_repo)?;
    let mut index = index_or_head_or_empty(&gix_repo)?;
    stage_commit_pointer(&mut index, path.as_slice(), head);
    write_index(&mut index)
}

/// Unstage submodule `name`: its index entry returns to the commit HEAD's tree records for it,
/// and is removed where HEAD records no commit there (`Submodule not found` where it is
/// missing).
pub fn unstage_submodule(repo: &git2::Repository, name: &str) -> Result<(), git2::Error> {
    let gix_repo = gix_repo_for(repo)?;
    let submodule = match find_submodule(&gix_repo, name)? {
        Some(submodule) => submodule,
        None => {
            return Err(error_from_message("Submodule not found"));
        },
    };
    let path = gix_submodule_path(&submodule)?;
    let mut index = index_or_head_or_empty(&gix_repo)?;
    restore_pointer_entry(&mut index, path.as_slice(), head_tree_entry(&gix_repo, path.as_slice()));
    write_index(&mut index)
}

/// Where configuration comes from (`gix::config::Source`, the variants used here).
pub enum ConfigSource {
    Local,
    Worktree,
    User,
}

#[verifier::external_type_specification]
#[verifier::external_body]
pub struct ExConfigSource(gix::config::Source);

/// `gix::config::Source`, variant by variant.
#[verifier::external_body]
fn config_source(source: ConfigSource) -> gix::config::Source {
    match source {
        ConfigSource::Local => gix::config::Source::Local,
        ConfigSource::Worktree => gix::config::Source::Worktree,
        ConfigSource::User => gix::config::Source::User,
    }
}

/// `config::File::from_path_no_includes(path, source)`. What is on disk decides, so nothing is
/// stated.
#[verifier::external_body]
fn read_config_file(path: std::path::PathBuf, source: ConfigSource) -> Result<gix::config::File, git2::Error> {
    gix::config::File::from_path_no_includes(path, config_source(source)).map_err(|error| git2::Error::from_str(&error.to_string()))
}

/// `.gitmodules` in the working directory, read as local configuration without includes;
/// `Repository has no working directory` for a bare repository.
fn workdir_gitmodules(repo: &gix::Repository) -> Result<gix::config::File, git2::Error> {
    match repo_workdir(repo) {
        Some(workdir) => read_config_file(path_join(&workdir, ".gitmodules"), ConfigSource::Local),
        None => Err(error_from_message("Repository has no working directory")),
    }
}

/// `config::File::string(key)` as bytes. The file's content decides, so nothing is stated.
#[verifier::external_body]
fn config_string(file: &gix::config::File, key: &str) -> Option<Vec<u8>> {
    file.string(key).map(|value| value.to_vec())
}

/// `gix::Url::from_bytes`. Nothing is stated.
#[verifier::external_body]
fn parse_url(bytes: &[u8]) -> Result<gix::Url, git2::Error> {
    gix::Url::from_bytes(gix::bstr::ByteSlice::as_bstr(bytes)).map_err(|error| git2::Error::from_str(&error.to_string()))
}

/// The configuration key of a submodule's URL: `submodule.<name>.url`.
pub fn submodule_url_key(name: &str) -> (key: String)
    ensures
        key@ == "submodule."@ + name@ + ".url"@,
{
    let head = prefixed_name("submodule.", name);
    prefixed_name(head.as_str(), ".url")
}

/// The URL `.gitmodules` gives submodule `submodule_name` (`Submodule name is not valid UTF-8`,
/// `Submodule URL is missing` where it cannot be named or has none).
fn submodule_url_from_modules(repo: &gix::Repository, submodule_name: &[u8]) -> Result<gix::Url, git2::Error> {
    let modules = workdir_gitmodules(repo)?;
    let name = match bytes_as_str(submodule_name) {
        Some(name) => name,
        None => {
            return Err(error_from_message("Submodule name is not valid UTF-8"));
        },
    };
    let key = submodule_url_key(name);
    match config_string(&modules, key.as_str()) {
        Some(url) => parse_url(url.as_slice()),
        None => Err(error_from_message("Submodule URL is missing")),
    }
}

/// Copy the URL that `.gitmodules` gives submodule `name` into the superproject's configuration
/// through `set_superproject_url`, and, where the submodule is checked out, into its remote
/// through `set_checkout_url` (both write configuration files). `Submodule not found` where it is
/// missing.
pub fn sync_submodule<F, G>(repo: &git2::Repository, name: &str, set_superproject_url: F, set_checkout_url: G) -> Result<(), git2::Error>
    where
        F: FnOnce(&gix::Repository, &gix::Submodule<'_>, &gix::Url) -> Result<(), git2::Error>,
        G: FnOnce(&gix::Repository, &gix::Url) -> Result<(), git2::Error>,
    requires
        forall|r: &gix::Repository, s: &gix::Submodule<'_>, u: &gix::Url| set_superproject_url.requires((r, s, u)),
        forall|r: &gix::Repository, u: &gix::Url| set_checkout_url.requires((r, u)),
{
    let gix_repo = gix_repo_for(repo)?;
    let submodule = match find_submodule(&gix_repo, name)? {
        Some(submodule) => submodule,
        None => {
            return Err(error_from_message("Submodule not found"));
        },
    };
    let (submodule_name, _) = gix_submodule_name_and_path(&submodule);
    let url = submodule_url_from_modules(&gix_repo, submodule_name.as_slice())?;
    set_superproject_url(&gix_repo, &submodule, &url)?;
    match open_submodule(&submodule)? {
        Some(submodule_repo) => set_checkout_url(&submodule_repo, &url),
        None => Ok(()),
    }
}

} // verus!
