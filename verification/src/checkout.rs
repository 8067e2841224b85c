use vstd::prelude::*;
use std::collections::HashMap;
use crate::branch_visibility::{hidden_names, hidden_remove};
use crate::commits::{name_texts, push_name};
use crate::git_types::{commit_id, commit_tree_id, error_from_message, find_commit, open_repo};
use crate::oids::git2_to_gix_oid;
use crate::refs::{
    apply_edits, branch_ref_name, branch_ref_text, create_reference, git2_repo_dirs, head_plan, head_ref_name, prefixed_name,
    ref_full_name, reference_exists, set_committer_fallback, valid_ref_name, EditTarget, Expected,
};
use crate::text::{str_chars, string_from_chars};

verus! {

broadcast use vstd::std_specs::hash::group_hash_axioms;

#[verifier::external_type_specification]
#[verifier::external_body]
pub struct ExIndexFile(gix::index::File);

/// The gix repository at a git2 repository's working directory; `Repository has no worktree`
/// for a bare one.
pub fn open_worktree_repo(repo: &git2::Repository) -> Result<gix::Repository, git2::Error> {
    let (workdir, _) = git2_repo_dirs(repo);
    match workdir {
        Some(dir) => open_repo(dir.as_str()),
        None => Err(error_from_message("Repository has no worktree")),
    }
}

/// The id of the commit `id` names and that of its tree.
fn commit_and_tree_ids(repo: &gix::Repository, id: gix::ObjectId) -> Result<(gix::ObjectId, gix::ObjectId), git2::Error> {
    let commit = find_commit(repo, id)?;
    let tree = commit_tree_id(&commit)?;
    Ok((commit_id(&commit), tree))
}

/// `Repository::try_find_reference`. What is on disk decides, so nothing is stated.
#[verifier::external_body]
fn try_find_reference<'repo>(repo: &'repo gix::Repository, name: &gix::refs::FullName) -> Result<Option<gix::Reference<'repo>>, git2::Error> {
    repo.try_find_reference(name.as_ref()).map_err(|error| git2::Error::from_str(&error.to_string()))
}

/// `Reference::peel_to_commit`. Nothing is stated.
#[verifier::external_body]
fn peel_to_commit<'repo>(reference: &mut gix::Reference<'repo>) -> Result<gix::Commit<'repo>, git2::Error> {
    reference.peel_to_commit().map_err(|error| git2::Error::from_str(&error.to_string()))
}

/// The commit a reference leads to: its id and its tree's id.
fn peel_commit_and_tree(reference: &mut gix::Reference<'_>) -> Result<(gix::ObjectId, gix::ObjectId), git2::Error> {
    let commit = peel_to_commit(reference)?;
    let tree = commit_tree_id(&commit)?;
    Ok((commit_id(&commit), tree))
}

/// Point HEAD at `target` (a commit, detached, or a branch reference), whatever it held, with the
/// reflog `message` (see `head_plan`).
fn set_head(repo: &gix::Repository, target: EditTarget, message: &'static str) -> Result<(), git2::Error> {
    let head = match head_ref_name() {
        Some(head) => head,
        None => {
            return Err(error_from_message("HEAD is not a valid reference name"));
        },
    };
    apply_edits(repo, vec![head_plan(head, target, message)])
}

/// `Repository::index_from_tree`. Nothing is stated.
#[verifier::external_body]
fn index_from_tree(repo: &gix::Repository, tree: gix::ObjectId) -> Result<gix::index::File, git2::Error> {
    repo.index_from_tree(&tree).map_err(|error| git2::Error::from_str(&error.to_string()))
}

#[verifier::external_type_specification]
#[verifier::external_body]
pub struct ExCheckoutOptions(gix::worktree::state::checkout::Options);

/// Where a checkout reads `.gitattributes` from (`gix::worktree::stack::state::attributes::Source`).
pub enum AttributesSource {
    IdMapping,
    IdMappingThenWorktree,
    WorktreeThenIdMapping,
}

#[verifier::external_type_specification]
#[verifier::external_body]
pub struct ExAttributesSource(gix::worktree::stack::state::attributes::Source);

/// `attributes::Source`, variant by variant.
#[verifier::external_body]
fn attributes_source(source: AttributesSource) -> gix::worktree::stack::state::attributes::Source {
    match source {
        AttributesSource::IdMapping => gix::worktree::stack::state::attributes::Source::IdMapping,
        AttributesSource::IdMappingThenWorktree => gix::worktree::stack::state::attributes::Source::IdMappingThenWorktree,
        AttributesSource::WorktreeThenIdMapping => gix::worktree::stack::state::attributes::Source::WorktreeThenIdMapping,
    }
}

/// `Repository::checkout_options` for attributes from `source`, with `overwrite_existing` and
/// `destination_is_initially_empty` set to the values given. What the configuration holds
/// decides the rest, so nothing is stated.
#[verifier::external_body]
fn checkout_options(repo: &gix::Repository, source: AttributesSource, overwrite_existing: bool, initially_empty: bool) -> Result<gix::worktree::state::checkout::Options, git2::Error> {
    let mut options = repo.checkout_options(attributes_source(source)).map_err(|error| git2::Error::from_str(&error.to_string()))?;
    options.overwrite_existing = overwrite_existing;
    options.destination_is_initially_empty = initially_empty;
    Ok(options)
}

#[verifier::external_type_specification]
#[verifier::external_body]
pub struct ExPathBuf(std::path::PathBuf);

/// `Repository::workdir`, owned: the working directory, `None` for a bare repository.
#[verifier::external_body]
pub(crate) fn repo_workdir(repo: &gix::Repository) -> Option<std::path::PathBuf> {
    repo.workdir().map(|path| path.to_path_buf())
}

/// `Path::join` of `dir` and `name`.
#[verifier::external_body]
pub(crate) fn path_join(dir: &std::path::PathBuf, name: &str) -> std::path::PathBuf {
    dir.join(name)
}

/// `gix::worktree::state::checkout` of `index` into `workdir` with `options`. What is on disk
/// decides, so nothing is stated.
#[verifier::external_body]
fn checkout_index(repo: &gix::Repository, workdir: &std::path::PathBuf, index: &mut gix::index::File, options: gix::worktree::state::checkout::Options) -> Result<(), git2::Error> {
    let to_error = |error: &dyn std::fmt::Display| git2::Error::from_str(&error.to_string());
    let objects = repo.objects.clone().into_arc().map_err(|e| to_error(&e))?;
    let (files, bytes, interrupt) = (gix::progress::Discard, gix::progress::Discard, std::sync::atomic::AtomicBool::new(false));
    gix::worktree::state::checkout(index, workdir, objects, &files, &bytes, &interrupt, options).map(|_| ()).map_err(|e| to_error(&e))
}

/// The unconflicted (stage 0) entries of a gix index: each one's path and id.
pub uninterp spec fn index_file_entries(index: gix::index::File) -> Set<(Seq<u8>, Seq<u8>)>;

/// Whether `a` and `b` hold the same entries at every path but `path`.
pub open spec fn same_entries_elsewhere(a: Set<(Seq<u8>, Seq<u8>)>, b: Set<(Seq<u8>, Seq<u8>)>, path: Seq<u8>) -> bool {
    forall|e: (Seq<u8>, Seq<u8>)| e.0 != path ==> (#[trigger] a.contains(e) <==> b.contains(e))
}

/// `index::File::sort_entries`: the entries are reordered, not changed.
#[verifier::external_body]
pub(crate) fn sort_index_entries(index: &mut gix::index::File)
    ensures
        index_file_entries(*final(index)) == index_file_entries(*old(index)),
{
    index.sort_entries();
}

/// `index::File::write` with default options: the index to disk, its entries unchanged.
#[verifier::external_body]
pub(crate) fn write_index_file(index: &mut gix::index::File) -> (r: Result<(), git2::Error>)
    ensures
        index_file_entries(*final(index)) == index_file_entries(*old(index)),
{
    index.write(Default::default()).map_err(|error| git2::Error::from_str(&error.to_string()))
}

/// Check out the tree `tree` into the working directory and make it the index.
pub fn checkout_tree(repo: &gix::Repository, tree: gix::ObjectId, initially_empty: bool) -> Result<(), git2::Error> {
    let mut index = index_from_tree(repo, tree)?;
    let options = checkout_options(repo, AttributesSource::IdMapping, true, initially_empty)?;
    let workdir = match repo_workdir(repo) {
        Some(workdir) => workdir,
        None => {
            return Err(error_from_message("Repository has no worktree"));
        },
    };
    checkout_index(repo, &workdir, &mut index, options)?;
    sort_index_entries(&mut index);
    write_index_file(&mut index)
}

/// Check out the commit `oid` with a detached HEAD: HEAD is set to it, then its tree is checked
/// out. The repository must have a working directory.
pub fn checkout_head(repo: &git2::Repository, oid: git2::Oid) -> Result<(), git2::Error> {
    let mut repo = open_worktree_repo(repo)?;
    set_committer_fallback(&mut repo)?;
    let (commit, tree) = commit_and_tree_ids(&repo, git2_to_gix_oid(oid))?;
    set_head(&repo, EditTarget::Object(commit), "checkout")?;
    checkout_tree(&repo, tree, false)
}

/// The position of the first `/` in `s`.
pub open spec fn first_slash(s: Seq<char>) -> Option<int> {
    if exists|i: int| 0 <= i < s.len() && s[i] == '/' {
        Some(choose|i: int| 0 <= i < s.len() && s[i] == '/' && forall|j: int| 0 <= j < i ==> s[j] != '/')
    } else {
        None
    }
}

/// `str::split_once('/')`: the text before and after the first `/`.
pub open spec fn split_at_slash(s: Seq<char>) -> Option<(Seq<char>, Seq<char>)> {
    match first_slash(s) {
        Some(i) => Some((s.take(i), s.skip(i + 1))),
        None => None,
    }
}

/// `branch_name.split_once('/')`: a remote and a branch name for a name such as `origin/main`.
pub fn split_remote_branch(branch_name: &str) -> (r: Option<(String, String)>)
    ensures
        match (r, split_at_slash(branch_name@)) {
            (Some((remote, branch)), Some((a, b))) => remote@ == a && branch@ == b,
            (None, None) => true,
            _ => false,
        },
{
    let chars = str_chars(branch_name);
    let mut i: usize = 0;
    while i < chars.len()
        invariant
            chars@ == branch_name@,
            i <= chars@.len(),
            forall|j: int| 0 <= j < i ==> chars@[j] != '/',
        decreases chars@.len() - i,
    {
        if chars[i] == '/' {
            let mut remote: Vec<char> = Vec::new();
            let mut branch: Vec<char> = Vec::new();
            let mut k: usize = 0;
            while k < chars.len()
                invariant
                    i < chars@.len(),
                    k <= chars@.len(),
                    remote@ == chars@.take(if k < i { k as int } else { i as int }),
                    branch@ == (if k <= i + 1 { Seq::<char>::empty() } else { chars@.subrange(i + 1, k as int) }),
                decreases chars@.len() - k,
            {
                if k < i {
                    remote.push(chars[k]);
                    assert(chars@.take(k + 1) =~= chars@.take(k as int).push(chars@[k as int]));
                } else if k > i {
                    branch.push(chars[k]);
                    assert(chars@.subrange(i + 1, k + 1) =~= (if k <= i + 1 { Seq::<char>::empty() } else { chars@.subrange(i + 1, k as int) }).push(chars@[k as int]));
                }
                k += 1;
            }
            proof {
                assert(first_slash(branch_name@) == Some(i as int)) by {
                    let s = branch_name@;
                    assert(0 <= i < s.len() && s[i as int] == '/');
                    let c = choose|c: int| 0 <= c < s.len() && s[c] == '/' && forall|j: int| 0 <= j < c ==> s[j] != '/';
                    assert(0 <= c < s.len() && s[c] == '/' && forall|j: int| 0 <= j < c ==> s[j] != '/');
                    assert(c == i as int);
                }
                assert(chars@.subrange(i + 1, chars@.len() as int) =~= chars@.skip(i + 1));
                if i + 1 == chars@.len() {
                    assert(chars@.skip(i + 1) =~= Seq::<char>::empty());
                }
            }
            return Some((string_from_chars(&remote), string_from_chars(&branch)));
        }
        i += 1;
    }
    None
}


/// A branch to check out.
pub enum BranchCheckout {
    /// A local branch, shown as `visible_name`.
    Existing { ref_name: gix::refs::FullName, visible_name: String },
    /// The remote-tracking branch `remote/branch`, from which the local branch `branch` is made.
    Remote { local_ref_name: gix::refs::FullName, remote_ref_name: gix::refs::FullName, remote: String, branch: String },
}

/// The text of the remote-tracking reference of `name`: `refs/remotes/` and the name.
pub open spec fn remote_ref_text(name: Seq<char>) -> Seq<char> {
    "refs/remotes/"@ + name
}

/// The reference name of the remote-tracking branch `name`, or the error `remote tracking branch
/// name is invalid`.
fn remote_tracking_ref_name(name: &str) -> (r: Result<gix::refs::FullName, git2::Error>)
    ensures
        r is Ok == valid_ref_name(remote_ref_text(name@)),
{
    match ref_full_name(prefixed_name("refs/remotes/", name)) {
        Some(name) => Ok(name),
        None => Err(error_from_message("remote tracking branch name is invalid")),
    }
}

/// The names a checkout of `branch_name` can show: the name itself, or the branch of
/// `remote/branch`.
pub open spec fn checkout_names(branch_name: Seq<char>) -> Set<Seq<char>> {
    match split_at_slash(branch_name) {
        Some((_, branch)) => set![branch_name, branch],
        None => set![branch_name],
    }
}

/// Whether a candidate fits the name it was found for: a local branch shows one of
/// `checkout_names`, a remote-tracking one is the name split at its first `/`.
pub open spec fn candidate_fits(c: Option<BranchCheckout>, branch_name: Seq<char>) -> bool {
    match c {
        Some(BranchCheckout::Existing { visible_name, .. }) => checkout_names(branch_name).contains(visible_name@),
        Some(BranchCheckout::Remote { remote, branch, .. }) => split_at_slash(branch_name) == Some((remote@, branch@)),
        None => true,
    }
}

/// What checking out `branch_name` means: the local branch of that name where it exists; else,
/// for `remote/branch`, the local branch `branch` where it exists, or else the remote-tracking
/// branch `remote/branch` where that exists; else nothing.
pub fn branch_checkout_candidate(repo: &gix::Repository, branch_name: &str) -> (r: Result<Option<BranchCheckout>, git2::Error>)
    ensures
        !valid_ref_name(branch_ref_text(branch_name@)) ==> r is Err,
        r matches Ok(c) ==> candidate_fits(c, branch_name@),
{
    let ref_name = branch_ref_name(branch_name)?;
    if reference_exists(repo, &ref_name)? {
        return Ok(Some(BranchCheckout::Existing { ref_name, visible_name: string_from_chars(&str_chars(branch_name)) }));
    }
    let (remote, branch) = match split_remote_branch(branch_name) {
        Some(parts) => parts,
        None => {
            return Ok(None);
        },
    };
    let local_ref_name = branch_ref_name(branch.as_str())?;
    if reference_exists(repo, &local_ref_name)? {
        return Ok(Some(BranchCheckout::Existing { ref_name: local_ref_name, visible_name: branch }));
    }
    let remote_ref_name = remote_tracking_ref_name(branch_name)?;
    if reference_exists(repo, &remote_ref_name)? {
        Ok(Some(BranchCheckout::Remote { local_ref_name, remote_ref_name, remote, branch }))
    } else {
        Ok(None)
    }
}

/// The commit and tree of the reference `name`; `missing` is the error where it does not exist.
fn ref_commit_and_tree(repo: &gix::Repository, name: &gix::refs::FullName, missing: &str) -> Result<(gix::ObjectId, gix::ObjectId), git2::Error> {
    match try_find_reference(repo, name)? {
        Some(mut reference) => peel_commit_and_tree(&mut reference),
        None => Err(error_from_message(missing)),
    }
}

/// Check out an existing local branch: HEAD names it, its tree is checked out.
fn checkout_existing_branch(repo: &gix::Repository, branch: &gix::refs::FullName) -> Result<(), git2::Error> {
    let (_, tree) = ref_commit_and_tree(repo, branch, "Branch not found")?;
    set_head(repo, EditTarget::Symbolic(branch.clone()), "checkout")?;
    checkout_tree(repo, tree, false)
}

/// Whether `after` is `before` with `name` appended to the names under `alias` (a new list where
/// there was none), the other aliases unchanged.
pub open spec fn pushed_under(before: Map<u32, Vec<String>>, after: Map<u32, Vec<String>>, alias: u32, name: Seq<char>) -> bool {
    &&& after.contains_key(alias)
    &&& name_texts(after[alias]@) == (if before.contains_key(alias) { name_texts(before[alias]@) } else { Seq::empty() }).push(name)
    &&& forall|k: u32| k != alias ==> (#[trigger] after.contains_key(k)) == before.contains_key(k)
    &&& forall|k: u32| k != alias && before.contains_key(k) ==> #[trigger] after[k] == before[k]
}

/// Make the local branch `branch` from the remote-tracking one, record its upstream through
/// `set_upstream` (given the repository, the branch and the remote), note it under `alias` in
/// `local`, then check it out.
fn checkout_remote_branch<F>(
    repo: &gix::Repository,
    local_ref_name: gix::refs::FullName,
    remote_ref_name: &gix::refs::FullName,
    remote: &str,
    branch: String,
    local: &mut HashMap<u32, Vec<String>>,
    alias: u32,
    set_upstream: F,
) -> (r: Result<(), git2::Error>)
    where
        F: FnOnce(&gix::Repository, &str, &str) -> Result<(), git2::Error>,
    requires
        forall|r: &gix::Repository, b: &str, m: &str| set_upstream.requires((r, b, m)),
    ensures
        final(local)@ == old(local)@ || pushed_under(old(local)@, final(local)@, alias, branch@),
{
    let (commit, tree) = ref_commit_and_tree(repo, remote_ref_name, "Remote tracking branch not found")?;
    create_reference(repo, local_ref_name.clone(), commit, Expected::MustNotExist, "checkout")?;
    set_upstream(repo, branch.as_str(), remote)?;
    let name = branch.clone();
    push_name(local, alias, name);
    set_head(repo, EditTarget::Symbolic(local_ref_name), "checkout")?;
    checkout_tree(repo, tree, false)
}

/// Check out the branch `branch_name` (see `branch_checkout_candidate`); `No matching local or
/// remote branch found` where there is none. A remote-tracking branch gets a local branch, whose
/// upstream `set_upstream` records and which is noted under `alias` in `local`. On success the
/// shown name is no longer hidden; on failure the hidden names are unchanged.
pub fn checkout_branch<F>(
    repo: &git2::Repository,
    hidden_branch_names: &mut im::HashSet<String>,
    local: &mut HashMap<u32, Vec<String>>,
    alias: u32,
    branch_name: &str,
    set_upstream: F,
) -> (r: Result<(), git2::Error>)
    where
        F: FnOnce(&gix::Repository, &str, &str) -> Result<(), git2::Error>,
    requires
        forall|r: &gix::Repository, b: &str, m: &str| set_upstream.requires((r, b, m)),
    ensures
        !valid_ref_name(branch_ref_text(branch_name@)) ==> r is Err,
        r is Err ==> hidden_names(*final(hidden_branch_names)) == hidden_names(*old(hidden_branch_names)),
        r is Ok ==> exists|shown: Seq<char>| #[trigger] checkout_names(branch_name@).contains(shown)
            && hidden_names(*final(hidden_branch_names)) == hidden_names(*old(hidden_branch_names)).remove(shown),
        final(local)@ == old(local)@ || (split_at_slash(branch_name@) matches Some((_, branch))
            && pushed_under(old(local)@, final(local)@, alias, branch)),
{
    let mut repo = open_worktree_repo(repo)?;
    set_committer_fallback(&mut repo)?;
    let candidate = match branch_checkout_candidate(&repo, branch_name)? {
        Some(candidate) => candidate,
        None => {
            return Err(error_from_message("No matching local or remote branch found"));
        },
    };
    let shown = match candidate {
        BranchCheckout::Existing { ref_name, visible_name } => {
            checkout_existing_branch(&repo, &ref_name)?;
            visible_name
        },
        BranchCheckout::Remote { local_ref_name, remote_ref_name, remote, branch } => {
            let shown = branch.clone();
            checkout_remote_branch(&repo, local_ref_name, &remote_ref_name, remote.as_str(), branch, local, alias, set_upstream)?;
            shown
        },
    };
    assert(checkout_names(branch_name@).contains(shown@));
    hidden_remove(hidden_branch_names, shown.as_str());
    Ok(())
}

} // verus!
