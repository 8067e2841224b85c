use vstd::prelude::*;

verus! {

#[verifier::external_type_specification]
#[verifier::external_body]
pub struct ExRepository(gix::Repository);

#[verifier::external_type_specification]
#[verifier::external_body]
pub struct ExObjectId(gix::ObjectId);

#[verifier::external_type_specification]
#[verifier::external_body]
pub struct ExCommitGraph(gix::commitgraph::Graph);

#[verifier::external_type_specification]
#[verifier::external_body]
pub struct ExGitError(git2::Error);

/// `ObjectId::clone` (derived, with `Copy`): the same id.
pub assume_specification [<gix::ObjectId as Clone>::clone](oid: &gix::ObjectId) -> (r: gix::ObjectId)
    ensures
        r == *oid,
;

/// The bytes of an object id (`ObjectId::as_bytes`).
pub uninterp spec fn oid_bytes(oid: gix::ObjectId) -> Seq<u8>;

/// `ObjectId::as_bytes`: the raw bytes of the id.
#[verifier::external_body]
pub(crate) fn oid_as_bytes(oid: &gix::ObjectId) -> (r: &[u8])
    ensures
        r@ == oid_bytes(*oid),
{
    oid.as_bytes()
}

/// `ObjectId == ObjectId`: ids are equal exactly when their bytes are.
#[verifier::external_body]
pub(crate) fn oid_eq(a: &gix::ObjectId, b: &gix::ObjectId) -> (r: bool)
    ensures
        r == (oid_bytes(*a) == oid_bytes(*b)),
{
    a == b
}

/// The message a git2 error carries.
pub uninterp spec fn error_text(error: git2::Error) -> Seq<char>;

/// `git2::Error::from_str`: an error carrying `message`.
#[verifier::external_body]
pub(crate) fn error_from_message(message: &str) -> (e: git2::Error)
    ensures
        error_text(e) == message@,
{
    git2::Error::from_str(message)
}

/// `git2::Error::message`: the text of an error.
#[verifier::external_body]
pub(crate) fn error_message(error: &git2::Error) -> (r: String)
    ensures
        r@ == error_text(*error),
{
    error.message().to_string()
}


#[verifier::external_type_specification]
#[verifier::external_body]
pub struct ExGixCommit<'repo>(gix::Commit<'repo>);

/// `Repository::find_commit`. What is on disk decides, so nothing is stated.
#[verifier::external_body]
pub(crate) fn find_commit(repo: &gix::Repository, id: gix::ObjectId) -> Result<gix::Commit<'_>, git2::Error> {
    repo.find_commit(id).map_err(|error| git2::Error::from_str(&error.to_string()))
}

/// The `id` of a commit.
#[verifier::external_body]
pub(crate) fn commit_id(commit: &gix::Commit<'_>) -> gix::ObjectId {
    commit.id
}

/// `Commit::tree_id`, detached. Nothing is stated.
#[verifier::external_body]
pub(crate) fn commit_tree_id(commit: &gix::Commit<'_>) -> Result<gix::ObjectId, git2::Error> {
    commit.tree_id().map(|id| id.detach()).map_err(|error| git2::Error::from_str(&error.to_string()))
}

/// `Commit::parent_ids`, detached, in their order. Nothing is stated.
#[verifier::external_body]
pub(crate) fn commit_parents(commit: &gix::Commit<'_>) -> Vec<gix::ObjectId> {
    commit.parent_ids().map(|id| id.detach()).collect()
}

#[verifier::external_type_specification]
#[verifier::external_body]
pub struct ExGixTree<'repo>(gix::Tree<'repo>);

/// `Repository::find_tree`. What is on disk decides, so nothing is stated.
#[verifier::external_body]
pub(crate) fn find_tree(repo: &gix::Repository, id: gix::ObjectId) -> Result<gix::Tree<'_>, git2::Error> {
    repo.find_tree(id).map_err(|error| git2::Error::from_str(&error.to_string()))
}

/// `gix::open`: the repository at `path`. What is on disk decides, so nothing is stated.
#[verifier::external_body]
pub(crate) fn open_repo(path: &str) -> Result<gix::Repository, git2::Error> {
    gix::open(path).map_err(|error| git2::Error::from_str(&error.to_string()))
}

#[verifier::external_type_specification]
#[verifier::external_body]
pub struct ExGit2Repository(git2::Repository);

#[verifier::external_type_specification]
#[verifier::external_body]
pub struct ExGit2Config(git2::Config);

} // verus!
