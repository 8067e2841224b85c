use vstd::prelude::*;
use crate::git_types::{commit_id, error_from_message, error_text, find_commit, open_repo};
use crate::oids::git2_to_gix_oid;
use crate::text::{str_chars, string_from_chars, trim_chars, trim_seq};

verus! {

#[verifier::external_type_specification]
#[verifier::external_body]
pub struct ExFullName(gix::refs::FullName);

#[verifier::external_type_specification]
#[verifier::external_body]
pub struct ExGixReference<'repo>(gix::Reference<'repo>);

#[verifier::external_type_specification]
#[verifier::external_body]
pub struct ExRefEdit(gix::refs::transaction::RefEdit);

#[verifier::external_type_specification]
#[verifier::external_body]
pub struct ExPreviousValue(gix::refs::transaction::PreviousValue);

#[verifier::external_type_specification]
#[verifier::external_body]
pub struct ExRefTarget(gix::refs::Target);

/// What a reference edit expects the reference to hold beforehand.
pub enum Expected {
    /// Anything, or nothing.
    Any,
    /// Nothing: the reference must not exist.
    MustNotExist,
    /// The reference must exist and point directly to this object.
    MustMatchObject(gix::ObjectId),
    /// The reference must exist and point to this other reference.
    MustMatchSymbolic(gix::refs::FullName),
}

/// What an edit points a reference at.
pub enum EditTarget {
    Object(gix::ObjectId),
    Symbolic(gix::refs::FullName),
}

/// One reference edit: point `name` at `target` (with the reflog `message`), or delete it where
/// there is no target; either only where the reference holds what `expected` says.
pub struct PlannedEdit {
    pub name: gix::refs::FullName,
    pub target: Option<EditTarget>,
    pub expected: Expected,
    pub message: &'static str,
}

/// Whether `e` sets `name` to `target` under `expected` with the reflog `message`.
pub open spec fn is_update(e: PlannedEdit, name: gix::refs::FullName, target: EditTarget, expected: Expected, message: Seq<char>) -> bool {
    e.name == name && e.target == Some(target) && e.expected == expected && e.message@ == message
}

/// Whether `e` deletes `name` under `expected`.
pub open spec fn is_delete(e: PlannedEdit, name: gix::refs::FullName, expected: Expected) -> bool {
    e.name == name && e.target is None && e.expected == expected
}

/// `PreviousValue`, variant by variant.
#[verifier::external_body]
fn previous_value(expected: Expected) -> gix::refs::transaction::PreviousValue {
    match expected {
        Expected::Any => gix::refs::transaction::PreviousValue::Any,
        Expected::MustNotExist => gix::refs::transaction::PreviousValue::MustNotExist,
        Expected::MustMatchObject(id) => gix::refs::transaction::PreviousValue::MustExistAndMatch(gix::refs::Target::Object(id)),
        Expected::MustMatchSymbolic(name) => gix::refs::transaction::PreviousValue::MustExistAndMatch(gix::refs::Target::Symbolic(name)),
    }
}

/// `gix::refs::Target`, variant by variant.
#[verifier::external_body]
fn ref_target(target: EditTarget) -> gix::refs::Target {
    match target {
        EditTarget::Object(id) => gix::refs::Target::Object(id),
        EditTarget::Symbolic(name) => gix::refs::Target::Symbolic(name),
    }
}

/// `RefEdit::update`: set `name` to `target` where it holds what `expected` says, with the reflog
/// `message`. The edit is only handed to `edit_references`, so nothing is stated of it.
#[verifier::external_body]
fn update_edit(name: gix::refs::FullName, target: EditTarget, expected: Expected, message: &str) -> gix::refs::transaction::RefEdit {
    gix::refs::transaction::RefEdit::update(name, ref_target(target), previous_value(expected), message)
}

/// `RefEdit::delete`: delete `name` where it holds what `expected` says.
#[verifier::external_body]
fn delete_edit(name: gix::refs::FullName, expected: Expected) -> gix::refs::transaction::RefEdit {
    gix::refs::transaction::RefEdit::delete(name, previous_value(expected))
}

/// The reference edit of a planned one: an update where it has a target, else a deletion.
fn ref_edit(edit: PlannedEdit) -> gix::refs::transaction::RefEdit {
    let PlannedEdit { name, target, expected, message } = edit;
    match target {
        Some(target) => update_edit(name, target, expected, message),
        None => delete_edit(name, expected),
    }
}

/// The full name `HEAD`, where gix accepts it.
pub(crate) fn head_ref_name() -> (r: Option<gix::refs::FullName>)
    ensures
        r is Some == valid_ref_name("HEAD"@),
{
    let name = prefixed_name("HEAD", "");
    proof {
        assert("HEAD"@ + ""@ =~= "HEAD"@) by {
            reveal_strlit("");
        }
    }
    ref_full_name(name)
}

/// `Clone` of a full reference name: the same name.
pub assume_specification[ <gix::refs::FullName as Clone>::clone ](name: &gix::refs::FullName) -> (r: gix::refs::FullName)
    ensures
        r == *name,
;

/// The text `prefix` followed by `name` (`format!("{prefix}{name}")`).
pub fn prefixed_name(prefix: &str, name: &str) -> (r: String)
    ensures
        r@ == prefix@ + name@,
{
    let mut chars = str_chars(prefix);
    let mut rest = str_chars(name);
    chars.append(&mut rest);
    string_from_chars(&chars)
}

/// Whether `text` is a valid full reference name by gix's rules (`gix_validate::reference::name`).
pub uninterp spec fn valid_ref_name(text: Seq<char>) -> bool;

/// The bytes of a full reference name.
pub uninterp spec fn full_name_bytes(name: gix::refs::FullName) -> Seq<u8>;

/// `FullName::try_from(text)`: the name where gix accepts `text` as a full reference name.
#[verifier::external_body]
pub(crate) fn ref_full_name(text: String) -> (r: Option<gix::refs::FullName>)
    ensures
        r is Some == valid_ref_name(text@),
{
    gix::refs::FullName::try_from(text).ok()
}

/// `FullName == FullName`: names are equal exactly when their bytes are.
#[verifier::external_body]
fn full_name_eq(a: &gix::refs::FullName, b: &gix::refs::FullName) -> (r: bool)
    ensures
        r == (full_name_bytes(*a) == full_name_bytes(*b)),
{
    a == b
}

/// The working directory (where there is one) and the git directory of a git2 repository, as
/// lossy UTF-8.
#[verifier::external_body]
pub(crate) fn git2_repo_dirs(repo: &git2::Repository) -> (Option<String>, String) {
    (repo.workdir().map(|path| path.to_string_lossy().into_owned()), repo.path().to_string_lossy().into_owned())
}

/// `Repository::try_find_reference(name).is_some()`. What is on disk decides, so nothing is
/// stated.
#[verifier::external_body]
pub(crate) fn reference_exists(repo: &gix::Repository, name: &gix::refs::FullName) -> Result<bool, git2::Error> {
    repo.try_find_reference(name.as_ref()).map(|reference| reference.is_some()).map_err(|error| git2::Error::from_str(&error.to_string()))
}

/// `Repository::find_object(id).id`. What is on disk decides, so nothing is stated.
#[verifier::external_body]
fn find_object_id(repo: &gix::Repository, id: gix::ObjectId) -> Result<gix::ObjectId, git2::Error> {
    repo.find_object(id).map(|object| object.id).map_err(|error| git2::Error::from_str(&error.to_string()))
}

/// `Repository::committer_or_set_generic_fallback`. Nothing is stated.
#[verifier::external_body]
pub(crate) fn set_committer_fallback(repo: &mut gix::Repository) -> Result<(), git2::Error> {
    repo.committer_or_set_generic_fallback().map(|_| ()).map_err(|error| git2::Error::from_str(&error.to_string()))
}

/// `Repository::reference(name, target, expected, message)`: point `name` at `target`. What is
/// on disk decides the outcome, so nothing is stated.
#[verifier::external_body]
pub(crate) fn create_reference(repo: &gix::Repository, name: gix::refs::FullName, target: gix::ObjectId, expected: Expected, message: &str) -> Result<(), git2::Error> {
    repo.reference(name, target, previous_value(expected), message).map(|_| ()).map_err(|error| git2::Error::from_str(&error.to_string()))
}

/// `Repository::find_reference`. What is on disk decides, so nothing is stated.
#[verifier::external_body]
fn find_reference<'repo>(repo: &'repo gix::Repository, name: &gix::refs::FullName) -> Result<gix::Reference<'repo>, git2::Error> {
    repo.find_reference(name.as_ref()).map_err(|error| git2::Error::from_str(&error.to_string()))
}

/// `Reference::delete`. Nothing is stated.
#[verifier::external_body]
fn delete_reference(reference: &gix::Reference<'_>) -> Result<(), git2::Error> {
    reference.delete().map_err(|error| git2::Error::from_str(&error.to_string()))
}

/// `Reference::peel_to_id`, detached. Nothing is stated.
#[verifier::external_body]
fn peel_reference_id(reference: &mut gix::Reference<'_>) -> Result<gix::ObjectId, git2::Error> {
    reference.peel_to_id().map(|id| id.detach()).map_err(|error| git2::Error::from_str(&error.to_string()))
}

/// `Repository::head_name`: the branch HEAD points to, none when detached. Nothing is stated.
#[verifier::external_body]
fn head_name(repo: &gix::Repository) -> Result<Option<gix::refs::FullName>, git2::Error> {
    repo.head_name().map_err(|error| git2::Error::from_str(&error.to_string()))
}

/// The edits of a branch rename, with the reflog message `branch rename`: create `new` at
/// `target` where it must not exist, delete `old` where it still points to `target`, and, given
/// HEAD's name because HEAD points to `old`, move HEAD from `old` to `new`.
pub fn rename_plan(old: gix::refs::FullName, new: gix::refs::FullName, target: gix::ObjectId, head: Option<gix::refs::FullName>) -> (plan: Vec<PlannedEdit>)
    ensures
        plan@.len() == (if head is Some { 3int } else { 2int }),
        is_update(plan@[0], new, EditTarget::Object(target), Expected::MustNotExist, "branch rename"@),
        is_delete(plan@[1], old, Expected::MustMatchObject(target)),
        head matches Some(h) ==> is_update(plan@[2], h, EditTarget::Symbolic(new), Expected::MustMatchSymbolic(old), "branch rename"@),
{
    let create = PlannedEdit { name: new.clone(), target: Some(EditTarget::Object(target)), expected: Expected::MustNotExist, message: "branch rename" };
    let delete = PlannedEdit { name: old.clone(), target: None, expected: Expected::MustMatchObject(target), message: "branch rename" };
    let mut plan = vec![create, delete];
    if let Some(h) = head {
        plan.push(PlannedEdit { name: h, target: Some(EditTarget::Symbolic(new)), expected: Expected::MustMatchSymbolic(old), message: "branch rename" });
    }
    plan
}

/// The edit that points HEAD at `target`, whatever it held, with the reflog `message`.
pub fn head_plan(head: gix::refs::FullName, target: EditTarget, message: &'static str) -> (e: PlannedEdit)
    ensures
        is_update(e, head, target, Expected::Any, message@),
{
    PlannedEdit { name: head, target: Some(target), expected: Expected::Any, message }
}

/// `Repository::edit_references`: the edits in one transaction. What is on disk decides the
/// outcome, so nothing is stated.
#[verifier::external_body]
fn edit_references(repo: &gix::Repository, edits: Vec<gix::refs::transaction::RefEdit>) -> Result<(), git2::Error> {
    repo.edit_references(edits).map(|_| ()).map_err(|error| git2::Error::from_str(&error.to_string()))
}

/// Apply the planned edits in one transaction, in their order.
pub(crate) fn apply_edits(repo: &gix::Repository, plan: Vec<PlannedEdit>) -> Result<(), git2::Error> {
    let mut edits: Vec<gix::refs::transaction::RefEdit> = Vec::new();
    let mut plan = plan;
    while plan.len() > 0
        decreases plan@.len(),
    {
        let edit = plan.remove(0);
        edits.push(ref_edit(edit));
    }
    edit_references(repo, edits)
}

/// The gix repository for a git2 one, opened at its working directory, else at its git
/// directory.
pub fn gix_repo_for(repo: &git2::Repository) -> Result<gix::Repository, git2::Error> {
    let (workdir, git_dir) = git2_repo_dirs(repo);
    match workdir {
        Some(dir) => open_repo(dir.as_str()),
        None => open_repo(git_dir.as_str()),
    }
}

/// The refspecs of a fetch from `remote_name`: every branch into `refs/remotes/<remote>/`,
/// forced, and every tag.
pub fn fetch_refspecs(remote_name: &str) -> (r: (String, String))
    ensures
        r.0@ == "+refs/heads/*:refs/remotes/"@ + remote_name@ + "/*"@,
        r.1@ == "refs/tags/*:refs/tags/*"@,
{
    let head = prefixed_name("+refs/heads/*:refs/remotes/", remote_name);
    let heads = prefixed_name(head.as_str(), "/*");
    let tags = prefixed_name("refs/tags/*:refs/tags/*", "");
    proof {
        assert("refs/tags/*:refs/tags/*"@ + ""@ =~= "refs/tags/*:refs/tags/*"@) by {
            reveal_strlit("");
        }
    }
    (heads, tags)
}

/// The text of the reference of branch `name`: `refs/heads/` and the name.
pub open spec fn branch_ref_text(name: Seq<char>) -> Seq<char> {
    "refs/heads/"@ + name
}

/// The text of the reference of tag `name`: `refs/tags/` and the name.
pub open spec fn tag_ref_text(name: Seq<char>) -> Seq<char> {
    "refs/tags/"@ + name
}

/// The reference name of branch `branch`, or the error `branch name is invalid`.
pub(crate) fn branch_ref_name(branch: &str) -> (r: Result<gix::refs::FullName, git2::Error>)
    ensures
        r is Ok == valid_ref_name(branch_ref_text(branch@)),
{
    match ref_full_name(prefixed_name("refs/heads/", branch)) {
        Some(name) => Ok(name),
        None => Err(error_from_message("branch name is invalid")),
    }
}

/// The reference name of tag `tag`, or the error `tag name is invalid`.
fn tag_ref_name(tag: &str) -> (r: Result<gix::refs::FullName, git2::Error>)
    ensures
        r is Ok == valid_ref_name(tag_ref_text(tag@)),
{
    match ref_full_name(prefixed_name("refs/tags/", tag)) {
        Some(name) => Ok(name),
        None => Err(error_from_message("tag name is invalid")),
    }
}

/// Tag the object `oid` as `tag`. The tag's reference name must be valid and must not exist yet
/// (`tag name already exists`); the object must exist. On success the tagged id is returned.
pub fn tag(repo: &git2::Repository, oid: git2::Oid, name: &str) -> (r: Result<git2::Oid, git2::Error>)
    ensures
        r matches Ok(tagged) ==> tagged == oid,
        !valid_ref_name(tag_ref_text(name@)) ==> r is Err,
{
    let mut repo = gix_repo_for(repo)?;
    let tag_ref_name = tag_ref_name(name)?;
    if reference_exists(&repo, &tag_ref_name)? {
        return Err(error_from_message("tag name already exists"));
    }
    let object_id = find_object_id(&repo, git2_to_gix_oid(oid))?;
    set_committer_fallback(&mut repo)?;
    create_reference(&repo, tag_ref_name, object_id, Expected::MustNotExist, "tag create")?;
    Ok(oid)
}

/// Delete the tag `tag`; its reference name must be valid and the reference must exist.
pub fn untag(repo: &git2::Repository, tag: &str) -> (r: Result<(), git2::Error>)
    ensures
        !valid_ref_name(tag_ref_text(tag@)) ==> r is Err,
{
    let mut repo = gix_repo_for(repo)?;
    let tag_ref_name = tag_ref_name(tag)?;
    set_committer_fallback(&mut repo)?;
    let reference = find_reference(&repo, &tag_ref_name)?;
    delete_reference(&reference)
}

/// Create the branch `branch_name` at the commit `target_oid`, without checking it out. The
/// branch's reference name must be valid and must not exist yet (`branch name already exists`);
/// the commit must exist.
pub fn create_branch(repo: &git2::Repository, branch_name: &str, target_oid: git2::Oid) -> (r: Result<(), git2::Error>)
    ensures
        !valid_ref_name(branch_ref_text(branch_name@)) ==> r is Err,
{
    let mut repo = gix_repo_for(repo)?;
    let branch_ref_name = branch_ref_name(branch_name)?;
    if reference_exists(&repo, &branch_ref_name)? {
        return Err(error_from_message("branch name already exists"));
    }
    let target = {
        let commit = find_commit(&repo, git2_to_gix_oid(target_oid))?;
        commit_id(&commit)
    };
    set_committer_fallback(&mut repo)?;
    create_reference(&repo, branch_ref_name, target, Expected::MustNotExist, "branch create")
}

/// Why a new branch name is refused.
#[derive(Clone, Copy, Debug, PartialEq, Eq, Structural)]
pub enum BranchRenameError {
    /// Nothing is left of the new name once trimmed.
    Empty,
    /// The trimmed new name is the current name.
    Unchanged,
}

/// The new name of a rename, trimmed: refused when empty, or when it is the current name.
pub open spec fn branch_rename_of(old_name: Seq<char>, new_name: Seq<char>) -> Result<Seq<char>, BranchRenameError> {
    let trimmed = trim_seq(new_name);
    if trimmed.len() == 0 {
        Err(BranchRenameError::Empty)
    } else if trimmed == old_name {
        Err(BranchRenameError::Unchanged)
    } else {
        Ok(trimmed)
    }
}

/// Check the new name of a branch rename (see `branch_rename_of`).
pub fn validate_branch_rename(old_name: &str, new_name: &str) -> (r: Result<String, BranchRenameError>)
    ensures
        match (r, branch_rename_of(old_name@, new_name@)) {
            (Ok(name), Ok(expected)) => name@ == expected,
            (Err(e), Err(expected)) => e == expected,
            _ => false,
        },
{
    let trimmed = trim_chars(&str_chars(new_name));
    if trimmed.len() == 0 {
        return Err(BranchRenameError::Empty);
    }
    let trimmed = string_from_chars(&trimmed);
    let old = string_from_chars(&str_chars(old_name));
    if old == trimmed {
        return Err(BranchRenameError::Unchanged);
    }
    Ok(trimmed)
}

/// The text of each refusal of a rename.
pub open spec fn rename_refusal_text(error: BranchRenameError) -> Seq<char> {
    match error {
        BranchRenameError::Empty => "branch name cannot be empty"@,
        BranchRenameError::Unchanged => "new branch name must differ from current branch name"@,
    }
}

/// The message of a refused rename.
pub fn branch_rename_message(error: BranchRenameError) -> (m: &'static str)
    ensures
        m@ == rename_refusal_text(error),
{
    match error {
        BranchRenameError::Empty => "branch name cannot be empty",
        BranchRenameError::Unchanged => "new branch name must differ from current branch name",
    }
}

/// The answer to whether the new name of a rename is taken: `branch name already exists` where
/// the branch exists, else nothing to refuse.
pub fn new_branch_free(target_exists: bool) -> (r: Result<(), git2::Error>)
    ensures
        r is Err <==> target_exists,
        r matches Err(e) ==> error_text(e) == "branch name already exists"@,
{
    if target_exists {
        Err(error_from_message("branch name already exists"))
    } else {
        Ok(())
    }
}

/// Whether HEAD names the branch reference `branch`.
fn head_is(head: &Option<gix::refs::FullName>, branch: &gix::refs::FullName) -> (r: bool)
    ensures
        r == (head matches Some(h) && full_name_bytes(*h) == full_name_bytes(*branch)),
{
    match head {
        Some(h) => full_name_eq(h, branch),
        None => false,
    }
}

/// Delete branch `branch`: its reference, then its configuration section through
/// `remove_config` (given the repository and the branch name), which writes the configuration
/// file. The name must be valid and the branch must exist; the branch HEAD points to is refused
/// (`cannot delete the currently checked out branch`).
pub fn delete_branch<F>(repo: &git2::Repository, branch: &str, remove_config: F) -> (r: Result<(), git2::Error>)
    where
        F: FnOnce(&gix::Repository, &str) -> Result<(), git2::Error>,
    requires
        forall|r: &gix::Repository, b: &str| remove_config.requires((r, b)),
    ensures
        !valid_ref_name(branch_ref_text(branch@)) ==> r is Err,
{
    let mut repo = gix_repo_for(repo)?;
    let branch_ref_name = branch_ref_name(branch)?;
    find_reference(&repo, &branch_ref_name)?;
    let head = head_name(&repo)?;
    if head_is(&head, &branch_ref_name) {
        return Err(error_from_message("cannot delete the currently checked out branch"));
    }
    set_committer_fallback(&mut repo)?;
    let reference = find_reference(&repo, &branch_ref_name)?;
    delete_reference(&reference)?;
    remove_config(&repo, branch)
}

/// Rename branch `old_name` to the trimmed `new_name` (see `branch_rename_of`) in one reference
/// transaction: the new reference is created at the old one's commit, the old one deleted, and
/// HEAD follows where it pointed to the old branch. Both names must be valid and the new one
/// must not exist (`branch name already exists`). Then the branch's configuration section is
/// renamed through `rename_config` (given the repository, the old and the trimmed new name),
/// which writes the configuration file.
pub fn rename_branch<F>(repo: &git2::Repository, old_name: &str, new_name: &str, rename_config: F) -> (r: Result<(), git2::Error>)
    where
        F: FnOnce(&gix::Repository, &str, &str) -> Result<(), git2::Error>,
    requires
        forall|r: &gix::Repository, a: &str, b: &str| rename_config.requires((r, a, b)),
    ensures
        branch_rename_of(old_name@, new_name@) is Err ==> r is Err,
        branch_rename_of(old_name@, new_name@) matches Err(k) ==> (r matches Err(e) && error_text(e) == rename_refusal_text(k)),
        branch_rename_of(old_name@, new_name@) matches Ok(n) && !valid_ref_name(branch_ref_text(n)) ==> r is Err,
        !valid_ref_name(branch_ref_text(old_name@)) ==> r is Err,
{
    let new_name = match validate_branch_rename(old_name, new_name) {
        Ok(name) => name,
        Err(error) => {
            return Err(error_from_message(branch_rename_message(error)));
        },
    };
    let mut repo = gix_repo_for(repo)?;
    let old_ref_name = branch_ref_name(old_name)?;
    let new_ref_name = branch_ref_name(new_name.as_str())?;
    new_branch_free(reference_exists(&repo, &new_ref_name)?)?;
    let mut branch = find_reference(&repo, &old_ref_name)?;
    let target = peel_reference_id(&mut branch)?;
    let head = head_name(&repo)?;
    let is_current_branch = head_is(&head, &old_ref_name);
    set_committer_fallback(&mut repo)?;
    let head = if is_current_branch {
        match head_ref_name() {
            Some(head) => Some(head),
            None => {
                return Err(error_from_message("HEAD is not a valid reference name"));
            },
        }
    } else {
        None
    };
    apply_edits(&repo, rename_plan(old_ref_name, new_ref_name, target, head))?;
    rename_config(&repo, old_name, new_name.as_str())
}

} // verus!
