use git2::build::CheckoutBuilder;
use git2::{Oid, Repository, Signature, Time};
use guitar::oids::git2_to_gix_oid;
use guitar::file_search::search_tracked_files;
use guitar::changes::FileStatus;
use guitar::file_history::{changed_file_status_at_commit, FileStatusCache};
use guitar::workdir_changes::{get_filenames_diff_at_workdir, get_staged_filenames_diff};
use guitar::submodule_list::{has_committed_or_workdir_submodule_metadata, list_submodules, list_submodules_from_path};
use guitar::checkout::{checkout_branch, checkout_head, split_remote_branch};
use guitar::submodule_actions::{
    is_unconflicted_entry_at, stage_submodule_head, submodule_matches, submodule_url_key, sync_submodule, unstage_submodule,
};
use guitar::refs::{
    create_branch, fetch_refspecs, delete_branch, rename_branch, tag, untag, validate_branch_rename, BranchRenameError,
};
use guitar::staging::{
    pointer_change, stage_all, stage_file, stage_file_step, stage_step, unstage_all, unstage_file, PointerChange, StageStep,
    WorkdirPointerStatus,
};
use std::cell::RefCell;
use std::collections::HashMap;
use std::path::Path;
use tempfile::TempDir;

fn temp_repo(name: &str) -> (TempDir, Repository) {
    let dir = tempfile::Builder::new().prefix(&format!("guitar-actions-{name}-")).tempdir().unwrap();
    let repo = Repository::init(dir.path().join("repo")).unwrap();
    (dir, repo)
}

fn tree_of(repo: &Repository, files: &[(&str, &str)]) -> Oid {
    let mut builder = repo.treebuilder(None).unwrap();
    for (name, contents) in files {
        let blob = repo.blob(contents.as_bytes()).unwrap();
        builder.insert(name, blob, 0o100644).unwrap();
    }
    builder.write().unwrap()
}

fn commit_files(repo: &Repository, files: &[(&str, &str)], message: &str) -> Oid {
    let tree = repo.find_tree(tree_of(repo, files)).unwrap();
    let sig = Signature::new("Test User", "test@example.com", &Time::new(1_700_000_000, 0)).unwrap();
    let parent = repo.head().ok().and_then(|head| head.peel_to_commit().ok());
    let parents: Vec<&git2::Commit<'_>> = parent.iter().collect();
    let oid = repo.commit(Some("HEAD"), &sig, &sig, message, &tree, &parents).unwrap();
    repo.checkout_head(Some(CheckoutBuilder::new().force())).unwrap();
    oid
}

/// Put the files of `files` into the working tree, leaving the index as it is.
fn write_worktree(repo: &Repository, files: &[(&str, &str)]) {
    let tree = repo.find_object(tree_of(repo, files), None).unwrap();
    repo.checkout_tree(&tree, Some(CheckoutBuilder::new().force().update_index(false))).unwrap();
}

fn index_blob(repo: &Repository, path: &str) -> Option<Oid> {
    let mut index = repo.index().unwrap();
    index.read(true).unwrap();
    index.get_path(Path::new(path), 0).map(|entry| entry.id)
}

fn blob_id(repo: &Repository, contents: &str) -> Oid {
    repo.blob(contents.as_bytes()).unwrap()
}

fn head_name(repo: &Repository) -> String {
    repo.head().unwrap().name().unwrap().to_string()
}

#[test]
fn stage_steps_follow_submodules_deletions_and_additions() {
    let subs = vec!["vendor/lib".to_string()];
    assert_eq!(stage_step("vendor/lib", false, false, &subs), StageStep::Skip);
    assert_eq!(stage_step("vendor/lib/", true, true, &subs), StageStep::Skip);
    assert_eq!(stage_step("vendor/lib/src/a.rs", false, false, &subs), StageStep::Skip);
    assert_eq!(stage_step("vendor/library", false, false, &subs), StageStep::AddToIndex);
    assert_eq!(stage_step("gone.txt", true, true, &subs), StageStep::RemoveFromIndex);
    assert_eq!(stage_step("gone.txt", true, false, &subs), StageStep::Skip);
    assert_eq!(stage_step("", false, false, &subs), StageStep::AddToIndex);
    assert_eq!(stage_file_step(true), StageStep::AddToIndex);
    assert_eq!(stage_file_step(false), StageStep::RemoveFromIndex);
}

#[test]
fn pointer_changes_follow_status_and_ids() {
    let clean = WorkdirPointerStatus { wd_added: false, wd_deleted: false, wd_modified: false };
    let a = Oid::from_bytes(&[1; 20]).unwrap();
    let b = Oid::from_bytes(&[2; 20]).unwrap();
    assert_eq!(pointer_change(clean, Some(a), Some(a)), PointerChange::Unchanged);
    assert_eq!(pointer_change(clean, Some(a), None), PointerChange::Unchanged);
    assert_eq!(pointer_change(clean, Some(a), Some(b)), PointerChange::Changed);
    assert_eq!(pointer_change(WorkdirPointerStatus { wd_modified: true, ..clean }, None, None), PointerChange::Changed);
    assert_eq!(pointer_change(WorkdirPointerStatus { wd_added: true, ..clean }, None, None), PointerChange::Changed);
    assert_eq!(pointer_change(WorkdirPointerStatus { wd_deleted: true, ..clean }, Some(a), Some(b)), PointerChange::Deleted);
}

#[test]
fn stage_all_stages_new_modified_and_deleted_files_and_unstage_all_undoes_it() {
    let (_dir, repo) = temp_repo("stage-all");
    commit_files(&repo, &[("a.txt", "one"), ("b.txt", "two")], "first");
    write_worktree(&repo, &[("a.txt", "changed"), ("c.txt", "new")]);

    stage_all(&repo).unwrap();
    assert_eq!(index_blob(&repo, "a.txt"), Some(blob_id(&repo, "changed")));
    assert_eq!(index_blob(&repo, "b.txt"), None);
    assert_eq!(index_blob(&repo, "c.txt"), Some(blob_id(&repo, "new")));

    unstage_all(&repo).unwrap();
    assert_eq!(index_blob(&repo, "a.txt"), Some(blob_id(&repo, "one")));
    assert_eq!(index_blob(&repo, "b.txt"), Some(blob_id(&repo, "two")));
    assert_eq!(index_blob(&repo, "c.txt"), None);
}

#[test]
fn unstage_all_without_head_does_nothing() {
    let (_dir, repo) = temp_repo("unstage-unborn");
    assert!(unstage_all(&repo).is_ok());
}

#[test]
fn single_files_are_staged_and_unstaged() {
    let (_dir, repo) = temp_repo("single");
    commit_files(&repo, &[("a.txt", "one"), ("b.txt", "two")], "first");
    write_worktree(&repo, &[("a.txt", "changed")]);

    // No file of that name exists beside the process, so it is staged as a deletion.
    stage_file(&repo, "b.txt").unwrap();
    assert_eq!(index_blob(&repo, "b.txt"), None);
    unstage_file(&repo, "b.txt").unwrap();
    assert_eq!(index_blob(&repo, "b.txt"), Some(blob_id(&repo, "two")));
}

#[test]
fn unstage_file_without_head_removes_the_entry() {
    let (_dir, repo) = temp_repo("unstage-file-unborn");
    write_worktree(&repo, &[("a.txt", "one")]);
    stage_all(&repo).unwrap();
    assert_eq!(index_blob(&repo, "a.txt"), Some(blob_id(&repo, "one")));
    unstage_file(&repo, "a.txt").unwrap();
    assert_eq!(index_blob(&repo, "a.txt"), None);
}

#[test]
fn tags_are_created_once_and_removed() {
    let (_dir, repo) = temp_repo("tags");
    let oid = commit_files(&repo, &[("a.txt", "one")], "first");
    assert_eq!(tag(&repo, oid, "v1").unwrap(), oid);
    assert_eq!(repo.refname_to_id("refs/tags/v1").unwrap(), oid);
    assert_eq!(tag(&repo, oid, "v1").unwrap_err().message(), "tag name already exists");
    assert_eq!(tag(&repo, oid, "bad..name").unwrap_err().message(), "tag name is invalid");
    untag(&repo, "v1").unwrap();
    assert!(repo.refname_to_id("refs/tags/v1").is_err());
    assert!(untag(&repo, "v1").is_err());
}

#[test]
fn branches_are_created_deleted_and_renamed() {
    let (_dir, repo) = temp_repo("branches");
    let oid = commit_files(&repo, &[("a.txt", "one")], "first");
    let current = head_name(&repo);
    let current_branch = current.trim_start_matches("refs/heads/").to_string();

    create_branch(&repo, "feature", oid).unwrap();
    assert_eq!(repo.refname_to_id("refs/heads/feature").unwrap(), oid);
    assert_eq!(create_branch(&repo, "feature", oid).unwrap_err().message(), "branch name already exists");
    assert_eq!(create_branch(&repo, "bad..name", oid).unwrap_err().message(), "branch name is invalid");

    let removed = RefCell::new(Vec::new());
    let remove = |_: &gix::Repository, name: &str| {
        removed.borrow_mut().push(name.to_string());
        Ok(())
    };
    assert_eq!(delete_branch(&repo, &current_branch, remove).unwrap_err().message(), "cannot delete the currently checked out branch");
    assert!(removed.borrow().is_empty());
    delete_branch(&repo, "feature", remove).unwrap();
    assert!(repo.refname_to_id("refs/heads/feature").is_err());
    assert_eq!(*removed.borrow(), vec!["feature".to_string()]);

    let renamed = RefCell::new(Vec::new());
    let rename = |_: &gix::Repository, old: &str, new: &str| {
        renamed.borrow_mut().push((old.to_string(), new.to_string()));
        Ok(())
    };
    assert_eq!(rename_branch(&repo, &current_branch, "   ", rename).unwrap_err().message(), "branch name cannot be empty");
    assert_eq!(
        rename_branch(&repo, &current_branch, &format!(" {current_branch} "), rename).unwrap_err().message(),
        "new branch name must differ from current branch name"
    );
    assert!(renamed.borrow().is_empty());
    rename_branch(&repo, &current_branch, "  trunk ", rename).unwrap();
    assert_eq!(*renamed.borrow(), vec![(current_branch.clone(), "trunk".to_string())]);
    assert_eq!(head_name(&repo), "refs/heads/trunk");
    assert_eq!(repo.refname_to_id("refs/heads/trunk").unwrap(), oid);
    assert!(repo.refname_to_id(&current).is_err());
}

#[test]
fn branch_renames_are_validated() {
    assert_eq!(validate_branch_rename("main", "  feature\t"), Ok("feature".to_string()));
    assert_eq!(validate_branch_rename("main", " \n "), Err(BranchRenameError::Empty));
    assert_eq!(validate_branch_rename("main", " main "), Err(BranchRenameError::Unchanged));
}

fn hidden_of(names: &[&str]) -> im::HashSet<String> {
    names.iter().map(|name| name.to_string()).collect()
}

#[test]
fn remote_branch_names_split_at_the_first_slash() {
    assert_eq!(split_remote_branch("origin/main"), Some(("origin".to_string(), "main".to_string())));
    assert_eq!(split_remote_branch("origin/feature/x"), Some(("origin".to_string(), "feature/x".to_string())));
    assert_eq!(split_remote_branch("/x"), Some((String::new(), "x".to_string())));
    assert_eq!(split_remote_branch("main/"), Some(("main".to_string(), String::new())));
    assert_eq!(split_remote_branch("main"), None);
}

#[test]
fn fetch_refspecs_cover_branches_and_tags() {
    assert_eq!(fetch_refspecs("origin"), ("+refs/heads/*:refs/remotes/origin/*".to_string(), "refs/tags/*:refs/tags/*".to_string()));
}

#[test]
fn checkout_moves_head_and_unhides_the_branch() {
    let (_dir, repo) = temp_repo("checkout");
    let first = commit_files(&repo, &[("a.txt", "one")], "first");
    let current = head_name(&repo);
    let second = commit_files(&repo, &[("a.txt", "two")], "second");
    repo.branch("feature", &repo.find_commit(first).unwrap(), false).unwrap();
    repo.reference("refs/remotes/origin/topic", first, false, "test").unwrap();

    let mut hidden = hidden_of(&["feature", "topic", "other"]);
    let mut local: HashMap<u32, Vec<String>> = HashMap::new();
    let upstreams = RefCell::new(Vec::new());
    let record = |_: &gix::Repository, branch: &str, remote: &str| {
        upstreams.borrow_mut().push((branch.to_string(), remote.to_string()));
        Ok(())
    };

    checkout_branch(&repo, &mut hidden, &mut local, 7, "feature", record).unwrap();
    assert_eq!(head_name(&repo), "refs/heads/feature");
    assert_eq!(index_blob(&repo, "a.txt"), Some(blob_id(&repo, "one")));
    assert_eq!(hidden, hidden_of(&["topic", "other"]));
    assert!(local.is_empty());

    checkout_branch(&repo, &mut hidden, &mut local, 7, "origin/topic", record).unwrap();
    assert_eq!(head_name(&repo), "refs/heads/topic");
    assert_eq!(repo.refname_to_id("refs/heads/topic").unwrap(), first);
    assert_eq!(*upstreams.borrow(), vec![("topic".to_string(), "origin".to_string())]);
    assert_eq!(local.get(&7), Some(&vec!["topic".to_string()]));
    assert_eq!(hidden, hidden_of(&["other"]));

    let err = checkout_branch(&repo, &mut hidden, &mut local, 7, "nope", record).unwrap_err();
    assert_eq!(err.message(), "No matching local or remote branch found");
    assert_eq!(hidden, hidden_of(&["other"]));

    let branch = current.trim_start_matches("refs/heads/").to_string();
    checkout_branch(&repo, &mut hidden, &mut local, 7, &branch, record).unwrap();
    assert_eq!(head_name(&repo), current);
    assert_eq!(index_blob(&repo, "a.txt"), Some(blob_id(&repo, "two")));

    checkout_head(&repo, first).unwrap();
    assert!(repo.head_detached().unwrap());
    assert_eq!(repo.head().unwrap().target(), Some(first));
    assert_ne!(first, second);
}

#[test]
fn submodules_are_found_by_name_or_path() {
    assert!(submodule_matches(b"lib", &None, b"lib"));
    assert!(submodule_matches(b"lib", &Some(b"vendor/lib".to_vec()), b"vendor/lib"));
    assert!(!submodule_matches(b"lib", &Some(b"vendor/lib".to_vec()), b"vendor"));
    assert!(!submodule_matches(b"lib", &None, b"vendor/lib"));
    assert!(is_unconflicted_entry_at(b"vendor/lib", b"vendor/lib", 0));
    assert!(!is_unconflicted_entry_at(b"vendor/lib", b"vendor/lib", 2));
    assert!(!is_unconflicted_entry_at(b"vendor/li", b"vendor/lib", 0));
    assert_eq!(submodule_url_key("lib"), "submodule.lib.url");
}

#[test]
fn submodule_actions_report_a_missing_submodule() {
    let (_dir, repo) = temp_repo("no-submodule");
    commit_files(&repo, &[("a.txt", "one")], "first");
    assert_eq!(stage_submodule_head(&repo, "lib").unwrap_err().message(), "Submodule not found");
    assert_eq!(unstage_submodule(&repo, "lib").unwrap_err().message(), "Submodule not found");
    let result = sync_submodule(&repo, "lib", |_, _, _| Ok(()), |_, _| Ok(()));
    assert_eq!(result.unwrap_err().message(), "Submodule not found");
}

fn commit_index(repo: &Repository, message: &str) -> Oid {
    let mut index = repo.index().unwrap();
    index.read(true).unwrap();
    let tree = repo.find_tree(index.write_tree().unwrap()).unwrap();
    let sig = Signature::new("Test User", "test@example.com", &Time::new(1_700_000_100, 0)).unwrap();
    let parent = repo.head().ok().and_then(|head| head.peel_to_commit().ok());
    let parents: Vec<&git2::Commit<'_>> = parent.iter().collect();
    repo.commit(Some("HEAD"), &sig, &sig, message, &tree, &parents).unwrap()
}

#[test]
fn repositories_without_gitmodules_list_no_submodules() {
    let (_dir, repo) = temp_repo("no-gitmodules");
    commit_files(&repo, &[("a.txt", "one")], "first");
    assert!(!has_committed_or_workdir_submodule_metadata(&repo));
    assert!(list_submodules(&repo).unwrap().is_empty());
    let workdir = repo.workdir().unwrap().to_str().unwrap().to_string();
    assert!(list_submodules_from_path(&workdir).unwrap().is_empty());
}

#[test]
fn submodules_are_listed_staged_and_unstaged() {
    let (_dir, parent) = temp_repo("parent");
    commit_files(&parent, &[("a.txt", "one")], "first");
    let (_sub_dir, sub) = temp_repo("sub");
    let first = commit_files(&sub, &[("s.txt", "x")], "s1");
    let url = sub.workdir().unwrap().to_str().unwrap().to_string();
    let mut submodule = parent.submodule(&url, Path::new("libs/sub"), true).unwrap();
    let cloned = submodule.clone(None).unwrap();
    submodule.add_finalize().unwrap();
    commit_index(&parent, "add submodule");

    assert!(has_committed_or_workdir_submodule_metadata(&parent));
    let entries = list_submodules(&parent).unwrap();
    assert_eq!(entries.len(), 1);
    assert_eq!(entries[0].path, "libs/sub");
    assert_eq!(entries[0].name, "libs/sub");
    assert!(entries[0].is_open && entries[0].is_in_head && entries[0].is_in_index);
    assert_eq!(entries[0].head, Some(git2_to_gix_oid(first)));
    assert!(!entries[0].has_new_commits && !entries[0].is_index_modified);

    let second = commit_files(&cloned, &[("s.txt", "y")], "s2");
    let entries = list_submodules(&parent).unwrap();
    assert_eq!(entries[0].workdir, Some(git2_to_gix_oid(second)));
    assert!(entries[0].has_new_commits && entries[0].is_workdir_modified);

    stage_submodule_head(&parent, "libs/sub").unwrap();
    assert_eq!(index_blob(&parent, "libs/sub"), Some(second));
    unstage_submodule(&parent, "libs/sub").unwrap();
    assert_eq!(index_blob(&parent, "libs/sub"), Some(first));
    stage_all(&parent).unwrap();
    assert_eq!(index_blob(&parent, "libs/sub"), Some(second));
}

#[test]
fn workdir_changes_list_unstaged_then_staged_paths() {
    let (_dir, repo) = temp_repo("workdir-changes");
    commit_files(&repo, &[("a.txt", "one"), ("b.txt", "two")], "first");
    let clean = get_filenames_diff_at_workdir(&repo).unwrap();
    assert!(clean.is_clean && !clean.is_staged && !clean.is_unstaged);

    write_worktree(&repo, &[("a.txt", "changed"), ("c.txt", "new")]);
    let changes = get_filenames_diff_at_workdir(&repo).unwrap();
    assert_eq!(changes.unstaged.modified, vec!["a.txt".to_string()]);
    assert_eq!(changes.unstaged.deleted, vec!["b.txt".to_string()]);
    assert_eq!(changes.unstaged.added, vec!["c.txt".to_string()]);
    assert!(changes.staged.modified.is_empty() && changes.staged.added.is_empty() && changes.staged.deleted.is_empty());
    assert_eq!((changes.modified_count, changes.added_count, changes.deleted_count), (1, 1, 1));
    assert!(changes.is_unstaged && !changes.is_staged && !changes.is_clean);

    stage_all(&repo).unwrap();
    let changes = get_filenames_diff_at_workdir(&repo).unwrap();
    assert_eq!(changes.staged.modified, vec!["a.txt".to_string()]);
    assert_eq!(changes.staged.deleted, vec!["b.txt".to_string()]);
    assert_eq!(changes.staged.added, vec!["c.txt".to_string()]);
    assert!(changes.is_staged && !changes.is_unstaged);
    let staged = get_staged_filenames_diff(&repo).unwrap();
    assert_eq!(staged.staged.added, vec!["c.txt".to_string()]);
    assert_eq!(staged.staged.deleted, vec!["b.txt".to_string()]);
}

#[test]
fn bare_repositories_have_no_workdir_changes() {
    let dir = tempfile::Builder::new().prefix("guitar-actions-bare-").tempdir().unwrap();
    let repo = Repository::init_bare(dir.path().join("bare.git")).unwrap();
    assert_eq!(get_filenames_diff_at_workdir(&repo).unwrap_err().message(), "bare repositories are not supported");
    assert_eq!(get_staged_filenames_diff(&repo).unwrap_err().message(), "bare repositories are not supported");
    assert_eq!(guitar::checkout::checkout_head(&repo, Oid::zero()).unwrap_err().message(), "Repository has no worktree");
}

#[test]
fn file_statuses_at_commits_are_cached() {
    let (_dir, repo) = temp_repo("file-status");
    let first = commit_files(&repo, &[("a.txt", "one")], "first");
    let second = commit_files(&repo, &[("a.txt", "two"), ("b.txt", "new")], "second");
    let mut cache = FileStatusCache::new();
    assert_eq!(changed_file_status_at_commit(&repo, second, " ./a.txt", &mut cache).unwrap(), Some(FileStatus::Modified));
    assert_eq!(cache.entries.len(), 1);
    assert_eq!(cache.entries[0].2, "a.txt");
    assert_eq!(changed_file_status_at_commit(&repo, second, "a.txt", &mut cache).unwrap(), Some(FileStatus::Modified));
    assert_eq!(cache.entries.len(), 1);
    assert_eq!(changed_file_status_at_commit(&repo, second, "b.txt", &mut cache).unwrap(), Some(FileStatus::Added));
    assert_eq!(changed_file_status_at_commit(&repo, first, "a.txt", &mut cache).unwrap(), Some(FileStatus::Added));
    assert_eq!(changed_file_status_at_commit(&repo, first, "b.txt", &mut cache).unwrap(), None);
    assert_eq!(cache.entries.len(), 4);
    // A status stored under the key is what the next lookup answers.
    cache.insert(cache.entries[0].0.clone(), cache.entries[0].1.clone(), "a.txt".to_string(), Some(FileStatus::Deleted));
    assert_eq!(changed_file_status_at_commit(&repo, second, "a.txt", &mut cache).unwrap(), Some(FileStatus::Deleted));
}

#[test]
fn tracked_files_are_searched_in_the_working_tree() {
    let (_dir, repo) = temp_repo("search");
    commit_files(&repo, &[("main.rs", "fn main() {}"), ("README.md", "readme"), ("notes.txt", "n")], "first");
    let results = search_tracked_files(&repo, "  main ", 10).unwrap();
    assert_eq!(results.first().map(|r| r.path.as_str()), Some("main.rs"));
    assert!(results.iter().all(|r| r.path != "notes.txt"));
    assert!(search_tracked_files(&repo, "   ", 10).unwrap().is_empty());
    assert!(search_tracked_files(&repo, "main", 0).unwrap().is_empty());
    write_worktree(&repo, &[("README.md", "readme"), ("notes.txt", "n")]);
    assert!(search_tracked_files(&repo, "main", 10).unwrap().is_empty());
}
