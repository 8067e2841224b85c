use git2::build::CheckoutBuilder;
use git2::{Oid, Repository, Signature, Time};
use guitar::commits::current_branch_from_head;
use guitar::staging::{stage_entries, stage_path, StatusEntry};
use std::path::Path;

fn temp_repo(name: &str) -> (tempfile::TempDir, Repository) {
    let dir = tempfile::Builder::new().prefix(&format!("guitar-steps-{name}-")).tempdir().unwrap();
    let repo = Repository::init(dir.path().join("repo")).unwrap();
    (dir, repo)
}

fn commit_file(repo: &Repository, name: &str, contents: &str) -> Oid {
    let mut builder = repo.treebuilder(None).unwrap();
    builder.insert(name, repo.blob(contents.as_bytes()).unwrap(), 0o100644).unwrap();
    let tree = repo.find_tree(builder.write().unwrap()).unwrap();
    let sig = Signature::new("Test User", "test@example.com", &Time::new(1_700_000_000, 0)).unwrap();
    let oid = repo.commit(Some("HEAD"), &sig, &sig, "init", &tree, &[]).unwrap();
    repo.checkout_head(Some(CheckoutBuilder::new().force())).unwrap();
    oid
}

/// Put the files of `files` into the working tree (tracked files not among them leave it),
/// leaving the index as it is.
fn write_worktree(repo: &Repository, files: &[(&str, &str)]) {
    let mut builder = repo.treebuilder(None).unwrap();
    for (name, contents) in files {
        builder.insert(name, repo.blob(contents.as_bytes()).unwrap(), 0o100644).unwrap();
    }
    let tree = repo.find_object(builder.write().unwrap(), None).unwrap();
    repo.checkout_tree(&tree, Some(CheckoutBuilder::new().force().update_index(false))).unwrap();
}

fn entry(path: &str, wt_deleted: bool) -> StatusEntry {
    StatusEntry { path: Some(path.to_string()), wt_deleted, index_deleted: false }
}

#[test]
fn stage_entries_adds_new_files_and_removes_deleted_ones() {
    let (_dir, repo) = temp_repo("entries");
    commit_file(&repo, "old.txt", "old\n");
    write_worktree(&repo, &[("new.txt", "new\n")]);
    assert!(!repo.workdir().unwrap().join("old.txt").exists());
    let mut index = repo.index().unwrap();
    let statuses = vec![entry("new.txt", false), entry("old.txt", true), StatusEntry { path: None, wt_deleted: false, index_deleted: false }];
    stage_entries(&mut index, &statuses, &Vec::new()).unwrap();
    assert!(index.get_path(Path::new("new.txt"), 0).is_some());
    assert!(index.get_path(Path::new("old.txt"), 0).is_none());
}

#[test]
fn stage_entries_skips_paths_inside_submodules() {
    let (_dir, repo) = temp_repo("submodule-skip");
    commit_file(&repo, "a.txt", "a\n");
    let mut index = repo.index().unwrap();
    stage_entries(&mut index, &vec![entry("sub/file.txt", false)], &vec!["sub".to_string()]).unwrap();
    assert!(index.get_path(Path::new("sub/file.txt"), 0).is_none());
}

#[test]
fn stage_path_adds_or_removes_one_file() {
    let (_dir, repo) = temp_repo("path");
    commit_file(&repo, "a.txt", "a\n");
    write_worktree(&repo, &[("a.txt", "a\n"), ("b.txt", "b\n")]);
    let mut index = repo.index().unwrap();
    stage_path(&mut index, "b.txt", true).unwrap();
    assert!(index.get_path(Path::new("b.txt"), 0).is_some());
    stage_path(&mut index, "a.txt", false).unwrap();
    assert!(index.get_path(Path::new("a.txt"), 0).is_none());
}

#[test]
fn current_branch_comes_only_from_a_branch_head() {
    assert_eq!(current_branch_from_head(Some((true, Some("main".to_string())))), Some("main".to_string()));
    assert_eq!(current_branch_from_head(Some((false, Some("HEAD".to_string())))), None);
    assert_eq!(current_branch_from_head(Some((true, None))), None);
    assert_eq!(current_branch_from_head(None), None);
}
