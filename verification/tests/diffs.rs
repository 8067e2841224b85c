use guitar::changes::{FileStatus, UncommittedChanges};
use guitar::diffs::{
    add_submodule_pointer_change, apply_index_worktree_change, apply_tree_index_change, committed_submodule_change_status, is_submodule_status_path, staged_changes_from,
    IndexChangeKind, SubmodulePointerFacts, WorktreeSummary,
};

fn strings(items: &[&str]) -> Vec<String> {
    items.iter().map(|s| s.to_string()).collect()
}

fn oid(byte: u8) -> gix::ObjectId {
    gix::ObjectId::from_bytes_or_panic(&[byte; 20])
}

#[test]
fn staged_changes_are_bucketed_once_each() {
    let items = vec![
        (IndexChangeKind::Addition, "new.rs".to_string()),
        (IndexChangeKind::Modification, "lib.rs".to_string()),
        (IndexChangeKind::Rewrite, "lib.rs".to_string()),
        (IndexChangeKind::Deletion, "old.rs".to_string()),
    ];
    let changes = staged_changes_from(&items);
    assert_eq!(changes.staged.added, strings(&["new.rs"]));
    assert_eq!(changes.staged.modified, strings(&["lib.rs"]));
    assert_eq!(changes.staged.deleted, strings(&["old.rs"]));
    assert_eq!((changes.added_count, changes.modified_count, changes.deleted_count), (1, 1, 1));
    assert!(changes.is_staged && !changes.is_unstaged && !changes.is_clean);
    let none = staged_changes_from(&Vec::new());
    assert!(none.is_clean && !none.is_staged);
}

#[test]
fn submodule_status_paths_match_by_component() {
    let subs = strings(&["libs/core", "vendor"]);
    assert!(is_submodule_status_path("libs/core", &subs));
    assert!(is_submodule_status_path("libs/core/", &subs));
    assert!(is_submodule_status_path("vendor/x/y.c", &subs));
    assert!(!is_submodule_status_path("libs/corelib", &subs));
    assert!(!is_submodule_status_path("", &subs));
    assert!(!is_submodule_status_path("libs", &subs));
}

#[test]
fn status_items_skip_submodules_and_pick_their_list() {
    let subs = strings(&["vendor"]);
    let mut changes = UncommittedChanges::new();
    apply_tree_index_change(&mut changes, IndexChangeKind::Addition, "a.rs".to_string(), &subs);
    apply_tree_index_change(&mut changes, IndexChangeKind::Addition, "vendor".to_string(), &subs);
    apply_index_worktree_change(&mut changes, "b.rs".to_string(), Some(WorktreeSummary::IntentToAdd), &subs);
    apply_index_worktree_change(&mut changes, "c.rs".to_string(), Some(WorktreeSummary::Conflict), &subs);
    apply_index_worktree_change(&mut changes, "d.rs".to_string(), Some(WorktreeSummary::TypeChange), &subs);
    apply_index_worktree_change(&mut changes, "e.rs".to_string(), None, &subs);
    apply_index_worktree_change(&mut changes, "vendor/f".to_string(), Some(WorktreeSummary::Removed), &subs);
    assert_eq!(changes.staged.added, strings(&["a.rs"]));
    assert_eq!(changes.unstaged.added, strings(&["b.rs"]));
    assert_eq!(changes.conflicts, strings(&["c.rs"]));
    assert_eq!(changes.unstaged.modified, strings(&["d.rs"]));
    assert!(changes.unstaged.deleted.is_empty());
}

#[test]
fn submodule_pointer_changes_follow_status_and_entries() {
    let facts = SubmodulePointerFacts {
        index_added: false,
        index_deleted: false,
        index_modified: false,
        wd_added: false,
        wd_deleted: false,
        in_head: true,
        in_index: true,
        ids_differ: true,
        has_new_commits: true,
    };
    let mut changes = UncommittedChanges::new();
    add_submodule_pointer_change(&mut changes, "sub".to_string(), facts);
    assert_eq!(changes.staged.modified, strings(&["sub"]));
    assert_eq!(changes.unstaged.modified, strings(&["sub"]));
    assert!(changes.staged.added.is_empty() && changes.staged.deleted.is_empty());

    let added = SubmodulePointerFacts { in_head: false, ids_differ: false, wd_deleted: true, ..facts };
    let mut changes = UncommittedChanges::new();
    add_submodule_pointer_change(&mut changes, "sub".to_string(), added);
    assert_eq!(changes.staged.added, strings(&["sub"]));
    assert_eq!(changes.unstaged.deleted, strings(&["sub"]));
    assert!(changes.unstaged.modified.is_empty());
}

#[test]
fn committed_submodule_status_compares_recorded_commits() {
    assert_eq!(committed_submodule_change_status(Some(oid(1)), Some(oid(1))), None);
    assert_eq!(committed_submodule_change_status(Some(oid(1)), Some(oid(2))), Some(FileStatus::Modified));
    assert_eq!(committed_submodule_change_status(Some(oid(1)), None), Some(FileStatus::Deleted));
    assert_eq!(committed_submodule_change_status(None, Some(oid(2))), Some(FileStatus::Added));
    assert_eq!(committed_submodule_change_status(None, None), None);
}
