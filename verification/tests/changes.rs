use guitar::changes::{deduplicate, finalize_uncommitted_changes, push_unique, upsert_change, FileChange, FileStatus, UncommittedChanges};

fn strings(items: &[&str]) -> Vec<String> {
    items.iter().map(|s| s.to_string()).collect()
}

#[test]
fn push_unique_keeps_each_path_once() {
    let mut paths = strings(&["a", "b"]);
    push_unique(&mut paths, "a".to_string());
    push_unique(&mut paths, "c".to_string());
    assert_eq!(paths, strings(&["a", "b", "c"]));
}

#[test]
fn deduplicate_counts_distinct_paths_of_both_sides() {
    assert_eq!(deduplicate(&strings(&["a", "b"]), &strings(&["b", "c", "c"])), 3);
    assert_eq!(deduplicate(&strings(&[]), &strings(&[])), 0);
}

#[test]
fn finalize_fills_in_the_summary() {
    let mut changes = UncommittedChanges::new();
    changes.staged.modified = strings(&["a"]);
    changes.unstaged.modified = strings(&["a", "b"]);
    changes.unstaged.added = strings(&["n"]);
    finalize_uncommitted_changes(&mut changes);
    assert_eq!(changes.modified_count, 2);
    assert_eq!(changes.added_count, 1);
    assert_eq!(changes.deleted_count, 0);
    assert_eq!(changes.conflict_count, 0);
    assert!(changes.is_staged && changes.is_unstaged && !changes.is_clean && !changes.has_conflicts);

    let mut clean = UncommittedChanges::default();
    finalize_uncommitted_changes(&mut clean);
    assert!(clean.is_clean && !clean.is_staged && !clean.is_unstaged);

    let mut conflicted = UncommittedChanges::new();
    conflicted.conflicts = strings(&["x"]);
    finalize_uncommitted_changes(&mut conflicted);
    assert!(conflicted.has_conflicts && conflicted.is_staged && conflicted.is_unstaged && !conflicted.is_clean);
    assert_eq!(conflicted.conflict_count, 1);
}

#[test]
fn upsert_replaces_the_status_of_a_known_file() {
    let mut list = vec![FileChange { filename: "a".to_string(), status: FileStatus::Added }];
    upsert_change(&mut list, "a".to_string(), FileStatus::Modified);
    upsert_change(&mut list, "sub".to_string(), FileStatus::Deleted);
    assert_eq!(list, vec![
        FileChange { filename: "a".to_string(), status: FileStatus::Modified },
        FileChange { filename: "sub".to_string(), status: FileStatus::Deleted },
    ]);
}
