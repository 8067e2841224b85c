use guitar::changes::{FileStatus, UncommittedChanges};
use guitar::file_history::{
    clear_changed_file_status_cache, file_status_from_change, missing_path_status, new_path_status, path_lookup_step, status_from_changes, EntryIdentity, EntryKind,
    FileStatusCache, LookupStep, PathLookupStatus, TreeChange,
};
use guitar::submodules::{
    changed_content_flags, sort_submodules, submodule_entry_from, ContentChange, DirEntryStatus, SubmoduleFacts, WorktreeEntryStatus,
};
use guitar::worktrees::{linked_worktree_state, mark_current_dirty, order_worktree_entries, WorktreeEntry, WorktreeKind};

fn oid(byte: u8) -> gix::ObjectId {
    gix::ObjectId::from_bytes_or_panic(&[byte; 20])
}

const FILE: EntryKind = EntryKind { mode: 0o100644, is_tree: false, is_link: false, is_commit: false };
const LINK: EntryKind = EntryKind { mode: 0o120000, is_tree: false, is_link: true, is_commit: false };

fn worktree(name: &str, kind: WorktreeKind, is_current: bool) -> WorktreeEntry {
    WorktreeEntry {
        name: name.to_string(),
        path: format!("/w/{name}"),
        branch: None,
        head: None,
        alias: None,
        kind,
        is_current,
        is_valid: true,
        is_prunable: false,
        locked_reason: None,
        is_dirty: false,
    }
}

fn facts(path: &str) -> SubmoduleFacts {
    SubmoduleFacts {
        name: path.to_string(),
        path: path.to_string(),
        absolute_path: format!("/repo/{path}"),
        url: None,
        branch: None,
        head: Some(oid(1)),
        index: Some(oid(1)),
        workdir: Some(oid(2)),
        is_open: true,
        repository_exists: true,
        superproject_configuration: true,
        worktree_checkout: true,
        changes: None,
    }
}

#[test]
fn tree_changes_give_file_statuses() {
    let changes = vec![
        TreeChange::Modification { location: b"a".to_vec(), previous: FILE, current: LINK },
        TreeChange::Rewrite { source_location: b"old".to_vec(), location: b"new".to_vec(), copy: false },
        TreeChange::Addition { location: b"a".to_vec(), kind: FILE, id: oid(3) },
    ];
    assert_eq!(status_from_changes(&changes, b"a"), Some(FileStatus::Deleted));
    assert_eq!(status_from_changes(&changes, b"old"), Some(FileStatus::Renamed));
    assert_eq!(status_from_changes(&changes, b"new"), Some(FileStatus::Renamed));
    assert_eq!(status_from_changes(&changes, b"zzz"), None);
    let copy = TreeChange::Rewrite { source_location: b"old".to_vec(), location: b"new".to_vec(), copy: true };
    assert_eq!(file_status_from_change(&copy, b"new"), Some(FileStatus::Added));
    assert_eq!(file_status_from_change(&copy, b"old"), None);
}

#[test]
fn path_lookups_decide_or_ask_for_more() {
    let same = Some(EntryIdentity { id: oid(1), kind: FILE });
    let other = Some(EntryIdentity { id: oid(2), kind: FILE });
    let link = Some(EntryIdentity { id: oid(2), kind: LINK });
    assert_eq!(path_lookup_step(&same, &Some(EntryIdentity { id: oid(1), kind: FILE }), true), LookupStep::Done(PathLookupStatus::Unchanged));
    assert_eq!(path_lookup_step(&same, &other, true), LookupStep::Done(PathLookupStatus::Changed(FileStatus::Modified)));
    assert_eq!(path_lookup_step(&same, &link, true), LookupStep::Done(PathLookupStatus::Changed(FileStatus::Deleted)));
    assert_eq!(path_lookup_step(&None, &other, false), LookupStep::Done(PathLookupStatus::Changed(FileStatus::Added)));
    assert_eq!(path_lookup_step(&None, &other, true), LookupStep::CheckNew);
    assert_eq!(path_lookup_step(&same, &None, true), LookupStep::CheckMissing);
    assert_eq!(path_lookup_step(&None, &None, true), LookupStep::Done(PathLookupStatus::NeedsRenameDetection));
    assert_eq!(missing_path_status(false, true), PathLookupStatus::Changed(FileStatus::Renamed));
    assert_eq!(missing_path_status(false, false), PathLookupStatus::Changed(FileStatus::Deleted));
    assert_eq!(new_path_status(Some(false)), PathLookupStatus::Changed(FileStatus::Renamed));
    assert_eq!(new_path_status(Some(true)), PathLookupStatus::Changed(FileStatus::Added));
    assert_eq!(new_path_status(None), PathLookupStatus::Changed(FileStatus::Added));
}

#[test]
fn the_status_cache_keeps_the_latest_status_per_key() {
    let mut cache = FileStatusCache::new();
    let repo = "/r".to_string();
    let path = "a.rs".to_string();
    assert_eq!(cache.get(&repo, &vec![1], &path), None);
    cache.insert(repo.clone(), vec![1], path.clone(), Some(FileStatus::Added));
    cache.insert(repo.clone(), vec![2], path.clone(), None);
    cache.insert(repo.clone(), vec![1], path.clone(), Some(FileStatus::Modified));
    assert_eq!(cache.get(&repo, &vec![1], &path), Some(Some(FileStatus::Modified)));
    assert_eq!(cache.get(&repo, &vec![2], &path), Some(None));
    assert_eq!(cache.entries.len(), 2);
    clear_changed_file_status_cache(&mut cache);
    assert_eq!(cache.get(&repo, &vec![1], &path), None);
}

#[test]
fn worktrees_list_main_first_then_linked_by_name() {
    let entries = order_worktree_entries(
        Some(worktree("main", WorktreeKind::Main, false)),
        vec![worktree("zeta", WorktreeKind::Linked, false), worktree("alpha", WorktreeKind::Linked, true)],
    );
    let names: Vec<&str> = entries.iter().map(|e| e.name.as_str()).collect();
    assert_eq!(names, vec!["main", "alpha", "zeta"]);
    assert_eq!(linked_worktree_state(true, false), (false, false));
    assert_eq!(linked_worktree_state(false, false), (false, true));
    assert_eq!(linked_worktree_state(false, true), (true, false));
}

#[test]
fn only_the_current_worktree_takes_the_dirty_flag() {
    let mut entries = vec![worktree("a", WorktreeKind::Main, false), worktree("b", WorktreeKind::Linked, true)];
    let mut changes = UncommittedChanges::new();
    changes.is_clean = false;
    mark_current_dirty(&mut entries, &changes);
    assert!(!entries[0].is_dirty && entries[1].is_dirty);
    changes.is_clean = true;
    mark_current_dirty(&mut entries, &changes);
    assert!(!entries[1].is_dirty);
}

#[test]
fn submodule_flags_come_from_ids_and_content() {
    let untracked = ContentChange::DirectoryContents { walk_status: DirEntryStatus::Untracked };
    assert_eq!(changed_content_flags(&vec![untracked]), (false, true));
    let stat_only = ContentChange::Modification { entry_status: WorktreeEntryStatus::NeedsUpdate };
    assert_eq!(changed_content_flags(&vec![stat_only]), (false, false));
    assert_eq!(changed_content_flags(&vec![stat_only, ContentChange::Rewrite]), (true, false));
    let removed = ContentChange::Modification { entry_status: WorktreeEntryStatus::Removed };
    assert_eq!(changed_content_flags(&vec![removed, untracked]), (true, true));
    assert_eq!(changed_content_flags(&vec![ContentChange::DirectoryContents { walk_status: DirEntryStatus::TrackedFile }]), (true, false));
    let entry = submodule_entry_from(facts("libs/a"));
    assert!(!entry.is_index_modified && entry.has_new_commits && entry.is_workdir_modified);
    assert!(entry.is_in_head && entry.is_in_index && !entry.is_uninitialized);
    let mut quiet = facts("libs/b");
    quiet.workdir = None;
    quiet.index = Some(oid(3));
    quiet.changes = Some(vec![ContentChange::TreeIndex]);
    let entry = submodule_entry_from(quiet);
    assert!(entry.is_index_modified && !entry.has_new_commits && entry.has_modified_content && entry.is_workdir_modified);
    let sorted = sort_submodules(vec![submodule_entry_from(facts("b")), submodule_entry_from(facts("a/z")), submodule_entry_from(facts("a"))]);
    let paths: Vec<&str> = sorted.iter().map(|e| e.path.as_str()).collect();
    assert_eq!(paths, vec!["a", "a/z", "b"]);
}
