use guitar::graph_service::{alias_indices_for, alias_position};
use guitar::graph_service::{start_service, ServiceStart, ServiceStep};
use guitar::graph_service::{graph_index_of_oid, graph_index_of_prefix, oid_text_starts_with, parent_index_from};
use guitar::graph_service::{latest_reflogs_by_alias, worktrees_for_alias};
use guitar::oids::{gix_to_git2_oid, Oids};
use guitar::reflogs::HeadReflogEntry;
use guitar::time::GitTime;
use guitar::worktrees::{WorktreeEntry, WorktreeKind};
use guitar::chunk::{Chunk, NONE};
use guitar::graph_service::{
    branch_jump_index, clamp_window, graph_short_oid, short_oid, CommitMetadata, CommitMetadataCache, GraphBranchJumpDirection, GraphCommand, GraphHistory, GraphLookupKind,
    GraphPane, GraphServiceAction, GraphServiceState,
};

fn metadata(summary: &str) -> CommitMetadata {
    CommitMetadata { summary: summary.to_string(), committer_date: "2024-01-01 00:00".to_string(), committer_name: "A".to_string() }
}

#[test]
fn commands_for_other_generations_are_ignored() {
    let mut state = GraphServiceState::new(3);
    let action = state.handle_command(GraphCommand::QueryGraphWindow { generation: 2, request_id: 1, start: 0, end: 10 });
    assert!(matches!(action, GraphServiceAction::Nothing));
    assert!(state.pending_graph.is_none());
    let action = state.handle_command(GraphCommand::UpdateWorktrees { generation: 4, worktrees: Vec::new() });
    assert!(matches!(action, GraphServiceAction::Nothing));
    assert_eq!(state.version, 0);
}

#[test]
fn commands_for_this_generation_are_served() {
    let mut state = GraphServiceState::new(1);
    state.handle_command(GraphCommand::QueryGraphWindow { generation: 1, request_id: 7, start: 5, end: 9 });
    assert_eq!(state.pending_graph, Some((7, 5, 9)));
    state.handle_command(GraphCommand::QueryFileHistory { generation: 1, request_id: 8, path: "a.rs".to_string() });
    assert_eq!(state.pending_file_history, Some((8, "a.rs".to_string())));
    match state.handle_command(GraphCommand::QueryPaneWindow { generation: 1, pane: GraphPane::Tags, start: 0, end: 3 }) {
        GraphServiceAction::SendPaneWindow { version, pane, start, end } => assert_eq!((version, pane, start, end), (0, GraphPane::Tags, 0, 3)),
        _ => panic!("pane window expected"),
    }
    match state.handle_command(GraphCommand::Lookup { generation: 1, request_id: 9, kind: GraphLookupKind::ParentIndex { index: 4 } }) {
        GraphServiceAction::SendLookup { request_id, kind: GraphLookupKind::ParentIndex { index } } => assert_eq!((request_id, index), (9, 4)),
        _ => panic!("lookup expected"),
    }
    match state.handle_command(GraphCommand::UpdateWorktrees { generation: 1, worktrees: Vec::new() }) {
        GraphServiceAction::SendWorktrees { version, worktrees } => assert!(version == 1 && worktrees.is_empty()),
        _ => panic!("worktrees expected"),
    }
    assert_eq!(state.version, 1);
    assert!(matches!(state.handle_command(GraphCommand::Shutdown), GraphServiceAction::Stop));
}

#[test]
fn walk_steps_move_the_version_and_release_file_history() {
    let mut state = GraphServiceState::new(1);
    state.pending_file_history = Some((2, "x".to_string()));
    assert_eq!(state.record_walk_step(true), (1, true, false));
    assert_eq!(state.take_ready_file_history(), None);
    assert_eq!(state.record_walk_step(false), (2, false, true));
    assert_eq!(state.take_ready_file_history(), Some((2, "x".to_string())));
    assert_eq!(state.take_ready_file_history(), None);
    state.pending_graph = Some((1, 2, 3));
    assert_eq!(state.take_pending_graph(), Some((1, 2, 3)));
    assert_eq!(state.take_pending_graph(), None);
    state.version = u64::MAX;
    assert_eq!(state.record_walk_step(false).0, u64::MAX);
}

#[test]
fn windows_and_branch_jumps() {
    assert_eq!(clamp_window(10, 3, 20), (3, 10));
    assert_eq!(clamp_window(10, 12, 20), (10, 10));
    let rows = vec![2, 8, 5];
    assert_eq!(branch_jump_index(&rows, 5, GraphBranchJumpDirection::Previous), Some(2));
    assert_eq!(branch_jump_index(&rows, 5, GraphBranchJumpDirection::Next), Some(8));
    assert_eq!(branch_jump_index(&rows, 2, GraphBranchJumpDirection::Previous), None);
    assert_eq!(branch_jump_index(&rows, 8, GraphBranchJumpDirection::Next), None);
}

#[test]
fn short_ids_take_leading_hex_digits() {
    let id = git2::Oid::from_str("0123456789abcdef0123456789abcdef01234567").unwrap();
    assert_eq!(short_oid(id), "01234567");
    assert_eq!(graph_short_oid(id), "012345678");
}

#[test]
fn metadata_is_loaded_once_per_alias() {
    let mut cache = CommitMetadataCache::new();
    let first = cache.get_or_insert_with(3, || metadata("first"));
    assert_eq!(first.summary, "first");
    let again = cache.get_or_insert_with(3, || metadata("second"));
    assert_eq!(again.summary, "first");
    cache.get_or_insert_with(4, || metadata("other"));
    assert_eq!(cache.len(), 2);
}

#[test]
fn history_rows_are_kept_in_order() {
    let history = GraphHistory::from_rows(vec![vec![Chunk::commit(0, 1, NONE)], vec![]]);
    assert_eq!(history.len(), 2);
    assert_eq!(history.get(0), Some(&[Chunk::commit(0, 1, NONE)][..]));
    assert_eq!(history.get(1), Some(&[][..]));
    assert_eq!(history.get(2), None);
    assert_eq!(history.last(), Some(&[][..]));
    assert!(GraphHistory::new().is_empty());
}

fn gid(byte: u8) -> gix::ObjectId {
    gix::ObjectId::from_bytes_or_panic(&[byte; 20])
}

#[test]
fn aliases_map_to_their_first_graph_row() {
    let sorted = vec![NONE, 4, 2, 4, 7];
    assert_eq!(alias_position(&sorted, 4), Some(1));
    assert_eq!(alias_position(&sorted, 9), None);
    let map = alias_indices_for(&sorted, &vec![4, 7, 9, 4]);
    assert_eq!(map, std::collections::HashMap::from([(4, 1), (7, 4)]));
    assert!(alias_indices_for(&sorted, &Vec::new()).is_empty());
}

#[test]
fn lookups_find_rows_by_id_prefix_and_parent() {
    let mut oids = Oids::new();
    let a = oids.get_alias_by_oid(gid(0xab));
    let b = oids.get_alias_by_oid(gid(0x12));
    oids.append_sorted_alias(b);
    oids.append_sorted_alias(a);
    assert_eq!(graph_index_of_oid(&oids, gix_to_git2_oid(gid(0xab))), Some(2));
    assert_eq!(graph_index_of_oid(&oids, gix_to_git2_oid(gid(0x77))), None);
    assert!(oid_text_starts_with(&gid(0xab), &"abab".chars().collect()));
    assert!(!oid_text_starts_with(&gid(0xab), &"ABAB".chars().collect()));
    assert_eq!(graph_index_of_prefix(&oids, "121"), Some(1));
    assert_eq!(graph_index_of_prefix(&oids, "ab"), Some(2));
    assert_eq!(graph_index_of_prefix(&oids, "x"), None);
    assert_eq!(parent_index_from(&oids, 1, &vec![gid(0xab)]), Some(2));
    assert_eq!(parent_index_from(&oids, 1, &vec![]), None);
    assert_eq!(parent_index_from(&oids, 0, &vec![]), Some(1));
    assert_eq!(parent_index_from(&oids, 9, &vec![gid(0xab)]), None);
}

#[test]
fn worktrees_and_reflogs_attach_to_their_commit_alias() {
    let mut oids = Oids::new();
    let a = oids.get_alias_by_oid(gid(1));
    let b = oids.get_alias_by_oid(gid(2));
    let worktree = |name: &str, head: Option<gix::ObjectId>| WorktreeEntry {
        name: name.to_string(),
        path: format!("/w/{name}"),
        branch: Some("main".to_string()),
        head,
        alias: None,
        kind: WorktreeKind::Linked,
        is_current: false,
        is_valid: true,
        is_prunable: false,
        locked_reason: None,
        is_dirty: false,
    };
    let entries = vec![worktree("x", Some(gid(2))), worktree("y", None), worktree("z", Some(gid(2))), worktree("w", Some(gid(9)))];
    let found = worktrees_for_alias(&entries, &oids, b);
    let names: Vec<&str> = found.iter().map(|e| e.name.as_str()).collect();
    assert_eq!(names, vec!["x", "z"]);
    assert!(found.iter().all(|e| e.alias == Some(b) && e.branch.as_deref() == Some("main")));

    let reflog = |selector: &str, id: gix::ObjectId| HeadReflogEntry {
        selector: selector.to_string(),
        old_oid: gid(0),
        new_oid: id,
        message: String::new(),
        time: GitTime { seconds: 0, offset: 0 },
    };
    let log = vec![reflog("HEAD@{0}", gid(9)), reflog("HEAD@{1}", gid(1)), reflog("HEAD@{2}", gid(2)), reflog("HEAD@{3}", gid(1))];
    let latest = latest_reflogs_by_alias(&oids, &log);
    assert_eq!(latest, std::collections::HashMap::from([(a, 1), (b, 2)]));
}

#[test]
fn walk_reports_end_with_one_complete_report_and_the_heatmap() {
    let mut state = GraphServiceState::new(7);
    let reports = state.walk_reports(&vec![true, true, false, true]);
    assert_eq!(reports.len(), 3);
    assert!(reports.iter().all(|r| r.generation == 7));
    assert!(reports[0].is_first && !reports[1].is_first && !reports[2].is_first);
    assert!(!reports[1].is_complete && !reports[1].send_heatmap);
    assert!(reports[2].is_complete && reports[2].send_heatmap);
    assert_eq!((reports[0].version, reports[1].version, reports[2].version), (1, 2, 3));
    assert_eq!(state.next_step(), ServiceStep::WaitForCommand);
    assert!(state.walk_reports(&vec![true]).is_empty());
}

#[test]
fn a_failed_walker_gives_only_the_error_event() {
    match start_service(4, Err("no repository".to_string())) {
        ServiceStart::Failed { generation, message } => {
            assert_eq!(generation, 4);
            assert_eq!(message, "no repository");
        },
        ServiceStart::Serving(_) => panic!("the service must not serve"),
    }
    match start_service(4, Ok(())) {
        ServiceStart::Serving(state) => assert_eq!(state.next_step(), ServiceStep::Walk),
        ServiceStart::Failed { .. } => panic!("the service must serve"),
    }
}
