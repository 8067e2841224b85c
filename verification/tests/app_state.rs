use guitar::app_state::{
    take_pending_lookup, ContextMenuAction, ContextMenuItem, ContextMenuState, GraphClientState, OperationKind,
    PendingGraphLookup, ProgressReaction, SettingsTab, Viewport, reload_state, ReloadState,
    statusbar_position, trap_status_selection, Focus, StatusbarCounts,
};

fn item(label: &str) -> ContextMenuItem {
    ContextMenuItem { label: label.to_string(), action: ContextMenuAction::Divider, enabled: true }
}

#[test]
fn settings_tabs_cycle_both_ways() {
    let tabs = [SettingsTab::General, SettingsTab::Display, SettingsTab::Auth, SettingsTab::Repo, SettingsTab::Shortcuts];
    for (i, tab) in tabs.iter().enumerate() {
        assert_eq!(tab.index(), i);
        assert_eq!(SettingsTab::at(i), *tab);
        assert_eq!(tab.next().previous(), *tab);
        assert_eq!(tab.next(), tabs[(i + 1) % 5]);
        assert_eq!(tab.previous(), tabs[(i + 4) % 5]);
    }
    assert_eq!(SettingsTab::Shortcuts.label(), "Shortcuts");
}

#[test]
fn operation_labels_name_the_operation() {
    assert_eq!(OperationKind::Rebase.label(), "rebase");
    assert_eq!(OperationKind::Cherrypick.label(), "cherry-pick");
    assert_eq!(OperationKind::Revert.label(), "revert");
    assert_eq!(OperationKind::Merge.label(), "merge");
}

#[test]
fn context_menu_size_follows_its_labels() {
    let menu = ContextMenuState { column: 0, row: 0, selected: 0, items: vec![item("Open"), item("Änderungen"), item("")] };
    assert_eq!(menu.label_width(), 10);
    assert_eq!(menu.width(), 17);
    assert_eq!(menu.height(), 7);
    let empty = ContextMenuState { column: 3, row: 4, selected: 0, items: Vec::new() };
    assert_eq!(empty.width(), 7);
    assert_eq!(empty.height(), 4);
}

#[test]
fn graph_client_follows_its_generation_and_newest_version() {
    let mut client = GraphClientState::new(2);
    assert_eq!(client.on_progress(1, 5, 10, true, false, false, Viewport::Splash), None);
    assert_eq!(client.version, 0);
    assert_eq!(
        client.on_progress(2, 3, 40, true, true, false, Viewport::Splash),
        Some(ProgressReaction { load_uncommitted: true, show_graph: true, stop_spinner: true })
    );
    assert_eq!((client.version, client.total, client.is_complete), (3, 40, true));

    client.request_graph(7, 0, 20);
    assert!(!client.accept_graph_window(2, 6, 9, 0, 20, 40));
    assert!(!client.accept_graph_window(2, 7, 9, 0, 21, 40));
    assert!(!client.accept_graph_window(1, 7, 9, 0, 20, 40));
    assert!(client.accept_graph_window(2, 8, 1, 0, 20, 41));
    assert_eq!((client.version, client.total, client.requested_graph), (3, 41, None));
    assert!(!client.accept_graph_window(2, 8, 9, 0, 20, 41));

    assert!(client.accept_worktrees(2, 9));
    assert!(!client.accept_worktrees(3, 12));
    assert_eq!(client.version, 9);

    let mut pending = Some((4, PendingGraphLookup::OpenInspector));
    assert!(take_pending_lookup(&mut pending, 3).is_none());
    assert!(pending.is_some());
    assert!(matches!(take_pending_lookup(&mut pending, 4), Some(PendingGraphLookup::OpenInspector)));
    assert!(pending.is_none());
}

fn reload_fixture(generation: u64) -> ReloadState {
    let mut graph = GraphClientState::new(generation);
    graph.request_graph(3, 0, 10);
    let mut heatmap = [[0usize; 53]; 7];
    heatmap[2][5] = 4;
    ReloadState { path: None, graph, heatmap, current_diff: Vec::new(), recent: vec!["/a".to_string()] }
}

#[test]
fn reload_resets_graph_state_and_adds_new_recent_path() {
    let mut state = reload_fixture(4);
    let added = reload_state(&mut state, "/b".to_string());
    assert!(added);
    assert_eq!(state.path.as_deref(), Some("/b"));
    assert_eq!(state.graph.generation, 5);
    assert_eq!(state.graph.version, 0);
    assert!(state.graph.requested_graph.is_none());
    assert_eq!(state.heatmap[2][5], 0);
    assert_eq!(state.recent, vec!["/a".to_string(), "/b".to_string()]);
}

#[test]
fn reload_keeps_known_recent_path_and_saturates_generation() {
    let mut state = reload_fixture(u64::MAX);
    let added = reload_state(&mut state, "/a".to_string());
    assert!(!added);
    assert_eq!(state.graph.generation, u64::MAX);
    assert_eq!(state.recent, vec!["/a".to_string()]);
}

#[test]
fn status_selection_stays_in_view() {
    assert_eq!(trap_status_selection(3, 5, 10, 0), 0);
    assert_eq!(trap_status_selection(3, 5, 0, 4), 0);
    assert_eq!(trap_status_selection(2, 5, 10, 4), 2);
    assert_eq!(trap_status_selection(9, 0, 10, 4), 6);
    assert_eq!(trap_status_selection(7, 5, 10, 4), 5);
    assert_eq!(trap_status_selection(50, 9, 10, 4), 6);
    assert_eq!(trap_status_selection(1, 3, 3, 5), 0);
}

fn counts() -> StatusbarCounts {
    StatusbarCounts {
        graph_selected: 0,
        graph_total: 12,
        viewer_selected: 2,
        viewer_total: 0,
        status_top_selected: 1,
        uncommitted_top_total: 4,
        commit_files_total: 9,
        status_bottom_selected: 0,
        status_bottom_total: 3,
        branches_selected: 7,
        branches_total: 5,
        tags_selected: 0,
        tags_total: 2,
        stashes_selected: 0,
        stashes_total: 0,
        reflogs_selected: 1,
        reflogs_total: 6,
        worktrees_selected: 0,
        worktrees_total: 1,
        submodules_selected: 0,
        submodules_total: 0,
        search_selected: 3,
        search_total: 8,
    }
}

#[test]
fn statusbar_counts_the_focused_list() {
    let c = counts();
    assert_eq!(statusbar_position(Focus::Viewport, &Viewport::Graph, &c), Some((1, 12)));
    assert_eq!(statusbar_position(Focus::Viewport, &Viewport::Viewer, &c), None);
    assert_eq!(statusbar_position(Focus::Viewport, &Viewport::Splash, &c), None);
    assert_eq!(statusbar_position(Focus::StatusTop, &Viewport::Graph, &c), Some((2, 4)));
    let mut other = counts();
    other.graph_selected = 3;
    assert_eq!(statusbar_position(Focus::StatusTop, &Viewport::Graph, &other), Some((2, 9)));
    assert_eq!(statusbar_position(Focus::Branches, &Viewport::Graph, &c), Some((5, 5)));
    assert_eq!(statusbar_position(Focus::Stashes, &Viewport::Graph, &c), None);
    assert_eq!(statusbar_position(Focus::Search, &Viewport::Graph, &c), Some((4, 8)));
    assert_eq!(statusbar_position(Focus::Inspector, &Viewport::Graph, &c), None);
}
