use guitar::chunk::LaneRef;
use guitar::graph_panes::{branch_index, graph_row_at, graph_rows, pane_row_at, pane_rows, pane_window_rows, GraphRefs};
use guitar::graph_service::GraphBranchJumpDirection;
use guitar::graph_service::{CommitMetadata, CommitMetadataCache};
use guitar::graph_service::{GraphPane, GraphPaneRow};
use guitar::oids::Oids;
use guitar::reflogs::HeadReflogEntry;
use guitar::time::GitTime;
use std::collections::HashMap;

fn gid(byte: u8) -> gix::ObjectId {
    gix::ObjectId::from_bytes_or_panic(&[byte; 20])
}

fn refs_fixture(oids: &mut Oids) -> GraphRefs {
    let a = oids.get_alias_by_oid(gid(1));
    let b = oids.get_alias_by_oid(gid(2));
    oids.append_sorted_alias(b);
    oids.append_sorted_alias(a);
    let reflog = |selector: &str, id: gix::ObjectId| HeadReflogEntry {
        selector: selector.to_string(),
        old_oid: gid(0),
        new_oid: id,
        message: format!("move {selector}"),
        time: GitTime { seconds: 0, offset: 0 },
    };
    GraphRefs {
        branches_local: vec![(a, "main".to_string()), (b, "feature".to_string())],
        branches_remote: vec![(a, "origin/main".to_string())],
        tags: vec![(b, "v2".to_string()), (a, "v1".to_string())],
        stashes: vec![(b, "WIP on main".to_string())],
        reflogs: vec![reflog("HEAD@{0}", gid(9)), reflog("HEAD@{1}", gid(1))],
        branch_lanes: HashMap::from([(a, LaneRef::new(0, false))]),
        tag_lanes: HashMap::new(),
        stash_lanes: HashMap::from([(b, LaneRef::new(2, true))]),
        reflog_lanes: HashMap::new(),
    }
}

#[test]
fn branch_rows_list_sorted_locals_before_remotes() {
    let mut oids = Oids::new();
    let refs = refs_fixture(&mut oids);
    let (total, rows) = pane_window_rows(GraphPane::Branches, &refs, &oids, 0, 10);
    assert_eq!(total, 3);
    let names: Vec<(String, bool, Option<usize>)> = rows
        .iter()
        .map(|row| match row {
            GraphPaneRow::Branch { name, is_local, graph_index, .. } => (name.clone(), *is_local, *graph_index),
            _ => panic!("not a branch row"),
        })
        .collect();
    assert_eq!(names, vec![("feature".to_string(), true, Some(1)), ("main".to_string(), true, Some(2)), ("origin/main".to_string(), false, Some(2))]);
    assert!(matches!(rows[1], GraphPaneRow::Branch { lane: Some(LaneRef { index: 0, is_flattened: false }), .. }));
    assert!(matches!(rows[0], GraphPaneRow::Branch { lane: None, .. }));
}

#[test]
fn pane_windows_are_clamped_to_the_pane_length() {
    let mut oids = Oids::new();
    let refs = refs_fixture(&mut oids);
    let (total, rows) = pane_window_rows(GraphPane::Branches, &refs, &oids, 1, 2);
    assert_eq!(total, 3);
    assert_eq!(rows.len(), 1);
    assert!(matches!(&rows[0], GraphPaneRow::Branch { name, .. } if name == "main"));
    let (total, rows) = pane_window_rows(GraphPane::Tags, &refs, &oids, 5, 9);
    assert_eq!(total, 2);
    assert!(rows.is_empty());
    let (_, rows) = pane_window_rows(GraphPane::Tags, &refs, &oids, 2, 1);
    assert!(rows.is_empty());
}

#[test]
fn tag_stash_and_reflog_rows() {
    let mut oids = Oids::new();
    let refs = refs_fixture(&mut oids);
    let tags = pane_rows(GraphPane::Tags, &refs, &oids);
    assert!(matches!(&tags[0], GraphPaneRow::Tag { name, graph_index: Some(2), .. } if name == "v1"));
    assert!(matches!(&tags[1], GraphPaneRow::Tag { name, graph_index: Some(1), .. } if name == "v2"));
    let stashes = pane_rows(GraphPane::Stashes, &refs, &oids);
    assert_eq!(stashes.len(), 1);
    assert!(matches!(&stashes[0], GraphPaneRow::Stash { summary, lane: Some(LaneRef { index: 2, is_flattened: true }), graph_index: Some(1), .. } if summary == "WIP on main"));
    let (total, reflogs) = pane_window_rows(GraphPane::Reflogs, &refs, &oids, 0, 5);
    assert_eq!(total, 1);
    assert!(matches!(&reflogs[0], GraphPaneRow::Reflog { selector, message, graph_index: Some(2), .. } if selector == "HEAD@{1}" && message == "move HEAD@{1}"));
}

#[test]
fn graph_rows_carry_labels_and_cached_texts() {
    let mut oids = Oids::new();
    let refs = refs_fixture(&mut oids);
    let mut hidden = im::HashSet::new();
    hidden.insert("main".to_string());
    let mut cache = CommitMetadataCache::new();
    let load = |oid: git2::Oid| CommitMetadata { summary: format!("c{}", oid.as_bytes()[0]), committer_date: "d".to_string(), committer_name: "n".to_string() };
    let rows = graph_rows(&refs, &oids, &Vec::new(), &mut cache, &load, &hidden, 0, 4);
    assert_eq!(rows.len(), 4);
    assert_eq!(rows[0].summary, "");
    assert_eq!(rows[1].index, 1);
    assert_eq!(rows[1].summary, "c2");
    assert!(rows[1].is_stash);
    assert!(rows[1].has_any_branch);
    let names: Vec<&str> = rows[2].branches.iter().map(|b| b.name.as_str()).collect();
    assert_eq!(names, vec!["origin/main"]);
    assert!(rows[2].has_any_branch);
    assert_eq!(rows[2].tags.len(), 1);
    assert_eq!(rows[2].reflog.as_ref().map(|r| r.selector.as_str()), Some("HEAD@{1}"));
    assert_eq!(rows[2].summary, "c1");
    assert_eq!(rows[2].short_oid, "010101010");
    assert_eq!(rows[3].alias, guitar::chunk::NONE);
    assert!(rows[3].branches.is_empty());
    assert_eq!(cache.len(), 2);
}

#[test]
fn branch_jumps_skip_hidden_branches() {
    let mut oids = Oids::new();
    let refs = refs_fixture(&mut oids);
    let none = im::HashSet::new();
    assert_eq!(branch_index(&refs, &oids, &none, 0, GraphBranchJumpDirection::Next), Some(1));
    assert_eq!(branch_index(&refs, &oids, &none, 2, GraphBranchJumpDirection::Previous), Some(1));
    assert_eq!(branch_index(&refs, &oids, &none, 2, GraphBranchJumpDirection::Next), None);
    let mut hidden = im::HashSet::new();
    hidden.insert("feature".to_string());
    assert_eq!(branch_index(&refs, &oids, &hidden, 0, GraphBranchJumpDirection::Next), Some(2));
}

#[test]
fn single_rows_are_found_by_index() {
    let mut oids = Oids::new();
    let refs = refs_fixture(&mut oids);
    let mut cache = CommitMetadataCache::new();
    let load = |_: git2::Oid| CommitMetadata { summary: "s".to_string(), committer_date: String::new(), committer_name: String::new() };
    let hidden = im::HashSet::new();
    let row = graph_row_at(&refs, &oids, &Vec::new(), &mut cache, &load, &hidden, 1).expect("row 1");
    assert_eq!(row.index, 1);
    assert_eq!(row.summary, "s");
    assert!(graph_row_at(&refs, &oids, &Vec::new(), &mut cache, &load, &hidden, 3).is_none());
    assert!(matches!(pane_row_at(GraphPane::Tags, &refs, &oids, 1), Some(GraphPaneRow::Tag { ref name, .. }) if name == "v2"));
    assert!(pane_row_at(GraphPane::Tags, &refs, &oids, 2).is_none());
}
