use guitar::branch_visibility::{
    branch_name_from_ref, branch_names_from_refs, config_with_hidden, hidden_for_repo, prune_hidden_branches, sorted_unique, BranchVisibilityConfig, RepositoryBranchVisibility,
};

fn set(names: &[&str]) -> im::HashSet<String> {
    names.iter().map(|n| n.to_string()).collect()
}

fn entry(path: &str, hidden: &[&str]) -> RepositoryBranchVisibility {
    RepositoryBranchVisibility { path: path.to_string(), hidden: hidden.iter().map(|n| n.to_string()).collect() }
}

#[test]
fn branch_names_come_from_local_and_remote_refs() {
    assert_eq!(branch_name_from_ref(b"refs/heads/main"), Some("main"));
    assert_eq!(branch_name_from_ref(b"refs/remotes/origin/feature/x"), Some("origin/feature/x"));
    assert_eq!(branch_name_from_ref(b"refs/heads/"), None);
    assert_eq!(branch_name_from_ref(b"refs/tags/v1"), None);
    assert_eq!(branch_name_from_ref(b"refs/heads/\xff"), None);
    let refs = vec![b"refs/heads/main".to_vec(), b"refs/tags/v1".to_vec(), b"refs/remotes/origin/main".to_vec(), b"HEAD".to_vec()];
    assert_eq!(branch_names_from_refs(&refs), set(&["main", "origin/main"]));
}

#[test]
fn pruning_keeps_only_current_branches() {
    let mut hidden = set(&["gone", "kept"]);
    assert!(prune_hidden_branches(&mut hidden, &set(&["kept", "other"])));
    assert_eq!(hidden, set(&["kept"]));
    assert!(!prune_hidden_branches(&mut hidden, &set(&["kept"])));
    assert_eq!(hidden, set(&["kept"]));
}

#[test]
fn sorted_unique_orders_names() {
    assert_eq!(sorted_unique(&set(&["b", "a", "c"])), vec!["a".to_string(), "b".to_string(), "c".to_string()]);
    assert!(sorted_unique(&set(&[])).is_empty());
}

#[test]
fn saving_then_loading_gives_back_the_hidden_names() {
    let config = BranchVisibilityConfig { repositories: vec![entry("/z", &["x"]), entry("/repo", &["old"]), entry("/a", &["y"])] };
    let saved = config_with_hidden(config, "/repo", &set(&["b", "a"]));
    let paths: Vec<&str> = saved.repositories.iter().map(|e| e.path.as_str()).collect();
    assert_eq!(paths, vec!["/a", "/repo", "/z"]);
    assert_eq!(saved.repositories[1].hidden, vec!["a".to_string(), "b".to_string()]);
    assert_eq!(hidden_for_repo(&saved, "/repo"), set(&["a", "b"]));
    assert_eq!(hidden_for_repo(&saved, "/z"), set(&["x"]));

    let cleared = config_with_hidden(saved, "/repo", &set(&[]));
    assert_eq!(cleared.repositories.len(), 2);
    assert_eq!(hidden_for_repo(&cleared, "/repo"), set(&[]));
    assert_eq!(hidden_for_repo(&BranchVisibilityConfig::new(), "/repo"), set(&[]));
}

#[test]
fn the_first_entry_for_a_path_is_the_one_read() {
    let config = BranchVisibilityConfig { repositories: vec![entry("/r", &["one"]), entry("/r", &["two"])] };
    assert_eq!(hidden_for_repo(&config, "/r"), set(&["one"]));
}
