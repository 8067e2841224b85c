use guitar::files::rank_file_paths;

fn paths(items: &[&str]) -> Vec<String> {
    items.iter().map(|p| p.to_string()).collect()
}

#[test]
fn basename_prefix_beats_other_matches() {
    let results = rank_file_paths(&paths(&["src/main.rs", "README.md", "src/lib.rs"]), "main", 10);
    assert_eq!(results.len(), 1);
    assert_eq!(results[0].path, "src/main.rs");
    assert_eq!(results[0].score, 808_978);
    assert_eq!(results[0].matched_indices, vec![4, 5, 6, 7]);
}

#[test]
fn empty_query_or_zero_limit_gives_nothing() {
    assert!(rank_file_paths(&paths(&["a.rs"]), "   ", 10).is_empty());
    assert!(rank_file_paths(&paths(&["a.rs"]), "a", 0).is_empty());
}

#[test]
fn git_internals_duplicates_and_limit_are_respected() {
    let results = rank_file_paths(&paths(&[".git/config", "./a.rs", "a.rs", "b/a.rs", "ca.rs"]), "a.rs", 2);
    assert_eq!(results.len(), 2);
    assert_eq!(results[0].path, "a.rs");
    assert!(results.iter().all(|r| !r.path.starts_with(".git")));
    assert!(results[0].score >= results[1].score);
}

#[test]
fn every_term_must_match() {
    let results = rank_file_paths(&paths(&["src/app/draw.rs", "src/core/buffer.rs"]), "src draw", 10);
    assert_eq!(results.len(), 1);
    assert_eq!(results[0].path, "src/app/draw.rs");
}
