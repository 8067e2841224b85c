use guitar::batcher::BranchTip;
use guitar::commits::{stash_aliases_from, tag_map_from, tip_maps_from, TagTarget};
use guitar::oids::Oids;
use std::collections::HashMap;

fn oid(byte: u8) -> gix::ObjectId {
    gix::ObjectId::from_bytes_or_panic(&[byte; 20])
}

fn tip(is_local: bool, name: &str, byte: u8) -> BranchTip {
    BranchTip { is_local, name: name.to_string(), oid: oid(byte) }
}

#[test]
fn tips_are_grouped_by_alias_and_roots_skip_hidden_ones() {
    let tips = vec![tip(true, "main", 1), tip(true, "dup", 1), tip(false, "origin/main", 1), tip(true, "hidden", 2), tip(false, "origin/x", 3)];
    let mut oids = Oids::new();
    let hidden: im::HashSet<String> = ["hidden".to_string()].into_iter().collect();
    let (local, remote, roots) = tip_maps_from(&tips, &mut oids, &hidden);
    let expected_local: HashMap<u32, Vec<String>> = HashMap::from([(0, vec!["main".to_string(), "dup".to_string()]), (1, vec!["hidden".to_string()])]);
    let expected_remote: HashMap<u32, Vec<String>> = HashMap::from([(0, vec!["origin/main".to_string()]), (2, vec!["origin/x".to_string()])]);
    assert_eq!(local, expected_local);
    assert_eq!(remote, expected_remote);
    assert_eq!(roots, vec![oid(1), oid(3)]);
}

#[test]
fn tags_on_commits_are_grouped_by_alias() {
    let tags = vec![
        TagTarget { name: b"refs/tags/v1".to_vec(), id: Some(oid(7)), is_commit: true },
        TagTarget { name: b"refs/tags/v1-again".to_vec(), id: Some(oid(7)), is_commit: true },
        TagTarget { name: b"refs/tags/tree".to_vec(), id: Some(oid(8)), is_commit: false },
        TagTarget { name: b"refs/heads/v2".to_vec(), id: Some(oid(9)), is_commit: true },
        TagTarget { name: b"refs/tags/broken".to_vec(), id: None, is_commit: false },
    ];
    let mut oids = Oids::new();
    let map = tag_map_from(&tags, &mut oids);
    let expected: HashMap<u32, Vec<String>> = HashMap::from([(0, vec!["v1".to_string(), "v1-again".to_string()])]);
    assert_eq!(map, expected);
    assert_eq!(oids.len(), 1);
}

#[test]
fn stash_lines_keep_their_order() {
    let mut oids = Oids::new();
    oids.get_alias_by_oid(oid(5));
    let aliases = stash_aliases_from(&vec![Some(oid(6)), None, Some(oid(5)), Some(oid(6))], &mut oids);
    assert_eq!(aliases, vec![1, 0, 1]);
}
