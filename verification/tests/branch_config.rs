use gix::bstr::ByteSlice;
use guitar::branch_config::{remove_branch_config_in, rename_branch_config_in, set_branch_upstream_in};
use guitar::refs::{rename_plan, EditTarget, Expected};

fn config(text: &str) -> gix::config::File {
    gix::config::File::try_from(text).expect("valid configuration")
}

fn value(config: &gix::config::File, branch: &str, key: &str) -> Option<String> {
    config.raw_value_by("branch", Some(branch.as_bytes().as_bstr()), key).ok().map(|v| v.to_string())
}

#[test]
fn upstream_sets_remote_and_merge_of_the_branch() {
    let mut config = config("[core]\n\tbare = false\n");
    set_branch_upstream_in(&mut config, "feature/x", "origin").unwrap();
    assert_eq!(value(&config, "feature/x", "remote"), Some("origin".to_string()));
    assert_eq!(value(&config, "feature/x", "merge"), Some("refs/heads/feature/x".to_string()));
    assert_eq!(config.raw_value("core.bare").unwrap().to_string(), "false");
}

#[test]
fn upstream_overwrites_an_earlier_upstream() {
    let mut config = config("[branch \"main\"]\n\tremote = old\n\tmerge = refs/heads/other\n");
    set_branch_upstream_in(&mut config, "main", "upstream").unwrap();
    assert_eq!(value(&config, "main", "remote"), Some("upstream".to_string()));
    assert_eq!(value(&config, "main", "merge"), Some("refs/heads/main".to_string()));
}

#[test]
fn rename_moves_the_branch_section() {
    let mut config = config("[branch \"old\"]\n\tremote = origin\n\tmerge = refs/heads/old\n");
    assert_eq!(rename_branch_config_in(&mut config, "old", "new").unwrap(), true);
    assert_eq!(value(&config, "old", "remote"), None);
    assert_eq!(value(&config, "new", "remote"), Some("origin".to_string()));
}

#[test]
fn rename_without_a_section_changes_nothing() {
    let mut config = config("[branch \"main\"]\n\tremote = origin\n");
    assert_eq!(rename_branch_config_in(&mut config, "missing", "new").unwrap(), false);
    assert_eq!(value(&config, "main", "remote"), Some("origin".to_string()));
    assert_eq!(value(&config, "new", "remote"), None);
}

#[test]
fn remove_drops_the_branch_section_only() {
    let mut config = config("[branch \"gone\"]\n\tremote = origin\n[branch \"kept\"]\n\tremote = origin\n");
    assert!(remove_branch_config_in(&mut config, "gone"));
    assert_eq!(value(&config, "gone", "remote"), None);
    assert_eq!(value(&config, "kept", "remote"), Some("origin".to_string()));
    assert!(!remove_branch_config_in(&mut config, "gone"));
}

fn full_name(text: &str) -> gix::refs::FullName {
    gix::refs::FullName::try_from(text.to_string()).unwrap()
}

#[test]
fn rename_plan_creates_deletes_and_moves_head() {
    let target = gix::ObjectId::from_hex(b"1111111111111111111111111111111111111111").unwrap();
    let (old, new, head) = (full_name("refs/heads/old"), full_name("refs/heads/new"), full_name("HEAD"));
    let plan = rename_plan(old.clone(), new.clone(), target, Some(head.clone()));
    assert_eq!(plan.len(), 3);
    assert_eq!(plan[0].name, new);
    assert!(matches!(&plan[0].target, Some(EditTarget::Object(id)) if *id == target));
    assert!(matches!(plan[0].expected, Expected::MustNotExist));
    assert_eq!(plan[0].message, "branch rename");
    assert_eq!(plan[1].name, old);
    assert!(plan[1].target.is_none());
    assert!(matches!(&plan[1].expected, Expected::MustMatchObject(id) if *id == target));
    assert_eq!(plan[2].name, head);
    assert!(matches!(&plan[2].target, Some(EditTarget::Symbolic(name)) if *name == new));
    assert!(matches!(&plan[2].expected, Expected::MustMatchSymbolic(name) if *name == old));
    let without_head = rename_plan(old, new, target, None);
    assert_eq!(without_head.len(), 2);
}
