use git2::{BranchType, Commit, Oid, Repository, Signature, Time};
use guitar::batcher::{bit_words, Batcher, SeenCommits, WalkedCommit};
use guitar::chunk::NONE;
use guitar::oids::{git2_to_gix_oid, Oids};
use std::cell::Cell;
use std::collections::HashSet as StdHashSet;
use tempfile::TempDir;

struct Fixture {
    dir: TempDir,
    repo: Repository,
    clock: Cell<i64>,
}

fn temp_repo(name: &str) -> Fixture {
    let dir = tempfile::Builder::new().prefix(&format!("guitar-batcher-{name}-")).tempdir().unwrap();
    let repo = Repository::init(dir.path().join("repo")).unwrap();
    Fixture { dir, repo, clock: Cell::new(1_700_000_000) }
}

fn signature(fixture: &Fixture) -> Signature<'static> {
    let now = fixture.clock.get() + 60;
    fixture.clock.set(now);
    Signature::new("Test User", "test@example.com", &Time::new(now, 0)).unwrap()
}

fn commit_with_parents(fixture: &Fixture, file: &str, contents: &str, message: &str, parents: &[&Commit<'_>]) -> Oid {
    let repo = &fixture.repo;
    let blob = repo.blob(contents.as_bytes()).unwrap();
    let base = parents.first().map(|parent| parent.tree().unwrap());
    let mut builder = repo.treebuilder(base.as_ref()).unwrap();
    builder.insert(file, blob, 0o100644).unwrap();
    let tree = repo.find_tree(builder.write().unwrap()).unwrap();
    let sig = signature(fixture);
    repo.commit(Some("HEAD"), &sig, &sig, message, &tree, parents).unwrap()
}

fn commit_file(fixture: &Fixture, file: &str, contents: &str, message: &str) -> Oid {
    let parent = fixture.repo.head().ok().and_then(|head| head.peel_to_commit().ok());
    let parents: Vec<&Commit<'_>> = parent.iter().collect();
    commit_with_parents(fixture, file, contents, message, &parents)
}

fn create_branch(fixture: &Fixture, name: &str, oid: Oid) {
    let commit = fixture.repo.find_commit(oid).unwrap();
    fixture.repo.branch(name, &commit, false).unwrap();
}

fn head_refname(fixture: &Fixture) -> String {
    fixture.repo.head().unwrap().name().unwrap().to_string()
}

fn checkout(fixture: &Fixture, reference: &str) {
    fixture.repo.set_head(reference).unwrap();
}

fn gix_repo(fixture: &Fixture) -> gix::Repository {
    gix::open(fixture.dir.path().join("repo")).unwrap()
}

fn hidden_names(names: &[&str]) -> im::HashSet<String> {
    names.iter().map(|name| (*name).to_string()).collect()
}

fn walk_oids(fixture: &Fixture, hidden_branch_names: im::HashSet<String>, extra_roots: Vec<Oid>) -> Vec<gix::ObjectId> {
    let repo = gix_repo(fixture);
    let roots = extra_roots.into_iter().map(git2_to_gix_oid).collect();
    let mut batcher = Batcher::new(&repo, &hidden_branch_names, roots).unwrap();
    let mut commits = Vec::new();
    batcher.next_into(10, &mut commits);
    commits.into_iter().map(|commit| commit.oid).collect()
}

#[test]
fn next_into_appends_pages_without_replacing_existing_output() {
    let fixture = temp_repo("next-into");
    let first = commit_file(&fixture, "first.txt", "first", "first");
    let second = commit_file(&fixture, "second.txt", "second", "second");
    let third = commit_file(&fixture, "third.txt", "third", "third");
    let sentinel = WalkedCommit::new(git2_to_gix_oid(Oid::zero()), NONE, [NONE; 2], 0, None);
    let repo = gix_repo(&fixture);
    let mut batcher = Batcher::new(&repo, &im::HashSet::new(), vec![git2_to_gix_oid(third)]).unwrap();
    let mut out = vec![sentinel.clone()];

    assert_eq!(batcher.next_into(2, &mut out), 2);
    assert_eq!(batcher.next_into(2, &mut out), 1);
    assert_eq!(batcher.next_into(2, &mut out), 0);

    let oids = out.iter().map(|commit| commit.oid).collect::<Vec<_>>();
    let expected = [Oid::zero(), third, second, first].into_iter().map(git2_to_gix_oid).collect::<Vec<_>>();
    assert_eq!(oids, expected);
    assert!(out[3].is_parentless());
}

#[test]
fn merge_commit_carries_commit_and_parent_aliases() {
    let fixture = temp_repo("merge-parents");
    let base = commit_file(&fixture, "base.txt", "base", "base");
    create_branch(&fixture, "side", base);
    let main_ref = head_refname(&fixture);
    let main = commit_file(&fixture, "main.txt", "main", "main");
    checkout(&fixture, "refs/heads/side");
    let side = commit_file(&fixture, "side.txt", "side", "side");
    checkout(&fixture, &main_ref);
    let merge = {
        let main_commit = fixture.repo.find_commit(main).unwrap();
        let side_commit = fixture.repo.find_commit(side).unwrap();
        commit_with_parents(&fixture, "merge.txt", "merge", "merge", &[&main_commit, &side_commit])
    };
    let repo = gix_repo(&fixture);
    let mut oids = Oids::default();
    let mut batcher = Batcher::from_tips_with_oids(&repo, vec![git2_to_gix_oid(merge)], &mut oids).unwrap();
    let mut page = Vec::new();

    assert_eq!(batcher.next_aliased_into(1, &mut page, &mut oids), 1);
    let merge_commit = &page[0];

    assert_eq!(merge_commit.oid, git2_to_gix_oid(merge));
    assert_eq!(merge_commit.alias, oids.get_existing_alias(merge).unwrap());
    assert_eq!(merge_commit.first_parent_alias(), oids.get_existing_alias(main).unwrap());
    assert_eq!(merge_commit.second_parent_alias(), oids.get_existing_alias(side).unwrap());
}

#[test]
fn root_filter_cases_use_visible_tips_once() {
    for (name, actual, expected) in [
        {
            let fixture = temp_repo("duplicate-tips");
            let first = commit_file(&fixture, "first.txt", "first", "first");
            let second = commit_file(&fixture, "second.txt", "second", "second");
            create_branch(&fixture, "duplicate", second);
            (
                "duplicate branch tips are returned once",
                walk_oids(&fixture, im::HashSet::new(), vec![second]).into_iter().collect::<StdHashSet<_>>(),
                StdHashSet::from([git2_to_gix_oid(second), git2_to_gix_oid(first)]),
            )
        },
        {
            let fixture = temp_repo("hidden-tip");
            let main = commit_file(&fixture, "main.txt", "main", "main");
            let main_ref = head_refname(&fixture);
            create_branch(&fixture, "hidden", main);
            checkout(&fixture, "refs/heads/hidden");
            let _hidden = commit_file(&fixture, "hidden.txt", "hidden", "hidden");
            checkout(&fixture, &main_ref);
            (
                "hidden branch tip is not used as a walk root",
                walk_oids(&fixture, hidden_names(&["hidden"]), Vec::new()).into_iter().collect::<StdHashSet<_>>(),
                StdHashSet::from([git2_to_gix_oid(main)]),
            )
        },
        {
            let fixture = temp_repo("remote-tip");
            let base = commit_file(&fixture, "base.txt", "base", "base");
            let main_ref = head_refname(&fixture);
            create_branch(&fixture, "side", base);
            checkout(&fixture, "refs/heads/side");
            let side = commit_file(&fixture, "side.txt", "side", "side");
            checkout(&fixture, &main_ref);
            fixture.repo.find_branch("side", BranchType::Local).unwrap().delete().unwrap();
            fixture.repo.reference("refs/remotes/origin/side", side, true, "test").unwrap();
            (
                "remote branch tip is used and can be hidden",
                walk_oids(&fixture, im::HashSet::new(), Vec::new()).into_iter().collect::<StdHashSet<_>>(),
                StdHashSet::from([git2_to_gix_oid(side), git2_to_gix_oid(base)]),
            )
        },
        {
            let fixture = temp_repo("remote-tip-hidden");
            let base = commit_file(&fixture, "base.txt", "base", "base");
            let main_ref = head_refname(&fixture);
            create_branch(&fixture, "side", base);
            checkout(&fixture, "refs/heads/side");
            let side = commit_file(&fixture, "side.txt", "side", "side");
            checkout(&fixture, &main_ref);
            fixture.repo.find_branch("side", BranchType::Local).unwrap().delete().unwrap();
            fixture.repo.reference("refs/remotes/origin/side", side, true, "test").unwrap();
            (
                "hidden remote branch tip is not used as a walk root",
                walk_oids(&fixture, hidden_names(&["origin/side"]), Vec::new()).into_iter().collect::<StdHashSet<_>>(),
                StdHashSet::from([git2_to_gix_oid(base)]),
            )
        },
    ] {
        assert_eq!(actual, expected, "{name}");
    }
}

#[test]
fn bit_words_and_seen_commits_track_storage_boundaries() {
    for (bits, expected) in [(0, 0), (1, 1), (64, 1), (65, 2)] {
        assert_eq!(bit_words(bits), expected);
    }

    let mut seen = SeenCommits::default();
    seen.graph_positions.resize(2, 0);

    assert!(seen.insert_graph_pos(64));
    assert!(!seen.insert_graph_pos(64));
    assert!(seen.loose_oids.is_empty());

    let oid = git2_to_gix_oid(Oid::zero());
    let mut seen = SeenCommits::default();

    assert!(seen.insert_loose_oid(oid));
    assert!(!seen.insert_loose_oid(oid));
}

#[test]
fn positions_past_the_bit_words_are_never_marked() {
    let mut seen = SeenCommits::default();
    assert!(!seen.insert_graph_pos(0));
    seen.graph_positions.resize(1, 0);
    assert!(seen.insert_graph_pos(63));
    assert!(!seen.insert_graph_pos(64));
}

#[test]
fn walk_visits_each_commit_once_newest_first() {
    let fixture = temp_repo("walk-order");
    let base = commit_file(&fixture, "base.txt", "base", "base");
    create_branch(&fixture, "side", base);
    let main_ref = head_refname(&fixture);
    let main = commit_file(&fixture, "main.txt", "main", "main");
    checkout(&fixture, "refs/heads/side");
    let side = commit_file(&fixture, "side.txt", "side", "side");
    checkout(&fixture, &main_ref);
    let oids = walk_oids(&fixture, im::HashSet::new(), Vec::new());
    let expected = [side, main, base].into_iter().map(git2_to_gix_oid).collect::<Vec<_>>();
    assert_eq!(oids, expected);
}
