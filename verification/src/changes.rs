use vstd::prelude::*;

verus! {

/// How a file changed.
#[derive(Clone, Copy, Debug, PartialEq, Eq, Structural)]
pub enum FileStatus {
    Added,
    Modified,
    Deleted,
    Renamed,
    Other,
}

/// A changed file of a commit.
#[derive(Clone, Debug, PartialEq, Eq)]
pub struct FileChange {
    pub filename: String,
    pub status: FileStatus,
}

/// Changed paths on one side (staged or unstaged), by kind of change.
#[derive(Clone, Debug, PartialEq, Eq)]
pub struct FileChanges {
    pub modified: Vec<String>,
    pub added: Vec<String>,
    pub deleted: Vec<String>,
}

/// The uncommitted changes of a working tree: staged and unstaged paths, conflicts, and the
/// summary figures drawn from them.
#[derive(Clone, Debug, PartialEq, Eq)]
pub struct UncommittedChanges {
    pub staged: FileChanges,
    pub unstaged: FileChanges,
    pub conflicts: Vec<String>,
    pub modified_count: usize,
    pub added_count: usize,
    pub deleted_count: usize,
    pub conflict_count: usize,
    pub has_conflicts: bool,
    pub is_staged: bool,
    pub is_unstaged: bool,
    pub is_clean: bool,
}

impl FileChanges {
    pub fn new() -> (c: FileChanges)
        ensures
            c.modified@.len() == 0 && c.added@.len() == 0 && c.deleted@.len() == 0,
    {
        FileChanges { modified: Vec::new(), added: Vec::new(), deleted: Vec::new() }
    }
}

impl UncommittedChanges {
    /// No changes: empty lists, zero counts, clean.
    pub fn new() -> (c: UncommittedChanges)
        ensures
            c.staged.modified@.len() == 0 && c.staged.added@.len() == 0 && c.staged.deleted@.len() == 0,
            c.unstaged.modified@.len() == 0 && c.unstaged.added@.len() == 0 && c.unstaged.deleted@.len() == 0,
            c.conflicts@.len() == 0,
            c.modified_count == 0 && c.added_count == 0 && c.deleted_count == 0 && c.conflict_count == 0,
            !c.has_conflicts && !c.is_staged && !c.is_unstaged && !c.is_clean,
    {
        UncommittedChanges {
            staged: FileChanges::new(),
            unstaged: FileChanges::new(),
            conflicts: Vec::new(),
            modified_count: 0,
            added_count: 0,
            deleted_count: 0,
            conflict_count: 0,
            has_conflicts: false,
            is_staged: false,
            is_unstaged: false,
            is_clean: false,
        }
    }
}

impl Default for UncommittedChanges {
    fn default() -> (c: UncommittedChanges)
        ensures
            c.staged.modified@.len() == 0 && c.staged.added@.len() == 0 && c.staged.deleted@.len() == 0,
            c.unstaged.modified@.len() == 0 && c.unstaged.added@.len() == 0 && c.unstaged.deleted@.len() == 0,
            c.conflicts@.len() == 0,
            c.modified_count == 0 && c.added_count == 0 && c.deleted_count == 0 && c.conflict_count == 0,
            !c.has_conflicts && !c.is_staged && !c.is_unstaged && !c.is_clean,
    {
        UncommittedChanges::new()
    }
}

pub open spec fn texts(v: Seq<String>) -> Seq<Seq<char>> {
    v.map_values(|s: String| s@)
}

/// Add `path` unless the list holds it already.
pub fn push_unique(paths: &mut Vec<String>, path: String)
    ensures
        texts(final(paths)@) == (if texts(old(paths)@).contains(path@) { texts(old(paths)@) } else { texts(old(paths)@).push(path@) }),
{
    let mut i: usize = 0;
    while i < paths.len()
        invariant
            i <= paths@.len(),
            forall|k: int| 0 <= k < i ==> paths@[k]@ != path@,
        decreases paths@.len() - i,
    {
        if paths[i] == path {
            assert(texts(paths@)[i as int] == path@);
            return;
        }
        i += 1;
    }
    proof {
        if texts(paths@).contains(path@) {
            let k = choose|k: int| 0 <= k < texts(paths@).len() && texts(paths@)[k] == path@;
            assert(paths@[k]@ == path@);
        }
    }
    paths.push(path);
    assert(texts(paths@) =~= texts(old(paths)@).push(path@));
}

/// The number of distinct paths in two lists together.
pub open spec fn distinct_paths(a: Seq<String>, b: Seq<String>) -> nat {
    (texts(a).to_set() + texts(b).to_set()).len()
}

proof fn lemma_push_unique_set(before: Seq<Seq<char>>, after: Seq<Seq<char>>, x: Seq<char>)
    requires
        after == (if before.contains(x) { before } else { before.push(x) }),
    ensures
        after.to_set() == before.to_set().insert(x),
        before.no_duplicates() ==> after.no_duplicates(),
{
    if !before.contains(x) {
        assert(after.to_set() =~= before.to_set().insert(x)) by {
            assert forall|y: Seq<char>| after.to_set().contains(y) <==> before.to_set().insert(x).contains(y) by {
                if after.contains(y) {
                    let k = choose|k: int| 0 <= k < after.len() && after[k] == y;
                    if k < before.len() {
                        assert(before[k] == y);
                    }
                }
                if before.contains(y) {
                    let k = choose|k: int| 0 <= k < before.len() && before[k] == y;
                    assert(after[k] == y);
                }
                if y == x {
                    assert(after[before.len() as int] == x);
                }
            }
        }
    } else {
        assert(after.to_set() =~= before.to_set().insert(x));
    }
}

/// The number of distinct paths in `a` and `b` together.
pub fn deduplicate(a: &Vec<String>, b: &Vec<String>) -> (n: usize)
    ensures
        n == distinct_paths(a@, b@),
{
    let mut seen: Vec<String> = Vec::new();
    let mut i: usize = 0;
    while i < a.len()
        invariant
            i <= a@.len(),
            texts(seen@).no_duplicates(),
            texts(seen@).to_set() == texts(a@.take(i as int)).to_set(),
        decreases a@.len() - i,
    {
        let ghost before = texts(seen@);
        push_unique(&mut seen, a[i].clone());
        proof {
            lemma_push_unique_set(before, texts(seen@), a@[i as int]@);
            assert(texts(a@.take(i + 1)) =~= texts(a@.take(i as int)).push(a@[i as int]@));
            lemma_push_set(texts(a@.take(i as int)), a@[i as int]@);
        }
        i += 1;
    }
    assert(a@.take(a@.len() as int) =~= a@);
    let mut j: usize = 0;
    while j < b.len()
        invariant
            j <= b@.len(),
            texts(seen@).no_duplicates(),
            texts(seen@).to_set() == texts(a@).to_set() + texts(b@.take(j as int)).to_set(),
        decreases b@.len() - j,
    {
        let ghost before = texts(seen@);
        push_unique(&mut seen, b[j].clone());
        proof {
            lemma_push_unique_set(before, texts(seen@), b@[j as int]@);
            assert(texts(b@.take(j + 1)) =~= texts(b@.take(j as int)).push(b@[j as int]@));
            lemma_push_set(texts(b@.take(j as int)), b@[j as int]@);
            assert(texts(seen@).to_set() =~= texts(a@).to_set() + texts(b@.take(j + 1)).to_set());
        }
        j += 1;
    }
    assert(b@.take(b@.len() as int) =~= b@);
    proof {
        texts(seen@).unique_seq_to_set();
    }
    seen.len()
}

proof fn lemma_push_set(s: Seq<Seq<char>>, x: Seq<char>)
    ensures
        s.push(x).to_set() == s.to_set().insert(x),
{
    assert forall|y: Seq<char>| s.push(x).to_set().contains(y) <==> s.to_set().insert(x).contains(y) by {
        if s.push(x).contains(y) {
            let k = choose|k: int| 0 <= k < s.push(x).len() && s.push(x)[k] == y;
            if k < s.len() {
                assert(s[k] == y);
            }
        }
        if s.contains(y) {
            let k = choose|k: int| 0 <= k < s.len() && s[k] == y;
            assert(s.push(x)[k] == y);
        }
        if y == x {
            assert(s.push(x)[s.len() as int] == x);
        }
    }
    assert(s.push(x).to_set() =~= s.to_set().insert(x));
}

/// Fill in the summary figures: distinct paths per kind over both sides, the conflict count,
/// and whether anything is staged, unstaged or in conflict (a conflict counts as both staged
/// and unstaged); clean when none is.
pub fn finalize_uncommitted_changes(changes: &mut UncommittedChanges)
    ensures
        final(changes).staged == old(changes).staged,
        final(changes).unstaged == old(changes).unstaged,
        final(changes).conflicts == old(changes).conflicts,
        final(changes).modified_count == distinct_paths(old(changes).staged.modified@, old(changes).unstaged.modified@),
        final(changes).added_count == distinct_paths(old(changes).staged.added@, old(changes).unstaged.added@),
        final(changes).deleted_count == distinct_paths(old(changes).staged.deleted@, old(changes).unstaged.deleted@),
        final(changes).conflict_count == old(changes).conflicts@.len(),
        final(changes).has_conflicts == (old(changes).conflicts@.len() > 0),
        final(changes).is_staged == (old(changes).conflicts@.len() > 0 || old(changes).staged.modified@.len() > 0
            || old(changes).staged.added@.len() > 0 || old(changes).staged.deleted@.len() > 0),
        final(changes).is_unstaged == (old(changes).conflicts@.len() > 0 || old(changes).unstaged.modified@.len() > 0
            || old(changes).unstaged.added@.len() > 0 || old(changes).unstaged.deleted@.len() > 0),
        final(changes).is_clean == (!final(changes).is_staged && !final(changes).is_unstaged && !final(changes).has_conflicts),
{
    changes.modified_count = deduplicate(&changes.staged.modified, &changes.unstaged.modified);
    changes.added_count = deduplicate(&changes.staged.added, &changes.unstaged.added);
    changes.deleted_count = deduplicate(&changes.staged.deleted, &changes.unstaged.deleted);
    changes.conflict_count = changes.conflicts.len();
    changes.has_conflicts = changes.conflict_count > 0;
    changes.is_staged = changes.has_conflicts || changes.staged.modified.len() > 0 || changes.staged.added.len() > 0 || changes.staged.deleted.len() > 0;
    changes.is_unstaged = changes.has_conflicts || changes.unstaged.modified.len() > 0 || changes.unstaged.added.len() > 0 || changes.unstaged.deleted.len() > 0;
    changes.is_clean = !changes.is_staged && !changes.is_unstaged && !changes.has_conflicts;
}

/// Set the status of `filename` in the list, or add it at the end.
pub fn upsert_change(changes: &mut Vec<FileChange>, filename: String, status: FileStatus)
    ensures
        ({
            let old_v = old(changes)@;
            let new_v = final(changes)@;
            if exists|k: int| 0 <= k < old_v.len() && old_v[k].filename@ == filename@ {
                let k = choose|k: int| 0 <= k < old_v.len() && old_v[k].filename@ == filename@ && forall|j: int| 0 <= j < k ==> old_v[j].filename@ != filename@;
                new_v == old_v.update(k, FileChange { filename: old_v[k].filename, status })
            } else {
                new_v == old_v.push(FileChange { filename, status })
            }
        }),
{
    let mut i: usize = 0;
    while i < changes.len()
        invariant
            i <= changes@.len(),
            changes@ == old(changes)@,
            forall|k: int| 0 <= k < i ==> changes@[k].filename@ != filename@,
        decreases changes@.len() - i,
    {
        if changes[i].filename == filename {
            let existing = changes[i].filename.clone();
            proof {
                let old_v = old(changes)@;
                let k = choose|k: int| 0 <= k < old_v.len() && old_v[k].filename@ == filename@ && forall|j: int| 0 <= j < k ==> old_v[j].filename@ != filename@;
                assert(old_v[i as int].filename@ == filename@);
                if k < i {
                } else if k > i {
                    assert(old_v[i as int].filename@ != filename@);
                }
                assert(k == i);
            }
            changes.set(i, FileChange { filename: existing, status });
            return;
        }
        i += 1;
    }
    changes.push(FileChange { filename, status });
}

} // verus!
