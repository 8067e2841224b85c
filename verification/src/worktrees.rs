use vstd::prelude::*;
use crate::changes::UncommittedChanges;
use crate::text::{chars_lt, lemma_seq_lt_asym, lemma_seq_lt_trans, seq_lt, str_chars};

verus! {

broadcast use vstd::seq_lib::group_to_multiset_ensures;

/// The main worktree of a repository, or one linked to it.
#[derive(Clone, Copy, Debug, PartialEq, Eq, Structural)]
pub enum WorktreeKind {
    Main,
    Linked,
}

/// A worktree as listed: name, path, checked-out branch and commit, its commit's graph alias
/// when known, and its state.
#[derive(Clone, Debug, PartialEq, Eq)]
pub struct WorktreeEntry {
    pub name: String,
    pub path: String,
    pub branch: Option<String>,
    pub head: Option<gix::ObjectId>,
    pub alias: Option<u32>,
    pub kind: WorktreeKind,
    pub is_current: bool,
    pub is_valid: bool,
    pub is_prunable: bool,
    pub locked_reason: Option<String>,
    pub is_dirty: bool,
}

/// Set the current worktree's dirty flag from the uncommitted changes; other entries stay.
pub fn mark_current_dirty(entries: &mut Vec<WorktreeEntry>, uncommitted: &UncommittedChanges)
    ensures
        final(entries)@.len() == old(entries)@.len(),
        forall|i: int| 0 <= i < old(entries)@.len() ==> #[trigger] final(entries)@[i] == if old(entries)@[i].is_current {
            WorktreeEntry { is_dirty: !uncommitted.is_clean, ..old(entries)@[i] }
        } else {
            old(entries)@[i]
        },
{
    let mut i: usize = 0;
    while i < entries.len()
        invariant
            i <= entries@.len(),
            entries@.len() == old(entries)@.len(),
            forall|k: int| 0 <= k < entries@.len() ==> #[trigger] entries@[k] == if k < i && old(entries)@[k].is_current {
                WorktreeEntry { is_dirty: !uncommitted.is_clean, ..old(entries)@[k] }
            } else {
                old(entries)@[k]
            },
        decreases entries@.len() - i,
    {
        if entries[i].is_current {
            let ghost before = entries@;
            let mut entry = entries.remove(i);
            entry.is_dirty = !uncommitted.is_clean;
            entries.insert(i, entry);
            assert(entries@ =~= before.update(i as int, entry));
        }
        i += 1;
    }
}

/// Whether a linked worktree can be used and whether it can be pruned: it is valid when its
/// repository opens, and prunable when it neither opens nor is locked.
pub fn linked_worktree_state(is_locked: bool, opens: bool) -> (r: (bool, bool))
    ensures
        r.0 == opens,
        r.1 == (!is_locked && !opens),
{
    let is_valid = opens;
    let mut is_prunable = !is_locked && !opens;
    if is_valid {
        is_prunable = false;
    }
    (is_valid, is_prunable)
}

pub open spec fn names_sorted(v: Seq<WorktreeEntry>) -> bool {
    forall|i: int, j: int| 0 <= i < j < v.len() ==> !seq_lt((#[trigger] v[j]).name@, (#[trigger] v[i]).name@)
}

/// The entries ordered by name.
fn sort_by_name(entries: Vec<WorktreeEntry>) -> (r: Vec<WorktreeEntry>)
    ensures
        r@.to_multiset() == entries@.to_multiset(),
        names_sorted(r@),
{
    let mut rest = entries;
    let mut out: Vec<WorktreeEntry> = Vec::new();
    while rest.len() > 0
        invariant
            out@.to_multiset().add(rest@.to_multiset()) == entries@.to_multiset(),
            names_sorted(out@),
            forall|i: int, j: int| 0 <= i < out@.len() && 0 <= j < rest@.len() ==> !seq_lt((#[trigger] rest@[j]).name@, (#[trigger] out@[i]).name@),
        decreases rest@.len(),
    {
        let mut best: usize = 0;
        let mut best_chars = str_chars(rest[0].name.as_str());
        let mut k: usize = 1;
        proof {
            lemma_seq_lt_asym(rest@[0].name@, rest@[0].name@);
        }
        while k < rest.len()
            invariant
                0 <= best < rest@.len(),
                k <= rest@.len(),
                best_chars@ == rest@[best as int].name@,
                forall|j: int| 0 <= j < k ==> !seq_lt((#[trigger] rest@[j]).name@, rest@[best as int].name@),
            decreases rest@.len() - k,
        {
            let chars = str_chars(rest[k].name.as_str());
            if chars_lt(&chars, &best_chars) {
                proof {
                    assert forall|j: int| 0 <= j < k + 1 implies !seq_lt((#[trigger] rest@[j]).name@, rest@[k as int].name@) by {
                        lemma_seq_lt_asym(rest@[j].name@, rest@[k as int].name@);
                        if j < k && seq_lt(rest@[j].name@, rest@[k as int].name@) {
                            lemma_seq_lt_trans(rest@[j].name@, rest@[k as int].name@, rest@[best as int].name@);
                        }
                    }
                }
                best = k;
                best_chars = chars;
            } else {
                proof {
                    lemma_seq_lt_asym(rest@[k as int].name@, rest@[best as int].name@);
                }
            }
            k += 1;
        }
        let ghost before_rest = rest@;
        let ghost before_out = out@;
        let entry = rest.remove(best);
        proof {
            assert(before_rest.remove(best as int).to_multiset() =~= before_rest.to_multiset().remove(entry));
            assert(out@.push(entry).to_multiset() =~= out@.to_multiset().insert(entry));
        }
        out.push(entry);
        proof {
            assert forall|i: int, j: int| 0 <= i < out@.len() && 0 <= j < rest@.len() implies !seq_lt((#[trigger] rest@[j]).name@, (#[trigger] out@[i]).name@) by {
                let jj = if j < best { j } else { j + 1 };
                assert(rest@[j] == before_rest[jj]);
                if i < before_out.len() {
                    assert(out@[i] == before_out[i]);
                }
            }
            assert forall|i: int, j: int| 0 <= i < j < out@.len() implies !seq_lt((#[trigger] out@[j]).name@, (#[trigger] out@[i]).name@) by {
                if j < before_out.len() {
                    assert(out@[i] == before_out[i] && out@[j] == before_out[j]);
                } else {
                    assert(out@[i] == before_out[i]);
                    assert(out@[j] == before_rest[best as int]);
                }
            }
        }
    }
    assert(rest@.to_multiset() =~= vstd::multiset::Multiset::empty());
    out
}

/// The worktree list: the main worktree first when there is one, then the linked ones ordered by
/// name.
pub fn order_worktree_entries(main: Option<WorktreeEntry>, linked: Vec<WorktreeEntry>) -> (r: Vec<WorktreeEntry>)
    ensures
        ({
            let first: int = if main is Some { 1 } else { 0 };
            &&& r@.len() == first + linked@.len()
            &&& main matches Some(m) ==> r@[0] == m
            &&& r@.subrange(first, r@.len() as int).to_multiset() == linked@.to_multiset()
            &&& names_sorted(r@.subrange(first, r@.len() as int))
        }),
{
    let sorted = sort_by_name(linked);
    let mut out: Vec<WorktreeEntry> = Vec::new();
    let has_main = main.is_some();
    match main {
        Some(m) => out.push(m),
        None => {},
    }
    let ghost first: int = if has_main { 1 } else { 0 };
    let mut rest = sorted;
    let ghost sorted_v = rest@;
    out.append(&mut rest);
    assert(out@.subrange(first, out@.len() as int) =~= sorted_v);
    assert(sorted_v.to_multiset().len() == sorted_v.len());
    assert(linked@.to_multiset().len() == linked@.len());
    if has_main {
        assert(out@[0] == main->0);
    }
    out
}

} // verus!
