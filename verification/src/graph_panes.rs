use vstd::prelude::*;
use crate::chunk::LaneRef;
use crate::oids::Oids;
use crate::git_types::oid_bytes;
use crate::reflogs::HeadReflogEntry;
use crate::graph_service::{alias_indices_for, first_place, GraphPane, GraphPaneRow};
use crate::graph_service::{alias_position, branch_jump_index, child_index, graph_index_of_oid, graph_index_of_prefix, jump_target, parent_index, GraphBranchJumpDirection, GraphLookupKind};
use crate::graph_service::{hex_text_starts_with, is_first_prefix_alias};
use crate::graph_service::{opt_text, graph_short_oid, latest_reflogs_by_alias, worktrees_for_alias, worktrees_on, worktree_with_alias};
use crate::graph_service::{hex_text, shown_digits, CommitMetadata, CommitMetadataCache, GraphBranchLabel, GraphReflogLabel, GraphTagLabel};
use crate::branch_visibility::{hidden_contains, hidden_names};
use crate::worktrees::WorktreeEntry;
use crate::chunk::NONE;
use crate::oids::git2_oid_bytes;
use crate::text::{chars_lt, lemma_seq_lt_asym, lemma_seq_lt_trans, seq_lt, str_chars};

verus! {

broadcast use vstd::seq_lib::group_to_multiset_ensures;

/// What the side panes list, as plain values: branch and tag names with the alias of the commit
/// they point at, the stashes (alias and summary) in stash order, HEAD's reflog entries, and the
/// lane each alias's labels are drawn in.
pub struct GraphRefs {
    pub branches_local: Vec<(u32, String)>,
    pub branches_remote: Vec<(u32, String)>,
    pub tags: Vec<(u32, String)>,
    pub stashes: Vec<(u32, String)>,
    pub reflogs: Vec<HeadReflogEntry>,
    pub branch_lanes: std::collections::HashMap<u32, LaneRef>,
    pub tag_lanes: std::collections::HashMap<u32, LaneRef>,
    pub stash_lanes: std::collections::HashMap<u32, LaneRef>,
    pub reflog_lanes: std::collections::HashMap<u32, LaneRef>,
}

/// Alias and name of each entry, the name by its characters.
pub open spec fn named_view(v: Seq<(u32, String)>) -> Seq<(u32, Seq<char>)> {
    v.map_values(|e: (u32, String)| (e.0, e.1@))
}

/// Order by name, then by alias.
pub open spec fn named_lt(a: (u32, Seq<char>), b: (u32, Seq<char>)) -> bool {
    seq_lt(a.1, b.1) || (a.1 == b.1 && a.0 < b.0)
}

/// Whether no entry of `s` comes before an earlier one.
pub open spec fn sorted_named(s: Seq<(u32, Seq<char>)>) -> bool {
    forall|i: int, j: int| 0 <= i < j < s.len() ==> !named_lt(#[trigger] s[j], #[trigger] s[i])
}

/// `s` holds the entries of `v`, ordered by name and then by alias.
pub open spec fn ordered_from(s: Seq<(u32, Seq<char>)>, v: Seq<(u32, String)>) -> bool {
    s.to_multiset() == named_view(v).to_multiset() && sorted_named(s)
}

proof fn lemma_named_lt_asym(a: (u32, Seq<char>), b: (u32, Seq<char>))
    ensures
        !(named_lt(a, b) && named_lt(b, a)),
        !named_lt(a, a),
        a != b ==> named_lt(a, b) || named_lt(b, a),
{
    lemma_seq_lt_asym(a.1, b.1);
    lemma_seq_lt_asym(b.1, a.1);
}

proof fn lemma_named_lt_trans(a: (u32, Seq<char>), b: (u32, Seq<char>), c: (u32, Seq<char>))
    requires
        named_lt(a, b),
        named_lt(b, c),
    ensures
        named_lt(a, c),
{
    lemma_seq_lt_asym(a.1, c.1);
    if seq_lt(a.1, b.1) && seq_lt(b.1, c.1) {
        lemma_seq_lt_trans(a.1, b.1, c.1);
    }
}

/// The entries ordered by name, then by alias.
fn sort_named(entries: Vec<(u32, String)>) -> (r: Vec<(u32, String)>)
    ensures
        ordered_from(named_view(r@), entries@),
        r@.len() == entries@.len(),
{
    let ghost all = named_view(entries@);
    let mut rest = entries;
    let mut out: Vec<(u32, String)> = Vec::new();
    proof {
        assert(named_view(out@) =~= Seq::<(u32, Seq<char>)>::empty());
    }
    while rest.len() > 0
        invariant
            named_view(out@).to_multiset().add(named_view(rest@).to_multiset()) == all.to_multiset(),
            sorted_named(named_view(out@)),
            forall|i: int, j: int| 0 <= i < out@.len() && 0 <= j < rest@.len() ==>
                !named_lt(#[trigger] named_view(rest@)[j], #[trigger] named_view(out@)[i]),
        decreases rest@.len(),
    {
        let ghost rv = named_view(rest@);
        let mut best: usize = 0;
        let mut best_chars = str_chars(rest[0].1.as_str());
        let mut best_alias: u32 = rest[0].0;
        let mut k: usize = 1;
        proof {
            lemma_named_lt_asym(rv[0], rv[0]);
        }
        while k < rest.len()
            invariant
                rv == named_view(rest@),
                0 <= best < rest@.len(),
                k <= rest@.len(),
                best_chars@ == rv[best as int].1,
                best_alias == rv[best as int].0,
                forall|j: int| 0 <= j < k ==> !named_lt(#[trigger] rv[j], rv[best as int]),
            decreases rest@.len() - k,
        {
            let chars = str_chars(rest[k].1.as_str());
            let alias = rest[k].0;
            let lt = chars_lt(&chars, &best_chars);
            let gt = chars_lt(&best_chars, &chars);
            proof {
                lemma_seq_lt_asym(chars@, best_chars@);
                lemma_named_lt_asym(rv[k as int], rv[best as int]);
            }
            if lt || (!gt && alias < best_alias) {
                proof {
                    assert(named_lt(rv[k as int], rv[best as int]));
                    assert forall|j: int| 0 <= j < k + 1 implies !named_lt(#[trigger] rv[j], rv[k as int]) by {
                        lemma_named_lt_asym(rv[j], rv[k as int]);
                        if j < k && named_lt(rv[j], rv[k as int]) {
                            lemma_named_lt_trans(rv[j], rv[k as int], rv[best as int]);
                        }
                    }
                }
                best = k;
                best_chars = chars;
                best_alias = alias;
            } else {
                proof {
                    assert(!named_lt(rv[k as int], rv[best as int]));
                }
            }
            k += 1;
        }
        let ghost before_rest = rest@;
        let ghost before_out = out@;
        let entry = rest.remove(best);
        let ghost ev = (entry.0, entry.1@);
        proof {
            assert(named_view(rest@) =~= rv.remove(best as int));
            assert(rv[best as int] == ev);
            assert(rv.remove(best as int).to_multiset() =~= rv.to_multiset().remove(ev));
        }
        out.push(entry);
        proof {
            assert(named_view(out@) =~= named_view(before_out).push(ev));
            assert(named_view(before_out).push(ev).to_multiset() =~= named_view(before_out).to_multiset().insert(ev));
            assert forall|i: int, j: int| 0 <= i < out@.len() && 0 <= j < rest@.len() implies
                !named_lt(#[trigger] named_view(rest@)[j], #[trigger] named_view(out@)[i]) by {
                let jj = if j < best { j } else { j + 1 };
                assert(named_view(rest@)[j] == rv[jj]);
                if i < before_out.len() {
                    assert(named_view(out@)[i] == named_view(before_out)[i]);
                } else {
                    assert(named_view(out@)[i] == rv[best as int]);
                }
            }
            assert forall|i: int, j: int| 0 <= i < j < out@.len() implies
                !named_lt(#[trigger] named_view(out@)[j], #[trigger] named_view(out@)[i]) by {
                if j < before_out.len() {
                    assert(named_view(out@)[i] == named_view(before_out)[i]);
                    assert(named_view(out@)[j] == named_view(before_out)[j]);
                } else {
                    assert(named_view(out@)[i] == named_view(before_out)[i]);
                    assert(named_view(out@)[j] == rv[best as int]);
                }
            }
        }
    }
    proof {
        assert(named_view(rest@).to_multiset() =~= vstd::multiset::Multiset::empty());
        assert(named_view(out@).to_multiset().add(vstd::multiset::Multiset::empty()) =~= named_view(out@).to_multiset());
        assert(named_view(out@).to_multiset().len() == named_view(out@).len());
        assert(all.to_multiset().len() == all.len());
    }
    out
}


/// The lane drawn for `alias`, if it has one.
pub open spec fn lane_of(lanes: Map<u32, LaneRef>, alias: u32) -> Option<LaneRef> {
    if lanes.contains_key(alias) { Some(lanes[alias]) } else { None }
}

/// The graph row of `alias`: its first place in the graph order, if it is there.
pub open spec fn place_of(sorted: Seq<u32>, alias: u32) -> Option<usize> {
    match first_place(sorted, alias) {
        Some(i) => Some(i as usize),
        None => None,
    }
}

/// The first row of a window starting at `start` over `total` rows.
pub open spec fn window_lo(total: int, start: int) -> int {
    if start < total { start } else { total }
}

/// The end of a window `[start, end)` over `total` rows; never before its first row.
pub open spec fn window_hi(total: int, start: int, end: int) -> int {
    let lo = window_lo(total, start);
    let hi = if end < total { end } else { total };
    if hi < lo { lo } else { hi }
}

/// Each named entry with whether it is a local branch.
pub open spec fn flagged(s: Seq<(u32, Seq<char>)>, is_local: bool) -> Seq<(u32, Seq<char>, bool)> {
    s.map_values(|e: (u32, Seq<char>)| (e.0, e.1, is_local))
}

/// Whether `row` is the branch row of `item` (alias, name, whether local).
pub open spec fn branch_row_is(row: GraphPaneRow, item: (u32, Seq<char>, bool), lanes: Map<u32, LaneRef>, sorted: Seq<u32>) -> bool {
    &&& row matches GraphPaneRow::Branch { alias, name, is_local, lane, graph_index }
    &&& alias == item.0 && name@ == item.1 && is_local == item.2
    &&& lane == lane_of(lanes, alias) && graph_index == place_of(sorted, alias)
}

/// Whether `row` is the tag row of `item` (alias, name).
pub open spec fn tag_row_is(row: GraphPaneRow, item: (u32, Seq<char>), lanes: Map<u32, LaneRef>, sorted: Seq<u32>) -> bool {
    &&& row matches GraphPaneRow::Tag { alias, name, lane, graph_index }
    &&& alias == item.0 && name@ == item.1
    &&& lane == lane_of(lanes, alias) && graph_index == place_of(sorted, alias)
}

/// Whether `row` is the stash row of `item` (alias, summary).
pub open spec fn stash_row_is(row: GraphPaneRow, item: (u32, Seq<char>), lanes: Map<u32, LaneRef>, sorted: Seq<u32>) -> bool {
    &&& row matches GraphPaneRow::Stash { alias, summary, lane, graph_index }
    &&& alias == item.0 && summary@ == item.1
    &&& lane == lane_of(lanes, alias) && graph_index == place_of(sorted, alias)
}

/// Whether `row` is the reflog row of `item` (alias, selector, message).
pub open spec fn reflog_row_is(row: GraphPaneRow, item: (u32, Seq<char>, Seq<char>), lanes: Map<u32, LaneRef>, sorted: Seq<u32>) -> bool {
    &&& row matches GraphPaneRow::Reflog { alias, selector, message, lane, graph_index }
    &&& alias == item.0 && selector@ == item.1 && message@ == item.2
    &&& lane == lane_of(lanes, alias) && graph_index == place_of(sorted, alias)
}

/// The reflog entries among the first `n` whose new id has an alias: alias, selector and
/// message, in reflog order.
pub open spec fn reflog_items(entries: Seq<HeadReflogEntry>, oids: Oids, n: int) -> Seq<(u32, Seq<char>, Seq<char>)>
    decreases n,
{
    if n <= 0 {
        Seq::empty()
    } else {
        let e = entries[n - 1];
        match oids.alias_of(oid_bytes(e.new_oid)) {
            Some(a) => reflog_items(entries, oids, n - 1).push((a, e.selector@, e.message@)),
            None => reflog_items(entries, oids, n - 1),
        }
    }
}

/// The aliases of the reflog entries that have one, with the entries themselves.
fn reflog_selection(entries: &Vec<HeadReflogEntry>, oids: &Oids) -> (r: Vec<(u32, String, String)>)
    ensures
        r@.len() == reflog_items(entries@, *oids, entries@.len() as int).len(),
        forall|k: int| 0 <= k < r@.len() ==> {
            let it = reflog_items(entries@, *oids, entries@.len() as int)[k];
            (#[trigger] r@[k]).0 == it.0 && r@[k].1@ == it.1 && r@[k].2@ == it.2
        },
{
    let mut out: Vec<(u32, String, String)> = Vec::new();
    let mut i: usize = 0;
    while i < entries.len()
        invariant
            i <= entries@.len(),
            out@.len() == reflog_items(entries@, *oids, i as int).len(),
            forall|k: int| 0 <= k < out@.len() ==> {
                let it = reflog_items(entries@, *oids, i as int)[k];
                (#[trigger] out@[k]).0 == it.0 && out@[k].1@ == it.1 && out@[k].2@ == it.2
            },
        decreases entries@.len() - i,
    {
        if let Some(alias) = oids.get_existing_alias(entries[i].new_oid) {
            let ghost before = out@;
            out.push((alias, entries[i].selector.clone(), entries[i].message.clone()));
            proof {
                assert forall|k: int| 0 <= k < out@.len() implies {
                    let it = reflog_items(entries@, *oids, i + 1)[k];
                    (#[trigger] out@[k]).0 == it.0 && out@[k].1@ == it.1 && out@[k].2@ == it.2
                } by {
                    if k < before.len() {
                        assert(out@[k] == before[k]);
                    }
                }
            }
        }
        i += 1;
    }
    out
}

/// The lane stored for `alias`.
fn lane_for(lanes: &std::collections::HashMap<u32, LaneRef>, alias: u32) -> (r: Option<LaneRef>)
    ensures
        r == lane_of(lanes@, alias),
{
    broadcast use vstd::std_specs::hash::group_hash_axioms;
    match lanes.get(&alias) {
        Some(l) => Some(*l),
        None => None,
    }
}

/// The graph row found for `alias` among the wanted ones.
fn place_for(indices: &std::collections::HashMap<u32, usize>, wanted: &Vec<u32>, sorted: &Vec<u32>, alias: u32) -> (r: Option<usize>)
    requires
        wanted@.contains(alias),
        forall|a: u32| #[trigger] indices@.contains_key(a) <==> wanted@.contains(a) && sorted@.contains(a),
        forall|a: u32| #[trigger] indices@.contains_key(a) ==> first_place(sorted@, a) == Some(indices@[a] as int),
    ensures
        r == place_of(sorted@, alias),
{
    broadcast use vstd::std_specs::hash::group_hash_axioms;
    match indices.get(&alias) {
        Some(g) => Some(*g),
        None => None,
    }
}

/// The branch rows `[lo, hi)` of the local branches followed by the remote ones.
fn branch_window(local: &Vec<(u32, String)>, remote: &Vec<(u32, String)>, lo: usize, hi: usize, lanes: &std::collections::HashMap<u32, LaneRef>, sorted: &Vec<u32>) -> (rows: Vec<GraphPaneRow>)
    requires
        lo <= hi <= local@.len() + remote@.len(),
    ensures
        rows@.len() == hi - lo,
        forall|k: int| 0 <= k < rows@.len() ==> branch_row_is(#[trigger] rows@[k],
            (flagged(named_view(local@), true) + flagged(named_view(remote@), false))[lo + k], lanes@, sorted@),
{
    let ghost items = flagged(named_view(local@), true) + flagged(named_view(remote@), false);
    let nl = local.len();
    let mut wanted: Vec<u32> = Vec::new();
    let mut i: usize = lo;
    while i < hi
        invariant
            lo <= i <= hi,
            hi <= local@.len() + remote@.len(),
            nl == local@.len(),
            items == flagged(named_view(local@), true) + flagged(named_view(remote@), false),
            wanted@.len() == i - lo,
            forall|k: int| 0 <= k < wanted@.len() ==> #[trigger] wanted@[k] == items[lo + k].0,
        decreases hi - i,
    {
        let alias = if i < nl { local[i].0 } else { remote[i - nl].0 };
        wanted.push(alias);
        i += 1;
    }
    let indices = alias_indices_for(sorted, &wanted);
    let mut rows: Vec<GraphPaneRow> = Vec::new();
    let mut i: usize = lo;
    while i < hi
        invariant
            lo <= i <= hi,
            hi <= local@.len() + remote@.len(),
            nl == local@.len(),
            items == flagged(named_view(local@), true) + flagged(named_view(remote@), false),
            wanted@.len() == hi - lo,
            forall|k: int| 0 <= k < wanted@.len() ==> #[trigger] wanted@[k] == items[lo + k].0,
            forall|a: u32| #[trigger] indices@.contains_key(a) <==> wanted@.contains(a) && sorted@.contains(a),
            forall|a: u32| #[trigger] indices@.contains_key(a) ==> first_place(sorted@, a) == Some(indices@[a] as int),
            rows@.len() == i - lo,
            forall|k: int| 0 <= k < rows@.len() ==> branch_row_is(#[trigger] rows@[k], items[lo + k], lanes@, sorted@),
        decreases hi - i,
    {
        let (alias, name, is_local) = if i < nl {
            (local[i].0, local[i].1.clone(), true)
        } else {
            (remote[i - nl].0, remote[i - nl].1.clone(), false)
        };
        proof {
            assert(wanted@[i - lo] == alias);
        }
        let lane = lane_for(lanes, alias);
        let graph_index = place_for(&indices, &wanted, sorted, alias);
        let ghost before = rows@;
        rows.push(GraphPaneRow::Branch { alias, name, is_local, lane, graph_index });
        proof {
            assert forall|k: int| 0 <= k < rows@.len() implies branch_row_is(#[trigger] rows@[k], items[lo + k], lanes@, sorted@) by {
                if k < before.len() {
                    assert(rows@[k] == before[k]);
                }
            }
        }
        i += 1;
    }
    rows
}

/// The rows `[lo, hi)` of named entries, as tag rows or stash rows.
fn named_window(entries: &Vec<(u32, String)>, is_tag: bool, lo: usize, hi: usize, lanes: &std::collections::HashMap<u32, LaneRef>, sorted: &Vec<u32>) -> (rows: Vec<GraphPaneRow>)
    requires
        lo <= hi <= entries@.len(),
    ensures
        rows@.len() == hi - lo,
        forall|k: int| 0 <= k < rows@.len() ==> if is_tag {
            tag_row_is(#[trigger] rows@[k], named_view(entries@)[lo + k], lanes@, sorted@)
        } else {
            stash_row_is(rows@[k], named_view(entries@)[lo + k], lanes@, sorted@)
        },
{
    let ghost items = named_view(entries@);
    let mut wanted: Vec<u32> = Vec::new();
    let mut i: usize = lo;
    while i < hi
        invariant
            lo <= i <= hi <= entries@.len(),
            items == named_view(entries@),
            wanted@.len() == i - lo,
            forall|k: int| 0 <= k < wanted@.len() ==> #[trigger] wanted@[k] == items[lo + k].0,
        decreases hi - i,
    {
        wanted.push(entries[i].0);
        i += 1;
    }
    let indices = alias_indices_for(sorted, &wanted);
    let mut rows: Vec<GraphPaneRow> = Vec::new();
    let mut i: usize = lo;
    while i < hi
        invariant
            lo <= i <= hi <= entries@.len(),
            items == named_view(entries@),
            wanted@.len() == hi - lo,
            forall|k: int| 0 <= k < wanted@.len() ==> #[trigger] wanted@[k] == items[lo + k].0,
            forall|a: u32| #[trigger] indices@.contains_key(a) <==> wanted@.contains(a) && sorted@.contains(a),
            forall|a: u32| #[trigger] indices@.contains_key(a) ==> first_place(sorted@, a) == Some(indices@[a] as int),
            rows@.len() == i - lo,
            forall|k: int| 0 <= k < rows@.len() ==> if is_tag {
                tag_row_is(#[trigger] rows@[k], items[lo + k], lanes@, sorted@)
            } else {
                stash_row_is(rows@[k], items[lo + k], lanes@, sorted@)
            },
        decreases hi - i,
    {
        let alias = entries[i].0;
        let text = entries[i].1.clone();
        proof {
            assert(wanted@[i - lo] == alias);
        }
        let lane = lane_for(lanes, alias);
        let graph_index = place_for(&indices, &wanted, sorted, alias);
        let ghost before = rows@;
        if is_tag {
            rows.push(GraphPaneRow::Tag { alias, name: text, lane, graph_index });
        } else {
            rows.push(GraphPaneRow::Stash { alias, summary: text, lane, graph_index });
        }
        proof {
            assert forall|k: int| 0 <= k < rows@.len() implies if is_tag {
                tag_row_is(#[trigger] rows@[k], items[lo + k], lanes@, sorted@)
            } else {
                stash_row_is(rows@[k], items[lo + k], lanes@, sorted@)
            } by {
                if k < before.len() {
                    assert(rows@[k] == before[k]);
                }
            }
        }
        i += 1;
    }
    rows
}

/// The reflog rows `[lo, hi)` of the selected entries.
fn reflog_window(entries: &Vec<(u32, String, String)>, lo: usize, hi: usize, lanes: &std::collections::HashMap<u32, LaneRef>, sorted: &Vec<u32>) -> (rows: Vec<GraphPaneRow>)
    requires
        lo <= hi <= entries@.len(),
    ensures
        rows@.len() == hi - lo,
        forall|k: int| 0 <= k < rows@.len() ==> reflog_row_is(#[trigger] rows@[k],
            (entries@[lo + k].0, entries@[lo + k].1@, entries@[lo + k].2@), lanes@, sorted@),
{
    let mut wanted: Vec<u32> = Vec::new();
    let mut i: usize = lo;
    while i < hi
        invariant
            lo <= i <= hi <= entries@.len(),
            wanted@.len() == i - lo,
            forall|k: int| 0 <= k < wanted@.len() ==> #[trigger] wanted@[k] == entries@[lo + k].0,
        decreases hi - i,
    {
        wanted.push(entries[i].0);
        i += 1;
    }
    let indices = alias_indices_for(sorted, &wanted);
    let mut rows: Vec<GraphPaneRow> = Vec::new();
    let mut i: usize = lo;
    while i < hi
        invariant
            lo <= i <= hi <= entries@.len(),
            wanted@.len() == hi - lo,
            forall|k: int| 0 <= k < wanted@.len() ==> #[trigger] wanted@[k] == entries@[lo + k].0,
            forall|a: u32| #[trigger] indices@.contains_key(a) <==> wanted@.contains(a) && sorted@.contains(a),
            forall|a: u32| #[trigger] indices@.contains_key(a) ==> first_place(sorted@, a) == Some(indices@[a] as int),
            rows@.len() == i - lo,
            forall|k: int| 0 <= k < rows@.len() ==> reflog_row_is(#[trigger] rows@[k],
                (entries@[lo + k].0, entries@[lo + k].1@, entries@[lo + k].2@), lanes@, sorted@),
        decreases hi - i,
    {
        let alias = entries[i].0;
        proof {
            assert(wanted@[i - lo] == alias);
        }
        let lane = lane_for(lanes, alias);
        let graph_index = place_for(&indices, &wanted, sorted, alias);
        let ghost before = rows@;
        rows.push(GraphPaneRow::Reflog { alias, selector: entries[i].1.clone(), message: entries[i].2.clone(), lane, graph_index });
        proof {
            assert forall|k: int| 0 <= k < rows@.len() implies reflog_row_is(#[trigger] rows@[k],
                (entries@[lo + k].0, entries@[lo + k].1@, entries@[lo + k].2@), lanes@, sorted@) by {
                if k < before.len() {
                    assert(rows@[k] == before[k]);
                }
            }
        }
        i += 1;
    }
    rows
}

/// A copy of named entries.
fn copy_named(v: &Vec<(u32, String)>) -> (r: Vec<(u32, String)>)
    ensures
        named_view(r@) == named_view(v@),
        r@.len() == v@.len(),
{
    let mut out: Vec<(u32, String)> = Vec::new();
    let mut i: usize = 0;
    while i < v.len()
        invariant
            i <= v@.len(),
            named_view(out@) == named_view(v@).subrange(0, i as int),
        decreases v@.len() - i,
    {
        let ghost before = out@;
        out.push((v[i].0, v[i].1.clone()));
        proof {
            assert(named_view(out@) =~= named_view(v@).subrange(0, i + 1)) by {
                assert(named_view(out@) =~= named_view(before).push((v@[i as int].0, v@[i as int].1@)));
            }
        }
        i += 1;
    }
    proof {
        assert(named_view(v@).subrange(0, v@.len() as int) =~= named_view(v@));
    }
    out
}

/// Whether `rows` are the branch rows of `items[lo..hi]`, in order.
pub open spec fn branch_rows_are(rows: Seq<GraphPaneRow>, items: Seq<(u32, Seq<char>, bool)>, lo: int, hi: int, lanes: Map<u32, LaneRef>, sorted: Seq<u32>) -> bool {
    rows.len() == hi - lo && forall|k: int| 0 <= k < rows.len() ==> branch_row_is(#[trigger] rows[k], items[lo + k], lanes, sorted)
}

/// Whether `rows` are the tag rows of `items[lo..hi]`, in order.
pub open spec fn tag_rows_are(rows: Seq<GraphPaneRow>, items: Seq<(u32, Seq<char>)>, lo: int, hi: int, lanes: Map<u32, LaneRef>, sorted: Seq<u32>) -> bool {
    rows.len() == hi - lo && forall|k: int| 0 <= k < rows.len() ==> tag_row_is(#[trigger] rows[k], items[lo + k], lanes, sorted)
}

/// Whether `rows` are the stash rows of `items[lo..hi]`, in order.
pub open spec fn stash_rows_are(rows: Seq<GraphPaneRow>, items: Seq<(u32, Seq<char>)>, lo: int, hi: int, lanes: Map<u32, LaneRef>, sorted: Seq<u32>) -> bool {
    rows.len() == hi - lo && forall|k: int| 0 <= k < rows.len() ==> stash_row_is(#[trigger] rows[k], items[lo + k], lanes, sorted)
}

/// Whether `rows` are the reflog rows of `items[lo..hi]`, in order.
pub open spec fn reflog_rows_are(rows: Seq<GraphPaneRow>, items: Seq<(u32, Seq<char>, Seq<char>)>, lo: int, hi: int, lanes: Map<u32, LaneRef>, sorted: Seq<u32>) -> bool {
    rows.len() == hi - lo && forall|k: int| 0 <= k < rows.len() ==> reflog_row_is(#[trigger] rows[k], items[lo + k], lanes, sorted)
}

/// How many rows `pane` lists: every local and remote branch, every tag, every stash, and the
/// reflog entries whose commit has an alias.
pub open spec fn pane_total(pane: GraphPane, refs: GraphRefs, oids: Oids) -> int {
    match pane {
        GraphPane::Branches => (refs.branches_local@.len() + refs.branches_remote@.len()) as int,
        GraphPane::Tags => refs.tags@.len() as int,
        GraphPane::Stashes => refs.stashes@.len() as int,
        GraphPane::Reflogs => reflog_items(refs.reflogs@, oids, refs.reflogs@.len() as int).len() as int,
    }
}

/// Whether `rows` are the rows `[window_lo, window_hi)` of `pane`. Branches list the local ones
/// and then the remote ones, each part ordered by name (then alias); tags are ordered by name
/// (then alias); stashes and reflog entries keep their order. Each row carries the lane of its
/// alias and the graph row where its commit first stands.
pub open spec fn pane_window_is(pane: GraphPane, refs: GraphRefs, oids: Oids, start: usize, end: usize, rows: Seq<GraphPaneRow>) -> bool {
    let total = pane_total(pane, refs, oids);
    let lo = window_lo(total, start as int);
    let hi = window_hi(total, start as int, end as int);
    let sorted = oids.sorted_aliases@;
    match pane {
        GraphPane::Branches => exists|ls: Seq<(u32, Seq<char>)>, rs: Seq<(u32, Seq<char>)>|
            #![trigger ordered_from(ls, refs.branches_local@), ordered_from(rs, refs.branches_remote@)]
            ordered_from(ls, refs.branches_local@) && ordered_from(rs, refs.branches_remote@)
                && branch_rows_are(rows, flagged(ls, true) + flagged(rs, false), lo, hi, refs.branch_lanes@, sorted),
        GraphPane::Tags => exists|ts: Seq<(u32, Seq<char>)>| #[trigger] ordered_from(ts, refs.tags@)
            && tag_rows_are(rows, ts, lo, hi, refs.tag_lanes@, sorted),
        GraphPane::Stashes => stash_rows_are(rows, named_view(refs.stashes@), lo, hi, refs.stash_lanes@, sorted),
        GraphPane::Reflogs => reflog_rows_are(rows, reflog_items(refs.reflogs@, oids, refs.reflogs@.len() as int), lo, hi, refs.reflog_lanes@, sorted),
    }
}

/// The rows `[start, end)` of a side pane, both ends clamped to its length, with that length.
pub fn pane_window_rows(pane: GraphPane, refs: &GraphRefs, oids: &Oids, start: usize, end: usize) -> (r: (usize, Vec<GraphPaneRow>))
    requires
        refs.branches_local@.len() + refs.branches_remote@.len() <= usize::MAX,
    ensures
        r.0 == pane_total(pane, *refs, *oids),
        pane_window_is(pane, *refs, *oids, start, end, r.1@),
{
    let sorted = oids.get_sorted_aliases();
    match pane {
        GraphPane::Branches => {
            let local = sort_named(copy_named(&refs.branches_local));
            let remote = sort_named(copy_named(&refs.branches_remote));
            let total = local.len() + remote.len();
            let lo = if start < total { start } else { total };
            let hi0 = if end < total { end } else { total };
            let hi = if hi0 < lo { lo } else { hi0 };
            let rows = branch_window(&local, &remote, lo, hi, &refs.branch_lanes, sorted);
            proof {
                let ls = named_view(local@);
                let rs = named_view(remote@);
                assert(ordered_from(ls, refs.branches_local@));
                assert(ordered_from(rs, refs.branches_remote@));
                assert(branch_rows_are(rows@, flagged(ls, true) + flagged(rs, false), lo as int, hi as int, refs.branch_lanes@, oids.sorted_aliases@));
            }
            (total, rows)
        },
        GraphPane::Tags => {
            let tags = sort_named(copy_named(&refs.tags));
            let total = tags.len();
            let lo = if start < total { start } else { total };
            let hi0 = if end < total { end } else { total };
            let hi = if hi0 < lo { lo } else { hi0 };
            let rows = named_window(&tags, true, lo, hi, &refs.tag_lanes, sorted);
            proof {
                let ts = named_view(tags@);
                assert(ordered_from(ts, refs.tags@));
                assert(tag_rows_are(rows@, ts, lo as int, hi as int, refs.tag_lanes@, oids.sorted_aliases@));
            }
            (total, rows)
        },
        GraphPane::Stashes => {
            let total = refs.stashes.len();
            let lo = if start < total { start } else { total };
            let hi0 = if end < total { end } else { total };
            let hi = if hi0 < lo { lo } else { hi0 };
            let rows = named_window(&refs.stashes, false, lo, hi, &refs.stash_lanes, sorted);
            (total, rows)
        },
        GraphPane::Reflogs => {
            let selected = reflog_selection(&refs.reflogs, oids);
            let total = selected.len();
            let lo = if start < total { start } else { total };
            let hi0 = if end < total { end } else { total };
            let hi = if hi0 < lo { lo } else { hi0 };
            let rows = reflog_window(&selected, lo, hi, &refs.reflog_lanes, sorted);
            proof {
                let items = reflog_items(refs.reflogs@, *oids, refs.reflogs@.len() as int);
                assert forall|k: int| 0 <= k < rows@.len() implies reflog_row_is(#[trigger] rows@[k], items[lo + k], refs.reflog_lanes@, oids.sorted_aliases@) by {
                    assert(selected@[lo + k].0 == items[lo + k].0);
                }
            }
            (total, rows)
        },
    }
}

/// Every row of a side pane.
pub fn pane_rows(pane: GraphPane, refs: &GraphRefs, oids: &Oids) -> (r: Vec<GraphPaneRow>)
    requires
        refs.branches_local@.len() + refs.branches_remote@.len() <= usize::MAX,
    ensures
        r@.len() == pane_total(pane, *refs, *oids),
        pane_window_is(pane, *refs, *oids, 0, usize::MAX, r@),
{
    pane_window_rows(pane, refs, oids, 0, usize::MAX).1
}

/// The names of the first `n` entries for `alias` that `hidden` does not hold, in order.
pub open spec fn names_at(v: Seq<(u32, String)>, alias: u32, hidden: Set<Seq<char>>, n: int) -> Seq<Seq<char>>
    decreases n,
{
    if n <= 0 {
        Seq::empty()
    } else if v[n - 1].0 == alias && !hidden.contains(v[n - 1].1@) {
        names_at(v, alias, hidden, n - 1).push(v[n - 1].1@)
    } else {
        names_at(v, alias, hidden, n - 1)
    }
}

/// The names a set of hidden names leaves out: none without a set.
pub open spec fn hidden_of(hidden: Option<&im::HashSet<String>>) -> Set<Seq<char>> {
    match hidden {
        Some(h) => hidden_names(*h),
        None => Set::empty(),
    }
}

/// The names of the entries for `alias`, in order, leaving out the hidden ones.
fn visible_names(v: &Vec<(u32, String)>, alias: u32, hidden: Option<&im::HashSet<String>>) -> (r: Vec<String>)
    ensures
        r@.len() == names_at(v@, alias, hidden_of(hidden), v@.len() as int).len(),
        forall|k: int| 0 <= k < r@.len() ==> (#[trigger] r@[k])@ == names_at(v@, alias, hidden_of(hidden), v@.len() as int)[k],
{
    let mut out: Vec<String> = Vec::new();
    let mut i: usize = 0;
    while i < v.len()
        invariant
            i <= v@.len(),
            out@.len() == names_at(v@, alias, hidden_of(hidden), i as int).len(),
            forall|k: int| 0 <= k < out@.len() ==> (#[trigger] out@[k])@ == names_at(v@, alias, hidden_of(hidden), i as int)[k],
        decreases v@.len() - i,
    {
        if v[i].0 == alias {
            let shown = match hidden {
                Some(h) => !hidden_contains(h, v[i].1.as_str()),
                None => true,
            };
            if shown {
                let ghost before = out@;
                out.push(v[i].1.clone());
                proof {
                    assert forall|k: int| 0 <= k < out@.len() implies (#[trigger] out@[k])@ == names_at(v@, alias, hidden_of(hidden), i + 1)[k] by {
                        if k < before.len() {
                            assert(out@[k] == before[k]);
                        }
                    }
                }
            }
        }
        i += 1;
    }
    out
}

/// Whether some entry is for `alias`.
fn has_alias(v: &Vec<(u32, String)>, alias: u32) -> (r: bool)
    ensures
        r == exists|k: int| 0 <= k < v@.len() && (#[trigger] v@[k]).0 == alias,
{
    let mut i: usize = 0;
    while i < v.len()
        invariant
            i <= v@.len(),
            forall|k: int| 0 <= k < i ==> (#[trigger] v@[k]).0 != alias,
        decreases v@.len() - i,
    {
        if v[i].0 == alias {
            return true;
        }
        i += 1;
    }
    false
}

/// The alias drawn on graph row `index`: `NONE` past the graph order.
pub open spec fn row_alias(oids: Oids, index: int) -> u32 {
    if 0 <= index < oids.sorted_aliases@.len() { oids.sorted_aliases@[index] } else { NONE }
}

/// The id bytes of an alias: the zero id for an unknown alias.
pub open spec fn alias_oid_bytes(oids: Oids, alias: u32) -> Seq<u8> {
    oid_bytes(if alias < oids.by_alias@.len() { oids.by_alias@[alias as int] } else { oids.zero })
}

/// Whether a row stands for the uncommitted changes rather than a commit.
pub open spec fn is_uncommitted_row(oids: Oids, alias: u32) -> bool {
    alias == NONE || alias_oid_bytes(oids, alias) == oid_bytes(oids.zero)
}

/// A commit row of the graph, with its labels.
pub struct GraphRow {
    pub index: usize,
    pub alias: u32,
    pub oid: git2::Oid,
    pub short_oid: String,
    pub summary: String,
    pub committer_date: String,
    pub committer_name: String,
    pub has_any_branch: bool,
    pub branches: Vec<GraphBranchLabel>,
    pub tags: Vec<GraphTagLabel>,
    pub is_stash: bool,
    pub stash_lane: Option<LaneRef>,
    pub worktrees: Vec<WorktreeEntry>,
    pub has_current_worktree: bool,
    pub reflog: Option<GraphReflogLabel>,
}

/// The branch labels of `alias`: its visible local branches, then its visible remote ones.
pub open spec fn branch_labels_are(labels: Seq<GraphBranchLabel>, refs: GraphRefs, alias: u32, hidden: Set<Seq<char>>) -> bool {
    let local = names_at(refs.branches_local@, alias, hidden, refs.branches_local@.len() as int);
    let remote = names_at(refs.branches_remote@, alias, hidden, refs.branches_remote@.len() as int);
    &&& labels.len() == local.len() + remote.len()
    &&& forall|k: int| 0 <= k < labels.len() ==> {
        &&& (#[trigger] labels[k]).name@ == (if k < local.len() { local[k] } else { remote[k - local.len()] })
        &&& labels[k].is_local == (k < local.len())
        &&& labels[k].lane == lane_of(refs.branch_lanes@, alias)
    }
}

/// The tag labels of `alias`, in order.
pub open spec fn tag_labels_are(labels: Seq<GraphTagLabel>, refs: GraphRefs, alias: u32) -> bool {
    let tags = names_at(refs.tags@, alias, Set::empty(), refs.tags@.len() as int);
    &&& labels.len() == tags.len()
    &&& forall|k: int| 0 <= k < labels.len() ==> (#[trigger] labels[k]).name@ == tags[k] && labels[k].lane == lane_of(refs.tag_lanes@, alias)
}

/// Whether some branch, local or remote, points at `alias` (hidden ones too).
pub open spec fn alias_has_branch(refs: GraphRefs, alias: u32) -> bool {
    ||| exists|k: int| 0 <= k < refs.branches_local@.len() && (#[trigger] refs.branches_local@[k]).0 == alias
    ||| exists|k: int| 0 <= k < refs.branches_remote@.len() && (#[trigger] refs.branches_remote@[k]).0 == alias
}

/// The reflog label of `alias`: from the first (newest) reflog entry whose commit has it.
pub open spec fn reflog_label_is(label: Option<GraphReflogLabel>, refs: GraphRefs, oids: Oids, alias: u32) -> bool {
    let entries = refs.reflogs@;
    if exists|k: int| 0 <= k < entries.len() && #[trigger] oids.alias_of(oid_bytes(entries[k].new_oid)) == Some(alias) {
        exists|k: int| #![trigger entries[k]] 0 <= k < entries.len() && oids.alias_of(oid_bytes(entries[k].new_oid)) == Some(alias)
            && (forall|j: int| 0 <= j < k ==> oids.alias_of(oid_bytes(#[trigger] entries[j].new_oid)) != Some(alias))
            && (label matches Some(l) && l.selector@ == entries[k].selector@ && l.message@ == entries[k].message@
                && l.lane == lane_of(refs.reflog_lanes@, alias))
    } else {
        label is None
    }
}

/// What graph row `index` shows, but for the commit texts.
pub open spec fn graph_row_is(row: GraphRow, index: int, refs: GraphRefs, oids: Oids, worktrees: Seq<WorktreeEntry>, hidden: Set<Seq<char>>) -> bool {
    let alias = row_alias(oids, index);
    let on = worktrees_on(worktrees, oids, alias, worktrees.len() as int);
    &&& row.index == index
    &&& row.alias == alias
    &&& git2_oid_bytes(row.oid) == alias_oid_bytes(oids, alias)
    &&& row.short_oid@ == hex_text(git2_oid_bytes(row.oid), shown_digits(git2_oid_bytes(row.oid), 9))
    &&& row.has_any_branch == alias_has_branch(refs, alias)
    &&& branch_labels_are(row.branches@, refs, alias, hidden)
    &&& tag_labels_are(row.tags@, refs, alias)
    &&& row.is_stash == exists|k: int| 0 <= k < refs.stashes@.len() && (#[trigger] refs.stashes@[k]).0 == alias
    &&& row.stash_lane == lane_of(refs.stash_lanes@, alias)
    &&& row.worktrees@.len() == on.len()
    &&& forall|j: int| 0 <= j < on.len() ==> worktree_with_alias(#[trigger] row.worktrees@[j], worktrees[on[j]], alias)
    &&& row.has_current_worktree == (on.len() > 0 && (!row.has_any_branch || exists|j: int| 0 <= j < on.len() && (#[trigger] worktrees[on[j]]).branch is None))
    &&& reflog_label_is(row.reflog, refs, oids, alias)
}

/// The branch labels of `alias`.
fn branch_labels(refs: &GraphRefs, alias: u32, hidden: &im::HashSet<String>) -> (r: Vec<GraphBranchLabel>)
    ensures
        branch_labels_are(r@, *refs, alias, hidden_names(*hidden)),
{
    let ghost h = hidden_of(Some(hidden));
    let local = visible_names(&refs.branches_local, alias, Some(hidden));
    let remote = visible_names(&refs.branches_remote, alias, Some(hidden));
    let lane = lane_for(&refs.branch_lanes, alias);
    let ghost ln = names_at(refs.branches_local@, alias, h, refs.branches_local@.len() as int);
    let ghost rn = names_at(refs.branches_remote@, alias, h, refs.branches_remote@.len() as int);
    let mut out: Vec<GraphBranchLabel> = Vec::new();
    let mut i: usize = 0;
    while i < local.len()
        invariant
            i <= local@.len(),
            local@.len() == ln.len(),
            forall|k: int| 0 <= k < local@.len() ==> (#[trigger] local@[k])@ == ln[k],
            out@.len() == i,
            forall|k: int| 0 <= k < out@.len() ==> (#[trigger] out@[k]).name@ == ln[k] && out@[k].is_local && out@[k].lane == lane,
        decreases local@.len() - i,
    {
        let ghost before = out@;
        out.push(GraphBranchLabel { name: local[i].clone(), is_local: true, lane });
        proof {
            assert forall|k: int| 0 <= k < out@.len() implies (#[trigger] out@[k]).name@ == ln[k] && out@[k].is_local && out@[k].lane == lane by {
                if k < before.len() {
                    assert(out@[k] == before[k]);
                }
            }
        }
        i += 1;
    }
    let mut j: usize = 0;
    while j < remote.len()
        invariant
            j <= remote@.len(),
            local@.len() == ln.len(),
            remote@.len() == rn.len(),
            forall|k: int| 0 <= k < remote@.len() ==> (#[trigger] remote@[k])@ == rn[k],
            out@.len() == ln.len() + j,
            forall|k: int| 0 <= k < out@.len() ==> (#[trigger] out@[k]).name@ == (if k < ln.len() { ln[k] } else { rn[k - ln.len()] })
                && out@[k].is_local == (k < ln.len()) && out@[k].lane == lane,
        decreases remote@.len() - j,
    {
        let ghost before = out@;
        out.push(GraphBranchLabel { name: remote[j].clone(), is_local: false, lane });
        proof {
            assert forall|k: int| 0 <= k < out@.len() implies (#[trigger] out@[k]).name@ == (if k < ln.len() { ln[k] } else { rn[k - ln.len()] })
                && out@[k].is_local == (k < ln.len()) && out@[k].lane == lane by {
                if k < before.len() {
                    assert(out@[k] == before[k]);
                }
            }
        }
        j += 1;
    }
    out
}

/// The tag labels of `alias`.
fn tag_labels(refs: &GraphRefs, alias: u32) -> (r: Vec<GraphTagLabel>)
    ensures
        tag_labels_are(r@, *refs, alias),
{
    let names = visible_names(&refs.tags, alias, None);
    let lane = lane_for(&refs.tag_lanes, alias);
    let ghost tn = names_at(refs.tags@, alias, Set::empty(), refs.tags@.len() as int);
    proof {
        assert(hidden_of(None) == Set::<Seq<char>>::empty());
    }
    let mut out: Vec<GraphTagLabel> = Vec::new();
    let mut i: usize = 0;
    while i < names.len()
        invariant
            i <= names@.len(),
            names@.len() == tn.len(),
            forall|k: int| 0 <= k < names@.len() ==> (#[trigger] names@[k])@ == tn[k],
            out@.len() == i,
            forall|k: int| 0 <= k < out@.len() ==> (#[trigger] out@[k]).name@ == tn[k] && out@[k].lane == lane,
        decreases names@.len() - i,
    {
        let ghost before = out@;
        out.push(GraphTagLabel { name: names[i].clone(), lane });
        proof {
            assert forall|k: int| 0 <= k < out@.len() implies (#[trigger] out@[k]).name@ == tn[k] && out@[k].lane == lane by {
                if k < before.len() {
                    assert(out@[k] == before[k]);
                }
            }
        }
        i += 1;
    }
    out
}

/// Whether one of the worktrees has no branch checked out.
fn any_detached(entries: &Vec<WorktreeEntry>) -> (r: bool)
    ensures
        r == exists|j: int| 0 <= j < entries@.len() && (#[trigger] entries@[j]).branch is None,
{
    let mut i: usize = 0;
    while i < entries.len()
        invariant
            i <= entries@.len(),
            forall|j: int| 0 <= j < i ==> !((#[trigger] entries@[j]).branch is None),
        decreases entries@.len() - i,
    {
        if entries[i].branch.is_none() {
            return true;
        }
        i += 1;
    }
    false
}

/// Whether a stash is on `alias`.
fn is_stash_alias(stashes: &Vec<(u32, String)>, alias: u32) -> (r: bool)
    ensures
        r == exists|k: int| 0 <= k < stashes@.len() && (#[trigger] stashes@[k]).0 == alias,
{
    has_alias(stashes, alias)
}

/// Graph row `index` with the given commit texts.
#[verifier::spinoff_prover]
#[verifier::rlimit(40)]
fn graph_row_with(refs: &GraphRefs, oids: &Oids, worktrees: &Vec<WorktreeEntry>, hidden: &im::HashSet<String>,
    latest: &std::collections::HashMap<u32, usize>, index: usize, meta: CommitMetadata) -> (row: GraphRow)
    requires
        forall|a: int| 0 <= a < oids.by_alias@.len() ==> oid_bytes(#[trigger] oids.by_alias@[a]).len() == 20,
        oid_bytes(oids.zero).len() == 20,
        forall|a: u32| #[trigger] latest@.contains_key(a) <==> exists|k: int| 0 <= k < refs.reflogs@.len() && #[trigger] oids.alias_of(oid_bytes(refs.reflogs@[k].new_oid)) == Some(a),
        forall|a: u32| #[trigger] latest@.contains_key(a) ==> {
            &&& latest@[a] < refs.reflogs@.len()
            &&& oids.alias_of(oid_bytes(refs.reflogs@[latest@[a] as int].new_oid)) == Some(a)
            &&& forall|k: int| 0 <= k < latest@[a] ==> oids.alias_of(oid_bytes(#[trigger] refs.reflogs@[k].new_oid)) != Some(a)
        },
    ensures
        graph_row_is(row, index as int, *refs, *oids, worktrees@, hidden_names(*hidden)),
        row.summary == meta.summary && row.committer_date == meta.committer_date && row.committer_name == meta.committer_name,
{
    broadcast use vstd::std_specs::hash::group_hash_axioms;
    let sorted = oids.get_sorted_aliases();
    let alias = if index < sorted.len() { sorted[index] } else { NONE };
    let oid = oids.get_git2_oid_by_alias(alias);
    let short_oid = graph_short_oid(oid);
    let has_local = has_alias(&refs.branches_local, alias);
    let has_remote = has_alias(&refs.branches_remote, alias);
    let has_any_branch = has_local || has_remote;
    let branches = branch_labels(refs, alias, hidden);
    let tags = tag_labels(refs, alias);
    let is_stash = is_stash_alias(&refs.stashes, alias);
    let stash_lane = lane_for(&refs.stash_lanes, alias);
    let found = worktrees_for_alias(worktrees, oids, alias);
    let detached = any_detached(&found);
    let has_current_worktree = found.len() > 0 && (!has_any_branch || detached);
    let reflog = match latest.get(&alias) {
        Some(k) => {
            let lane = lane_for(&refs.reflog_lanes, alias);
            Some(GraphReflogLabel { selector: refs.reflogs[*k].selector.clone(), message: refs.reflogs[*k].message.clone(), lane })
        },
        None => None,
    };
    proof {
        let on = worktrees_on(worktrees@, *oids, alias, worktrees@.len() as int);
        assert(detached == exists|j: int| 0 <= j < on.len() && (#[trigger] worktrees@[on[j]]).branch is None) by {
            if detached {
                let j = choose|j: int| 0 <= j < found@.len() && (#[trigger] found@[j]).branch is None;
                assert(worktree_with_alias(found@[j], worktrees@[on[j]], alias));
                assert(opt_text(found@[j].branch) is None);
                assert(worktrees@[on[j]].branch is None);
            } else {
                assert forall|j: int| 0 <= j < on.len() implies !((#[trigger] worktrees@[on[j]]).branch is None) by {
                    assert(worktree_with_alias(found@[j], worktrees@[on[j]], alias));
                    assert(!(found@[j].branch is None));
                    assert(opt_text(found@[j].branch) is Some);
                }
            }
        }
        if latest@.contains_key(alias) {
            let k = latest@[alias] as int;
            assert(refs.reflogs@[k] == refs.reflogs@[k]);
        }
    }
    let row = GraphRow {
        index,
        alias,
        oid,
        short_oid,
        summary: meta.summary,
        committer_date: meta.committer_date,
        committer_name: meta.committer_name,
        has_any_branch,
        branches,
        tags,
        is_stash,
        stash_lane,
        worktrees: found,
        has_current_worktree,
        reflog,
    };
    proof {
        assert(row.alias == row_alias(*oids, index as int));
        assert(branch_labels_are(row.branches@, *refs, alias, hidden_names(*hidden)));
        assert(tag_labels_are(row.tags@, *refs, alias));
        assert(reflog_label_is(row.reflog, *refs, *oids, alias));
    }
    row
}

/// Whether a row shows the texts of `m`.
pub open spec fn row_texts_are(row: GraphRow, m: CommitMetadata) -> bool {
    row.summary@ == m.summary@ && row.committer_date@ == m.committer_date@ && row.committer_name@ == m.committer_name@
}

/// No texts, for the row of uncommitted changes.
fn empty_metadata() -> (m: CommitMetadata)
    ensures
        m.summary@ == Seq::<char>::empty() && m.committer_date@ == Seq::<char>::empty() && m.committer_name@ == Seq::<char>::empty(),
{
    CommitMetadata { summary: String::new(), committer_date: String::new(), committer_name: String::new() }
}

/// The texts cached for `alias`, or those `load` gives for `oid`, which are then cached.
fn metadata_for<F: Fn(git2::Oid) -> CommitMetadata>(cache: &mut CommitMetadataCache, load: &F, alias: u32, oid: git2::Oid) -> (r: CommitMetadata)
    requires
        call_requires(*load, (oid,)),
    ensures
        old(cache).entries@.contains_key(alias) ==> final(cache).entries@ == old(cache).entries@,
        !old(cache).entries@.contains_key(alias) ==> exists|m: CommitMetadata| #[trigger] call_ensures(*load, (oid,), m)
            && final(cache).entries@ == old(cache).entries@.insert(alias, m),
        final(cache).entries@.contains_key(alias),
        r.same_text(final(cache).entries@[alias]),
{
    broadcast use vstd::std_specs::hash::group_hash_axioms;
    match cache.entries.get(&alias) {
        Some(m) => {
            return m.duplicate();
        },
        None => {},
    }
    let m = load(oid);
    let copy = m.duplicate();
    cache.entries.insert(alias, m);
    copy
}

/// Graph rows `[start, end)`: past the graph order a row stands for no commit (alias `NONE`).
/// The row of uncommitted changes has no texts; a commit row shows the texts cached for its
/// alias, which `load` gives (for the commit's id) the first time they are needed.
pub fn graph_rows<F: Fn(git2::Oid) -> CommitMetadata>(refs: &GraphRefs, oids: &Oids, worktrees: &Vec<WorktreeEntry>,
    metadata: &mut CommitMetadataCache, load: &F, hidden: &im::HashSet<String>, start: usize, end: usize) -> (r: Vec<GraphRow>)
    requires
        start <= end,
        forall|a: int| 0 <= a < oids.by_alias@.len() ==> oid_bytes(#[trigger] oids.by_alias@[a]).len() == 20,
        oid_bytes(oids.zero).len() == 20,
        forall|o: git2::Oid| call_requires(*load, (o,)),
    ensures
        r@.len() == end - start,
        forall|i: int| 0 <= i < r@.len() ==> graph_row_is(#[trigger] r@[i], start + i, *refs, *oids, worktrees@, hidden_names(*hidden)),
        forall|i: int| 0 <= i < r@.len() && is_uncommitted_row(*oids, (#[trigger] r@[i]).alias) ==>
            r@[i].summary@.len() == 0 && r@[i].committer_date@.len() == 0 && r@[i].committer_name@.len() == 0,
        forall|i: int| 0 <= i < r@.len() && !is_uncommitted_row(*oids, (#[trigger] r@[i]).alias) ==>
            final(metadata).entries@.contains_key(r@[i].alias) && row_texts_are(r@[i], final(metadata).entries@[r@[i].alias]),
        forall|a: u32| #[trigger] old(metadata).entries@.contains_key(a) ==>
            final(metadata).entries@.contains_key(a) && final(metadata).entries@[a] == old(metadata).entries@[a],
        forall|a: u32| #[trigger] final(metadata).entries@.contains_key(a) && !old(metadata).entries@.contains_key(a) ==>
            exists|o: git2::Oid| #[trigger] call_ensures(*load, (o,), final(metadata).entries@[a]) && git2_oid_bytes(o) == alias_oid_bytes(*oids, a),
{
    let latest = latest_reflogs_by_alias(oids, &refs.reflogs);
    let sorted = oids.get_sorted_aliases();
    let mut rows: Vec<GraphRow> = Vec::new();
    let mut index: usize = start;
    while index < end
        invariant
            start <= index <= end,
            sorted@ == oids.sorted_aliases@,
            forall|a: int| 0 <= a < oids.by_alias@.len() ==> oid_bytes(#[trigger] oids.by_alias@[a]).len() == 20,
            oid_bytes(oids.zero).len() == 20,
            forall|o: git2::Oid| call_requires(*load, (o,)),
            forall|a: u32| #[trigger] latest@.contains_key(a) <==> exists|k: int| 0 <= k < refs.reflogs@.len() && #[trigger] oids.alias_of(oid_bytes(refs.reflogs@[k].new_oid)) == Some(a),
            forall|a: u32| #[trigger] latest@.contains_key(a) ==> {
                &&& latest@[a] < refs.reflogs@.len()
                &&& oids.alias_of(oid_bytes(refs.reflogs@[latest@[a] as int].new_oid)) == Some(a)
                &&& forall|k: int| 0 <= k < latest@[a] ==> oids.alias_of(oid_bytes(#[trigger] refs.reflogs@[k].new_oid)) != Some(a)
            },
            rows@.len() == index - start,
            forall|i: int| 0 <= i < rows@.len() ==> graph_row_is(#[trigger] rows@[i], start + i, *refs, *oids, worktrees@, hidden_names(*hidden)),
            forall|i: int| 0 <= i < rows@.len() && is_uncommitted_row(*oids, (#[trigger] rows@[i]).alias) ==>
                rows@[i].summary@.len() == 0 && rows@[i].committer_date@.len() == 0 && rows@[i].committer_name@.len() == 0,
            forall|i: int| 0 <= i < rows@.len() && !is_uncommitted_row(*oids, (#[trigger] rows@[i]).alias) ==>
                metadata.entries@.contains_key(rows@[i].alias) && row_texts_are(rows@[i], metadata.entries@[rows@[i].alias]),
            forall|a: u32| #[trigger] old(metadata).entries@.contains_key(a) ==>
                metadata.entries@.contains_key(a) && metadata.entries@[a] == old(metadata).entries@[a],
            forall|a: u32| #[trigger] metadata.entries@.contains_key(a) && !old(metadata).entries@.contains_key(a) ==>
                exists|o: git2::Oid| #[trigger] call_ensures(*load, (o,), metadata.entries@[a]) && git2_oid_bytes(o) == alias_oid_bytes(*oids, a),
        decreases end - index,
    {
        let alias = if index < sorted.len() { sorted[index] } else { NONE };
        let uncommitted = alias == NONE || oids.is_zero(oids.get_oid_by_alias(alias));
        let ghost before_cache = metadata.entries@;
        let oid = oids.get_git2_oid_by_alias(alias);
        let meta = if uncommitted {
            empty_metadata()
        } else {
            metadata_for(metadata, load, alias, oid)
        };
        proof {
            if !uncommitted && !before_cache.contains_key(alias) {
                let m = choose|m: CommitMetadata| #[trigger] call_ensures(*load, (oid,), m) && metadata.entries@ == before_cache.insert(alias, m);
                assert(metadata.entries@[alias] == m);
                assert(call_ensures(*load, (oid,), metadata.entries@[alias]) && git2_oid_bytes(oid) == alias_oid_bytes(*oids, alias));
                assert forall|a: u32| #[trigger] metadata.entries@.contains_key(a) && !old(metadata).entries@.contains_key(a) implies
                    exists|o: git2::Oid| #[trigger] call_ensures(*load, (o,), metadata.entries@[a]) && git2_oid_bytes(o) == alias_oid_bytes(*oids, a) by {
                    if a != alias {
                        assert(before_cache.contains_key(a));
                        assert(metadata.entries@[a] == before_cache[a]);
                    }
                }
            }
        }
        let row = graph_row_with(refs, oids, worktrees, hidden, &latest, index, meta);
        let ghost before = rows@;
        rows.push(row);
        proof {
            assert(is_uncommitted_row(*oids, alias) == uncommitted);
            assert forall|i: int| 0 <= i < rows@.len() && !is_uncommitted_row(*oids, (#[trigger] rows@[i]).alias) implies
                metadata.entries@.contains_key(rows@[i].alias) && row_texts_are(rows@[i], metadata.entries@[rows@[i].alias]) by {
                if i < before.len() {
                    assert(rows@[i] == before[i]);
                    assert(before_cache.contains_key(before[i].alias));
                }
            }
            assert forall|i: int| 0 <= i < rows@.len() implies graph_row_is(#[trigger] rows@[i], start + i, *refs, *oids, worktrees@, hidden_names(*hidden)) by {
                if i < before.len() {
                    assert(rows@[i] == before[i]);
                }
            }
        }
        index += 1;
    }
    rows
}

/// The graph rows of the first `n` entries whose name is not hidden and whose commit is in the
/// graph order, in entry order.
pub open spec fn visible_places(v: Seq<(u32, String)>, sorted: Seq<u32>, hidden: Set<Seq<char>>, n: int) -> Seq<usize>
    decreases n,
{
    if n <= 0 {
        Seq::empty()
    } else {
        let e = v[n - 1];
        match place_of(sorted, e.0) {
            Some(i) => if !hidden.contains(e.1@) {
                visible_places(v, sorted, hidden, n - 1).push(i)
            } else {
                visible_places(v, sorted, hidden, n - 1)
            },
            None => visible_places(v, sorted, hidden, n - 1),
        }
    }
}

/// Append the graph rows of the visible entries of `v` to `out`.
fn push_visible_places(out: &mut Vec<usize>, v: &Vec<(u32, String)>, sorted: &Vec<u32>, hidden: &im::HashSet<String>)
    ensures
        final(out)@ == old(out)@ + visible_places(v@, sorted@, hidden_names(*hidden), v@.len() as int),
{
    let ghost start = out@;
    let mut i: usize = 0;
    while i < v.len()
        invariant
            i <= v@.len(),
            out@ == start + visible_places(v@, sorted@, hidden_names(*hidden), i as int),
        decreases v@.len() - i,
    {
        let ghost before = out@;
        match alias_position(sorted, v[i].0) {
            Some(place) => {
                if !hidden_contains(hidden, v[i].1.as_str()) {
                    out.push(place);
                    proof {
                        assert(out@ =~= start + visible_places(v@, sorted@, hidden_names(*hidden), i + 1));
                    }
                }
            },
            None => {},
        }
        i += 1;
    }
}

/// The graph row a branch jump from row `from` lands on: the nearest row before it (`Previous`)
/// or after it (`Next`) that a branch not hidden points at.
pub fn branch_index(refs: &GraphRefs, oids: &Oids, hidden: &im::HashSet<String>, from: usize, direction: GraphBranchJumpDirection) -> (r: Option<usize>)
    ensures
        r == jump_target(visible_places(refs.branches_local@, oids.sorted_aliases@, hidden_names(*hidden), refs.branches_local@.len() as int)
            + visible_places(refs.branches_remote@, oids.sorted_aliases@, hidden_names(*hidden), refs.branches_remote@.len() as int), from, direction),
{
    let sorted = oids.get_sorted_aliases();
    let mut indices: Vec<usize> = Vec::new();
    push_visible_places(&mut indices, &refs.branches_local, sorted, hidden);
    push_visible_places(&mut indices, &refs.branches_remote, sorted, hidden);
    proof {
        assert(indices@ =~= visible_places(refs.branches_local@, oids.sorted_aliases@, hidden_names(*hidden), refs.branches_local@.len() as int)
            + visible_places(refs.branches_remote@, oids.sorted_aliases@, hidden_names(*hidden), refs.branches_remote@.len() as int));
    }
    branch_jump_index(&indices, from, direction)
}

/// Graph row `index`, when it is in the graph order (see `graph_rows`).
pub fn graph_row_at<F: Fn(git2::Oid) -> CommitMetadata>(refs: &GraphRefs, oids: &Oids, worktrees: &Vec<WorktreeEntry>,
    metadata: &mut CommitMetadataCache, load: &F, hidden: &im::HashSet<String>, index: usize) -> (r: Option<GraphRow>)
    requires
        forall|a: int| 0 <= a < oids.by_alias@.len() ==> oid_bytes(#[trigger] oids.by_alias@[a]).len() == 20,
        oid_bytes(oids.zero).len() == 20,
        forall|o: git2::Oid| call_requires(*load, (o,)),
    ensures
        r is None <==> index >= oids.sorted_aliases@.len(),
        r matches Some(row) ==> graph_row_is(row, index as int, *refs, *oids, worktrees@, hidden_names(*hidden)),
        r matches Some(row) ==> (is_uncommitted_row(*oids, row.alias) ==>
            row.summary@.len() == 0 && row.committer_date@.len() == 0 && row.committer_name@.len() == 0),
        r matches Some(row) ==> (!is_uncommitted_row(*oids, row.alias) ==>
            final(metadata).entries@.contains_key(row.alias) && row_texts_are(row, final(metadata).entries@[row.alias])),
        forall|a: u32| #[trigger] old(metadata).entries@.contains_key(a) ==>
            final(metadata).entries@.contains_key(a) && final(metadata).entries@[a] == old(metadata).entries@[a],
        forall|a: u32| #[trigger] final(metadata).entries@.contains_key(a) && !old(metadata).entries@.contains_key(a) ==>
            exists|o: git2::Oid| #[trigger] call_ensures(*load, (o,), final(metadata).entries@[a]) && git2_oid_bytes(o) == alias_oid_bytes(*oids, a),
{
    if index >= oids.get_commit_count() {
        return None;
    }
    let mut rows = graph_rows(refs, oids, worktrees, metadata, load, hidden, index, index + 1);
    let row = rows.remove(0);
    Some(row)
}

/// What a lookup answers: a graph row, a pane row, or a graph row index.
pub enum GraphLookupResult {
    GraphRow(Option<GraphRow>),
    PaneRow(Option<GraphPaneRow>),
    Index(Option<usize>),
}

/// Row `index` of a side pane, if it has that many rows.
pub fn pane_row_at(pane: GraphPane, refs: &GraphRefs, oids: &Oids, index: usize) -> (r: Option<GraphPaneRow>)
    requires
        refs.branches_local@.len() + refs.branches_remote@.len() <= usize::MAX,
    ensures
        r is None <==> index >= pane_total(pane, *refs, *oids),
        r matches Some(row) ==> exists|rows: Seq<GraphPaneRow>| #[trigger] pane_window_is(pane, *refs, *oids, 0, usize::MAX, rows)
            && rows.len() == pane_total(pane, *refs, *oids) && rows[index as int] == row,
{
    let mut rows = pane_rows(pane, refs, oids);
    if index < rows.len() {
        let ghost all = rows@;
        let row = rows.remove(index);
        proof {
            assert(pane_window_is(pane, *refs, *oids, 0, usize::MAX, all));
        }
        Some(row)
    } else {
        None
    }
}

/// Answer a lookup: a graph row, a pane row, the row of a branch jump, of an id prefix, of an
/// id, of the first parent, or of the first child above (each as its own function states).
pub fn lookup<F: Fn(git2::Oid) -> CommitMetadata>(kind: GraphLookupKind, refs: &GraphRefs, oids: &Oids, repo: &gix::Repository,
    worktrees: &Vec<WorktreeEntry>, metadata: &mut CommitMetadataCache, load: &F, hidden: &im::HashSet<String>) -> (r: GraphLookupResult)
    requires
        oids.wf(),
        forall|a: int| 0 <= a < oids.by_alias@.len() ==> oid_bytes(#[trigger] oids.by_alias@[a]).len() == 20,
        oid_bytes(oids.zero).len() == 20,
        forall|o: git2::Oid| call_requires(*load, (o,)),
        refs.branches_local@.len() + refs.branches_remote@.len() <= usize::MAX,
    ensures
        kind matches GraphLookupKind::GraphRowAt { index } ==> r matches GraphLookupResult::GraphRow(row)
            && (row is None <==> index >= oids.sorted_aliases@.len())
            && (row matches Some(g) ==> graph_row_is(g, index as int, *refs, *oids, worktrees@, hidden_names(*hidden))),
        kind matches GraphLookupKind::PaneRowAt { pane, index } ==> r matches GraphLookupResult::PaneRow(row)
            && (row is None <==> index >= pane_total(pane, *refs, *oids))
            && (row matches Some(p) ==> exists|rows: Seq<GraphPaneRow>| #[trigger] pane_window_is(pane, *refs, *oids, 0, usize::MAX, rows)
                && rows.len() == pane_total(pane, *refs, *oids) && rows[index as int] == p),
        kind matches GraphLookupKind::BranchIndex { from, direction } ==> r == GraphLookupResult::Index(jump_target(
            visible_places(refs.branches_local@, oids.sorted_aliases@, hidden_names(*hidden), refs.branches_local@.len() as int)
            + visible_places(refs.branches_remote@, oids.sorted_aliases@, hidden_names(*hidden), refs.branches_remote@.len() as int), from, direction)),
        kind matches GraphLookupKind::Oid { oid } ==> r matches GraphLookupResult::Index(i) && match oids.alias_of(git2_oid_bytes(oid)) {
            Some(a) => i == place_of(oids.sorted_aliases@, a),
            None => i is None,
        },
        kind matches GraphLookupKind::ShaPrefix { prefix } ==> r matches GraphLookupResult::Index(i)
            && ((forall|a: int| 0 <= a < oids.by_alias@.len() ==> !hex_text_starts_with(oid_bytes(#[trigger] oids.by_alias@[a]), prefix@)) ==> i is None)
            && (forall|a: int| #[trigger] is_first_prefix_alias(*oids, prefix@, a) ==> i == place_of(oids.sorted_aliases@, a as u32)),
        kind matches GraphLookupKind::ParentIndex { index } ==> r matches GraphLookupResult::Index(i)
            && (index >= oids.sorted_aliases@.len() ==> i is None),
        kind matches GraphLookupKind::ChildIndex { index } ==> r matches GraphLookupResult::Index(i)
            && (index >= oids.sorted_aliases@.len() ==> i is None) && (i matches Some(c) ==> c < index),
        !(kind is GraphRowAt) ==> final(metadata).entries@ == old(metadata).entries@,
{
    match kind {
        GraphLookupKind::GraphRowAt { index } => GraphLookupResult::GraphRow(graph_row_at(refs, oids, worktrees, metadata, load, hidden, index)),
        GraphLookupKind::PaneRowAt { pane, index } => GraphLookupResult::PaneRow(pane_row_at(pane, refs, oids, index)),
        GraphLookupKind::BranchIndex { from, direction } => GraphLookupResult::Index(branch_index(refs, oids, hidden, from, direction)),
        GraphLookupKind::ShaPrefix { prefix } => GraphLookupResult::Index(graph_index_of_prefix(oids, prefix.as_str())),
        GraphLookupKind::Oid { oid } => {
            let i = graph_index_of_oid(oids, oid);
            GraphLookupResult::Index(i)
        },
        GraphLookupKind::ParentIndex { index } => GraphLookupResult::Index(parent_index(oids, repo, index)),
        GraphLookupKind::ChildIndex { index } => GraphLookupResult::Index(child_index(oids, repo, index)),
    }
}

} // verus!
