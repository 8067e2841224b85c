use vstd::prelude::*;
use std::collections::HashMap;
use crate::batcher::{branch_tips_read, walk_roots, BranchTip, Batcher, WalkedCommit, has_oid};
use crate::branch_visibility::hidden_names;
use crate::git_types::oid_bytes;
use crate::oids::Oids;

verus! {

broadcast use vstd::std_specs::hash::group_hash_axioms;

/// The names of the tips on one side (local or remote) whose id has alias `a` in `oids`, in the
/// order of the first `n` tips.
pub open spec fn tip_names(tips: Seq<BranchTip>, oids: Oids, is_local: bool, a: u32, n: int) -> Seq<Seq<char>>
    decreases n,
{
    if n <= 0 {
        Seq::empty()
    } else if tips[n - 1].is_local == is_local && oids.alias_of(oid_bytes(tips[n - 1].oid)) == Some(a) {
        tip_names(tips, oids, is_local, a, n - 1).push(tips[n - 1].name@)
    } else {
        tip_names(tips, oids, is_local, a, n - 1)
    }
}

/// The names of a map's vector, as text.
pub open spec fn name_texts(v: Seq<String>) -> Seq<Seq<char>> {
    v.map_values(|s: String| s@)
}

/// Whether `map` groups the names `names(a)` under each alias `a` that has any.
pub open spec fn groups_names(map: Map<u32, Vec<String>>, names: spec_fn(u32) -> Seq<Seq<char>>) -> bool {
    forall|a: u32| #![trigger map.contains_key(a)] #![trigger names(a)]
        (map.contains_key(a) <==> names(a).len() > 0) && (map.contains_key(a) ==> name_texts(map[a]@) == names(a))
}

/// Append `name` to the names kept under `alias`, starting a list when there is none.
pub(crate) fn push_name(map: &mut HashMap<u32, Vec<String>>, alias: u32, name: String)
    ensures
        final(map)@.contains_key(alias),
        name_texts(final(map)@[alias]@) == (if old(map)@.contains_key(alias) { name_texts(old(map)@[alias]@) } else { Seq::empty() }).push(name@),
        forall|k: u32| k != alias ==> (#[trigger] final(map)@.contains_key(k)) == old(map)@.contains_key(k),
        forall|k: u32| k != alias && old(map)@.contains_key(k) ==> #[trigger] final(map)@[k] == old(map)@[k],
{
    let mut names = match map.remove(&alias) {
        Some(names) => names,
        None => Vec::new(),
    };
    let ghost before = names@;
    names.push(name);
    assert(name_texts(names@) =~= name_texts(before).push(name@));
    map.insert(alias, names);
}

proof fn lemma_tip_names_kept(tips: Seq<BranchTip>, o1: Oids, o2: Oids, is_local: bool, a: u32, n: int)
    requires
        0 <= n <= tips.len(),
        o1.wf(),
        o2.wf(),
        o1.by_alias@.is_prefix_of(o2.by_alias@),
        forall|k: int| 0 <= k < n ==> (#[trigger] o1.alias_of(oid_bytes(tips[k].oid))) is Some,
    ensures
        tip_names(tips, o1, is_local, a, n) == tip_names(tips, o2, is_local, a, n),
    decreases n,
{
    if n > 0 {
        lemma_tip_names_kept(tips, o1, o2, is_local, a, n - 1);
        crate::batcher::lemma_alias_kept(o1, o2, oid_bytes(tips[n - 1].oid));
    }
}

/// The local and remote tips grouped by the alias of their commit (aliases given in `oids` as
/// needed), and the tips of branches whose name is not hidden, each id once (see `walk_roots`).
pub fn tip_maps_from(tips: &Vec<BranchTip>, oids: &mut Oids, hidden_branch_names: &im::HashSet<String>) -> (r: (HashMap<u32, Vec<String>>, HashMap<u32, Vec<String>>, Vec<gix::ObjectId>))
    requires
        old(oids).wf(),
        old(oids).by_alias@.len() + tips@.len() <= u32::MAX,
    ensures
        final(oids).wf(),
        old(oids).by_alias@.is_prefix_of(final(oids).by_alias@),
        final(oids).sorted_aliases@ == old(oids).sorted_aliases@,
        final(oids).stashes@ == old(oids).stashes@,
        forall|k: int| 0 <= k < tips@.len() ==> (#[trigger] final(oids).alias_of(oid_bytes(tips@[k].oid))) is Some,
        groups_names(r.0@, |a: u32| tip_names(tips@, *final(oids), true, a, tips@.len() as int)),
        groups_names(r.1@, |a: u32| tip_names(tips@, *final(oids), false, a, tips@.len() as int)),
        forall|i: int, j: int| 0 <= i < j < r.2@.len() ==> oid_bytes(#[trigger] r.2@[i]) != oid_bytes(#[trigger] r.2@[j]),
        forall|b: Seq<u8>| #[trigger] has_oid(r.2@, b) <==> exists|k: int| 0 <= k < tips@.len() && oid_bytes(tips@[k].oid) == b && !hidden_names(*hidden_branch_names).contains(tips@[k].name@),
{
    let mut local: HashMap<u32, Vec<String>> = HashMap::new();
    let mut remote: HashMap<u32, Vec<String>> = HashMap::new();
    let ghost start = *oids;
    let mut i: usize = 0;
    while i < tips.len()
        invariant
            i <= tips@.len(),
            oids.wf(),
            start == *old(oids),
            start.by_alias@.is_prefix_of(oids.by_alias@),
            oids.by_alias@.len() <= start.by_alias@.len() + i,
            start.by_alias@.len() + tips@.len() <= u32::MAX,
            oids.sorted_aliases@ == start.sorted_aliases@,
            oids.stashes@ == start.stashes@,
            forall|k: int| 0 <= k < i ==> (#[trigger] oids.alias_of(oid_bytes(tips@[k].oid))) is Some,
            groups_names(local@, |a: u32| tip_names(tips@, *oids, true, a, i as int)),
            groups_names(remote@, |a: u32| tip_names(tips@, *oids, false, a, i as int)),
        decreases tips@.len() - i,
    {
        let tip = &tips[i];
        let ghost before = *oids;
        let alias = oids.get_alias_by_oid(tip.oid);
        proof {
            assert(before.by_alias@.is_prefix_of(oids.by_alias@));
            crate::batcher::lemma_prefix_trans(start.by_alias@, before.by_alias@, oids.by_alias@);
            assert forall|k: int| 0 <= k < i + 1 implies (#[trigger] oids.alias_of(oid_bytes(tips@[k].oid))) is Some by {
                if k < i {
                    crate::batcher::lemma_alias_kept(before, *oids, oid_bytes(tips@[k].oid));
                }
            }
            assert forall|is_local: bool, a: u32| tip_names(tips@, before, is_local, a, i as int) == #[trigger] tip_names(tips@, *oids, is_local, a, i as int) by {
                lemma_tip_names_kept(tips@, before, *oids, is_local, a, i as int);
            }
        }
        let ghost local_before = local@;
        let ghost remote_before = remote@;
        if tip.is_local {
            push_name(&mut local, alias, tip.name.clone());
        } else {
            push_name(&mut remote, alias, tip.name.clone());
        }
        proof {
            assert forall|a: u32| #![trigger local@.contains_key(a)] #![trigger tip_names(tips@, *oids, true, a, i + 1)]
                (local@.contains_key(a) <==> tip_names(tips@, *oids, true, a, i + 1).len() > 0)
                && (local@.contains_key(a) ==> name_texts(local@[a]@) == tip_names(tips@, *oids, true, a, i + 1)) by {
                assert(tip_names(tips@, before, true, a, i as int) == tip_names(tips@, *oids, true, a, i as int));
                assert(local_before.contains_key(a) <==> tip_names(tips@, before, true, a, i as int).len() > 0);
            }
            assert forall|a: u32| #![trigger remote@.contains_key(a)] #![trigger tip_names(tips@, *oids, false, a, i + 1)]
                (remote@.contains_key(a) <==> tip_names(tips@, *oids, false, a, i + 1).len() > 0)
                && (remote@.contains_key(a) ==> name_texts(remote@[a]@) == tip_names(tips@, *oids, false, a, i + 1)) by {
                assert(tip_names(tips@, before, false, a, i as int) == tip_names(tips@, *oids, false, a, i as int));
                assert(remote_before.contains_key(a) <==> tip_names(tips@, before, false, a, i as int).len() > 0);
            }
        }
        i += 1;
    }
    let roots = walk_roots(tips, hidden_branch_names, Vec::new());
    proof {
        assert forall|b: Seq<u8>| !has_oid(Seq::<gix::ObjectId>::empty(), b) by {}
    }
    (local, remote, roots)
}


/// Whether `m` is what `tip_maps_from` gives for `tips` with the aliases of `oids` and the hidden
/// names `hidden`: every tip's commit has an alias, the local and the remote names are grouped by
/// alias, and the visible tips' ids are listed, each once.
pub open spec fn tip_maps_of(tips: Seq<BranchTip>, oids: Oids, hidden: im::HashSet<String>, m: (HashMap<u32, Vec<String>>, HashMap<u32, Vec<String>>, Vec<gix::ObjectId>)) -> bool {
    &&& forall|k: int| 0 <= k < tips.len() ==> (#[trigger] oids.alias_of(oid_bytes(tips[k].oid))) is Some
    &&& groups_names(m.0@, |a: u32| tip_names(tips, oids, true, a, tips.len() as int))
    &&& groups_names(m.1@, |a: u32| tip_names(tips, oids, false, a, tips.len() as int))
    &&& forall|i: int, j: int| 0 <= i < j < m.2@.len() ==> oid_bytes(#[trigger] m.2@[i]) != oid_bytes(#[trigger] m.2@[j])
    &&& forall|b: Seq<u8>| #[trigger] has_oid(m.2@, b) <==> exists|k: int| 0 <= k < tips.len() && oid_bytes(tips[k].oid) == b && !hidden_names(hidden).contains(tips[k].name@)
}

/// Whether `m` is what `tip_maps_from` gives for some branch tips read.
pub open spec fn tip_maps_read(m: (HashMap<u32, Vec<String>>, HashMap<u32, Vec<String>>, Vec<gix::ObjectId>), oids: Oids, hidden: im::HashSet<String>) -> bool {
    exists|tips: Seq<BranchTip>| #[trigger] tip_maps_of(tips, oids, hidden, m)
}

proof fn lemma_tip_named(tips: Seq<BranchTip>, oids: Oids, is_local: bool, a: u32, n: int, k: int)
    requires
        0 <= k < n <= tips.len(),
        tips[k].is_local == is_local,
        oids.alias_of(oid_bytes(tips[k].oid)) == Some(a),
    ensures
        tip_names(tips, oids, is_local, a, n).contains(tips[k].name@),
    decreases n,
{
    if k < n - 1 {
        lemma_tip_named(tips, oids, is_local, a, n - 1, k);
        let prev = tip_names(tips, oids, is_local, a, n - 1);
        let j = choose|j: int| 0 <= j < prev.len() && prev[j] == tips[k].name@;
        if tips[n - 1].is_local == is_local && oids.alias_of(oid_bytes(tips[n - 1].oid)) == Some(a) {
            assert(tip_names(tips, oids, is_local, a, n)[j] == tips[k].name@);
        }
    } else {
        let cur = tip_names(tips, oids, is_local, a, n);
        assert(cur[cur.len() - 1] == tips[k].name@);
    }
}

/// Every branch tip read is grouped: its name is listed under its commit's alias in the map of
/// local branches (a local tip) or of remote branches (a remote-tracking tip), and its commit is a
/// walk root unless its name is hidden.
pub proof fn law_tip_maps_cover_tips(tips: Seq<BranchTip>, oids: Oids, hidden: im::HashSet<String>, m: (HashMap<u32, Vec<String>>, HashMap<u32, Vec<String>>, Vec<gix::ObjectId>), k: int)
    requires
        tip_maps_of(tips, oids, hidden, m),
        0 <= k < tips.len(),
    ensures
        oids.alias_of(oid_bytes(tips[k].oid)) matches Some(a) && {
            let group = if tips[k].is_local { m.0@ } else { m.1@ };
            group.contains_key(a) && name_texts(group[a]@).contains(tips[k].name@)
        },
        !hidden_names(hidden).contains(tips[k].name@) ==> has_oid(m.2@, oid_bytes(tips[k].oid)),
{
    assert(oids.alias_of(oid_bytes(tips[k].oid)) is Some);
    let a = oids.alias_of(oid_bytes(tips[k].oid))->0;
    lemma_tip_named(tips, oids, tips[k].is_local, a, tips.len() as int, k);
    let names = tip_names(tips, oids, tips[k].is_local, a, tips.len() as int);
    assert(names.len() > 0);
    if tips[k].is_local {
        assert(groups_names(m.0@, |b: u32| tip_names(tips, oids, true, b, tips.len() as int)));
        assert((|b: u32| tip_names(tips, oids, true, b, tips.len() as int))(a) == names);
    } else {
        assert(groups_names(m.1@, |b: u32| tip_names(tips, oids, false, b, tips.len() as int)));
        assert((|b: u32| tip_names(tips, oids, false, b, tips.len() as int))(a) == names);
    }
    if !hidden_names(hidden).contains(tips[k].name@) {
        assert(exists|j: int| 0 <= j < tips.len() && oid_bytes(tips[j].oid) == oid_bytes(tips[k].oid) && !hidden_names(hidden).contains(tips[j].name@));
    }
}

/// The local and remote branch tips grouped by the alias of their commit, and the visible walk
/// roots (see `tip_maps_from`), from the tips that `read` gives; `None` when the alias space
/// cannot take that many new ids, and `oids` is then left as it was.
pub fn tip_oids_with<R: FnOnce() -> (Vec<BranchTip>, Option<git2::Error>)>(read: R, oids: &mut Oids, hidden_branch_names: &im::HashSet<String>) -> (r: Option<(HashMap<u32, Vec<String>>, HashMap<u32, Vec<String>>, Vec<gix::ObjectId>)>)
    requires
        old(oids).wf(),
        call_requires(read, ()),
    ensures
        final(oids).wf(),
        old(oids).by_alias@.is_prefix_of(final(oids).by_alias@),
        final(oids).sorted_aliases@ == old(oids).sorted_aliases@,
        final(oids).stashes@ == old(oids).stashes@,
        r is None ==> *final(oids) == *old(oids),
        exists|got: (Vec<BranchTip>, Option<git2::Error>)| #[trigger] call_ensures(read, (), got) && {
            &&& r is None <==> got.0@.len() + old(oids).by_alias@.len() > u32::MAX
            &&& r matches Some(m) ==> tip_maps_of(got.0@, *final(oids), *hidden_branch_names, m)
        },
{
    let got = read();
    let ghost g = got;
    let (tips, _error) = got;
    if tips.len() > 0xFFFF_FFFFusize || oids.by_alias.len() > 0xFFFF_FFFFusize - tips.len() {
        return None;
    }
    let m = tip_maps_from(&tips, oids, hidden_branch_names);
    assert(tip_maps_of(tips@, *oids, *hidden_branch_names, m));
    assert(g.0@ == tips@);
    Some(m)
}

/// The local and remote branch tips grouped by the alias of their commit, and the visible walk
/// roots (see `tip_maps_from`), from the tips that can be read (see `tip_oids_with` and
/// `branch_tips_read`); `None` when the alias space cannot take that many new ids.
pub fn get_tip_oids(repo: &gix::Repository, oids: &mut Oids, hidden_branch_names: &im::HashSet<String>) -> (r: Option<(HashMap<u32, Vec<String>>, HashMap<u32, Vec<String>>, Vec<gix::ObjectId>)>)
    requires
        old(oids).wf(),
    ensures
        final(oids).wf(),
        old(oids).by_alias@.is_prefix_of(final(oids).by_alias@),
        final(oids).sorted_aliases@ == old(oids).sorted_aliases@,
        final(oids).stashes@ == old(oids).stashes@,
        r is None ==> *final(oids) == *old(oids),
        r matches Some(m) ==> tip_maps_read(m, *final(oids), *hidden_branch_names),
{
    tip_oids_with(|| branch_tips_read(repo), oids, hidden_branch_names)
}

/// Pull the next page of at most `amount` commits into the graph order: `scratch` is cleared and
/// then holds the page, whose aliases are appended to `sorted`.
pub fn get_sorted_oids(batcher: &mut Batcher, oids: &mut Oids, sorted: &mut Vec<u32>, amount: usize, scratch: &mut Vec<WalkedCommit>)
    requires
        old(batcher).wf(),
        old(oids).wf(),
    ensures
        final(batcher).wf(),
        final(oids).wf(),
        final(scratch)@.len() <= amount,
        final(sorted)@ == old(sorted)@ + final(scratch)@.map_values(|c: WalkedCommit| c.alias),
        forall|i: int| 0 <= i < final(scratch)@.len() ==> (#[trigger] final(scratch)@[i]).wf(),
        final(scratch)@.len() < amount ==> final(batcher).is_exhausted(),
{
    scratch.clear();
    let fetched = batcher.next_aliased_into(amount, scratch, oids);
    assert(scratch@.take(0) =~= Seq::<WalkedCommit>::empty());
    if fetched == 0 {
        assert(sorted@ =~= old(sorted)@ + scratch@.map_values(|c: WalkedCommit| c.alias));
        return;
    }
    sorted.reserve(fetched);
    let mut i: usize = 0;
    while i < scratch.len()
        invariant
            i <= scratch@.len(),
            sorted@ == old(sorted)@ + scratch@.take(i as int).map_values(|c: WalkedCommit| c.alias),
        decreases scratch@.len() - i,
    {
        sorted.push(scratch[i].alias);
        assert(scratch@.take(i + 1).map_values(|c: WalkedCommit| c.alias) =~= scratch@.take(i as int).map_values(|c: WalkedCommit| c.alias).push(scratch@[i as int].alias));
        i += 1;
    }
    assert(scratch@.take(scratch@.len() as int) =~= scratch@);
}

/// `refs/tags/`, as bytes.
pub open spec fn tag_prefix() -> Seq<u8> {
    seq![114u8, 101, 102, 115, 47, 116, 97, 103, 115, 47]
}

/// A tag reference as read: its full name, the id it peels to, and whether that id names a
/// commit.
pub struct TagTarget {
    pub name: Vec<u8>,
    pub id: Option<gix::ObjectId>,
    pub is_commit: bool,
}

/// Whether a tag reference is shown on a commit: it is under `refs/tags/`, peels to an id, and
/// that id names a commit.
pub open spec fn tag_shown(t: TagTarget) -> bool {
    &&& crate::branch_visibility::has_prefix(t.name@, tag_prefix())
    &&& t.id is Some
    &&& t.is_commit
}

/// The names (lossy UTF-8, without `refs/tags/`) of the first `n` tags shown on the commit with
/// alias `a` in `oids`, in order.
pub open spec fn tag_names(tags: Seq<TagTarget>, oids: Oids, a: u32, n: int) -> Seq<Seq<char>>
    decreases n,
{
    if n <= 0 {
        Seq::empty()
    } else if tag_shown(tags[n - 1]) && oids.alias_of(oid_bytes(tags[n - 1].id->0)) == Some(a) {
        tag_names(tags, oids, a, n - 1).push(crate::reflogs::utf8_lossy(tags[n - 1].name@.subrange(10, tags[n - 1].name@.len() as int)))
    } else {
        tag_names(tags, oids, a, n - 1)
    }
}

/// Whether every shown tag among the first `n` has an alias in `oids`.
pub open spec fn shown_tags_aliased(tags: Seq<TagTarget>, oids: Oids, n: int) -> bool {
    forall|k: int| 0 <= k < n && tag_shown(tags[k]) ==> (#[trigger] oids.alias_of(oid_bytes(tags[k].id->0))) is Some
}

proof fn lemma_tag_names_kept(tags: Seq<TagTarget>, o1: Oids, o2: Oids, a: u32, n: int)
    requires
        0 <= n <= tags.len(),
        o1.wf(),
        o2.wf(),
        o1.by_alias@.is_prefix_of(o2.by_alias@),
        shown_tags_aliased(tags, o1, n),
    ensures
        tag_names(tags, o1, a, n) == tag_names(tags, o2, a, n),
    decreases n,
{
    if n > 0 {
        lemma_tag_names_kept(tags, o1, o2, a, n - 1);
        if tag_shown(tags[n - 1]) {
            crate::batcher::lemma_alias_kept(o1, o2, oid_bytes(tags[n - 1].id->0));
        }
    }
}

/// The shown tags grouped by the alias of their commit (aliases given in `oids` as needed).
pub fn tag_map_from(tags: &Vec<TagTarget>, oids: &mut Oids) -> (r: HashMap<u32, Vec<String>>)
    requires
        old(oids).wf(),
        old(oids).by_alias@.len() + tags@.len() <= u32::MAX,
    ensures
        final(oids).wf(),
        old(oids).by_alias@.is_prefix_of(final(oids).by_alias@),
        final(oids).sorted_aliases@ == old(oids).sorted_aliases@,
        final(oids).stashes@ == old(oids).stashes@,
        shown_tags_aliased(tags@, *final(oids), tags@.len() as int),
        groups_names(r@, |a: u32| tag_names(tags@, *final(oids), a, tags@.len() as int)),
{
    let mut map: HashMap<u32, Vec<String>> = HashMap::new();
    let prefix: [u8; 10] = [114, 101, 102, 115, 47, 116, 97, 103, 115, 47];
    assert(prefix@ =~= tag_prefix());
    let ghost start = *oids;
    let mut i: usize = 0;
    while i < tags.len()
        invariant
            i <= tags@.len(),
            prefix@ == tag_prefix(),
            oids.wf(),
            start == *old(oids),
            start.by_alias@.is_prefix_of(oids.by_alias@),
            oids.by_alias@.len() <= start.by_alias@.len() + i,
            start.by_alias@.len() + tags@.len() <= u32::MAX,
            oids.sorted_aliases@ == start.sorted_aliases@,
            oids.stashes@ == start.stashes@,
            shown_tags_aliased(tags@, *oids, i as int),
            groups_names(map@, |a: u32| tag_names(tags@, *oids, a, i as int)),
        decreases tags@.len() - i,
    {
        let tag = &tags[i];
        let ghost before = *oids;
        let ghost map_before = map@;
        if crate::branch_visibility::starts_with(tag.name.as_slice(), prefix.as_slice()) && tag.is_commit {
            if let Some(id) = tag.id {
                let suffix = vstd::slice::slice_subrange(tag.name.as_slice(), 10, tag.name.len());
                let mut bytes: Vec<u8> = Vec::new();
                let mut k: usize = 0;
                while k < suffix.len()
                    invariant
                        k <= suffix@.len(),
                        bytes@ == suffix@.subrange(0, k as int),
                    decreases suffix@.len() - k,
                {
                    bytes.push(suffix[k]);
                    k += 1;
                }
                assert(bytes@ =~= tag.name@.subrange(10, tag.name@.len() as int));
                let name = crate::reflogs::lossy_string(&bytes);
                let alias = oids.get_alias_by_oid(id);
                proof {
                    crate::batcher::lemma_prefix_trans(start.by_alias@, before.by_alias@, oids.by_alias@);
                    assert forall|j: int| 0 <= j < i + 1 && tag_shown(tags@[j]) implies (#[trigger] oids.alias_of(oid_bytes(tags@[j].id->0))) is Some by {
                        if j < i {
                            crate::batcher::lemma_alias_kept(before, *oids, oid_bytes(tags@[j].id->0));
                        }
                    }
                    assert forall|a: u32| tag_names(tags@, before, a, i as int) == #[trigger] tag_names(tags@, *oids, a, i as int) by {
                        lemma_tag_names_kept(tags@, before, *oids, a, i as int);
                    }
                }
                push_name(&mut map, alias, name);
                proof {
                    assert forall|a: u32| #![trigger map@.contains_key(a)] #![trigger tag_names(tags@, *oids, a, i + 1)]
                        (map@.contains_key(a) <==> tag_names(tags@, *oids, a, i + 1).len() > 0)
                        && (map@.contains_key(a) ==> name_texts(map@[a]@) == tag_names(tags@, *oids, a, i + 1)) by {
                        assert(tag_names(tags@, before, a, i as int) == tag_names(tags@, *oids, a, i as int));
                        assert(map_before.contains_key(a) <==> tag_names(tags@, before, a, i as int).len() > 0);
                    }
                }
            }
        }
        i += 1;
    }
    map
}

/// `Platform::tags` then `peeled`: each tag reference that can be read, with its full name, the
/// id it peels to, and whether `objects.header` of that id reports a commit; none when the
/// references cannot be listed. What is on disk decides, so nothing is stated.
#[verifier::external_body]
fn tag_targets(repo: &gix::Repository) -> Vec<TagTarget> {
    let Ok(references) = repo.references() else { return Vec::new() };
    let Ok(tags) = references.tags() else { return Vec::new() };
    let Ok(tags) = tags.peeled() else { return Vec::new() };
    tags.flatten().map(|reference| {
        let id = reference.try_id().map(|id| id.detach());
        let is_commit = id.is_some_and(|id| gix::prelude::HeaderExt::header(&repo.objects, id).is_ok_and(|h| h.kind() == gix::object::Kind::Commit));
        TagTarget { name: reference.name().as_bstr().to_vec(), id, is_commit }
    }).collect()
}

/// The tags that `read` gives, those that point at commits grouped by the alias of their commit
/// (see `tag_map_from`); `None` when the alias space cannot take that many new ids, and `oids` is
/// then left as it was.
pub fn tag_oids_with<R: FnOnce() -> Vec<TagTarget>>(read: R, oids: &mut Oids) -> (r: Option<HashMap<u32, Vec<String>>>)
    requires
        old(oids).wf(),
        call_requires(read, ()),
    ensures
        final(oids).wf(),
        old(oids).by_alias@.is_prefix_of(final(oids).by_alias@),
        final(oids).sorted_aliases@ == old(oids).sorted_aliases@,
        final(oids).stashes@ == old(oids).stashes@,
        r is None ==> *final(oids) == *old(oids),
        exists|tags: Vec<TagTarget>| #[trigger] call_ensures(read, (), tags) && {
            &&& r is None <==> tags@.len() + old(oids).by_alias@.len() > u32::MAX
            &&& r matches Some(m) ==> tag_map_of(tags@, *final(oids), m)
        },
{
    let tags = read();
    if tags.len() > 0xFFFF_FFFFusize || oids.by_alias.len() > 0xFFFF_FFFFusize - tags.len() {
        return None;
    }
    let m = tag_map_from(&tags, oids);
    assert(tag_map_of(tags@, *oids, m));
    Some(m)
}

/// The tags that point at commits, grouped by the alias of their commit (see `tag_oids_with`
/// and `tag_map_from`); `None` when the alias space cannot take that many new ids.
pub fn get_tag_oids(repo: &gix::Repository, oids: &mut Oids) -> (r: Option<HashMap<u32, Vec<String>>>)
    requires
        old(oids).wf(),
    ensures
        final(oids).wf(),
        old(oids).by_alias@.is_prefix_of(final(oids).by_alias@),
        final(oids).sorted_aliases@ == old(oids).sorted_aliases@,
        final(oids).stashes@ == old(oids).stashes@,
        r is None ==> *final(oids) == *old(oids),
        r matches Some(m) ==> tag_map_read(m, *final(oids)),
{
    tag_oids_with(|| tag_targets(repo), oids)
}

/// Whether `m` is what `tag_map_from` gives for `tags` with the aliases of `oids`: every shown
/// tag's commit has an alias, and the shown tags' names are grouped by alias.
pub open spec fn tag_map_of(tags: Seq<TagTarget>, oids: Oids, m: HashMap<u32, Vec<String>>) -> bool {
    &&& shown_tags_aliased(tags, oids, tags.len() as int)
    &&& groups_names(m@, |a: u32| tag_names(tags, oids, a, tags.len() as int))
}

/// Whether `m` is what `tag_map_from` gives for some tag references read.
pub open spec fn tag_map_read(m: HashMap<u32, Vec<String>>, oids: Oids) -> bool {
    exists|tags: Seq<TagTarget>| #[trigger] tag_map_of(tags, oids, m)
}


/// `try_find_reference(name)`, its `log_iter` and `rev`: the new id of each line of the
/// reference's log, newest first, `None` for a line that cannot be read; empty where the
/// reference or its log is missing. What is on disk decides, so nothing is stated.
#[verifier::external_body]
fn reflog_line_ids(repo: &gix::Repository, name: &str) -> Vec<Option<gix::ObjectId>> {
    let Some(reference) = repo.try_find_reference(name).ok().flatten() else { return Vec::new() };
    let mut log_iter = reference.log_iter();
    let Some(lines) = log_iter.rev().ok().flatten() else { return Vec::new() };
    lines.map(|line| line.ok().map(|line| line.new_oid)).collect()
}

/// The ids of the readable lines among the first `n`, in order.
pub open spec fn readable_ids(lines: Seq<Option<gix::ObjectId>>, n: int) -> Seq<gix::ObjectId>
    decreases n,
{
    if n <= 0 {
        Seq::empty()
    } else if lines[n - 1] is Some {
        readable_ids(lines, n - 1).push(lines[n - 1]->0)
    } else {
        readable_ids(lines, n - 1)
    }
}

/// The aliases (given in `oids` as needed) of the readable stash lines, in order.
pub fn stash_aliases_from(lines: &Vec<Option<gix::ObjectId>>, oids: &mut Oids) -> (r: Vec<u32>)
    requires
        old(oids).wf(),
        old(oids).by_alias@.len() + lines@.len() <= u32::MAX,
    ensures
        final(oids).wf(),
        old(oids).by_alias@.is_prefix_of(final(oids).by_alias@),
        final(oids).sorted_aliases@ == old(oids).sorted_aliases@,
        final(oids).stashes@ == old(oids).stashes@,
        r@.len() == readable_ids(lines@, lines@.len() as int).len(),
        forall|j: int| 0 <= j < r@.len() ==> final(oids).alias_of(oid_bytes(readable_ids(lines@, lines@.len() as int)[j])) == Some(#[trigger] r@[j]),
{
    let mut out: Vec<u32> = Vec::new();
    let ghost start = *oids;
    let mut i: usize = 0;
    while i < lines.len()
        invariant
            i <= lines@.len(),
            oids.wf(),
            start == *old(oids),
            start.by_alias@.is_prefix_of(oids.by_alias@),
            oids.by_alias@.len() <= start.by_alias@.len() + i,
            start.by_alias@.len() + lines@.len() <= u32::MAX,
            oids.sorted_aliases@ == start.sorted_aliases@,
            oids.stashes@ == start.stashes@,
            out@.len() == readable_ids(lines@, i as int).len(),
            forall|j: int| 0 <= j < out@.len() ==> oids.alias_of(oid_bytes(readable_ids(lines@, i as int)[j])) == Some(#[trigger] out@[j]),
        decreases lines@.len() - i,
    {
        if let Some(id) = lines[i] {
            let ghost before = *oids;
            let ghost out_before = out@;
            let alias = oids.get_alias_by_oid(id);
            out.push(alias);
            proof {
                crate::batcher::lemma_prefix_trans(start.by_alias@, before.by_alias@, oids.by_alias@);
                assert forall|j: int| 0 <= j < out@.len() implies oids.alias_of(oid_bytes(readable_ids(lines@, i + 1)[j])) == Some(#[trigger] out@[j]) by {
                    if j < out_before.len() {
                        assert(out@[j] == out_before[j]);
                        crate::batcher::lemma_alias_kept(before, *oids, oid_bytes(readable_ids(lines@, i as int)[j]));
                    }
                }
            }
        }
        i += 1;
    }
    out
}

/// Whether `v` is what `stash_aliases_from` gives for the stash lines `lines`: the aliases in
/// `oids` of the readable lines' ids, in order.
pub open spec fn stash_aliases_of(lines: Seq<Option<gix::ObjectId>>, oids: Oids, v: Seq<u32>) -> bool {
    &&& v.len() == readable_ids(lines, lines.len() as int).len()
    &&& forall|j: int| 0 <= j < v.len() ==> oids.alias_of(oid_bytes(readable_ids(lines, lines.len() as int)[j])) == Some(#[trigger] v[j])
}

/// Whether `v` is what `stash_aliases_from` gives for some stash lines read.
pub open spec fn stash_aliases_read(v: Seq<u32>, oids: Oids) -> bool {
    exists|lines: Seq<Option<gix::ObjectId>>| #[trigger] stash_aliases_of(lines, oids, v)
}

/// The aliases of the stashes whose reflog lines `read` gives, newest first (see
/// `stash_aliases_from`); `None` when the alias space cannot take that many new ids, and `oids`
/// is then left as it was.
pub fn stash_commits_with<R: FnOnce() -> Vec<Option<gix::ObjectId>>>(read: R, oids: &mut Oids) -> (r: Option<Vec<u32>>)
    requires
        old(oids).wf(),
        call_requires(read, ()),
    ensures
        final(oids).wf(),
        old(oids).by_alias@.is_prefix_of(final(oids).by_alias@),
        final(oids).sorted_aliases@ == old(oids).sorted_aliases@,
        final(oids).stashes@ == old(oids).stashes@,
        r is None ==> *final(oids) == *old(oids),
        exists|lines: Vec<Option<gix::ObjectId>>| #[trigger] call_ensures(read, (), lines) && {
            &&& r is None <==> lines@.len() + old(oids).by_alias@.len() > u32::MAX
            &&& r matches Some(v) ==> stash_aliases_of(lines@, *final(oids), v@)
        },
{
    let lines = read();
    if lines.len() > 0xFFFF_FFFFusize || oids.by_alias.len() > 0xFFFF_FFFFusize - lines.len() {
        return None;
    }
    let v = stash_aliases_from(&lines, oids);
    assert(stash_aliases_of(lines@, *oids, v@));
    Some(v)
}

/// The aliases of the stashes, newest first (see `stash_commits_with` and
/// `stash_aliases_from`); `None` when the alias space cannot take that many new ids.
pub fn get_stashed_commits(repo: &gix::Repository, oids: &mut Oids) -> (r: Option<Vec<u32>>)
    requires
        old(oids).wf(),
    ensures
        final(oids).wf(),
        old(oids).by_alias@.is_prefix_of(final(oids).by_alias@),
        final(oids).sorted_aliases@ == old(oids).sorted_aliases@,
        final(oids).stashes@ == old(oids).stashes@,
        r is None ==> *final(oids) == *old(oids),
        r matches Some(v) ==> stash_aliases_read(v@, *final(oids)),
{
    stash_commits_with(|| reflog_line_ids(repo, "refs/stash"), oids)
}

/// `Repository::head`, then `Reference::is_branch` and `shorthand` as text; `None` when HEAD
/// cannot be read. What is on disk decides, so nothing is stated.
#[verifier::external_body]
fn git2_head_shorthand(repo: &git2::Repository) -> Option<(bool, Option<String>)> {
    let head = repo.head().ok()?;
    Some((head.is_branch(), head.shorthand().ok().map(|name| name.to_string())))
}

/// The branch name a read of HEAD gives: its short name where HEAD was read and is a branch
/// whose short name is UTF-8, else `None`.
pub fn current_branch_from_head(head: Option<(bool, Option<String>)>) -> (r: Option<String>)
    ensures
        r == match head {
            Some((true, name)) => name,
            _ => None,
        },
{
    match head {
        Some((true, name)) => name,
        _ => None,
    }
}

/// The checked-out branch's short name; `None` when HEAD is detached, unreadable, or not UTF-8
/// (see `current_branch_from_head`).
pub fn get_current_branch(repo: &git2::Repository) -> Option<String> {
    current_branch_from_head(git2_head_shorthand(repo))
}

/// `Repository::config`. What is configured decides, so nothing is stated.
#[verifier::external_body]
fn git2_config(repo: &git2::Repository) -> Result<git2::Config, git2::Error> {
    repo.config()
}

/// `Config::get_string(key).ok()`. What is configured decides, so nothing is stated.
#[verifier::external_body]
fn git2_config_string(config: &git2::Config, key: &str) -> Option<String> {
    config.get_string(key).ok()
}

/// The configured `user.name` and `user.email`; an error when the configuration cannot be read.
pub fn get_git_user_info(repo: &git2::Repository) -> Result<(Option<String>, Option<String>), git2::Error> {
    let config = match git2_config(repo) {
        Ok(config) => config,
        Err(e) => {
            return Err(e);
        },
    };
    let name = git2_config_string(&config, "user.name");
    let email = git2_config_string(&config, "user.email");
    Ok((name, email))
}

/// The `user.name` and `user.email` configured for the repository at `path` (as UTF-8 text); an
/// error when it cannot be opened.
pub fn get_git_user_info_from_path(path: &str) -> Result<(Option<String>, Option<String>), git2::Error> {
    let repo = match crate::git_types::open_repo(path) {
        Ok(repo) => repo,
        Err(e) => {
            return Err(e);
        },
    };
    let name = crate::remotes::config_text(&repo, "user.name");
    let email = crate::remotes::config_text(&repo, "user.email");
    Ok((name, email))
}

} // verus!
