use vstd::prelude::*;
use vstd::utf8::valid_utf8;
use vstd::string::StringSliceAdditionalSpecFns;
use vstd::string::StringExecFns;
use crate::text::{chars_lt, lemma_seq_lt_asym, lemma_seq_lt_trans, seq_lt, str_chars};

verus! {

broadcast use vstd::seq_lib::group_to_multiset_ensures;

#[verifier::external_type_specification]
#[verifier::external_body]
#[verifier::reject_recursive_types(A)]
#[verifier::reject_recursive_types(S)]
pub struct ExImHashSet<A, S>(im::HashSet<A, S>);

/// The names held by a persistent set of branch names.
pub uninterp spec fn hidden_names(s: im::HashSet<String>) -> Set<Seq<char>>;

/// `im::HashSet::contains`: whether `name` is one of the set's names.
#[verifier::external_body]
pub(crate) fn hidden_contains(set: &im::HashSet<String>, name: &str) -> (r: bool)
    ensures
        r == hidden_names(*set).contains(name@),
{
    set.contains(name)
}

/// `im::HashSet::new`: the empty set.
#[verifier::external_body]
pub(crate) fn hidden_new() -> (s: im::HashSet<String>)
    ensures
        hidden_names(s) == Set::<Seq<char>>::empty(),
{
    im::HashSet::new()
}

/// `im::HashSet::insert`: adds `name`; the other names stay.
#[verifier::external_body]
pub(crate) fn hidden_insert(set: &mut im::HashSet<String>, name: String)
    ensures
        hidden_names(*final(set)) == hidden_names(*old(set)).insert(name@),
{
    set.insert(name);
}

/// `im::HashSet::remove`: drops `name`; the other names stay.
#[verifier::external_body]
pub(crate) fn hidden_remove(set: &mut im::HashSet<String>, name: &str)
    ensures
        hidden_names(*final(set)) == hidden_names(*old(set)).remove(name@),
{
    set.remove(name);
}

/// `im::HashSet::iter`, cloned into a vector: every name of the set exactly once, in the
/// set's own iteration order, which this contract leaves open.
#[verifier::external_body]
pub(crate) fn hidden_to_vec(set: &im::HashSet<String>) -> (v: Vec<String>)
    ensures
        v@.map_values(|s: String| s@).to_set() == hidden_names(*set),
        v@.map_values(|s: String| s@).no_duplicates(),
{
    set.iter().cloned().collect()
}

/// `ByteSlice::to_str` (bstr, through gix): the bytes read as text, exactly when they are
/// valid UTF-8.
#[verifier::external_body]
pub(crate) fn bytes_as_str(bytes: &[u8]) -> (r: Option<&str>)
    ensures
        r is Some <==> valid_utf8(bytes@),
        r matches Some(s) ==> s.spec_bytes() == bytes@,
{
    gix::bstr::ByteSlice::to_str(bytes).ok()
}

pub open spec fn local_branch_prefix() -> Seq<u8> {
    // "refs/heads/"
    seq![114u8, 101, 102, 115, 47, 104, 101, 97, 100, 115, 47]
}

pub open spec fn remote_branch_prefix() -> Seq<u8> {
    // "refs/remotes/"
    seq![114u8, 101, 102, 115, 47, 114, 101, 109, 111, 116, 101, 115, 47]
}

pub open spec fn has_prefix(name: Seq<u8>, prefix: Seq<u8>) -> bool {
    prefix.len() <= name.len() && name.subrange(0, prefix.len() as int) == prefix
}

/// The part of a reference name after `refs/heads/` or, failing that, `refs/remotes/`.
pub open spec fn branch_suffix(name: Seq<u8>) -> Option<Seq<u8>> {
    if has_prefix(name, local_branch_prefix()) {
        Some(name.subrange(local_branch_prefix().len() as int, name.len() as int))
    } else if has_prefix(name, remote_branch_prefix()) {
        Some(name.subrange(remote_branch_prefix().len() as int, name.len() as int))
    } else {
        None
    }
}

/// Whether a reference name names a branch: a non-empty, valid UTF-8 suffix.
pub open spec fn names_branch(name: Seq<u8>) -> bool {
    &&& branch_suffix(name) is Some
    &&& branch_suffix(name)->0.len() > 0
    &&& valid_utf8(branch_suffix(name)->0)
}

pub(crate) fn starts_with(name: &[u8], prefix: &[u8]) -> (b: bool)
    ensures
        b == has_prefix(name@, prefix@),
{
    if prefix.len() > name.len() {
        return false;
    }
    let mut i: usize = 0;
    while i < prefix.len()
        invariant
            prefix.len() <= name.len(),
            i <= prefix.len(),
            forall|k: int| 0 <= k < i ==> name@[k] == prefix@[k],
        decreases prefix.len() - i,
    {
        if name[i] != prefix[i] {
            assert(name@.subrange(0, prefix@.len() as int)[i as int] != prefix@[i as int]);
            return false;
        }
        i = i + 1;
    }
    assert(name@.subrange(0, prefix@.len() as int) =~= prefix@);
    true
}

/// The branch name that a full reference name carries: what follows `refs/heads/` or
/// `refs/remotes/`, when that is non-empty and valid UTF-8.
pub fn branch_name_from_ref(name: &[u8]) -> (r: Option<&str>)
    ensures
        r is Some <==> names_branch(name@),
        r matches Some(s) ==> s.spec_bytes() == branch_suffix(name@)->0,
{
    let local: [u8; 11] = [114, 101, 102, 115, 47, 104, 101, 97, 100, 115, 47];
    let remote: [u8; 13] = [114, 101, 102, 115, 47, 114, 101, 109, 111, 116, 101, 115, 47];
    proof {
        assert(local@ =~= local_branch_prefix());
        assert(remote@ =~= remote_branch_prefix());
    }
    let start: usize;
    if starts_with(name, local.as_slice()) {
        start = 11;
    } else if starts_with(name, remote.as_slice()) {
        start = 13;
    } else {
        return None;
    }
    let rest = vstd::slice::slice_subrange(name, start, name.len());
    assert(rest@ == branch_suffix(name@)->0);
    if rest.len() == 0 {
        return None;
    }
    bytes_as_str(rest)
}


/// The branches hidden in one repository.
#[derive(Clone)]
pub struct RepositoryBranchVisibility {
    pub path: String,
    pub hidden: Vec<String>,
}

/// The hidden branches of every repository that has some.
#[derive(Clone)]
pub struct BranchVisibilityConfig {
    pub repositories: Vec<RepositoryBranchVisibility>,
}

impl BranchVisibilityConfig {
    /// No repository.
    pub fn new() -> (c: BranchVisibilityConfig)
        ensures
            c.repositories@.len() == 0,
    {
        BranchVisibilityConfig { repositories: Vec::new() }
    }
}

/// Whether `n` is one of the first `i` names of `views`.
pub open spec fn among_first(views: Seq<Seq<char>>, i: int, n: Seq<char>) -> bool {
    exists|k: int| 0 <= k < i && #[trigger] views[k] == n
}

/// Keep only the hidden names that are current branch names; true when some were dropped.
pub fn prune_hidden_branches(hidden: &mut im::HashSet<String>, current: &im::HashSet<String>) -> (changed: bool)
    ensures
        hidden_names(*final(hidden)) == hidden_names(*old(hidden)).filter(|n: Seq<char>| hidden_names(*current).contains(n)),
        changed == exists|n: Seq<char>| #[trigger] hidden_names(*old(hidden)).contains(n) && !hidden_names(*current).contains(n),
{
    let names = hidden_to_vec(hidden);
    let ghost views = names@.map_values(|s: String| s@);
    let mut pruned = hidden_new();
    let mut changed = false;
    let mut i: usize = 0;
    while i < names.len()
        invariant
            i <= names@.len(),
            views == names@.map_values(|s: String| s@),
            views.to_set() == hidden_names(*old(hidden)),
            forall|n: Seq<char>| #[trigger] hidden_names(pruned).contains(n) <==> (among_first(views, i as int, n) && hidden_names(*current).contains(n)),
            changed == exists|k: int| 0 <= k < i && !hidden_names(*current).contains(#[trigger] views[k]),
        decreases names@.len() - i,
    {
        let name = names[i].clone();
        assert(views[i as int] == name@);
        if hidden_contains(current, name.as_str()) {
            hidden_insert(&mut pruned, name);
        } else {
            changed = true;
        }
        proof {
            assert forall|n: Seq<char>| #[trigger] among_first(views, i + 1, n) <==> (among_first(views, i as int, n) || n == views[i as int]) by {
                if among_first(views, i + 1, n) {
                    let k = choose|k: int| 0 <= k < i + 1 && #[trigger] views[k] == n;
                    if k < i {
                        assert(among_first(views, i as int, n));
                    }
                }
                if n == views[i as int] {
                    assert(views[i as int] == n);
                }
            }
        }
        i += 1;
    }
    proof {
        assert forall|n: Seq<char>| #[trigger] views.to_set().contains(n) <==> among_first(views, views.len() as int, n) by {
            if views.to_set().contains(n) {
                let k = choose|k: int| 0 <= k < views.len() && views[k] == n;
                assert(views[k] == n);
            }
            if among_first(views, views.len() as int, n) {
                let k = choose|k: int| 0 <= k < views.len() && #[trigger] views[k] == n;
                assert(views.contains(n));
            }
        }
    }
    assert(hidden_names(pruned) =~= hidden_names(*old(hidden)).filter(|n: Seq<char>| hidden_names(*current).contains(n)));
    proof {
        if changed {
            let k = choose|k: int| 0 <= k < names@.len() && !hidden_names(*current).contains(#[trigger] views[k]);
            assert(views.to_set().contains(views[k]));
        }
        if exists|n: Seq<char>| #[trigger] hidden_names(*old(hidden)).contains(n) && !hidden_names(*current).contains(n) {
            let n = choose|n: Seq<char>| #[trigger] hidden_names(*old(hidden)).contains(n) && !hidden_names(*current).contains(n);
            assert(views.to_set().contains(n));
            let k = choose|k: int| 0 <= k < views.len() && views[k] == n;
            assert(!hidden_names(*current).contains(views[k]));
        }
    }
    *hidden = pruned;
    changed
}

/// The branch names among the reference names `refs` (see `branch_name_from_ref`).
pub open spec fn branch_names_of(refs: Seq<Seq<u8>>) -> Set<Seq<char>> {
    Set::new(|n: Seq<char>| exists|k: int| 0 <= k < refs.len() && #[trigger] names_branch(refs[k]) && vstd::utf8::encode_utf8(n) == branch_suffix(refs[k])->0)
}

/// The branch names among reference names.
pub fn branch_names_from_refs(refs: &Vec<Vec<u8>>) -> (names: im::HashSet<String>)
    ensures
        forall|n: Seq<char>| #[trigger] hidden_names(names).contains(n) <==> exists|k: int| 0 <= k < refs@.len() && names_branch(refs@[k]@) && vstd::utf8::encode_utf8(n) == branch_suffix(refs@[k]@)->0,
{
    let mut names = hidden_new();
    let mut i: usize = 0;
    while i < refs.len()
        invariant
            i <= refs@.len(),
            forall|n: Seq<char>| #[trigger] hidden_names(names).contains(n) <==> exists|k: int| 0 <= k < i && names_branch(refs@[k]@) && vstd::utf8::encode_utf8(n) == branch_suffix(refs@[k]@)->0,
        decreases refs@.len() - i,
    {
        let ghost before = hidden_names(names);
        let found = branch_name_from_ref(refs[i].as_slice());
        if let Some(name) = found {
            let text = String::from_str(name);
            hidden_insert(&mut names, text);
        }
        proof {
            assert forall|n: Seq<char>| #[trigger] hidden_names(names).contains(n) <==> exists|k: int| 0 <= k < i + 1 && names_branch(refs@[k]@) && vstd::utf8::encode_utf8(n) == branch_suffix(refs@[k]@)->0 by {
                if exists|k: int| 0 <= k < i + 1 && names_branch(refs@[k]@) && vstd::utf8::encode_utf8(n) == branch_suffix(refs@[k]@)->0 {
                    let k = choose|k: int| 0 <= k < i + 1 && names_branch(refs@[k]@) && vstd::utf8::encode_utf8(n) == branch_suffix(refs@[k]@)->0;
                    if k == i {
                        let s = found->0;
                        vstd::utf8::encode_utf8_decode_utf8(n);
                        vstd::utf8::encode_utf8_decode_utf8(s@);
                        assert(n == s@);
                    } else {
                        assert(before.contains(n));
                    }
                }
                if hidden_names(names).contains(n) && !before.contains(n) {
                    let s = found->0;
                    assert(n == s@);
                    assert(names_branch(refs@[i as int]@) && vstd::utf8::encode_utf8(n) == branch_suffix(refs@[i as int]@)->0);
                }
            }
        }
        i += 1;
    }
    names
}


/// Names in strictly increasing order: sorted, with no name twice.
pub open spec fn strictly_increasing(v: Seq<String>) -> bool {
    forall|i: int, j: int| 0 <= i < j < v.len() ==> seq_lt((#[trigger] v[i])@, (#[trigger] v[j])@)
}

/// Names in non-decreasing order.
pub open spec fn non_decreasing(v: Seq<String>) -> bool {
    forall|i: int, j: int| 0 <= i < j < v.len() ==> !seq_lt((#[trigger] v[j])@, (#[trigger] v[i])@)
}

/// The names ordered by their characters (selection of the first least name each round).
fn sort_names(names: Vec<String>) -> (r: Vec<String>)
    ensures
        r@.to_multiset() == names@.to_multiset(),
        non_decreasing(r@),
{
    let mut rest = names;
    let mut out: Vec<String> = Vec::new();
    while rest.len() > 0
        invariant
            out@.to_multiset().add(rest@.to_multiset()) == names@.to_multiset(),
            non_decreasing(out@),
            forall|i: int, j: int| 0 <= i < out@.len() && 0 <= j < rest@.len() ==> !seq_lt((#[trigger] rest@[j])@, (#[trigger] out@[i])@),
        decreases rest@.len(),
    {
        let mut best: usize = 0;
        let mut best_chars = str_chars(rest[0].as_str());
        let mut k: usize = 1;
        proof {
            lemma_seq_lt_asym(rest@[0]@, rest@[0]@);
        }
        while k < rest.len()
            invariant
                0 <= best < rest@.len(),
                k <= rest@.len(),
                best_chars@ == rest@[best as int]@,
                forall|j: int| 0 <= j < k ==> !seq_lt((#[trigger] rest@[j])@, rest@[best as int]@),
            decreases rest@.len() - k,
        {
            let chars = str_chars(rest[k].as_str());
            if chars_lt(&chars, &best_chars) {
                proof {
                    assert forall|j: int| 0 <= j < k + 1 implies !seq_lt((#[trigger] rest@[j])@, rest@[k as int]@) by {
                        lemma_seq_lt_asym(rest@[j]@, rest@[k as int]@);
                        if j < k && seq_lt(rest@[j]@, rest@[k as int]@) {
                            lemma_seq_lt_trans(rest@[j]@, rest@[k as int]@, rest@[best as int]@);
                        }
                    }
                }
                best = k;
                best_chars = chars;
            } else {
                proof {
                    lemma_seq_lt_asym(rest@[k as int]@, rest@[best as int]@);
                }
            }
            k += 1;
        }
        let ghost before_rest = rest@;
        let ghost before_out = out@;
        let name = rest.remove(best);
        proof {
            assert(before_rest.remove(best as int).to_multiset() =~= before_rest.to_multiset().remove(name));
            assert(out@.push(name).to_multiset() =~= out@.to_multiset().insert(name));
        }
        out.push(name);
        proof {
            assert forall|i: int, j: int| 0 <= i < out@.len() && 0 <= j < rest@.len() implies !seq_lt((#[trigger] rest@[j])@, (#[trigger] out@[i])@) by {
                let jj = if j < best { j } else { j + 1 };
                assert(rest@[j] == before_rest[jj]);
                if i < before_out.len() {
                    assert(out@[i] == before_out[i]);
                }
            }
            assert forall|i: int, j: int| 0 <= i < j < out@.len() implies !seq_lt((#[trigger] out@[j])@, (#[trigger] out@[i])@) by {
                if j < before_out.len() {
                    assert(out@[i] == before_out[i] && out@[j] == before_out[j]);
                } else {
                    assert(out@[i] == before_out[i]);
                    assert(out@[j] == before_rest[best as int]);
                }
            }
        }
    }
    assert(rest@.to_multiset() =~= vstd::multiset::Multiset::empty());
    out
}

/// The characters of each name.
pub open spec fn name_views(v: Seq<String>) -> Seq<Seq<char>> {
    v.map_values(|s: String| s@)
}

/// Drops each name equal to the one before it, so that a non-decreasing list becomes strictly
/// increasing with the same names.
fn dedup_sorted(names: Vec<String>) -> (r: Vec<String>)
    requires
        non_decreasing(names@),
    ensures
        strictly_increasing(r@),
        forall|n: Seq<char>| #[trigger] name_views(r@).contains(n) <==> name_views(names@).contains(n),
{
    let mut out: Vec<String> = Vec::new();
    let mut i: usize = 0;
    while i < names.len()
        invariant
            i <= names@.len(),
            non_decreasing(names@),
            strictly_increasing(out@),
            out@.len() > 0 <==> i > 0,
            i > 0 ==> out@.last()@ == names@[i - 1]@,
            forall|n: Seq<char>| #[trigger] name_views(out@).contains(n) <==> among_first(name_views(names@), i as int, n),
        decreases names@.len() - i,
    {
        let keep = if out.len() == 0 {
            true
        } else {
            let last = out.len() - 1;
            let a = str_chars(out[last].as_str());
            let b = str_chars(names[i].as_str());
            chars_lt(&a, &b)
        };
        let ghost before = out@;
        proof {
            assert forall|n: Seq<char>| #[trigger] among_first(name_views(names@), i + 1, n) <==> (among_first(name_views(names@), i as int, n) || n == names@[i as int]@) by {
                if among_first(name_views(names@), i + 1, n) {
                    let k = choose|k: int| 0 <= k < i + 1 && #[trigger] name_views(names@)[k] == n;
                    if k < i {
                        assert(name_views(names@)[k] == n);
                    }
                }
                if n == names@[i as int]@ {
                    assert(name_views(names@)[i as int] == n);
                }
            }
        }
        if keep {
            out.push(names[i].clone());
            proof {
                assert forall|k: int, j: int| 0 <= k < j < out@.len() implies seq_lt((#[trigger] out@[k])@, (#[trigger] out@[j])@) by {
                    if j == out@.len() - 1 {
                        assert(out@[k] == before[k]);
                        if k < j - 1 {
                            assert(out@[j - 1] == before[j - 1]);
                            lemma_seq_lt_trans(before[k]@, before[j - 1]@, out@[j]@);
                        }
                    } else {
                        assert(out@[k] == before[k] && out@[j] == before[j]);
                    }
                }
                assert forall|n: Seq<char>| #[trigger] name_views(out@).contains(n) <==> (name_views(before).contains(n) || n == names@[i as int]@) by {
                    if name_views(out@).contains(n) {
                        let m = choose|m: int| 0 <= m < out@.len() && name_views(out@)[m] == n;
                        if m < before.len() {
                            assert(name_views(before)[m] == n);
                        }
                    }
                    if name_views(before).contains(n) {
                        let m = choose|m: int| 0 <= m < before.len() && name_views(before)[m] == n;
                        assert(name_views(out@)[m] == n);
                    }
                    if n == names@[i as int]@ {
                        assert(name_views(out@)[out@.len() - 1] == n);
                    }
                }
            }
        } else {
            proof {
                let last = before.last();
                lemma_seq_lt_asym(last@, names@[i as int]@);
                assert(!seq_lt(names@[i as int]@, names@[i - 1]@));
                assert(last@ == names@[i as int]@);
                assert(name_views(out@)[out@.len() - 1] == names@[i as int]@);
            }
        }
        i += 1;
    }
    assert(name_views(names@).len() == names@.len());
    proof {
        assert forall|n: Seq<char>| #[trigger] name_views(names@).contains(n) <==> among_first(name_views(names@), names@.len() as int, n) by {
            if name_views(names@).contains(n) {
                let k = choose|k: int| 0 <= k < names@.len() && name_views(names@)[k] == n;
                assert(name_views(names@)[k] == n);
            }
        }
    }
    out
}

/// The names of a set in strictly increasing order.
pub fn sorted_unique(hidden: &im::HashSet<String>) -> (r: Vec<String>)
    ensures
        strictly_increasing(r@),
        r@.map_values(|s: String| s@).to_set() == hidden_names(*hidden),
{
    let names = hidden_to_vec(hidden);
    let sorted = sort_names(names);
    let r = dedup_sorted(sorted);
    proof {
        assert forall|n: Seq<char>| #[trigger] name_views(sorted@).contains(n) <==> name_views(names@).contains(n) by {
            if name_views(sorted@).contains(n) {
                let m = choose|m: int| 0 <= m < sorted@.len() && name_views(sorted@)[m] == n;
                assert(sorted@.contains(sorted@[m]));
                assert(sorted@.to_multiset().count(sorted@[m]) > 0);
                assert(names@.contains(sorted@[m]));
                let k = choose|k: int| 0 <= k < names@.len() && names@[k] == sorted@[m];
                assert(name_views(names@)[k] == n);
            }
            if name_views(names@).contains(n) {
                let k = choose|k: int| 0 <= k < names@.len() && name_views(names@)[k] == n;
                assert(names@.contains(names@[k]));
                assert(names@.to_multiset().count(names@[k]) > 0);
                assert(sorted@.contains(names@[k]));
                let m = choose|m: int| 0 <= m < sorted@.len() && sorted@[m] == names@[k];
                assert(name_views(sorted@)[m] == n);
            }
        }
        assert(r@.map_values(|s: String| s@).to_set() =~= names@.map_values(|s: String| s@).to_set()) by {
            assert(r@.map_values(|s: String| s@) == name_views(r@));
            assert(names@.map_values(|s: String| s@) == name_views(names@));
        }
    }
    r
}


/// The index of the first repository entry whose path is `path`.
pub open spec fn first_entry_for(repos: Seq<RepositoryBranchVisibility>, path: Seq<char>) -> Option<int> {
    if exists|k: int| 0 <= k < repos.len() && (#[trigger] repos[k]).path@ == path {
        Some(choose|k: int| 0 <= k < repos.len() && (#[trigger] repos[k]).path@ == path && forall|j: int| 0 <= j < k ==> (#[trigger] repos[j]).path@ != path)
    } else {
        None
    }
}

proof fn lemma_first_entry_for(repos: Seq<RepositoryBranchVisibility>, path: Seq<char>, k: int)
    requires
        0 <= k < repos.len(),
        repos[k].path@ == path,
        forall|j: int| 0 <= j < k ==> (#[trigger] repos[j]).path@ != path,
    ensures
        first_entry_for(repos, path) == Some(k),
{
    assert(exists|k: int| 0 <= k < repos.len() && (#[trigger] repos[k]).path@ == path);
    let c = choose|c: int| 0 <= c < repos.len() && (#[trigger] repos[c]).path@ == path && forall|j: int| 0 <= j < c ==> (#[trigger] repos[j]).path@ != path;
    assert(0 <= c < repos.len() && repos[c].path@ == path && forall|j: int| 0 <= j < c ==> (#[trigger] repos[j]).path@ != path) by {
        assert(0 <= k < repos.len() && (#[trigger] repos[k]).path@ == path && forall|j: int| 0 <= j < k ==> (#[trigger] repos[j]).path@ != path);
    }
    if c < k {
        assert(repos[c].path@ != path);
    }
    if k < c {
        assert(repos[k].path@ != path);
    }
}

proof fn lemma_first_entry_exists(repos: Seq<RepositoryBranchVisibility>, path: Seq<char>, k: int)
    requires
        0 <= k < repos.len(),
        repos[k].path@ == path,
    ensures
        first_entry_for(repos, path) is Some,
        0 <= first_entry_for(repos, path)->0 < repos.len(),
        repos[first_entry_for(repos, path)->0].path@ == path,
    decreases k,
{
    if exists|j: int| 0 <= j < k && (#[trigger] repos[j]).path@ == path {
        let j = choose|j: int| 0 <= j < k && (#[trigger] repos[j]).path@ == path;
        lemma_first_entry_exists(repos, path, j);
    } else {
        lemma_first_entry_for(repos, path, k);
    }
}

/// The names hidden for `repo_path`: those of the first entry with that path, or none.
pub open spec fn hidden_in_config(config: BranchVisibilityConfig, repo_path: Seq<char>) -> Set<Seq<char>> {
    match first_entry_for(config.repositories@, repo_path) {
        Some(k) => name_views(config.repositories@[k].hidden@).to_set(),
        None => Set::empty(),
    }
}

/// The hidden branch names that `config` records for the repository at `repo_path`.
pub fn hidden_for_repo(config: &BranchVisibilityConfig, repo_path: &str) -> (r: im::HashSet<String>)
    ensures
        hidden_names(r) == hidden_in_config(*config, repo_path@),
{
    let mut set = hidden_new();
    let target = String::from_str(repo_path);
    let mut k: usize = 0;
    while k < config.repositories.len()
        invariant
            k <= config.repositories@.len(),
            target@ == repo_path@,
            forall|j: int| 0 <= j < k ==> (#[trigger] config.repositories@[j]).path@ != repo_path@,
            hidden_names(set) == Set::<Seq<char>>::empty(),
        decreases config.repositories@.len() - k,
    {
        let entry = &config.repositories[k];
        if entry.path == target {
            proof {
                lemma_first_entry_for(config.repositories@, repo_path@, k as int);
            }
            let ghost views = name_views(entry.hidden@);
            let mut i: usize = 0;
            while i < entry.hidden.len()
                invariant
                    i <= entry.hidden@.len(),
                    views == name_views(entry.hidden@),
                    forall|n: Seq<char>| #[trigger] hidden_names(set).contains(n) <==> among_first(views, i as int, n),
                decreases entry.hidden@.len() - i,
            {
                let name = entry.hidden[i].clone();
                hidden_insert(&mut set, name);
                proof {
                    assert forall|n: Seq<char>| #[trigger] among_first(views, i + 1, n) <==> (among_first(views, i as int, n) || n == views[i as int]) by {
                        if among_first(views, i + 1, n) {
                            let j = choose|j: int| 0 <= j < i + 1 && #[trigger] views[j] == n;
                            if j < i {
                                assert(views[j] == n);
                            }
                        }
                        if n == views[i as int] {
                            assert(views[i as int] == n);
                        }
                    }
                }
                i += 1;
            }
            proof {
                assert forall|n: Seq<char>| #[trigger] views.to_set().contains(n) <==> among_first(views, views.len() as int, n) by {
                    if views.to_set().contains(n) {
                        let j = choose|j: int| 0 <= j < views.len() && views[j] == n;
                        assert(views[j] == n);
                    }
                    if among_first(views, views.len() as int, n) {
                        let j = choose|j: int| 0 <= j < views.len() && #[trigger] views[j] == n;
                        assert(views.contains(n));
                    }
                }
                assert(hidden_names(set) =~= views.to_set());
            }
            return set;
        }
        k += 1;
    }
    set
}

/// Entries in order of their paths.
pub open spec fn sorted_by_path(v: Seq<RepositoryBranchVisibility>) -> bool {
    forall|i: int, j: int| 0 <= i < j < v.len() ==> !seq_lt((#[trigger] v[j]).path@, (#[trigger] v[i]).path@)
}

/// The entries ordered by path (selection of the first least path each round).
fn sort_by_path(entries: Vec<RepositoryBranchVisibility>) -> (r: Vec<RepositoryBranchVisibility>)
    ensures
        r@.to_multiset() == entries@.to_multiset(),
        sorted_by_path(r@),
{
    let mut rest = entries;
    let mut out: Vec<RepositoryBranchVisibility> = Vec::new();
    while rest.len() > 0
        invariant
            out@.to_multiset().add(rest@.to_multiset()) == entries@.to_multiset(),
            sorted_by_path(out@),
            forall|i: int, j: int| 0 <= i < out@.len() && 0 <= j < rest@.len() ==> !seq_lt((#[trigger] rest@[j]).path@, (#[trigger] out@[i]).path@),
        decreases rest@.len(),
    {
        let mut best: usize = 0;
        let mut best_chars = str_chars(rest[0].path.as_str());
        let mut k: usize = 1;
        proof {
            lemma_seq_lt_asym(rest@[0].path@, rest@[0].path@);
        }
        while k < rest.len()
            invariant
                0 <= best < rest@.len(),
                k <= rest@.len(),
                best_chars@ == rest@[best as int].path@,
                forall|j: int| 0 <= j < k ==> !seq_lt((#[trigger] rest@[j]).path@, rest@[best as int].path@),
            decreases rest@.len() - k,
        {
            let chars = str_chars(rest[k].path.as_str());
            if chars_lt(&chars, &best_chars) {
                proof {
                    assert forall|j: int| 0 <= j < k + 1 implies !seq_lt((#[trigger] rest@[j]).path@, rest@[k as int].path@) by {
                        lemma_seq_lt_asym(rest@[j].path@, rest@[k as int].path@);
                        if j < k && seq_lt(rest@[j].path@, rest@[k as int].path@) {
                            lemma_seq_lt_trans(rest@[j].path@, rest@[k as int].path@, rest@[best as int].path@);
                        }
                    }
                }
                best = k;
                best_chars = chars;
            } else {
                proof {
                    lemma_seq_lt_asym(rest@[k as int].path@, rest@[best as int].path@);
                }
            }
            k += 1;
        }
        let ghost before_rest = rest@;
        let ghost before_out = out@;
        let entry = rest.remove(best);
        proof {
            assert(before_rest.remove(best as int).to_multiset() =~= before_rest.to_multiset().remove(entry));
            assert(out@.push(entry).to_multiset() =~= out@.to_multiset().insert(entry));
        }
        out.push(entry);
        proof {
            assert forall|i: int, j: int| 0 <= i < out@.len() && 0 <= j < rest@.len() implies !seq_lt((#[trigger] rest@[j]).path@, (#[trigger] out@[i]).path@) by {
                let jj = if j < best { j } else { j + 1 };
                assert(rest@[j] == before_rest[jj]);
                if i < before_out.len() {
                    assert(out@[i] == before_out[i]);
                }
            }
            assert forall|i: int, j: int| 0 <= i < j < out@.len() implies !seq_lt((#[trigger] out@[j]).path@, (#[trigger] out@[i]).path@) by {
                if j < before_out.len() {
                    assert(out@[i] == before_out[i] && out@[j] == before_out[j]);
                } else {
                    assert(out@[i] == before_out[i]);
                    assert(out@[j] == before_rest[best as int]);
                }
            }
        }
    }
    assert(rest@.to_multiset() =~= vstd::multiset::Multiset::empty());
    out
}

/// The entries of `repos` for other paths than `path`, in their order.
pub open spec fn other_entries(repos: Seq<RepositoryBranchVisibility>, path: Seq<char>) -> Seq<RepositoryBranchVisibility> {
    repos.filter(|e: RepositoryBranchVisibility| e.path@ != path)
}

/// The configuration after recording `hidden` for `repo_path`: every entry for that path is
/// dropped, an entry with the names in strictly increasing order is added when there are any,
/// and the entries are ordered by path.
pub fn config_with_hidden(config: BranchVisibilityConfig, repo_path: &str, hidden: &im::HashSet<String>) -> (r: BranchVisibilityConfig)
    ensures
        sorted_by_path(r.repositories@),
        hidden_names(*hidden).is_empty() ==> r.repositories@.to_multiset() == other_entries(config.repositories@, repo_path@).to_multiset(),
        !hidden_names(*hidden).is_empty() ==> exists|e: RepositoryBranchVisibility| {
            &&& #[trigger] r.repositories@.to_multiset() == other_entries(config.repositories@, repo_path@).push(e).to_multiset()
            &&& e.path@ == repo_path@
            &&& strictly_increasing(e.hidden@)
            &&& name_views(e.hidden@).to_set() == hidden_names(*hidden)
        },
        hidden_in_config(r, repo_path@) == hidden_names(*hidden),
{
    let names = sorted_unique(hidden);
    let ghost initial = config.repositories@;
    let target = String::from_str(repo_path);
    let mut rest = config.repositories;
    let total = rest.len();
    let mut kept: Vec<RepositoryBranchVisibility> = Vec::new();
    let mut i: usize = 0;
    while rest.len() > 0
        invariant
            i + rest@.len() == total,
            total == initial.len(),
            target@ == repo_path@,
            rest@ == initial.skip(i as int),
            kept@ == other_entries(initial.take(i as int), repo_path@),
        decreases rest@.len(),
    {
        let entry = rest.remove(0);
        proof {
            assert(initial.take(i + 1) == initial.take(i as int).push(entry));
            initial.take(i as int).lemma_filter_push(entry, |e: RepositoryBranchVisibility| e.path@ != repo_path@);
            assert(rest@ =~= initial.skip(i + 1));
        }
        if entry.path != target {
            kept.push(entry);
        }
        i += 1;
    }
    assert(initial.take(initial.len() as int) =~= initial);
    let ghost others = kept@;
    let ghost added = RepositoryBranchVisibility { path: target, hidden: names };
    if names.len() > 0 {
        let entry = RepositoryBranchVisibility { path: target, hidden: names };
        kept.push(entry);
    }
    let repositories = sort_by_path(kept);
    proof {
        if hidden_names(*hidden).is_empty() {
            assert(names@.len() == 0) by {
                if names@.len() > 0 {
                    assert(name_views(names@).to_set().contains(names@[0]@)) by {
                        assert(name_views(names@)[0] == names@[0]@);
                    }
                }
                assert(names@.map_values(|s: String| s@) == name_views(names@));
            }
        } else {
            assert(names@.len() > 0) by {
                if names@.len() == 0 {
                    assert(names@.map_values(|s: String| s@).to_set() =~= Set::<Seq<char>>::empty());
                }
            }
            assert(names@.map_values(|s: String| s@) == name_views(names@));
            assert(repositories@.to_multiset() == other_entries(initial, repo_path@).push(added).to_multiset());
            assert(added.path@ == repo_path@);
        }
        let pred = |e: RepositoryBranchVisibility| e.path@ != repo_path@;
        let expected = if names@.len() > 0 { others.push(added) } else { others };
        assert(repositories@.to_multiset() == expected.to_multiset());
        assert forall|k: int| 0 <= k < repositories@.len() && (#[trigger] repositories@[k]).path@ == repo_path@ implies names@.len() > 0 && repositories@[k] == added by {
            let x = repositories@[k];
            assert(repositories@.contains(x));
            assert(expected.to_multiset().count(x) > 0);
            assert(expected.contains(x));
            let m = choose|m: int| 0 <= m < expected.len() && expected[m] == x;
            if m < others.len() {
                assert(others[m] == x);
                initial.lemma_filter_pred(pred, m);
            }
        }
        if names@.len() > 0 {
            assert(expected[others.len() as int] == added);
            assert(expected.contains(added));
            assert(repositories@.to_multiset().count(added) > 0);
            assert(repositories@.contains(added));
            let k0 = choose|k0: int| 0 <= k0 < repositories@.len() && repositories@[k0] == added;
            assert(repositories@[k0].path@ == repo_path@);
            lemma_first_entry_exists(repositories@, repo_path@, k0);
            let k1 = first_entry_for(repositories@, repo_path@)->0;
            assert(repositories@[k1] == added);
            assert(names@.map_values(|s: String| s@) == name_views(names@));
        } else {
            assert(first_entry_for(repositories@, repo_path@) is None);
            assert(hidden_names(*hidden) =~= Set::<Seq<char>>::empty());
        }
    }
    BranchVisibilityConfig { repositories }
}


/// `Platform::all` over `Repository::references`: the full name of every reference that can be
/// read, none when the reference store cannot be read. What is on disk decides, so nothing is
/// stated of the result.
#[verifier::external_body]
fn all_reference_names(repo: &gix::Repository) -> Vec<Vec<u8>> {
    match repo.references() {
        Ok(platform) => platform.all().into_iter().flatten().flatten().map(|r| r.name().as_bstr().to_vec()).collect(),
        Err(_) => Vec::new(),
    }
}

/// The names of the local and remote branches of a repository (see `branch_names_from_refs`).
pub fn current_branch_names_from_repo(repo: &gix::Repository) -> (names: im::HashSet<String>)
    ensures
        forall|n: Seq<char>| #[trigger] hidden_names(names).contains(n) ==> n.len() > 0,
{
    let refs = all_reference_names(repo);
    let names = branch_names_from_refs(&refs);
    proof {
        assert forall|n: Seq<char>| #[trigger] hidden_names(names).contains(n) implies n.len() > 0 by {
            let k = choose|k: int| 0 <= k < refs@.len() && names_branch(refs@[k]@) && vstd::utf8::encode_utf8(n) == branch_suffix(refs@[k]@)->0;
            if n.len() == 0 {
                assert(vstd::utf8::encode_utf8(n) =~= Seq::<u8>::empty());
            }
        }
    }
    names
}

} // verus!
