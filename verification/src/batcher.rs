use vstd::prelude::*;
use vstd::set_lib::{lemma_int_range, lemma_len_subset, set_int_range};
use crate::chunk::NONE;
use crate::git_types::{oid_bytes, oid_as_bytes};
use crate::branch_visibility::{branch_name_from_ref, branch_suffix, hidden_contains, hidden_names, names_branch};
use vstd::string::StringSliceAdditionalSpecFns;
use vstd::utf8::encode_utf8;
use crate::oids::Oids;

verus! {

/// The commits of a commit-graph by position: for each, the id bytes, the committer time, the
/// parent positions that its parent list yields before any error, and whether it ended without
/// one.
pub uninterp spec fn graph_commits(g: gix::commitgraph::Graph) -> Seq<(Seq<u8>, u64, Seq<u32>, bool)>;

/// The parent ids written in the commit object whose id has the bytes `oid`. An object's id is
/// the hash of its content, so the id fixes them.
pub uninterp spec fn commit_parent_ids(oid: Seq<u8>) -> Seq<Seq<u8>>;

/// The committer time (in seconds) written in the commit object whose id has the bytes `oid`.
/// An object's id is the hash of its content, so the id fixes it.
pub uninterp spec fn commit_time_of(oid: Seq<u8>) -> i64;

/// The id bytes of each id in `ids`.
pub open spec fn oid_bytes_seq(ids: Seq<gix::ObjectId>) -> Seq<Seq<u8>> {
    ids.map_values(|id: gix::ObjectId| oid_bytes(id))
}

/// The ids of the commits at the graph positions `positions`.
pub open spec fn graph_ids(g: gix::commitgraph::Graph, positions: Seq<u32>) -> Seq<Seq<u8>> {
    positions.map_values(|q: u32| graph_commits(g)[q as int].0)
}

/// Whether `ps` are the parent ids of the commit `oid` as the walk reads them: from a
/// commit-graph entry for it whose parent list is whole, or from the commit object.
pub open spec fn parents_read(g: Option<gix::commitgraph::Graph>, oid: Seq<u8>, ps: Seq<Seq<u8>>) -> bool {
    ||| ps == commit_parent_ids(oid)
    ||| g matches Some(gr) && exists|p: int| 0 <= p < graph_commits(gr).len() && {
        let e = #[trigger] graph_commits(gr)[p];
        e.0 == oid && e.3 && ps == graph_ids(gr, e.2)
    }
}

/// Whether the walk reads `b` as a parent of `a`: `b` is among the parent ids written in the
/// commit object `a`, or among those of the positions the parent list of a commit-graph entry
/// for `a` yields.
pub open spec fn parent_edge(g: Option<gix::commitgraph::Graph>, a: Seq<u8>, b: Seq<u8>) -> bool {
    ||| commit_parent_ids(a).contains(b)
    ||| g matches Some(gr) && exists|p: int| 0 <= p < graph_commits(gr).len() && {
        let e = #[trigger] graph_commits(gr)[p];
        e.0 == a && graph_ids(gr, e.2).contains(b)
    }
}

/// Whether `path` starts at one of `roots` and goes from each id to a parent of it.
pub open spec fn walk_path(g: Option<gix::commitgraph::Graph>, roots: Set<Seq<u8>>, path: Seq<Seq<u8>>) -> bool {
    &&& path.len() > 0
    &&& roots.contains(path[0])
    &&& forall|k: int| 0 <= k < path.len() - 1 ==> parent_edge(g, #[trigger] path[k], path[k + 1])
}

/// Whether the commit `x` is reachable from `roots` along the parents the walk reads.
pub open spec fn reachable(g: Option<gix::commitgraph::Graph>, roots: Set<Seq<u8>>, x: Seq<u8>) -> bool {
    exists|path: Seq<Seq<u8>>| #[trigger] walk_path(g, roots, path) && path.last() == x
}

/// A root is reachable.
pub proof fn lemma_root_reachable(g: Option<gix::commitgraph::Graph>, roots: Set<Seq<u8>>, x: Seq<u8>)
    requires
        roots.contains(x),
    ensures
        reachable(g, roots, x),
{
    let path = seq![x];
    assert(walk_path(g, roots, path));
}

/// A parent of a reachable commit is reachable.
pub proof fn lemma_parent_reachable(g: Option<gix::commitgraph::Graph>, roots: Set<Seq<u8>>, a: Seq<u8>, b: Seq<u8>)
    requires
        reachable(g, roots, a),
        parent_edge(g, a, b),
    ensures
        reachable(g, roots, b),
{
    let path = choose|path: Seq<Seq<u8>>| #[trigger] walk_path(g, roots, path) && path.last() == a;
    let longer = path.push(b);
    assert forall|k: int| 0 <= k < longer.len() - 1 implies parent_edge(g, #[trigger] longer[k], longer[k + 1]) by {
        if k < path.len() - 1 {
            assert(longer[k] == path[k] && longer[k + 1] == path[k + 1]);
        } else {
            assert(longer[k] == a);
        }
    }
    assert(walk_path(g, roots, longer));
}

/// The ids of `tips`.
pub open spec fn root_set(tips: Seq<gix::ObjectId>) -> Set<Seq<u8>> {
    Set::new(|x: Seq<u8>| has_oid(tips, x))
}

/// The ids of aliased tips.
spec fn aliased_root_set(tips: Seq<(gix::ObjectId, u32)>) -> Set<Seq<u8>> {
    Set::new(|x: Seq<u8>| exists|i: int| 0 <= i < tips.len() && oid_bytes(tips[i].0) == x)
}

/// Whether `t` is a committer time the walk reads for the commit `x`: the one in its object, or
/// the one a commit-graph entry for it stores.
pub open spec fn time_read(g: Option<gix::commitgraph::Graph>, x: Seq<u8>, t: i64) -> bool {
    ||| t == commit_time_of(x)
    ||| g matches Some(gr) && exists|p: int| 0 <= p < graph_commits(gr).len() && {
        let e = #[trigger] graph_commits(gr)[p];
        e.0 == x && t == e.1 as i64
    }
}

/// Whether no commit is read as newer than a child of it (see `parent_edge` and `time_read`).
pub open spec fn times_follow_parents(g: Option<gix::commitgraph::Graph>) -> bool {
    forall|a: Seq<u8>, b: Seq<u8>, ta: i64, tb: i64|
        #![trigger parent_edge(g, a, b), time_read(g, a, ta), time_read(g, b, tb)]
        parent_edge(g, a, b) && time_read(g, a, ta) && time_read(g, b, tb) ==> tb <= ta
}

/// The time a commit-graph entry stores is a time read for its id.
proof fn lemma_graph_time_read(g: gix::commitgraph::Graph, p: int)
    requires
        0 <= p < graph_commits(g).len(),
    ensures
        time_read(Some(g), graph_commits(g)[p].0, graph_commits(g)[p].1 as i64),
{
    let gg: Option<gix::commitgraph::Graph> = Some(g);
    assert(gg->0 == g);
    let e = graph_commits(gg->0)[p];
    assert(e.0 == graph_commits(g)[p].0 && graph_commits(g)[p].1 as i64 == e.1 as i64);
}

/// Whether each queued commit's time is a time read for it.
spec fn queue_times_ok(queue: Seq<PendingCommit>, g: Option<gix::commitgraph::Graph>) -> bool {
    forall|i: int| 0 <= i < queue.len() ==> time_read(g, oid_bytes(#[trigger] queue[i].oid), queue[i].commit_time)
}

/// Whether `e` is queued by a commit-graph position whose parent list the graph holds whole.
spec fn whole_graph_entry(e: PendingCommit, g: Option<gix::commitgraph::Graph>) -> bool {
    e.graph_pos matches Some(p) && g matches Some(gr) && graph_commits(gr)[p as int].3
}

/// Whether every queued commit's time is at most `bound`, where there is one.
spec fn queue_times_below(queue: Seq<PendingCommit>, bound: Option<i64>) -> bool {
    bound matches Some(b) ==> forall|i: int| 0 <= i < queue.len() ==> (#[trigger] queue[i]).commit_time <= b
}

/// Whether every parent id of every id in `yielded` is among `reached`.
pub open spec fn parents_within(yielded: Set<Seq<u8>>, reached: Set<Seq<u8>>) -> bool {
    forall|y: Seq<u8>, b: Seq<u8>| #![trigger yielded.contains(y), commit_parent_ids(y).contains(b)]
        yielded.contains(y) && commit_parent_ids(y).contains(b) ==> reached.contains(b)
}

/// Along a path from `roots`, every id is yielded when the roots are marked, the parents of
/// yielded ids are marked, and every marked id is yielded.
proof fn lemma_path_yielded(roots: Set<Seq<u8>>, reached: Set<Seq<u8>>, yielded: Set<Seq<u8>>, p: Seq<Seq<u8>>, k: int)
    requires
        walk_path(None, roots, p),
        0 <= k < p.len(),
        roots.subset_of(reached),
        parents_within(yielded, reached),
        reached.subset_of(yielded),
    ensures
        yielded.contains(p[k]),
    decreases k,
{
    if k == 0 {
        assert(reached.contains(p[0]));
    } else {
        lemma_path_yielded(roots, reached, yielded, p, k - 1);
        assert(parent_edge(None, p[k - 1], p[k]));
        assert(commit_parent_ids(p[k - 1]).contains(p[k]));
        assert(reached.contains(p[k]));
    }
}

/// The ids of the queued commits.
spec fn queued_ids(queue: Seq<PendingCommit>) -> Set<Seq<u8>> {
    Set::new(|x: Seq<u8>| exists|i: int| 0 <= i < queue.len() && oid_bytes(queue[i].oid) == x)
}

/// Whether every queued commit is reachable from `roots`.
spec fn queue_reachable(queue: Seq<PendingCommit>, g: Option<gix::commitgraph::Graph>, roots: Set<Seq<u8>>) -> bool {
    forall|i: int| 0 <= i < queue.len() ==> reachable(g, roots, oid_bytes(#[trigger] queue[i].oid))
}

/// Whether `list` records the parents `ps`: one entry for each of the first two, which is
/// `NONE` without `oids` and else `NONE` or the alias `oids` gives that parent.
pub open spec fn parents_recorded(list: Seq<u32>, ps: Seq<Seq<u8>>, oids: Option<Oids>) -> bool {
    &&& list.len() == (if ps.len() < 2 { ps.len() } else { 2 })
    &&& forall|k: int| 0 <= k < list.len() ==> match oids {
        None => #[trigger] list[k] == NONE,
        Some(o) => list[k] == NONE || o.alias_of(ps[k]) == Some(list[k]),
    }
}

/// Whether the walked commit `c` records the parents the walk read for it (see
/// `parents_read` and `parents_recorded`).
pub open spec fn walked_parents(g: Option<gix::commitgraph::Graph>, c: WalkedCommit, oids: Option<Oids>) -> bool {
    exists|ps: Seq<Seq<u8>>| #[trigger] parents_read(g, oid_bytes(c.oid), ps) && parents_recorded(c.parent_list(), ps, oids)
}

/// `Repository::commit_graph_if_enabled`: the commit-graph when one is configured and can be
/// read; an error while reading it gives `None`. Whether there is one depends on the disk, so
/// nothing more is stated.
#[verifier::external_body]
pub fn commit_graph_if_available(repo: &gix::Repository) -> Option<gix::commitgraph::Graph> {
    repo.commit_graph_if_enabled().ok().flatten()
}

/// The object cache size set for history walks: 64 MiB.
pub const HISTORY_OBJECT_CACHE_BYTES: usize = 67_108_864usize;

/// `Repository::object_cache_size_if_unset`: give the repository an object cache of `bytes`
/// unless it has one. Only the cache changes, so nothing is stated.
#[verifier::external_body]
fn object_cache_size_if_unset(repo: &mut gix::Repository, bytes: usize) {
    repo.object_cache_size_if_unset(bytes);
}

/// Give the repository the history walk's object cache unless it has one configured.
pub fn enable_history_object_cache(repo: &mut gix::Repository) {
    object_cache_size_if_unset(repo, HISTORY_OBJECT_CACHE_BYTES);
}

/// The number of commits in the repository's commit-graph, when it has a readable one: a hint
/// for sizing the history.
pub fn history_commit_count_hint(repo: &gix::Repository) -> (r: Option<usize>)
    ensures
        r matches Some(n) ==> n <= u32::MAX,
{
    match commit_graph_if_available(repo) {
        Some(graph) => Some(graph_num_commits(&graph) as usize),
        None => None,
    }
}

/// `Graph::num_commits`: the number of commits the graph stores.
#[verifier::external_body]
fn graph_num_commits(graph: &gix::commitgraph::Graph) -> (n: u32)
    ensures
        n == graph_commits(*graph).len(),
{
    graph.num_commits()
}

/// `Graph::lookup`: a position whose stored id is `oid`, or `None` when its search finds none.
/// The search goes by the files' fan-out and sorted id tables, so on a file whose tables are out
/// of order it can miss a stored id: nothing is stated of `None`.
#[verifier::external_body]
fn graph_lookup(graph: &gix::commitgraph::Graph, oid: &gix::ObjectId) -> (r: Option<u32>)
    ensures
        r matches Some(pos) ==> pos < graph_commits(*graph).len() && graph_commits(*graph)[pos as int].0 == oid_bytes(*oid),
{
    graph.lookup(oid).map(|pos| pos.0)
}

/// `Graph::commit_at(..).committer_timestamp()`, as `i64`: the stored committer time.
#[verifier::external_body]
fn graph_commit_time(graph: &gix::commitgraph::Graph, pos: u32) -> (t: i64)
    requires
        pos < graph_commits(*graph).len(),
    ensures
        t == graph_commits(*graph)[pos as int].1 as i64,
{
    graph.commit_at(gix::commitgraph::Position(pos)).committer_timestamp() as i64
}

/// `Graph::commit_at(..).id()`: the id of the commit at `pos`.
#[verifier::external_body]
fn graph_commit_id(graph: &gix::commitgraph::Graph, pos: u32) -> (oid: gix::ObjectId)
    requires
        pos < graph_commits(*graph).len(),
    ensures
        oid_bytes(oid) == graph_commits(*graph)[pos as int].0,
{
    graph.commit_at(gix::commitgraph::Position(pos)).id().to_owned()
}

/// `Commit::iter_parents` of the commit at `pos`: the parent positions up to the first error,
/// and whether there was none. The source reports out-of-range parents as errors, so the
/// positions returned lie within the graph.
#[verifier::external_body]
fn graph_commit_parents(graph: &gix::commitgraph::Graph, pos: u32) -> (r: (Vec<u32>, bool))
    requires
        pos < graph_commits(*graph).len(),
    ensures
        r.0@ == graph_commits(*graph)[pos as int].2,
        r.1 == graph_commits(*graph)[pos as int].3,
        forall|i: int| 0 <= i < r.0@.len() ==> #[trigger] r.0@[i] < graph_commits(*graph).len(),
{
    let mut positions = Vec::new();
    for parent in graph.commit_at(gix::commitgraph::Position(pos)).iter_parents() {
        match parent {
            Ok(parent) => positions.push(parent.0),
            Err(_) => return (positions, false),
        }
    }
    (positions, true)
}

/// The parents of a commit read through `gix::traverse::commit::find`: from the commit-graph
/// (positions up to the first error, and whether there was none) or from the object itself.
pub enum FoundParents {
    Graph(Vec<u32>, bool),
    Loose(Vec<gix::ObjectId>),
}

/// `gix::traverse::commit::find` then the parents of what it found. A commit comes from the
/// graph only when a graph is given and its lookup finds `oid` at some position; the parents
/// are then that entry's (see `graph_commit_parents`). Otherwise they are those written in the
/// object. `None` when the object cannot be read; what is on disk decides that.
#[verifier::external_body]
fn find_commit_parents(
    graph: Option<&gix::commitgraph::Graph>,
    repo: &gix::Repository,
    oid: &gix::ObjectId,
    buf: &mut Vec<u8>,
) -> (r: Option<FoundParents>)
    ensures
        r matches Some(FoundParents::Graph(positions, complete)) ==> graph is Some && exists|p: int| 0 <= p < graph_commits(*graph->0).len() && {
            let e = #[trigger] graph_commits(*graph->0)[p];
            e.0 == oid_bytes(*oid) && positions@ == e.2 && complete == e.3
        },
        r matches Some(FoundParents::Graph(positions, _)) ==> forall|i: int|
            0 <= i < positions@.len() ==> #[trigger] positions@[i] < graph_commits(*graph->0).len(),
        r matches Some(FoundParents::Loose(ids)) ==> oid_bytes_seq(ids@) == commit_parent_ids(oid_bytes(*oid)),
{
    match gix::traverse::commit::find(graph, &repo.objects, oid.as_ref(), buf).ok()? {
        gix::traverse::commit::Either::CachedCommit(commit) => {
            let mut positions = Vec::new();
            for parent in commit.iter_parents() {
                match parent {
                    Ok(parent) => positions.push(parent.0),
                    Err(_) => return Some(FoundParents::Graph(positions, false)),
                }
            }
            Some(FoundParents::Graph(positions, true))
        },
        gix::traverse::commit::Either::CommitRefIter(iter) => Some(FoundParents::Loose(iter.parent_ids().collect())),
    }
}

/// `gix::traverse::commit::find` then the committer time of what it found: the one the
/// commit-graph entry stores where the graph's lookup finds `oid`, else the one in the object.
/// Whether the object can be read depends on the disk.
#[verifier::external_body]
fn find_commit_time(
    graph: Option<&gix::commitgraph::Graph>,
    repo: &gix::Repository,
    oid: &gix::ObjectId,
    buf: &mut Vec<u8>,
) -> (r: Result<i64, git2::Error>)
    ensures
        r matches Ok(t) ==> t == commit_time_of(oid_bytes(*oid)) || time_read(graph_of(graph), oid_bytes(*oid), t),
{
    let found = gix::traverse::commit::find(graph, &repo.objects, oid.as_ref(), buf).map_err(|error| git2::Error::from_str(&error.to_string()))?;
    match found {
        gix::traverse::commit::Either::CachedCommit(commit) => Ok(commit.committer_timestamp() as i64),
        gix::traverse::commit::Either::CommitRefIter(iter) => Ok(iter.committer().map_err(|error| git2::Error::from_str(&error.to_string()))?.seconds()),
    }
}

/// `Repository::clone`: another handle on the same repository.
#[verifier::external_body]
fn repo_clone(repo: &gix::Repository) -> gix::Repository {
    repo.clone()
}

/// A set of object ids.
#[verifier::external_body]
pub struct OidSet {
    set: std::collections::HashSet<gix::ObjectId>,
}

/// The ids an `OidSet` holds, by their bytes.
pub uninterp spec fn oid_set_contents(s: OidSet) -> Set<Seq<u8>>;

impl OidSet {
    /// `HashSet::with_capacity`: an empty set.
    #[verifier::external_body]
    pub(crate) fn with_capacity(capacity: usize) -> (s: OidSet)
        ensures
            oid_set_contents(s) == Set::<Seq<u8>>::empty(),
    {
        OidSet { set: std::collections::HashSet::with_capacity(capacity) }
    }

    /// `HashSet::insert`: add `oid`; true when it was not there yet. A `HashSet` is finite and
    /// its size fits a `usize`.
    #[verifier::external_body]
    pub(crate) fn insert(&mut self, oid: gix::ObjectId) -> (added: bool)
        ensures
            added == !oid_set_contents(*old(self)).contains(oid_bytes(oid)),
            oid_set_contents(*final(self)) == oid_set_contents(*old(self)).insert(oid_bytes(oid)),
            oid_set_contents(*final(self)).finite(),
            oid_set_contents(*final(self)).len() <= usize::MAX,
    {
        self.set.insert(oid)
    }

    /// `HashSet::is_empty`.
    #[verifier::external_body]
    pub fn is_empty(&self) -> (b: bool)
        ensures
            b == (oid_set_contents(*self).len() == 0),
    {
        self.set.is_empty()
    }
}

/// A commit produced by the history walk.
#[derive(Clone, Debug)]
pub struct WalkedCommit {
    pub oid: gix::ObjectId,
    pub alias: u32,
    pub parents: ParentAliases,
    pub commit_time: Option<i64>,
}

impl WalkedCommit {
    /// The parent aliases recorded for this commit, in order.
    pub closed spec fn parent_list(&self) -> Seq<u32> {
        self.parents.aliases@.take(self.parents.len as int)
    }

    pub closed spec fn wf(&self) -> bool {
        self.parents.wf()
    }

    /// A commit with up to two parent aliases (the first `parent_len` of `parent_aliases`).
    pub fn new(oid: gix::ObjectId, alias: u32, parent_aliases: [u32; 2], parent_len: u8, commit_time: Option<i64>) -> (c: WalkedCommit)
        requires
            parent_len <= 2,
        ensures
            c.wf(),
            c.oid == oid,
            c.alias == alias,
            c.commit_time == commit_time,
            c.parent_list() == parent_aliases@.take(parent_len as int),
    {
        WalkedCommit { oid, alias, parents: ParentAliases { aliases: parent_aliases, len: parent_len }, commit_time }
    }

    fn from_parents(oid: gix::ObjectId, alias: u32, parents: ParentAliases, commit_time: Option<i64>) -> (c: WalkedCommit)
        requires
            parents.wf(),
        ensures
            c.wf(),
            c.oid == oid,
            c.alias == alias,
            c.commit_time == commit_time,
            c.parents == parents,
    {
        WalkedCommit { oid, alias, parents, commit_time }
    }

    /// Whether the commit has no parent.
    pub fn is_parentless(&self) -> (b: bool)
        requires
            self.wf(),
        ensures
            b == (self.parent_list().len() == 0),
    {
        self.parents.is_empty()
    }

    /// The first parent's alias, or `NONE` when there is none.
    pub fn first_parent_alias(&self) -> (a: u32)
        requires
            self.wf(),
        ensures
            a == (if self.parent_list().len() > 0 { self.parent_list()[0] } else { NONE }),
    {
        self.parents.get(0)
    }

    /// The second parent's alias, or `NONE` when there is none.
    pub fn second_parent_alias(&self) -> (a: u32)
        requires
            self.wf(),
        ensures
            a == (if self.parent_list().len() > 1 { self.parent_list()[1] } else { NONE }),
    {
        self.parents.get(1)
    }
}

/// Up to two parent aliases; further parents are counted out.
#[derive(Clone, Copy, Debug)]
pub struct ParentAliases {
    pub aliases: [u32; 2],
    pub len: u8,
}

impl ParentAliases {
    pub open spec fn wf(&self) -> bool {
        self.len <= 2
    }

    /// The recorded aliases, in order.
    pub open spec fn list(&self) -> Seq<u32> {
        self.aliases@.take(self.len as int)
    }

    fn new() -> (p: ParentAliases)
        ensures
            p.wf(),
            p.len == 0,
            p.aliases@ == seq![NONE, NONE],
            p.list() == Seq::<u32>::empty(),
    {
        let p = ParentAliases { aliases: [NONE, NONE], len: 0 };
        assert(p.aliases@ =~= seq![NONE, NONE]);
        assert(p.list() =~= Seq::<u32>::empty());
        p
    }

    /// Record one more parent when there is room for it.
    fn push(&mut self, alias: u32)
        requires
            old(self).wf(),
        ensures
            final(self).wf(),
            old(self).len < 2 ==> final(self).len == old(self).len + 1 && final(self).aliases@ == old(self).aliases@.update(old(self).len as int, alias),
            old(self).len < 2 ==> final(self).list() == old(self).list().push(alias),
            old(self).len >= 2 ==> *final(self) == *old(self),
    {
        if (self.len as usize) < 2 {
            let ghost before = self.list();
            let index = self.len as usize;
            self.aliases[index] = alias;
            self.len = self.len + 1;
            assert(self.list() =~= before.push(alias));
        }
    }

    fn is_empty(&self) -> (b: bool)
        ensures
            b == (self.len == 0),
    {
        self.len == 0
    }

    /// The alias at `index`, or `NONE` past the recorded parents.
    fn get(&self, index: usize) -> (a: u32)
        requires
            self.wf(),
        ensures
            a == (if index < self.len { self.aliases@[index as int] } else { NONE }),
    {
        if index < self.len as usize {
            self.aliases[index]
        } else {
            NONE
        }
    }
}

/// A commit waiting in the walk queue.
#[derive(Clone, Copy, Debug)]
struct PendingCommit {
    commit_time: i64,
    oid: gix::ObjectId,
    alias: u32,
    graph_pos: Option<u32>,
}

/// Whether bit `p` is set in the bit words `words`.
pub open spec fn bit_set(words: Seq<u64>, p: int) -> bool {
    0 <= p && p / 64 < words.len() && (words[p / 64] >> ((p % 64) as u64)) & 1u64 == 1u64
}

/// The positions whose bit is set in `words`.
pub open spec fn set_positions(words: Seq<u64>) -> Set<int> {
    Set::new(|p: int| bit_set(words, p))
}

/// The number of 64-bit words needed for `bits` bits.
pub fn bit_words(bits: usize) -> (n: usize)
    ensures
        n == (bits as int + 63) / 64,
{
    bits / 64 + if bits % 64 != 0 { 1 } else { 0 }
}

proof fn lemma_or_bit(b: u64, k: u64, j: u64)
    requires
        k < 64,
        j < 64,
    ensures
        ((b | (1u64 << k)) >> j) & 1u64 == (if j == k { 1u64 } else { (b >> j) & 1u64 }),
        ((b & (1u64 << k)) != 0u64) == ((b >> k) & 1u64 == 1u64),
{
    assert(((b | (1u64 << k)) >> j) & 1u64 == (if j == k { 1u64 } else { (b >> j) & 1u64 })) by (bit_vector)
        requires k < 64, j < 64;
    assert(((b & (1u64 << k)) != 0u64) == ((b >> k) & 1u64 == 1u64)) by (bit_vector)
        requires k < 64;
}

proof fn lemma_positions_bounded(words: Seq<u64>)
    ensures
        set_positions(words).finite(),
        set_positions(words).len() <= 64 * words.len(),
{
    lemma_int_range(0, 64 * words.len() as int);
    assert(set_positions(words).subset_of(set_int_range(0, 64 * words.len() as int)));
    lemma_len_subset(set_positions(words), set_int_range(0, 64 * words.len() as int));
}

/// The commits already queued: by commit-graph position (a bit each) and by id for commits
/// outside the graph.
pub struct SeenCommits {
    pub graph_positions: Vec<u64>,
    pub loose_oids: OidSet,
}

impl Default for SeenCommits {
    /// No bit words and no ids.
    fn default() -> (s: SeenCommits)
        ensures
            s.wf(),
            s.graph_positions@.len() == 0,
            oid_set_contents(s.loose_oids) == Set::<Seq<u8>>::empty(),
    {
        SeenCommits::new(None, 0)
    }
}

impl SeenCommits {
    pub open spec fn wf(&self) -> bool {
        &&& set_positions(self.graph_positions@).finite()
        &&& set_positions(self.graph_positions@).len() <= 64 * self.graph_positions@.len()
        &&& oid_set_contents(self.loose_oids).finite()
        &&& oid_set_contents(self.loose_oids).len() <= usize::MAX
    }

    /// Room left for new entries: unset position bits and unused id slots.
    pub open spec fn budget(&self) -> int {
        (64 * self.graph_positions@.len() - set_positions(self.graph_positions@).len()) + (usize::MAX - oid_set_contents(self.loose_oids).len())
    }

    pub fn new(commit_graph: Option<&gix::commitgraph::Graph>, loose_capacity: usize) -> (s: SeenCommits)
        ensures
            s.wf(),
            commit_graph is None ==> s.graph_positions@.len() == 0,
            set_positions(s.graph_positions@) == Set::<int>::empty(),
            oid_set_contents(s.loose_oids) == Set::<Seq<u8>>::empty(),
    {
        let words = match commit_graph {
            Some(graph) => bit_words(graph_num_commits(graph) as usize),
            None => 0,
        };
        let graph_positions: Vec<u64> = vec![0u64; words];
        let s = SeenCommits { graph_positions, loose_oids: OidSet::with_capacity(loose_capacity) };
        assert(set_positions(s.graph_positions@) =~= Set::<int>::empty()) by {
            assert forall|p: int| !#[trigger] bit_set(s.graph_positions@, p) by {
                if 0 <= p && p / 64 < s.graph_positions@.len() {
                    assert(s.graph_positions@[p / 64] == 0u64);
                    let k = (p % 64) as u64;
                    assert((0u64 >> k) & 1u64 == 0u64) by (bit_vector);
                }
            }
        }
        s
    }

    /// Mark graph position `pos` as seen; true when it was not seen before. A position past the
    /// bit words is never marked.
    pub fn insert_graph_pos(&mut self, pos: u32) -> (added: bool)
        requires
            old(self).wf(),
        ensures
            final(self).wf(),
            added == (pos as int / 64 < old(self).graph_positions@.len() && !bit_set(old(self).graph_positions@, pos as int)),
            set_positions(final(self).graph_positions@) == (if added {
                set_positions(old(self).graph_positions@).insert(pos as int)
            } else {
                set_positions(old(self).graph_positions@)
            }),
            final(self).graph_positions@.len() == old(self).graph_positions@.len(),
            final(self).loose_oids == old(self).loose_oids,
    {
        let pos = pos as usize;
        let word = pos / 64;
        let shift = (pos % 64) as u64;
        let mask = 1u64 << shift;
        if word >= self.graph_positions.len() {
            return false;
        }
        let bits = self.graph_positions[word];
        let was_seen = bits & mask != 0;
        proof {
            lemma_or_bit(bits, shift, shift);
        }
        let ghost before = self.graph_positions@;
        self.graph_positions.set(word, bits | mask);
        proof {
            let after = self.graph_positions@;
            assert forall|q: int| #[trigger] bit_set(after, q) == (bit_set(before, q) || (q == pos && !was_seen) || (q == pos && was_seen)) by {
                if 0 <= q && q / 64 < after.len() {
                    if q / 64 == word {
                        lemma_or_bit(bits, shift, (q % 64) as u64);
                        if (q % 64) as u64 == shift {
                            assert(q == pos);
                        }
                    }
                }
            }
            if was_seen {
                assert(set_positions(after) =~= set_positions(before));
            } else {
                assert(set_positions(after) =~= set_positions(before).insert(pos as int));
            }
            lemma_positions_bounded(after);
        }
        !was_seen
    }

    /// Mark `oid` as seen; true when it was not seen before.
    pub fn insert_loose_oid(&mut self, oid: gix::ObjectId) -> (added: bool)
        requires
            old(self).wf(),
        ensures
            final(self).wf(),
            added == !oid_set_contents(old(self).loose_oids).contains(oid_bytes(oid)),
            oid_set_contents(final(self).loose_oids) == oid_set_contents(old(self).loose_oids).insert(oid_bytes(oid)),
            final(self).graph_positions == old(self).graph_positions,
    {
        self.loose_oids.insert(oid)
    }
}

/// Take out an entry with the latest commit time.
fn pop_latest(queue: &mut Vec<PendingCommit>) -> (r: Option<PendingCommit>)
    ensures
        old(queue)@.len() == 0 ==> r.is_none() && final(queue)@ == old(queue)@,
        old(queue)@.len() > 0 ==> r.is_some() && exists|i: int| {
            &&& 0 <= i < old(queue)@.len()
            &&& old(queue)@[i] == r->0
            &&& final(queue)@ == old(queue)@.remove(i)
        },
        r is Some ==> forall|j: int| 0 <= j < old(queue)@.len() ==> (#[trigger] old(queue)@[j]).commit_time <= r->0.commit_time,
{
    if queue.len() == 0 {
        return None;
    }
    let mut best: usize = 0;
    let mut i: usize = 1;
    while i < queue.len()
        invariant
            0 <= best < i <= queue@.len(),
            queue@ == old(queue)@,
            forall|j: int| 0 <= j < i ==> (#[trigger] queue@[j]).commit_time <= queue@[best as int].commit_time,
        decreases queue@.len() - i,
    {
        if queue[i].commit_time > queue[best].commit_time {
            best = i;
        }
        i += 1;
    }
    let entry = queue.remove(best);
    Some(entry)
}

/// A lazy walk over the history reachable from some tips, newest commit time first.
struct CommitCursor {
    queue: Vec<PendingCommit>,
    seen: SeenCommits,
    repo: gix::Repository,
    commit_graph: Option<gix::commitgraph::Graph>,
    commit_buf: Vec<u8>,
    time_buf: Vec<u8>,
}

/// The graph behind an optional reference.
spec fn graph_of(g: Option<&gix::commitgraph::Graph>) -> Option<gix::commitgraph::Graph> {
    match g {
        Some(g) => Some(*g),
        None => None,
    }
}

/// Whether every queued graph position lies within `graph` and holds the entry's id.
spec fn queue_positions_ok(queue: Seq<PendingCommit>, graph: Option<gix::commitgraph::Graph>) -> bool {
    forall|i: int| 0 <= i < queue.len() && (#[trigger] queue[i]).graph_pos is Some ==> graph is Some
        && queue[i].graph_pos->0 < graph_commits(graph->0).len()
        && graph_commits(graph->0)[queue[i].graph_pos->0 as int].0 == oid_bytes(queue[i].oid)
}

/// The aliases the walk keeps in step with: `oids` when it gives aliases, else none.
pub open spec fn aliasing(assign: bool, oids: Oids) -> Option<Oids> {
    if assign { Some(oids) } else { None }
}

/// Whether the alias `alias` of the commit `oid` is `NONE` without `oids`, and else `NONE` or
/// the alias `oids` gives that commit.
pub open spec fn alias_recorded(oid: gix::ObjectId, alias: u32, oids: Option<Oids>) -> bool {
    match oids {
        None => alias == NONE,
        Some(o) => alias == NONE || o.alias_of(oid_bytes(oid)) == Some(alias),
    }
}

/// Whether every queued entry's alias is recorded (see `alias_recorded`).
spec fn queue_aliases_ok(queue: Seq<PendingCommit>, oids: Option<Oids>) -> bool {
    forall|i: int| 0 <= i < queue.len() ==> alias_recorded((#[trigger] queue[i]).oid, queue[i].alias, oids)
}

/// Without a commit-graph every entry is keyed by its id: the queued ids are distinct, marked
/// as seen, and not among the ids `yielded`, which are marked as seen too.
spec fn loose_keys_ok(queue: Seq<PendingCommit>, seen: SeenCommits, yielded: Set<Seq<u8>>) -> bool {
    &&& forall|i: int| 0 <= i < queue.len() ==> oid_set_contents(seen.loose_oids).contains(oid_bytes(#[trigger] queue[i].oid))
        && !yielded.contains(oid_bytes(queue[i].oid))
    &&& forall|i: int, j: int| 0 <= i < j < queue.len() ==> oid_bytes(#[trigger] queue[i].oid) != oid_bytes(#[trigger] queue[j].oid)
    &&& yielded.subset_of(oid_set_contents(seen.loose_oids))
}

/// Whether `q1` is `q0`, or `q0` with one more entry for `oid` under `alias`.
spec fn pushed_or_same(q0: Seq<PendingCommit>, q1: Seq<PendingCommit>, oid: gix::ObjectId, alias: u32) -> bool {
    ||| q1 == q0
    ||| q1.len() == q0.len() + 1 && q0.is_prefix_of(q1) && q1.last().oid == oid && q1.last().alias == alias
}

/// An alias recorded against `before` stays recorded while ids are only added.
proof fn lemma_alias_recorded_kept(oid: gix::ObjectId, alias: u32, before: Oids, after: Oids)
    requires
        before.wf(),
        after.wf(),
        before.by_alias@.is_prefix_of(after.by_alias@),
        alias_recorded(oid, alias, Some(before)),
    ensures
        alias_recorded(oid, alias, Some(after)),
{
    if alias != NONE {
        lemma_alias_kept(before, after, oid_bytes(oid));
    }
}

/// Queued aliases recorded against `before` stay recorded while ids are only added.
proof fn lemma_queue_aliases_kept(queue: Seq<PendingCommit>, before: Oids, after: Oids)
    requires
        before.wf(),
        after.wf(),
        before.by_alias@.is_prefix_of(after.by_alias@),
        queue_aliases_ok(queue, Some(before)),
    ensures
        queue_aliases_ok(queue, Some(after)),
{
    assert forall|i: int| 0 <= i < queue.len() implies alias_recorded((#[trigger] queue[i]).oid, queue[i].alias, Some(after)) by {
        lemma_alias_recorded_kept(queue[i].oid, queue[i].alias, before, after);
    }
}

/// Parent aliases recorded against `before` stay recorded while ids are only added.
/// Without a commit-graph, a walked commit is parentless exactly when its commit object names no
/// parent. Its recorded parent aliases are `NONE` when the walk gives no aliases
/// (`next_into`); otherwise each is `NONE` or the alias of the parent at that place
/// (`next_aliased_into`).
pub proof fn law_walked_parentless(c: WalkedCommit, oids: Option<Oids>)
    requires
        walked_parents(None, c, oids),
    ensures
        (c.parent_list().len() == 0) == (commit_parent_ids(oid_bytes(c.oid)).len() == 0),
        c.parent_list().len() <= 2 && c.parent_list().len() <= commit_parent_ids(oid_bytes(c.oid)).len(),
        oids is None ==> forall|k: int| 0 <= k < c.parent_list().len() ==> #[trigger] c.parent_list()[k] == NONE,
        oids matches Some(o) ==> forall|k: int| 0 <= k < c.parent_list().len() ==> #[trigger] c.parent_list()[k] == NONE
            || o.alias_of(commit_parent_ids(oid_bytes(c.oid))[k]) == Some(c.parent_list()[k]),
{
    let ps = choose|ps: Seq<Seq<u8>>| #[trigger] parents_read(None, oid_bytes(c.oid), ps) && parents_recorded(c.parent_list(), ps, oids);
    assert(ps == commit_parent_ids(oid_bytes(c.oid)));
}

pub proof fn lemma_parents_recorded_kept(list: Seq<u32>, ps: Seq<Seq<u8>>, before: Oids, after: Oids)
    requires
        before.wf(),
        after.wf(),
        before.by_alias@.is_prefix_of(after.by_alias@),
        parents_recorded(list, ps, Some(before)),
    ensures
        parents_recorded(list, ps, Some(after)),
{
    assert forall|k: int| 0 <= k < list.len() implies (#[trigger] list[k] == NONE || after.alias_of(ps[k]) == Some(list[k])) by {
        if list[k] != NONE {
            lemma_alias_kept(before, after, ps[k]);
        }
    }
}

/// What a walked commit records stays recorded while ids are only added.
pub proof fn lemma_walked_kept(g: Option<gix::commitgraph::Graph>, c: WalkedCommit, before: Oids, after: Oids)
    requires
        before.wf(),
        after.wf(),
        before.by_alias@.is_prefix_of(after.by_alias@),
        walked_parents(g, c, Some(before)),
        alias_recorded(c.oid, c.alias, Some(before)),
    ensures
        walked_parents(g, c, Some(after)),
        alias_recorded(c.oid, c.alias, Some(after)),
{
    let ps = choose|ps: Seq<Seq<u8>>| #[trigger] parents_read(g, oid_bytes(c.oid), ps) && parents_recorded(c.parent_list(), ps, Some(before));
    lemma_parents_recorded_kept(c.parent_list(), ps, before, after);
    lemma_alias_recorded_kept(c.oid, c.alias, before, after);
}

impl CommitCursor {
    spec fn wf(&self) -> bool {
        &&& self.seen.wf()
        &&& queue_positions_ok(self.queue@, self.commit_graph)
    }

    /// A measure that each step of the walk lowers: queued entries plus twice the room left
    /// for new ones.
    spec fn potential(&self) -> int {
        self.queue@.len() + 2 * self.seen.budget()
    }

    fn new(repo: &gix::Repository, tips: Vec<(gix::ObjectId, u32)>, Ghost(oids): Ghost<Option<Oids>>) -> (r: Result<CommitCursor, git2::Error>)
        requires
            forall|i: int| 0 <= i < tips@.len() ==> alias_recorded((#[trigger] tips@[i]).0, tips@[i].1, oids),
        ensures
            r matches Ok(cursor) ==> cursor.wf() && queue_aliases_ok(cursor.queue@, oids),
            r matches Ok(cursor) ==> (cursor.commit_graph is None ==> loose_keys_ok(cursor.queue@, cursor.seen, Set::empty())),
            r matches Ok(cursor) ==> queue_reachable(cursor.queue@, cursor.commit_graph, aliased_root_set(tips@)),
            r matches Ok(cursor) ==> queue_times_ok(cursor.queue@, cursor.commit_graph),
            r matches Ok(cursor) ==> (cursor.commit_graph is None ==> aliased_root_set(tips@).subset_of(oid_set_contents(cursor.seen.loose_oids))),
            tips@.len() == 0 ==> r is Ok,
            r matches Ok(cursor) ==> (tips@.len() == 0 ==> cursor.queue@.len() == 0),
    {
        let commit_graph = commit_graph_if_available(repo);
        let seen = SeenCommits::new(commit_graph.as_ref(), tips.len());
        let mut cursor = CommitCursor {
            queue: Vec::with_capacity(tips.len()),
            seen,
            repo: repo_clone(repo),
            commit_graph,
            commit_buf: Vec::new(),
            time_buf: Vec::new(),
        };
        let mut i: usize = 0;
        while i < tips.len()
            invariant
                cursor.wf(),
                i <= tips@.len(),
                tips@.len() == 0 ==> cursor.queue@.len() == 0,
                forall|k: int| 0 <= k < tips@.len() ==> alias_recorded((#[trigger] tips@[k]).0, tips@[k].1, oids),
                queue_aliases_ok(cursor.queue@, oids),
                cursor.commit_graph is None ==> loose_keys_ok(cursor.queue@, cursor.seen, Set::empty()),
                queue_reachable(cursor.queue@, cursor.commit_graph, aliased_root_set(tips@)),
                queue_times_ok(cursor.queue@, cursor.commit_graph),
                cursor.commit_graph is None ==> forall|k: int| 0 <= k < i ==> oid_set_contents(cursor.seen.loose_oids).contains(oid_bytes(#[trigger] tips@[k].0)),
            decreases tips@.len() - i,
        {
            let (tip, alias) = tips[i];
            let ghost q0 = cursor.queue@;
            let ghost s0 = oid_set_contents(cursor.seen.loose_oids);
            let r = cursor.enqueue(tip, alias);
            proof {
                if cursor.commit_graph is None {
                    assert forall|k: int| 0 <= k < i + 1 implies oid_set_contents(cursor.seen.loose_oids).contains(oid_bytes(#[trigger] tips@[k].0)) by {
                        if k < i {
                            assert(s0.contains(oid_bytes(tips@[k].0)));
                        }
                    }
                }
                let roots = aliased_root_set(tips@);
                assert(roots.contains(oid_bytes(tips@[i as int].0)));
                lemma_root_reachable(cursor.commit_graph, roots, oid_bytes(tip));
                assert forall|k: int| 0 <= k < cursor.queue@.len() implies reachable(cursor.commit_graph, roots, oid_bytes(#[trigger] cursor.queue@[k].oid)) by {
                    if k < q0.len() {
                        assert(cursor.queue@[k] == q0[k]);
                    }
                }
                assert(alias_recorded(tips@[i as int].0, tips@[i as int].1, oids));
                assert forall|k: int| 0 <= k < cursor.queue@.len() implies alias_recorded((#[trigger] cursor.queue@[k]).oid, cursor.queue@[k].alias, oids) by {
                    if k < q0.len() {
                        assert(cursor.queue@[k] == q0[k]);
                    }
                }
            }
            match r {
                Ok(()) => {},
                Err(e) => {
                    return Err(e);
                },
            }
            i += 1;
        }
        proof {
            if cursor.commit_graph is None {
                assert forall|x: Seq<u8>| aliased_root_set(tips@).contains(x) implies #[trigger] oid_set_contents(cursor.seen.loose_oids).contains(x) by {
                    let k = choose|k: int| 0 <= k < tips@.len() && oid_bytes(tips@[k].0) == x;
                    assert(oid_set_contents(cursor.seen.loose_oids).contains(oid_bytes(tips@[k].0)));
                }
            }
        }
        Ok(cursor)
    }

    fn enqueue(&mut self, oid: gix::ObjectId, alias: u32) -> (r: Result<(), git2::Error>)
        requires
            old(self).wf(),
        ensures
            final(self).wf(),
            final(self).potential() <= old(self).potential(),
            final(self).commit_graph == old(self).commit_graph,
            pushed_or_same(old(self).queue@, final(self).queue@, oid, alias),
            old(self).commit_graph is None && loose_keys_ok(old(self).queue@, old(self).seen, Set::empty())
                ==> loose_keys_ok(final(self).queue@, final(self).seen, Set::empty()),
            queue_times_ok(old(self).queue@, old(self).commit_graph) ==> queue_times_ok(final(self).queue@, old(self).commit_graph),
            old(self).commit_graph is None ==> oid_set_contents(final(self).seen.loose_oids) == oid_set_contents(old(self).seen.loose_oids).insert(oid_bytes(oid)),
    {
        enqueue_commit(&mut self.queue, &mut self.seen, &self.repo, self.commit_graph.as_ref(), &mut self.time_buf, oid, alias, Ghost(Set::empty()))
    }

    /// The next commit of the walk: the queued one with the latest commit time, whose parents
    /// are then queued. Entries whose object cannot be read are skipped. `None` once the queue
    /// is empty.
    fn next_commit(
        &mut self,
        oids: &mut Oids,
        assign: bool,
        Ghost(yielded): Ghost<Set<Seq<u8>>>,
        Ghost(roots): Ghost<Set<Seq<u8>>>,
        Ghost(bound): Ghost<Option<i64>>,
    ) -> (r: Option<WalkedCommit>)
        requires
            old(self).wf(),
            old(oids).wf(),
        ensures
            final(self).wf(),
            r matches Some(c) ==> c.wf(),
            final(oids).wf(),
            !assign ==> *final(oids) == *old(oids),
            final(oids).sorted_aliases@ == old(oids).sorted_aliases@,
            final(oids).stashes@ == old(oids).stashes@,
            final(oids).zero == old(oids).zero,
            old(oids).by_alias@.is_prefix_of(final(oids).by_alias@),
            r is None ==> final(self).queue@.len() == 0,
            final(self).commit_graph == old(self).commit_graph,
            r matches Some(c) ==> c.commit_time is Some && walked_parents(old(self).commit_graph, c, aliasing(assign, *final(oids))),
            queue_aliases_ok(old(self).queue@, aliasing(assign, *old(oids))) ==> queue_aliases_ok(final(self).queue@, aliasing(assign, *final(oids)))
                && (r matches Some(c) ==> alias_recorded(c.oid, c.alias, aliasing(assign, *final(oids)))),
            old(self).commit_graph is None && loose_keys_ok(old(self).queue@, old(self).seen, yielded) ==> match r {
                Some(c) => !yielded.contains(oid_bytes(c.oid)) && loose_keys_ok(final(self).queue@, final(self).seen, yielded.insert(oid_bytes(c.oid))),
                None => loose_keys_ok(final(self).queue@, final(self).seen, yielded),
            },
            queue_reachable(old(self).queue@, old(self).commit_graph, roots) ==> queue_reachable(final(self).queue@, old(self).commit_graph, roots)
                && (r matches Some(c) ==> reachable(old(self).commit_graph, roots, oid_bytes(c.oid))),
            queue_times_ok(old(self).queue@, old(self).commit_graph) ==> queue_times_ok(final(self).queue@, old(self).commit_graph),
            r is None ==> forall|i: int| 0 <= i < old(self).queue@.len() ==> !whole_graph_entry(#[trigger] old(self).queue@[i], old(self).commit_graph),
            old(self).commit_graph is None ==> oid_set_contents(old(self).seen.loose_oids).subset_of(oid_set_contents(final(self).seen.loose_oids)),
            old(self).commit_graph is None ==> (r matches Some(c) ==> forall|b: Seq<u8>| #[trigger] commit_parent_ids(oid_bytes(c.oid)).contains(b)
                ==> oid_set_contents(final(self).seen.loose_oids).contains(b)),
            queue_times_ok(old(self).queue@, old(self).commit_graph) && times_follow_parents(old(self).commit_graph)
                && queue_times_below(old(self).queue@, bound) ==> match r {
                    Some(c) => c.commit_time matches Some(t) && (bound matches Some(b) ==> t <= b) && queue_times_below(final(self).queue@, Some(t)),
                    None => queue_times_below(final(self).queue@, bound),
                },
    {
        loop
            invariant
                self.wf(),
                oids.wf(),
                !assign ==> *oids == *old(oids),
                oids.sorted_aliases@ == old(oids).sorted_aliases@,
                oids.stashes@ == old(oids).stashes@,
                oids.zero == old(oids).zero,
                old(oids).by_alias@.is_prefix_of(oids.by_alias@),
                self.commit_graph == old(self).commit_graph,
                queue_aliases_ok(old(self).queue@, aliasing(assign, *old(oids))) ==> queue_aliases_ok(self.queue@, aliasing(assign, *oids)),
                old(self).commit_graph is None && loose_keys_ok(old(self).queue@, old(self).seen, yielded) ==> loose_keys_ok(self.queue@, self.seen, yielded),
                queue_reachable(old(self).queue@, old(self).commit_graph, roots) ==> queue_reachable(self.queue@, self.commit_graph, roots),
                queue_times_ok(old(self).queue@, old(self).commit_graph) ==> queue_times_ok(self.queue@, self.commit_graph),
                queue_times_ok(old(self).queue@, old(self).commit_graph) && times_follow_parents(old(self).commit_graph)
                    && queue_times_below(old(self).queue@, bound) ==> queue_times_below(self.queue@, bound),
                forall|i: int| 0 <= i < old(self).queue@.len() && whole_graph_entry(#[trigger] old(self).queue@[i], old(self).commit_graph)
                    ==> self.queue@.contains(old(self).queue@[i]),
                old(self).commit_graph is None ==> oid_set_contents(old(self).seen.loose_oids).subset_of(oid_set_contents(self.seen.loose_oids)),
            decreases self.potential(),
        {
            let ghost before = self.potential();
            let ghost q0 = self.queue@;
            let entry = match pop_latest(&mut self.queue) {
                None => {
                    return None;
                },
                Some(entry) => entry,
            };
            proof {
                let i = choose|i: int| {
                    &&& 0 <= i < q0.len()
                    &&& q0[i] == entry
                    &&& self.queue@ == q0.remove(i)
                };
                assert forall|j: int| 0 <= j < self.queue@.len() && (#[trigger] self.queue@[j]).graph_pos is Some implies
                    self.commit_graph is Some && self.queue@[j].graph_pos->0 < graph_commits(self.commit_graph->0).len()
                    && graph_commits(self.commit_graph->0)[self.queue@[j].graph_pos->0 as int].0 == oid_bytes(self.queue@[j].oid) by {
                    if j < i {
                        assert(self.queue@[j] == q0[j]);
                    } else {
                        assert(self.queue@[j] == q0[j + 1]);
                    }
                }
                assert(q0[i] == entry);
                if queue_times_ok(q0, self.commit_graph) {
                    assert forall|j: int| 0 <= j < self.queue@.len() implies time_read(self.commit_graph, oid_bytes(#[trigger] self.queue@[j].oid), self.queue@[j].commit_time) by {
                        if j < i {
                            assert(self.queue@[j] == q0[j]);
                        } else {
                            assert(self.queue@[j] == q0[j + 1]);
                        }
                    }
                    assert(time_read(self.commit_graph, oid_bytes(q0[i].oid), q0[i].commit_time));
                }
                assert forall|j: int| 0 <= j < self.queue@.len() implies (#[trigger] self.queue@[j]).commit_time <= entry.commit_time by {
                    if j < i {
                        assert(self.queue@[j] == q0[j]);
                    } else {
                        assert(self.queue@[j] == q0[j + 1]);
                    }
                }
                if queue_times_below(q0, bound) && bound is Some {
                    assert(q0[i].commit_time <= bound->0);
                }
                if queue_reachable(q0, self.commit_graph, roots) {
                    assert forall|j: int| 0 <= j < self.queue@.len() implies reachable(self.commit_graph, roots, oid_bytes(#[trigger] self.queue@[j].oid)) by {
                        if j < i {
                            assert(self.queue@[j] == q0[j]);
                        } else {
                            assert(self.queue@[j] == q0[j + 1]);
                        }
                    }
                    assert(reachable(self.commit_graph, roots, oid_bytes(q0[i].oid)));
                }
                if queue_aliases_ok(q0, aliasing(assign, *oids)) {
                    assert forall|j: int| 0 <= j < self.queue@.len() implies alias_recorded((#[trigger] self.queue@[j]).oid, self.queue@[j].alias, aliasing(assign, *oids)) by {
                        if j < i {
                            assert(self.queue@[j] == q0[j]);
                        } else {
                            assert(self.queue@[j] == q0[j + 1]);
                        }
                    }
                    assert(alias_recorded(q0[i].oid, q0[i].alias, aliasing(assign, *oids)));
                }
                if self.commit_graph is None && loose_keys_ok(q0, self.seen, yielded) {
                    let y1 = yielded.insert(oid_bytes(entry.oid));
                    assert forall|j: int| 0 <= j < self.queue@.len() implies oid_set_contents(self.seen.loose_oids).contains(oid_bytes(#[trigger] self.queue@[j].oid))
                        && !y1.contains(oid_bytes(self.queue@[j].oid)) by {
                        if j < i {
                            assert(self.queue@[j] == q0[j]);
                        } else {
                            assert(self.queue@[j] == q0[j + 1]);
                        }
                    }
                    assert forall|a: int, b: int| 0 <= a < b < self.queue@.len() implies oid_bytes(#[trigger] self.queue@[a].oid) != oid_bytes(#[trigger] self.queue@[b].oid) by {
                        let a0 = if a < i { a } else { a + 1 };
                        let b0 = if b < i { b } else { b + 1 };
                        assert(self.queue@[a] == q0[a0]);
                        assert(self.queue@[b] == q0[b0]);
                    }
                    assert(loose_keys_ok(self.queue@, self.seen, y1));
                }
            }
            let ghost y1 = yielded.insert(oid_bytes(entry.oid));
            let ghost keys_before = self.commit_graph is None && loose_keys_ok(self.queue@, self.seen, y1);
            let ghost q_popped = self.queue@;
            proof {
                assert forall|k: int| 0 <= k < old(self).queue@.len() && whole_graph_entry(#[trigger] old(self).queue@[k], old(self).commit_graph)
                    && !whole_graph_entry(entry, self.commit_graph) implies self.queue@.contains(old(self).queue@[k]) by {
                    let e = old(self).queue@[k];
                    let i = choose|i: int| {
                        &&& 0 <= i < q0.len()
                        &&& q0[i] == entry
                        &&& self.queue@ == q0.remove(i)
                    };
                    assert(q0.contains(e));
                    let j = choose|j: int| 0 <= j < q0.len() && q0[j] == e;
                    assert(e != entry);
                    if j < i {
                        assert(self.queue@[j] == q0[j]);
                    } else {
                        assert(j != i);
                        assert(self.queue@[j - 1] == q0[j]);
                    }
                }
            }
            let ghost times_ok = queue_times_ok(self.queue@, self.commit_graph) && time_read(self.commit_graph, oid_bytes(entry.oid), entry.commit_time);
            let r = self.commit_from_entry(entry, oids, assign, Ghost(y1), Ghost(roots));
            proof {
                if times_ok && times_follow_parents(self.commit_graph) {
                    let g = self.commit_graph;
                    assert forall|k: int| 0 <= k < self.queue@.len() implies (#[trigger] self.queue@[k]).commit_time <= entry.commit_time by {
                        if k < q_popped.len() {
                            assert(self.queue@[k] == q_popped[k]);
                        } else {
                            let b = oid_bytes(self.queue@[k].oid);
                            assert(parent_edge(g, oid_bytes(entry.oid), b));
                            assert(time_read(g, b, self.queue@[k].commit_time));
                        }
                    }
                }
            }
            if let Some(commit) = r {
                return Some(commit);
            }
            proof {
                assert forall|k: int| 0 <= k < old(self).queue@.len() && whole_graph_entry(#[trigger] old(self).queue@[k], old(self).commit_graph)
                    implies self.queue@.contains(old(self).queue@[k]) by {
                    let e = old(self).queue@[k];
                    assert(q_popped.contains(e));
                    let j = choose|j: int| 0 <= j < q_popped.len() && q_popped[j] == e;
                    assert(self.queue@[j] == q_popped[j]);
                }
                if keys_before {
                    assert(yielded.subset_of(y1));
                }
            }
            assert(self.potential() < before);
        }
    }

    /// The commit for a popped queue entry, with its parents queued; `None` when it cannot be read.
    fn commit_from_entry(
        &mut self,
        entry: PendingCommit,
        oids: &mut Oids,
        assign: bool,
        Ghost(yielded): Ghost<Set<Seq<u8>>>,
        Ghost(roots): Ghost<Set<Seq<u8>>>,
    ) -> (r: Option<WalkedCommit>)
        requires
            old(oids).wf(),
            old(self).wf(),
            entry.graph_pos is Some ==> old(self).commit_graph is Some && entry.graph_pos->0 < graph_commits(old(self).commit_graph->0).len()
                && graph_commits(old(self).commit_graph->0)[entry.graph_pos->0 as int].0 == oid_bytes(entry.oid),
        ensures
            final(self).wf(),
            final(self).potential() <= old(self).potential(),
            final(self).commit_graph == old(self).commit_graph,
            r matches Some(c) ==> c.wf() && c.oid == entry.oid && c.alias == entry.alias && c.commit_time == Some(entry.commit_time),
            r matches Some(c) ==> walked_parents(old(self).commit_graph, c, aliasing(assign, *final(oids))),
            queue_aliases_ok(old(self).queue@, aliasing(assign, *old(oids))) ==> queue_aliases_ok(final(self).queue@, aliasing(assign, *final(oids))),
            alias_recorded(entry.oid, entry.alias, aliasing(assign, *old(oids))) ==> alias_recorded(entry.oid, entry.alias, aliasing(assign, *final(oids))),
            old(self).commit_graph is None && loose_keys_ok(old(self).queue@, old(self).seen, yielded)
                ==> loose_keys_ok(final(self).queue@, final(self).seen, yielded),
            reachable(old(self).commit_graph, roots, oid_bytes(entry.oid)) && queue_reachable(old(self).queue@, old(self).commit_graph, roots)
                ==> queue_reachable(final(self).queue@, old(self).commit_graph, roots),
            queue_times_ok(old(self).queue@, old(self).commit_graph) ==> queue_times_ok(final(self).queue@, old(self).commit_graph),
            old(self).queue@.is_prefix_of(final(self).queue@),
            forall|k: int| old(self).queue@.len() <= k < final(self).queue@.len() ==> parent_edge(old(self).commit_graph, oid_bytes(entry.oid), oid_bytes(#[trigger] final(self).queue@[k].oid)),
            whole_graph_entry(entry, old(self).commit_graph) ==> r is Some,
            old(self).commit_graph is None ==> oid_set_contents(old(self).seen.loose_oids).subset_of(oid_set_contents(final(self).seen.loose_oids)),
            old(self).commit_graph is None && r is Some ==> forall|b: Seq<u8>| #[trigger] commit_parent_ids(oid_bytes(entry.oid)).contains(b)
                ==> oid_set_contents(final(self).seen.loose_oids).contains(b),
            final(oids).wf(),
            !assign ==> *final(oids) == *old(oids),
            final(oids).sorted_aliases@ == old(oids).sorted_aliases@,
            final(oids).stashes@ == old(oids).stashes@,
            final(oids).zero == old(oids).zero,
            old(oids).by_alias@.is_prefix_of(final(oids).by_alias@),
    {
        let PendingCommit { commit_time, oid, alias, graph_pos } = entry;
        let ghost g = self.commit_graph;
        let ghost o0 = *oids;
        if let Some(pos) = graph_pos {
            let graph = self.commit_graph.as_ref().unwrap();
            let parents = graph_parent_aliases(&mut self.queue, &mut self.seen, graph, pos, oids, assign, Ghost(roots));
            proof {
                self.lemma_entry_alias_kept(oid, alias, o0, *oids, assign);
            }
            return match parents {
                Some(parents) => {
                    let c = WalkedCommit::from_parents(oid, alias, parents, Some(commit_time));
                    proof {
                        let ps = graph_ids(g->0, graph_commits(g->0)[pos as int].2);
                        assert(parents_read(g, oid_bytes(c.oid), ps));
                    }
                    Some(c)
                },
                None => None,
            };
        }
        let found = find_commit_parents(self.commit_graph.as_ref(), &self.repo, &oid, &mut self.commit_buf);
        match found {
            None => None,
            Some(FoundParents::Graph(positions, complete)) => {
                let graph = self.commit_graph.as_ref().unwrap();
                let ghost child = oid_bytes(oid);
                proof {
                    let p = choose|p: int| 0 <= p < graph_commits(*graph).len() && {
                        let e = #[trigger] graph_commits(*graph)[p];
                        e.0 == oid_bytes(oid) && positions@ == e.2 && complete == e.3
                    };
                    lemma_graph_edges(*graph, p, positions@);
                }
                let parents = enqueue_graph_parents(&mut self.queue, &mut self.seen, graph, &positions, oids, assign, Ghost(roots), Ghost(child));
                proof {
                    self.lemma_entry_alias_kept(oid, alias, o0, *oids, assign);
                }
                if complete {
                    let c = WalkedCommit::from_parents(oid, alias, parents, Some(commit_time));
                    proof {
                        let ps = graph_ids(g->0, positions@);
                        assert(parents_read(g, oid_bytes(c.oid), ps));
                    }
                    Some(c)
                } else {
                    None
                }
            },
            Some(FoundParents::Loose(parent_ids)) => {
                proof {
                    assert forall|i: int| 0 <= i < parent_ids@.len() implies parent_edge(g, oid_bytes(oid), oid_bytes(#[trigger] parent_ids@[i])) by {
                        assert(oid_bytes_seq(parent_ids@)[i] == oid_bytes(parent_ids@[i]));
                        assert(commit_parent_ids(oid_bytes(oid)).contains(oid_bytes(parent_ids@[i])));
                    }
                }
                let parents = loose_parent_aliases(&mut self.queue, &mut self.seen, &self.repo, self.commit_graph.as_ref(), &mut self.time_buf, &parent_ids, oids, assign, Ghost(yielded), Ghost(roots), Ghost(oid_bytes(oid)));
                proof {
                    self.lemma_entry_alias_kept(oid, alias, o0, *oids, assign);
                }
                let c = WalkedCommit::from_parents(oid, alias, parents, Some(commit_time));
                proof {
                    let ps = oid_bytes_seq(parent_ids@);
                    assert(parents_read(g, oid_bytes(c.oid), ps));
                    if g is None {
                        assert forall|b: Seq<u8>| #[trigger] commit_parent_ids(oid_bytes(oid)).contains(b)
                            implies oid_set_contents(self.seen.loose_oids).contains(b) by {
                            let k = choose|k: int| 0 <= k < ps.len() && ps[k] == b;
                            assert(ps[k] == oid_bytes(parent_ids@[k]));
                        }
                    }
                }
                Some(c)
            },
        }
    }

    proof fn lemma_entry_alias_kept(&self, oid: gix::ObjectId, alias: u32, before: Oids, after: Oids, assign: bool)
        requires
            before.wf(),
            after.wf(),
            before.by_alias@.is_prefix_of(after.by_alias@),
            !assign ==> after == before,
        ensures
            alias_recorded(oid, alias, aliasing(assign, before)) ==> alias_recorded(oid, alias, aliasing(assign, after)),
    {
        if assign && alias_recorded(oid, alias, aliasing(assign, before)) {
            lemma_alias_recorded_kept(oid, alias, before, after);
        }
    }
}

/// An alias, once given, stays while ids are only added.
pub proof fn lemma_alias_kept(before: Oids, after: Oids, k: Seq<u8>)
    requires
        before.wf(),
        after.wf(),
        before.by_alias@.is_prefix_of(after.by_alias@),
        before.alias_of(k) is Some,
    ensures
        after.alias_of(k) == before.alias_of(k),
{
    let a = before.alias_of(k)->0;
    assert(after.by_alias@[a as int] == before.by_alias@.subrange(0, before.by_alias@.len() as int)[a as int]);
    assert(after.by_alias@[a as int] == before.by_alias@[a as int]);
}

pub proof fn lemma_prefix_trans(a: Seq<gix::ObjectId>, b: Seq<gix::ObjectId>, c: Seq<gix::ObjectId>)
    requires
        a.is_prefix_of(b),
        b.is_prefix_of(c),
    ensures
        a.is_prefix_of(c),
{
    assert(a =~= c.subrange(0, a.len() as int)) by {
        assert forall|i: int| 0 <= i < a.len() implies a[i] == c[i] by {
            assert(a[i] == b.subrange(0, a.len() as int)[i]);
            assert(b[i] == c.subrange(0, b.len() as int)[i]);
        }
    }
}

proof fn lemma_prefix_trans_pending(a: Seq<PendingCommit>, b: Seq<PendingCommit>, c: Seq<PendingCommit>)
    requires
        a.is_prefix_of(b),
        b.is_prefix_of(c),
    ensures
        a.is_prefix_of(c),
{
    assert(a =~= c.subrange(0, a.len() as int)) by {
        assert forall|i: int| 0 <= i < a.len() implies a[i] == c[i] by {
            assert(a[i] == b.subrange(0, a.len() as int)[i]);
            assert(b[i] == c.subrange(0, b.len() as int)[i]);
        }
    }
}

/// The alias of `oid` in `oids` when `assign` is set (a new one when it has none and the alias
/// space is not used up), `NONE` otherwise.
fn alias_for(oids: &mut Oids, assign: bool, oid: gix::ObjectId) -> (a: u32)
    requires
        old(oids).wf(),
    ensures
        final(oids).wf(),
        !assign ==> *final(oids) == *old(oids),
        final(oids).sorted_aliases@ == old(oids).sorted_aliases@,
        final(oids).stashes@ == old(oids).stashes@,
        final(oids).zero == old(oids).zero,
        old(oids).by_alias@.is_prefix_of(final(oids).by_alias@),
        final(oids).by_alias@.len() <= old(oids).by_alias@.len() + 1,
        !assign ==> a == NONE,
        assign ==> final(oids).alias_of(oid_bytes(oid)) == Some(a) || (a == NONE && old(oids).by_alias@.len() >= 0xFFFF_FFFF
            && old(oids).alias_of(oid_bytes(oid)) is None),
{
    if !assign {
        return NONE;
    }
    if oids.by_alias.len() < 0xFFFF_FFFFusize {
        let ghost before = oids.by_alias@;
        let a = oids.get_alias_by_oid(oid);
        assert(before.is_prefix_of(oids.by_alias@));
        a
    } else {
        match oids.get_existing_alias(oid) {
            Some(a) => a,
            None => NONE,
        }
    }
}

/// Queue the graph parents of the commit at `pos`; `None` when the graph reports corruption
/// (the parents read before it stay queued).
fn graph_parent_aliases(
    queue: &mut Vec<PendingCommit>,
    seen: &mut SeenCommits,
    graph: &gix::commitgraph::Graph,
    pos: u32,
    oids: &mut Oids,
    assign: bool,
    Ghost(roots): Ghost<Set<Seq<u8>>>,
) -> (r: Option<ParentAliases>)
    requires
        old(oids).wf(),
        seen.wf(),
        queue_positions_ok(old(queue)@, Some(*graph)),
        pos < graph_commits(*graph).len(),
    ensures
        reachable(Some(*graph), roots, graph_commits(*graph)[pos as int].0) && queue_reachable(old(queue)@, Some(*graph), roots)
            ==> queue_reachable(final(queue)@, Some(*graph), roots),
        queue_times_ok(old(queue)@, Some(*graph)) ==> queue_times_ok(final(queue)@, Some(*graph)),
        old(queue)@.is_prefix_of(final(queue)@),
        forall|k: int| old(queue)@.len() <= k < final(queue)@.len() ==> parent_edge(Some(*graph), graph_commits(*graph)[pos as int].0, oid_bytes(#[trigger] final(queue)@[k].oid)),
        final(seen).wf(),
        queue_positions_ok(final(queue)@, Some(*graph)),
        final(queue)@.len() + 2 * final(seen).budget() <= old(queue)@.len() + 2 * old(seen).budget(),
        final(seen).graph_positions@.len() == old(seen).graph_positions@.len(),
        r matches Some(p) ==> p.wf(),
        r is Some <==> graph_commits(*graph)[pos as int].3,
        r matches Some(p) ==> parents_recorded(p.list(), graph_ids(*graph, graph_commits(*graph)[pos as int].2), aliasing(assign, *final(oids))),
        queue_aliases_ok(old(queue)@, aliasing(assign, *old(oids))) ==> queue_aliases_ok(final(queue)@, aliasing(assign, *final(oids))),
        final(oids).wf(),
        !assign ==> *final(oids) == *old(oids),
        final(oids).sorted_aliases@ == old(oids).sorted_aliases@,
        final(oids).stashes@ == old(oids).stashes@,
        final(oids).zero == old(oids).zero,
        old(oids).by_alias@.is_prefix_of(final(oids).by_alias@),
{
    let (positions, complete) = graph_commit_parents(graph, pos);
    let ghost child = graph_commits(*graph)[pos as int].0;
    proof {
        lemma_graph_edges(*graph, pos as int, positions@);
    }
    let parents = enqueue_graph_parents(queue, seen, graph, &positions, oids, assign, Ghost(roots), Ghost(child));
    if complete {
        Some(parents)
    } else {
        None
    }
}

/// The parents a commit-graph entry's parent list yields are parent edges of its id.
proof fn lemma_graph_edges(g: gix::commitgraph::Graph, p: int, positions: Seq<u32>)
    requires
        0 <= p < graph_commits(g).len(),
        positions == graph_commits(g)[p].2,
    ensures
        forall|i: int| 0 <= i < positions.len() ==> parent_edge(Some(g), graph_commits(g)[p].0, graph_commits(g)[#[trigger] positions[i] as int].0),
{
    assert forall|i: int| 0 <= i < positions.len() implies parent_edge(Some(g), graph_commits(g)[p].0, graph_commits(g)[#[trigger] positions[i] as int].0) by {
        let e = graph_commits(g)[p];
        let ids = graph_ids(g, e.2);
        let b = graph_commits(g)[positions[i] as int].0;
        assert(ids.len() == positions.len());
        assert(ids[i] == b);
        assert(ids.contains(b));
        assert(e.0 == graph_commits(g)[p].0 && graph_ids(g, e.2).contains(b));
        let gg: Option<gix::commitgraph::Graph> = Some(g);
        assert(gg->0 == g);
        assert(exists|p2: int| 0 <= p2 < graph_commits(gg->0).len() && {
            let e2 = #[trigger] graph_commits(gg->0)[p2];
            e2.0 == graph_commits(g)[p].0 && graph_ids(gg->0, e2.2).contains(b)
        });
    }
}

/// Queue each graph position of `positions` and record one parent alias for each.
fn enqueue_graph_parents(
    queue: &mut Vec<PendingCommit>,
    seen: &mut SeenCommits,
    graph: &gix::commitgraph::Graph,
    positions: &Vec<u32>,
    oids: &mut Oids,
    assign: bool,
    Ghost(roots): Ghost<Set<Seq<u8>>>,
    Ghost(child): Ghost<Seq<u8>>,
) -> (parents: ParentAliases)
    requires
        old(oids).wf(),
        seen.wf(),
        queue_positions_ok(old(queue)@, Some(*graph)),
        forall|i: int| 0 <= i < positions@.len() ==> #[trigger] positions@[i] < graph_commits(*graph).len(),
        forall|i: int| 0 <= i < positions@.len() ==> parent_edge(Some(*graph), child, graph_commits(*graph)[#[trigger] positions@[i] as int].0),
    ensures
        reachable(Some(*graph), roots, child) && queue_reachable(old(queue)@, Some(*graph), roots) ==> queue_reachable(final(queue)@, Some(*graph), roots),
        queue_times_ok(old(queue)@, Some(*graph)) ==> queue_times_ok(final(queue)@, Some(*graph)),
        forall|k: int| old(queue)@.len() <= k < final(queue)@.len() ==> parent_edge(Some(*graph), child, oid_bytes(#[trigger] final(queue)@[k].oid)),
        parents.len as int == (if positions@.len() < 2 { positions@.len() as int } else { 2 }),
        !assign ==> parents.aliases@ == seq![NONE, NONE],
        parents_recorded(parents.list(), graph_ids(*graph, positions@), aliasing(assign, *final(oids))),
        old(queue)@.is_prefix_of(final(queue)@),
        queue_aliases_ok(old(queue)@, aliasing(assign, *old(oids))) ==> queue_aliases_ok(final(queue)@, aliasing(assign, *final(oids))),
        final(seen).wf(),
        queue_positions_ok(final(queue)@, Some(*graph)),
        final(queue)@.len() + 2 * final(seen).budget() <= old(queue)@.len() + 2 * old(seen).budget(),
        final(seen).graph_positions@.len() == old(seen).graph_positions@.len(),
        parents.wf(),
        final(oids).wf(),
        !assign ==> *final(oids) == *old(oids),
        final(oids).sorted_aliases@ == old(oids).sorted_aliases@,
        final(oids).stashes@ == old(oids).stashes@,
        final(oids).zero == old(oids).zero,
        old(oids).by_alias@.is_prefix_of(final(oids).by_alias@),
{
    let mut parents = ParentAliases::new();
    let mut i: usize = 0;
    while i < positions.len()
        invariant
            oids.wf(),
            !assign ==> *oids == *old(oids),
            oids.sorted_aliases@ == old(oids).sorted_aliases@,
            oids.stashes@ == old(oids).stashes@,
            oids.zero == old(oids).zero,
            old(oids).by_alias@.is_prefix_of(oids.by_alias@),
            seen.wf(),
            parents.wf(),
            i <= positions@.len(),
            parents.len as int == (if i < 2 { i as int } else { 2 }),
            !assign ==> parents.aliases@ == seq![NONE, NONE],
            parents_recorded(parents.list(), graph_ids(*graph, positions@.take(i as int)), aliasing(assign, *oids)),
            forall|k: int| 0 <= k < positions@.len() ==> parent_edge(Some(*graph), child, graph_commits(*graph)[#[trigger] positions@[k] as int].0),
            reachable(Some(*graph), roots, child) && queue_reachable(old(queue)@, Some(*graph), roots) ==> queue_reachable(queue@, Some(*graph), roots),
            queue_times_ok(old(queue)@, Some(*graph)) ==> queue_times_ok(queue@, Some(*graph)),
            forall|k: int| old(queue)@.len() <= k < queue@.len() ==> parent_edge(Some(*graph), child, oid_bytes(#[trigger] queue@[k].oid)),
            old(queue)@.is_prefix_of(queue@),
            queue_aliases_ok(old(queue)@, aliasing(assign, *old(oids))) ==> queue_aliases_ok(queue@, aliasing(assign, *oids)),
            queue_positions_ok(queue@, Some(*graph)),
            forall|k: int| 0 <= k < positions@.len() ==> #[trigger] positions@[k] < graph_commits(*graph).len(),
            queue@.len() + 2 * seen.budget() <= old(queue)@.len() + 2 * old(seen).budget(),
            seen.graph_positions@.len() == old(seen).graph_positions@.len(),
        decreases positions@.len() - i,
    {
        let parent_pos = positions[i];
        let parent_oid = graph_commit_id(graph, parent_pos);
        let ghost mid = *oids;
        let ghost q_mid = queue@;
        let ghost list_mid = parents.list();
        let parent_alias = alias_for(oids, assign, parent_oid);
        proof {
            lemma_prefix_trans(old(oids).by_alias@, mid.by_alias@, oids.by_alias@);
            let ps0 = graph_ids(*graph, positions@.take(i as int));
            let ps1 = graph_ids(*graph, positions@.take(i as int + 1));
            assert(ps1 =~= ps0.push(oid_bytes(parent_oid)));
            if assign {
                lemma_parents_recorded_kept(list_mid, ps0, mid, *oids);
                if queue_aliases_ok(old(queue)@, aliasing(assign, *old(oids))) {
                    lemma_queue_aliases_kept(q_mid, mid, *oids);
                }
            }
        }
        parents.push(parent_alias);
        proof {
            let ps1 = graph_ids(*graph, positions@.take(i as int + 1));
            assert(parents_recorded(parents.list(), ps1, aliasing(assign, *oids))) by {
                if list_mid.len() < 2 {
                    assert forall|k: int| 0 <= k < parents.list().len() implies (match aliasing(assign, *oids) {
                        None => #[trigger] parents.list()[k] == NONE,
                        Some(o) => parents.list()[k] == NONE || o.alias_of(ps1[k]) == Some(parents.list()[k]),
                    }) by {
                        if k < list_mid.len() {
                            assert(parents.list()[k] == list_mid[k]);
                        }
                    }
                }
            }
        }
        let ghost q_before = queue@;
        let _ = enqueue_graph_position(queue, seen, graph, parent_pos, parent_oid, parent_alias);
        proof {
            if queue@ != q_before {
                assert(parent_edge(Some(*graph), child, graph_commits(*graph)[positions@[i as int] as int].0));
                assert forall|k: int| old(queue)@.len() <= k < queue@.len() implies parent_edge(Some(*graph), child, oid_bytes(#[trigger] queue@[k].oid)) by {
                    if k < q_before.len() {
                        assert(queue@[k] == q_before[k]);
                    }
                }
            }
            if reachable(Some(*graph), roots, child) && queue_reachable(old(queue)@, Some(*graph), roots) && queue@ != q_before {
                assert(parent_edge(Some(*graph), child, graph_commits(*graph)[positions@[i as int] as int].0));
                lemma_parent_reachable(Some(*graph), roots, child, oid_bytes(parent_oid));
                assert forall|k: int| 0 <= k < queue@.len() implies reachable(Some(*graph), roots, oid_bytes(#[trigger] queue@[k].oid)) by {
                    if k < q_before.len() {
                        assert(queue@[k] == q_before[k]);
                    }
                }
            }
            lemma_prefix_trans_pending(old(queue)@, q_before, queue@);
            if queue_aliases_ok(old(queue)@, aliasing(assign, *old(oids))) && queue@ != q_before {
                assert forall|k: int| 0 <= k < queue@.len() implies alias_recorded((#[trigger] queue@[k]).oid, queue@[k].alias, aliasing(assign, *oids)) by {
                    if k < q_before.len() {
                        assert(queue@[k] == q_before[k]);
                    }
                }
            }
        }
        i += 1;
    }
    assert(positions@.take(positions@.len() as int) =~= positions@);
    parents
}

/// Queue each id of `parent_ids` and record one parent alias for each; errors reading a parent
/// leave it out.
fn loose_parent_aliases(
    queue: &mut Vec<PendingCommit>,
    seen: &mut SeenCommits,
    repo: &gix::Repository,
    commit_graph: Option<&gix::commitgraph::Graph>,
    time_buf: &mut Vec<u8>,
    parent_ids: &Vec<gix::ObjectId>,
    oids: &mut Oids,
    assign: bool,
    Ghost(yielded): Ghost<Set<Seq<u8>>>,
    Ghost(roots): Ghost<Set<Seq<u8>>>,
    Ghost(child): Ghost<Seq<u8>>,
) -> (parents: ParentAliases)
    requires
        old(oids).wf(),
        seen.wf(),
        queue_positions_ok(old(queue)@, graph_of(commit_graph)),
        forall|i: int| 0 <= i < parent_ids@.len() ==> parent_edge(graph_of(commit_graph), child, oid_bytes(#[trigger] parent_ids@[i])),
    ensures
        reachable(graph_of(commit_graph), roots, child) && queue_reachable(old(queue)@, graph_of(commit_graph), roots)
            ==> queue_reachable(final(queue)@, graph_of(commit_graph), roots),
        queue_times_ok(old(queue)@, graph_of(commit_graph)) ==> queue_times_ok(final(queue)@, graph_of(commit_graph)),
        forall|k: int| old(queue)@.len() <= k < final(queue)@.len() ==> parent_edge(graph_of(commit_graph), child, oid_bytes(#[trigger] final(queue)@[k].oid)),
        commit_graph is None ==> oid_set_contents(old(seen).loose_oids).subset_of(oid_set_contents(final(seen).loose_oids)),
        commit_graph is None ==> forall|k: int| 0 <= k < parent_ids@.len() ==> oid_set_contents(final(seen).loose_oids).contains(oid_bytes(#[trigger] parent_ids@[k])),
        commit_graph is None && loose_keys_ok(old(queue)@, *old(seen), yielded) ==> loose_keys_ok(final(queue)@, *final(seen), yielded),
        parents.len as int == (if parent_ids@.len() < 2 { parent_ids@.len() as int } else { 2 }),
        !assign ==> parents.aliases@ == seq![NONE, NONE],
        parents_recorded(parents.list(), oid_bytes_seq(parent_ids@), aliasing(assign, *final(oids))),
        old(queue)@.is_prefix_of(final(queue)@),
        queue_aliases_ok(old(queue)@, aliasing(assign, *old(oids))) ==> queue_aliases_ok(final(queue)@, aliasing(assign, *final(oids))),
        final(seen).wf(),
        queue_positions_ok(final(queue)@, graph_of(commit_graph)),
        final(queue)@.len() + 2 * final(seen).budget() <= old(queue)@.len() + 2 * old(seen).budget(),
        final(seen).graph_positions@.len() == old(seen).graph_positions@.len(),
        parents.wf(),
        final(oids).wf(),
        !assign ==> *final(oids) == *old(oids),
        final(oids).sorted_aliases@ == old(oids).sorted_aliases@,
        final(oids).stashes@ == old(oids).stashes@,
        final(oids).zero == old(oids).zero,
        old(oids).by_alias@.is_prefix_of(final(oids).by_alias@),
{
    let mut parents = ParentAliases::new();
    let mut i: usize = 0;
    while i < parent_ids.len()
        invariant
            oids.wf(),
            !assign ==> *oids == *old(oids),
            oids.sorted_aliases@ == old(oids).sorted_aliases@,
            oids.stashes@ == old(oids).stashes@,
            oids.zero == old(oids).zero,
            old(oids).by_alias@.is_prefix_of(oids.by_alias@),
            seen.wf(),
            parents.wf(),
            i <= parent_ids@.len(),
            parents.len as int == (if i < 2 { i as int } else { 2 }),
            !assign ==> parents.aliases@ == seq![NONE, NONE],
            parents_recorded(parents.list(), oid_bytes_seq(parent_ids@.take(i as int)), aliasing(assign, *oids)),
            commit_graph is None && loose_keys_ok(old(queue)@, *old(seen), yielded) ==> loose_keys_ok(queue@, *seen, yielded),
            forall|k: int| 0 <= k < parent_ids@.len() ==> parent_edge(graph_of(commit_graph), child, oid_bytes(#[trigger] parent_ids@[k])),
            reachable(graph_of(commit_graph), roots, child) && queue_reachable(old(queue)@, graph_of(commit_graph), roots)
                ==> queue_reachable(queue@, graph_of(commit_graph), roots),
            queue_times_ok(old(queue)@, graph_of(commit_graph)) ==> queue_times_ok(queue@, graph_of(commit_graph)),
            forall|k: int| old(queue)@.len() <= k < queue@.len() ==> parent_edge(graph_of(commit_graph), child, oid_bytes(#[trigger] queue@[k].oid)),
            commit_graph is None ==> oid_set_contents(old(seen).loose_oids).subset_of(oid_set_contents(seen.loose_oids)),
            commit_graph is None ==> forall|k: int| 0 <= k < i ==> oid_set_contents(seen.loose_oids).contains(oid_bytes(#[trigger] parent_ids@[k])),
            old(queue)@.is_prefix_of(queue@),
            queue_aliases_ok(old(queue)@, aliasing(assign, *old(oids))) ==> queue_aliases_ok(queue@, aliasing(assign, *oids)),
            queue_positions_ok(queue@, graph_of(commit_graph)),
            queue@.len() + 2 * seen.budget() <= old(queue)@.len() + 2 * old(seen).budget(),
            seen.graph_positions@.len() == old(seen).graph_positions@.len(),
        decreases parent_ids@.len() - i,
    {
        let parent_oid = parent_ids[i];
        let ghost mid = *oids;
        let ghost q_mid = queue@;
        let ghost list_mid = parents.list();
        let parent_alias = alias_for(oids, assign, parent_oid);
        proof {
            lemma_prefix_trans(old(oids).by_alias@, mid.by_alias@, oids.by_alias@);
            let ps0 = oid_bytes_seq(parent_ids@.take(i as int));
            let ps1 = oid_bytes_seq(parent_ids@.take(i as int + 1));
            assert(ps1 =~= ps0.push(oid_bytes(parent_oid)));
            if assign {
                lemma_parents_recorded_kept(list_mid, ps0, mid, *oids);
                if queue_aliases_ok(old(queue)@, aliasing(assign, *old(oids))) {
                    lemma_queue_aliases_kept(q_mid, mid, *oids);
                }
            }
        }
        parents.push(parent_alias);
        proof {
            let ps1 = oid_bytes_seq(parent_ids@.take(i as int + 1));
            assert(parents_recorded(parents.list(), ps1, aliasing(assign, *oids))) by {
                if list_mid.len() < 2 {
                    assert forall|k: int| 0 <= k < parents.list().len() implies (match aliasing(assign, *oids) {
                        None => #[trigger] parents.list()[k] == NONE,
                        Some(o) => parents.list()[k] == NONE || o.alias_of(ps1[k]) == Some(parents.list()[k]),
                    }) by {
                        if k < list_mid.len() {
                            assert(parents.list()[k] == list_mid[k]);
                        }
                    }
                }
            }
        }
        let ghost q_before = queue@;
        let ghost s_before = oid_set_contents(seen.loose_oids);
        let _ = enqueue_commit(queue, seen, repo, commit_graph, time_buf, parent_oid, parent_alias, Ghost(yielded));
        proof {
            if commit_graph is None {
                assert(oid_set_contents(seen.loose_oids) == s_before.insert(oid_bytes(parent_oid)));
            }
        }
        proof {
            if queue@ != q_before {
                assert(parent_edge(graph_of(commit_graph), child, oid_bytes(parent_ids@[i as int])));
                assert forall|k: int| old(queue)@.len() <= k < queue@.len() implies parent_edge(graph_of(commit_graph), child, oid_bytes(#[trigger] queue@[k].oid)) by {
                    if k < q_before.len() {
                        assert(queue@[k] == q_before[k]);
                    }
                }
            }
            if reachable(graph_of(commit_graph), roots, child) && queue_reachable(old(queue)@, graph_of(commit_graph), roots) && queue@ != q_before {
                assert(parent_edge(graph_of(commit_graph), child, oid_bytes(parent_ids@[i as int])));
                lemma_parent_reachable(graph_of(commit_graph), roots, child, oid_bytes(parent_oid));
                assert forall|k: int| 0 <= k < queue@.len() implies reachable(graph_of(commit_graph), roots, oid_bytes(#[trigger] queue@[k].oid)) by {
                    if k < q_before.len() {
                        assert(queue@[k] == q_before[k]);
                    }
                }
            }
            if queue@ != q_before {
                lemma_prefix_trans_pending(old(queue)@, q_before, queue@);
                if queue_aliases_ok(old(queue)@, aliasing(assign, *old(oids))) {
                    assert forall|k: int| 0 <= k < queue@.len() implies alias_recorded((#[trigger] queue@[k]).oid, queue@[k].alias, aliasing(assign, *oids)) by {
                        if k < q_before.len() {
                            assert(queue@[k] == q_before[k]);
                        }
                    }
                }
            }
        }
        i += 1;
    }
    assert(parent_ids@.take(parent_ids@.len() as int) =~= parent_ids@);
    parents
}

/// Whether `q1` and `s1` are `q0` and `s0` after offering graph position `pos` (commit `oid`,
/// alias `alias`): queued with its stored commit time and marked when the position was not seen
/// before, else both unchanged.
spec fn offered_graph_position(
    q0: Seq<PendingCommit>,
    s0: SeenCommits,
    q1: Seq<PendingCommit>,
    s1: SeenCommits,
    graph: gix::commitgraph::Graph,
    pos: u32,
    oid: gix::ObjectId,
    alias: u32,
) -> bool {
    let newly = pos as int / 64 < s0.graph_positions@.len() && !bit_set(s0.graph_positions@, pos as int);
    &&& s1.loose_oids == s0.loose_oids
    &&& if newly {
        &&& q1 == q0.push(PendingCommit { commit_time: graph_commits(graph)[pos as int].1 as i64, oid, alias, graph_pos: Some(pos) })
        &&& set_positions(s1.graph_positions@) == set_positions(s0.graph_positions@).insert(pos as int)
    } else {
        &&& q1 == q0
        &&& set_positions(s1.graph_positions@) == set_positions(s0.graph_positions@)
    }
}

/// Whether the graph, if there is one, does not store the commit `oid`.
spec fn outside_graph(commit_graph: Option<gix::commitgraph::Graph>, oid: gix::ObjectId) -> bool {
    match commit_graph {
        Some(g) => forall|p: int| 0 <= p < graph_commits(g).len() ==> (#[trigger] graph_commits(g)[p]).0 != oid_bytes(oid),
        None => true,
    }
}

/// Queue `oid` unless it was queued before: by graph position when the graph stores it, else
/// by id with the committer time read from the object.
fn enqueue_commit(
    queue: &mut Vec<PendingCommit>,
    seen: &mut SeenCommits,
    repo: &gix::Repository,
    commit_graph: Option<&gix::commitgraph::Graph>,
    time_buf: &mut Vec<u8>,
    oid: gix::ObjectId,
    alias: u32,
    Ghost(yielded): Ghost<Set<Seq<u8>>>,
) -> (r: Result<(), git2::Error>)
    requires
        seen.wf(),
        queue_positions_ok(old(queue)@, graph_of(commit_graph)),
    ensures
        commit_graph is None && loose_keys_ok(old(queue)@, *old(seen), yielded) ==> loose_keys_ok(final(queue)@, *final(seen), yielded),
        final(seen).wf(),
        queue_positions_ok(final(queue)@, graph_of(commit_graph)),
        final(queue)@.len() + 2 * final(seen).budget() <= old(queue)@.len() + 2 * old(seen).budget(),
        final(seen).graph_positions@.len() == old(seen).graph_positions@.len(),
        pushed_or_same(old(queue)@, final(queue)@, oid, alias),
        r is Err ==> final(queue)@ == old(queue)@,
        queue_times_ok(old(queue)@, graph_of(commit_graph)) ==> queue_times_ok(final(queue)@, graph_of(commit_graph)),
        outside_graph(graph_of(commit_graph), oid) ==> {
            &&& final(seen).graph_positions == old(seen).graph_positions
            &&& oid_set_contents(final(seen).loose_oids) == oid_set_contents(old(seen).loose_oids).insert(oid_bytes(oid))
            &&& oid_set_contents(old(seen).loose_oids).contains(oid_bytes(oid)) ==> r is Ok && final(queue)@ == old(queue)@
            &&& r is Err ==> final(queue)@ == old(queue)@
            &&& !oid_set_contents(old(seen).loose_oids).contains(oid_bytes(oid)) && r is Ok ==> final(queue)@.len() == old(queue)@.len() + 1
                && old(queue)@.is_prefix_of(final(queue)@) && final(queue)@.last().oid == oid && final(queue)@.last().alias == alias
                && final(queue)@.last().graph_pos is None
        },
{
    if let Some(graph) = commit_graph {
        if let Some(pos) = graph_lookup(graph, &oid) {
            return enqueue_graph_position(queue, seen, graph, pos, oid, alias);
        }
    }
    let ghost before = *seen;
    if !seen.insert_loose_oid(oid) {
        assert(oid_set_contents(seen.loose_oids) =~= oid_set_contents(before.loose_oids));
        return Ok(());
    }
    proof {
        lemma_positions_bounded(seen.graph_positions@);
    }
    let commit_time = match find_commit_time(commit_graph, repo, &oid, time_buf) {
        Ok(t) => t,
        Err(e) => {
            return Err(e);
        },
    };
    let ghost q0 = queue@;
    queue.push(PendingCommit { commit_time, oid, alias, graph_pos: None });
    proof {
        assert forall|i: int| 0 <= i < queue@.len() && queue_times_ok(q0, graph_of(commit_graph)) implies time_read(graph_of(commit_graph), oid_bytes(#[trigger] queue@[i].oid), queue@[i].commit_time) by {
            if i < q0.len() {
                assert(queue@[i] == q0[i]);
            }
        }
        if commit_graph is None && loose_keys_ok(q0, before, yielded) {
            assert forall|i: int, j: int| 0 <= i < j < queue@.len() implies oid_bytes(#[trigger] queue@[i].oid) != oid_bytes(#[trigger] queue@[j].oid) by {
                if j < q0.len() {
                    assert(queue@[i] == q0[i] && queue@[j] == q0[j]);
                } else {
                    assert(queue@[i] == q0[i]);
                    assert(oid_set_contents(before.loose_oids).contains(oid_bytes(q0[i].oid)));
                }
            }
            assert forall|i: int| 0 <= i < queue@.len() implies oid_set_contents(seen.loose_oids).contains(oid_bytes(#[trigger] queue@[i].oid))
                && !yielded.contains(oid_bytes(queue@[i].oid)) by {
                if i < q0.len() {
                    assert(queue@[i] == q0[i]);
                }
            }
        }
    }
    Ok(())
}

/// Queue the commit at graph position `pos` unless it was queued before.
fn enqueue_graph_position(
    queue: &mut Vec<PendingCommit>,
    seen: &mut SeenCommits,
    graph: &gix::commitgraph::Graph,
    pos: u32,
    oid: gix::ObjectId,
    alias: u32,
) -> (r: Result<(), git2::Error>)
    requires
        seen.wf(),
        queue_positions_ok(old(queue)@, Some(*graph)),
        pos < graph_commits(*graph).len(),
        graph_commits(*graph)[pos as int].0 == oid_bytes(oid),
    ensures
        final(seen).wf(),
        queue_positions_ok(final(queue)@, Some(*graph)),
        final(queue)@.len() + 2 * final(seen).budget() <= old(queue)@.len() + 2 * old(seen).budget(),
        final(seen).graph_positions@.len() == old(seen).graph_positions@.len(),
        r is Ok,
        offered_graph_position(old(queue)@, *old(seen), final(queue)@, *final(seen), *graph, pos, oid, alias),
        pushed_or_same(old(queue)@, final(queue)@, oid, alias),
        queue_times_ok(old(queue)@, Some(*graph)) ==> queue_times_ok(final(queue)@, Some(*graph)),
{
    let ghost before = *seen;
    if !seen.insert_graph_pos(pos) {
        return Ok(());
    }
    proof {
        lemma_positions_bounded(seen.graph_positions@);
    }
    let commit_time = graph_commit_time(graph, pos);
    let ghost q0 = queue@;
    queue.push(PendingCommit { commit_time, oid, alias, graph_pos: Some(pos) });
    proof {
        lemma_graph_time_read(*graph, pos as int);
        assert forall|i: int| 0 <= i < queue@.len() && queue_times_ok(q0, Some(*graph)) implies time_read(Some(*graph), oid_bytes(#[trigger] queue@[i].oid), queue@[i].commit_time) by {
            if i < q0.len() {
                assert(queue@[i] == q0[i]);
            }
        }
    }
    Ok(())
}

proof fn lemma_aliased_roots(aliased: Seq<(gix::ObjectId, u32)>, tips: Seq<gix::ObjectId>)
    requires
        aliased.len() == tips.len(),
        forall|k: int| 0 <= k < aliased.len() ==> (#[trigger] aliased[k]).0 == tips[k],
    ensures
        aliased_root_set(aliased) == root_set(tips),
{
    assert forall|x: Seq<u8>| aliased_root_set(aliased).contains(x) <==> #[trigger] root_set(tips).contains(x) by {
        if aliased_root_set(aliased).contains(x) {
            let i = choose|i: int| 0 <= i < aliased.len() && oid_bytes(aliased[i].0) == x;
            assert(aliased[i].0 == tips[i]);
        }
        if root_set(tips).contains(x) {
            let i = choose|i: int| 0 <= i < tips.len() && oid_bytes(tips[i]) == x;
            assert(aliased[i].0 == tips[i]);
        }
    }
    assert(aliased_root_set(aliased) =~= root_set(tips));
}

/// Whether `tips` are branch tips as some read of the references gives them (see
/// `branch_tips_from`).
pub open spec fn tips_read(tips: Seq<BranchTip>) -> bool {
    exists|refs: Seq<(bool, Vec<u8>, Option<gix::ObjectId>)>| #[trigger] branch_tips_from(refs, refs.len() as int) == tip_views(tips)
}

/// Whether `roots` are the ids of the tips among `tips` whose name is not `hidden`, and of
/// `extra`.
pub open spec fn roots_from(roots: Set<Seq<u8>>, tips: Seq<BranchTip>, hidden: Set<Seq<char>>, extra: Seq<gix::ObjectId>) -> bool {
    forall|x: Seq<u8>| #[trigger] roots.contains(x) <==> (
        (exists|k: int| 0 <= k < tips.len() && oid_bytes(tips[k].oid) == x && !hidden.contains(tips[k].name@))
        || has_oid(extra, x))
}

/// Whether `roots` are the walk roots for some read of the branch tips (see `walk_roots`).
pub open spec fn branch_walk_roots(roots: Set<Seq<u8>>, hidden: Set<Seq<char>>, extra: Seq<gix::ObjectId>) -> bool {
    exists|tips: Seq<BranchTip>| #[trigger] tips_read(tips) && roots_from(roots, tips, hidden, extra)
}

/// A lazy history walk that yields pages of commits, newest commit time first.
pub struct Batcher {
    cursor: Option<CommitCursor>,
    yielded: Ghost<Set<Seq<u8>>>,
    roots: Ghost<Set<Seq<u8>>>,
    last_time: Ghost<Option<i64>>,
    graphless: Ghost<bool>,
    reached: Ghost<Set<Seq<u8>>>,
    dropped: Ghost<Set<Seq<u8>>>,
}

impl Batcher {
    pub closed spec fn wf(&self) -> bool {
        &&& self.cursor matches Some(c) ==> c.wf() && (c.commit_graph is None ==> loose_keys_ok(c.queue@, c.seen, self.yielded@))
            && queue_reachable(c.queue@, c.commit_graph, self.roots@)
            && queue_times_ok(c.queue@, c.commit_graph)
            && (times_follow_parents(c.commit_graph) ==> queue_times_below(c.queue@, self.last_time@))
            && self.graphless@ == (c.commit_graph is None)
            && (c.commit_graph is None ==> self.reached@ == oid_set_contents(c.seen.loose_oids))
        &&& self.graphless@ ==> self.roots@.subset_of(self.reached@) && self.yielded@.subset_of(self.reached@)
            && parents_within(self.yielded@, self.reached@)
        &&& self.graphless@ && self.cursor is None ==> self.reached@.subset_of(self.yielded@.union(self.dropped@))
    }

    /// Whether the walk reads no commit-graph: every commit comes from its object.
    pub closed spec fn graphless(&self) -> bool {
        self.graphless@
    }

    /// For a walk without a commit-graph, the ids it marked to visit but could not read (and so
    /// did not yield), as of the last page.
    pub closed spec fn unread(&self) -> Set<Seq<u8>> {
        self.dropped@
    }

    /// A walk without a commit-graph that is over and left nothing unread has yielded every
    /// commit reachable from its roots.
    pub proof fn lemma_walk_complete(&self)
        requires
            self.wf(),
            self.is_exhausted(),
            self.graphless(),
            self.unread() == Set::<Seq<u8>>::empty(),
        ensures
            forall|x: Seq<u8>| #[trigger] reachable(None, self.roots(), x) ==> self.yielded().contains(x),
    {
        assert forall|x: Seq<u8>| #[trigger] reachable(None, self.roots(), x) implies self.yielded().contains(x) by {
            let p = choose|p: Seq<Seq<u8>>| #[trigger] walk_path(None, self.roots(), p) && p.last() == x;
            assert(self.reached@.subset_of(self.yielded@)) by {
                assert forall|y: Seq<u8>| self.reached@.contains(y) implies #[trigger] self.yielded@.contains(y) by {
                    assert(self.yielded@.union(self.dropped@).contains(y));
                }
            }
            lemma_path_yielded(self.roots@, self.reached@, self.yielded@, p, p.len() - 1);
        }
    }

    /// The walk with `cursor`, from `roots`, before any page.
    fn start(cursor: CommitCursor, Ghost(roots): Ghost<Set<Seq<u8>>>) -> (b: Batcher)
        requires
            cursor.wf(),
            cursor.commit_graph is None ==> loose_keys_ok(cursor.queue@, cursor.seen, Set::empty()),
            cursor.commit_graph is None ==> roots.subset_of(oid_set_contents(cursor.seen.loose_oids)),
            queue_reachable(cursor.queue@, cursor.commit_graph, roots),
            queue_times_ok(cursor.queue@, cursor.commit_graph),
        ensures
            b.wf(),
            b.cursor == Some(cursor),
            b.yielded() == Set::<Seq<u8>>::empty(),
            b.roots() == roots,
            b.last_time() is None,
            b.graphless() == (b.walk_graph() is None),
            b.unread() == Set::<Seq<u8>>::empty(),
    {
        let ghost graphless = cursor.commit_graph is None;
        let ghost reached = oid_set_contents(cursor.seen.loose_oids);
        Batcher {
            cursor: Some(cursor),
            yielded: Ghost(Set::empty()),
            roots: Ghost(roots),
            last_time: Ghost(None),
            graphless: Ghost(graphless),
            reached: Ghost(reached),
            dropped: Ghost(Set::empty()),
        }
    }

    /// Whether a commit is pending at a commit-graph position whose parent list the graph holds
    /// whole: such a commit is always read, so the next page is not empty.
    pub closed spec fn has_whole_graph_commit(&self) -> bool {
        self.cursor matches Some(c) && exists|i: int| 0 <= i < c.queue@.len() && whole_graph_entry(#[trigger] c.queue@[i], c.commit_graph)
    }

    /// The commit time of the last commit the walk yielded, if any.
    pub closed spec fn last_time(&self) -> Option<i64> {
        self.last_time@
    }

    /// The ids the walk started from.
    pub closed spec fn roots(&self) -> Set<Seq<u8>> {
        self.roots@
    }

    /// The ids of the commits the walk has yielded so far.
    pub closed spec fn yielded(&self) -> Set<Seq<u8>> {
        self.yielded@
    }

    /// Whether the walk is over: every later page is empty.
    pub closed spec fn is_exhausted(&self) -> bool {
        self.cursor is None
    }

    /// The commit-graph the walk reads, if any, while it is not over.
    pub closed spec fn walk_graph(&self) -> Option<gix::commitgraph::Graph> {
        match self.cursor {
            Some(c) => c.commit_graph,
            None => None,
        }
    }

    /// Whether every commit still to come carries an alias recorded against `oids` (see
    /// `alias_recorded`: `NONE` throughout when `oids` is `None`).
    pub closed spec fn aliases_recorded(&self, oids: Option<Oids>) -> bool {
        self.cursor matches Some(c) ==> queue_aliases_ok(c.queue@, oids)
    }

    /// A walk over the history reachable from `tips`.
    pub fn from_tips(repo: &gix::Repository, tips: Vec<gix::ObjectId>) -> (r: Result<Batcher, git2::Error>)
        ensures
            r matches Ok(b) ==> b.wf() && !b.is_exhausted() && b.aliases_recorded(None) && b.yielded() == Set::<Seq<u8>>::empty(),
            r matches Ok(b) ==> b.roots() == root_set(tips@),
            r matches Ok(b) ==> b.graphless() == (b.walk_graph() is None) && b.unread() == Set::<Seq<u8>>::empty(),
            tips@.len() == 0 ==> r is Ok,
    {
        let ghost roots = root_set(tips@);
        match Self::cursor_from_tips(repo, tips) {
            Ok(cursor) => Ok(Self::start(cursor, Ghost(roots))),
            Err(e) => Err(e),
        }
    }

    /// A walk over the history reachable from `tips`, each tip given its alias in `oids` (a new
    /// one for ids that have none).
    pub fn from_tips_with_oids(repo: &gix::Repository, tips: Vec<gix::ObjectId>, oids: &mut Oids) -> (r: Result<Batcher, git2::Error>)
        requires
            old(oids).wf(),
        ensures
            final(oids).wf(),
            old(oids).by_alias@.is_prefix_of(final(oids).by_alias@),
            final(oids).sorted_aliases@ == old(oids).sorted_aliases@,
            final(oids).stashes@ == old(oids).stashes@,
            final(oids).zero == old(oids).zero,
            old(oids).by_alias@.len() + tips@.len() <= 0xFFFF_FFFF ==> forall|i: int| 0 <= i < tips@.len() ==> (#[trigger] final(oids).alias_of(oid_bytes(tips@[i]))) is Some,
            r matches Ok(b) ==> b.wf() && !b.is_exhausted() && b.aliases_recorded(Some(*final(oids))) && b.yielded() == Set::<Seq<u8>>::empty(),
            r matches Ok(b) ==> b.roots() == root_set(tips@),
            r matches Ok(b) ==> b.graphless() == (b.walk_graph() is None) && b.unread() == Set::<Seq<u8>>::empty(),
    {
        oids.reserve_aliases(tips.len());
        let ghost start = *oids;
        let mut aliased: Vec<(gix::ObjectId, u32)> = Vec::new();
        let mut i: usize = 0;
        while i < tips.len()
            invariant
                i <= tips@.len(),
                oids.wf(),
                start.wf(),
                old(oids).by_alias@ == start.by_alias@,
                start.by_alias@.is_prefix_of(oids.by_alias@),
                oids.by_alias@.len() <= start.by_alias@.len() + i,
                oids.sorted_aliases@ == old(oids).sorted_aliases@,
                oids.stashes@ == old(oids).stashes@,
                oids.zero == old(oids).zero,
                start.by_alias@.len() + tips@.len() <= 0xFFFF_FFFF ==> forall|k: int| 0 <= k < i ==> (#[trigger] oids.alias_of(oid_bytes(tips@[k]))) is Some,
                forall|k: int| 0 <= k < aliased@.len() ==> alias_recorded((#[trigger] aliased@[k]).0, aliased@[k].1, Some(*oids)),
                aliased@.len() == i,
                forall|k: int| 0 <= k < aliased@.len() ==> (#[trigger] aliased@[k]).0 == tips@[k],
            decreases tips@.len() - i,
        {
            let ghost before = *oids;
            let ghost prev = aliased@;
            let alias = alias_for(oids, true, tips[i]);
            proof {
                assert forall|k: int| 0 <= k < prev.len() implies alias_recorded((#[trigger] prev[k]).0, prev[k].1, Some(*oids)) by {
                    lemma_alias_recorded_kept(prev[k].0, prev[k].1, before, *oids);
                }
                lemma_prefix_trans(start.by_alias@, before.by_alias@, oids.by_alias@);
                if start.by_alias@.len() + tips@.len() <= 0xFFFF_FFFF {
                    assert forall|k: int| 0 <= k < i + 1 implies (#[trigger] oids.alias_of(oid_bytes(tips@[k]))) is Some by {
                        if k < i {
                            lemma_alias_kept(before, *oids, oid_bytes(tips@[k]));
                        }
                    }
                }
            }
            aliased.push((tips[i], alias));
            proof {
                assert forall|k: int| 0 <= k < aliased@.len() implies alias_recorded((#[trigger] aliased@[k]).0, aliased@[k].1, Some(*oids)) by {
                    if k < prev.len() {
                        assert(aliased@[k] == prev[k]);
                    }
                }
            }
            i += 1;
        }
        proof {
            lemma_aliased_roots(aliased@, tips@);
        }
        let ghost roots = root_set(tips@);
        match Self::cursor_from_aliased_tips(repo, aliased, Ghost(Some(*oids))) {
            Ok(cursor) => Ok(Self::start(cursor, Ghost(roots))),
            Err(e) => Err(e),
        }
    }

    /// A walk over the history reachable from the visible local and remote branch tips and
    /// from `extra_roots` (see `walk_roots`).
    pub fn new(repo: &gix::Repository, hidden_branch_names: &im::HashSet<String>, extra_roots: Vec<gix::ObjectId>) -> (r: Result<Batcher, git2::Error>)
        ensures
            r matches Ok(b) ==> b.wf() && !b.is_exhausted() && b.aliases_recorded(None) && b.yielded() == Set::<Seq<u8>>::empty(),
            r matches Ok(b) ==> branch_walk_roots(b.roots(), hidden_names(*hidden_branch_names), extra_roots@),
            r matches Ok(b) ==> b.graphless() == (b.walk_graph() is None) && b.unread() == Set::<Seq<u8>>::empty(),
    {
        match Self::build(repo, hidden_branch_names, extra_roots) {
            Ok((cursor, roots)) => Ok(Self::start(cursor, roots)),
            Err(e) => Err(e),
        }
    }

    /// Restart the walk from the current branch tips and `extra_roots`.
    pub fn reset(&mut self, repo: &gix::Repository, hidden_branch_names: &im::HashSet<String>, extra_roots: Vec<gix::ObjectId>) -> (r: Result<(), git2::Error>)
        requires
            old(self).wf(),
        ensures
            final(self).wf(),
            r is Ok ==> !final(self).is_exhausted() && final(self).aliases_recorded(None) && final(self).yielded() == Set::<Seq<u8>>::empty(),
            r is Ok ==> branch_walk_roots(final(self).roots(), hidden_names(*hidden_branch_names), extra_roots@),
            r is Ok ==> final(self).graphless() == (final(self).walk_graph() is None) && final(self).unread() == Set::<Seq<u8>>::empty(),
            r is Err ==> *final(self) == *old(self),
    {
        match Self::build(repo, hidden_branch_names, extra_roots) {
            Ok((cursor, roots)) => {
                *self = Self::start(cursor, roots);
                Ok(())
            },
            Err(e) => Err(e),
        }
    }

    /// Append the next page of at most `count` commits to `out` and return how many were added.
    /// The commits already in `out` stay; a page shorter than `count` ends the walk. Each commit
    /// added carries its commit time and its first two parents as the walk read them (see
    /// `walked_parents`), with `NONE` aliases, and is reachable from the walk's roots. Without a
    /// commit-graph no commit is yielded twice over the whole walk. Where no commit is read as
    /// newer than a child of it, the commits come newest first, across pages too.
    pub fn next_into(&mut self, count: usize, out: &mut Vec<WalkedCommit>) -> (fetched: usize)
        requires
            old(self).wf(),
        ensures
            final(self).wf(),
            fetched <= count,
            final(out)@.len() == old(out)@.len() + fetched,
            final(out)@.take(old(out)@.len() as int) == old(out)@,
            forall|i: int| old(out)@.len() <= i < final(out)@.len() ==> (#[trigger] final(out)@[i]).wf(),
            fetched < count ==> final(self).is_exhausted(),
            old(self).is_exhausted() ==> fetched == 0 && final(self).is_exhausted(),
            !final(self).is_exhausted() ==> final(self).walk_graph() == old(self).walk_graph(),
            forall|i: int| old(out)@.len() <= i < final(out)@.len() ==> (#[trigger] final(out)@[i]).commit_time is Some
                && walked_parents(old(self).walk_graph(), final(out)@[i], None),
            old(self).aliases_recorded(None) ==> final(self).aliases_recorded(None)
                && forall|i: int| old(out)@.len() <= i < final(out)@.len() ==> (#[trigger] final(out)@[i]).alias == NONE,
            old(self).yielded().subset_of(final(self).yielded()),
            forall|i: int| old(out)@.len() <= i < final(out)@.len() ==> final(self).yielded().contains(oid_bytes(#[trigger] final(out)@[i].oid)),
            old(self).walk_graph() is None ==> forall|i: int| old(out)@.len() <= i < final(out)@.len() ==> !old(self).yielded().contains(oid_bytes(#[trigger] final(out)@[i].oid)),
            old(self).walk_graph() is None ==> forall|i: int, j: int| old(out)@.len() <= i < j < final(out)@.len() ==> oid_bytes(#[trigger] final(out)@[i].oid) != oid_bytes(#[trigger] final(out)@[j].oid),
            final(self).roots() == old(self).roots(),
            forall|i: int| old(out)@.len() <= i < final(out)@.len() ==> reachable(old(self).walk_graph(), old(self).roots(), oid_bytes(#[trigger] final(out)@[i].oid)),
            times_follow_parents(old(self).walk_graph()) ==> forall|i: int, j: int| old(out)@.len() <= i < j < final(out)@.len()
                ==> (#[trigger] final(out)@[j]).commit_time->0 <= (#[trigger] final(out)@[i]).commit_time->0,
            times_follow_parents(old(self).walk_graph()) && old(self).last_time() is Some ==> forall|i: int| old(out)@.len() <= i < final(out)@.len()
                ==> (#[trigger] final(out)@[i]).commit_time->0 <= old(self).last_time()->0,
            final(out)@.len() > old(out)@.len() ==> final(self).last_time() == final(out)@.last().commit_time,
            final(out)@.len() == old(out)@.len() ==> final(self).last_time() == old(self).last_time(),
            count > 0 && old(self).has_whole_graph_commit() ==> fetched > 0,
            final(self).graphless() == old(self).graphless(),
            final(self).is_exhausted() && final(self).graphless() && final(self).unread() == Set::<Seq<u8>>::empty()
                ==> forall|x: Seq<u8>| #[trigger] reachable(None, final(self).roots(), x) ==> final(self).yielded().contains(x),
    {
        let mut unused = Oids::new();
        self.take_into(count, out, &mut unused, false)
    }

    /// As `next_into`, giving each commit and its parents their aliases in `oids` (new ones for
    /// ids that have none): each recorded parent alias is the alias `oids` gives that parent, or
    /// `NONE` once the alias space is used up.
    pub fn next_aliased_into(&mut self, count: usize, out: &mut Vec<WalkedCommit>, oids: &mut Oids) -> (fetched: usize)
        requires
            old(self).wf(),
            old(oids).wf(),
        ensures
            final(self).wf(),
            final(oids).wf(),
            old(oids).by_alias@.is_prefix_of(final(oids).by_alias@),
            final(oids).sorted_aliases@ == old(oids).sorted_aliases@,
            final(oids).stashes@ == old(oids).stashes@,
            final(oids).zero == old(oids).zero,
            fetched <= count,
            final(out)@.len() == old(out)@.len() + fetched,
            final(out)@.take(old(out)@.len() as int) == old(out)@,
            forall|i: int| old(out)@.len() <= i < final(out)@.len() ==> (#[trigger] final(out)@[i]).wf(),
            fetched < count ==> final(self).is_exhausted(),
            old(self).is_exhausted() ==> fetched == 0 && final(self).is_exhausted(),
            !final(self).is_exhausted() ==> final(self).walk_graph() == old(self).walk_graph(),
            forall|i: int| old(out)@.len() <= i < final(out)@.len() ==> (#[trigger] final(out)@[i]).commit_time is Some
                && walked_parents(old(self).walk_graph(), final(out)@[i], Some(*final(oids))),
            old(self).aliases_recorded(Some(*old(oids))) ==> final(self).aliases_recorded(Some(*final(oids)))
                && forall|i: int| old(out)@.len() <= i < final(out)@.len() ==> alias_recorded((#[trigger] final(out)@[i]).oid, final(out)@[i].alias, Some(*final(oids))),
            old(self).yielded().subset_of(final(self).yielded()),
            forall|i: int| old(out)@.len() <= i < final(out)@.len() ==> final(self).yielded().contains(oid_bytes(#[trigger] final(out)@[i].oid)),
            old(self).walk_graph() is None ==> forall|i: int| old(out)@.len() <= i < final(out)@.len() ==> !old(self).yielded().contains(oid_bytes(#[trigger] final(out)@[i].oid)),
            old(self).walk_graph() is None ==> forall|i: int, j: int| old(out)@.len() <= i < j < final(out)@.len() ==> oid_bytes(#[trigger] final(out)@[i].oid) != oid_bytes(#[trigger] final(out)@[j].oid),
            final(self).roots() == old(self).roots(),
            forall|i: int| old(out)@.len() <= i < final(out)@.len() ==> reachable(old(self).walk_graph(), old(self).roots(), oid_bytes(#[trigger] final(out)@[i].oid)),
            times_follow_parents(old(self).walk_graph()) ==> forall|i: int, j: int| old(out)@.len() <= i < j < final(out)@.len()
                ==> (#[trigger] final(out)@[j]).commit_time->0 <= (#[trigger] final(out)@[i]).commit_time->0,
            times_follow_parents(old(self).walk_graph()) && old(self).last_time() is Some ==> forall|i: int| old(out)@.len() <= i < final(out)@.len()
                ==> (#[trigger] final(out)@[i]).commit_time->0 <= old(self).last_time()->0,
            final(out)@.len() > old(out)@.len() ==> final(self).last_time() == final(out)@.last().commit_time,
            final(out)@.len() == old(out)@.len() ==> final(self).last_time() == old(self).last_time(),
            count > 0 && old(self).has_whole_graph_commit() ==> fetched > 0,
            final(self).graphless() == old(self).graphless(),
            final(self).is_exhausted() && final(self).graphless() && final(self).unread() == Set::<Seq<u8>>::empty()
                ==> forall|x: Seq<u8>| #[trigger] reachable(None, final(self).roots(), x) ==> final(self).yielded().contains(x),
    {
        let room = if count > usize::MAX / 2 { usize::MAX } else { count * 2 };
        let ghost before = *oids;
        oids.reserve_aliases(room);
        proof {
            if old(self).aliases_recorded(Some(before)) && self.cursor is Some {
                let c = self.cursor->0;
                assert forall|j: int| 0 <= j < c.queue@.len() implies alias_recorded((#[trigger] c.queue@[j]).oid, c.queue@[j].alias, Some(*oids)) by {
                    assert(alias_recorded(c.queue@[j].oid, c.queue@[j].alias, Some(before)));
                }
            }
        }
        self.take_into(count, out, oids, true)
    }

    fn take_into(&mut self, count: usize, out: &mut Vec<WalkedCommit>, oids: &mut Oids, assign: bool) -> (fetched: usize)
        requires
            old(self).wf(),
            old(oids).wf(),
        ensures
            final(self).wf(),
            final(oids).wf(),
            !assign ==> *final(oids) == *old(oids),
            old(oids).by_alias@.is_prefix_of(final(oids).by_alias@),
            final(oids).sorted_aliases@ == old(oids).sorted_aliases@,
            final(oids).stashes@ == old(oids).stashes@,
            final(oids).zero == old(oids).zero,
            fetched <= count,
            final(out)@.len() == old(out)@.len() + fetched,
            final(out)@.take(old(out)@.len() as int) == old(out)@,
            forall|i: int| old(out)@.len() <= i < final(out)@.len() ==> (#[trigger] final(out)@[i]).wf(),
            fetched < count ==> final(self).is_exhausted(),
            old(self).is_exhausted() ==> fetched == 0 && final(self).is_exhausted(),
            !final(self).is_exhausted() ==> final(self).walk_graph() == old(self).walk_graph(),
            forall|i: int| old(out)@.len() <= i < final(out)@.len() ==> (#[trigger] final(out)@[i]).commit_time is Some
                && walked_parents(old(self).walk_graph(), final(out)@[i], aliasing(assign, *final(oids))),
            old(self).aliases_recorded(aliasing(assign, *old(oids))) ==> final(self).aliases_recorded(aliasing(assign, *final(oids)))
                && forall|i: int| old(out)@.len() <= i < final(out)@.len() ==> alias_recorded((#[trigger] final(out)@[i]).oid, final(out)@[i].alias, aliasing(assign, *final(oids))),
            old(self).yielded().subset_of(final(self).yielded()),
            forall|i: int| old(out)@.len() <= i < final(out)@.len() ==> final(self).yielded().contains(oid_bytes(#[trigger] final(out)@[i].oid)),
            old(self).walk_graph() is None ==> forall|i: int| old(out)@.len() <= i < final(out)@.len() ==> !old(self).yielded().contains(oid_bytes(#[trigger] final(out)@[i].oid)),
            old(self).walk_graph() is None ==> forall|i: int, j: int| old(out)@.len() <= i < j < final(out)@.len() ==> oid_bytes(#[trigger] final(out)@[i].oid) != oid_bytes(#[trigger] final(out)@[j].oid),
            final(self).roots() == old(self).roots(),
            forall|i: int| old(out)@.len() <= i < final(out)@.len() ==> reachable(old(self).walk_graph(), old(self).roots(), oid_bytes(#[trigger] final(out)@[i].oid)),
            times_follow_parents(old(self).walk_graph()) ==> forall|i: int, j: int| old(out)@.len() <= i < j < final(out)@.len()
                ==> (#[trigger] final(out)@[j]).commit_time->0 <= (#[trigger] final(out)@[i]).commit_time->0,
            times_follow_parents(old(self).walk_graph()) && old(self).last_time() is Some ==> forall|i: int| old(out)@.len() <= i < final(out)@.len()
                ==> (#[trigger] final(out)@[i]).commit_time->0 <= old(self).last_time()->0,
            final(out)@.len() > old(out)@.len() ==> final(self).last_time() == final(out)@.last().commit_time,
            final(out)@.len() == old(out)@.len() ==> final(self).last_time() == old(self).last_time(),
            count > 0 && old(self).has_whole_graph_commit() ==> fetched > 0,
            final(self).graphless() == old(self).graphless(),
            final(self).is_exhausted() && final(self).graphless() && final(self).unread() == Set::<Seq<u8>>::empty()
                ==> forall|x: Seq<u8>| #[trigger] reachable(None, final(self).roots(), x) ==> final(self).yielded().contains(x),
    {
        let ghost g = self.walk_graph();
        let ghost start_ok = old(self).aliases_recorded(aliasing(assign, *old(oids)));
        let ghost y0 = self.yielded@;
        let ghost mut yy = self.yielded@;
        let ghost roots = self.roots@;
        let ghost lt0 = self.last_time@;
        let ghost whole = old(self).has_whole_graph_commit();
        let ghost mut lt = self.last_time@;
        let before = out.len();
        let mut cursor = match self.cursor.take() {
            None => {
                assert(out@.take(before as int) =~= out@);
                proof {
                    if self.is_exhausted() && self.graphless() && self.unread() == Set::<Seq<u8>>::empty() {
                        self.lemma_walk_complete();
                    }
                }
                return 0;
            },
            Some(cursor) => cursor,
        };
        let mut fetched: usize = 0;
        let mut ended = false;
        while fetched < count && !ended
            invariant
                cursor.wf(),
                oids.wf(),
                !assign ==> *oids == *old(oids),
                old(oids).by_alias@.is_prefix_of(oids.by_alias@),
                oids.sorted_aliases@ == old(oids).sorted_aliases@,
                oids.stashes@ == old(oids).stashes@,
                oids.zero == old(oids).zero,
                fetched <= count,
                out@.len() == before + fetched,
                out@.take(before as int) == old(out)@,
                before == old(out)@.len(),
                forall|i: int| before <= i < out@.len() ==> (#[trigger] out@[i]).wf(),
                cursor.commit_graph == g,
                forall|i: int| before <= i < out@.len() ==> (#[trigger] out@[i]).commit_time is Some
                    && walked_parents(g, out@[i], aliasing(assign, *oids)),
                start_ok ==> queue_aliases_ok(cursor.queue@, aliasing(assign, *oids))
                    && forall|i: int| before <= i < out@.len() ==> alias_recorded((#[trigger] out@[i]).oid, out@[i].alias, aliasing(assign, *oids)),
                y0 == old(self).yielded(),
                y0.subset_of(yy),
                forall|i: int| before <= i < out@.len() ==> yy.contains(oid_bytes(#[trigger] out@[i].oid)),
                g is None ==> loose_keys_ok(cursor.queue@, cursor.seen, yy),
                g is None ==> forall|i: int| before <= i < out@.len() ==> !y0.contains(oid_bytes(#[trigger] out@[i].oid)),
                self.graphless == old(self).graphless,
                self.graphless@ == (g is None),
                ended ==> cursor.queue@.len() == 0,
                g is None ==> roots.subset_of(oid_set_contents(cursor.seen.loose_oids)),
                g is None ==> parents_within(yy, oid_set_contents(cursor.seen.loose_oids)),
                g is None ==> forall|i: int, j: int| before <= i < j < out@.len() ==> oid_bytes(#[trigger] out@[i].oid) != oid_bytes(#[trigger] out@[j].oid),
                self.roots == old(self).roots,
                roots == old(self).roots@,
                queue_reachable(cursor.queue@, g, roots),
                forall|i: int| before <= i < out@.len() ==> reachable(g, roots, oid_bytes(#[trigger] out@[i].oid)),
                self.last_time == old(self).last_time,
                lt0 == old(self).last_time@,
                queue_times_ok(cursor.queue@, g),
                times_follow_parents(g) ==> queue_times_below(cursor.queue@, lt),
                forall|i: int| before <= i < out@.len() ==> (#[trigger] out@[i]).commit_time is Some,
                times_follow_parents(g) ==> forall|i: int, j: int| before <= i < j < out@.len()
                    ==> (#[trigger] out@[j]).commit_time->0 <= (#[trigger] out@[i]).commit_time->0,
                times_follow_parents(g) && lt0 is Some ==> forall|i: int| before <= i < out@.len() ==> (#[trigger] out@[i]).commit_time->0 <= lt0->0,
                out@.len() > before ==> lt == out@.last().commit_time,
                out@.len() == before ==> lt == lt0,
                whole ==> fetched > 0 || (!ended && exists|i: int| 0 <= i < cursor.queue@.len() && whole_graph_entry(#[trigger] cursor.queue@[i], cursor.commit_graph)),
            decreases count - fetched + (if ended { 0int } else { 1int }),
        {
            let ghost o_before = *oids;
            let ghost lt_before = lt;
            let ghost s_before = oid_set_contents(cursor.seen.loose_oids);
            let r = cursor.next_commit(oids, assign, Ghost(yy), Ghost(roots), Ghost(lt));
            proof {
                if assign {
                    assert forall|i: int| before <= i < out@.len() implies walked_parents(g, #[trigger] out@[i], aliasing(assign, *oids))
                        && (start_ok ==> alias_recorded(out@[i].oid, out@[i].alias, aliasing(assign, *oids))) by {
                        if start_ok {
                            lemma_walked_kept(g, out@[i], o_before, *oids);
                        } else {
                            let c = out@[i];
                            let ps = choose|ps: Seq<Seq<u8>>| #[trigger] parents_read(g, oid_bytes(c.oid), ps) && parents_recorded(c.parent_list(), ps, Some(o_before));
                            lemma_parents_recorded_kept(c.parent_list(), ps, o_before, *oids);
                        }
                    }
                }
            }
            match r {
                Some(commit) => {
                    let ghost prev = out@;
                    let ghost y_prev = yy;
                    out.push(commit);
                    proof {
                        if g is None {
                            let sf = oid_set_contents(cursor.seen.loose_oids);
                            assert forall|y: Seq<u8>, b: Seq<u8>| yy.insert(oid_bytes(commit.oid)).contains(y) && #[trigger] commit_parent_ids(y).contains(b)
                                implies sf.contains(b) by {
                                if y != oid_bytes(commit.oid) {
                                    assert(yy.contains(y));
                                    assert(s_before.contains(b));
                                }
                            }
                        }
                        yy = yy.insert(oid_bytes(commit.oid));
                        lt = commit.commit_time;
                        if times_follow_parents(g) {
                            assert forall|i: int, j: int| before <= i < j < out@.len()
                                implies (#[trigger] out@[j]).commit_time->0 <= (#[trigger] out@[i]).commit_time->0 by {
                                assert(out@[i] == prev[i]);
                                if j < prev.len() {
                                    assert(out@[j] == prev[j]);
                                } else {
                                    assert(prev.last() == prev[prev.len() - 1]);
                                    assert(prev[i].commit_time->0 >= prev.last().commit_time->0);
                                }
                            }
                            if lt0 is Some {
                                assert forall|i: int| before <= i < out@.len() implies (#[trigger] out@[i]).commit_time->0 <= lt0->0 by {
                                    if i < prev.len() {
                                        assert(out@[i] == prev[i]);
                                    }
                                }
                            }
                        }
                        assert forall|i: int| before <= i < out@.len() implies (#[trigger] out@[i]).commit_time is Some by {
                            if i < prev.len() {
                                assert(out@[i] == prev[i]);
                            }
                        }
                        assert forall|i: int| before <= i < out@.len() implies reachable(g, roots, oid_bytes(#[trigger] out@[i].oid)) by {
                            if i < prev.len() {
                                assert(out@[i] == prev[i]);
                            }
                        }
                        assert forall|i: int| before <= i < out@.len() implies yy.contains(oid_bytes(#[trigger] out@[i].oid)) by {
                            if i < prev.len() {
                                assert(out@[i] == prev[i]);
                            }
                        }
                        if g is None {
                            assert forall|i: int| before <= i < out@.len() implies !y0.contains(oid_bytes(#[trigger] out@[i].oid)) by {
                                if i < prev.len() {
                                    assert(out@[i] == prev[i]);
                                }
                            }
                            assert forall|i: int, j: int| before <= i < j < out@.len() implies oid_bytes(#[trigger] out@[i].oid) != oid_bytes(#[trigger] out@[j].oid) by {
                                assert(out@[i] == prev[i]);
                                if j < prev.len() {
                                    assert(out@[j] == prev[j]);
                                } else {
                                    assert(y_prev.contains(oid_bytes(prev[i].oid)));
                                }
                            }
                        }
                    }
                    assert(out@.take(before as int) =~= prev.take(before as int));
                    proof {
                        assert forall|i: int| before <= i < out@.len() implies (#[trigger] out@[i]).commit_time is Some
                            && walked_parents(g, out@[i], aliasing(assign, *oids))
                            && (start_ok ==> alias_recorded(out@[i].oid, out@[i].alias, aliasing(assign, *oids))) by {
                            if i < prev.len() {
                                assert(out@[i] == prev[i]);
                            }
                        }
                    }
                    fetched += 1;
                },
                None => {
                    ended = true;
                },
            }
        }
        self.yielded = Ghost(yy);
        self.last_time = Ghost(lt);
        self.reached = Ghost(oid_set_contents(cursor.seen.loose_oids));
        self.dropped = Ghost(oid_set_contents(cursor.seen.loose_oids).difference(yy).difference(queued_ids(cursor.queue@)));
        proof {
            if fetched < count && g is None {
                assert(cursor.queue@.len() == 0);
                assert(queued_ids(cursor.queue@) =~= Set::<Seq<u8>>::empty());
                assert forall|y: Seq<u8>| #[trigger] self.reached@.contains(y) implies self.yielded@.union(self.dropped@).contains(y) by {}
            }
        }
        if fetched == count {
            self.cursor = Some(cursor);
        }
        proof {
            if self.is_exhausted() && self.graphless() && self.unread() == Set::<Seq<u8>>::empty() {
                self.lemma_walk_complete();
            }
        }
        fetched
    }

    fn build(repo: &gix::Repository, hidden_branch_names: &im::HashSet<String>, extra_roots: Vec<gix::ObjectId>) -> (r: Result<(CommitCursor, Ghost<Set<Seq<u8>>>), git2::Error>)
        ensures
            r matches Ok((c, _)) ==> c.wf() && queue_aliases_ok(c.queue@, None),
            r matches Ok((c, _)) ==> (c.commit_graph is None ==> loose_keys_ok(c.queue@, c.seen, Set::empty())),
            r matches Ok((c, roots)) ==> queue_reachable(c.queue@, c.commit_graph, roots@),
            r matches Ok((c, _)) ==> queue_times_ok(c.queue@, c.commit_graph),
            r matches Ok((c, roots)) ==> (c.commit_graph is None ==> roots@.subset_of(oid_set_contents(c.seen.loose_oids))),
            r matches Ok((_, roots)) ==> branch_walk_roots(roots@, hidden_names(*hidden_branch_names), extra_roots@),
    {
        let ghost extra = extra_roots@;
        let branch_tips = match for_each_branch_tip(repo) {
            Ok(tips) => tips,
            Err(e) => {
                return Err(e);
            },
        };
        let tips = walk_roots(&branch_tips, hidden_branch_names, extra_roots);
        let ghost roots = root_set(tips@);
        proof {
            let hidden = hidden_names(*hidden_branch_names);
            assert forall|x: Seq<u8>| #[trigger] roots.contains(x) <==> (
                (exists|k: int| 0 <= k < branch_tips@.len() && oid_bytes(branch_tips@[k].oid) == x && !hidden.contains(branch_tips@[k].name@))
                || has_oid(extra, x)) by {
                assert(roots.contains(x) == has_oid(tips@, x));
            }
            assert(tips_read(branch_tips@));
            assert(roots_from(roots, branch_tips@, hidden, extra));
        }
        match Self::cursor_from_tips(repo, tips) {
            Ok(cursor) => Ok((cursor, Ghost(roots))),
            Err(e) => Err(e),
        }
    }

    fn cursor_from_tips(repo: &gix::Repository, tips: Vec<gix::ObjectId>) -> (r: Result<CommitCursor, git2::Error>)
        ensures
            r matches Ok(c) ==> c.wf() && queue_aliases_ok(c.queue@, None),
            r matches Ok(c) ==> (c.commit_graph is None ==> loose_keys_ok(c.queue@, c.seen, Set::empty())),
            r matches Ok(c) ==> queue_reachable(c.queue@, c.commit_graph, root_set(tips@)),
            r matches Ok(c) ==> queue_times_ok(c.queue@, c.commit_graph),
            r matches Ok(c) ==> (c.commit_graph is None ==> root_set(tips@).subset_of(oid_set_contents(c.seen.loose_oids))),
            tips@.len() == 0 ==> r is Ok,
            r matches Ok(c) ==> (tips@.len() == 0 ==> c.queue@.len() == 0),
    {
        let mut aliased: Vec<(gix::ObjectId, u32)> = Vec::new();
        let mut i: usize = 0;
        while i < tips.len()
            invariant
                i <= tips@.len(),
                aliased@.len() == i,
                forall|k: int| 0 <= k < aliased@.len() ==> (#[trigger] aliased@[k]).1 == NONE,
                forall|k: int| 0 <= k < aliased@.len() ==> (#[trigger] aliased@[k]).0 == tips@[k],
            decreases tips@.len() - i,
        {
            aliased.push((tips[i], NONE));
            i += 1;
        }
        proof {
            lemma_aliased_roots(aliased@, tips@);
        }
        Self::cursor_from_aliased_tips(repo, aliased, Ghost(None))
    }

    fn cursor_from_aliased_tips(repo: &gix::Repository, tips: Vec<(gix::ObjectId, u32)>, Ghost(oids): Ghost<Option<Oids>>) -> (r: Result<CommitCursor, git2::Error>)
        requires
            forall|i: int| 0 <= i < tips@.len() ==> alias_recorded((#[trigger] tips@[i]).0, tips@[i].1, oids),
        ensures
            r matches Ok(c) ==> c.wf() && queue_aliases_ok(c.queue@, oids),
            r matches Ok(c) ==> (c.commit_graph is None ==> loose_keys_ok(c.queue@, c.seen, Set::empty())),
            r matches Ok(c) ==> queue_reachable(c.queue@, c.commit_graph, aliased_root_set(tips@)),
            r matches Ok(c) ==> queue_times_ok(c.queue@, c.commit_graph),
            r matches Ok(c) ==> (c.commit_graph is None ==> aliased_root_set(tips@).subset_of(oid_set_contents(c.seen.loose_oids))),
            tips@.len() == 0 ==> r is Ok,
            r matches Ok(c) ==> (tips@.len() == 0 ==> c.queue@.len() == 0),
    {
        CommitCursor::new(repo, tips, Ghost(oids))
    }
}

/// One branch tip: whether it is local, its short name and the commit it points to.
#[derive(Clone, Debug)]
pub struct BranchTip {
    pub is_local: bool,
    pub name: String,
    pub oid: gix::ObjectId,
}

/// Whether every local reference comes before every remote one.
pub open spec fn locals_first(refs: Seq<(bool, Vec<u8>, Option<gix::ObjectId>)>) -> bool {
    forall|i: int, j: int| 0 <= i < j < refs.len() && (#[trigger] refs[j]).0 ==> (#[trigger] refs[i]).0
}

/// Whether every local tip comes before every remote one.
pub open spec fn local_tips_first(tips: Seq<BranchTip>) -> bool {
    forall|i: int, j: int| 0 <= i < j < tips.len() && (#[trigger] tips[j]).is_local ==> (#[trigger] tips[i]).is_local
}

/// `Platform::local_branches` then `Platform::remote_branches`: for each reference that can be
/// read, whether it is local, its full name and the id it points to directly; reading stops at
/// the first error, which comes back with the references read before it. The local references
/// come first; which references there are depends on the disk.
#[verifier::external_body]
fn branch_references(repo: &gix::Repository) -> (r: (Vec<(bool, Vec<u8>, Option<gix::ObjectId>)>, Option<git2::Error>))
    ensures
        locals_first(r.0@),
{
    let to_error = |error: &dyn std::fmt::Display| git2::Error::from_str(&error.to_string());
    let mut out = Vec::new();
    let references = match repo.references() { Ok(r) => r, Err(e) => return (out, Some(to_error(&e))) };
    for (is_local, iter) in [(true, references.local_branches()), (false, references.remote_branches())] {
        let iter = match iter { Ok(iter) => iter, Err(e) => return (out, Some(to_error(&e))) };
        for reference in iter.flatten() {
            out.push((is_local, reference.name().as_bstr().to_vec(), reference.try_id().map(|id| id.detach())));
        }
    }
    (out, None)
}

/// The tip a reference read gives: whether it is local, the bytes of its short name and its id;
/// none for a reference that does not name a branch (see `names_branch`) or does not point
/// directly at an object.
pub open spec fn branch_tip_of(r: (bool, Vec<u8>, Option<gix::ObjectId>)) -> Option<(bool, Seq<u8>, gix::ObjectId)> {
    if names_branch(r.1@) && r.2 is Some {
        Some((r.0, branch_suffix(r.1@)->0, r.2->0))
    } else {
        None
    }
}

/// The tips of the first `n` references read, in their order.
pub open spec fn branch_tips_from(refs: Seq<(bool, Vec<u8>, Option<gix::ObjectId>)>, n: int) -> Seq<(bool, Seq<u8>, gix::ObjectId)>
    decreases n,
{
    if n <= 0 {
        Seq::empty()
    } else {
        match branch_tip_of(refs[n - 1]) {
            Some(t) => branch_tips_from(refs, n - 1).push(t),
            None => branch_tips_from(refs, n - 1),
        }
    }
}

/// A tip as values: whether it is local, the UTF-8 bytes of its name, its id.
pub open spec fn tip_view(t: BranchTip) -> (bool, Seq<u8>, gix::ObjectId) {
    (t.is_local, encode_utf8(t.name@), t.oid)
}

pub open spec fn tip_views(tips: Seq<BranchTip>) -> Seq<(bool, Seq<u8>, gix::ObjectId)> {
    tips.map_values(|t: BranchTip| tip_view(t))
}

/// The branch tips among references read, in their order, with their short names; references
/// that are not branches under `refs/heads/` or `refs/remotes/`, have no UTF-8 name, or do not
/// point directly at an object are left out.
fn branch_tips_of(references: &Vec<(bool, Vec<u8>, Option<gix::ObjectId>)>) -> (tips: Vec<BranchTip>)
    ensures
        tip_views(tips@) == branch_tips_from(references@, references@.len() as int),
        tips@.len() <= references@.len(),
        locals_first(references@) ==> local_tips_first(tips@),
{
    let mut tips: Vec<BranchTip> = Vec::new();
    let mut i: usize = 0;
    while i < references.len()
        invariant
            i <= references@.len(),
            tips@.len() <= i,
            tip_views(tips@) == branch_tips_from(references@, i as int),
            forall|j: int| 0 <= j < tips@.len() && !(#[trigger] tips@[j]).is_local ==> exists|k: int| 0 <= k < i && !references@[k].0,
            locals_first(references@) ==> local_tips_first(tips@),
        decreases references@.len() - i,
    {
        let (is_local, full_name, target) = &references[i];
        let ghost before = tips@;
        if let Some(name) = branch_name_from_ref(full_name.as_slice()) {
            if let Some(oid) = target {
                let text = name.to_string();
                let tip = BranchTip { is_local: *is_local, name: text, oid: *oid };
                proof {
                    assert(text@ == name@);
                    assert(tip_view(tip) == branch_tip_of(references@[i as int])->0);
                }
                tips.push(tip);
                assert(tip_views(tips@) =~= tip_views(before).push(tip_view(tip)));
                proof {
                    assert forall|j: int| 0 <= j < tips@.len() && !(#[trigger] tips@[j]).is_local implies exists|k: int| 0 <= k < i + 1 && !references@[k].0 by {
                        if j < before.len() {
                            assert(tips@[j] == before[j]);
                        } else {
                            assert(!references@[i as int].0);
                        }
                    }
                    if locals_first(references@) {
                        assert forall|a: int, b: int| 0 <= a < b < tips@.len() && (#[trigger] tips@[b]).is_local implies (#[trigger] tips@[a]).is_local by {
                            assert(tips@[a] == before[a] || a == before.len());
                            if b < before.len() {
                                assert(tips@[b] == before[b]);
                                assert(tips@[a] == before[a]);
                            } else {
                                assert(tips@[a] == before[a]);
                                if !before[a].is_local {
                                    let k = choose|k: int| 0 <= k < i && !references@[k].0;
                                    assert(references@[i as int].0);
                                }
                            }
                        }
                    }
                }
            }
        }
        i += 1;
    }
    tips
}

/// The branch tips read before the first error, and that error if there was one: the tips of
/// some references read, in their order (see `branch_tips_from`).
pub fn branch_tips_read(repo: &gix::Repository) -> (r: (Vec<BranchTip>, Option<git2::Error>))
    ensures
        exists|refs: Seq<(bool, Vec<u8>, Option<gix::ObjectId>)>| #[trigger] branch_tips_from(refs, refs.len() as int) == tip_views(r.0@) && locals_first(refs),
        local_tips_first(r.0@),
{
    let (references, error) = branch_references(repo);
    (branch_tips_of(&references), error)
}

/// The local branch tips, then the remote ones (see `branch_tips_read`); an error when the
/// references cannot all be read.
pub fn for_each_branch_tip(repo: &gix::Repository) -> (r: Result<Vec<BranchTip>, git2::Error>)
    ensures
        r matches Ok(tips) ==> exists|refs: Seq<(bool, Vec<u8>, Option<gix::ObjectId>)>| #[trigger] branch_tips_from(refs, refs.len() as int) == tip_views(tips@) && locals_first(refs),
        r matches Ok(tips) ==> local_tips_first(tips@),
{
    let (tips, error) = branch_tips_read(repo);
    match error {
        Some(e) => Err(e),
        None => Ok(tips),
    }
}

/// Whether `s` holds an id with the bytes `b`.
pub open spec fn has_oid(s: Seq<gix::ObjectId>, b: Seq<u8>) -> bool {
    exists|i: int| 0 <= i < s.len() && oid_bytes(s[i]) == b
}

/// The roots of a history walk: the tips of branches whose name is not hidden, in order, then
/// the extra roots; each id only once, at its first place.
pub fn walk_roots(branch_tips: &Vec<BranchTip>, hidden_branch_names: &im::HashSet<String>, extra_roots: Vec<gix::ObjectId>) -> (tips: Vec<gix::ObjectId>)
    ensures
        forall|i: int, j: int| 0 <= i < j < tips@.len() ==> oid_bytes(#[trigger] tips@[i]) != oid_bytes(#[trigger] tips@[j]),
        forall|b: Seq<u8>| #[trigger] has_oid(tips@, b) <==> (
            (exists|k: int| 0 <= k < branch_tips@.len() && oid_bytes(branch_tips@[k].oid) == b && !hidden_names(*hidden_branch_names).contains(branch_tips@[k].name@))
            || has_oid(extra_roots@, b)),
{
    let mut pushed = OidSet::with_capacity(0);
    let mut tips: Vec<gix::ObjectId> = Vec::new();
    let mut i: usize = 0;
    while i < branch_tips.len()
        invariant
            i <= branch_tips@.len(),
            oid_set_contents(pushed).finite(),
            forall|b: Seq<u8>| #[trigger] oid_set_contents(pushed).contains(b) <==> has_oid(tips@, b),
            forall|x: int, y: int| 0 <= x < y < tips@.len() ==> oid_bytes(#[trigger] tips@[x]) != oid_bytes(#[trigger] tips@[y]),
            forall|b: Seq<u8>| #[trigger] has_oid(tips@, b) <==> exists|k: int| 0 <= k < i && oid_bytes(branch_tips@[k].oid) == b && !hidden_names(*hidden_branch_names).contains(branch_tips@[k].name@),
        decreases branch_tips@.len() - i,
    {
        let tip = &branch_tips[i];
        let ghost prev = tips@;
        if !hidden_contains(hidden_branch_names, tip.name.as_str()) && pushed.insert(tip.oid) {
            tips.push(tip.oid);
        }
        proof {
            assert forall|b: Seq<u8>| #[trigger] has_oid(tips@, b) <==> (has_oid(prev, b) || (b == oid_bytes(branch_tips@[i as int].oid) && !hidden_names(*hidden_branch_names).contains(branch_tips@[i as int].name@))) by {
                if has_oid(tips@, b) {
                    let w = choose|w: int| 0 <= w < tips@.len() && oid_bytes(tips@[w]) == b;
                    if w < prev.len() {
                        assert(prev[w] == tips@[w]);
                    }
                }
                if has_oid(prev, b) {
                    let w = choose|w: int| 0 <= w < prev.len() && oid_bytes(prev[w]) == b;
                    assert(tips@[w] == prev[w]);
                }
                if b == oid_bytes(branch_tips@[i as int].oid) && !hidden_names(*hidden_branch_names).contains(branch_tips@[i as int].name@) && !has_oid(prev, b) {
                    assert(tips@[prev.len() as int] == branch_tips@[i as int].oid);
                }
            }
            assert forall|b: Seq<u8>| #[trigger] has_oid(tips@, b) <==> exists|k: int| 0 <= k < i + 1 && oid_bytes(branch_tips@[k].oid) == b && !hidden_names(*hidden_branch_names).contains(branch_tips@[k].name@) by {
                if has_oid(prev, b) {
                    let k = choose|k: int| 0 <= k < i && oid_bytes(branch_tips@[k].oid) == b && !hidden_names(*hidden_branch_names).contains(branch_tips@[k].name@);
                }
                if exists|k: int| 0 <= k < i + 1 && oid_bytes(branch_tips@[k].oid) == b && !hidden_names(*hidden_branch_names).contains(branch_tips@[k].name@) {
                    let k = choose|k: int| 0 <= k < i + 1 && oid_bytes(branch_tips@[k].oid) == b && !hidden_names(*hidden_branch_names).contains(branch_tips@[k].name@);
                    if k < i {
                        assert(has_oid(prev, b));
                    }
                }
            }
        }
        i += 1;
    }
    let ghost from_branches = tips@;
    let mut j: usize = 0;
    while j < extra_roots.len()
        invariant
            j <= extra_roots@.len(),
            oid_set_contents(pushed).finite(),
            forall|b: Seq<u8>| #[trigger] oid_set_contents(pushed).contains(b) <==> has_oid(tips@, b),
            forall|x: int, y: int| 0 <= x < y < tips@.len() ==> oid_bytes(#[trigger] tips@[x]) != oid_bytes(#[trigger] tips@[y]),
            forall|b: Seq<u8>| #[trigger] has_oid(tips@, b) <==> (has_oid(from_branches, b) || has_oid(extra_roots@.take(j as int), b)),
        decreases extra_roots@.len() - j,
    {
        let oid = extra_roots[j];
        let ghost prev = tips@;
        if pushed.insert(oid) {
            tips.push(oid);
        }
        proof {
            let e0 = extra_roots@.take(j as int);
            let e1 = extra_roots@.take(j as int + 1);
            assert forall|b: Seq<u8>| #[trigger] oid_set_contents(pushed).contains(b) <==> has_oid(tips@, b) by {
                if has_oid(tips@, b) {
                    let w = choose|w: int| 0 <= w < tips@.len() && oid_bytes(tips@[w]) == b;
                    if w < prev.len() {
                        assert(prev[w] == tips@[w]);
                        assert(has_oid(prev, b));
                    }
                }
                if has_oid(prev, b) {
                    let w = choose|w: int| 0 <= w < prev.len() && oid_bytes(prev[w]) == b;
                    assert(tips@[w] == prev[w]);
                }
                if b == oid_bytes(oid) && !has_oid(prev, b) {
                    assert(tips@[prev.len() as int] == oid);
                }
            }
            assert forall|b: Seq<u8>| #[trigger] has_oid(tips@, b) <==> (has_oid(from_branches, b) || has_oid(e1, b)) by {
                if has_oid(tips@, b) {
                    let w = choose|w: int| 0 <= w < tips@.len() && oid_bytes(tips@[w]) == b;
                    if w < prev.len() {
                        assert(prev[w] == tips@[w]);
                    } else {
                        assert(e1[j as int] == oid);
                    }
                }
                if has_oid(prev, b) {
                    let w = choose|w: int| 0 <= w < prev.len() && oid_bytes(prev[w]) == b;
                    assert(tips@[w] == prev[w]);
                }
                if has_oid(e0, b) {
                    let w = choose|w: int| 0 <= w < e0.len() && oid_bytes(e0[w]) == b;
                    assert(e1[w] == e0[w]);
                }
                if has_oid(e1, b) {
                    let w = choose|w: int| 0 <= w < e1.len() && oid_bytes(e1[w]) == b;
                    if w < j {
                        assert(e0[w] == e1[w]);
                    } else if !has_oid(prev, b) {
                        assert(tips@[prev.len() as int] == oid);
                    }
                }
            }
        }
        j += 1;
    }
    assert(extra_roots@.take(extra_roots@.len() as int) =~= extra_roots@);
    tips
}

} // verus!
