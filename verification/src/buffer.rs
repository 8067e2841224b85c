use vstd::prelude::*;
use crate::chunk::{Chunk, LaneRef, NONE};
use crate::graph_service::GraphHistory;
use crate::snapshot::LaneSnapshot;
use smallvec::SmallVec;

verus! {

/// Number of ops one arena chunk of the delta log is sized for.
pub const DELTA_OP_CHUNK_SIZE: usize = 131072;

/// Every this many history entries the full lane state is kept as a checkpoint.
pub const CHECKPOINT_INTERVAL: usize = 16384;

/// One edit of the lane vector, as recorded while a commit is placed.
#[derive(Clone, Copy, Debug, PartialEq, Eq, Structural)]
pub enum DeltaOp {
    Insert { index: u32, item: Chunk },
    Remove { index: u32 },
    Replace { index: u32, new: Chunk },
    Truncate { len: u32 },
    ReplaceAndTruncate { index: u32, new: Chunk, len: u32 },
}

/// `s` cut down to its first `len` cells; unchanged when it is not longer.
pub open spec fn truncated(s: Seq<Chunk>, len: int) -> Seq<Chunk> {
    if len < s.len() {
        s.take(len)
    } else {
        s
    }
}

/// Whether `op` can be applied to lanes `s` (its index is in range).
pub open spec fn op_valid(s: Seq<Chunk>, op: DeltaOp) -> bool {
    match op {
        DeltaOp::Insert { index, .. } => index <= s.len(),
        DeltaOp::Remove { index } => index < s.len(),
        DeltaOp::Replace { index, .. } => index < s.len(),
        DeltaOp::Truncate { .. } => true,
        DeltaOp::ReplaceAndTruncate { index, .. } => index < s.len(),
    }
}

/// The lanes after `op` is applied to `s`.
pub open spec fn apply_op(s: Seq<Chunk>, op: DeltaOp) -> Seq<Chunk> {
    match op {
        DeltaOp::Insert { index, item } => s.insert(index as int, item),
        DeltaOp::Remove { index } => s.remove(index as int),
        DeltaOp::Replace { index, new } => s.update(index as int, new),
        DeltaOp::Truncate { len } => truncated(s, len as int),
        DeltaOp::ReplaceAndTruncate { index, new, len } => truncated(s.update(index as int, new), len as int),
    }
}

/// The lanes after `ops` are applied to `s` in order.
pub open spec fn apply_ops(s: Seq<Chunk>, ops: Seq<DeltaOp>) -> Seq<Chunk>
    decreases ops.len(),
{
    if ops.len() == 0 {
        s
    } else {
        apply_op(apply_ops(s, ops.drop_last()), ops.last())
    }
}

/// Whether every op of `ops` is valid on the lanes it is applied to.
pub open spec fn ops_valid(s: Seq<Chunk>, ops: Seq<DeltaOp>) -> bool
    decreases ops.len(),
{
    if ops.len() == 0 {
        true
    } else {
        ops_valid(s, ops.drop_last()) && op_valid(apply_ops(s, ops.drop_last()), ops.last())
    }
}

/// The lanes after the first `k` entries of `log` are replayed from empty lanes.
pub open spec fn replay(log: Seq<Seq<DeltaOp>>, k: nat) -> Seq<Chunk>
    decreases k,
{
    if k == 0 {
        Seq::empty()
    } else {
        apply_ops(replay(log, (k - 1) as nat), log[k - 1])
    }
}

/// Whether the first `k` entries of `log` replay without an out-of-range op.
pub open spec fn replay_valid(log: Seq<Seq<DeltaOp>>, k: nat) -> bool
    decreases k,
{
    if k == 0 {
        true
    } else {
        replay_valid(log, (k - 1) as nat) && ops_valid(replay(log, (k - 1) as nat), log[k - 1])
    }
}

proof fn lemma_apply_ops_push(s: Seq<Chunk>, ops: Seq<DeltaOp>, op: DeltaOp)
    ensures
        apply_ops(s, ops.push(op)) == apply_op(apply_ops(s, ops), op),
        ops_valid(s, ops.push(op)) == (ops_valid(s, ops) && op_valid(apply_ops(s, ops), op)),
{
    assert(ops.push(op).drop_last() =~= ops);
}

proof fn lemma_replay_push(log: Seq<Seq<DeltaOp>>, entry: Seq<DeltaOp>, k: nat)
    requires
        k <= log.len(),
    ensures
        replay(log.push(entry), k) == replay(log, k),
        replay_valid(log.push(entry), k) == replay_valid(log, k),
    decreases k,
{
    if k > 0 {
        lemma_replay_push(log, entry, (k - 1) as nat);
        assert(log.push(entry)[k - 1] == log[k - 1]);
    }
}

impl DeltaOp {
    /// Apply this edit to `curr`.
    pub fn apply(self, curr: &mut LaneSnapshot)
        requires
            op_valid(old(curr)@, self),
        ensures
            final(curr)@ == apply_op(old(curr)@, self),
    {
        match self {
            DeltaOp::Insert { index, item } => {
                curr.insert(index as usize, item);
            },
            DeltaOp::Remove { index } => {
                curr.remove(index as usize);
            },
            DeltaOp::Replace { index, new } => {
                curr.set(index as usize, new);
            },
            DeltaOp::Truncate { len } => {
                curr.truncate(len as usize);
            },
            DeltaOp::ReplaceAndTruncate { index, new, len } => {
                curr.set(index as usize, new);
                curr.truncate(len as usize);
            },
        }
    }
}

/// The ops of one history entry, kept inline for the common case of few ops.
#[verifier::external_body]
pub struct DeltaOps {
    ops: SmallVec<[DeltaOp; 8]>,
}

/// The ops that a `DeltaOps` holds, in order.
pub uninterp spec fn delta_op_list(v: DeltaOps) -> Seq<DeltaOp>;

impl View for DeltaOps {
    type V = Seq<DeltaOp>;

    open spec fn view(&self) -> Seq<DeltaOp> {
        delta_op_list(*self)
    }
}

impl Clone for DeltaOps {
    /// `SmallVec::clone`: a copy with the same ops.
    #[verifier::external_body]
    fn clone(&self) -> (r: DeltaOps)
        ensures
            delta_op_list(r) == delta_op_list(*self),
    {
        DeltaOps { ops: self.ops.clone() }
    }
}

impl DeltaOps {
    /// `SmallVec::new`: no ops.
    #[verifier::external_body]
    pub fn new() -> (r: DeltaOps)
        ensures
            delta_op_list(r) == Seq::<DeltaOp>::empty(),
    {
        DeltaOps { ops: SmallVec::new() }
    }

    /// `SmallVec::push`: append one op.
    #[verifier::external_body]
    fn push(&mut self, op: DeltaOp)
        ensures
            delta_op_list(*final(self)) == delta_op_list(*old(self)).push(op),
    {
        self.ops.push(op);
    }

    /// `SmallVec::len`: the number of ops.
    #[verifier::external_body]
    pub fn len(&self) -> (n: usize)
        ensures
            n == delta_op_list(*self).len(),
    {
        self.ops.len()
    }

    /// `SmallVec::as_slice`: the ops in order.
    #[verifier::external_body]
    pub fn as_slice(&self) -> (r: &[DeltaOp])
        ensures
            r@ == delta_op_list(*self),
    {
        self.ops.as_slice()
    }

    /// `SmallVec::shrink_to_fit`: release spare capacity; the ops stay.
    #[verifier::external_body]
    fn shrink_to_fit(&mut self)
        ensures
            delta_op_list(*final(self)) == delta_op_list(*old(self)),
    {
        self.ops.shrink_to_fit();
    }
}

/// The edits made by one commit placement.
#[derive(Clone)]
pub struct Delta {
    pub ops: DeltaOps,
}

impl Default for Delta {
    fn default() -> (d: Delta)
        ensures
            d.ops@ == Seq::<DeltaOp>::empty(),
    {
        Delta { ops: DeltaOps::new() }
    }
}

/// Where one entry's ops sit in the op arena.
#[derive(Clone, Copy)]
struct DeltaSpan {
    chunk: u16,
    start: u32,
    len: u16,
}

/// Append-only log of history entries whose ops are stored in large shared chunks.
#[derive(Clone)]
pub struct DeltaLog {
    spans: Vec<DeltaSpan>,
    op_chunks: Vec<Vec<DeltaOp>>,
}

impl DeltaLog {
    spec fn span_ok(self, span: DeltaSpan) -> bool {
        span.len > 0 ==> {
            &&& span.chunk < self.op_chunks@.len()
            &&& span.start + span.len <= self.op_chunks@[span.chunk as int]@.len()
        }
    }

    spec fn span_ops(self, span: DeltaSpan) -> Seq<DeltaOp> {
        if span.len == 0 {
            Seq::empty()
        } else {
            self.op_chunks@[span.chunk as int]@.subrange(span.start as int, span.start + span.len)
        }
    }

    /// The log's internal consistency: chunks stay within their size and spans point inside them.
    pub closed spec fn wf(self) -> bool {
        &&& forall|c: int| 0 <= c < self.op_chunks@.len() ==> (#[trigger] self.op_chunks@[c])@.len() <= DELTA_OP_CHUNK_SIZE
        &&& forall|i: int| 0 <= i < self.spans@.len() ==> self.span_ok(#[trigger] self.spans@[i])
    }

    /// How many op chunks the arena holds.
    pub closed spec fn chunk_count(self) -> nat {
        self.op_chunks@.len()
    }

    spec fn needs_new_chunk(self, len: int) -> bool {
        self.op_chunks@.len() == 0 || self.op_chunks@.last()@.len() + len > DELTA_OP_CHUNK_SIZE
    }

    /// Whether an entry of `len` ops can be stored without exceeding the span encoding.
    pub closed spec fn can_store(self, len: nat) -> bool {
        &&& len <= 0xFFFF
        &&& len > 0 ==> (if self.needs_new_chunk(len as int) {
            self.op_chunks@.len() < 0x10000
        } else {
            self.op_chunks@.len() <= 0x10000
        })
    }

    pub fn new() -> (log: DeltaLog)
        ensures
            log.wf(),
            log@ == Seq::<Seq<DeltaOp>>::empty(),
    {
        let log = DeltaLog { spans: Vec::new(), op_chunks: Vec::new() };
        assert(log@ =~= Seq::<Seq<DeltaOp>>::empty());
        log
    }

    /// Whether an entry of `len` ops can be stored (the condition of `can_store`).
    pub fn has_room_for(&self, len: usize) -> (b: bool)
        requires
            self.wf(),
        ensures
            b == self.can_store(len as nat),
    {
        if len > 0xFFFF {
            return false;
        }
        if len == 0 {
            return true;
        }
        let n = self.op_chunks.len();
        let needs_new = n == 0 || self.op_chunks[n - 1].len() + len > DELTA_OP_CHUNK_SIZE;
        if needs_new {
            n < 0x10000
        } else {
            n <= 0x10000
        }
    }

    pub fn len(&self) -> (n: usize)
        ensures
            n == self@.len(),
    {
        self.spans.len()
    }

    pub fn is_empty(&self) -> (b: bool)
        ensures
            b == (self@.len() == 0),
    {
        self.spans.len() == 0
    }

    /// Allocated room for entries; it depends on the allocator and says nothing of the content.
    pub fn capacity(&self) -> usize {
        vec_capacity_spans(&self.spans)
    }

    /// Allocated room of each op chunk, one value per chunk.
    pub fn op_chunk_capacities(&self) -> (r: Vec<usize>)
        ensures
            r@.len() == self.chunk_count(),
    {
        let mut out: Vec<usize> = Vec::new();
        let mut i: usize = 0;
        while i < self.op_chunks.len()
            invariant
                i <= self.op_chunks@.len(),
                out@.len() == i,
            decreases self.op_chunks@.len() - i,
        {
            out.push(vec_capacity_ops(&self.op_chunks[i]));
            i += 1;
        }
        out
    }

    /// Append one entry holding the ops of `delta`.
    fn push(&mut self, delta: Delta)
        requires
            old(self).wf(),
            old(self).can_store(delta.ops@.len()),
        ensures
            final(self).wf(),
            final(self)@ == old(self)@.push(delta.ops@),
    {
        let span = self.store_ops(&delta.ops);
        let ghost mid = *self;
        self.spans.push(span);
        assert forall|i: int| 0 <= i < self.spans@.len() implies self.span_ok(#[trigger] self.spans@[i]) by {
            if i < mid.spans@.len() {
                assert(mid.span_ok(mid.spans@[i]));
            }
        }
        assert(self@ =~= old(self)@.push(delta.ops@)) by {
            assert forall|i: int| 0 <= i < old(self)@.len() implies #[trigger] self@[i] == old(self)@[i] by {
                assert(self.spans@[i] == old(self).spans@[i]);
            }
        }
    }

    /// Copy `ops` into the arena and return where they sit.
    fn store_ops(&mut self, ops: &DeltaOps) -> (span: DeltaSpan)
        requires
            old(self).wf(),
            old(self).can_store(ops@.len()),
        ensures
            final(self).wf(),
            final(self).spans@ == old(self).spans@,
            final(self).span_ok(span),
            final(self).span_ops(span) == ops@,
            forall|s: DeltaSpan| old(self).span_ok(s) ==> final(self).span_ok(s) && final(self).span_ops(s) == old(self).span_ops(s),
    {
        let len = ops.len();
        if len == 0 {
            let span = DeltaSpan { chunk: 0, start: 0, len: 0 };
            assert(self.span_ops(span) =~= ops@);
            return span;
        }
        let n = self.op_chunks.len();
        let needs_new = n == 0 || self.op_chunks[n - 1].len() + len > DELTA_OP_CHUNK_SIZE;
        if needs_new {
            let capacity = if DELTA_OP_CHUNK_SIZE > len { DELTA_OP_CHUNK_SIZE } else { len };
            self.op_chunks.push(Vec::with_capacity(capacity));
        }
        let ghost grown = *self;
        assert forall|s: DeltaSpan| old(self).span_ok(s) implies grown.span_ok(s) && grown.span_ops(s) == old(self).span_ops(s) by {
            if s.len > 0 {
                assert(grown.op_chunks@[s.chunk as int] == old(self).op_chunks@[s.chunk as int]);
            }
        }
        let chunk_idx = self.op_chunks.len() - 1;
        let mut chunk = self.op_chunks.pop().unwrap();
        let start = chunk.len();
        let slice = ops.as_slice();
        let mut k: usize = 0;
        while k < len
            invariant
                len == slice@.len(),
                slice@ == ops@,
                k <= len,
                start + len <= DELTA_OP_CHUNK_SIZE,
                chunk@.len() == start + k,
                chunk@.subrange(0, start as int) == grown.op_chunks@[chunk_idx as int]@,
                chunk@.subrange(start as int, start + k) == slice@.take(k as int),
            decreases len - k,
        {
            let ghost before = chunk@;
            chunk.push(slice[k]);
            assert(chunk@.subrange(0, start as int) =~= before.subrange(0, start as int));
            assert(chunk@.subrange(start as int, start + k + 1) =~= slice@.take(k as int + 1)) by {
                assert(before.subrange(start as int, start + k) == slice@.take(k as int));
            }
            k += 1;
        }
        self.op_chunks.push(chunk);
        let span = DeltaSpan { chunk: chunk_idx as u16, start: start as u32, len: len as u16 };
        assert(slice@.take(len as int) =~= ops@);
        assert forall|c: int| 0 <= c < self.op_chunks@.len() implies (#[trigger] self.op_chunks@[c])@.len() <= DELTA_OP_CHUNK_SIZE by {
            if c < chunk_idx {
                assert(self.op_chunks@[c] == grown.op_chunks@[c]);
            }
        }
        assert forall|s: DeltaSpan| old(self).span_ok(s) implies self.span_ok(s) && self.span_ops(s) == old(self).span_ops(s) by {
            assert(grown.span_ok(s) && grown.span_ops(s) == old(self).span_ops(s));
            if s.len > 0 {
                if s.chunk as int == chunk_idx as int {
                    let g = grown.op_chunks@[s.chunk as int]@;
                    assert(chunk@.subrange(0, start as int) == g);
                    assert(self.op_chunks@[s.chunk as int]@.subrange(s.start as int, s.start + s.len) =~= g.subrange(s.start as int, s.start + s.len));
                } else {
                    assert(self.op_chunks@[s.chunk as int] == grown.op_chunks@[s.chunk as int]);
                }
            }
        }
        assert forall|i: int| 0 <= i < self.spans@.len() implies self.span_ok(#[trigger] self.spans@[i]) by {
            assert(old(self).span_ok(old(self).spans@[i]));
        }
        assert(self.span_ops(span) =~= ops@);
        span
    }

    /// A cursor over the entries `start..end`, both clamped to the log's length.
    fn iter_range(&self, start: usize, end: usize) -> (it: DeltaLogRangeIter<'_>)
        requires
            self.wf(),
        ensures
            *it.log == *self,
            it.next == (if start < self@.len() { start } else { self@.len() as usize }),
            it.end == (if end < self@.len() { end } else { self@.len() as usize }),
    {
        let len = self.len();
        DeltaLogRangeIter { log: self, next: if start < len { start } else { len }, end: if end < len { end } else { len } }
    }

    /// Release spare capacity of the entry list and of every chunk; the entries stay.
    fn shrink_to_fit(&mut self)
        requires
            old(self).wf(),
        ensures
            final(self).wf(),
            final(self)@ == old(self)@,
    {
        vec_shrink_spans(&mut self.spans);
        let mut chunks: Vec<Vec<DeltaOp>> = Vec::new();
        let ghost original = self.op_chunks@;
        let mut i: usize = 0;
        while i < self.op_chunks.len()
            invariant
                self.op_chunks@ == original,
                i <= original.len(),
                chunks@.len() == i,
                forall|c: int| 0 <= c < i ==> (#[trigger] chunks@[c])@ == original[c]@,
            decreases original.len() - i,
        {
            let mut chunk = self.op_chunks[i].clone();
            vec_shrink_ops(&mut chunk);
            chunks.push(chunk);
            i += 1;
        }
        self.op_chunks = chunks;
        vec_shrink_chunks(&mut self.op_chunks);
        assert forall|s: DeltaSpan| old(self).span_ok(s) implies self.span_ok(s) && self.span_ops(s) == old(self).span_ops(s) by {
            if s.len > 0 {
                assert(self.op_chunks@[s.chunk as int]@ == original[s.chunk as int]@);
            }
        }
        assert forall|c: int| 0 <= c < self.op_chunks@.len() implies (#[trigger] self.op_chunks@[c])@.len() <= DELTA_OP_CHUNK_SIZE by {
            assert(self.op_chunks@[c]@ == original[c]@);
            assert(old(self).op_chunks@[c]@.len() <= DELTA_OP_CHUNK_SIZE);
        }
        assert forall|i: int| 0 <= i < self.spans@.len() implies self.span_ok(#[trigger] self.spans@[i]) by {
            assert(old(self).span_ok(old(self).spans@[i]));
        }
        assert(self@ =~= old(self)@) by {
            assert forall|i: int| 0 <= i < self@.len() implies #[trigger] self@[i] == old(self)@[i] by {
                assert(old(self).span_ok(old(self).spans@[i]));
            }
        }
    }

    /// Reserve room for `entries` entries in total.
    fn reserve_entries(&mut self, entries: usize)
        requires
            old(self).wf(),
        ensures
            final(self).wf(),
            final(self)@ == old(self)@,
    {
        let additional = entries.saturating_sub(self.spans.len());
        self.spans.reserve(additional);
        assert(self@ =~= old(self)@);
    }
}

impl View for DeltaLog {
    type V = Seq<Seq<DeltaOp>>;

    closed spec fn view(&self) -> Seq<Seq<DeltaOp>> {
        Seq::new(self.spans@.len(), |i: int| self.span_ops(self.spans@[i]))
    }
}

impl Default for DeltaLog {
    fn default() -> (log: DeltaLog)
        ensures
            log.wf(),
            log@ == Seq::<Seq<DeltaOp>>::empty(),
    {
        DeltaLog::new()
    }
}

/// `Vec::capacity` of the span list; allocator-dependent, nothing is stated of it.
#[verifier::external_body]
fn vec_capacity_spans(v: &Vec<DeltaSpan>) -> usize {
    v.capacity()
}

/// `Vec::capacity` of an op chunk; allocator-dependent, nothing is stated of it.
#[verifier::external_body]
fn vec_capacity_ops(v: &Vec<DeltaOp>) -> usize {
    v.capacity()
}

/// `Vec::shrink_to_fit` on the span list: the elements stay.
#[verifier::external_body]
fn vec_shrink_spans(v: &mut Vec<DeltaSpan>)
    ensures
        final(v)@ == old(v)@,
{
    v.shrink_to_fit();
}

/// `Vec::shrink_to_fit` on an op chunk: the elements stay.
#[verifier::external_body]
fn vec_shrink_ops(v: &mut Vec<DeltaOp>)
    ensures
        final(v)@ == old(v)@,
{
    v.shrink_to_fit();
}

/// `Vec::shrink_to_fit` on the chunk list: the elements stay.
#[verifier::external_body]
fn vec_shrink_chunks(v: &mut Vec<Vec<DeltaOp>>)
    ensures
        final(v)@ == old(v)@,
{
    v.shrink_to_fit();
}

/// The ops of one history entry, borrowed from the log.
pub struct DeltaView<'a> {
    pub ops: &'a [DeltaOp],
}

/// A cursor over a range of log entries.
pub struct DeltaLogRangeIter<'a> {
    log: &'a DeltaLog,
    next: usize,
    end: usize,
}

impl<'a> DeltaLogRangeIter<'a> {
    /// The next entry of the range with its index, or `None` once the range is used up.
    fn next(&mut self) -> (r: Option<(usize, DeltaView<'a>)>)
        requires
            old(self).log.wf(),
            old(self).end <= old(self).log@.len(),
        ensures
            final(self).log == old(self).log,
            final(self).end == old(self).end,
            old(self).next >= old(self).end ==> r.is_none() && final(self).next == old(self).next,
            old(self).next < old(self).end ==> {
                &&& r.is_some()
                &&& r.unwrap().0 == old(self).next
                &&& r.unwrap().1.ops@ == old(self).log@[old(self).next as int]
                &&& final(self).next == old(self).next + 1
            },
    {
        if self.next >= self.end {
            return None;
        }
        let idx = self.next;
        self.next = self.next + 1;
        let log: &'a DeltaLog = self.log;
        let span = log.spans[idx];
        assert(log.span_ok(log.spans@[idx as int]));
        if span.len == 0 {
            let empty: &'a [DeltaOp] = empty_ops();
            assert(empty@ =~= log@[idx as int]);
            return Some((idx, DeltaView { ops: empty }));
        }
        let chunk: &'a Vec<DeltaOp> = &log.op_chunks[span.chunk as usize];
        let start = span.start as usize;
        let end = start + span.len as usize;
        let ops = vstd::slice::slice_subrange(chunk.as_slice(), start, end);
        Some((idx, DeltaView { ops }))
    }
}

/// An empty op slice.
fn empty_ops<'a>() -> (r: &'a [DeltaOp])
    ensures
        r@ == Seq::<DeltaOp>::empty(),
{
    &[]
}


/// The first index of `s` whose cell satisfies `p`, with no earlier one satisfying it.
pub open spec fn is_first_match(s: Seq<Chunk>, p: spec_fn(Chunk) -> bool, i: int) -> bool {
    &&& 0 <= i < s.len()
    &&& p(s[i])
    &&& forall|j: int| 0 <= j < i ==> !p(#[trigger] s[j])
}

/// The first index of `s` whose cell satisfies `p`, if any.
pub open spec fn first_match(s: Seq<Chunk>, p: spec_fn(Chunk) -> bool) -> Option<int> {
    if exists|i: int| is_first_match(s, p, i) {
        Some(choose|i: int| is_first_match(s, p, i))
    } else {
        None
    }
}

proof fn lemma_first_match_is(s: Seq<Chunk>, p: spec_fn(Chunk) -> bool, i: int)
    requires
        is_first_match(s, p, i),
    ensures
        first_match(s, p) == Some(i),
{
    let k = choose|k: int| is_first_match(s, p, k);
    assert(is_first_match(s, p, k));
    if k < i {
        assert(!p(s[k]));
    } else if i < k {
        assert(!p(s[i]));
    }
}

proof fn lemma_first_match_none(s: Seq<Chunk>, p: spec_fn(Chunk) -> bool)
    requires
        forall|j: int| 0 <= j < s.len() ==> !p(#[trigger] s[j]),
    ensures
        first_match(s, p) == None::<int>,
{
    if exists|i: int| is_first_match(s, p, i) {
        let k = choose|k: int| is_first_match(s, p, k);
        assert(p(s[k]));
    }
}

/// Cells that a planned merge split applies to: those whose commit is a pending merger.
pub open spec fn merger_pred(mergers: Seq<u32>) -> spec_fn(Chunk) -> bool {
    |c: Chunk| mergers.contains(c.alias)
}

/// Cells that wait for `alias` as their first parent.
pub open spec fn parent_pred(alias: u32) -> spec_fn(Chunk) -> bool {
    |c: Chunk| c.parent_a == alias
}

/// Cells that are not empty lanes.
pub open spec fn live_pred() -> spec_fn(Chunk) -> bool {
    |c: Chunk| !c.spec_is_dummy()
}

/// `s` without the occurrences of `a`, the rest in order.
pub open spec fn without(s: Seq<u32>, a: u32) -> Seq<u32>
    decreases s.len(),
{
    if s.len() == 0 {
        s
    } else if s.last() == a {
        without(s.drop_last(), a)
    } else {
        without(s.drop_last(), a).push(s.last())
    }
}

/// Lanes after the transient lanes listed in `transient` are emptied.
pub open spec fn expire_cells(lanes: Seq<Chunk>, transient: Seq<usize>) -> Seq<Chunk> {
    Seq::new(
        lanes.len(),
        |i: int|
            if transient.contains(i as usize) && !lanes[i].spec_is_dummy() {
                Chunk::spec_dummy()
            } else {
                lanes[i]
            },
    )
}

/// Length of `s` once its trailing empty lanes are dropped.
pub open spec fn trim_len(s: Seq<Chunk>) -> nat
    decreases s.len(),
{
    if s.len() == 0 {
        0
    } else if !s.last().spec_is_dummy() {
        s.len()
    } else {
        trim_len(s.drop_last())
    }
}

/// Lanes and pending mergers after the first lane of a pending merger is split in two.
pub open spec fn split_cells(lanes: Seq<Chunk>, mergers: Seq<u32>) -> (Seq<Chunk>, Seq<u32>) {
    match first_match(lanes, merger_pred(mergers)) {
        None => (lanes, mergers),
        Some(i) => {
            let m = lanes[i];
            (
                lanes.update(i, Chunk { parent_b: NONE, ..m }).push(Chunk { parent_a: m.parent_b, parent_b: NONE, ..m }),
                without(mergers, m.alias),
            )
        },
    }
}

/// A cell once commit `a` is placed: references to `a` as a parent are cleared, and a cell
/// left with no parent becomes an empty lane. The lane of `a` itself is untouched.
pub open spec fn clear_parent(c: Chunk, a: u32) -> Chunk {
    if c.alias != a && (c.parent_a == a || c.parent_b == a) {
        let pa = if c.parent_a == a { NONE } else { c.parent_a };
        let pb = if c.parent_b == a { NONE } else { c.parent_b };
        if pa == NONE && pb == NONE {
            Chunk::spec_dummy()
        } else {
            Chunk { parent_a: pa, parent_b: pb, ..c }
        }
    } else {
        c
    }
}

/// Lanes with `clear_parent` applied to each.
pub open spec fn cleared(s: Seq<Chunk>, a: u32) -> Seq<Chunk> {
    Seq::new(s.len(), |j: int| clear_parent(s[j], a))
}

/// Lanes after `chunk` is placed, its lane index, and whether it started a new lane: it takes
/// the first lane waiting for it as first parent, or a new lane at the end.
pub open spec fn place_cells(lanes: Seq<Chunk>, chunk: Chunk) -> (Seq<Chunk>, int, bool) {
    match first_match(lanes, parent_pred(chunk.alias)) {
        Some(i) => (cleared(lanes.update(i, chunk), chunk.alias), i, false),
        None => (lanes.push(chunk), lanes.len() as int, true),
    }
}

/// The cell that stands for all lanes from `cap` on when lanes are collapsed: the preferred
/// lane when it lies there and is not empty, else the first non-empty lane there, flattened.
pub open spec fn representative(lanes: Seq<Chunk>, cap: int, preferred: Option<usize>) -> Chunk {
    let base = if preferred is Some && cap <= preferred->0 && preferred->0 < lanes.len() && !lanes[preferred->0 as int].spec_is_dummy() {
        lanes[preferred->0 as int]
    } else {
        match first_match(lanes.skip(cap), live_pred()) {
            Some(k) => lanes.skip(cap)[k],
            None => Chunk::spec_dummy(),
        }
    };
    Chunk { is_flattened: true, ..base }
}

/// Lanes after the lane limit is applied: beyond the limit they collapse into the last lane.
pub open spec fn limit_cells(lanes: Seq<Chunk>, limit: Option<usize>, preferred: Option<usize>) -> Seq<Chunk> {
    match limit {
        None => lanes,
        Some(l) => if lanes.len() <= l {
            lanes
        } else {
            lanes.update(l - 1, representative(lanes, l - 1, preferred)).take(l as int)
        },
    }
}

/// Whether a non-empty lane of `lanes` holds commit `a`.
pub open spec fn present(lanes: Seq<Chunk>, a: u32) -> bool {
    exists|j: int| 0 <= j < lanes.len() && !lanes[j].spec_is_dummy() && lanes[j].alias == a
}

/// The aliases of `s` that are still present in `lanes`, in order.
pub open spec fn keep_present(s: Seq<u32>, lanes: Seq<Chunk>) -> Seq<u32>
    decreases s.len(),
{
    if s.len() == 0 {
        s
    } else if present(lanes, s.last()) {
        keep_present(s.drop_last(), lanes).push(s.last())
    } else {
        keep_present(s.drop_last(), lanes)
    }
}

/// Whether a transient lane survives the limit: it lies below it and, when the lanes were
/// collapsed (`strict`), is not the flattened last lane.
pub open spec fn transient_kept(i: usize, limit: usize, lanes: Seq<Chunk>, strict: bool) -> bool {
    i < limit && (!strict || i + 1 != limit || !(i < lanes.len() && lanes[i as int].is_flattened))
}

/// The transient lanes of `s` kept under `limit`, in order.
pub open spec fn keep_transient(s: Seq<usize>, limit: usize, lanes: Seq<Chunk>, strict: bool) -> Seq<usize>
    decreases s.len(),
{
    if s.len() == 0 {
        s
    } else if transient_kept(s.last(), limit, lanes, strict) {
        keep_transient(s.drop_last(), limit, lanes, strict).push(s.last())
    } else {
        keep_transient(s.drop_last(), limit, lanes, strict)
    }
}

/// Where a commit placed at lane `idx` is drawn: lanes at or past the limit show in the last,
/// flattened lane.
pub open spec fn lane_ref_at(lanes: Seq<Chunk>, limit: Option<usize>, idx: int) -> LaneRef {
    if limit is Some && idx >= limit->0 {
        LaneRef { index: (limit->0 - 1) as usize, is_flattened: true }
    } else {
        LaneRef { index: idx as usize, is_flattened: 0 <= idx < lanes.len() && lanes[idx].is_flattened }
    }
}

/// How many checkpoints a log of `n` entries has: one at every multiple of the interval.
pub open spec fn checkpoint_count(n: nat) -> nat {
    if n == 0 {
        0
    } else {
        ((n - 1) as nat / CHECKPOINT_INTERVAL as nat + 1) as nat
    }
}

/// First history index that `window(start, ..)` yields: a window that starts on a checkpoint
/// index begins just after it.
pub open spec fn window_lo(start: int) -> int {
    if start % CHECKPOINT_INTERVAL as int == 0 {
        start + 1
    } else {
        start
    }
}

/// The lane rows of history indices `lo..hi` of `log`.
pub open spec fn rows_between(log: Seq<Seq<DeltaOp>>, lo: int, hi: int) -> Seq<Seq<Chunk>> {
    if lo >= hi {
        Seq::empty()
    } else {
        Seq::new((hi - lo) as nat, |k: int| replay(log, (lo + k + 1) as nat))
    }
}

/// What `window(start, end)` yields for a log: the rows from `window_lo(start)` up to `end`
/// or the end of the log.
pub open spec fn window_rows(log: Seq<Seq<DeltaOp>>, start: int, end: int) -> Seq<Seq<Chunk>> {
    let hi = if end < log.len() { end } else { log.len() as int };
    rows_between(log, window_lo(start), hi)
}

/// The result of placing one commit.
#[derive(Clone, Copy, Debug, PartialEq, Eq, Structural)]
pub struct UpdateOutcome {
    pub lane: LaneRef,
    pub started_lane: bool,
}

/// A full copy of the lanes at history index `idx`.
#[derive(Clone)]
pub struct Checkpoint {
    pub idx: usize,
    pub curr: LaneSnapshot,
}

/// The lane state of the graph as commits are placed, with the edits kept so any past row
/// can be rebuilt.
#[derive(Clone)]
pub struct Buffer {
    pub curr: LaneSnapshot,
    pub deltas: DeltaLog,
    pub checkpoints: Vec<Checkpoint>,
    pub delta: Delta,
    pub mergers: Vec<u32>,
    pub transient_lanes: Vec<usize>,
    pub lane_limit: Option<usize>,
}

/// `index` as the `u32` the delta ops carry.
fn delta_index(index: usize) -> (r: u32)
    requires
        index <= 0xFFFF_FFFF,
    ensures
        r == index,
{
    index as u32
}

proof fn lemma_ops_valid_prefix(s: Seq<Chunk>, ops: Seq<DeltaOp>, k: int)
    requires
        ops_valid(s, ops),
        0 <= k <= ops.len(),
    ensures
        ops_valid(s, ops.take(k)),
    decreases ops.len(),
{
    if k < ops.len() {
        lemma_ops_valid_prefix(s, ops.drop_last(), k);
        assert(ops.drop_last().take(k) =~= ops.take(k));
    } else {
        assert(ops.take(k) =~= ops);
    }
}

proof fn lemma_replay_valid_prefix(log: Seq<Seq<DeltaOp>>, n: nat, k: nat)
    requires
        replay_valid(log, n),
        k <= n,
    ensures
        replay_valid(log, k),
    decreases n,
{
    if k < n {
        lemma_replay_valid_prefix(log, (n - 1) as nat, k);
    }
}

/// Apply the ops of one history entry to `curr`.
fn apply_delta(curr: &mut LaneSnapshot, delta: &DeltaView<'_>)
    requires
        ops_valid(old(curr)@, delta.ops@),
    ensures
        final(curr)@ == apply_ops(old(curr)@, delta.ops@),
{
    let ghost start = curr@;
    let mut k: usize = 0;
    while k < delta.ops.len()
        invariant
            k <= delta.ops@.len(),
            ops_valid(start, delta.ops@),
            curr@ == apply_ops(start, delta.ops@.take(k as int)),
        decreases delta.ops@.len() - k,
    {
        let op = delta.ops[k];
        proof {
            lemma_ops_valid_prefix(start, delta.ops@, k + 1);
            assert(delta.ops@.take(k + 1).drop_last() =~= delta.ops@.take(k as int));
        }
        op.apply(curr);
        k += 1;
    }
    assert(delta.ops@.take(k as int) =~= delta.ops@);
}


impl Buffer {
    /// The lanes before the pending delta: the replay of the whole log.
    pub open spec fn base(&self) -> Seq<Chunk> {
        replay(self.deltas@, self.deltas@.len())
    }

    /// The lanes recorded at history index `i`.
    pub closed spec fn snapshot(&self, i: int) -> Seq<Chunk> {
        replay(self.deltas@, (i + 1) as nat)
    }

    /// Commits whose lane splits on the next placement.
    pub open spec fn merger_list(&self) -> Seq<u32> {
        self.mergers@
    }

    /// Lanes emptied on the next placement.
    pub open spec fn transient_list(&self) -> Seq<usize> {
        self.transient_lanes@
    }

    /// The lane limit, if any.
    pub open spec fn limit(&self) -> Option<usize> {
        self.lane_limit
    }

    /// The buffer's consistency: the log replays without an out-of-range edit, the pending
    /// delta leads from the replayed lanes to `curr`, and a checkpoint holds the lanes of every
    /// multiple of the checkpoint interval.
    pub open spec fn wf(&self) -> bool {
        &&& self.deltas.wf()
        &&& replay_valid(self.deltas@, self.deltas@.len())
        &&& ops_valid(self.base(), self.delta.ops@)
        &&& self.curr@ == apply_ops(self.base(), self.delta.ops@)
        &&& self.checkpoints@.len() == checkpoint_count(self.deltas@.len())
        &&& forall|k: int| 0 <= k < self.checkpoints@.len() ==> {
            &&& (#[trigger] self.checkpoints@[k]).idx == k * CHECKPOINT_INTERVAL
            &&& self.checkpoints@[k].curr@ == replay(self.deltas@, (k * CHECKPOINT_INTERVAL + 1) as nat)
        }
        &&& self.lane_limit is Some ==> self.lane_limit->0 >= 1
    }

    /// Whether the next placement fits: the pending delta can be logged and lane indices fit
    /// the `u32` the ops carry.
    pub open spec fn has_room(&self) -> bool {
        &&& self.deltas.can_store(self.delta.ops@.len())
        &&& self.curr@.len() < 0xFFFF_FFFE
    }

    /// Whether the next `update` can run (the condition of `has_room`).
    pub fn can_update(&self) -> (b: bool)
        requires
            self.wf(),
        ensures
            b == self.has_room(),
    {
        self.deltas.has_room_for(self.delta.ops.len()) && self.curr.len() < 0xFFFF_FFFE
    }

    /// An empty buffer with no lane limit.
    pub fn new() -> (b: Buffer)
        ensures
            b.wf(),
            b.curr@ == Seq::<Chunk>::empty(),
            b.deltas@ == Seq::<Seq<DeltaOp>>::empty(),
            b.delta.ops@ == Seq::<DeltaOp>::empty(),
            b.merger_list() == Seq::<u32>::empty(),
            b.transient_list() == Seq::<usize>::empty(),
            b.limit() == None::<usize>,
    {
        Buffer {
            curr: LaneSnapshot::new(),
            deltas: DeltaLog::new(),
            checkpoints: Vec::new(),
            delta: Delta::default(),
            mergers: Vec::new(),
            transient_lanes: Vec::new(),
            lane_limit: None,
        }
    }

    /// An empty buffer that keeps at most `limit` lanes (at least one).
    pub fn with_lane_limit(limit: usize) -> (b: Buffer)
        ensures
            b.wf(),
            b.curr@ == Seq::<Chunk>::empty(),
            b.deltas@ == Seq::<Seq<DeltaOp>>::empty(),
            b.delta.ops@ == Seq::<DeltaOp>::empty(),
            b.merger_list() == Seq::<u32>::empty(),
            b.transient_list() == Seq::<usize>::empty(),
            b.limit() == Some(if limit > 1 { limit } else { 1usize }),
    {
        let mut b = Buffer::new();
        b.lane_limit = Some(if limit > 1 { limit } else { 1 });
        b
    }

    /// Plan a split of the lane of `alias` on the next placement.
    pub fn merger(&mut self, alias: u32)
        requires
            old(self).wf(),
        ensures
            final(self).wf(),
            final(self).merger_list() == old(self).merger_list().push(alias),
            final(self).curr@ == old(self).curr@,
            final(self).deltas@ == old(self).deltas@,
            final(self).delta.ops@ == old(self).delta.ops@,
            final(self).transient_list() == old(self).transient_list(),
            final(self).limit() == old(self).limit(),
    {
        self.mergers.push(alias);
    }

    /// Mark lane `lane_idx` to be emptied on the next placement, unless it lies past the limit,
    /// is the flattened last lane, or is already marked.
    pub fn expire_lane_after_snapshot(&mut self, lane_idx: usize)
        requires
            old(self).wf(),
        ensures
            final(self).wf(),
            final(self).transient_list() == (if (old(self).limit() is Some && (lane_idx >= old(self).limit()->0 || (
                lane_idx + 1 == old(self).limit()->0 && lane_idx < old(self).curr@.len() && old(self).curr@[lane_idx as int].is_flattened)))
                || old(self).transient_list().contains(lane_idx) {
                old(self).transient_list()
            } else {
                old(self).transient_list().push(lane_idx)
            }),
            final(self).curr@ == old(self).curr@,
            final(self).deltas@ == old(self).deltas@,
            final(self).delta.ops@ == old(self).delta.ops@,
            final(self).merger_list() == old(self).merger_list(),
            final(self).limit() == old(self).limit(),
    {
        if let Some(limit) = self.lane_limit {
            if lane_idx >= limit {
                return;
            }
            if lane_idx + 1 == limit && lane_idx < self.curr.len() && self.curr.get(lane_idx).is_flattened {
                return;
            }
        }
        if !contains_usize(&self.transient_lanes, lane_idx) {
            self.transient_lanes.push(lane_idx);
        }
    }

    /// Log the pending delta as the next history entry and, at every multiple of the
    /// checkpoint interval, keep a copy of the lanes.
    pub fn backup(&mut self)
        requires
            old(self).wf(),
            old(self).deltas.can_store(old(self).delta.ops@.len()),
        ensures
            final(self).wf(),
            final(self).deltas@ == old(self).deltas@.push(old(self).delta.ops@),
            final(self).delta.ops@ == Seq::<DeltaOp>::empty(),
            final(self).curr@ == old(self).curr@,
            final(self).snapshot(old(self).deltas@.len() as int) == old(self).curr@,
            final(self).merger_list() == old(self).merger_list(),
            final(self).transient_list() == old(self).transient_list(),
            final(self).limit() == old(self).limit(),
    {
        let ghost old_log = self.deltas@;
        let ghost n = old_log.len();
        let mut pending = Delta::default();
        std::mem::swap(&mut self.delta, &mut pending);
        self.deltas.push(pending);
        let idx = self.deltas.len() - 1;
        proof {
            lemma_replay_push(old_log, old(self).delta.ops@, n);
            assert(self.deltas@[n as int] == old(self).delta.ops@);
            assert(replay(self.deltas@, n + 1) == old(self).curr@);
            assert(apply_ops(self.curr@, self.delta.ops@) == self.curr@);
            assert forall|k: int| 0 <= k < self.checkpoints@.len() implies
                (#[trigger] self.checkpoints@[k]).curr@ == replay(self.deltas@, (k * CHECKPOINT_INTERVAL + 1) as nat) by {
                assert(k * CHECKPOINT_INTERVAL + 1 <= n);
                lemma_replay_push(old_log, old(self).delta.ops@, (k * CHECKPOINT_INTERVAL + 1) as nat);
            }
        }
        if idx % CHECKPOINT_INTERVAL == 0 {
            let copy = self.curr.clone();
            self.checkpoints.push(Checkpoint { idx, curr: copy });
            proof {
                let k = (n / CHECKPOINT_INTERVAL as nat) as int;
                assert(k * CHECKPOINT_INTERVAL == n) by (nonlinear_arith)
                    requires n % CHECKPOINT_INTERVAL as nat == 0, k == n / CHECKPOINT_INTERVAL as nat;
                lemma_checkpoint_count_step(n);
                assert(self.checkpoints@.len() == k + 1);
            }
        } else {
            proof {
                lemma_checkpoint_count_step(n);
            }
        }
    }

    /// Apply `op` to the lanes and record it in the pending delta.
    fn record(&mut self, op: DeltaOp)
        requires
            old(self).wf(),
            op_valid(old(self).curr@, op),
        ensures
            final(self).wf(),
            final(self).curr@ == apply_op(old(self).curr@, op),
            final(self).delta.ops@ == old(self).delta.ops@.push(op),
            final(self).deltas == old(self).deltas,
            final(self).checkpoints == old(self).checkpoints,
            final(self).mergers == old(self).mergers,
            final(self).transient_lanes == old(self).transient_lanes,
            final(self).lane_limit == old(self).lane_limit,
    {
        op.apply(&mut self.curr);
        self.delta.ops.push(op);
        proof {
            lemma_apply_ops_push(old(self).base(), old(self).delta.ops@, op);
        }
    }
}

proof fn lemma_checkpoint_count_step(n: nat)
    ensures
        checkpoint_count(n + 1) == checkpoint_count(n) + (if n % CHECKPOINT_INTERVAL as nat == 0 { 1int } else { 0int }),
{
    let i = CHECKPOINT_INTERVAL as nat;
    if n > 0 {
        assert(((n - 1) as nat / i + 1) + (if n % i == 0 { 1int } else { 0int }) == n / i + 1) by (nonlinear_arith)
            requires n > 0, i == 16384;
    }
}

/// Whether `v` holds `x`.
fn contains_usize(v: &Vec<usize>, x: usize) -> (b: bool)
    ensures
        b == v@.contains(x),
{
    let mut i: usize = 0;
    while i < v.len()
        invariant
            i <= v@.len(),
            forall|j: int| 0 <= j < i ==> v@[j] != x,
        decreases v@.len() - i,
    {
        if v[i] == x {
            return true;
        }
        i += 1;
    }
    false
}

/// Whether `v` holds `x`.
fn contains_u32(v: &Vec<u32>, x: u32) -> (b: bool)
    ensures
        b == v@.contains(x),
{
    let mut i: usize = 0;
    while i < v.len()
        invariant
            i <= v@.len(),
            forall|j: int| 0 <= j < i ==> v@[j] != x,
        decreases v@.len() - i,
    {
        if v[i] == x {
            return true;
        }
        i += 1;
    }
    false
}

impl Default for Buffer {
    fn default() -> (b: Buffer)
        ensures
            b.wf(),
            b.curr@ == Seq::<Chunk>::empty(),
            b.deltas@ == Seq::<Seq<DeltaOp>>::empty(),
            b.limit() == None::<usize>,
    {
        Buffer::new()
    }
}


/// The state after one commit is placed: lanes, pending mergers and outcome. Transient lanes
/// are emptied, trailing empty lanes dropped, a planned merger split, the commit placed, and
/// the lane limit applied.
pub open spec fn update_model(
    lanes: Seq<Chunk>,
    transient: Seq<usize>,
    mergers: Seq<u32>,
    limit: Option<usize>,
    chunk: Chunk,
) -> (Seq<Chunk>, Seq<u32>, UpdateOutcome) {
    let e = expire_cells(lanes, transient);
    let t = e.take(trim_len(e) as int);
    let (s, m) = split_cells(t, mergers);
    let (p, idx, started) = place_cells(s, chunk);
    let fin = limit_cells(p, limit, Some(idx as usize));
    let merged = if limit is Some { keep_present(m, fin) } else { m };
    (fin, merged, UpdateOutcome { lane: lane_ref_at(fin, limit, idx), started_lane: started })
}

proof fn lemma_trim_len_bound(s: Seq<Chunk>)
    ensures
        trim_len(s) <= s.len(),
    decreases s.len(),
{
    if s.len() > 0 && s.last().spec_is_dummy() {
        lemma_trim_len_bound(s.drop_last());
    }
}

/// `v` without the occurrences of `a`.
fn remove_alias(v: &Vec<u32>, a: u32) -> (r: Vec<u32>)
    ensures
        r@ == without(v@, a),
{
    let mut out: Vec<u32> = Vec::new();
    let mut i: usize = 0;
    while i < v.len()
        invariant
            i <= v@.len(),
            out@ == without(v@.take(i as int), a),
        decreases v@.len() - i,
    {
        assert(v@.take(i as int + 1).drop_last() =~= v@.take(i as int));
        if v[i] != a {
            out.push(v[i]);
        }
        i += 1;
    }
    assert(v@.take(v@.len() as int) =~= v@);
    out
}

impl Buffer {
    /// Empty the lanes marked transient, then clear the marks.
    fn expire_transient_lanes(&mut self)
        requires
            old(self).wf(),
            old(self).curr@.len() <= 0x1_0000_0000,
        ensures
            final(self).wf(),
            final(self).curr@ == expire_cells(old(self).curr@, old(self).transient_lanes@),
            final(self).transient_lanes@ == Seq::<usize>::empty(),
            final(self).mergers == old(self).mergers,
            final(self).deltas == old(self).deltas,
            final(self).checkpoints == old(self).checkpoints,
            final(self).lane_limit == old(self).lane_limit,
    {
        let mut lanes: Vec<usize> = Vec::new();
        std::mem::swap(&mut lanes, &mut self.transient_lanes);
        let ghost orig = self.curr@;
        let mut i: usize = 0;
        assert(self.curr@ =~= expire_cells(orig, lanes@.take(0)));
        while i < lanes.len()
            invariant
                self.wf(),
                i <= lanes@.len(),
                lanes@ == old(self).transient_lanes@,
                orig == old(self).curr@,
                orig.len() <= 0x1_0000_0000,
                self.curr@ == expire_cells(orig, lanes@.take(i as int)),
                self.transient_lanes@ == Seq::<usize>::empty(),
                self.mergers == old(self).mergers,
                self.deltas == old(self).deltas,
                self.checkpoints == old(self).checkpoints,
                self.lane_limit == old(self).lane_limit,
            decreases lanes@.len() - i,
        {
            let lane_idx = lanes[i];
            let ghost before = self.curr@;
            if lane_idx < self.curr.len() && !self.curr.get(lane_idx).is_dummy() {
                let d = Chunk::dummy();
                self.record(DeltaOp::Replace { index: delta_index(lane_idx), new: d });
            }
            proof {
                let t0 = lanes@.take(i as int);
                let t1 = lanes@.take(i as int + 1);
                assert(t1 =~= t0.push(lane_idx));
                assert forall|j: int| 0 <= j < orig.len() implies #[trigger] t1.contains(j as usize) == (t0.contains(j as usize) || j == lane_idx) by {
                    if j == lane_idx {
                        assert(t1[i as int] == lane_idx);
                    }
                    if t0.contains(j as usize) {
                        let w = choose|w: int| 0 <= w < t0.len() && t0[w] == j as usize;
                        assert(t1[w] == j as usize);
                    }
                    if t1.contains(j as usize) && j != lane_idx {
                        let w = choose|w: int| 0 <= w < t1.len() && t1[w] == j as usize;
                        assert(w < i);
                        assert(t0[w] == j as usize);
                    }
                }
                assert(self.curr@ =~= expire_cells(orig, t1));
            }
            i += 1;
        }
        assert(lanes@.take(lanes@.len() as int) =~= lanes@);
        lanes.clear();
        self.transient_lanes = lanes;
    }

    /// Drop the empty lanes at the end.
    fn trim_trailing_dummies(&mut self)
        requires
            old(self).wf(),
            old(self).curr@.len() <= 0x1_0000_0000,
        ensures
            final(self).wf(),
            final(self).curr@ == old(self).curr@.take(trim_len(old(self).curr@) as int),
            final(self).mergers == old(self).mergers,
            final(self).transient_lanes == old(self).transient_lanes,
            final(self).deltas == old(self).deltas,
            final(self).checkpoints == old(self).checkpoints,
            final(self).lane_limit == old(self).lane_limit,
    {
        let ghost orig = self.curr@;
        let old_len = self.curr.len();
        let mut new_len = old_len;
        assert(orig.take(old_len as int) =~= orig);
        while new_len > 0 && self.curr.get(new_len - 1).is_dummy()
            invariant
                new_len <= old_len,
                old_len == orig.len(),
                self.curr@ == orig,
                trim_len(orig) == trim_len(orig.take(new_len as int)),
            decreases new_len,
        {
            assert(orig.take(new_len as int).drop_last() =~= orig.take(new_len - 1));
            new_len -= 1;
        }
        assert(trim_len(orig) == new_len);
        let mut idx = old_len;
        while idx > new_len
            invariant
                self.wf(),
                new_len <= idx <= old_len,
                old_len == orig.len(),
                orig.len() <= 0x1_0000_0000,
                self.curr@ == orig.take(idx as int),
                self.mergers == old(self).mergers,
                self.transient_lanes == old(self).transient_lanes,
                self.deltas == old(self).deltas,
                self.checkpoints == old(self).checkpoints,
                self.lane_limit == old(self).lane_limit,
            decreases idx,
        {
            idx -= 1;
            self.record(DeltaOp::Remove { index: delta_index(idx) });
            assert(self.curr@ =~= orig.take(idx as int));
        }
    }

    /// The first lane whose commit is a pending merger.
    fn first_merger_lane(&self) -> (r: Option<usize>)
        ensures
            match r {
                Some(i) => is_first_match(self.curr@, merger_pred(self.mergers@), i as int),
                None => forall|j: int| 0 <= j < self.curr@.len() ==> !(merger_pred(self.mergers@))(#[trigger] self.curr@[j]),
            },
    {
        let mut i: usize = 0;
        while i < self.curr.len()
            invariant
                i <= self.curr@.len(),
                forall|j: int| 0 <= j < i ==> !(merger_pred(self.mergers@))(#[trigger] self.curr@[j]),
            decreases self.curr@.len() - i,
        {
            if contains_u32(&self.mergers, self.curr.get(i).alias) {
                return Some(i);
            }
            i += 1;
        }
        None
    }

    /// Split the first lane of a pending merger: it keeps its first parent, and a new lane at
    /// the end follows the second. The merger is no longer pending.
    fn split_planned_merger(&mut self)
        requires
            old(self).wf(),
            old(self).curr@.len() < 0xFFFF_FFFF,
        ensures
            final(self).wf(),
            (final(self).curr@, final(self).mergers@) == split_cells(old(self).curr@, old(self).mergers@),
            final(self).transient_lanes == old(self).transient_lanes,
            final(self).deltas == old(self).deltas,
            final(self).checkpoints == old(self).checkpoints,
            final(self).lane_limit == old(self).lane_limit,
    {
        let found = self.first_merger_lane();
        match found {
            None => {
                proof {
                    lemma_first_match_none(self.curr@, merger_pred(self.mergers@));
                }
            },
            Some(merger_idx) => {
                proof {
                    lemma_first_match_is(self.curr@, merger_pred(self.mergers@), merger_idx as int);
                }
                let merger = self.curr.get(merger_idx);
                let merger_alias = merger.alias;
                self.mergers = remove_alias(&self.mergers, merger_alias);
                let split = Chunk { parent_a: merger.parent_b, parent_b: NONE, ..merger };
                let kept = Chunk { parent_b: NONE, ..merger };
                self.record(DeltaOp::Replace { index: delta_index(merger_idx), new: kept });
                let n = self.curr.len();
                self.record(DeltaOp::Insert { index: delta_index(n), item: split });
                assert(self.curr@ =~= old(self).curr@.update(merger_idx as int, kept).push(split));
            },
        }
    }

    /// Clear every reference to `old_alias` as a parent, emptying lanes left without parents.
    fn clear_consumed_parent_lanes(&mut self, old_alias: u32)
        requires
            old(self).wf(),
            old(self).curr@.len() <= 0x1_0000_0000,
        ensures
            final(self).wf(),
            final(self).curr@ == cleared(old(self).curr@, old_alias),
            final(self).mergers == old(self).mergers,
            final(self).transient_lanes == old(self).transient_lanes,
            final(self).deltas == old(self).deltas,
            final(self).checkpoints == old(self).checkpoints,
            final(self).lane_limit == old(self).lane_limit,
    {
        let ghost orig = self.curr@;
        let len = self.curr.len();
        let mut idx: usize = 0;
        while idx < len
            invariant
                self.wf(),
                idx <= len,
                len == orig.len(),
                orig.len() <= 0x1_0000_0000,
                self.curr@ == Seq::new(len as nat, |j: int| if j < idx { clear_parent(orig[j], old_alias) } else { orig[j] }),
                self.mergers == old(self).mergers,
                self.transient_lanes == old(self).transient_lanes,
                self.deltas == old(self).deltas,
                self.checkpoints == old(self).checkpoints,
                self.lane_limit == old(self).lane_limit,
                orig == old(self).curr@,
            decreases len - idx,
        {
            let inner = self.curr.get(idx);
            if inner.alias != old_alias && (inner.parent_a == old_alias || inner.parent_b == old_alias) {
                let mut updated = inner;
                if updated.parent_a == old_alias {
                    updated.parent_a = NONE;
                }
                if updated.parent_b == old_alias {
                    updated.parent_b = NONE;
                }
                if updated.parent_a == NONE && updated.parent_b == NONE {
                    updated = Chunk::dummy();
                }
                self.record(DeltaOp::Replace { index: delta_index(idx), new: updated });
            }
            assert(self.curr@ =~= Seq::new(len as nat, |j: int| if j < idx + 1 { clear_parent(orig[j], old_alias) } else { orig[j] }));
            idx += 1;
        }
        assert(self.curr@ =~= cleared(orig, old_alias));
    }

    /// Put `chunk` in lane `lane_idx` and clear the references to it as a parent.
    fn replace_parent_lane(&mut self, lane_idx: usize, chunk: Chunk)
        requires
            old(self).wf(),
            lane_idx < old(self).curr@.len(),
            old(self).curr@.len() <= 0x1_0000_0000,
        ensures
            final(self).wf(),
            final(self).curr@ == cleared(old(self).curr@.update(lane_idx as int, chunk), chunk.alias),
            final(self).mergers == old(self).mergers,
            final(self).transient_lanes == old(self).transient_lanes,
            final(self).deltas == old(self).deltas,
            final(self).checkpoints == old(self).checkpoints,
            final(self).lane_limit == old(self).lane_limit,
    {
        let old_alias = chunk.alias;
        self.record(DeltaOp::Replace { index: delta_index(lane_idx), new: chunk });
        self.clear_consumed_parent_lanes(old_alias);
    }

    /// Whether a non-empty lane holds commit `alias`.
    fn is_present(&self, alias: u32) -> (b: bool)
        ensures
            b == present(self.curr@, alias),
    {
        let mut j: usize = 0;
        while j < self.curr.len()
            invariant
                j <= self.curr@.len(),
                forall|k: int| 0 <= k < j ==> !(!self.curr@[k].spec_is_dummy() && self.curr@[k].alias == alias),
            decreases self.curr@.len() - j,
        {
            let c = self.curr.get(j);
            if !c.is_dummy() && c.alias == alias {
                return true;
            }
            j += 1;
        }
        false
    }

    /// Drop the pending mergers whose commit no longer has a lane.
    fn purge_unstored_mergers(&mut self)
        requires
            old(self).wf(),
        ensures
            final(self).wf(),
            final(self).mergers@ == keep_present(old(self).mergers@, old(self).curr@),
            final(self).curr == old(self).curr,
            final(self).delta == old(self).delta,
            final(self).transient_lanes == old(self).transient_lanes,
            final(self).deltas == old(self).deltas,
            final(self).checkpoints == old(self).checkpoints,
            final(self).lane_limit == old(self).lane_limit,
    {
        let mut out: Vec<u32> = Vec::new();
        let mut i: usize = 0;
        while i < self.mergers.len()
            invariant
                i <= self.mergers@.len(),
                self.mergers == old(self).mergers,
                self.curr == old(self).curr,
                out@ == keep_present(self.mergers@.take(i as int), self.curr@),
            decreases self.mergers@.len() - i,
        {
            assert(self.mergers@.take(i as int + 1).drop_last() =~= self.mergers@.take(i as int));
            let a = self.mergers[i];
            if self.is_present(a) {
                out.push(a);
            }
            i += 1;
        }
        assert(self.mergers@.take(self.mergers@.len() as int) =~= self.mergers@);
        self.mergers = out;
    }

    /// Keep the transient lanes that survive the limit (see `transient_kept`).
    fn retain_transient(&mut self, limit: usize, strict: bool)
        requires
            old(self).wf(),
        ensures
            final(self).wf(),
            final(self).transient_lanes@ == keep_transient(old(self).transient_lanes@, limit, old(self).curr@, strict),
            final(self).curr == old(self).curr,
            final(self).delta == old(self).delta,
            final(self).mergers == old(self).mergers,
            final(self).deltas == old(self).deltas,
            final(self).checkpoints == old(self).checkpoints,
            final(self).lane_limit == old(self).lane_limit,
    {
        let mut out: Vec<usize> = Vec::new();
        let mut i: usize = 0;
        while i < self.transient_lanes.len()
            invariant
                i <= self.transient_lanes@.len(),
                self.transient_lanes == old(self).transient_lanes,
                self.curr == old(self).curr,
                out@ == keep_transient(self.transient_lanes@.take(i as int), limit, self.curr@, strict),
            decreases self.transient_lanes@.len() - i,
        {
            assert(self.transient_lanes@.take(i as int + 1).drop_last() =~= self.transient_lanes@.take(i as int));
            let lane_idx = self.transient_lanes[i];
            let kept = lane_idx < limit && (!strict || lane_idx + 1 != limit || !(lane_idx < self.curr.len() && self.curr.get(lane_idx).is_flattened));
            if kept {
                out.push(lane_idx);
            }
            i += 1;
        }
        assert(self.transient_lanes@.take(self.transient_lanes@.len() as int) =~= self.transient_lanes@);
        self.transient_lanes = out;
    }

    /// The flattened cell standing for lanes `cap_idx..` (see `representative`).
    fn flattened_representative(&self, cap_idx: usize, preferred_idx: Option<usize>) -> (c: Chunk)
        requires
            cap_idx <= self.curr@.len(),
        ensures
            c == representative(self.curr@, cap_idx as int, preferred_idx),
    {
        let len = self.curr.len();
        let mut preferred: Option<Chunk> = None;
        if let Some(idx) = preferred_idx {
            if idx >= cap_idx && idx < len {
                let c = self.curr.get(idx);
                if !c.is_dummy() {
                    preferred = Some(c);
                }
            }
        }
        let base = match preferred {
            Some(c) => c,
            None => match self.first_live_lane_from(cap_idx) {
                Some(k) => {
                    proof {
                        lemma_first_match_is(self.curr@.skip(cap_idx as int), live_pred(), k - cap_idx);
                    }
                    self.curr.get(k)
                },
                None => {
                    proof {
                        lemma_first_match_none(self.curr@.skip(cap_idx as int), live_pred());
                    }
                    Chunk::dummy()
                },
            },
        };
        base.with_flattened(true)
    }

    /// The first non-empty lane at or after `from`.
    fn first_live_lane_from(&self, from: usize) -> (r: Option<usize>)
        requires
            from <= self.curr@.len(),
        ensures
            match r {
                Some(k) => from <= k < self.curr@.len() && is_first_match(self.curr@.skip(from as int), live_pred(), k - from),
                None => forall|j: int| 0 <= j < self.curr@.len() - from ==> !(live_pred())(#[trigger] self.curr@.skip(from as int)[j]),
            },
    {
        let mut k = from;
        while k < self.curr.len()
            invariant
                from <= k <= self.curr@.len(),
                forall|j: int| 0 <= j < k - from ==> !(live_pred())(#[trigger] self.curr@.skip(from as int)[j]),
            decreases self.curr@.len() - k,
        {
            if !self.curr.get(k).is_dummy() {
                assert(self.curr@.skip(from as int)[k - from] == self.curr@[k as int]);
                return Some(k);
            }
            assert(self.curr@.skip(from as int)[k - from] == self.curr@[k as int]);
            k += 1;
        }
        None
    }

    /// Where lane `lane_idx` is drawn (see `lane_ref_at`).
    fn lane_ref_for_original_index(&self, lane_idx: usize) -> (r: LaneRef)
        requires
            self.lane_limit is Some ==> self.lane_limit->0 >= 1,
        ensures
            r == lane_ref_at(self.curr@, self.lane_limit, lane_idx as int),
    {
        if let Some(limit) = self.lane_limit {
            if lane_idx >= limit {
                return LaneRef::new(limit - 1, true);
            }
        }
        LaneRef::new(lane_idx, lane_idx < self.curr.len() && self.curr.get(lane_idx).is_flattened)
    }

    /// Collapse the lanes beyond the limit into the last allowed lane, preferring the lane of
    /// `preferred_idx`, then drop mergers and transient marks that no longer apply.
    fn enforce_lane_limit(&mut self, preferred_idx: Option<usize>)
        requires
            old(self).wf(),
            old(self).curr@.len() <= 0x1_0000_0000,
        ensures
            final(self).wf(),
            final(self).curr@ == limit_cells(old(self).curr@, old(self).lane_limit, preferred_idx),
            final(self).mergers@ == (if old(self).lane_limit is Some {
                keep_present(old(self).mergers@, final(self).curr@)
            } else {
                old(self).mergers@
            }),
            final(self).transient_lanes@ == (match old(self).lane_limit {
                None => old(self).transient_lanes@,
                Some(l) => keep_transient(old(self).transient_lanes@, l, final(self).curr@, old(self).curr@.len() > l),
            }),
            final(self).deltas == old(self).deltas,
            final(self).checkpoints == old(self).checkpoints,
            final(self).lane_limit == old(self).lane_limit,
    {
        let limit = match self.lane_limit {
            None => {
                return;
            },
            Some(l) => l,
        };
        if self.curr.len() <= limit {
            self.purge_unstored_mergers();
            self.retain_transient(limit, false);
            return;
        }
        let cap_idx = limit - 1;
        let replacement = self.flattened_representative(cap_idx, preferred_idx);
        if self.curr.get(cap_idx) != replacement {
            self.record(DeltaOp::ReplaceAndTruncate { index: delta_index(cap_idx), new: replacement, len: delta_index(limit) });
        } else {
            self.record(DeltaOp::Truncate { len: delta_index(limit) });
            assert(old(self).curr@.update(cap_idx as int, replacement) =~= old(self).curr@);
        }
        self.purge_unstored_mergers();
        self.retain_transient(limit, true);
    }

    /// Place commit `chunk`: empty the transient lanes, drop trailing empty lanes, split a
    /// planned merger, put the commit in the first lane waiting for it (or a new lane at the
    /// end), and apply the lane limit. The pending delta of the previous placement is logged
    /// first. See `update_model` for the state this leads to.
    pub fn update(&mut self, chunk: Chunk) -> (outcome: UpdateOutcome)
        requires
            old(self).wf(),
            old(self).has_room(),
        ensures
            final(self).wf(),
            final(self).deltas@ == old(self).deltas@.push(old(self).delta.ops@),
            final(self).snapshot(old(self).deltas@.len() as int) == old(self).curr@,
            ({
                let (lanes, mergers, out) = update_model(
                    old(self).curr@,
                    old(self).transient_lanes@,
                    old(self).mergers@,
                    old(self).lane_limit,
                    chunk,
                );
                &&& final(self).curr@ == lanes
                &&& final(self).mergers@ == mergers
                &&& outcome == out
            }),
            final(self).transient_lanes@ == Seq::<usize>::empty(),
            final(self).lane_limit == old(self).lane_limit,
            old(self).lane_limit is Some ==> final(self).curr@.len() <= old(self).lane_limit->0,
    {
        self.backup();
        self.expire_transient_lanes();
        let ghost e = self.curr@;
        self.trim_trailing_dummies();
        proof {
            lemma_trim_len_bound(e);
        }
        let ghost t = self.curr@;
        self.split_planned_merger();
        let ghost s = self.curr@;
        let ghost m = self.mergers@;
        let found = self.first_parent_lane(chunk.alias);
        match found {
            Some(first_idx) => {
                proof {
                    lemma_first_match_is(s, parent_pred(chunk.alias), first_idx as int);
                }
                self.replace_parent_lane(first_idx, chunk);
                let ghost p = self.curr@;
                self.enforce_lane_limit(Some(first_idx));
                proof {
                    lemma_keep_transient_empty(self.lane_limit, p);
                }
                let lane = self.lane_ref_for_original_index(first_idx);
                UpdateOutcome { lane, started_lane: false }
            },
            None => {
                proof {
                    lemma_first_match_none(s, parent_pred(chunk.alias));
                }
                let n = self.curr.len();
                self.record(DeltaOp::Insert { index: delta_index(n), item: chunk });
                assert(self.curr@ =~= s.push(chunk));
                let lane_idx = self.curr.len() - 1;
                let ghost p = self.curr@;
                self.enforce_lane_limit(Some(lane_idx));
                proof {
                    lemma_keep_transient_empty(self.lane_limit, p);
                }
                let lane = self.lane_ref_for_original_index(lane_idx);
                UpdateOutcome { lane, started_lane: true }
            },
        }
    }

    /// The first lane waiting for `alias` as its first parent.
    fn first_parent_lane(&self, alias: u32) -> (r: Option<usize>)
        ensures
            match r {
                Some(i) => is_first_match(self.curr@, parent_pred(alias), i as int),
                None => forall|j: int| 0 <= j < self.curr@.len() ==> !(parent_pred(alias))(#[trigger] self.curr@[j]),
            },
    {
        let mut i: usize = 0;
        while i < self.curr.len()
            invariant
                i <= self.curr@.len(),
                forall|j: int| 0 <= j < i ==> !(parent_pred(alias))(#[trigger] self.curr@[j]),
            decreases self.curr@.len() - i,
        {
            if self.curr.get(i).parent_a == alias {
                return Some(i);
            }
            i += 1;
        }
        None
    }
}

proof fn lemma_keep_transient_empty(limit: Option<usize>, lanes: Seq<Chunk>)
    ensures
        forall|l: usize, strict: bool| #[trigger] keep_transient(Seq::<usize>::empty(), l, lanes, strict) == Seq::<usize>::empty(),
{
}


proof fn lemma_rows_between_push(log: Seq<Seq<DeltaOp>>, lo: int, hi: int)
    requires
        lo <= hi,
    ensures
        rows_between(log, lo, hi + 1) == rows_between(log, lo, hi).push(replay(log, (hi + 1) as nat)),
{
    assert(rows_between(log, lo, hi + 1) =~= rows_between(log, lo, hi).push(replay(log, (hi + 1) as nat)));
}

proof fn lemma_window_start(start: int, cp: int)
    requires
        0 <= cp,
        cp * 16384 <= start < cp * 16384 + 16384,
    ensures
        (start % 16384 == 0) == (start == cp * 16384),
{
    assert((start % 16384 == 0) == (start == cp * 16384)) by (nonlinear_arith)
        requires cp * 16384 <= start < cp * 16384 + 16384, 0 <= cp;
}

proof fn lemma_checkpoint_cover(n: nat)
    requires
        n > 0,
    ensures
        checkpoint_count(n) * CHECKPOINT_INTERVAL >= n,
        (checkpoint_count(n) - 1) * CHECKPOINT_INTERVAL < n,
{
    let q = (n - 1) as nat / 16384;
    assert(q * 16384 <= n - 1 < q * 16384 + 16384) by (nonlinear_arith)
        requires q == (n - 1) as nat / 16384, n > 0;
}

/// `Vec::capacity` of the checkpoint list; allocator-dependent, nothing is stated of it.
#[verifier::external_body]
fn vec_capacity_checkpoints(v: &Vec<Checkpoint>) -> usize {
    v.capacity()
}

/// `Vec::shrink_to_fit` on an alias list: the elements stay.
#[verifier::external_body]
fn vec_shrink_u32(v: &mut Vec<u32>)
    ensures
        final(v)@ == old(v)@,
{
    v.shrink_to_fit();
}

/// `Vec::shrink_to_fit` on a lane list: the elements stay.
#[verifier::external_body]
fn vec_shrink_usize(v: &mut Vec<usize>)
    ensures
        final(v)@ == old(v)@,
{
    v.shrink_to_fit();
}

impl Buffer {
    /// The number of checkpoints at or before history index `start`.
    fn checkpoint_partition_point(&self, start: usize) -> (pp: usize)
        requires
            self.wf(),
        ensures
            pp <= self.checkpoints@.len(),
            forall|k: int| 0 <= k < pp ==> (#[trigger] self.checkpoints@[k]).idx <= start,
            pp < self.checkpoints@.len() ==> self.checkpoints@[pp as int].idx > start,
    {
        let mut pp: usize = 0;
        while pp < self.checkpoints.len() && self.checkpoints[pp].idx <= start
            invariant
                pp <= self.checkpoints@.len(),
                forall|k: int| 0 <= k < pp ==> (#[trigger] self.checkpoints@[k]).idx <= start,
            decreases self.checkpoints@.len() - pp,
        {
            pp += 1;
        }
        pp
    }

    /// The lane rows of history indices `start..end`, rebuilt by replaying the log from the
    /// nearest checkpoint. A window starting on a checkpoint index begins just after it (see
    /// `window_rows`).
    pub fn window(&self, start: usize, end: usize) -> (history: GraphHistory)
        requires
            self.wf(),
        ensures
            history@ == window_rows(self.deltas@, start as int, end as int),
    {
        let ghost log = self.deltas@;
        let n = self.deltas.len();
        let mut history = GraphHistory::new();
        let pp = self.checkpoint_partition_point(start);
        let cp = if pp > 0 { pp - 1 } else { 0 };
        let mut curr;
        let begin;
        if cp < self.checkpoints.len() {
            curr = self.checkpoints[cp].curr.clone();
            begin = self.checkpoints[cp].idx + 1;
            assert(self.checkpoints@[cp as int].idx == cp * CHECKPOINT_INTERVAL);
            proof {
                lemma_checkpoint_cover(n as nat);
            }
            assert(begin <= n);
        } else {
            curr = LaneSnapshot::new();
            begin = 0;
            assert(curr@ =~= replay(log, 0));
        }
        let end = if end < n { end } else { n };
        let mut iter = self.deltas.iter_range(begin, end);
        let ghost first = if begin > start { begin as int } else { start as int };
        assert(history@ =~= rows_between(log, first, begin as int));
        while iter.next < iter.end
            invariant
                self.wf(),
                log == self.deltas@,
                *iter.log == self.deltas,
                iter.end == end,
                end <= log.len(),
                begin <= iter.next,
                iter.next <= end || iter.next == begin,
                begin <= log.len(),
                first == (if begin > start { begin as int } else { start as int }),
                curr@ == replay(log, iter.next as nat),
                history@ == rows_between(log, first, iter.next as int),
            decreases iter.end - iter.next,
        {
            let r = iter.next();
            match r {
                Some((idx, delta)) => {
                    proof {
                        lemma_replay_valid_prefix(log, log.len(), (idx + 1) as nat);
                    }
                    apply_delta(&mut curr, &delta);
                    if idx >= start {
                        let row = curr.clone();
                        history.push(row);
                        proof {
                            lemma_rows_between_push(log, first, idx as int);
                        }
                    } else {
                        assert(rows_between(log, first, idx + 1) =~= rows_between(log, first, idx as int));
                    }
                },
                None => {},
            }
        }
        proof {
            let hi = end as int;
            let lo = window_lo(start as int);
            if iter.next > end {
                assert(rows_between(log, first, hi) =~= Seq::<Seq<Chunk>>::empty());
                assert(history@ =~= Seq::<Seq<Chunk>>::empty());
            }
            assert(history@ == rows_between(log, first, hi));
            if n > 0 {
                let count = checkpoint_count(n as nat);
                lemma_checkpoint_cover(n as nat);
                assert(pp >= 1) by {
                    assert(self.checkpoints@[0].idx == 0);
                }
                assert(cp * CHECKPOINT_INTERVAL <= start) by {
                    assert(self.checkpoints@[cp as int].idx <= start);
                }
                if pp < count {
                    assert(self.checkpoints@[pp as int].idx == pp * CHECKPOINT_INTERVAL);
                    lemma_window_start(start as int, cp as int);
                } else if start < pp * CHECKPOINT_INTERVAL {
                    lemma_window_start(start as int, cp as int);
                } else {
                    assert(rows_between(log, first, hi) =~= Seq::<Seq<Chunk>>::empty());
                    assert(rows_between(log, lo, hi) =~= Seq::<Seq<Chunk>>::empty());
                }
            } else {
                assert(rows_between(log, first, hi) =~= Seq::<Seq<Chunk>>::empty());
                assert(rows_between(log, lo, hi) =~= Seq::<Seq<Chunk>>::empty());
            }
        }
        history
    }

    /// Reserve room for the history of `commits` commits; the content is unchanged.
    pub fn reserve_history(&mut self, commits: usize)
        requires
            old(self).wf(),
        ensures
            final(self).wf(),
            final(self).curr@ == old(self).curr@,
            final(self).deltas@ == old(self).deltas@,
            final(self).delta.ops@ == old(self).delta.ops@,
            final(self).mergers@ == old(self).mergers@,
            final(self).transient_lanes@ == old(self).transient_lanes@,
            final(self).lane_limit == old(self).lane_limit,
    {
        self.deltas.reserve_entries(commits);
        let checkpoint_count = commits / CHECKPOINT_INTERVAL + if commits % CHECKPOINT_INTERVAL != 0 { 1 } else { 0 };
        let capacity = vec_capacity_checkpoints(&self.checkpoints);
        if checkpoint_count > capacity {
            self.checkpoints.reserve(checkpoint_count - capacity);
        }
    }

    /// Release spare capacity; the content is unchanged.
    pub fn shrink_to_fit(&mut self)
        requires
            old(self).wf(),
        ensures
            final(self).wf(),
            final(self).curr@ == old(self).curr@,
            final(self).deltas@ == old(self).deltas@,
            final(self).delta.ops@ == old(self).delta.ops@,
            final(self).mergers@ == old(self).mergers@,
            final(self).transient_lanes@ == old(self).transient_lanes@,
            final(self).lane_limit == old(self).lane_limit,
    {
        self.deltas.shrink_to_fit();
        self.delta.ops.shrink_to_fit();
        vec_shrink_u32(&mut self.mergers);
        vec_shrink_usize(&mut self.transient_lanes);
    }
}

/// Law: the row that `window` rebuilds for a history index is the lane state that was current
/// when that entry was logged. After a backup of pending ops `ops` on lanes `curr`, the window
/// of the new index yields exactly `curr`, unless the index falls on a checkpoint, where a
/// window starting there begins one row later.
pub proof fn law_window_gives_logged_lanes(log: Seq<Seq<DeltaOp>>, ops: Seq<DeltaOp>, curr: Seq<Chunk>)
    requires
        curr == apply_ops(replay(log, log.len()), ops),
    ensures
        (log.len() as int) % (CHECKPOINT_INTERVAL as int) != 0 ==> window_rows(log.push(ops), log.len() as int, log.len() + 1int) == seq![curr],
        (log.len() as int) % (CHECKPOINT_INTERVAL as int) == 0 ==> window_rows(log.push(ops), log.len() as int, log.len() + 1int) == Seq::<Seq<Chunk>>::empty(),
{
    let n = log.len();
    lemma_replay_push(log, ops, n);
    assert(log.push(ops)[n as int] == ops);
    assert(replay(log.push(ops), n + 1) == curr);
    if (n as int) % (CHECKPOINT_INTERVAL as int) != 0 {
        assert(window_rows(log.push(ops), n as int, n + 1int) =~= seq![curr]);
    } else {
        assert(window_rows(log.push(ops), n as int, n + 1int) =~= Seq::<Seq<Chunk>>::empty());
    }
}

/// Law: the lanes a window rebuilds from checkpoints are those of replaying the whole log from
/// empty lanes: for any window, each row is the replay of the log up to that index.
pub proof fn law_window_rows_are_replays(log: Seq<Seq<DeltaOp>>, start: int, end: int, k: int)
    requires
        0 <= k < window_rows(log, start, end).len(),
    ensures
        window_rows(log, start, end)[k] == replay(log, (window_lo(start) + k + 1) as nat),
{
}

} // verus!
