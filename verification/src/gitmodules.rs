use vstd::prelude::*;

verus! {

/// The path `.gitmodules`, as bytes.
pub open spec fn gitmodules_path() -> Seq<u8> {
    seq![46u8, 103, 105, 116, 109, 111, 100, 117, 108, 101, 115]
}

/// How many bytes of one chunk are kept to catch the path across a chunk boundary: one less
/// than the path's length.
pub const GITMODULES_OVERLAP: usize = 10;

/// Whether the path starts at index `i` of `s`.
pub open spec fn occurs_at(s: Seq<u8>, i: int) -> bool {
    0 <= i && i + 11 <= s.len() && s.subrange(i, i + 11) == gitmodules_path()
}

/// Whether `s` holds the path somewhere.
pub open spec fn holds_path(s: Seq<u8>) -> bool {
    exists|i: int| #[trigger] occurs_at(s, i)
}

/// The last bytes of a chunk kept for the next one: at most `GITMODULES_OVERLAP`.
pub open spec fn chunk_tail(chunk: Seq<u8>) -> Seq<u8> {
    if chunk.len() <= 10 {
        chunk
    } else {
        chunk.subrange(chunk.len() - 10, chunk.len() as int)
    }
}

/// The bytes checked across a boundary: the kept tail of the previous chunk, then the first
/// bytes of this one (at most `GITMODULES_OVERLAP`).
pub open spec fn boundary(overlap: Seq<u8>, chunk: Seq<u8>) -> Seq<u8> {
    overlap + chunk.subrange(0, if chunk.len() < 10 { chunk.len() as int } else { 10 })
}

/// Whether one scanning step finds the path: across the boundary with the kept tail, when there
/// is one, or inside the chunk.
pub open spec fn step_finds(overlap: Seq<u8>, chunk: Seq<u8>) -> bool {
    (overlap.len() > 0 && holds_path(boundary(overlap, chunk))) || holds_path(chunk)
}

/// What a scan keeps between chunks: the tail of the last chunk read.
pub struct GitmodulesScan {
    pub overlap: Vec<u8>,
}

/// Whether `s` holds the path, checked window by window.
fn holds_path_exec(s: &Vec<u8>) -> (b: bool)
    ensures
        b == holds_path(s@),
{
    if s.len() < 11 {
        proof {
            assert forall|i: int| !#[trigger] occurs_at(s@, i) by {}
        }
        return false;
    }
    let pattern: [u8; 11] = [46, 103, 105, 116, 109, 111, 100, 117, 108, 101, 115];
    assert(pattern@ =~= gitmodules_path());
    let n = s.len();
    let last = n - 11;
    let mut i: usize = 0;
    while i <= last
        invariant
            s@.len() >= 11,
            n == s@.len(),
            last == n - 11,
            i <= last + 1,
            pattern@ == gitmodules_path(),
            forall|j: int| 0 <= j < i ==> !#[trigger] occurs_at(s@, j),
        decreases s@.len() - i,
    {
        let mut k: usize = 0;
        while k < 11 && s[i + k] == pattern[k]
            invariant
                k <= 11,
                i <= last,
                n == s@.len(),
                last == n - 11,
                pattern@ == gitmodules_path(),
                forall|m: int| 0 <= m < k ==> s@[i + m] == pattern@[m],
            decreases 11 - k,
        {
            k += 1;
        }
        if k == 11 {
            assert(s@.subrange(i as int, i + 11) =~= gitmodules_path());
            assert(occurs_at(s@, i as int));
            return true;
        }
        proof {
            if occurs_at(s@, i as int) {
                assert(s@.subrange(i as int, i + 11)[k as int] == gitmodules_path()[k as int]);
            }
        }
        i += 1;
    }
    proof {
        assert forall|j: int| !#[trigger] occurs_at(s@, j) by {
            if j >= i {
                assert(!(j + 11 <= s@.len()));
            }
        }
    }
    false
}

impl GitmodulesScan {
    pub open spec fn wf(&self) -> bool {
        self.overlap@.len() <= 10
    }

    /// A scan that has read nothing yet.
    pub fn new() -> (s: GitmodulesScan)
        ensures
            s.wf(),
            s.overlap@.len() == 0,
    {
        GitmodulesScan { overlap: Vec::new() }
    }

    /// Scan the next chunk of the file; true when the path is found (see `step_finds`). The tail
    /// of the chunk is kept for the next one.
    pub fn scan_chunk(&mut self, chunk: &[u8]) -> (found: bool)
        requires
            old(self).wf(),
        ensures
            final(self).wf(),
            found == step_finds(old(self).overlap@, chunk@),
            final(self).overlap@ == chunk_tail(chunk@),
    {
        let prefix_len: usize = if chunk.len() < GITMODULES_OVERLAP { chunk.len() } else { GITMODULES_OVERLAP };
        let mut across = false;
        if self.overlap.len() > 0 {
            let mut joined: Vec<u8> = Vec::new();
            let mut i: usize = 0;
            while i < self.overlap.len()
                invariant
                    i <= self.overlap@.len(),
                    joined@ == self.overlap@.subrange(0, i as int),
                decreases self.overlap@.len() - i,
            {
                joined.push(self.overlap[i]);
                i += 1;
            }
            let mut k: usize = 0;
            while k < prefix_len
                invariant
                    k <= prefix_len,
                    prefix_len <= chunk@.len(),
                    joined@ == self.overlap@ + chunk@.subrange(0, k as int),
                decreases prefix_len - k,
            {
                joined.push(chunk[k]);
                k += 1;
            }
            assert(joined@ =~= boundary(self.overlap@, chunk@));
            across = holds_path_exec(&joined);
        }
        let mut whole: Vec<u8> = Vec::new();
        let mut j: usize = 0;
        while j < chunk.len()
            invariant
                j <= chunk@.len(),
                whole@ == chunk@.subrange(0, j as int),
            decreases chunk@.len() - j,
        {
            whole.push(chunk[j]);
            j += 1;
        }
        assert(whole@ =~= chunk@);
        let inside = holds_path_exec(&whole);
        let keep: usize = if chunk.len() < GITMODULES_OVERLAP { chunk.len() } else { GITMODULES_OVERLAP };
        let start = chunk.len() - keep;
        let mut tail: Vec<u8> = Vec::new();
        let mut t: usize = start;
        while t < chunk.len()
            invariant
                start <= t <= chunk@.len(),
                tail@ == chunk@.subrange(start as int, t as int),
            decreases chunk@.len() - t,
        {
            tail.push(chunk[t]);
            t += 1;
        }
        assert(tail@ =~= chunk_tail(chunk@));
        self.overlap = tail;
        across || inside
    }
}


/// The chunks `0..n` read one after another.
pub open spec fn joined(chunks: Seq<Seq<u8>>, n: int) -> Seq<u8>
    decreases n,
{
    if n <= 0 {
        Seq::empty()
    } else {
        joined(chunks, n - 1) + chunks[n - 1]
    }
}

/// What a scan keeps before reading chunk `j`: the tail of chunk `j - 1`, or nothing at first.
pub open spec fn kept_before(chunks: Seq<Seq<u8>>, j: int) -> Seq<u8> {
    if j <= 0 {
        Seq::empty()
    } else {
        chunk_tail(chunks[j - 1])
    }
}

/// Whether a scan that reads chunks `0..n` finds the path at one of its steps.
pub open spec fn scan_finds(chunks: Seq<Seq<u8>>, n: int) -> bool {
    exists|j: int| 0 <= j < n && #[trigger] step_finds(kept_before(chunks, j), chunks[j])
}

proof fn lemma_occurs_in_window(s: Seq<u8>, start: int, end: int, i: int)
    requires
        0 <= start <= end <= s.len(),
        0 <= i,
        start + i + 11 <= end,
    ensures
        occurs_at(s.subrange(start, end), i) <==> occurs_at(s, start + i),
{
    assert(s.subrange(start, end).subrange(i, i + 11) =~= s.subrange(start + i, start + i + 11));
}


/// Each step of a scan finds the path only where the bytes read so far hold it.
pub proof fn law_scan_finds_only_real_paths(chunks: Seq<Seq<u8>>, n: int)
    requires
        0 <= n <= chunks.len(),
        scan_finds(chunks, n),
    ensures
        holds_path(joined(chunks, n)),
    decreases n,
{
    let a = joined(chunks, n - 1);
    let c = chunks[n - 1];
    let whole = joined(chunks, n);
    assert(whole == a + c);
    if scan_finds(chunks, n - 1) {
        law_scan_finds_only_real_paths(chunks, n - 1);
        let i = choose|i: int| #[trigger] occurs_at(a, i);
        assert(a =~= whole.subrange(0, a.len() as int));
        lemma_occurs_in_window(whole, 0, a.len() as int, i);
        assert(occurs_at(whole, i));
    } else {
        let j = choose|j: int| 0 <= j < n && #[trigger] step_finds(kept_before(chunks, j), chunks[j]);
        assert(j == n - 1);
        let o = kept_before(chunks, n - 1);
        if holds_path(c) {
            let i = choose|i: int| #[trigger] occurs_at(c, i);
            assert(c =~= whole.subrange(a.len() as int, whole.len() as int));
            lemma_occurs_in_window(whole, a.len() as int, whole.len() as int, i);
            assert(occurs_at(whole, a.len() + i));
        } else {
            assert(o.len() > 0 && holds_path(boundary(o, c)));
            let prev = chunks[n - 2];
            let a0 = joined(chunks, n - 2);
            assert(a == a0 + prev);
            let m: int = if c.len() < 10 { c.len() as int } else { 10 };
            let start = a.len() - o.len();
            assert(o =~= a.subrange(start, a.len() as int));
            assert(boundary(o, c) =~= whole.subrange(start, a.len() + m));
            let i = choose|i: int| #[trigger] occurs_at(boundary(o, c), i);
            lemma_occurs_in_window(whole, start, a.len() + m, i);
            assert(occurs_at(whole, start + i));
        }
    }
}

/// When every chunk but the last has at least `GITMODULES_OVERLAP` bytes, a scan finds the path
/// exactly when the bytes read hold it.
pub proof fn law_scan_finds_every_path(chunks: Seq<Seq<u8>>, n: int)
    requires
        0 <= n <= chunks.len(),
        forall|j: int| 0 <= j < n - 1 ==> (#[trigger] chunks[j]).len() >= 10,
    ensures
        scan_finds(chunks, n) <==> holds_path(joined(chunks, n)),
    decreases n,
{
    if scan_finds(chunks, n) {
        law_scan_finds_only_real_paths(chunks, n);
    }
    if n > 0 && holds_path(joined(chunks, n)) {
        let a = joined(chunks, n - 1);
        let c = chunks[n - 1];
        let whole = joined(chunks, n);
        assert(whole == a + c);
        let i = choose|i: int| #[trigger] occurs_at(whole, i);
        if i + 11 <= a.len() {
            assert(a =~= whole.subrange(0, a.len() as int));
            lemma_occurs_in_window(whole, 0, a.len() as int, i);
            assert(occurs_at(a, i));
            law_scan_finds_every_path(chunks, n - 1);
            let j = choose|j: int| 0 <= j < n - 1 && #[trigger] step_finds(kept_before(chunks, j), chunks[j]);
            assert(step_finds(kept_before(chunks, j), chunks[j]));
        } else if i >= a.len() {
            assert(c =~= whole.subrange(a.len() as int, whole.len() as int));
            lemma_occurs_in_window(whole, a.len() as int, whole.len() as int, i - a.len());
            assert(occurs_at(c, i - a.len()));
            assert(step_finds(kept_before(chunks, n - 1), chunks[n - 1]));
        } else {
            assert(n >= 2) by {
                if n == 1 {
                    assert(a.len() == 0);
                }
            }
            let prev = chunks[n - 2];
            let a0 = joined(chunks, n - 2);
            assert(a == a0 + prev);
            assert(prev.len() >= 10);
            let o = kept_before(chunks, n - 1);
            assert(o.len() == 10);
            let m: int = if c.len() < 10 { c.len() as int } else { 10 };
            let start = a.len() - 10;
            assert(o =~= a.subrange(start, a.len() as int));
            assert(boundary(o, c) =~= whole.subrange(start, a.len() + m));
            lemma_occurs_in_window(whole, start, a.len() + m, i - start);
            assert(occurs_at(boundary(o, c), i - start));
            assert(step_finds(kept_before(chunks, n - 1), chunks[n - 1]));
        }
    }
}

} // verus!
