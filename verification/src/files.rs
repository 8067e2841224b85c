use vstd::prelude::*;
use crate::text::{
    chars_lt, lemma_seq_lt_asym, lemma_seq_lt_trans, lower_seq, lower_vec, normalize_path_chars,
    normalize_path_seq, seq_lt, split_whitespace_chars, split_ws, str_chars, string_from_chars,
};

verus! {

pub const SCORE_EXACT_PATH: i64 = 1_000_000i64;
pub const SCORE_EXACT_BASENAME: i64 = 900_000i64;
pub const SCORE_BASENAME_PREFIX: i64 = 800_000i64;
pub const SCORE_SEGMENT_PREFIX: i64 = 700_000i64;
pub const SCORE_SUBSTRING: i64 = 600_000i64;
pub const SCORE_FUZZY: i64 = 400_000i64;

/// The longest path or query, in characters, whose scores the ranking computes without
/// overflow. A path's score is an `i64` sum, over the query's terms, of per-term scores whose
/// magnitude grows with the path's length (up to `term_score_bound` below this limit); with both
/// lengths under 2^24 the sum stays below 2^59, while lengths near 2^27 could overflow it.
pub const MAX_SEARCH_CHARS: usize = 0x100_0000usize;

/// A path that matched a file search: its score and the character positions that matched.
#[derive(Debug, Clone, PartialEq, Eq)]
pub struct FileSearchResult {
    pub path: String,
    pub score: i64,
    pub matched_indices: Vec<usize>,
}

/// A scored match of one query term: the score and the matched character positions.
pub type TermScore = (int, Seq<usize>);

/// One search result as values: path, score, matched positions.
pub type RankedPath = (Seq<char>, int, Seq<usize>);

pub open spec fn result_view(r: FileSearchResult) -> RankedPath {
    (r.path@, r.score as int, r.matched_indices@)
}

struct TermMatch {
    score: i64,
    matched_indices: Vec<usize>,
}

spec fn term_view(m: TermMatch) -> TermScore {
    (m.score as int, m.matched_indices@)
}

// ----- positions within a (lowercased) path -----

pub open spec fn last_slash(s: Seq<char>, n: int) -> int
    decreases n,
{
    if n <= 0 {
        -1
    } else if s[n - 1] == '/' {
        n - 1
    } else {
        last_slash(s, n - 1)
    }
}

/// Where the last path segment (the file name) starts.
pub open spec fn basename_start(s: Seq<char>) -> int {
    last_slash(s, s.len() as int) + 1
}

pub open spec fn is_boundary_char(c: char) -> bool {
    c == '/' || c == '_' || c == '-' || c == '.' || c == ' '
}

/// Whether position `k` starts a path segment.
pub open spec fn segment_start_at(s: Seq<char>, k: int) -> bool {
    k == 0 || s[k - 1] == '/'
}

/// Whether position `k` follows a word boundary.
pub open spec fn boundary_at(s: Seq<char>, k: int) -> bool {
    k == 0 || is_boundary_char(s[k - 1])
}

/// Whether `t` occurs in `s` at position `k`.
pub open spec fn occurs_at(s: Seq<char>, t: Seq<char>, k: int) -> bool {
    0 <= k && k + t.len() <= s.len() && s.subrange(k, k + t.len()) == t
}

pub open spec fn has_prefix(s: Seq<char>, t: Seq<char>) -> bool {
    occurs_at(s, t, 0)
}

// ----- contiguous matches -----

pub open spec fn contiguous_score(s: Seq<char>, term_len: int, start: int, base: int) -> int {
    let bs = basename_start(s);
    base + term_len * 150 - s.len() * 2 - start * 25 + (if start == 0 { 6000int } else { 0int }) + (if segment_start_at(s, start) {
        3000int
    } else if boundary_at(s, start) {
        1500int
    } else {
        0int
    }) + (if start >= bs { 2500int } else { 0int }) + (if start == bs { 3000int } else { 0int })
}

/// A match of `term_len` characters starting at `start`, scored from `base`.
pub open spec fn contiguous(s: Seq<char>, term_len: int, start: int, base: int) -> TermScore {
    (contiguous_score(s, term_len, start, base), Seq::new(term_len as nat, |j: int| (start + j) as usize))
}

/// The whole path, the whole file name, or the file name's start equal to the term.
pub open spec fn fixed_candidates(s: Seq<char>, t: Seq<char>) -> Seq<TermScore> {
    let bs = basename_start(s);
    let name = s.skip(bs);
    (if s == t { seq![contiguous(s, t.len() as int, 0, SCORE_EXACT_PATH as int)] } else { seq![] })
        + (if name == t { seq![contiguous(s, t.len() as int, bs, SCORE_EXACT_BASENAME as int)] } else { seq![] })
        + (if has_prefix(name, t) { seq![contiguous(s, t.len() as int, bs, SCORE_BASENAME_PREFIX as int)] } else { seq![] })
}

/// Occurrences of the term at positions below `n`, in order: only at segment starts (scored
/// as segment prefixes) or anywhere (scored as substrings).
pub open spec fn scan_candidates(s: Seq<char>, t: Seq<char>, n: int, segments: bool) -> Seq<TermScore>
    decreases n,
{
    if n <= 0 {
        seq![]
    } else {
        let k = n - 1;
        scan_candidates(s, t, n - 1, segments) + (if (segments ==> segment_start_at(s, k)) && occurs_at(s, t, k) {
            seq![contiguous(s, t.len() as int, k, if segments { SCORE_SEGMENT_PREFIX as int } else { SCORE_SUBSTRING as int })]
        } else {
            seq![]
        })
    }
}

// ----- fuzzy matches -----

/// The first position at or after `from` holding `c`.
pub open spec fn first_index_from(s: Seq<char>, c: char, from: int) -> Option<int>
    decreases s.len() - from,
{
    if from < 0 || from >= s.len() {
        None
    } else if s[from] == c {
        Some(from)
    } else {
        first_index_from(s, c, from + 1)
    }
}

/// The greedy positions of `t[j..]` in `s`, each the first one after the previous.
pub open spec fn greedy_from(s: Seq<char>, t: Seq<char>, j: int, from: int) -> Option<Seq<usize>>
    decreases t.len() - j,
{
    if j >= t.len() {
        Some(seq![])
    } else {
        match first_index_from(s, t[j], from) {
            None => None,
            Some(k) => match greedy_from(s, t, j + 1, k + 1) {
                None => None,
                Some(rest) => Some(seq![k as usize] + rest),
            },
        }
    }
}

/// The fuzzy positions of `t` starting at `start`, which holds `t[0]`.
pub open spec fn fuzzy_positions(s: Seq<char>, t: Seq<char>, start: int) -> Option<Seq<usize>> {
    match greedy_from(s, t, 1, start + 1) {
        None => None,
        Some(rest) => Some(seq![start as usize] + rest),
    }
}

pub open spec fn gap(m: Seq<usize>, k: int) -> int {
    if m[k] >= m[k - 1] + 1 { m[k] - m[k - 1] - 1 } else { 0 }
}

/// The characters skipped between the first `n` matched positions.
pub open spec fn gaps_sum(m: Seq<usize>, n: int) -> int
    decreases n,
{
    if n <= 1 { 0 } else { gaps_sum(m, n - 1) + gap(m, n - 1) }
}

/// How many of the first `n` matched positions directly follow the previous one.
pub open spec fn consecutive_count(m: Seq<usize>, n: int) -> int
    decreases n,
{
    if n <= 1 { 0 } else { consecutive_count(m, n - 1) + (if gap(m, n - 1) == 0 { 1int } else { 0int }) }
}

pub open spec fn fuzzy_boundary_bonus(s: Seq<char>, first: int) -> int {
    if first == 0 || s[first - 1] == '/' {
        2000
    } else if s[first - 1] == '_' || s[first - 1] == '-' || s[first - 1] == '.' || s[first - 1] == ' ' {
        1000
    } else {
        0
    }
}

pub open spec fn fuzzy_score(s: Seq<char>, m: Seq<usize>, term_len: int) -> int {
    let bs = basename_start(s);
    let first = m[0] as int;
    let last = m.last() as int;
    SCORE_FUZZY as int + term_len * 120 + consecutive_count(m, m.len() as int) * 1000 - gaps_sum(m, m.len() as int) * 80
        - (last - first + 1) * 30 - first * 25 - s.len() * 2 + fuzzy_boundary_bonus(s, first)
        + (if first == 0 { 3000int } else { 0int }) + (if first >= bs { 1500int } else { 0int }) + (if first == bs { 1500int } else { 0int })
}

/// The best fuzzy match among starts below `n`; on equal scores the later start wins.
pub open spec fn fuzzy_best(s: Seq<char>, t: Seq<char>, n: int) -> Option<TermScore>
    decreases n,
{
    if n <= 0 {
        None
    } else {
        let k = n - 1;
        let prev = fuzzy_best(s, t, n - 1);
        if s[k] == t[0] && fuzzy_positions(s, t, k) is Some {
            let m = fuzzy_positions(s, t, k)->0;
            let score = fuzzy_score(s, m, t.len() as int);
            if prev is None || score >= (prev->0).0 {
                Some((score, m))
            } else {
                prev
            }
        } else {
            prev
        }
    }
}

// ----- choosing a term's match -----

/// Keep the first candidate with the highest score.
pub open spec fn best_of(cands: Seq<TermScore>) -> Option<TermScore>
    decreases cands.len(),
{
    if cands.len() == 0 {
        None
    } else {
        let prev = best_of(cands.drop_last());
        let c = cands.last();
        if prev is None || c.0 > (prev->0).0 {
            Some(c)
        } else {
            prev
        }
    }
}

/// Every way the term matches the path, in the order they are weighed.
pub open spec fn term_candidates(s: Seq<char>, t: Seq<char>) -> Seq<TermScore> {
    fixed_candidates(s, t) + scan_candidates(s, t, s.len() as int, true) + scan_candidates(s, t, s.len() as int, false) + match fuzzy_best(
        s,
        t,
        s.len() as int,
    ) {
        Some(f) => seq![f],
        None => seq![],
    }
}

/// How a (lowercased) path matches one (lowercased, non-empty) term, if it does.
pub open spec fn term_match(s: Seq<char>, t: Seq<char>) -> Option<TermScore> {
    best_of(term_candidates(s, t))
}

/// The summed score and the concatenated positions of the first `n` terms, if all match.
pub open spec fn terms_match(s: Seq<char>, terms: Seq<Seq<char>>, n: int) -> Option<TermScore>
    decreases n,
{
    if n <= 0 {
        Some((0, seq![]))
    } else {
        match terms_match(s, terms, n - 1) {
            None => None,
            Some(acc) => match term_match(s, terms[n - 1]) {
                None => None,
                Some(m) => Some((acc.0 + m.0, acc.1 + m.1)),
            },
        }
    }
}

/// Strictly increasing.
pub open spec fn increasing(v: Seq<usize>) -> bool {
    forall|i: int, j: int| 0 <= i < j < v.len() ==> v[i] < v[j]
}

/// The score of a path for all terms, with the matched positions sorted and each once.
pub open spec fn path_score(s: Seq<char>, terms: Seq<Seq<char>>, r: Option<TermScore>) -> bool {
    match terms_match(s, terms, terms.len() as int) {
        None => r is None,
        Some(m) => r matches Some(x) && x.0 == m.0 && increasing(x.1) && (forall|v: usize| x.1.contains(v) <==> m.1.contains(v)),
    }
}

// ----- query and candidates -----

/// The terms made from the first `n` pieces: each normalised, kept when non-empty, in ASCII
/// lowercase.
pub open spec fn terms_from(pieces: Seq<Seq<char>>, n: int) -> Seq<Seq<char>>
    decreases n,
{
    if n <= 0 {
        seq![]
    } else {
        let p = normalize_path_seq(pieces[n - 1]);
        terms_from(pieces, n - 1) + (if p.len() > 0 { seq![lower_seq(p)] } else { seq![] })
    }
}

/// The query's terms: the whitespace-separated pieces of the normalised query, each normalised,
/// non-empty and in ASCII lowercase.
pub open spec fn query_terms(q: Seq<char>) -> Seq<Seq<char>> {
    let pieces = split_ws(normalize_path_seq(q));
    terms_from(pieces, pieces.len() as int)
}

pub open spec fn dot_git() -> Seq<char> {
    seq!['.', 'g', 'i', 't']
}

pub open spec fn is_git_internal(p: Seq<char>) -> bool {
    p == dot_git() || has_prefix(p, dot_git().push('/'))
}

/// Whether the `i`-th path is the first whose normalised form is `p`.
pub open spec fn first_with(paths: Seq<Seq<char>>, i: int, p: Seq<char>) -> bool {
    forall|j: int| 0 <= j < i ==> normalize_path_seq(#[trigger] paths[j]) != p
}

/// Whether `r` is the result for the normalised path `p` and the query's terms.
pub open spec fn scored(p: Seq<char>, terms: Seq<Seq<char>>, r: RankedPath) -> bool {
    r.0 == p && path_score(lower_seq(p), terms, Some((r.1, r.2)))
}

/// Whether the `i`-th path, normalised, can be returned (non-empty, outside `.git`) and matches
/// every term.
pub open spec fn scorable(ps: Seq<Seq<char>>, terms: Seq<Seq<char>>, i: int) -> bool {
    let p = normalize_path_seq(ps[i]);
    p.len() > 0 && !is_git_internal(p) && terms_match(lower_seq(p), terms, terms.len() as int) is Some
}

/// Whether the `i`-th path takes part in the ranking: it can be returned, matches, and no
/// earlier path has the same normalised form.
pub open spec fn ranked_path(ps: Seq<Seq<char>>, terms: Seq<Seq<char>>, i: int) -> bool {
    scorable(ps, terms, i) && first_with(ps, i, normalize_path_seq(ps[i]))
}

/// Whether `a` ranks before `b`: higher score, then shorter path, then the path's text.
pub open spec fn ranks_before(a: RankedPath, b: RankedPath) -> bool {
    a.1 > b.1 || (a.1 == b.1 && (a.0.len() < b.0.len() || (a.0.len() == b.0.len() && seq_lt(a.0, b.0))))
}

proof fn lemma_ranks_before_order(a: RankedPath, b: RankedPath, c: RankedPath)
    ensures
        !(ranks_before(a, b) && ranks_before(b, a)),
        ranks_before(a, b) && ranks_before(b, c) ==> ranks_before(a, c),
        a.0 != b.0 ==> ranks_before(a, b) || ranks_before(b, a),
{
    lemma_seq_lt_asym(a.0, b.0);
    if ranks_before(a, b) && ranks_before(b, c) && a.1 == c.1 && a.0.len() == c.0.len() {
        lemma_seq_lt_trans(a.0, b.0, c.0);
    }
}


// ----- computing a term's match -----

spec fn opt_term_view(r: Option<TermMatch>) -> Option<TermScore> {
    match r {
        Some(m) => Some(term_view(m)),
        None => None,
    }
}

/// The largest score magnitude of one term's match, for paths within `MAX_SEARCH_CHARS`.
pub open spec fn term_score_bound() -> int {
    20_000_000_000
}

pub open spec fn term_score_in_bounds(r: Option<TermScore>) -> bool {
    r matches Some(m) ==> -term_score_bound() <= m.0 <= term_score_bound()
}

proof fn lemma_last_slash_bounds(s: Seq<char>, n: int)
    requires
        0 <= n <= s.len(),
    ensures
        -1 <= last_slash(s, n) < n,
        last_slash(s, n) >= 0 ==> s[last_slash(s, n)] == '/',
        forall|k: int| last_slash(s, n) < k < n ==> s[k] != '/',
    decreases n,
{
    if n > 0 {
        lemma_last_slash_bounds(s, n - 1);
    }
}

fn basename_start_exec(s: &Vec<char>) -> (bs: usize)
    ensures
        bs == basename_start(s@),
        bs <= s@.len(),
{
    let mut n: usize = s.len();
    while n > 0 && s[n - 1] != '/'
        invariant
            n <= s@.len(),
            last_slash(s@, s@.len() as int) == last_slash(s@, n as int),
        decreases n,
    {
        n -= 1;
    }
    proof {
        lemma_last_slash_bounds(s@, s@.len() as int);
    }
    n
}

fn occurs_at_exec(s: &Vec<char>, t: &Vec<char>, k: usize) -> (b: bool)
    ensures
        b == occurs_at(s@, t@, k as int),
{
    if k > s.len() || t.len() > s.len() - k {
        return false;
    }
    let mut i: usize = 0;
    let n = s.len();
    while i < t.len()
        invariant
            n == s@.len(),
            k + t@.len() <= s@.len(),
            i <= t@.len(),
            forall|j: int| 0 <= j < i ==> s@[k + j] == t@[j],
        decreases t@.len() - i,
    {
        assert(k + i < s@.len());
        if s[k + i] != t[i] {
            assert(s@.subrange(k as int, k + t@.len())[i as int] != t@[i as int]);
            return false;
        }
        i += 1;
    }
    assert(s@.subrange(k as int, k + t@.len()) =~= t@);
    true
}

fn contiguous_match(s: &Vec<char>, term_len: usize, start: usize, bs: usize, base: i64) -> (m: TermMatch)
    requires
        s@.len() < MAX_SEARCH_CHARS,
        start + term_len <= s@.len(),
        bs == basename_start(s@),
        0 <= base <= SCORE_EXACT_PATH,
    ensures
        term_view(m) == contiguous(s@, term_len as int, start as int, base as int),
        -term_score_bound() <= m.score <= term_score_bound(),
{
    let n = s.len() as i64;
    let mut score: i64 = base + term_len as i64 * 150 - n * 2 - start as i64 * 25;
    if start == 0 {
        score += 6000;
    }
    if start == 0 || s[start - 1] == '/' {
        score += 3000;
    } else if {
        let c = s[start - 1];
        c == '/' || c == '_' || c == '-' || c == '.' || c == ' '
    } {
        score += 1500;
    }
    if start >= bs {
        score += 2500;
    }
    if start == bs {
        score += 3000;
    }
    let mut indices: Vec<usize> = Vec::with_capacity(term_len);
    let mut j: usize = 0;
    let len = s.len();
    while j < term_len
        invariant
            j <= term_len,
            len == s@.len(),
            start + term_len <= s@.len(),
            indices@ == Seq::new(j as nat, |x: int| (start + x) as usize),
        decreases term_len - j,
    {
        indices.push(start + j);
        j += 1;
        assert(indices@ =~= Seq::new(j as nat, |x: int| (start + x) as usize));
    }
    TermMatch { score, matched_indices: indices }
}

proof fn lemma_best_push(seen: Seq<TermScore>, x: TermScore)
    ensures
        best_of(seen.push(x)) == (if best_of(seen) is None || x.0 > (best_of(seen)->0).0 { Some(x) } else { best_of(seen) }),
{
    assert(seen.push(x).drop_last() =~= seen);
}

fn consider(best: &mut Option<TermMatch>, candidate: TermMatch, Ghost(seen): Ghost<Seq<TermScore>>)
    requires
        opt_term_view(*old(best)) == best_of(seen),
        term_score_in_bounds(opt_term_view(*old(best))),
        -term_score_bound() <= candidate.score <= term_score_bound(),
    ensures
        opt_term_view(*final(best)) == best_of(seen.push(term_view(candidate))),
        term_score_in_bounds(opt_term_view(*final(best))),
{
    proof {
        lemma_best_push(seen, term_view(candidate));
    }
    let replace = match best {
        None => true,
        Some(current) => candidate.score > current.score,
    };
    if replace {
        *best = Some(candidate);
    }
}


fn first_index_from_exec(s: &Vec<char>, c: char, from: usize) -> (r: Option<usize>)
    ensures
        match r {
            Some(k) => first_index_from(s@, c, from as int) == Some(k as int) && from <= k < s@.len(),
            None => first_index_from(s@, c, from as int) is None,
        },
{
    let mut i: usize = from;
    while i < s.len()
        invariant
            from <= i,
            first_index_from(s@, c, from as int) == first_index_from(s@, c, i as int),
        decreases s@.len() - i,
    {
        if s[i] == c {
            return Some(i);
        }
        i += 1;
    }
    None
}

/// The greedy positions of the whole term, starting at `start`.
fn fuzzy_positions_exec(s: &Vec<char>, t: &Vec<char>, start: usize) -> (r: Option<Vec<usize>>)
    requires
        start < s@.len(),
        t@.len() >= 1,
    ensures
        match r {
            Some(m) => fuzzy_positions(s@, t@, start as int) == Some(m@) && m@.len() == t@.len() && increasing(m@)
                && (forall|i: int| 0 <= i < m@.len() ==> #[trigger] m@[i] < s@.len()) && m@[0] == start,
            None => fuzzy_positions(s@, t@, start as int) is None,
        },
{
    let len = s.len();
    let mut matched: Vec<usize> = Vec::with_capacity(t.len());
    matched.push(start);
    let mut j: usize = 1;
    let mut from: usize = start + 1;
    while j < t.len()
        invariant
            1 <= j <= t@.len(),
            len == s@.len(),
            matched@.len() == j,
            matched@[0] == start,
            from == matched@.last() + 1,
            increasing(matched@),
            forall|i: int| 0 <= i < matched@.len() ==> #[trigger] matched@[i] < s@.len(),
            fuzzy_positions(s@, t@, start as int) == match greedy_from(s@, t@, j as int, from as int) {
                None => None,
                Some(rest) => Some(matched@ + rest),
            },
        decreases t@.len() - j,
    {
        match first_index_from_exec(s, t[j], from) {
            None => {
                return None;
            },
            Some(k) => {
                let ghost before = matched@;
                matched.push(k);
                proof {
                    match greedy_from(s@, t@, j + 1, k + 1) {
                        None => {},
                        Some(rest) => {
                            assert(before + (seq![k] + rest) =~= matched@ + rest);
                        },
                    }
                }
                from = k + 1;
                j += 1;
            },
        }
    }
    assert(matched@ + seq![] =~= matched@);
    Some(matched)
}

proof fn lemma_increasing_len(m: Seq<usize>, bound: int)
    requires
        increasing(m),
        0 <= bound,
        forall|i: int| 0 <= i < m.len() ==> #[trigger] m[i] < bound,
    ensures
        m.len() <= bound,
        forall|i: int| 0 <= i < m.len() ==> #[trigger] m[i] >= m[0] + i,
{
    assert forall|i: int| 0 <= i < m.len() implies #[trigger] m[i] >= m[0] + i by {
        lemma_increasing_step(m, i);
    }
    if m.len() > 0 {
        lemma_increasing_step(m, m.len() - 1);
        assert(m[m.len() - 1] < bound);
    }
}

proof fn lemma_increasing_step(m: Seq<usize>, i: int)
    requires
        increasing(m),
        0 <= i < m.len(),
    ensures
        m[i] >= m[0] + i,
    decreases i,
{
    if i > 0 {
        lemma_increasing_step(m, i - 1);
    }
}

proof fn lemma_gaps_increasing(m: Seq<usize>, n: int)
    requires
        increasing(m),
        1 <= n <= m.len(),
    ensures
        0 <= gaps_sum(m, n) <= m[n - 1] - m[0],
        0 <= consecutive_count(m, n) < n,
    decreases n,
{
    if n > 1 {
        lemma_gaps_increasing(m, n - 1);
    }
}

#[verifier::rlimit(40)]
fn fuzzy_score_exec(s: &Vec<char>, m: &Vec<usize>, term_len: usize, bs: usize) -> (score: i64)
    requires
        s@.len() < MAX_SEARCH_CHARS,
        m@.len() == term_len,
        term_len >= 1,
        increasing(m@),
        forall|i: int| 0 <= i < m@.len() ==> #[trigger] m@[i] < s@.len(),
        bs == basename_start(s@),
    ensures
        score == fuzzy_score(s@, m@, term_len as int),
        -term_score_bound() <= score <= term_score_bound(),
{
    let mut gaps: usize = 0;
    let mut consecutive: usize = 0;
    let mut i: usize = 1;
    while i < m.len()
        invariant
            1 <= i <= m@.len(),
            increasing(m@),
            forall|k: int| 0 <= k < m@.len() ==> #[trigger] m@[k] < s@.len(),
            gaps == gaps_sum(m@, i as int),
            consecutive == consecutive_count(m@, i as int),
            gaps <= m@[i - 1] - m@[0],
            consecutive < i,
        decreases m@.len() - i,
    {
        let g = m[i] - (m[i - 1] + 1);
        gaps += g;
        if g == 0 {
            consecutive += 1;
        }
        i += 1;
    }
    proof {
        lemma_gaps_increasing(m@, m@.len() as int);
        lemma_increasing_len(m@, s@.len() as int);
    }
    let first = m[0];
    let last = m[m.len() - 1];
    let n = s.len() as i64;
    let boundary: i64 = if first == 0 || s[first - 1] == '/' {
        2000
    } else if s[first - 1] == '_' || s[first - 1] == '-' || s[first - 1] == '.' || s[first - 1] == ' ' {
        1000
    } else {
        0
    };
    let mut position: i64 = 0;
    if first == 0 {
        position += 3000;
    }
    if first >= bs {
        position += 1500;
    }
    if first == bs {
        position += 1500;
    }
    SCORE_FUZZY + term_len as i64 * 120 + consecutive as i64 * 1000 - gaps as i64 * 80 - (last - first + 1) as i64 * 30 - first as i64 * 25 - n * 2
        + boundary + position
}

/// The best fuzzy match of the term in the path; on equal scores the later start wins.
fn fuzzy_match(s: &Vec<char>, t: &Vec<char>, bs: usize) -> (r: Option<TermMatch>)
    requires
        s@.len() < MAX_SEARCH_CHARS,
        t@.len() >= 1,
        bs == basename_start(s@),
    ensures
        opt_term_view(r) == fuzzy_best(s@, t@, s@.len() as int),
        term_score_in_bounds(opt_term_view(r)),
{
    let mut best: Option<TermMatch> = None;
    let first_char = t[0];
    let mut k: usize = 0;
    while k < s.len()
        invariant
            k <= s@.len(),
            s@.len() < MAX_SEARCH_CHARS,
            t@.len() >= 1,
            first_char == t@[0],
            bs == basename_start(s@),
            opt_term_view(best) == fuzzy_best(s@, t@, k as int),
            term_score_in_bounds(opt_term_view(best)),
        decreases s@.len() - k,
    {
        if s[k] == first_char {
            match fuzzy_positions_exec(s, t, k) {
                Some(m) => {
                    let score = fuzzy_score_exec(s, &m, t.len(), bs);
                    let replace = match &best {
                        None => true,
                        Some(current) => score >= current.score,
                    };
                    if replace {
                        best = Some(TermMatch { score, matched_indices: m });
                    }
                },
                None => {},
            }
        }
        k += 1;
    }
    best
}


proof fn lemma_name_matches(s: Seq<char>, t: Seq<char>, bs: int)
    requires
        0 <= bs <= s.len(),
    ensures
        (s == t) <==> (s.len() == t.len() && occurs_at(s, t, 0)),
        (s.skip(bs) == t) <==> (s.len() - bs == t.len() && occurs_at(s, t, bs)),
        has_prefix(s.skip(bs), t) <==> occurs_at(s, t, bs),
{
    if s.len() == t.len() && occurs_at(s, t, 0) {
        assert(s =~= s.subrange(0, t.len() as int));
    }
    if s == t {
        assert(s.subrange(0, t.len() as int) =~= t);
    }
    if s.len() - bs == t.len() && occurs_at(s, t, bs) {
        assert(s.skip(bs) =~= s.subrange(bs, bs + t.len()));
    }
    if s.skip(bs) == t {
        assert(s.subrange(bs, bs + t.len()) =~= t);
    }
    if occurs_at(s, t, bs) {
        assert(s.skip(bs).subrange(0, t.len() as int) =~= s.subrange(bs, bs + t.len()));
    }
    if has_prefix(s.skip(bs), t) {
        assert(s.skip(bs).subrange(0, t.len() as int) =~= s.subrange(bs, bs + t.len()));
    }
}

/// How the (lowercased) path `s` matches the non-empty term `t`: the first best-scoring of its
/// exact, file-name, segment-prefix, substring and fuzzy matches.
fn match_term(s: &Vec<char>, t: &Vec<char>, bs: usize) -> (r: Option<TermMatch>)
    requires
        s@.len() < MAX_SEARCH_CHARS,
        t@.len() >= 1,
        bs == basename_start(s@),
    ensures
        opt_term_view(r) == term_match(s@, t@),
        term_score_in_bounds(opt_term_view(r)),
{
    let n = s.len();
    let tl = t.len();
    proof {
        lemma_last_slash_bounds(s@, s@.len() as int);
        lemma_name_matches(s@, t@, bs as int);
    }
    let mut best: Option<TermMatch> = None;
    let ghost mut seen: Seq<TermScore> = seq![];
    if n == tl && occurs_at_exec(s, t, 0) {
        let c = contiguous_match(s, tl, 0, bs, SCORE_EXACT_PATH);
        let ghost cv = term_view(c);
        consider(&mut best, c, Ghost(seen));
        proof {
            seen = seen.push(cv);
        }
    }
    let ghost part1 = seen;
    if n - bs == tl && occurs_at_exec(s, t, bs) {
        let c = contiguous_match(s, tl, bs, bs, SCORE_EXACT_BASENAME);
        let ghost cv = term_view(c);
        consider(&mut best, c, Ghost(seen));
        proof {
            seen = seen.push(cv);
        }
    }
    let ghost part2 = seen;
    if occurs_at_exec(s, t, bs) {
        let c = contiguous_match(s, tl, bs, bs, SCORE_BASENAME_PREFIX);
        let ghost cv = term_view(c);
        consider(&mut best, c, Ghost(seen));
        proof {
            seen = seen.push(cv);
        }
    }
    assert(seen =~= fixed_candidates(s@, t@));
    let ghost fixed = seen;
    let mut k: usize = 0;
    while k < n
        invariant
            k <= n,
            n == s@.len(),
            tl == t@.len(),
            s@.len() < MAX_SEARCH_CHARS,
            t@.len() >= 1,
            bs == basename_start(s@),
            seen == fixed + scan_candidates(s@, t@, k as int, true),
            opt_term_view(best) == best_of(seen),
            term_score_in_bounds(opt_term_view(best)),
        decreases n - k,
    {
        let ghost before = seen;
        if (k == 0 || s[k - 1] == '/') && occurs_at_exec(s, t, k) {
            let c = contiguous_match(s, tl, k, bs, SCORE_SEGMENT_PREFIX);
            let ghost cv = term_view(c);
            consider(&mut best, c, Ghost(seen));
            proof {
                seen = seen.push(cv);
            }
        }
        assert(seen =~= fixed + scan_candidates(s@, t@, k + 1, true));
        k += 1;
    }
    let ghost segs = seen;
    let mut k: usize = 0;
    while k < n
        invariant
            k <= n,
            n == s@.len(),
            tl == t@.len(),
            s@.len() < MAX_SEARCH_CHARS,
            t@.len() >= 1,
            bs == basename_start(s@),
            seen == segs + scan_candidates(s@, t@, k as int, false),
            opt_term_view(best) == best_of(seen),
            term_score_in_bounds(opt_term_view(best)),
        decreases n - k,
    {
        if occurs_at_exec(s, t, k) {
            let c = contiguous_match(s, tl, k, bs, SCORE_SUBSTRING);
            let ghost cv = term_view(c);
            consider(&mut best, c, Ghost(seen));
            proof {
                seen = seen.push(cv);
            }
        }
        assert(seen =~= segs + scan_candidates(s@, t@, k + 1, false));
        k += 1;
    }
    match fuzzy_match(s, t, bs) {
        Some(m) => {
            let ghost cv = term_view(m);
            consider(&mut best, m, Ghost(seen));
            proof {
                seen = seen.push(cv);
            }
        },
        None => {},
    }
    assert(seen =~= term_candidates(s@, t@));
    best
}


pub open spec fn seqs_view(v: Seq<Vec<char>>) -> Seq<Seq<char>> {
    v.map_values(|x: Vec<char>| x@)
}

/// The search terms of a query (see `query_terms`).
fn normalize_query(query: &str) -> (terms: Vec<Vec<char>>)
    ensures
        seqs_view(terms@) == query_terms(query@),
        terms@.len() <= query@.len(),
        forall|k: int| 0 <= k < terms@.len() ==> (#[trigger] terms@[k])@.len() >= 1,
{
    let q = str_chars(query);
    let normalized = normalize_path_chars(&q);
    let pieces = split_whitespace_chars(&normalized);
    let ghost ps = split_ws(normalize_path_seq(query@));
    let mut terms: Vec<Vec<char>> = Vec::new();
    let mut i: usize = 0;
    while i < pieces.len()
        invariant
            i <= pieces@.len(),
            pieces@.len() == ps.len(),
            pieces@.len() <= query@.len(),
            forall|k: int| 0 <= k < pieces@.len() ==> (#[trigger] pieces@[k])@ == ps[k],
            seqs_view(terms@) == terms_from(ps, i as int),
            terms@.len() <= i,
            forall|k: int| 0 <= k < terms@.len() ==> (#[trigger] terms@[k])@.len() >= 1,
        decreases pieces@.len() - i,
    {
        let piece = normalize_path_chars(&pieces[i]);
        if piece.len() > 0 {
            let term = lower_vec(&piece);
            terms.push(term);
        }
        i += 1;
        assert(seqs_view(terms@) =~= terms_from(ps, i as int));
    }
    terms
}

fn is_git_internal_exec(p: &Vec<char>) -> (b: bool)
    ensures
        b == is_git_internal(p@),
{
    let long_enough = p.len() >= 4;
    if !long_enough {
        return false;
    }
    let dot_git_start = p[0] == '.' && p[1] == 'g' && p[2] == 'i' && p[3] == 't';
    proof {
        if p@ == dot_git() {
            assert(p@[0] == '.' && p@[1] == 'g' && p@[2] == 'i' && p@[3] == 't');
        }
        if has_prefix(p@, dot_git().push('/')) {
            let d = dot_git().push('/');
            assert(p@.subrange(0, 5) == d);
            assert(p@[0] == p@.subrange(0, 5)[0]);
            assert(p@[1] == p@.subrange(0, 5)[1]);
            assert(p@[2] == p@.subrange(0, 5)[2]);
            assert(p@[3] == p@.subrange(0, 5)[3]);
            assert(p@[4] == p@.subrange(0, 5)[4]);
        }
    }
    if !dot_git_start {
        return false;
    }
    if p.len() == 4 {
        assert(p@ =~= dot_git());
        return true;
    }
    if p[4] == '/' {
        assert(p@.subrange(0, 5) =~= dot_git().push('/'));
        return true;
    }
    false
}

/// Add `x` to the increasing vector `v` unless it holds it already.
fn insert_sorted_unique(v: &mut Vec<usize>, x: usize)
    requires
        increasing(old(v)@),
    ensures
        increasing(final(v)@),
        forall|y: usize| #[trigger] final(v)@.contains(y) <==> (old(v)@.contains(y) || y == x),
{
    let mut p: usize = 0;
    while p < v.len() && v[p] < x
        invariant
            p <= v@.len(),
            v@ == old(v)@,
            forall|k: int| 0 <= k < p ==> v@[k] < x,
        decreases v@.len() - p,
    {
        p += 1;
    }
    if p < v.len() && v[p] == x {
        assert(v@[p as int] == x);
        assert(v@.contains(x));
        return;
    }
    let ghost before = v@;
    assert(before == old(v)@);
    v.insert(p, x);
    proof {
        assert(v@ == before.insert(p as int, x));
        assert forall|i: int, j: int| 0 <= i < j < v@.len() implies v@[i] < v@[j] by {
            if j < p {
                assert(v@[i] == before[i] && v@[j] == before[j]);
            } else if j == p {
                assert(v@[i] == before[i]);
            } else if i < p {
                assert(v@[i] == before[i] && v@[j] == before[j - 1]);
                assert(before[p as int] > x);
                if j - 1 > p {
                    assert(before[p as int] < before[j - 1]);
                }
            } else if i == p {
                assert(v@[j] == before[j - 1]);
                assert(before[p as int] > x);
                if j - 1 > p {
                    assert(before[p as int] < before[j - 1]);
                }
            } else {
                assert(v@[i] == before[i - 1] && v@[j] == before[j - 1]);
            }
        }
        assert forall|y: usize| #[trigger] v@.contains(y) <==> (before.contains(y) || y == x) by {
            if v@.contains(y) {
                let k = choose|k: int| 0 <= k < v@.len() && v@[k] == y;
                if k < p {
                    assert(before[k] == y);
                } else if k > p {
                    assert(before[k - 1] == y);
                }
            }
            if before.contains(y) {
                let k = choose|k: int| 0 <= k < before.len() && before[k] == y;
                if k < p {
                    assert(v@[k] == y);
                } else {
                    assert(v@[k + 1] == y);
                }
            }
            if y == x {
                assert(v@[p as int] == x);
            }
        }
    }
}

proof fn lemma_concat_contains(a: Seq<usize>, b: Seq<usize>)
    ensures
        forall|y: usize| #[trigger] (a + b).contains(y) <==> (a.contains(y) || b.contains(y)),
{
    assert forall|y: usize| (a + b).contains(y) <==> (a.contains(y) || b.contains(y)) by {
        if (a + b).contains(y) {
            let k = choose|k: int| 0 <= k < (a + b).len() && (a + b)[k] == y;
            if k < a.len() {
                assert(a[k] == y);
            } else {
                assert(b[k - a.len()] == y);
            }
        }
        if a.contains(y) {
            let k = choose|k: int| 0 <= k < a.len() && a[k] == y;
            assert((a + b)[k] == y);
        }
        if b.contains(y) {
            let k = choose|k: int| 0 <= k < b.len() && b[k] == y;
            assert((a + b)[a.len() + k] == y);
        }
    }
}

/// Add each of `more` to the increasing vector `v`, keeping it increasing and without repeats.
fn merge_indices(v: &mut Vec<usize>, more: &Vec<usize>)
    requires
        increasing(old(v)@),
    ensures
        increasing(final(v)@),
        forall|y: usize| #[trigger] final(v)@.contains(y) <==> (old(v)@.contains(y) || more@.contains(y)),
{
    let mut j: usize = 0;
    while j < more.len()
        invariant
            j <= more@.len(),
            increasing(v@),
            forall|y: usize| #[trigger] v@.contains(y) <==> (old(v)@.contains(y) || more@.take(j as int).contains(y)),
        decreases more@.len() - j,
    {
        let ghost prev = more@.take(j as int);
        insert_sorted_unique(v, more[j]);
        proof {
            let next = more@.take(j + 1);
            assert(next =~= prev + seq![more@[j as int]]);
            lemma_concat_contains(prev, seq![more@[j as int]]);
            assert(seq![more@[j as int]][0] == more@[j as int]);
            assert(forall|y: usize| seq![more@[j as int]].contains(y) <==> y == more@[j as int]);
        }
        j += 1;
    }
    assert(more@.take(more@.len() as int) =~= more@);
}

/// Merge a term's positions into the sorted positions of the terms before it.
fn merge_term(indices: &mut Vec<usize>, more: &Vec<usize>, Ghost(acc): Ghost<Seq<usize>>)
    requires
        increasing(old(indices)@),
        forall|y: usize| #[trigger] old(indices)@.contains(y) <==> acc.contains(y),
    ensures
        increasing(final(indices)@),
        forall|y: usize| #[trigger] final(indices)@.contains(y) <==> (acc + more@).contains(y),
{
    let ghost before = indices@;
    merge_indices(&mut *indices, more);
    proof {
        lemma_concat_contains(acc, more@);
        assert forall|y: usize| indices@.contains(y) <==> (acc + more@).contains(y) by {
            assert(indices@.contains(y) <==> (before.contains(y) || more@.contains(y)));
            assert(before.contains(y) <==> acc.contains(y));
            assert((acc + more@).contains(y) <==> (acc.contains(y) || more@.contains(y)));
        }
    }
}

proof fn lemma_terms_match_none(s: Seq<char>, terms: Seq<Seq<char>>, i: int, n: int)
    requires
        0 <= i <= n,
        terms_match(s, terms, i) is None,
    ensures
        terms_match(s, terms, n) is None,
    decreases n - i,
{
    if i < n {
        lemma_terms_match_none(s, terms, i, n - 1);
    }
}

/// The summed score of all terms and the sorted matched positions, or `None` when a term does
/// not match.
#[verifier::rlimit(50)]
#[verifier::spinoff_prover]
fn score_path(s: &Vec<char>, terms: &Vec<Vec<char>>) -> (r: Option<(i64, Vec<usize>)>)
    requires
        s@.len() < MAX_SEARCH_CHARS,
        terms@.len() < MAX_SEARCH_CHARS,
        forall|k: int| 0 <= k < terms@.len() ==> (#[trigger] terms@[k])@.len() >= 1,
    ensures
        path_score(s@, seqs_view(terms@), match r {
            Some(x) => Some((x.0 as int, x.1@)),
            None => None,
        }),
{
    let ghost tv = seqs_view(terms@);
    let bs = basename_start_exec(s);
    let mut score: i64 = 0;
    let mut indices: Vec<usize> = Vec::new();
    let ghost mut acc: Seq<usize> = seq![];
    let mut i: usize = 0;
    while i < terms.len()
        invariant
            i <= terms@.len(),
            tv == seqs_view(terms@),
            s@.len() < MAX_SEARCH_CHARS,
            terms@.len() < MAX_SEARCH_CHARS,
            bs == basename_start(s@),
            forall|k: int| 0 <= k < terms@.len() ==> (#[trigger] terms@[k])@.len() >= 1,
            terms_match(s@, tv, i as int) == Some((score as int, acc)),
            -(i as int) * 20_000_000_000 <= score <= (i as int) * 20_000_000_000,
            increasing(indices@),
            forall|y: usize| #[trigger] indices@.contains(y) <==> acc.contains(y),
        decreases terms@.len() - i,
    {
        assert(terms@[i as int]@ == tv[i as int]);
        let m = match match_term(s, &terms[i], bs) {
            None => {
                proof {
                    lemma_terms_match_none(s@, tv, i + 1, tv.len() as int);
                }
                return None;
            },
            Some(m) => m,
        };
        assert(-20_000_000_000 <= m.score <= 20_000_000_000);
        score = score + m.score;
        let ghost old_acc = acc;
        merge_term(&mut indices, &m.matched_indices, Ghost(old_acc));
        proof {
            acc = old_acc + m.matched_indices@;
            assert(terms_match(s@, tv, i + 1) == Some((score as int, acc)));
        }
        i += 1;
    }
    Some((score, indices))
}


pub open spec fn result_views(r: Seq<FileSearchResult>) -> Seq<RankedPath> {
    r.map_values(|x: FileSearchResult| result_view(x))
}

pub open spec fn paths_view(paths: Seq<String>) -> Seq<Seq<char>> {
    paths.map_values(|p: String| p@)
}

pub open spec fn sorted_by_rank(v: Seq<RankedPath>) -> bool {
    forall|k: int, l: int| 0 <= k < l < v.len() ==> ranks_before(#[trigger] v[k], #[trigger] v[l])
}

/// Whether `a` ranks before `b` depends only on their paths and scores.
proof fn lemma_ranks_same_key(x: RankedPath, a: RankedPath, b: RankedPath)
    requires
        a.0 == b.0,
        a.1 == b.1,
    ensures
        ranks_before(x, a) == ranks_before(x, b),
        ranks_before(a, x) == ranks_before(b, x),
        !ranks_before(a, b),
{
    lemma_seq_lt_asym(a.0, b.0);
}

fn ranks_before_exec(score: i64, path: &Vec<char>, other_score: i64, other_path: &Vec<char>) -> (b: bool)
    ensures
        b == ranks_before((path@, score as int, seq![]), (other_path@, other_score as int, seq![])),
{
    if score != other_score {
        score > other_score
    } else if path.len() != other_path.len() {
        path.len() < other_path.len()
    } else {
        chars_lt(path, other_path)
    }
}

/// Add `item` to the ranked results, keeping at most `limit` of them: skipped when a result
/// with its path is there already, or when the results are full and all rank before it.
fn insert_ranked(
    results: &mut Vec<FileSearchResult>,
    paths: &mut Vec<Vec<char>>,
    item: FileSearchResult,
    item_path: Vec<char>,
    limit: usize,
)
    requires
        0 < limit,
        old(results)@.len() <= limit,
        old(paths)@.len() == old(results)@.len(),
        forall|k: int| 0 <= k < old(paths)@.len() ==> (#[trigger] old(paths)@[k])@ == old(results)@[k].path@,
        item_path@ == item.path@,
        sorted_by_rank(result_views(old(results)@)),
        forall|k: int| 0 <= k < old(results)@.len() && (#[trigger] old(results)@[k]).path@ == item.path@ ==> old(results)@[k].score == item.score,
    ensures
        final(results)@.len() <= limit,
        final(paths)@.len() == final(results)@.len(),
        forall|k: int| 0 <= k < final(paths)@.len() ==> (#[trigger] final(paths)@[k])@ == final(results)@[k].path@,
        sorted_by_rank(result_views(final(results)@)),
        insert_outcome(result_views(old(results)@), result_views(final(results)@), result_view(item), limit as int),
{
    let ghost old_v = result_views(results@);
    let ghost it = result_view(item);
    let mut pos: usize = 0;
    while pos < results.len() && !ranks_before_exec(item.score, &item_path, results[pos].score, &paths[pos])
        invariant
            pos <= results@.len(),
            results@ == old(results)@,
            paths@ == old(paths)@,
            old_v == result_views(results@),
            it == result_view(item),
            item_path@ == item.path@,
            paths@.len() == results@.len(),
            forall|k: int| 0 <= k < paths@.len() ==> (#[trigger] paths@[k])@ == results@[k].path@,
            forall|k: int| 0 <= k < pos ==> !ranks_before(it, #[trigger] old_v[k]),
        decreases results@.len() - pos,
    {
        assert(old_v[pos as int] == result_view(results@[pos as int]));
        pos += 1;
    }
    proof {
        if pos < old_v.len() {
            assert(old_v[pos as int] == result_view(results@[pos as int]));
            assert(ranks_before(it, old_v[pos as int]));
            assert forall|k: int| pos <= k < old_v.len() implies ranks_before(it, #[trigger] old_v[k]) by {
                if k > pos {
                    lemma_ranks_before_order(it, old_v[pos as int], old_v[k]);
                }
            }
        }
    }
    if pos > 0 && paths[pos - 1].len() == item_path.len() && chars_eq(&paths[pos - 1], &item_path) {
        assert(old_v[pos - 1].0 == it.0);
        return;
    }
    if pos >= limit {
        proof {
            assert forall|k: int| 0 <= k < old_v.len() implies ranks_before(#[trigger] old_v[k], it) by {
                if old_v[k].0 == it.0 {
                    assert(old_v[k].1 == it.1);
                    lemma_ranks_same_key(old_v[pos - 1], old_v[k], it);
                    if k < pos - 1 {
                        assert(ranks_before(old_v[k], old_v[pos - 1]));
                    }
                    lemma_ranks_before_order(old_v[k], it, old_v[k]);
                    assert(false);
                }
                lemma_ranks_before_order(old_v[k], it, it);
            }
        }
        return;
    }
    proof {
        assert forall|k: int| 0 <= k < old_v.len() implies (#[trigger] old_v[k]).0 != it.0 by {
            if old_v[k].0 == it.0 {
                assert(old_v[k] == result_view(results@[k]));
                assert(old_v[k].1 == it.1);
                if k < pos {
                    if k < pos - 1 {
                        assert(ranks_before(old_v[k], old_v[pos - 1]));
                        lemma_ranks_same_key(old_v[pos - 1], old_v[k], it);
                    }
                } else {
                    lemma_ranks_same_key(it, old_v[k], it);
                }
            }
        }
        assert forall|k: int| 0 <= k < pos implies ranks_before(#[trigger] old_v[k], it) by {
            lemma_ranks_before_order(old_v[k], it, it);
        }
    }
    results.insert(pos, item);
    paths.insert(pos, item_path);
    if results.len() > limit {
        results.pop();
        paths.pop();
    }
    proof {
        assert(result_views(results@) =~= (if old_v.len() < limit { old_v.insert(pos as int, it) } else { old_v.insert(pos as int, it).drop_last() }));
        let inserted = old_v.insert(pos as int, it);
        let new_v = result_views(results@);
        if old_v.len() < limit {
            assert(new_v =~= inserted);
        } else {
            assert(new_v =~= inserted.drop_last());
        }
        assert forall|k: int, l: int| 0 <= k < l < new_v.len() implies ranks_before(#[trigger] new_v[k], #[trigger] new_v[l]) by {
            assert(new_v[k] == inserted[k] && new_v[l] == inserted[l]);
            if l < pos {
            } else if l == pos {
            } else if k < pos {
                assert(inserted[l] == old_v[l - 1]);
                lemma_ranks_before_order(old_v[k], it, old_v[l - 1]);
            } else if k == pos {
                assert(inserted[l] == old_v[l - 1]);
            } else {
                assert(inserted[k] == old_v[k - 1] && inserted[l] == old_v[l - 1]);
            }
        }
        assert(inserted_at(old_v, new_v, it, limit as int, pos as int));
    }
}

fn chars_eq(a: &Vec<char>, b: &Vec<char>) -> (r: bool)
    requires
        a@.len() == b@.len(),
    ensures
        r == (a@ == b@),
{
    let r = occurs_at_exec(a, b, 0);
    proof {
        if r {
            assert(a@ =~= a@.subrange(0, b@.len() as int));
        }
        if a@ == b@ {
            assert(a@.subrange(0, b@.len() as int) =~= b@);
        }
    }
    r
}


/// Whether the `i`-th path's result is among `v`, or `v` is full and everything in it ranks
/// before that result.
pub open spec fn accounted_for(v: Seq<RankedPath>, limit: int, c: RankedPath) -> bool {
    (exists|k: int| 0 <= k < v.len() && v[k].0 == c.0) || (v.len() == limit && forall|k: int|
        0 <= k < v.len() ==> ranks_before(#[trigger] v[k], c))
}

/// Whether the result `r` comes, with its score, from the `i`-th path, one of the first `n`,
/// which takes part in the ranking.
pub open spec fn result_origin(ps: Seq<Seq<char>>, terms: Seq<Seq<char>>, n: int, r: RankedPath, i: int) -> bool {
    0 <= i < n && ranked_path(ps, terms, i) && normalize_path_seq(ps[i]) == r.0 && scored(r.0, terms, r)
}

/// Whether each result comes, with its score, from one of the first `n` paths that take part
/// in the ranking.
pub open spec fn results_from(ps: Seq<Seq<char>>, terms: Seq<Seq<char>>, n: int, v: Seq<RankedPath>) -> bool {
    forall|k: int| 0 <= k < v.len() ==> #[trigger] has_origin(ps, terms, n, v[k])
}

/// Whether the result `r` comes from one of the first `n` paths (see `result_origin`).
pub open spec fn has_origin(ps: Seq<Seq<char>>, terms: Seq<Seq<char>>, n: int, r: RankedPath) -> bool {
    exists|i: int| #[trigger] result_origin(ps, terms, n, r, i)
}

/// Whether every match of the first `n` paths is among `v` or ranks after all of it.
pub open spec fn all_accounted(ps: Seq<Seq<char>>, terms: Seq<Seq<char>>, n: int, limit: int, v: Seq<RankedPath>) -> bool {
    forall|j: int, c: RankedPath|
        #![trigger scorable(ps, terms, j), scored(normalize_path_seq(ps[j]), terms, c)]
        0 <= j < n && scorable(ps, terms, j) && scored(normalize_path_seq(ps[j]), terms, c) ==> accounted_for(v, limit, c)
}

proof fn lemma_scored_same_score(p: Seq<char>, terms: Seq<Seq<char>>, a: RankedPath, b: RankedPath)
    requires
        scored(p, terms, a),
        scored(p, terms, b),
    ensures
        a.0 == b.0 && a.1 == b.1,
{
}

/// `results_from`, with the index of the path each result came from.
pub open spec fn results_from_paths(ps: Seq<Seq<char>>, terms: Seq<Seq<char>>, n: int, v: Seq<RankedPath>, origin: Seq<int>) -> bool {
    &&& origin.len() == v.len()
    &&& forall|k: int|
        0 <= k < v.len() ==> 0 <= #[trigger] origin[k] < n && ranked_path(ps, terms, origin[k]) && normalize_path_seq(ps[origin[k]]) == v[k].0
            && scored(v[k].0, terms, v[k])
}

proof fn lemma_results_from(ps: Seq<Seq<char>>, terms: Seq<Seq<char>>, n: int, v: Seq<RankedPath>, origin: Seq<int>)
    requires
        results_from_paths(ps, terms, n, v, origin),
    ensures
        results_from(ps, terms, n, v),
{
    assert forall|k: int| 0 <= k < v.len() implies #[trigger] has_origin(ps, terms, n, v[k]) by {
        assert(result_origin(ps, terms, n, v[k], origin[k]));
    }
}

proof fn lemma_rank_skip(ps: Seq<Seq<char>>, terms: Seq<Seq<char>>, i: int, limit: int, v: Seq<RankedPath>, origin: Seq<int>)
    requires
        0 <= i,
        !scorable(ps, terms, i),
        results_from_paths(ps, terms, i, v, origin),
        all_accounted(ps, terms, i, limit, v),
    ensures
        results_from_paths(ps, terms, i + 1, v, origin),
        all_accounted(ps, terms, i + 1, limit, v),
{
}

/// The outcome of `insert_ranked` on results `v0` and `it`, giving `v1`.
pub open spec fn insert_outcome(v0: Seq<RankedPath>, v1: Seq<RankedPath>, it: RankedPath, limit: int) -> bool {
    ||| (v1 == v0 && exists|k: int| 0 <= k < v0.len() && v0[k].0 == it.0)
    ||| (v1 == v0 && v0.len() == limit && forall|k: int| 0 <= k < v0.len() ==> ranks_before(#[trigger] v0[k], it))
    ||| (exists|pos: int| inserted_at(v0, v1, it, limit, pos))
}

pub open spec fn inserted_at(v0: Seq<RankedPath>, v1: Seq<RankedPath>, it: RankedPath, limit: int, pos: int) -> bool {
    &&& v0.len() <= limit
    &&& 0 <= pos <= v0.len()
    &&& pos < limit
    &&& (forall|k: int| 0 <= k < v0.len() ==> (#[trigger] v0[k]).0 != it.0)
    &&& (forall|k: int| 0 <= k < pos ==> ranks_before(#[trigger] v0[k], it))
    &&& (forall|k: int| pos <= k < v0.len() ==> ranks_before(it, #[trigger] v0[k]))
    &&& v1 == (if v0.len() < limit { v0.insert(pos, it) } else { v0.insert(pos, it).drop_last() })
}

proof fn lemma_rank_unchanged(ps: Seq<Seq<char>>, terms: Seq<Seq<char>>, i: int, limit: int, v0: Seq<RankedPath>, it: RankedPath, origin: Seq<int>)
    requires
        0 <= i < ps.len(),
        it.0 == normalize_path_seq(ps[i]),
        scored(it.0, terms, it),
        results_from_paths(ps, terms, i, v0, origin),
        all_accounted(ps, terms, i, limit, v0),
        (exists|k: int| 0 <= k < v0.len() && v0[k].0 == it.0) || (v0.len() == limit && forall|k: int|
            0 <= k < v0.len() ==> ranks_before(#[trigger] v0[k], it)),
    ensures
        results_from_paths(ps, terms, i + 1, v0, origin),
        all_accounted(ps, terms, i + 1, limit, v0),
{
    assert forall|j: int, c: RankedPath|
        0 <= j < i + 1 && scorable(ps, terms, j) && scored(normalize_path_seq(ps[j]), terms, c) implies accounted_for(v0, limit, c) by {
        if j == i {
            lemma_scored_same_score(it.0, terms, it, c);
            if !(exists|k: int| 0 <= k < v0.len() && v0[k].0 == it.0) {
                assert forall|k: int| 0 <= k < v0.len() implies ranks_before(#[trigger] v0[k], c) by {
                    lemma_ranks_same_key(v0[k], it, c);
                }
            } else {
                let k = choose|k: int| 0 <= k < v0.len() && v0[k].0 == it.0;
                assert(v0[k].0 == c.0);
            }
        }
    }
}

proof fn lemma_rank_first(ps: Seq<Seq<char>>, terms: Seq<Seq<char>>, i: int, limit: int, v0: Seq<RankedPath>, v1: Seq<RankedPath>, it: RankedPath, pos: int)
    requires
        0 <= i < ps.len(),
        scorable(ps, terms, i),
        it.0 == normalize_path_seq(ps[i]),
        scored(it.0, terms, it),
        all_accounted(ps, terms, i, limit, v0),
        inserted_at(v0, v1, it, limit, pos),
    ensures
        ranked_path(ps, terms, i),
{
    assert forall|w: int| 0 <= w < i implies normalize_path_seq(#[trigger] ps[w]) != it.0 by {
        if normalize_path_seq(ps[w]) == it.0 {
            assert(scorable(ps, terms, w));
            assert(accounted_for(v0, limit, it));
            if exists|k: int| 0 <= k < v0.len() && v0[k].0 == it.0 {
                let k = choose|k: int| 0 <= k < v0.len() && v0[k].0 == it.0;
                assert(v0[k].0 != it.0);
            } else {
                assert(ranks_before(v0[pos], it));
                assert(ranks_before(it, v0[pos]));
                lemma_ranks_before_order(it, v0[pos], it);
            }
        }
    }
}

proof fn lemma_rank_inserted_origins(ps: Seq<Seq<char>>, terms: Seq<Seq<char>>, i: int, limit: int, v0: Seq<RankedPath>, v1: Seq<RankedPath>, it: RankedPath, pos: int, origin: Seq<int>) -> (o1: Seq<int>)
    requires
        0 <= i < ps.len(),
        ranked_path(ps, terms, i),
        it.0 == normalize_path_seq(ps[i]),
        scored(it.0, terms, it),
        results_from_paths(ps, terms, i, v0, origin),
        inserted_at(v0, v1, it, limit, pos),
    ensures
        results_from_paths(ps, terms, i + 1, v1, o1),
{
    let inserted = origin.insert(pos, i);
    let o1 = if v0.len() < limit { inserted } else { inserted.drop_last() };
    assert forall|k: int| 0 <= k < v1.len() implies 0 <= #[trigger] o1[k] < i + 1 && ranked_path(ps, terms, o1[k]) && normalize_path_seq(ps[o1[k]]) == v1[k].0
        && scored(v1[k].0, terms, v1[k]) by {
        assert(o1[k] == inserted[k]);
        assert(v1[k] == v0.insert(pos, it)[k]);
        if k < pos {
            assert(o1[k] == origin[k] && v1[k] == v0[k]);
        } else if k > pos {
            assert(o1[k] == origin[k - 1] && v1[k] == v0[k - 1]);
        }
    }
    o1
}

proof fn lemma_acc_kept(v0: Seq<RankedPath>, v1: Seq<RankedPath>, it: RankedPath, limit: int, pos: int, c: RankedPath, k: int)
    requires
        sorted_by_rank(v0),
        inserted_at(v0, v1, it, limit, pos),
        0 <= k < v0.len(),
        v0[k].0 == c.0,
        v0[k].1 == c.1,
    ensures
        accounted_for(v1, limit, c),
{
    let inserted = v0.insert(pos, it);
    assert(v1.len() == if v0.len() < limit { v0.len() as int + 1 } else { v0.len() as int });
    if k < pos {
        assert(v1[k] == inserted[k]);
        assert(v1[k].0 == c.0);
    } else if k + 1 < v1.len() {
        assert(v1[k + 1] == inserted[k + 1]);
        assert(v1[k + 1].0 == c.0);
    } else {
        assert(v1.len() == limit);
        assert forall|m: int| 0 <= m < v1.len() implies ranks_before(#[trigger] v1[m], c) by {
            assert(v1[m] == inserted[m]);
            if m == pos {
                lemma_ranks_same_key(it, v0[k], c);
            } else {
                let q = if m < pos { m } else { m - 1 };
                assert(inserted[m] == v0[q]);
                assert(ranks_before(v0[q], v0[k]));
                lemma_ranks_same_key(v0[q], v0[k], c);
            }
        }
    }
}

proof fn lemma_acc_after_all(v0: Seq<RankedPath>, v1: Seq<RankedPath>, it: RankedPath, limit: int, pos: int, c: RankedPath)
    requires
        inserted_at(v0, v1, it, limit, pos),
        v0.len() == limit,
        forall|k: int| 0 <= k < v0.len() ==> ranks_before(#[trigger] v0[k], c),
    ensures
        accounted_for(v1, limit, c),
{
    let inserted = v0.insert(pos, it);
    assert forall|m: int| 0 <= m < v1.len() implies ranks_before(#[trigger] v1[m], c) by {
        assert(v1[m] == inserted[m]);
        if m == pos {
            assert(ranks_before(v0[pos], c));
            lemma_ranks_before_order(it, v0[pos], c);
        } else {
            let q = if m < pos { m } else { m - 1 };
            assert(inserted[m] == v0[q]);
        }
    }
}

proof fn lemma_rank_inserted_accounted(ps: Seq<Seq<char>>, terms: Seq<Seq<char>>, i: int, limit: int, v0: Seq<RankedPath>, v1: Seq<RankedPath>, it: RankedPath, pos: int, origin: Seq<int>)
    requires
        0 <= i < ps.len(),
        it.0 == normalize_path_seq(ps[i]),
        scored(it.0, terms, it),
        sorted_by_rank(v0),
        results_from_paths(ps, terms, i, v0, origin),
        all_accounted(ps, terms, i, limit, v0),
        inserted_at(v0, v1, it, limit, pos),
    ensures
        all_accounted(ps, terms, i + 1, limit, v1),
{
    let inserted = v0.insert(pos, it);
    assert(v1[pos] == inserted[pos]);
    assert forall|j: int, c: RankedPath|
        0 <= j < i + 1 && scorable(ps, terms, j) && scored(normalize_path_seq(ps[j]), terms, c) implies accounted_for(v1, limit, c) by {
        if j == i {
            assert(v1[pos].0 == c.0);
        } else {
            assert(accounted_for(v0, limit, c));
            if exists|k: int| 0 <= k < v0.len() && v0[k].0 == c.0 {
                let k = choose|k: int| 0 <= k < v0.len() && v0[k].0 == c.0;
                assert(0 <= origin[k] && scored(v0[k].0, terms, v0[k]));
                lemma_scored_same_score(c.0, terms, v0[k], c);
                lemma_acc_kept(v0, v1, it, limit, pos, c, k);
            } else {
                lemma_acc_after_all(v0, v1, it, limit, pos, c);
            }
        }
    }
}

proof fn lemma_rank_insert(
    ps: Seq<Seq<char>>,
    terms: Seq<Seq<char>>,
    i: int,
    limit: int,
    v0: Seq<RankedPath>,
    v1: Seq<RankedPath>,
    it: RankedPath,
    origin: Seq<int>,
) -> (o1: Seq<int>)
    requires
        0 <= i < ps.len(),
        sorted_by_rank(v0),
        scorable(ps, terms, i),
        it.0 == normalize_path_seq(ps[i]),
        scored(it.0, terms, it),
        results_from_paths(ps, terms, i, v0, origin),
        all_accounted(ps, terms, i, limit, v0),
        insert_outcome(v0, v1, it, limit),
    ensures
        results_from_paths(ps, terms, i + 1, v1, o1),
        all_accounted(ps, terms, i + 1, limit, v1),
{
    if exists|pos: int| inserted_at(v0, v1, it, limit, pos) {
        let pos = choose|pos: int| inserted_at(v0, v1, it, limit, pos);
        lemma_rank_first(ps, terms, i, limit, v0, v1, it, pos);
        lemma_rank_inserted_accounted(ps, terms, i, limit, v0, v1, it, pos, origin);
        lemma_rank_inserted_origins(ps, terms, i, limit, v0, v1, it, pos, origin)
    } else {
        lemma_rank_unchanged(ps, terms, i, limit, v0, it, origin);
        origin
    }
}

/// Whether `r` is what `rank_file_paths` gives for the paths `ps`, the query `q` and `limit`: at
/// most `limit` results (none for an empty query or a zero limit), ordered by rank, each from
/// one of the paths with its score, and every match left out ranking after all of them.
pub open spec fn ranked_among(ps: Seq<Seq<char>>, q: Seq<char>, limit: usize, r: Seq<FileSearchResult>) -> bool {
    let terms = query_terms(q);
    let v = result_views(r);
    &&& (terms.len() == 0 || limit == 0) ==> r.len() == 0
    &&& r.len() <= limit
    &&& sorted_by_rank(v)
    &&& results_from(ps, terms, ps.len() as int, v)
    &&& (terms.len() > 0 && limit > 0) ==> forall|i: int, c: RankedPath|
        #![trigger ranked_path(ps, terms, i), scored(normalize_path_seq(ps[i]), terms, c)]
        0 <= i < ps.len() && ranked_path(ps, terms, i) && scored(normalize_path_seq(ps[i]), terms, c) ==> accounted_for(v, limit as int, c)
}

/// Whether `r` is what `rank_file_paths` gives for some paths, the query `q` and `limit`.
pub open spec fn ranked_for_some_paths(q: Seq<char>, limit: usize, r: Seq<FileSearchResult>) -> bool {
    exists|ps: Seq<Seq<char>>| #[trigger] ranked_among(ps, q, limit, r)
}

/// The files among `paths` that best match `query`, best first, at most `limit` of them.
///
/// Paths are normalised (trimmed, `\` read as `/`, leading `./` removed); empty ones, paths in
/// `.git` and repeats of an earlier path are skipped. A path matches when every query term does;
/// each term takes its best-scoring match (the whole path, the file name, a segment prefix, a
/// substring, or the term's characters in order), and the scores add up. Results are ordered
/// by score, then by shorter path, then by the path's text.
pub fn rank_file_paths(paths: &[String], query: &str, limit: usize) -> (r: Vec<FileSearchResult>)
    requires
        query@.len() < MAX_SEARCH_CHARS,
        forall|i: int| 0 <= i < paths@.len() ==> (#[trigger] paths@[i])@.len() < MAX_SEARCH_CHARS,
    ensures
        ({
            let terms = query_terms(query@);
            let ps = paths_view(paths@);
            let v = result_views(r@);
            &&& (terms.len() == 0 || limit == 0) ==> r@.len() == 0
            &&& r@.len() <= limit
            &&& sorted_by_rank(v)
            &&& results_from(ps, terms, ps.len() as int, v)
            &&& (terms.len() > 0 && limit > 0) ==> forall|i: int, c: RankedPath|
                #![trigger ranked_path(ps, terms, i), scored(normalize_path_seq(ps[i]), terms, c)]
                0 <= i < ps.len() && ranked_path(ps, terms, i) && scored(normalize_path_seq(ps[i]), terms, c) ==> accounted_for(v, limit as int, c)
        }),
{
    let ghost ps = paths_view(paths@);
    let terms = normalize_query(query);
    let ghost tv = query_terms(query@);
    let mut results: Vec<FileSearchResult> = Vec::new();
    if terms.len() == 0 || limit == 0 {
        return results;
    }
    let mut result_paths: Vec<Vec<char>> = Vec::new();
    let ghost mut origin: Seq<int> = seq![];
    let mut i: usize = 0;
    while i < paths.len()
        invariant
            i <= paths@.len(),
            ps == paths_view(paths@),
            tv == query_terms(query@),
            seqs_view(terms@) == tv,
            terms@.len() <= query@.len(),
            query@.len() < MAX_SEARCH_CHARS,
            0 < terms@.len(),
            0 < limit,
            forall|k: int| 0 <= k < terms@.len() ==> (#[trigger] terms@[k])@.len() >= 1,
            forall|j: int| 0 <= j < paths@.len() ==> (#[trigger] paths@[j])@.len() < MAX_SEARCH_CHARS,
            results@.len() <= limit,
            result_paths@.len() == results@.len(),
            forall|k: int| 0 <= k < result_paths@.len() ==> (#[trigger] result_paths@[k])@ == results@[k].path@,
            sorted_by_rank(result_views(results@)),
            results_from_paths(ps, tv, i as int, result_views(results@), origin),
            all_accounted(ps, tv, i as int, limit as int, result_views(results@)),
        decreases paths@.len() - i,
    {
        let ghost v0 = result_views(results@);
        assert(ps[i as int] == paths@[i as int]@);
        let raw = str_chars(paths[i].as_str());
        let path = normalize_path_chars(&raw);
        if path.len() > 0 && !is_git_internal_exec(&path) {
            let lower = lower_vec(&path);
            match score_path(&lower, &terms) {
                None => {
                    proof {
                        lemma_rank_skip(ps, tv, i as int, limit as int, v0, origin);
                    }
                },
                Some((score, indices)) => {
                    let item = FileSearchResult { path: string_from_chars(&path), score, matched_indices: indices };
                    let ghost it = result_view(item);
                    proof {
                        assert forall|k: int| 0 <= k < results@.len() && (#[trigger] results@[k]).path@ == item.path@ implies results@[k].score == item.score by {
                            assert(v0[k] == result_view(results@[k]));
                            assert(0 <= origin[k] && scored(v0[k].0, tv, v0[k]));
                            lemma_scored_same_score(it.0, tv, it, v0[k]);
                        }
                    }
                    insert_ranked(&mut results, &mut result_paths, item, path, limit);
                    proof {
                        origin = lemma_rank_insert(ps, tv, i as int, limit as int, v0, result_views(results@), it, origin);
                    }
                },
            }
        } else {
            proof {
                lemma_rank_skip(ps, tv, i as int, limit as int, v0, origin);
            }
        }
        i += 1;
    }
    proof {
        lemma_results_from(ps, tv, paths@.len() as int, result_views(results@), origin);
        assert forall|j: int, c: RankedPath|
            #![trigger ranked_path(ps, tv, j), scored(normalize_path_seq(ps[j]), tv, c)]
            0 <= j < ps.len() && ranked_path(ps, tv, j) && scored(normalize_path_seq(ps[j]), tv, c) implies accounted_for(result_views(results@), limit as int, c) by {
            assert(scorable(ps, tv, j));
        }
    }
    results
}

} // verus!
