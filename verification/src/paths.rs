use vstd::prelude::*;
use crate::text::{chars_lt, lemma_seq_lt_asym, lemma_seq_lt_trans, seq_lt};

verus! {

/// A path component as `std::path::Component` orders them: root, `.`, `..`, then names.
#[derive(Clone, Debug)]
pub struct PathComponent {
    /// 1 root, 2 current directory, 3 parent directory, 4 a name.
    pub kind: u8,
    /// The name, for a name component.
    pub name: Vec<char>,
}

pub type ComponentView = (u8, Seq<char>);

pub open spec fn component_view(c: PathComponent) -> ComponentView {
    (c.kind, c.name@)
}

pub open spec fn components_view(v: Seq<PathComponent>) -> Seq<ComponentView> {
    v.map_values(|c: PathComponent| component_view(c))
}

/// The pieces between `/` separators scanned up to `n`: the finished pieces and the one in
/// progress.
pub open spec fn split_slash_prefix(s: Seq<char>, n: int) -> (Seq<Seq<char>>, Seq<char>)
    decreases n,
{
    if n <= 0 {
        (seq![], seq![])
    } else {
        let (pieces, current) = split_slash_prefix(s, n - 1);
        if s[n - 1] == '/' {
            (pieces.push(current), seq![])
        } else {
            (pieces, current.push(s[n - 1]))
        }
    }
}

/// The pieces of `s` between `/` separators, empty ones included.
pub open spec fn split_slash(s: Seq<char>) -> Seq<Seq<char>> {
    let (pieces, current) = split_slash_prefix(s, s.len() as int);
    pieces.push(current)
}

pub open spec fn dot() -> Seq<char> {
    seq!['.']
}

pub open spec fn dot_dot() -> Seq<char> {
    seq!['.', '.']
}

/// The components of the first `n` pieces: empty and `.` pieces dropped, `..` as a parent
/// component, the rest as names.
pub open spec fn piece_components(pieces: Seq<Seq<char>>, n: int) -> Seq<ComponentView>
    decreases n,
{
    if n <= 0 {
        seq![]
    } else {
        let p = pieces[n - 1];
        piece_components(pieces, n - 1) + if p.len() == 0 || p == dot() {
            seq![]
        } else if p == dot_dot() {
            seq![(3u8, seq![])]
        } else {
            seq![(4u8, p)]
        }
    }
}

/// `Path::components` of a Unix path: a root when it starts with `/`, a current-directory
/// component when a relative path starts with `.` alone, then the components of its pieces.
pub open spec fn path_components(s: Seq<char>) -> Seq<ComponentView> {
    let root = s.len() > 0 && s[0] == '/';
    let cur = !root && s.len() > 0 && s[0] == '.' && (s.len() == 1 || s[1] == '/');
    let pieces = split_slash(s);
    (if root { seq![(1u8, seq![])] } else { seq![] }) + (if cur { seq![(2u8, seq![])] } else { seq![] }) + piece_components(pieces, pieces.len() as int)
}

fn is_dot(p: &Vec<char>) -> (b: bool)
    ensures
        b == (p@ == dot()),
{
    let b = p.len() == 1 && p[0] == '.';
    proof {
        if b {
            assert(p@ =~= dot());
        }
    }
    b
}

fn is_dot_dot(p: &Vec<char>) -> (b: bool)
    ensures
        b == (p@ == dot_dot()),
{
    let b = p.len() == 2 && p[0] == '.' && p[1] == '.';
    proof {
        if b {
            assert(p@ =~= dot_dot());
        }
    }
    b
}

fn push_piece(out: &mut Vec<PathComponent>, piece: Vec<char>)
    ensures
        components_view(final(out)@) == components_view(old(out)@) + if piece@.len() == 0 || piece@ == dot() {
            seq![]
        } else if piece@ == dot_dot() {
            seq![(3u8, seq![])]
        } else {
            seq![(4u8, piece@)]
        },
{
    if piece.len() == 0 || is_dot(&piece) {
        assert(components_view(out@) =~= components_view(out@) + seq![]);
        return;
    }
    if is_dot_dot(&piece) {
        out.push(PathComponent { kind: 3, name: Vec::new() });
    } else {
        out.push(PathComponent { kind: 4, name: piece });
    }
    assert(components_view(out@) =~= components_view(old(out)@) + seq![component_view(out@.last())]);
}

/// The components of a Unix path, as `std::path::Path::components` gives them.
pub fn components(s: &Vec<char>) -> (r: Vec<PathComponent>)
    ensures
        components_view(r@) == path_components(s@),
{
    let mut out: Vec<PathComponent> = Vec::new();
    let root = s.len() > 0 && s[0] == '/';
    if root {
        out.push(PathComponent { kind: 1, name: Vec::new() });
    }
    let cur = !root && s.len() > 0 && s[0] == '.' && (s.len() == 1 || s[1] == '/');
    if cur {
        out.push(PathComponent { kind: 2, name: Vec::new() });
    }
    let ghost head = components_view(out@);
    assert(head =~= (if root { seq![(1u8, seq![])] } else { seq![] }) + (if cur { seq![(2u8, seq![])] } else { seq![] }));
    let mut current: Vec<char> = Vec::new();
    let mut i: usize = 0;
    while i < s.len()
        invariant
            i <= s@.len(),
            current@ == split_slash_prefix(s@, i as int).1,
            components_view(out@) == head + piece_components(split_slash_prefix(s@, i as int).0, split_slash_prefix(s@, i as int).0.len() as int),
        decreases s@.len() - i,
    {
        if s[i] == '/' {
            let piece = current;
            current = Vec::new();
            let ghost pieces = split_slash_prefix(s@, i as int).0;
            push_piece(&mut out, piece);
            proof {
                let next = split_slash_prefix(s@, i + 1).0;
                assert(next == pieces.push(split_slash_prefix(s@, i as int).1));
                assert(next.drop_last() =~= pieces);
                assert(piece_components(next, pieces.len() as int) == piece_components(pieces, pieces.len() as int)) by {
                    lemma_piece_components_prefix(next, pieces, pieces.len() as int);
                }
                assert(components_view(out@) =~= head + piece_components(next, next.len() as int));
            }
        } else {
            current.push(s[i]);
        }
        i += 1;
    }
    let ghost pieces = split_slash_prefix(s@, s@.len() as int).0;
    push_piece(&mut out, current);
    proof {
        let all = split_slash(s@);
        assert(all == pieces.push(split_slash_prefix(s@, s@.len() as int).1));
        lemma_piece_components_prefix(all, pieces, pieces.len() as int);
        assert(components_view(out@) =~= path_components(s@));
    }
    out
}

proof fn lemma_piece_components_prefix(a: Seq<Seq<char>>, b: Seq<Seq<char>>, n: int)
    requires
        0 <= n <= b.len(),
        n <= a.len(),
        forall|k: int| 0 <= k < n ==> a[k] == b[k],
    ensures
        piece_components(a, n) == piece_components(b, n),
    decreases n,
{
    if n > 0 {
        lemma_piece_components_prefix(a, b, n - 1);
    }
}

/// The order of components: by kind, then names by their text.
pub open spec fn component_lt(a: ComponentView, b: ComponentView) -> bool {
    a.0 < b.0 || (a.0 == b.0 && seq_lt(a.1, b.1))
}

/// Lexicographic order of component sequences: `Path`'s ordering.
pub open spec fn components_lt(a: Seq<ComponentView>, b: Seq<ComponentView>) -> bool
    decreases a.len(),
{
    if a.len() == 0 {
        b.len() > 0
    } else if b.len() == 0 {
        false
    } else if a[0] != b[0] {
        component_lt(a[0], b[0])
    } else {
        components_lt(a.drop_first(), b.drop_first())
    }
}

pub proof fn lemma_components_lt_order(a: Seq<ComponentView>, b: Seq<ComponentView>, c: Seq<ComponentView>)
    ensures
        !(components_lt(a, b) && components_lt(b, a)),
        !components_lt(a, a),
        components_lt(a, b) && components_lt(b, c) ==> components_lt(a, c),
    decreases a.len(),
{
    if a.len() > 0 {
        lemma_seq_lt_asym(a[0].1, a[0].1);
        if b.len() > 0 {
            lemma_seq_lt_asym(a[0].1, b[0].1);
            if c.len() > 0 {
                if seq_lt(a[0].1, b[0].1) && seq_lt(b[0].1, c[0].1) {
                    lemma_seq_lt_trans(a[0].1, b[0].1, c[0].1);
                }
                if a[0] == b[0] && b[0] == c[0] {
                    lemma_components_lt_order(a.drop_first(), b.drop_first(), c.drop_first());
                } else if a[0] == b[0] {
                    lemma_components_lt_order(a.drop_first(), b.drop_first(), b.drop_first());
                } else {
                    lemma_components_lt_order(a.drop_first(), a.drop_first(), a.drop_first());
                }
            } else {
                lemma_components_lt_order(a.drop_first(), b.drop_first(), b.drop_first());
            }
        } else {
            lemma_components_lt_order(a.drop_first(), a.drop_first(), a.drop_first());
        }
    }
}

fn component_eq(a: &PathComponent, b: &PathComponent) -> (r: bool)
    ensures
        r == (component_view(*a) == component_view(*b)),
{
    if a.kind != b.kind || a.name.len() != b.name.len() {
        return false;
    }
    let mut i: usize = 0;
    while i < a.name.len()
        invariant
            i <= a.name@.len(),
            a.name@.len() == b.name@.len(),
            forall|k: int| 0 <= k < i ==> a.name@[k] == b.name@[k],
        decreases a.name@.len() - i,
    {
        if a.name[i] != b.name[i] {
            return false;
        }
        i += 1;
    }
    assert(a.name@ =~= b.name@);
    true
}

/// Whether the component sequence `a` orders before `b`.
pub fn components_before(a: &Vec<PathComponent>, b: &Vec<PathComponent>) -> (r: bool)
    ensures
        r == components_lt(components_view(a@), components_view(b@)),
{
    let ghost av = components_view(a@);
    let ghost bv = components_view(b@);
    let mut i: usize = 0;
    assert(av.skip(0) =~= av);
    assert(bv.skip(0) =~= bv);
    while i < a.len() && i < b.len() && component_eq(&a[i], &b[i])
        invariant
            i <= a@.len(),
            i <= b@.len(),
            av == components_view(a@),
            bv == components_view(b@),
            components_lt(av, bv) == components_lt(av.skip(i as int), bv.skip(i as int)),
        decreases a@.len() - i,
    {
        assert(av.skip(i as int).drop_first() =~= av.skip(i + 1));
        assert(bv.skip(i as int).drop_first() =~= bv.skip(i + 1));
        i += 1;
    }
    if i == a.len() {
        i < b.len()
    } else if i == b.len() {
        false
    } else {
        a[i].kind < b[i].kind || (a[i].kind == b[i].kind && chars_lt(&a[i].name, &b[i].name))
    }
}

/// Whether the components of `a` are those of `b` (`Path` equality).
pub fn components_equal(a: &Vec<PathComponent>, b: &Vec<PathComponent>) -> (r: bool)
    ensures
        r == (components_view(a@) == components_view(b@)),
{
    if a.len() != b.len() {
        return false;
    }
    let mut i: usize = 0;
    while i < a.len()
        invariant
            i <= a@.len(),
            a@.len() == b@.len(),
            forall|k: int| 0 <= k < i ==> component_view(a@[k]) == component_view(b@[k]),
        decreases a@.len() - i,
    {
        if !component_eq(&a[i], &b[i]) {
            assert(components_view(a@)[i as int] != components_view(b@)[i as int]);
            return false;
        }
        i += 1;
    }
    assert(components_view(a@) =~= components_view(b@));
    true
}

/// Whether `base`'s components begin `a`'s (`Path::starts_with`).
pub fn components_start_with(a: &Vec<PathComponent>, base: &Vec<PathComponent>) -> (r: bool)
    ensures
        r == (components_view(base@).len() <= components_view(a@).len() && components_view(a@).take(components_view(base@).len() as int) == components_view(base@)),
{
    if base.len() > a.len() {
        return false;
    }
    let mut i: usize = 0;
    while i < base.len()
        invariant
            i <= base@.len(),
            base@.len() <= a@.len(),
            forall|k: int| 0 <= k < i ==> component_view(a@[k]) == component_view(base@[k]),
        decreases base@.len() - i,
    {
        if !component_eq(&a[i], &base[i]) {
            assert(components_view(a@).take(base@.len() as int)[i as int] != components_view(base@)[i as int]);
            return false;
        }
        i += 1;
    }
    assert(components_view(a@).take(base@.len() as int) =~= components_view(base@));
    true
}

} // verus!
