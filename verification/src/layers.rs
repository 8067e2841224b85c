use vstd::prelude::*;
use vstd::string::StringSliceAdditionalSpecFns;
use crate::chunk::LaneRef;

verus! {

#[verifier::external_type_specification]
#[verifier::external_body]
pub struct ExColor(ratatui::style::Color);

/// How a token is coloured: by its lane, with a fixed terminal colour, or not at all (padding).
#[derive(Clone, Copy)]
pub enum TokenColor {
    Lane(LaneRef),
    Custom(ratatui::style::Color),
    Blank,
}

/// One symbol of a graph line in one layer, with its colour.
#[derive(Clone, Copy)]
pub struct LayerToken<'a> {
    pub symbol: &'a str,
    pub color: TokenColor,
}

/// Whether a symbol is blank: made of ASCII spaces only (the empty symbol too).
pub open spec fn blank_symbol(symbol: &str) -> bool {
    forall|i: int| 0 <= i < symbol.spec_bytes().len() ==> #[trigger] symbol.spec_bytes()[i] == 32u8
}

/// Whether a symbol is blank: ASCII spaces only, so tabs and other whitespace are drawn.
pub fn is_empty(symbol: &str) -> (b: bool)
    ensures
        b == blank_symbol(symbol),
{
    let bytes = symbol.as_bytes();
    let mut i: usize = 0;
    while i < bytes.len()
        invariant
            i <= bytes@.len(),
            bytes@ == symbol.spec_bytes(),
            forall|k: int| 0 <= k < i ==> #[trigger] bytes@[k] == 32u8,
        decreases bytes@.len() - i,
    {
        if bytes[i] != 32u8 {
            return false;
        }
        i += 1;
    }
    true
}

pub open spec fn blank_token<'a>(t: LayerToken<'a>) -> bool {
    blank_symbol(t.symbol)
}

/// The layer without its trailing blank tokens.
pub open spec fn trim_blank<'a>(tokens: Seq<LayerToken<'a>>) -> Seq<LayerToken<'a>>
    decreases tokens.len(),
{
    if tokens.len() > 0 && blank_token(tokens.last()) {
        trim_blank(tokens.drop_last())
    } else {
        tokens
    }
}

/// Drop trailing blank tokens.
fn trim_empty<'a>(tokens: &mut Vec<LayerToken<'a>>)
    ensures
        final(tokens)@ == trim_blank(old(tokens)@),
{
    while tokens.len() > 0 && is_empty(tokens[tokens.len() - 1].symbol)
        invariant
            trim_blank(tokens@) == trim_blank(old(tokens)@),
        decreases tokens@.len(),
    {
        let ghost before = tokens@;
        tokens.pop();
        assert(tokens@ =~= before.drop_last());
    }
}

/// The token shown at `i`: the first non-blank one among the commit, merge and pipe layers,
/// else a blank.
pub open spec fn composite<'a>(commits: Seq<LayerToken<'a>>, merges: Seq<LayerToken<'a>>, pipes: Seq<LayerToken<'a>>, i: int) -> Option<LayerToken<'a>> {
    if i < commits.len() && !blank_token(commits[i]) {
        Some(commits[i])
    } else if i < merges.len() && !blank_token(merges[i]) {
        Some(merges[i])
    } else if i < pipes.len() && !blank_token(pipes[i]) {
        Some(pipes[i])
    } else {
        None
    }
}

pub open spec fn max3(a: int, b: int, c: int) -> int {
    let m = if a > b { a } else { b };
    if m > c { m } else { c }
}

/// The pad token laid under symbols placed past a layer's end.
pub open spec fn is_pad<'a>(t: LayerToken<'a>) -> bool {
    t.symbol@ == seq![' '] && t.color is Blank
}

/// `tokens` with `token` at `index`, padded with blanks up to it.
pub open spec fn placed<'a>(tokens: Seq<LayerToken<'a>>, index: int, token: LayerToken<'a>, new: Seq<LayerToken<'a>>) -> bool {
    &&& new.len() == if index < tokens.len() { tokens.len() as int } else { index + 1 }
    &&& new[index] == token
    &&& forall|k: int| 0 <= k < new.len() && k != index ==> if k < tokens.len() { #[trigger] new[k] == tokens[k] } else { is_pad(new[k]) }
}

/// The lane reference of a lane index: flattened when its flag in `flattened` is non-zero.
pub open spec fn lane_ref_at(flattened: Seq<u8>, lane: usize) -> LaneRef {
    LaneRef { index: lane, is_flattened: lane < flattened.len() && flattened[lane as int] != 0 }
}

/// The symbols of one graph line, collected per layer (commits over merges over pipes) and then
/// composited.
pub struct LayersContext<'a> {
    pub commits: Vec<LayerToken<'a>>,
    pub merges: Vec<LayerToken<'a>>,
    pub pipes: Vec<LayerToken<'a>>,
    pub flattened_lanes: Vec<u8>,
}

fn pad_token<'a>() -> (t: LayerToken<'a>)
    ensures
        is_pad(t),
        blank_token(t),
{
    let t = LayerToken { symbol: " ", color: TokenColor::Blank };
    proof {
        reveal_strlit(" ");
        vstd::string::is_ascii_spec_bytes(" ");
        assert(t.symbol@ =~= seq![' ']);
        assert(t.symbol.spec_bytes() =~= seq![32u8]);
    }
    t
}

/// Put `token` at `index`, padding the layer with blanks up to it; keep the symbol already
/// there when `only_over_blank` and it is not blank.
fn place<'a>(tokens: &mut Vec<LayerToken<'a>>, index: usize, token: LayerToken<'a>, only_over_blank: bool)
    requires
        index < usize::MAX,
    ensures
        ({
            let keep = only_over_blank && index < old(tokens)@.len() && !blank_token(old(tokens)@[index as int]);
            if keep {
                *final(tokens) == *old(tokens)
            } else {
                placed(old(tokens)@, index as int, token, final(tokens)@)
            }
        }),
{
    let ghost before = tokens@;
    let keep = only_over_blank && index < tokens.len() && !is_empty(tokens[index].symbol);
    if keep {
        return;
    }
    while tokens.len() <= index
        invariant
            index < usize::MAX,
            tokens@.len() >= before.len(),
            tokens@.len() <= if index < before.len() { before.len() as int } else { index + 1 },
            forall|k: int| 0 <= k < tokens@.len() ==> if k < before.len() { #[trigger] tokens@[k] == before[k] } else { is_pad(tokens@[k]) },
            only_over_blank && index < tokens@.len() ==> blank_token(tokens@[index as int]),
        decreases index + 1 - tokens@.len(),
    {
        let pad = pad_token();
        tokens.push(pad);
    }
    tokens.set(index, token);
}

impl<'a> LayersContext<'a> {
    /// An empty line.
    pub fn new() -> (l: LayersContext<'a>)
        ensures
            l.commits@.len() == 0 && l.merges@.len() == 0 && l.pipes@.len() == 0 && l.flattened_lanes@.len() == 0,
    {
        LayersContext { commits: Vec::new(), merges: Vec::new(), pipes: Vec::new(), flattened_lanes: Vec::new() }
    }

    /// Forget all symbols and flattened lanes.
    pub fn clear(&mut self)
        ensures
            final(self).commits@.len() == 0 && final(self).merges@.len() == 0 && final(self).pipes@.len() == 0
                && final(self).flattened_lanes@.len() == 0,
    {
        self.commits.clear();
        self.merges.clear();
        self.pipes.clear();
        self.flattened_lanes.clear();
    }

    /// Make room for `additional` more symbols per layer; the symbols stay.
    pub fn reserve(&mut self, additional: usize)
        ensures
            final(self).commits@ == old(self).commits@,
            final(self).merges@ == old(self).merges@,
            final(self).pipes@ == old(self).pipes@,
            final(self).flattened_lanes@ == old(self).flattened_lanes@,
    {
        self.commits.reserve(additional);
        self.merges.reserve(additional);
        self.pipes.reserve(additional);
    }

    /// Record which lanes are drawn flattened (non-zero flags).
    pub fn set_flattened_lanes(&mut self, flattened_lanes: &[u8])
        ensures
            final(self).flattened_lanes@ == flattened_lanes@,
            final(self).commits@ == old(self).commits@,
            final(self).merges@ == old(self).merges@,
            final(self).pipes@ == old(self).pipes@,
    {
        self.flattened_lanes.clear();
        let mut i: usize = 0;
        while i < flattened_lanes.len()
            invariant
                i <= flattened_lanes@.len(),
                self.flattened_lanes@ == flattened_lanes@.take(i as int),
                self.commits@ == old(self).commits@,
                self.merges@ == old(self).merges@,
                self.pipes@ == old(self).pipes@,
            decreases flattened_lanes@.len() - i,
        {
            self.flattened_lanes.push(flattened_lanes[i]);
            i += 1;
            assert(self.flattened_lanes@ =~= flattened_lanes@.take(i as int));
        }
        assert(flattened_lanes@.take(flattened_lanes@.len() as int) =~= flattened_lanes@);
    }

    fn lane_ref_for_index(&self, lane: usize) -> (r: LaneRef)
        ensures
            r == lane_ref_at(self.flattened_lanes@, lane),
    {
        let flattened = lane < self.flattened_lanes.len() && self.flattened_lanes[lane] != 0;
        LaneRef::new(lane, flattened)
    }

    /// Append a commit symbol coloured by `lane`.
    pub fn commit(&mut self, sym: &'a str, lane: usize)
        ensures
            final(self).commits@ == old(self).commits@.push(LayerToken { symbol: sym, color: TokenColor::Lane(lane_ref_at(old(self).flattened_lanes@, lane)) }),
            final(self).merges@ == old(self).merges@ && final(self).pipes@ == old(self).pipes@,
            final(self).flattened_lanes@ == old(self).flattened_lanes@,
    {
        let lane = self.lane_ref_for_index(lane);
        self.commit_ref(sym, lane);
    }

    /// Append a commit symbol coloured by the lane reference `lane`.
    pub fn commit_ref(&mut self, sym: &'a str, lane: LaneRef)
        ensures
            final(self).commits@ == old(self).commits@.push(LayerToken { symbol: sym, color: TokenColor::Lane(lane) }),
            final(self).merges@ == old(self).merges@ && final(self).pipes@ == old(self).pipes@,
            final(self).flattened_lanes@ == old(self).flattened_lanes@,
    {
        self.commits.push(LayerToken { symbol: sym, color: TokenColor::Lane(lane) });
    }

    /// Put a commit symbol at `token_index`, padding with blanks up to it.
    pub fn commit_at(&mut self, token_index: usize, sym: &'a str, lane: usize)
        requires
            token_index < usize::MAX,
        ensures
            placed(old(self).commits@, token_index as int, LayerToken { symbol: sym, color: TokenColor::Lane(lane_ref_at(old(self).flattened_lanes@, lane)) }, final(self).commits@),
            final(self).merges@ == old(self).merges@ && final(self).pipes@ == old(self).pipes@,
            final(self).flattened_lanes@ == old(self).flattened_lanes@,
    {
        let lane = self.lane_ref_for_index(lane);
        place(&mut self.commits, token_index, LayerToken { symbol: sym, color: TokenColor::Lane(lane) }, false);
    }

    /// Append a pipe symbol coloured by `lane`.
    pub fn pipe(&mut self, sym: &'a str, lane: usize)
        ensures
            final(self).pipes@ == old(self).pipes@.push(LayerToken { symbol: sym, color: TokenColor::Lane(lane_ref_at(old(self).flattened_lanes@, lane)) }),
            final(self).commits@ == old(self).commits@ && final(self).merges@ == old(self).merges@,
            final(self).flattened_lanes@ == old(self).flattened_lanes@,
    {
        let lane = self.lane_ref_for_index(lane);
        self.pipe_ref(sym, lane);
    }

    /// Append a pipe symbol coloured by the lane reference `lane`.
    pub fn pipe_ref(&mut self, sym: &'a str, lane: LaneRef)
        ensures
            final(self).pipes@ == old(self).pipes@.push(LayerToken { symbol: sym, color: TokenColor::Lane(lane) }),
            final(self).commits@ == old(self).commits@ && final(self).merges@ == old(self).merges@,
            final(self).flattened_lanes@ == old(self).flattened_lanes@,
    {
        self.pipes.push(LayerToken { symbol: sym, color: TokenColor::Lane(lane) });
    }

    /// Append a merge symbol coloured by `lane`.
    pub fn merge(&mut self, sym: &'a str, lane: usize)
        ensures
            final(self).merges@ == old(self).merges@.push(LayerToken { symbol: sym, color: TokenColor::Lane(lane_ref_at(old(self).flattened_lanes@, lane)) }),
            final(self).commits@ == old(self).commits@ && final(self).pipes@ == old(self).pipes@,
            final(self).flattened_lanes@ == old(self).flattened_lanes@,
    {
        let lane = self.lane_ref_for_index(lane);
        self.merge_ref(sym, lane);
    }

    /// Append a merge symbol coloured by the lane reference `lane`.
    pub fn merge_ref(&mut self, sym: &'a str, lane: LaneRef)
        ensures
            final(self).merges@ == old(self).merges@.push(LayerToken { symbol: sym, color: TokenColor::Lane(lane) }),
            final(self).commits@ == old(self).commits@ && final(self).pipes@ == old(self).pipes@,
            final(self).flattened_lanes@ == old(self).flattened_lanes@,
    {
        self.merges.push(LayerToken { symbol: sym, color: TokenColor::Lane(lane) });
    }

    /// Put a merge symbol at `token_index` unless a non-blank one is there, padding with blanks.
    pub fn merge_at(&mut self, token_index: usize, sym: &'a str, lane: usize)
        requires
            token_index < usize::MAX,
        ensures
            ({
                let token = LayerToken { symbol: sym, color: TokenColor::Lane(lane_ref_at(old(self).flattened_lanes@, lane)) };
                if token_index < old(self).merges@.len() && !blank_token(old(self).merges@[token_index as int]) {
                    final(self).merges@ == old(self).merges@
                } else {
                    placed(old(self).merges@, token_index as int, token, final(self).merges@)
                }
            }),
            final(self).commits@ == old(self).commits@ && final(self).pipes@ == old(self).pipes@,
            final(self).flattened_lanes@ == old(self).flattened_lanes@,
    {
        let lane = self.lane_ref_for_index(lane);
        self.merge_at_ref(token_index, sym, lane);
    }

    /// Put a merge symbol coloured by `lane` at `token_index` unless a non-blank one is there.
    pub fn merge_at_ref(&mut self, token_index: usize, sym: &'a str, lane: LaneRef)
        requires
            token_index < usize::MAX,
        ensures
            ({
                let token = LayerToken { symbol: sym, color: TokenColor::Lane(lane) };
                if token_index < old(self).merges@.len() && !blank_token(old(self).merges@[token_index as int]) {
                    final(self).merges@ == old(self).merges@
                } else {
                    placed(old(self).merges@, token_index as int, token, final(self).merges@)
                }
            }),
            final(self).commits@ == old(self).commits@ && final(self).pipes@ == old(self).pipes@,
            final(self).flattened_lanes@ == old(self).flattened_lanes@,
    {
        place(&mut self.merges, token_index, LayerToken { symbol: sym, color: TokenColor::Lane(lane) }, true);
    }

    /// Append a pipe symbol with a fixed colour.
    pub fn pipe_custom(&mut self, sym: &'a str, _lane: usize, color: ratatui::style::Color)
        ensures
            final(self).pipes@ == old(self).pipes@.push(LayerToken { symbol: sym, color: TokenColor::Custom(color) }),
            final(self).commits@ == old(self).commits@ && final(self).merges@ == old(self).merges@,
            final(self).flattened_lanes@ == old(self).flattened_lanes@,
    {
        self.pipes.push(LayerToken { symbol: sym, color: TokenColor::Custom(color) });
    }

    /// Composite the line into `out`: the layers lose their trailing blanks, then for each
    /// position up to the widest layer the first non-blank symbol among commit, merge and pipe
    /// is appended, or a blank.
    pub fn bake(&mut self, out: &mut Vec<LayerToken<'a>>)
        ensures
            final(self).commits@ == trim_blank(old(self).commits@),
            final(self).merges@ == trim_blank(old(self).merges@),
            final(self).pipes@ == trim_blank(old(self).pipes@),
            final(self).flattened_lanes@ == old(self).flattened_lanes@,
            ({
                let c = final(self).commits@;
                let m = final(self).merges@;
                let p = final(self).pipes@;
                let width = max3(c.len() as int, m.len() as int, p.len() as int);
                &&& final(out)@.len() == old(out)@.len() + width
                &&& final(out)@.take(old(out)@.len() as int) == old(out)@
                &&& forall|i: int| 0 <= i < width ==> match composite(c, m, p, i) {
                    Some(t) => #[trigger] final(out)@[old(out)@.len() + i] == t,
                    None => is_pad(final(out)@[old(out)@.len() + i]),
                }
            }),
    {
        trim_empty(&mut self.commits);
        trim_empty(&mut self.merges);
        trim_empty(&mut self.pipes);
        let mut width = self.commits.len();
        if self.merges.len() > width {
            width = self.merges.len();
        }
        if self.pipes.len() > width {
            width = self.pipes.len();
        }
        let start = out.len();
        let mut i: usize = 0;
        while i < width
            invariant
                i <= width,
                width == max3(self.commits@.len() as int, self.merges@.len() as int, self.pipes@.len() as int),
                start == old(out)@.len(),
                out@.len() == start + i,
                out@.take(start as int) == old(out)@,
                forall|k: int| 0 <= k < i ==> match composite(self.commits@, self.merges@, self.pipes@, k) {
                    Some(t) => #[trigger] out@[start + k] == t,
                    None => is_pad(out@[start + k]),
                },
            decreases width - i,
        {
            let token = if i < self.commits.len() && !is_empty(self.commits[i].symbol) {
                self.commits[i]
            } else if i < self.merges.len() && !is_empty(self.merges[i].symbol) {
                self.merges[i]
            } else if i < self.pipes.len() && !is_empty(self.pipes[i].symbol) {
                self.pipes[i]
            } else {
                pad_token()
            };
            let ghost before = out@;
            out.push(token);
            assert(out@.take(start as int) =~= before.take(start as int));
            i += 1;
        }
    }
}

} // verus!
