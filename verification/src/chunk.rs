use vstd::prelude::*;

verus! {

/// Alias value that stands for "no commit" in lanes and parent slots.
pub const NONE: u32 = 0xFFFF_FFFFu32;

/// One lane cell of the graph: the commit occupying the lane and the parents it still waits for.
#[derive(Clone, Copy, Debug, PartialEq, Eq, Structural)]
pub struct Chunk {
    pub alias: u32,
    pub parent_a: u32,
    pub parent_b: u32,
    pub is_flattened: bool,
}

impl Chunk {
    pub open spec fn spec_dummy() -> Chunk {
        Chunk { alias: NONE, parent_a: NONE, parent_b: NONE, is_flattened: false }
    }

    pub open spec fn spec_is_dummy(self) -> bool {
        self.alias == NONE && self.parent_a == NONE && self.parent_b == NONE
    }

    /// A lane cell for `alias` whose parents are `parent_a` and `parent_b`.
    pub fn commit(alias: u32, parent_a: u32, parent_b: u32) -> (c: Chunk)
        ensures
            c == (Chunk { alias, parent_a, parent_b, is_flattened: false }),
    {
        Chunk { alias, parent_a, parent_b, is_flattened: false }
    }

    /// An empty lane cell.
    pub fn dummy() -> (c: Chunk)
        ensures
            c == Chunk::spec_dummy(),
    {
        Chunk { alias: NONE, parent_a: NONE, parent_b: NONE, is_flattened: false }
    }

    pub fn is_dummy(&self) -> (b: bool)
        ensures
            b == self.spec_is_dummy(),
    {
        self.alias == NONE && self.parent_a == NONE && self.parent_b == NONE
    }

    /// The same cell with its flattened flag set to `flattened`.
    pub fn with_flattened(self, flattened: bool) -> (c: Chunk)
        ensures
            c == (Chunk { is_flattened: flattened, ..self }),
    {
        Chunk { is_flattened: flattened, ..self }
    }
}

/// A lane position as drawn, with whether it stands for several collapsed lanes.
#[derive(Clone, Copy, Debug, PartialEq, Eq, Structural)]
pub struct LaneRef {
    pub index: usize,
    pub is_flattened: bool,
}

impl LaneRef {
    pub fn new(index: usize, is_flattened: bool) -> (r: LaneRef)
        ensures
            r == (LaneRef { index, is_flattened }),
    {
        LaneRef { index, is_flattened }
    }
}

} // verus!
