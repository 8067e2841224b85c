use vstd::prelude::*;
use crate::chunk::Chunk;
use smallvec::SmallVec;

verus! {

/// The lanes of one graph row, kept inline for the common case of few lanes.
#[verifier::external_body]
pub struct LaneSnapshot {
    cells: SmallVec<[Chunk; 32]>,
}

/// The lane cells that a `LaneSnapshot` holds, in order.
pub uninterp spec fn lane_cells(v: LaneSnapshot) -> Seq<Chunk>;

impl View for LaneSnapshot {
    type V = Seq<Chunk>;

    open spec fn view(&self) -> Seq<Chunk> {
        lane_cells(*self)
    }
}

impl Clone for LaneSnapshot {
    /// `SmallVec::clone`: a copy with the same cells.
    #[verifier::external_body]
    fn clone(&self) -> (r: LaneSnapshot)
        ensures
            lane_cells(r) == lane_cells(*self),
    {
        LaneSnapshot { cells: self.cells.clone() }
    }
}

impl LaneSnapshot {
    /// `SmallVec::new`: an empty vector.
    #[verifier::external_body]
    pub fn new() -> (r: LaneSnapshot)
        ensures
            lane_cells(r) == Seq::<Chunk>::empty(),
    {
        LaneSnapshot { cells: SmallVec::new() }
    }

    /// `SmallVec::len`: the number of cells.
    #[verifier::external_body]
    pub fn len(&self) -> (n: usize)
        ensures
            n == lane_cells(*self).len(),
    {
        self.cells.len()
    }

    /// `SmallVec` indexing: the cell at `index`.
    #[verifier::external_body]
    pub fn get(&self, index: usize) -> (c: Chunk)
        requires
            index < lane_cells(*self).len(),
        ensures
            c == lane_cells(*self)[index as int],
    {
        self.cells[index]
    }

    /// `SmallVec` index assignment: overwrite the cell at `index`.
    #[verifier::external_body]
    pub fn set(&mut self, index: usize, value: Chunk)
        requires
            index < lane_cells(*old(self)).len(),
        ensures
            lane_cells(*final(self)) == lane_cells(*old(self)).update(index as int, value),
    {
        self.cells[index] = value;
    }

    /// `SmallVec::push`: append one cell.
    #[verifier::external_body]
    pub fn push(&mut self, value: Chunk)
        ensures
            lane_cells(*final(self)) == lane_cells(*old(self)).push(value),
    {
        self.cells.push(value);
    }

    /// `SmallVec::insert`: shift the cells from `index` on and put `value` there.
    #[verifier::external_body]
    pub fn insert(&mut self, index: usize, value: Chunk)
        requires
            index <= lane_cells(*old(self)).len(),
        ensures
            lane_cells(*final(self)) == lane_cells(*old(self)).insert(index as int, value),
    {
        self.cells.insert(index, value);
    }

    /// `SmallVec::remove`: take out the cell at `index` and shift the rest down.
    #[verifier::external_body]
    pub fn remove(&mut self, index: usize)
        requires
            index < lane_cells(*old(self)).len(),
        ensures
            lane_cells(*final(self)) == lane_cells(*old(self)).remove(index as int),
    {
        self.cells.remove(index);
    }

    /// `SmallVec::truncate`: keep the first `len` cells; no change when there are fewer.
    #[verifier::external_body]
    pub fn truncate(&mut self, len: usize)
        ensures
            lane_cells(*final(self)) == (if len < lane_cells(*old(self)).len() {
                lane_cells(*old(self)).take(len as int)
            } else {
                lane_cells(*old(self))
            }),
    {
        self.cells.truncate(len);
    }

    /// `SmallVec::as_slice`: the cells as a slice.
    #[verifier::external_body]
    pub fn as_slice(&self) -> (r: &[Chunk])
        ensures
            r@ == lane_cells(*self),
    {
        self.cells.as_slice()
    }

    /// `SmallVec::shrink_to_fit`: release spare capacity; the cells stay.
    #[verifier::external_body]
    pub fn shrink_to_fit(&mut self)
        ensures
            lane_cells(*final(self)) == lane_cells(*old(self)),
    {
        self.cells.shrink_to_fit();
    }
}

} // verus!
