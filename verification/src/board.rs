//! A board wrapper over the origin-anchored `VectorGrid`.

pub mod vector_grid;

use vstd::prelude::*;
use crate::board::vector_grid::VectorGrid;

verus! {

/// A board owning one origin-anchored grid.
pub struct LifeBoard {
    grid: VectorGrid,
}

impl LifeBoard {
    /// The grid the board holds.
    pub closed spec fn spec_grid(self) -> VectorGrid {
        self.grid
    }

    pub fn new(grid: VectorGrid) -> (board: LifeBoard)
        ensures
            board.spec_grid() == grid,
    {
        LifeBoard { grid }
    }
}

} // verus!
