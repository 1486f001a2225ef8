//! A grid of booleans anchored at the origin that grows on demand: cell
//! `(0, 0)` is the lowest corner, and setting a cell past the current
//! edge resizes the rows and columns to reach it.

use vstd::prelude::*;
use crate::bool_grid::{count_grid, vec_grid_live};
use crate::fixed_vector_board::{DIM_LIMIT, uniform_rows};
use crate::rules::{CellSet, live_flag, neighbor_count};

verus! {

#[derive(Debug)]
pub struct VectorGrid {
    grid: Vec<Vec<bool>>,
    x_size: usize,
    y_size: usize,
}

impl VectorGrid {
    pub closed spec fn spec_x_size(self) -> int {
        self.x_size as int
    }

    pub closed spec fn spec_y_size(self) -> int {
        self.y_size as int
    }

    /// The stored sizes match the buffers and stay within `DIM_LIMIT`.
    pub closed spec fn dims_ok(self) -> bool {
        &&& self.grid@.len() == self.x_size
        &&& forall|i: int|
            0 <= i < self.grid@.len() ==> (#[trigger] self.grid@[i])@.len() == self.y_size
        &&& self.x_size <= DIM_LIMIT
        &&& self.y_size <= DIM_LIMIT
    }

    pub open spec fn inv(self) -> bool {
        self.dims_ok()
    }

    /// The set of live cells.
    pub open spec fn live_set(self) -> CellSet {
        vec_grid_live(self.spec_rows(), 0, 0)
    }

    pub closed spec fn spec_rows(self) -> Seq<Vec<bool>> {
        self.grid@
    }

    pub fn x_size(&self) -> (n: usize)
        ensures
            n == self.spec_x_size(),
    {
        self.x_size
    }

    pub fn y_size(&self) -> (n: usize)
        ensures
            n == self.spec_y_size(),
    {
        self.y_size
    }

    /// A grid with no cells at all.
    pub fn empty() -> (g: VectorGrid)
        ensures
            g.inv(),
            g.spec_x_size() == 0,
            g.spec_y_size() == 0,
            g.live_set() == Set::<(int, int)>::empty(),
    {
        let g = VectorGrid { grid: Vec::new(), x_size: 0, y_size: 0 };
        proof {
            assert(g.live_set() =~= Set::<(int, int)>::empty());
        }
        g
    }

    /// Build a grid from rows of booleans starting at the origin.  Rows of
    /// unequal length, or more rows or cells than `DIM_LIMIT`, are
    /// rejected.
    pub fn from_rows(rows: Vec<Vec<bool>>) -> (r: Option<VectorGrid>)
        ensures
            r is Some <==> uniform_rows(rows@.map_values(|row: Vec<bool>| row@))
                && rows@.len() <= DIM_LIMIT && (rows@.len() == 0 || rows@[0]@.len() <= DIM_LIMIT),
            r matches Some(g) ==> {
                &&& g.inv()
                &&& g.spec_x_size() == rows@.len()
                &&& g.spec_y_size() == if rows@.len() == 0 {
                    0int
                } else {
                    rows@[0]@.len() as int
                }
                &&& forall|x: int, y: int|
                    #[trigger] g.live_set().contains((x, y)) == (0 <= x < rows@.len() && 0 <= y
                        < rows@[x]@.len() && rows@[x]@[y])
            },
    {
        if rows.len() > DIM_LIMIT {
            return None;
        }
        let y_size = if rows.len() == 0 {
            0
        } else {
            rows[0].len()
        };
        if y_size > DIM_LIMIT {
            return None;
        }
        let mut i: usize = 0;
        while i < rows.len()
            invariant
                i <= rows@.len(),
                y_size as int == if rows@.len() == 0 {
                    0int
                } else {
                    rows@[0]@.len() as int
                },
                forall|j: int| 0 <= j < i ==> (#[trigger] rows@[j])@.len() == y_size,
            decreases rows@.len() - i,
        {
            if rows[i].len() != y_size {
                proof {
                    let mapped = rows@.map_values(|row: Vec<bool>| row@);
                    assert(mapped[i as int].len() != mapped[0].len());
                }
                return None;
            }
            i = i + 1;
        }
        let x_size = rows.len();
        let g = VectorGrid { grid: rows, x_size, y_size };
        proof {
            let mapped = rows@.map_values(|row: Vec<bool>| row@);
            assert forall|j: int| 0 <= j < mapped.len() implies (#[trigger] mapped[j]).len()
                == mapped[0].len() by {
                assert(rows@[j]@.len() == y_size);
            }
        }
        Some(g)
    }

    pub fn is_live(&self, x: i64, y: i64) -> (r: bool)
        requires
            self.inv(),
        ensures
            r == self.live_set().contains((x as int, y as int)),
    {
        if x < 0 || y < 0 || x >= self.x_size as i64 || y >= self.y_size as i64 {
            false
        } else {
            let (xu, yu) = self.convert_coordinates(x, y);
            self.grid[xu][yu]
        }
    }

    fn is_live_num(&self, x: i64, y: i64) -> (n: u8)
        requires
            self.inv(),
        ensures
            n as int == live_flag(self.live_set(), x as int, y as int),
    {
        if self.is_live(x, y) {
            1
        } else {
            0
        }
    }

    fn convert_coordinates(&self, x: i64, y: i64) -> (p: (usize, usize))
        requires
            self.inv(),
            0 <= x < self.spec_x_size(),
            0 <= y < self.spec_y_size(),
        ensures
            p.0 == x as int,
            p.1 == y as int,
    {
        (x as usize, y as usize)
    }

    /// Set the cell at `(x, y)` live, growing the grid to reach it.
    pub fn set_live(&mut self, x: i64, y: i64)
        requires
            old(self).inv(),
            0 <= x < DIM_LIMIT,
            0 <= y < DIM_LIMIT,
        ensures
            final(self).inv(),
            final(self).live_set() == old(self).live_set().insert((x as int, y as int)),
            final(self).spec_x_size() == crate::geometry::spec_max(
                old(self).spec_x_size(),
                x + 1,
            ),
            final(self).spec_y_size() == crate::geometry::spec_max(
                old(self).spec_y_size(),
                y + 1,
            ),
    {
        let xu = x as usize;
        let yu = y as usize;
        self.ensure_size(xu + 1, yu + 1);
        self.grid[xu].set(yu, true);
        proof {
            assert(self.live_set() =~= old(self).live_set().insert((x as int, y as int)));
        }
    }

    /// Grow the buffers so that they are at least `req_x_size` by
    /// `req_y_size`; new cells are dead, old cells keep their value.
    fn ensure_size(&mut self, req_x_size: usize, req_y_size: usize)
        requires
            old(self).inv(),
            req_x_size <= DIM_LIMIT,
            req_y_size <= DIM_LIMIT,
        ensures
            final(self).inv(),
            final(self).spec_x_size() == crate::geometry::spec_max(
                old(self).spec_x_size(),
                req_x_size as int,
            ),
            final(self).spec_y_size() == crate::geometry::spec_max(
                old(self).spec_y_size(),
                req_y_size as int,
            ),
            final(self).live_set() == old(self).live_set(),
    {
        let new_x_size = if self.x_size >= req_x_size {
            self.x_size
        } else {
            req_x_size
        };
        let new_y_size = if self.y_size >= req_y_size {
            self.y_size
        } else {
            req_y_size
        };
        // If the y size grows, extend every existing row with dead cells.
        let mut i: usize = 0;
        while i < self.grid.len()
            invariant
                self.grid@.len() == old(self).grid@.len(),
                self.x_size == old(self).x_size,
                self.y_size == old(self).y_size,
                old(self).inv(),
                self.y_size <= new_y_size <= DIM_LIMIT,
                i <= self.grid@.len(),
                forall|j: int|
                    i <= j < self.grid@.len() ==> (#[trigger] self.grid@[j])@ == old(
                        self,
                    ).grid@[j]@,
                forall|j: int|
                    0 <= j < i ==> (#[trigger] self.grid@[j])@.len() == new_y_size,
                forall|j: int, k: int|
                    0 <= j < i && 0 <= k < new_y_size ==> #[trigger] self.grid@[j]@[k] == (k
                        < self.y_size && old(self).grid@[j]@[k]),
            decreases self.grid@.len() - i,
        {
            while self.grid[i].len() < new_y_size
                invariant
                    self.grid@.len() == old(self).grid@.len(),
                    old(self).inv(),
                    i < self.grid@.len(),
                    self.x_size == old(self).x_size,
                    self.y_size == old(self).y_size,
                    self.y_size <= new_y_size <= DIM_LIMIT,
                    self.y_size <= self.grid@[i as int]@.len() <= new_y_size,
                    forall|j: int|
                        i < j < self.grid@.len() ==> (#[trigger] self.grid@[j])@ == old(
                            self,
                        ).grid@[j]@,
                    forall|j: int|
                        0 <= j < i ==> (#[trigger] self.grid@[j])@.len() == new_y_size,
                    forall|j: int, k: int|
                        0 <= j < i && 0 <= k < new_y_size ==> #[trigger] self.grid@[j]@[k] == (k
                            < self.y_size && old(self).grid@[j]@[k]),
                    forall|k: int|
                        0 <= k < self.grid@[i as int]@.len() ==> #[trigger] self.grid@[i as int]@[k]
                            == (k < self.y_size && old(self).grid@[i as int]@[k]),
                decreases new_y_size - self.grid@[i as int]@.len(),
            {
                self.grid[i].push(false);
            }
            i = i + 1;
        }
        // If the x size grows, add fresh rows of the new length.
        while self.grid.len() < new_x_size
            invariant
                old(self).inv(),
                self.x_size == old(self).x_size,
                self.y_size == old(self).y_size,
                self.y_size <= new_y_size <= DIM_LIMIT,
                self.x_size <= new_x_size <= DIM_LIMIT,
                old(self).grid@.len() <= self.grid@.len() <= new_x_size,
                forall|j: int| 0 <= j < self.grid@.len() ==> (#[trigger] self.grid@[j])@.len()
                    == new_y_size,
                forall|j: int, k: int|
                    0 <= j < self.grid@.len() && 0 <= k < new_y_size ==> #[trigger] self
                        .grid@[j]@[k] == (j < self.x_size && k < self.y_size && old(
                        self,
                    ).grid@[j]@[k]),
            decreases new_x_size - self.grid@.len(),
        {
            self.grid.push(crate::bool_grid::dead_row(new_y_size));
        }
        self.x_size = new_x_size;
        self.y_size = new_y_size;
        proof {
            assert(self.live_set() =~= old(self).live_set());
        }
    }

    /// Count the live neighbors of this cell, not counting the cell
    /// itself.
    pub fn count_live_neighbors(&self, x: i64, y: i64) -> (n: u8)
        requires
            self.inv(),
        ensures
            n as int == neighbor_count(self.live_set(), x as int, y as int),
            n <= 8,
    {
        if x < -1 || y < -1 || x > self.x_size as i64 || y > self.y_size as i64 {
            proof {
                let s = self.live_set();
                assert(!s.contains((x - 1, y - 1)));
                assert(!s.contains((x - 1, y as int)));
                assert(!s.contains((x - 1, y + 1)));
                assert(!s.contains((x as int, y - 1)));
                assert(!s.contains((x as int, y + 1)));
                assert(!s.contains((x + 1, y - 1)));
                assert(!s.contains((x + 1, y as int)));
                assert(!s.contains((x + 1, y + 1)));
            }
            0
        } else {
            self.is_live_num(x - 1, y - 1) + self.is_live_num(x - 1, y) + self.is_live_num(
                x - 1,
                y + 1,
            ) + self.is_live_num(x, y - 1)
            // the cell itself, at (x, y), is deliberately not counted
             + self.is_live_num(x, y + 1) + self.is_live_num(x + 1, y - 1) + self.is_live_num(
                x + 1,
                y,
            ) + self.is_live_num(x + 1, y + 1)
        }
    }

    /// The number of live cells on the grid.
    pub fn get_live_count(&self) -> (count: u64)
        requires
            self.inv(),
        ensures
            self.live_set().finite(),
            count == self.live_set().len(),
    {
        count_grid(&self.grid, 0, 0)
    }
}

} // verus!
