//! A `LifeBoard` backed by a fixed-size vector of rows.  Any coordinates
//! that fall off the initial board read as dead, and writes outside it are
//! ruled out by contract.

use vstd::prelude::*;
use crate::bool_grid::{count_grid, dead_row, vec_grid_live};
use crate::decimal::u64_string;
use crate::life_board::LifeBoard;
use crate::rules::{CellSet, live_flag, neighbor_count};

verus! {

/// The largest row or column count a board accepts: keeps every coordinate
/// translation inside `i64` and every buffer size inside `usize`.
pub const DIM_LIMIT: usize = 0x4000_0000;

pub struct FixedVectorLifeBoard {
    grid: Vec<Vec<bool>>,
    x_size: usize,
    y_size: usize,
}

/// Every row has the same length.
pub open spec fn uniform_rows(rows: Seq<Seq<bool>>) -> bool {
    forall|i: int| 0 <= i < rows.len() ==> (#[trigger] rows[i]).len() == rows[0].len()
}

impl FixedVectorLifeBoard {
    pub closed spec fn spec_x_size(self) -> int {
        self.x_size as int
    }

    pub closed spec fn spec_y_size(self) -> int {
        self.y_size as int
    }

    /// The stored sizes match the buffers and stay within `DIM_LIMIT`.
    pub closed spec fn dims_ok(self) -> bool {
        &&& self.grid@.len() == self.x_size
        &&& forall|i: int|
            0 <= i < self.grid@.len() ==> (#[trigger] self.grid@[i]).len() == self.y_size
        &&& self.x_size <= DIM_LIMIT
        &&& self.y_size <= DIM_LIMIT
    }

    /// Whether the stored cell at `(x, y)` is live; anything off the grid
    /// is dead.
    pub closed spec fn live_at(self, x: int, y: int) -> bool {
        0 <= x < self.grid@.len() && 0 <= y < self.grid@[x].len() && self.grid@[x][y]
    }

    pub fn x_size(&self) -> (n: usize)
        ensures
            n == self.spec_x_size(),
    {
        self.x_size
    }

    pub fn y_size(&self) -> (n: usize)
        ensures
            n == self.spec_y_size(),
    {
        self.y_size
    }

    /// A 32 x 32 board of dead cells.
    pub fn empty() -> (board: FixedVectorLifeBoard)
        ensures
            board.inv(),
            board.spec_x_size() == 32,
            board.spec_y_size() == 32,
            board.live_set() == Set::<(int, int)>::empty(),
    {
        let mut grid: Vec<Vec<bool>> = Vec::new();
        let mut i: usize = 0;
        while i < 32
            invariant
                i <= 32,
                grid@.len() == i,
                forall|j: int|
                    0 <= j < i ==> (#[trigger] grid@[j]).len() == 32 && forall|k: int|
                        0 <= k < 32 ==> !grid@[j][k],
            decreases 32 - i,
        {
            grid.push(dead_row(32));
            i = i + 1;
        }
        let board = FixedVectorLifeBoard { grid, x_size: 32, y_size: 32 };
        proof {
            assert(board.live_set() =~= Set::<(int, int)>::empty());
        }
        board
    }

    /// Build a board from rows of booleans, one vector per column of the
    /// board starting at the origin.  Rows of unequal length, or more rows
    /// or cells than `DIM_LIMIT`, are rejected.
    pub fn from_rows(rows: Vec<Vec<bool>>) -> (r: Option<FixedVectorLifeBoard>)
        ensures
            r is Some <==> uniform_rows(rows@.map_values(|row: Vec<bool>| row@))
                && rows@.len() <= DIM_LIMIT && (rows@.len() == 0 || rows@[0]@.len() <= DIM_LIMIT),
            r matches Some(board) ==> {
                &&& board.inv()
                &&& board.spec_x_size() == rows@.len()
                &&& board.spec_y_size() == if rows@.len() == 0 {
                    0int
                } else {
                    rows@[0]@.len() as int
                }
                &&& forall|x: int, y: int|
                    #[trigger] board.live_set().contains((x, y)) == (0 <= x < rows@.len() && 0 <= y
                        < rows@[x]@.len() && rows@[x]@[y])
            },
    {
        if rows.len() > DIM_LIMIT {
            return None;
        }
        let y_size = if rows.len() == 0 {
            0
        } else {
            rows[0].len()
        };
        if y_size > DIM_LIMIT {
            return None;
        }
        let mut i: usize = 0;
        while i < rows.len()
            invariant
                i <= rows@.len(),
                y_size as int == if rows@.len() == 0 {
                    0int
                } else {
                    rows@[0]@.len() as int
                },
                forall|j: int| 0 <= j < i ==> (#[trigger] rows@[j])@.len() == y_size,
            decreases rows@.len() - i,
        {
            if rows[i].len() != y_size {
                proof {
                    let mapped = rows@.map_values(|row: Vec<bool>| row@);
                    assert(mapped[i as int].len() != mapped[0].len());
                }
                return None;
            }
            i = i + 1;
        }
        let x_size = rows.len();
        let board = FixedVectorLifeBoard { grid: rows, x_size, y_size };
        proof {
            let mapped = rows@.map_values(|row: Vec<bool>| row@);
            assert forall|j: int| 0 <= j < mapped.len() implies (#[trigger] mapped[j]).len()
                == mapped[0].len() by {
                assert(rows@[j]@.len() == y_size);
            }
        }
        Some(board)
    }

    fn convert_coordinates(&self, x: i64, y: i64) -> (p: (usize, usize))
        requires
            self.inv(),
            0 <= x < self.spec_x_size(),
            0 <= y < self.spec_y_size(),
        ensures
            p.0 == x as int,
            p.1 == y as int,
    {
        (x as usize, y as usize)
    }

    fn is_live_num(&self, x: i64, y: i64) -> (n: u8)
        requires
            self.inv(),
        ensures
            n as int == live_flag(self.live_set(), x as int, y as int),
    {
        if self.is_live(x, y) {
            1
        } else {
            0
        }
    }

    /// The number of live cells on the board.
    pub fn get_live_count(&self) -> (count: u64)
        requires
            self.inv(),
        ensures
            self.live_set().finite(),
            count == self.live_set().len(),
    {
        let count = count_grid(&self.grid, 0, 0);
        proof {
            assert(self.live_set() =~= vec_grid_live(self.grid@, 0, 0));
        }
        count
    }
}

impl LifeBoard for FixedVectorLifeBoard {
    open spec fn inv(&self) -> bool {
        self.dims_ok()
    }

    open spec fn live_set(&self) -> CellSet {
        Set::new(|p: (int, int)| self.live_at(p.0, p.1))
    }

    open spec fn writable(&self, x: int, y: int) -> bool {
        0 <= x < self.spec_x_size() && 0 <= y < self.spec_y_size()
    }

    open spec fn kept(&self, x: int, y: int) -> bool {
        0 <= x < self.spec_x_size() && 0 <= y < self.spec_y_size()
    }

    open spec fn step_fits(&self) -> bool {
        true
    }

    fn is_live(&self, x: i64, y: i64) -> (r: bool) {
        if x < 0 || y < 0 || x >= self.x_size as i64 || y >= self.y_size as i64 {
            false
        } else {
            let (xu, yu) = self.convert_coordinates(x, y);
            self.grid[xu][yu]
        }
    }

    fn set_liveness(&mut self, x: i64, y: i64, is_live: bool) {
        let (xu, yu) = self.convert_coordinates(x, y);
        self.grid[xu].set(yu, is_live);
        proof {
            assert(self.live_set() =~= crate::rules::with_cell(
                old(self).live_set(),
                x as int,
                y as int,
                is_live,
            ));
        }
    }

    /// Count the live neighbors of this cell, not counting the cell itself.
    fn count_live_neighbors(&self, x: i64, y: i64) -> (n: u8) {
        if x < -1 || y < -1 || x > self.x_size as i64 || y > self.y_size as i64 {
            proof {
                let s = self.live_set();
                assert(!s.contains((x - 1, y - 1)));
                assert(!s.contains((x - 1, y as int)));
                assert(!s.contains((x - 1, y + 1)));
                assert(!s.contains((x as int, y - 1)));
                assert(!s.contains((x as int, y + 1)));
                assert(!s.contains((x + 1, y - 1)));
                assert(!s.contains((x + 1, y as int)));
                assert(!s.contains((x + 1, y + 1)));
            }
            0
        } else {
            self.is_live_num(x - 1, y - 1) + self.is_live_num(x - 1, y) + self.is_live_num(
                x - 1,
                y + 1,
            ) + self.is_live_num(x, y - 1)
            // the cell itself, at (x, y), is deliberately not counted
             + self.is_live_num(x, y + 1) + self.is_live_num(x + 1, y - 1) + self.is_live_num(
                x + 1,
                y,
            ) + self.is_live_num(x + 1, y + 1)
        }
    }

    fn step_one(&mut self) {
        let ghost before = self.live_set();
        let mut new_grid: Vec<Vec<bool>> = Vec::new();
        let mut xu: usize = 0;
        while xu < self.x_size
            invariant
                self.inv(),
                self == old(self),
                before == self.live_set(),
                xu <= self.spec_x_size(),
                new_grid@.len() == xu,
                forall|a: int|
                    0 <= a < xu ==> (#[trigger] new_grid@[a]).len() == self.spec_y_size(),
                forall|a: int, b: int|
                    0 <= a < xu && 0 <= b < self.spec_y_size() ==> #[trigger] new_grid@[a][b]
                        == crate::rules::next_alive(before, a, b),
            decreases self.spec_x_size() - xu,
        {
            let mut row: Vec<bool> = Vec::new();
            let mut yu: usize = 0;
            while yu < self.y_size
                invariant
                    self.inv(),
                    self == old(self),
                    before == self.live_set(),
                    xu < self.spec_x_size(),
                    yu <= self.spec_y_size(),
                    row@.len() == yu,
                    forall|b: int|
                        0 <= b < yu ==> #[trigger] row@[b] == crate::rules::next_alive(
                            before,
                            xu as int,
                            b,
                        ),
                decreases self.spec_y_size() - yu,
            {
                let count = self.count_live_neighbors(xu as i64, yu as i64);
                let live = count == 3 || (count == 2 && self.is_live(xu as i64, yu as i64));
                row.push(live);
                yu = yu + 1;
            }
            new_grid.push(row);
            xu = xu + 1;
        }
        self.grid = new_grid;
        proof {
            assert forall|x: int, y: int| #[trigger] self.live_set().contains((x, y)) == (
            crate::rules::next_alive(before, x, y) && old(self).kept(x, y)) by {
                assert(self.live_set().contains((x, y)) == self.live_at(x, y));
            }
        }
    }

    fn get_stats(&self) -> (stats: Vec<(&'static str, String)>) {
        let count = self.get_live_count();
        let mut stats: Vec<(&'static str, String)> = Vec::new();
        stats.push(("implementation", "Fixed vector".to_owned()));
        stats.push(("live_cells", u64_string(count)));
        stats.push(("x_size", u64_string(self.x_size as u64)));
        stats.push(("y_size", u64_string(self.y_size as u64)));
        stats
    }
}

} // verus!
