//! A fixed-size `LifeBoard` where each cell is one packed byte holding the
//! alive bit and a count of live neighbors, kept consistent on every
//! toggle.  Neighbor queries are a single field read; the playable area is
//! surrounded by a one-cell dead halo so neighbor updates never need
//! bounds checks.

use vstd::prelude::*;
use crate::array_grid::ArrayGrid;
use crate::decimal::u64_string;
use crate::life_board::LifeBoard;
use crate::life_cell::LifeCell;
use crate::rules::{
    CellSet, lemma_prefix_cell, lemma_prefix_column_wrap, lemma_prefix_init, live_flag,
    neighbor_count, prefix_set, with_cell,
};

verus! {

/// Storage edge: the playable area plus the one-cell halo on every side.
pub const GRID_SIZE: usize = 258;

/// Edge of the playable area, in board coordinates `[0, BOARD_SIZE)`.
pub const BOARD_SIZE: i64 = 256;

/// A `LifeBoard` backed by packed cells with incrementally maintained
/// neighbor counts.
pub struct FixedBitfieldLifeBoard {
    grid: ArrayGrid<LifeCell>,
}

/// The two grid positions touch: distinct, and within one step of each
/// other on both axes.
pub open spec fn touches(a: int, b: int, c: int, d: int) -> bool {
    (a != c || b != d) && -1 <= a - c <= 1 && -1 <= b - d <= 1
}

impl FixedBitfieldLifeBoard {
    /// The stored cell at grid position `(xu, yu)`.
    pub closed spec fn cell_at(self, xu: int, yu: int) -> LifeCell {
        self.grid.spec_cell(xu, yu)
    }

    /// 1 if the stored cell at grid position `(xu, yu)` is alive, else 0;
    /// positions off the grid count 0.
    pub open spec fn grid_flag(self, xu: int, yu: int) -> int {
        if 0 <= xu < GRID_SIZE && 0 <= yu < GRID_SIZE && self.cell_at(xu, yu).spec_is_live() {
            1
        } else {
            0
        }
    }

    /// How many of the 8 grid neighbors of `(xu, yu)` are alive.
    /// Opaque: revealed only where the sum itself matters, so that the
    /// cell invariant does not endlessly re-expand it.
    #[verifier::opaque]
    pub open spec fn grid_count(self, xu: int, yu: int) -> int {
        self.grid_flag(xu - 1, yu - 1) + self.grid_flag(xu - 1, yu) + self.grid_flag(
            xu - 1,
            yu + 1,
        ) + self.grid_flag(xu, yu - 1) + self.grid_flag(xu, yu + 1) + self.grid_flag(
            xu + 1,
            yu - 1,
        ) + self.grid_flag(xu + 1, yu) + self.grid_flag(xu + 1, yu + 1)
    }

    /// The defining sum of `grid_count`, exposed one point at a time.
    proof fn lemma_grid_count_def(c: FixedBitfieldLifeBoard, xu: int, yu: int)
        ensures
            c.grid_count(xu, yu) == c.grid_flag(xu - 1, yu - 1) + c.grid_flag(xu - 1, yu)
                + c.grid_flag(xu - 1, yu + 1) + c.grid_flag(xu, yu - 1) + c.grid_flag(xu, yu + 1)
                + c.grid_flag(xu + 1, yu - 1) + c.grid_flag(xu + 1, yu) + c.grid_flag(
                xu + 1,
                yu + 1,
            ),
    {
        reveal(FixedBitfieldLifeBoard::grid_count);
    }

    pub closed spec fn dims_ok(self) -> bool {
        &&& self.grid.spec_col_size() == GRID_SIZE
        &&& self.grid.contents().len() == GRID_SIZE * GRID_SIZE
    }

    /// Every cell is well formed, the halo ring is dead, and every cell's
    /// count field equals the number of its live grid neighbors.
    pub open spec fn cells_ok(self) -> bool {
        forall|xu: int, yu: int|
            0 <= xu < GRID_SIZE && 0 <= yu < GRID_SIZE ==> {
                &&& (#[trigger] self.cell_at(xu, yu)).wf()
                &&& ((xu == 0 || xu + 1 == GRID_SIZE || yu == 0 || yu + 1 == GRID_SIZE)
                    ==> !self.cell_at(xu, yu).spec_is_live())
                &&& self.cell_at(xu, yu).spec_count() == self.grid_count(xu, yu)
            }
    }

    /// Whether the board cell `(x, y)` is live: board coordinates map to
    /// grid positions shifted by the halo.
    pub open spec fn live_at(self, x: int, y: int) -> bool {
        0 <= x < BOARD_SIZE && 0 <= y < BOARD_SIZE && self.cell_at(x + 1, y + 1).spec_is_live()
    }

    /// A board of dead cells.
    pub fn empty() -> (board: FixedBitfieldLifeBoard)
        ensures
            board.inv(),
            board.live_set() == Set::<(int, int)>::empty(),
    {
        let grid: ArrayGrid<LifeCell> = ArrayGrid::create(
            GRID_SIZE,
            GRID_SIZE,
            LifeCell::create_dead(),
        );
        let board = FixedBitfieldLifeBoard { grid };
        proof {
            assert forall|xu: int, yu: int|
                0 <= xu < GRID_SIZE && 0 <= yu < GRID_SIZE implies {
                &&& (#[trigger] board.cell_at(xu, yu)).wf()
                &&& !board.cell_at(xu, yu).spec_is_live()
                &&& board.cell_at(xu, yu).spec_count() == 0
            } by {
                crate::array_grid::lemma_flat_index_bounds(
                    GRID_SIZE as int,
                    GRID_SIZE as int,
                    xu,
                    yu,
                );
            }
            assert forall|xu: int, yu: int|
                0 <= xu < GRID_SIZE && 0 <= yu < GRID_SIZE implies #[trigger] board.grid_count(
                xu,
                yu,
            ) == 0 by {
                FixedBitfieldLifeBoard::lemma_grid_count_def(board, xu, yu);
            }
            assert(board.live_set() =~= Set::<(int, int)>::empty());
        }
        board
    }

    fn convert_coordinates(&self, x: i64, y: i64) -> (p: (usize, usize))
        requires
            -1 <= x <= BOARD_SIZE,
            -1 <= y <= BOARD_SIZE,
        ensures
            p.0 == x + 1,
            p.1 == y + 1,
            p.0 < GRID_SIZE,
            p.1 < GRID_SIZE,
    {
        ((x + 1) as usize, (y + 1) as usize)
    }

    /// The count field of one stored cell equals the number of live
    /// neighbors of the corresponding board cell.
    proof fn lemma_grid_count_is_neighbor_count(&self, x: int, y: int)
        requires
            self.inv(),
            -1 <= x <= BOARD_SIZE,
            -1 <= y <= BOARD_SIZE,
        ensures
            self.grid_count(x + 1, y + 1) == neighbor_count(self.live_set(), x, y),
    {
        FixedBitfieldLifeBoard::lemma_grid_count_def(*self, x + 1, y + 1);
        assert forall|a: int, b: int|
            x - 1 <= a <= x + 1 && y - 1 <= b <= y + 1 implies self.grid_flag(a + 1, b + 1)
            == live_flag(self.live_set(), a, b) by {
            if self.live_set().contains((a, b)) {
                assert(self.live_at(a, b));
            }
        }
    }

    /// `after` is `before` with the alive bit of the stored cell at
    /// `(a0, b0)` flipped to `v` and the count fields of the 8 surrounding
    /// cells moved one step toward it.
    pub open spec fn flipped_from(
        before: FixedBitfieldLifeBoard,
        after: FixedBitfieldLifeBoard,
        a0: int,
        b0: int,
        v: bool,
    ) -> bool {
        forall|a: int, b: int|
            0 <= a < GRID_SIZE && 0 <= b < GRID_SIZE ==> {
                &&& (#[trigger] after.cell_at(a, b)).wf()
                &&& after.cell_at(a, b).spec_is_live() == (if a == a0 && b == b0 {
                    v
                } else {
                    before.cell_at(a, b).spec_is_live()
                })
                &&& after.cell_at(a, b).spec_count() == before.cell_at(a, b).spec_count() + (
                if touches(a, b, a0, b0) {
                    if v {
                        1int
                    } else {
                        -1int
                    }
                } else {
                    0int
                })
            }
    }

    /// A paired toggle (alive bit plus the 8 neighbor counts) keeps every
    /// cell's count field equal to its live-neighbor count, and changes
    /// the live set by exactly the toggled board cell.
    #[verifier::rlimit(60)]
    proof fn lemma_toggle_preserves(
        before: FixedBitfieldLifeBoard,
        after: FixedBitfieldLifeBoard,
        a0: int,
        b0: int,
        v: bool,
    )
        requires
            before.inv(),
            1 <= a0 < GRID_SIZE - 1,
            1 <= b0 < GRID_SIZE - 1,
            before.cell_at(a0, b0).spec_is_live() == !v,
            after.dims_ok(),
            FixedBitfieldLifeBoard::flipped_from(before, after, a0, b0, v),
        ensures
            after.cells_ok(),
            after.live_set() == with_cell(before.live_set(), a0 - 1, b0 - 1, v),
    {
        assert forall|a: int, b: int|
            0 <= a < GRID_SIZE && 0 <= b < GRID_SIZE implies (#[trigger] after.grid_count(a, b))
            == after.cell_at(a, b).spec_count() by {
            FixedBitfieldLifeBoard::lemma_grid_count_def(before, a, b);
            FixedBitfieldLifeBoard::lemma_grid_count_def(after, a, b);
            assert(before.cell_at(a, b).spec_count() == before.grid_count(a, b));
        }
        assert(after.live_set() =~= with_cell(before.live_set(), a0 - 1, b0 - 1, v));
    }

    /// The number of live cells on the board.
    pub fn get_live_count(&self) -> (count: u64)
        requires
            self.inv(),
        ensures
            self.live_set().finite(),
            count == self.live_set().len(),
    {
        let ghost s = self.live_set();
        proof {
            lemma_prefix_init(s, 0, 0, BOARD_SIZE as int);
        }
        let mut count: u64 = 0;
        let mut x: i64 = 0;
        while x < BOARD_SIZE
            invariant
                self.inv(),
                s == self.live_set(),
                0 <= x <= BOARD_SIZE,
                prefix_set(s, 0, 0, BOARD_SIZE as int, x as int, 0).finite(),
                count == prefix_set(s, 0, 0, BOARD_SIZE as int, x as int, 0).len(),
                count <= x * BOARD_SIZE,
            decreases BOARD_SIZE - x,
        {
            let mut y: i64 = 0;
            while y < BOARD_SIZE
                invariant
                    self.inv(),
                    s == self.live_set(),
                    0 <= x < BOARD_SIZE,
                    0 <= y <= BOARD_SIZE,
                    prefix_set(s, 0, 0, BOARD_SIZE as int, x as int, y as int).finite(),
                    count == prefix_set(s, 0, 0, BOARD_SIZE as int, x as int, y as int).len(),
                    count <= x * BOARD_SIZE + y,
                decreases BOARD_SIZE - y,
            {
                proof {
                    lemma_prefix_cell(s, 0, 0, BOARD_SIZE as int, x as int, y as int);
                }
                if self.is_live(x, y) {
                    count = count + 1;
                }
                y = y + 1;
            }
            proof {
                lemma_prefix_column_wrap(s, 0, 0, BOARD_SIZE as int, x as int);
            }
            x = x + 1;
        }
        proof {
            assert(s =~= prefix_set(s, 0, 0, BOARD_SIZE as int, BOARD_SIZE as int, 0));
        }
        count
    }

    /// Add or remove one from the count field of the stored cell at
    /// `(au, bu)`.
    fn adjust_neighbor(&mut self, au: usize, bu: usize, up: bool)
        requires
            old(self).dims_ok(),
            au < GRID_SIZE,
            bu < GRID_SIZE,
            old(self).cell_at(au as int, bu as int).wf(),
            up ==> old(self).cell_at(au as int, bu as int).spec_count() < 15,
            !up ==> old(self).cell_at(au as int, bu as int).spec_count() >= 1,
        ensures
            final(self).dims_ok(),
            final(self).grid.contents() == old(self).grid.contents().update(
                bu + au * (GRID_SIZE as int),
                final(self).cell_at(au as int, bu as int),
            ),
            final(self).cell_at(au as int, bu as int).wf(),
            final(self).cell_at(au as int, bu as int).spec_is_live() == old(self).cell_at(
                au as int,
                bu as int,
            ).spec_is_live(),
            final(self).cell_at(au as int, bu as int).spec_count() == old(self).cell_at(
                au as int,
                bu as int,
            ).spec_count() + (if up {
                1int
            } else {
                -1int
            }),
    {
        proof {
            crate::array_grid::lemma_flat_index_bounds(
                GRID_SIZE as int,
                GRID_SIZE as int,
                au as int,
                bu as int,
            );
        }
        let mut cell = *self.grid.get(au, bu);
        if up {
            cell.increment_neighbors();
        } else {
            cell.decrement_neighbors();
        }
        self.grid.set(au, bu, cell);
    }

    /// Flip the alive bit of the stored cell at `(au, bu)`.
    fn write_alive(&mut self, au: usize, bu: usize, alive: bool)
        requires
            old(self).dims_ok(),
            au < GRID_SIZE,
            bu < GRID_SIZE,
            old(self).cell_at(au as int, bu as int).wf(),
        ensures
            final(self).dims_ok(),
            final(self).grid.contents() == old(self).grid.contents().update(
                bu + au * (GRID_SIZE as int),
                final(self).cell_at(au as int, bu as int),
            ),
            final(self).cell_at(au as int, bu as int).wf(),
            final(self).cell_at(au as int, bu as int).spec_is_live() == alive,
            final(self).cell_at(au as int, bu as int).spec_count() == old(self).cell_at(
                au as int,
                bu as int,
            ).spec_count(),
    {
        proof {
            crate::array_grid::lemma_flat_index_bounds(
                GRID_SIZE as int,
                GRID_SIZE as int,
                au as int,
                bu as int,
            );
        }
        let mut cell = *self.grid.get(au, bu);
        if alive {
            cell.set_alive();
        } else {
            cell.set_dead();
        }
        self.grid.set(au, bu, cell);
    }
}

impl LifeBoard for FixedBitfieldLifeBoard {
    open spec fn inv(&self) -> bool {
        self.dims_ok() && self.cells_ok()
    }

    open spec fn live_set(&self) -> CellSet {
        Set::new(|p: (int, int)| self.live_at(p.0, p.1))
    }

    open spec fn writable(&self, x: int, y: int) -> bool {
        0 <= x < BOARD_SIZE && 0 <= y < BOARD_SIZE
    }

    open spec fn kept(&self, x: int, y: int) -> bool {
        0 <= x < BOARD_SIZE && 0 <= y < BOARD_SIZE
    }

    open spec fn step_fits(&self) -> bool {
        true
    }

    fn is_live(&self, x: i64, y: i64) -> (r: bool) {
        if x < 0 || y < 0 || x >= BOARD_SIZE || y >= BOARD_SIZE {
            false
        } else {
            let (xu, yu) = self.convert_coordinates(x, y);
            proof {
                crate::array_grid::lemma_flat_index_bounds(
                    GRID_SIZE as int,
                    GRID_SIZE as int,
                    xu as int,
                    yu as int,
                );
            }
            self.grid.get(xu, yu).is_live()
        }
    }

    /// Count the live neighbors of this cell, not counting the cell
    /// itself: a single field read.
    fn count_live_neighbors(&self, x: i64, y: i64) -> (n: u8) {
        if x < -1 || y < -1 || x > BOARD_SIZE || y > BOARD_SIZE {
            proof {
                let s = self.live_set();
                assert forall|a: int, b: int|
                    x - 1 <= a <= x + 1 && y - 1 <= b <= y + 1 implies !(#[trigger] s.contains(
                    (a, b))) by {
                    if s.contains((a, b)) {
                        assert(self.live_at(a, b));
                    }
                }
                assert(!s.contains(((x - 1) as int, (y - 1) as int)));
                assert(!s.contains(((x - 1) as int, y as int)));
                assert(!s.contains(((x - 1) as int, (y + 1) as int)));
                assert(!s.contains((x as int, (y - 1) as int)));
                assert(!s.contains((x as int, (y + 1) as int)));
                assert(!s.contains(((x + 1) as int, (y - 1) as int)));
                assert(!s.contains(((x + 1) as int, y as int)));
                assert(!s.contains(((x + 1) as int, (y + 1) as int)));
            }
            0
        } else {
            let (xu, yu) = self.convert_coordinates(x, y);
            proof {
                crate::array_grid::lemma_flat_index_bounds(
                    GRID_SIZE as int,
                    GRID_SIZE as int,
                    xu as int,
                    yu as int,
                );
                self.lemma_grid_count_is_neighbor_count(x as int, y as int);
            }
            let cell = *self.grid.get(xu, yu);
            proof {
                assert(cell == self.cell_at(x + 1, y + 1));
                assert(cell.spec_count() == self.grid_count(x + 1, y + 1));
            }
            cell.neighbors_count()
        }
    }

    #[verifier::rlimit(100)]
    fn set_liveness(&mut self, x: i64, y: i64, is_live: bool) {
        let ghost s = old(self).live_set();
        let (xu, yu) = self.convert_coordinates(x, y);
        proof {
            crate::array_grid::lemma_flat_index_bounds(
                GRID_SIZE as int,
                GRID_SIZE as int,
                xu as int,
                yu as int,
            );
        }
        let current_alive = self.grid.get(xu, yu).is_live();
        if current_alive == is_live {
            // The toggle pairs the alive bit with the neighbor updates;
            // a write that does not change the bit must touch nothing.
            proof {
                if is_live {
                    assert(self.live_at(x as int, y as int));
                    assert(with_cell(s, x as int, y as int, true) =~= s);
                } else {
                    assert(!self.live_at(x as int, y as int));
                    assert(with_cell(s, x as int, y as int, false) =~= s);
                }
            }
            return;
        }
        let ghost before = *self;
        proof {
            // Each neighbor's count field is about to move by one; the
            // count invariant bounds it on the right side.
            assert forall|a: int, b: int|
                0 <= a < GRID_SIZE && 0 <= b < GRID_SIZE && touches(a, b, xu as int, yu as int)
                implies (#[trigger] before.cell_at(a, b)).wf() && (is_live
                ==> before.cell_at(a, b).spec_count() < 15) && (!is_live ==> before.cell_at(
                a,
                b,
            ).spec_count() >= 1) by {
                FixedBitfieldLifeBoard::lemma_grid_count_def(before, a, b);
                assert(before.cell_at(a, b).spec_count() == before.grid_count(a, b));
                assert(0 <= before.grid_count(a, b) <= 8);
                if !is_live {
                    assert(before.grid_flag(xu as int, yu as int) == 1);
                }
            }
        }
        // The paired toggle: the alive bit of the cell and the count
        // fields of its 8 neighbors always move together.  Before each
        // write, the cell about to be written is still as it started.
        self.adjust_neighbor(xu - 1, yu - 1, is_live);
        proof {
            assert(self.cell_at((xu - 1) as int, yu as int) == before.cell_at((xu - 1) as int, yu as int));
        }
        self.adjust_neighbor(xu - 1, yu, is_live);
        proof {
            assert(self.cell_at((xu - 1) as int, (yu + 1) as int) == before.cell_at((xu - 1) as int, (yu + 1) as int));
        }
        self.adjust_neighbor(xu - 1, yu + 1, is_live);
        proof {
            assert(self.cell_at(xu as int, (yu - 1) as int) == before.cell_at(xu as int, (yu - 1) as int));
        }
        self.adjust_neighbor(xu, yu - 1, is_live);
        proof {
            assert(self.cell_at(xu as int, yu as int) == before.cell_at(xu as int, yu as int));
        }
        self.write_alive(xu, yu, is_live);
        proof {
            assert(self.cell_at(xu as int, (yu + 1) as int) == before.cell_at(xu as int, (yu + 1) as int));
        }
        self.adjust_neighbor(xu, yu + 1, is_live);
        proof {
            assert(self.cell_at((xu + 1) as int, (yu - 1) as int) == before.cell_at((xu + 1) as int, (yu - 1) as int));
        }
        self.adjust_neighbor(xu + 1, yu - 1, is_live);
        proof {
            assert(self.cell_at((xu + 1) as int, yu as int) == before.cell_at((xu + 1) as int, yu as int));
        }
        self.adjust_neighbor(xu + 1, yu, is_live);
        proof {
            assert(self.cell_at((xu + 1) as int, (yu + 1) as int) == before.cell_at((xu + 1) as int, (yu + 1) as int));
        }
        self.adjust_neighbor(xu + 1, yu + 1, is_live);
        proof {
            let a0 = xu as int;
            let b0 = yu as int;
            // What each stored cell became, position by position.
            assert forall|a: int, b: int| 0 <= a < GRID_SIZE && 0 <= b < GRID_SIZE implies {
                &&& (#[trigger] self.cell_at(a, b)).wf()
                &&& self.cell_at(a, b).spec_is_live() == (if a == a0 && b == b0 {
                    is_live
                } else {
                    before.cell_at(a, b).spec_is_live()
                })
                &&& self.cell_at(a, b).spec_count() == before.cell_at(a, b).spec_count() + (
                if touches(a, b, a0, b0) {
                    if is_live {
                        1int
                    } else {
                        -1int
                    }
                } else {
                    0int
                })
            } by {
                if a != a0 - 1 || b != b0 - 1 {
                    crate::array_grid::lemma_flat_cells_distinct(
                        GRID_SIZE as int,
                        a,
                        b,
                        a0 - 1,
                        b0 - 1,
                    );
                }
                if a != a0 - 1 || b != b0 {
                    crate::array_grid::lemma_flat_cells_distinct(GRID_SIZE as int, a, b, a0 - 1, b0);
                }
                if a != a0 - 1 || b != b0 + 1 {
                    crate::array_grid::lemma_flat_cells_distinct(
                        GRID_SIZE as int,
                        a,
                        b,
                        a0 - 1,
                        b0 + 1,
                    );
                }
                if a != a0 || b != b0 - 1 {
                    crate::array_grid::lemma_flat_cells_distinct(GRID_SIZE as int, a, b, a0, b0 - 1);
                }
                if a != a0 || b != b0 {
                    crate::array_grid::lemma_flat_cells_distinct(GRID_SIZE as int, a, b, a0, b0);
                }
                if a != a0 || b != b0 + 1 {
                    crate::array_grid::lemma_flat_cells_distinct(GRID_SIZE as int, a, b, a0, b0 + 1);
                }
                if a != a0 + 1 || b != b0 - 1 {
                    crate::array_grid::lemma_flat_cells_distinct(
                        GRID_SIZE as int,
                        a,
                        b,
                        a0 + 1,
                        b0 - 1,
                    );
                }
                if a != a0 + 1 || b != b0 {
                    crate::array_grid::lemma_flat_cells_distinct(GRID_SIZE as int, a, b, a0 + 1, b0);
                }
                if a != a0 + 1 || b != b0 + 1 {
                    crate::array_grid::lemma_flat_cells_distinct(
                        GRID_SIZE as int,
                        a,
                        b,
                        a0 + 1,
                        b0 + 1,
                    );
                }
                if !touches(a, b, a0, b0) && (a != a0 || b != b0) {
                    assert(self.cell_at(a, b) == before.cell_at(a, b));
                }
                assert(self.cell_at(a, b).wf());
                assert(self.cell_at(a, b).spec_is_live() == (if a == a0 && b == b0 {
                    is_live
                } else {
                    before.cell_at(a, b).spec_is_live()
                }));
                assert(self.cell_at(a, b).spec_count() == before.cell_at(a, b).spec_count() + (
                if touches(a, b, a0, b0) {
                    if is_live {
                        1int
                    } else {
                        -1int
                    }
                } else {
                    0int
                }));
            }
            FixedBitfieldLifeBoard::lemma_toggle_preserves(before, *self, a0, b0, is_live);
        }
    }

    #[verifier::rlimit(90)]
    fn step_one(&mut self) {
        let ghost s = old(self).live_set();
        let snapshot = self.grid.clone();
        let mut x: i64 = 0;
        while x < BOARD_SIZE
            invariant
                self.inv(),
                snapshot.spec_col_size() == GRID_SIZE,
                snapshot.contents().len() == GRID_SIZE * GRID_SIZE,
                snapshot.contents() == old(self).grid.contents(),
                s == old(self).live_set(),
                old(self).inv(),
                0 <= x <= BOARD_SIZE,
                forall|a: int, b: int|
                    0 <= a < BOARD_SIZE && 0 <= b < BOARD_SIZE && (a < x) ==> #[trigger] self
                        .live_set().contains((a, b)) == crate::rules::next_alive(s, a, b),
                forall|a: int, b: int|
                    0 <= a < BOARD_SIZE && 0 <= b < BOARD_SIZE && (a >= x) ==> #[trigger] self
                        .live_set().contains((a, b)) == s.contains((a, b)),
            decreases BOARD_SIZE - x,
        {
            let mut y: i64 = 0;
            while y < BOARD_SIZE
                invariant
                    self.inv(),
                    snapshot.spec_col_size() == GRID_SIZE,
                    snapshot.contents().len() == GRID_SIZE * GRID_SIZE,
                    snapshot.contents() == old(self).grid.contents(),
                    s == old(self).live_set(),
                    old(self).inv(),
                    0 <= x < BOARD_SIZE,
                    0 <= y <= BOARD_SIZE,
                    forall|a: int, b: int|
                        0 <= a < BOARD_SIZE && 0 <= b < BOARD_SIZE && (a < x || (a == x && b < y))
                            ==> #[trigger] self.live_set().contains((a, b))
                            == crate::rules::next_alive(s, a, b),
                    forall|a: int, b: int|
                        0 <= a < BOARD_SIZE && 0 <= b < BOARD_SIZE && (a > x || (a == x && b >= y))
                            ==> #[trigger] self.live_set().contains((a, b)) == s.contains((a, b)),
                decreases BOARD_SIZE - y,
            {
                let (xu, yu) = self.convert_coordinates(x, y);
                proof {
                    crate::array_grid::lemma_flat_index_bounds(
                        GRID_SIZE as int,
                        GRID_SIZE as int,
                        xu as int,
                        yu as int,
                    );
                    old(self).lemma_grid_count_is_neighbor_count(x as int, y as int);
                    assert(old(self).cell_at(xu as int, yu as int) == snapshot.spec_cell(
                        xu as int,
                        yu as int,
                    ));
                    assert(s.contains((x as int, y as int)) == old(self).live_at(x as int, y as int));
                    assert(self.live_set().contains((x as int, y as int)) == s.contains(
                        (x as int, y as int),
                    ));
                }
                let old_cell = *snapshot.get(xu, yu);
                if old_cell.is_deadzone() {
                    // Dead with no live neighbors: cannot change this
                    // generation, and needs no write.
                } else {
                    let count = old_cell.neighbors_count();
                    if old_cell.is_live() {
                        if count != 2 && count != 3 {
                            self.set_liveness(x, y, false);
                        }
                    } else if count == 3 {
                        self.set_liveness(x, y, true);
                    }
                }
                proof {
                    assert(self.live_set().contains((x as int, y as int))
                        == crate::rules::next_alive(s, x as int, y as int));
                }
                y = y + 1;
            }
            x = x + 1;
        }
        proof {
            assert forall|a: int, b: int| #[trigger] self.live_set().contains((a, b)) == (
            crate::rules::next_alive(s, a, b) && old(self).kept(a, b)) by {
                if !(0 <= a < BOARD_SIZE && 0 <= b < BOARD_SIZE) {
                    assert(!self.live_at(a, b));
                }
            }
        }
    }

    fn get_stats(&self) -> (stats: Vec<(&'static str, String)>) {
        let count = self.get_live_count();
        let mut stats: Vec<(&'static str, String)> = Vec::new();
        stats.push(("implementation", "Fixed bitfield".to_owned()));
        stats.push(("live_cells", u64_string(count)));
        stats.push(("grid_size", u64_string(GRID_SIZE as u64)));
        stats.push(("board_size", u64_string(BOARD_SIZE as u64)));
        stats
    }
}

} // verus!
