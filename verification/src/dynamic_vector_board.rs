//! A `LifeBoard` over a dynamically growing dense grid of booleans.  It
//! tracks the allocated footprint (`board_extent`) and the tight bounding
//! box of the live cells (`live_extent`), reallocating with padding when a
//! write lands outside the footprint.

use vstd::prelude::*;
use crate::bool_grid::{GRID_DIM_LIMIT, count_grid, dead_grid, tight_extent_of, vec_grid_live};
use crate::decimal::u64_string;
use crate::geometry::{Rectangle, lemma_tight_expand, lemma_tight_first, tight_bounds};
use crate::life_board::LifeBoard;
use crate::rules::{
    CellSet, in_box, lemma_prefix_cell, lemma_prefix_column_wrap, lemma_prefix_init,
    lemma_step_within_box, live_flag, next_alive, prefix_set, with_cell, within_box,
};

verus! {

/// The coordinate range accepted for single-cell writes: wide enough for
/// any practical pattern, small enough that a dense allocation over it is
/// representable.
pub const COORD_LIMIT: i64 = 1_000_000_000;

/// As long as the live cells stay inside this box, growth and stepping
/// arithmetic stays inside the machine's integer types.
pub const EXTENT_LIMIT: i64 = 2_000_000_000;

/// Extra dead cells allocated on every side at each growth, to spread the
/// cost of reallocation over several writes.
const PADDING: i64 = 10;

pub struct DynamicVectorLifeBoard {
    grid: Vec<Vec<bool>>,
    /// The set of logical board squares that are currently allocated, i.e.
    /// what area of the board can be used without resizing `grid`.
    board_extent: Rectangle,
    /// The tight rectangle containing all live squares, in board
    /// coordinates.
    live_extent: Rectangle,
}

/// The rectangle lies inside the centered square of half-width `lim`.
pub open spec fn rect_bounded(r: Rectangle, lim: int) -> bool {
    -lim <= r.x_min && -lim <= r.y_min && r.spec_x_max() <= lim && r.spec_y_max() <= lim
}

impl DynamicVectorLifeBoard {
    pub closed spec fn spec_grid(self) -> Seq<Vec<bool>> {
        self.grid@
    }

    pub closed spec fn spec_board_extent(self) -> Rectangle {
        self.board_extent
    }

    pub closed spec fn spec_live_extent(self) -> Rectangle {
        self.live_extent
    }

    /// The buffers match the allocated extent, which stays small enough
    /// for counting and coordinate arithmetic.
    pub open spec fn dims_ok(self) -> bool {
        &&& self.spec_grid().len() == self.spec_board_extent().width
        &&& forall|i: int|
            0 <= i < self.spec_grid().len() ==> (#[trigger] self.spec_grid()[i])@.len()
                == self.spec_board_extent().height
        &&& self.spec_board_extent().width <= GRID_DIM_LIMIT
        &&& self.spec_board_extent().height <= GRID_DIM_LIMIT
    }

    pub fn live_extent(&self) -> (r: Rectangle)
        ensures
            r == self.spec_live_extent(),
    {
        self.live_extent
    }

    pub fn board_extent(&self) -> (r: Rectangle)
        ensures
            r == self.spec_board_extent(),
    {
        self.board_extent
    }

    /// A board with no live cells and no storage.
    pub fn empty() -> (board: DynamicVectorLifeBoard)
        ensures
            board.inv(),
            board.live_set() == Set::<(int, int)>::empty(),
            board.spec_live_extent().spec_is_empty(),
            board.spec_board_extent().spec_is_empty(),
            board.step_fits(),
            forall|x: int, y: int|
                #[trigger] board.writable(x, y) == (-COORD_LIMIT <= x <= COORD_LIMIT
                    && -COORD_LIMIT <= y <= COORD_LIMIT),
    {
        let board = DynamicVectorLifeBoard {
            grid: Vec::new(),
            board_extent: Rectangle::empty(),
            live_extent: Rectangle::empty(),
        };
        proof {
            assert(board.live_set() =~= Set::<(int, int)>::empty());
        }
        board
    }

    fn create_empty_grid(x_size: usize, y_size: usize) -> (g: Vec<Vec<bool>>)
        ensures
            g@.len() == x_size,
            forall|i: int| 0 <= i < x_size ==> (#[trigger] g@[i])@.len() == y_size,
            forall|i: int, j: int| 0 <= i < x_size && 0 <= j < y_size ==> !(#[trigger] g@[i][j]),
    {
        dead_grid(x_size, y_size)
    }

    fn convert_coordinates(&self, x: i64, y: i64) -> (p: (usize, usize))
        requires
            self.inv(),
            self.spec_board_extent().spec_contains(x as int, y as int),
        ensures
            p.0 == x - self.spec_board_extent().x_min,
            p.1 == y - self.spec_board_extent().y_min,
            p.0 < self.spec_grid().len(),
            p.1 < self.spec_grid()[p.0 as int]@.len(),
    {
        let xu = self.board_extent.to_grid_x(x);
        let yu = self.board_extent.to_grid_y(y);
        (xu, yu)
    }

    fn is_live_unchecked(&self, xu: usize, yu: usize) -> (n: u8)
        requires
            self.inv(),
            xu < self.spec_grid().len(),
            yu < self.spec_grid()[xu as int]@.len(),
        ensures
            (n == 1) == self.spec_grid()[xu as int]@[yu as int],
            n <= 1,
    {
        if self.grid[xu][yu] {
            1
        } else {
            0
        }
    }

    fn is_live_num(&self, x: i64, y: i64) -> (n: u8)
        requires
            self.inv(),
        ensures
            n as int == live_flag(self.live_set(), x as int, y as int),
    {
        if self.is_live(x, y) {
            1
        } else {
            0
        }
    }

    /// Like `is_live_num`, for coordinates that may stick out past `i64`
    /// by a cell: anything unrepresentable is dead.
    fn is_live_wide(&self, x: i128, y: i128) -> (n: u8)
        requires
            self.inv(),
        ensures
            n as int == live_flag(self.live_set(), x as int, y as int),
    {
        if x < i64::MIN as i128 || x > i64::MAX as i128 || y < i64::MIN as i128 || y
            > i64::MAX as i128 {
            proof {
                let be = self.spec_board_extent();
                if self.live_set().contains((x as int, y as int)) {
                    assert(0 <= x - be.x_min < self.spec_grid().len());
                    assert(0 <= y - be.y_min < be.height);
                }
            }
            0
        } else {
            self.is_live_num(x as i64, y as i64)
        }
    }

    /// The number of live cells on the board.
    pub fn get_live_count(&self) -> (count: u64)
        requires
            self.inv(),
        ensures
            self.live_set().finite(),
            count == self.live_set().len(),
    {
        count_grid(&self.grid, self.board_extent.x_min, self.board_extent.y_min)
    }

    /// Replace storage with a padded footprint that also covers `(x, y)`,
    /// carrying every live cell over.
    fn grow_to_include(&mut self, x: i64, y: i64)
        requires
            old(self).inv(),
            old(self).writable(x as int, y as int),
        ensures
            final(self).inv(),
            final(self).live_set() == old(self).live_set(),
            final(self).spec_live_extent() == old(self).spec_live_extent(),
            final(self).spec_board_extent().spec_contains(x as int, y as int),
    {
        let ghost s = old(self).live_set();
        let mut target = self.live_extent;
        target.expand_to_include(x, y);
        let new_be = Rectangle {
            x_min: target.x_min - PADDING,
            width: target.width + 2 * PADDING,
            y_min: target.y_min - PADDING,
            height: target.height + 2 * PADDING,
        };
        let w = new_be.width as usize;
        let h = new_be.height as usize;
        let mut new_grid = Self::create_empty_grid(w, h);
        let ghost old_be = self.board_extent;
        let ghost ox0 = old_be.x_min as int;
        let ghost oy0 = old_be.y_min as int;
        let ghost oy1 = oy0 + old_be.height as int;
        proof {
            lemma_prefix_init(s, ox0, oy0, oy1);
            assert forall|a: int, b: int| #[trigger] s.contains((a, b)) implies new_be
                .spec_contains(a, b) by {
                assert(in_box(
                    a,
                    b,
                    self.spec_live_extent().x_min as int,
                    self.spec_live_extent().y_min as int,
                    self.spec_live_extent().spec_x_max(),
                    self.spec_live_extent().spec_y_max(),
                ));
            }
        }
        let mut xu: usize = 0;
        while xu < self.grid.len()
            invariant
                self == old(self),
                self.inv(),
                s == self.live_set(),
                ox0 == self.spec_board_extent().x_min as int,
                oy0 == self.spec_board_extent().y_min as int,
                oy1 == oy0 + self.spec_board_extent().height as int,
                xu <= self.spec_grid().len(),
                new_be.wf(),
                !new_be.spec_is_empty(),
                rect_bounded(new_be, EXTENT_LIMIT + PADDING as int),
                w == new_be.width as int,
                h == new_be.height as int,
                forall|a: int, b: int| #[trigger] s.contains((a, b)) ==> new_be.spec_contains(a, b),
                new_grid@.len() == w,
                forall|i: int| 0 <= i < w ==> (#[trigger] new_grid@[i])@.len() == h,
                forall|a: int, b: int|
                    0 <= a < w && 0 <= b < h ==> #[trigger] new_grid@[a]@[b] == prefix_set(
                        s,
                        ox0,
                        oy0,
                        oy1,
                        ox0 + xu,
                        oy0,
                    ).contains((new_be.x_min + a, new_be.y_min + b)),
            decreases self.spec_grid().len() - xu,
        {
            let row_len = self.grid[xu].len();
            let mut yu: usize = 0;
            while yu < row_len
                invariant
                    self == old(self),
                    self.inv(),
                    s == self.live_set(),
                    ox0 == self.spec_board_extent().x_min as int,
                    oy0 == self.spec_board_extent().y_min as int,
                    oy1 == oy0 + self.spec_board_extent().height as int,
                    xu < self.spec_grid().len(),
                    row_len == self.spec_grid()[xu as int]@.len(),
                    row_len as int == oy1 - oy0,
                    yu <= row_len,
                    new_be.wf(),
                    !new_be.spec_is_empty(),
                    rect_bounded(new_be, EXTENT_LIMIT + PADDING as int),
                    w == new_be.width as int,
                    h == new_be.height as int,
                    forall|a: int, b: int|
                        #[trigger] s.contains((a, b)) ==> new_be.spec_contains(a, b),
                    new_grid@.len() == w,
                    forall|i: int| 0 <= i < w ==> (#[trigger] new_grid@[i])@.len() == h,
                    forall|a: int, b: int|
                        0 <= a < w && 0 <= b < h ==> #[trigger] new_grid@[a]@[b] == prefix_set(
                            s,
                            ox0,
                            oy0,
                            oy1,
                            ox0 + xu,
                            oy0 + yu,
                        ).contains((new_be.x_min + a, new_be.y_min + b)),
                decreases row_len - yu,
            {
                let ghost before = prefix_set(s, ox0, oy0, oy1, ox0 + xu, oy0 + yu);
                let ghost after = prefix_set(s, ox0, oy0, oy1, ox0 + xu, oy0 + yu + 1);
                if self.is_live_unchecked(xu, yu) == 1 {
                    proof {
                        assert(s.contains((ox0 + xu, oy0 + yu)));
                        assert(after =~= before.insert((ox0 + xu, oy0 + yu)));
                    }
                    let bx = self.board_extent.x_min + xu as i64;
                    let by = self.board_extent.y_min + yu as i64;
                    let nx = new_be.to_grid_x(bx);
                    let ny = new_be.to_grid_y(by);
                    new_grid[nx].set(ny, true);
                } else {
                    proof {
                        assert(!s.contains((ox0 + xu, oy0 + yu)));
                        assert(after =~= before);
                    }
                }
                yu = yu + 1;
            }
            proof {
                lemma_prefix_column_wrap(s, ox0, oy0, oy1, ox0 + xu);
            }
            xu = xu + 1;
        }
        proof {
            let full = prefix_set(s, ox0, oy0, oy1, ox0 + self.spec_grid().len() as int, oy0);
            assert(full =~= s);
        }
        self.grid = new_grid;
        self.board_extent = new_be;
        proof {
            assert(self.live_set() =~= s);
        }
    }

    /// Callers that keep the live cells inside a bounded box may always
    /// write inside the coordinate range and step the board.
    pub proof fn bounded_live_implies_ready(&self, k: int)
        requires
            self.inv(),
            0 <= k <= EXTENT_LIMIT - 1,
            within_box(self.live_set(), -k, -k, k, k),
        ensures
            self.step_fits(),
            forall|x: int, y: int|
                -COORD_LIMIT <= x <= COORD_LIMIT && -COORD_LIMIT <= y <= COORD_LIMIT
                    ==> self.writable(x, y),
    {
        let le = self.spec_live_extent();
        if !le.spec_is_empty() {
            let wx0 = choose|b: int| self.live_set().contains((le.x_min as int, b));
            let wx1 = choose|b: int| self.live_set().contains((le.spec_x_max(), b));
            let wy0 = choose|a: int| self.live_set().contains((a, le.y_min as int));
            let wy1 = choose|a: int| self.live_set().contains((a, le.spec_y_max()));
            assert(self.live_set().contains((le.x_min as int, wx0)));
            assert(self.live_set().contains((le.spec_x_max(), wx1)));
            assert(self.live_set().contains((wy0, le.y_min as int)));
            assert(self.live_set().contains((wy1, le.spec_y_max())));
        }
    }
}

impl LifeBoard for DynamicVectorLifeBoard {
    open spec fn inv(&self) -> bool {
        &&& self.dims_ok()
        &&& self.spec_board_extent().wf()
        &&& self.spec_live_extent().wf()
        &&& tight_bounds(
            self.live_set(),
            self.spec_live_extent().x_min as int,
            self.spec_live_extent().y_min as int,
            self.spec_live_extent().spec_x_max(),
            self.spec_live_extent().spec_y_max(),
        )
        &&& (!self.spec_live_extent().spec_is_empty() ==> {
            &&& !self.spec_board_extent().spec_is_empty()
            &&& self.spec_board_extent().x_min <= self.spec_live_extent().x_min
            &&& self.spec_live_extent().spec_x_max() <= self.spec_board_extent().spec_x_max()
            &&& self.spec_board_extent().y_min <= self.spec_live_extent().y_min
            &&& self.spec_live_extent().spec_y_max() <= self.spec_board_extent().spec_y_max()
        })
    }

    open spec fn live_set(&self) -> CellSet {
        vec_grid_live(
            self.spec_grid(),
            self.spec_board_extent().x_min as int,
            self.spec_board_extent().y_min as int,
        )
    }

    open spec fn writable(&self, x: int, y: int) -> bool {
        &&& -COORD_LIMIT <= x <= COORD_LIMIT
        &&& -COORD_LIMIT <= y <= COORD_LIMIT
        &&& rect_bounded(self.spec_live_extent(), EXTENT_LIMIT as int)
    }

    open spec fn kept(&self, x: int, y: int) -> bool {
        true
    }

    open spec fn step_fits(&self) -> bool {
        rect_bounded(self.spec_live_extent(), EXTENT_LIMIT - 1)
    }

    fn is_live(&self, x: i64, y: i64) -> (r: bool) {
        // The live extent is always at least as tight as the footprint, so
        // checking it first also skips the grid lookup for most dead cells.
        if !self.live_extent.contains_point(x, y) {
            proof {
                if self.live_set().contains((x as int, y as int)) {
                    assert(in_box(
                        x as int,
                        y as int,
                        self.spec_live_extent().x_min as int,
                        self.spec_live_extent().y_min as int,
                        self.spec_live_extent().spec_x_max(),
                        self.spec_live_extent().spec_y_max(),
                    ));
                }
            }
            false
        } else {
            let (xu, yu) = self.convert_coordinates(x, y);
            self.grid[xu][yu]
        }
    }

    fn set_liveness(&mut self, x: i64, y: i64, is_live: bool) {
        if is_live {
            let ghost s = old(self).live_set();
            if !self.board_extent.contains_point(x, y) {
                self.grow_to_include(x, y);
            }
            let (xu, yu) = self.convert_coordinates(x, y);
            self.grid[xu].set(yu, true);
            proof {
                assert(self.live_set() =~= s.insert((x as int, y as int)));
                let le = self.spec_live_extent();
                if le.spec_is_empty() {
                    assert forall|a: int, b: int| !(#[trigger] s.contains((a, b))) by {
                        if s.contains((a, b)) {
                            assert(in_box(
                                a,
                                b,
                                le.x_min as int,
                                le.y_min as int,
                                le.spec_x_max(),
                                le.spec_y_max(),
                            ));
                        }
                    }
                    lemma_tight_first(s, x as int, y as int);
                } else {
                    lemma_tight_expand(
                        s,
                        le.x_min as int,
                        le.y_min as int,
                        le.spec_x_max(),
                        le.spec_y_max(),
                        x as int,
                        y as int,
                    );
                }
            }
            self.live_extent.expand_to_include(x, y);
        } else {
            let ghost s = old(self).live_set();
            if !self.board_extent.contains_point(x, y) {
                // The cell is outside the footprint, hence already dead.
                proof {
                    assert(!s.contains((x as int, y as int)));
                    assert(with_cell(s, x as int, y as int, false) =~= s);
                }
                return;
            }
            let (xu, yu) = self.convert_coordinates(x, y);
            self.grid[xu].set(yu, false);
            proof {
                assert(self.live_set() =~= s.remove((x as int, y as int)));
            }
            let fresh = tight_extent_of(
                &self.grid,
                self.board_extent.x_min,
                self.board_extent.y_min,
            );
            proof {
                // The recomputed extent lies inside the old one: every
                // remaining live cell was already live before the write.
                let le = self.spec_live_extent();
                let t = self.live_set();
                if !fresh.spec_is_empty() {
                    let wx0 = choose|b: int| t.contains((fresh.x_min as int, b));
                    let wx1 = choose|b: int| t.contains((fresh.spec_x_max(), b));
                    let wy0 = choose|a: int| t.contains((a, fresh.y_min as int));
                    let wy1 = choose|a: int| t.contains((a, fresh.spec_y_max()));
                    assert(s.contains((fresh.x_min as int, wx0)));
                    assert(s.contains((fresh.spec_x_max(), wx1)));
                    assert(s.contains((wy0, fresh.y_min as int)));
                    assert(s.contains((wy1, fresh.spec_y_max())));
                }
            }
            self.live_extent = fresh;
        }
    }

    /// Count the live neighbors of this cell, not counting the cell
    /// itself.
    fn count_live_neighbors(&self, x: i64, y: i64) -> (n: u8) {
        let xi = x as i128;
        let yi = y as i128;
        self.is_live_wide(xi - 1, yi - 1) + self.is_live_wide(xi - 1, yi) + self.is_live_wide(
            xi - 1,
            yi + 1,
        ) + self.is_live_wide(xi, yi - 1)
        // the cell itself, at (x, y), is deliberately not counted
         + self.is_live_wide(xi, yi + 1) + self.is_live_wide(xi + 1, yi - 1) + self.is_live_wide(
            xi + 1,
            yi,
        ) + self.is_live_wide(xi + 1, yi + 1)
    }

    fn step_one(&mut self) {
        let ghost s = old(self).live_set();
        if self.board_extent.is_empty() {
            // Structurally empty board: an explicit no-op.
            proof {
                assert(self.spec_grid().len() == 0);
                assert(s =~= Set::<(int, int)>::empty());
                assert forall|x: int, y: int| #[trigger] self.live_set().contains((x, y)) == (
                next_alive(s, x, y) && old(self).kept(x, y)) by {
                    assert(!s.contains((x - 1, y - 1)));
                    assert(!s.contains((x - 1, y)));
                    assert(!s.contains((x - 1, y + 1)));
                    assert(!s.contains((x, y - 1)));
                    assert(!s.contains((x, y + 1)));
                    assert(!s.contains((x + 1, y - 1)));
                    assert(!s.contains((x + 1, y)));
                    assert(!s.contains((x + 1, y + 1)));
                    assert(!self.live_set().contains((x, y)));
                }
            }
            return;
        }
        // One cell of margin on every side of the live extent: a cell can
        // only come alive within one cell of a live one.
        let le = self.live_extent;
        let new_be = Rectangle {
            x_min: le.x_min - 1,
            width: le.width + 2,
            y_min: le.y_min - 1,
            height: le.height + 2,
        };
        let w = new_be.width as usize;
        let h = new_be.height as usize;
        proof {
            lemma_step_within_box(
                s,
                le.x_min as int,
                le.y_min as int,
                le.spec_x_max(),
                le.spec_y_max(),
            );
        }
        let mut new_grid: Vec<Vec<bool>> = Vec::new();
        let mut xu: usize = 0;
        while xu < w
            invariant
                self == old(self),
                self.inv(),
                self.step_fits(),
                s == self.live_set(),
                le == self.spec_live_extent(),
                new_be.x_min == le.x_min - 1 && new_be.width == le.width + 2,
                new_be.y_min == le.y_min - 1 && new_be.height == le.height + 2,
                new_be.wf(),
                w == new_be.width as int,
                h == new_be.height as int,
                within_box(
                    crate::rules::step_of(s),
                    new_be.x_min as int,
                    new_be.y_min as int,
                    new_be.spec_x_max(),
                    new_be.spec_y_max(),
                ),
                xu <= w,
                new_grid@.len() == xu,
                forall|a: int| 0 <= a < xu ==> (#[trigger] new_grid@[a])@.len() == h,
                forall|a: int, b: int|
                    0 <= a < xu && 0 <= b < h ==> #[trigger] new_grid@[a]@[b] == next_alive(
                        s,
                        new_be.x_min + a,
                        new_be.y_min + b,
                    ),
            decreases w - xu,
        {
            let mut row: Vec<bool> = Vec::new();
            let mut yu: usize = 0;
            while yu < h
                invariant
                    self == old(self),
                    self.inv(),
                    self.step_fits(),
                    s == self.live_set(),
                    new_be.wf(),
                    rect_bounded(new_be, EXTENT_LIMIT as int),
                    w == new_be.width as int,
                    h == new_be.height as int,
                    xu < w,
                    yu <= h,
                    row@.len() == yu,
                    forall|b: int|
                        0 <= b < yu ==> #[trigger] row@[b] == next_alive(
                            s,
                            new_be.x_min + xu,
                            new_be.y_min + b,
                        ),
                decreases h - yu,
            {
                let xi = new_be.x_min + xu as i64;
                let yi = new_be.y_min + yu as i64;
                let count = self.count_live_neighbors(xi, yi);
                let live = count == 3 || (count == 2 && self.is_live(xi, yi));
                row.push(live);
                yu = yu + 1;
            }
            new_grid.push(row);
            xu = xu + 1;
        }
        let new_live = tight_extent_of(&new_grid, new_be.x_min, new_be.y_min);
        self.grid = new_grid;
        self.board_extent = new_be;
        self.live_extent = new_live;
        proof {
            assert forall|x: int, y: int| #[trigger] self.live_set().contains((x, y)) == (
            next_alive(s, x, y) && old(self).kept(x, y)) by {
                if in_box(
                    x,
                    y,
                    new_be.x_min as int,
                    new_be.y_min as int,
                    new_be.spec_x_max(),
                    new_be.spec_y_max(),
                ) {
                } else {
                    assert(!crate::rules::step_of(s).contains((x, y)));
                }
            }
            // The recomputed tight extent lies inside the new footprint.
            let t = self.live_set();
            if !self.spec_live_extent().spec_is_empty() {
                let fresh = self.spec_live_extent();
                let wx0 = choose|b: int| t.contains((fresh.x_min as int, b));
                let wx1 = choose|b: int| t.contains((fresh.spec_x_max(), b));
                let wy0 = choose|a: int| t.contains((a, fresh.y_min as int));
                let wy1 = choose|a: int| t.contains((a, fresh.spec_y_max()));
                assert(t.contains((fresh.x_min as int, wx0)));
                assert(t.contains((fresh.spec_x_max(), wx1)));
                assert(t.contains((wy0, fresh.y_min as int)));
                assert(t.contains((wy1, fresh.spec_y_max())));
            }
        }
    }

    fn get_stats(&self) -> (stats: Vec<(&'static str, String)>) {
        let count = self.get_live_count();
        let mut stats: Vec<(&'static str, String)> = Vec::new();
        stats.push(("implementation", "Dynamic vector".to_owned()));
        stats.push(("live_cells", u64_string(count)));
        stats.push(("board_extent", self.board_extent.describe()));
        stats.push(("live_extent", self.live_extent.describe()));
        stats
    }
}

} // verus!
