//! A `LifeBoard` over a dynamically growing flat array of cells, one byte
//! per cell.  The same extent bookkeeping as the vector-of-rows backend,
//! with row-major flat storage instead of nested vectors.

use vstd::prelude::*;
use crate::array_grid::{ArrayGrid, lemma_flat_cells_distinct, lemma_flat_index_bounds};
use crate::bool_grid::GRID_DIM_LIMIT;
use crate::decimal::u64_string;
use crate::dynamic_vector_board::rect_bounded;
use crate::geometry::{Rectangle, lemma_tight_expand, lemma_tight_first, tight_bounds};
use crate::life_board::LifeBoard;
use crate::rules::{
    CellSet, in_box, lemma_prefix_cell, lemma_prefix_column_wrap, lemma_prefix_init,
    lemma_step_within_box, live_flag, next_alive, prefix_set, with_cell, within_box,
};

verus! {

/// The coordinate range accepted for single-cell writes.  Tighter than
/// the vector-of-rows backend: this backend addresses one flat buffer of
/// the whole extent squared, which must stay inside `usize`.
pub const COORD_LIMIT: i64 = 16_000;

/// As long as the live cells stay inside this box, growth and stepping
/// arithmetic stays inside the machine's integer types.
pub const EXTENT_LIMIT: i64 = 32_000;

/// Extra dead cells allocated on every side at each growth.
const PADDING: i64 = 10;

pub struct DynamicArray2dLifeBoard {
    grid: ArrayGrid<u8>,
    /// The set of logical board squares that are currently allocated; the
    /// physical `grid` has the same size but is 0-indexed.
    board_extent: Rectangle,
    /// Rectangle containing all the live squares, in board coordinates.
    live_extent: Rectangle,
}

/// The set of live board coordinates denoted by a flat grid of `w`
/// columns whose cell `(0, 0)` sits at board coordinate `(x_min, y_min)`.
pub open spec fn flat_grid_live(g: ArrayGrid<u8>, x_min: int, y_min: int, w: int) -> CellSet {
    Set::new(
        |p: (int, int)|
            {
                &&& 0 <= p.0 - x_min < w
                &&& 0 <= p.1 - y_min < g.spec_col_size()
                &&& g.spec_cell(p.0 - x_min, p.1 - y_min) == 1
            },
    )
}

/// The grid is `w` columns of `col_size` cells holding only 0 or 1.
pub open spec fn flat_grid_ok(g: ArrayGrid<u8>, w: int) -> bool {
    &&& g.contents().len() == w * g.spec_col_size()
    &&& 0 <= w <= GRID_DIM_LIMIT
    &&& 0 <= g.spec_col_size() <= GRID_DIM_LIMIT
    &&& forall|i: int| 0 <= i < g.contents().len() ==> (#[trigger] g.contents()[i]) <= 1
}

/// Count the cells set to 1 in a flat grid.
fn count_flat(g: &ArrayGrid<u8>, x_min: i64, y_min: i64, w: usize) -> (count: u64)
    requires
        flat_grid_ok(*g, w as int),
        x_min + w <= i64::MAX,
        y_min + g.spec_col_size() <= i64::MAX,
    ensures
        flat_grid_live(*g, x_min as int, y_min as int, w as int).finite(),
        count == flat_grid_live(*g, x_min as int, y_min as int, w as int).len(),
{
    let ghost s = flat_grid_live(*g, x_min as int, y_min as int, w as int);
    let ghost x0 = x_min as int;
    let ghost y0 = y_min as int;
    let h = g.col_size();
    let ghost y1 = y0 + h as int;
    proof {
        lemma_prefix_init(s, x0, y0, y1);
    }
    let mut count: u64 = 0;
    let mut xu: usize = 0;
    while xu < w
        invariant
            flat_grid_ok(*g, w as int),
            s == flat_grid_live(*g, x0, y0, w as int),
            x0 == x_min as int,
            y0 == y_min as int,
            h == g.spec_col_size(),
            y1 == y0 + h as int,
            xu <= w,
            w <= GRID_DIM_LIMIT,
            prefix_set(s, x0, y0, y1, x0 + xu, y0).finite(),
            count == prefix_set(s, x0, y0, y1, x0 + xu, y0).len(),
            count <= (xu as int) * (GRID_DIM_LIMIT as int),
        decreases w - xu,
    {
        let mut yu: usize = 0;
        while yu < h
            invariant
                flat_grid_ok(*g, w as int),
                s == flat_grid_live(*g, x0, y0, w as int),
                x0 == x_min as int,
                y0 == y_min as int,
                h == g.spec_col_size(),
                y1 == y0 + h as int,
                xu < w,
                w <= GRID_DIM_LIMIT,
                yu <= h,
                prefix_set(s, x0, y0, y1, x0 + xu, y0 + yu).finite(),
                count == prefix_set(s, x0, y0, y1, x0 + xu, y0 + yu).len(),
                count <= (xu as int) * (GRID_DIM_LIMIT as int) + yu,
            decreases h - yu,
        {
            proof {
                lemma_prefix_cell(s, x0, y0, y1, x0 + xu, y0 + yu);
                lemma_flat_index_bounds(w as int, h as int, xu as int, yu as int);
            }
            if *g.get(xu, yu) == 1 {
                proof {
                    assert(s.contains((x0 + xu, y0 + yu)));
                }
                count = count + 1;
            } else {
                proof {
                    assert(!s.contains((x0 + xu, y0 + yu)));
                }
            }
            yu = yu + 1;
        }
        proof {
            lemma_prefix_column_wrap(s, x0, y0, y1, x0 + xu);
            assert((xu + 1) * (GRID_DIM_LIMIT as int) == (xu as int) * (GRID_DIM_LIMIT as int)
                + GRID_DIM_LIMIT) by (nonlinear_arith);
        }
        xu = xu + 1;
    }
    proof {
        assert(s =~= prefix_set(s, x0, y0, y1, x0 + w, y0));
    }
    count
}

/// The tight bounding rectangle of the cells set to 1 in a flat grid; the
/// empty rectangle when none is.
fn tight_extent_of_flat(g: &ArrayGrid<u8>, x_min: i64, y_min: i64, w: usize) -> (r: Rectangle)
    requires
        flat_grid_ok(*g, w as int),
        x_min + w <= i64::MAX,
        y_min + g.spec_col_size() <= i64::MAX,
    ensures
        r.wf(),
        tight_bounds(
            flat_grid_live(*g, x_min as int, y_min as int, w as int),
            r.x_min as int,
            r.y_min as int,
            r.spec_x_max(),
            r.spec_y_max(),
        ),
        !r.spec_is_empty() ==> x_min <= r.x_min && r.spec_x_max() < x_min + w && y_min <= r.y_min
            && r.spec_y_max() < y_min + g.spec_col_size(),
{
    let ghost s = flat_grid_live(*g, x_min as int, y_min as int, w as int);
    let ghost x0 = x_min as int;
    let ghost y0 = y_min as int;
    let h = g.col_size();
    let ghost y1 = y0 + h as int;
    proof {
        lemma_prefix_init(s, x0, y0, y1);
    }
    let mut r = Rectangle::empty();
    let mut xu: usize = 0;
    while xu < w
        invariant
            flat_grid_ok(*g, w as int),
            s == flat_grid_live(*g, x0, y0, w as int),
            x0 == x_min as int,
            y0 == y_min as int,
            h == g.spec_col_size(),
            y1 == y0 + h as int,
            x0 + w <= i64::MAX,
            y1 <= i64::MAX,
            xu <= w,
            w <= GRID_DIM_LIMIT,
            r.wf(),
            tight_bounds(
                prefix_set(s, x0, y0, y1, x0 + xu, y0),
                r.x_min as int,
                r.y_min as int,
                r.spec_x_max(),
                r.spec_y_max(),
            ),
            !r.spec_is_empty() ==> x0 <= r.x_min && r.spec_x_max() < x0 + w && y0 <= r.y_min
                && r.spec_y_max() < y1,
        decreases w - xu,
    {
        let mut yu: usize = 0;
        while yu < h
            invariant
                flat_grid_ok(*g, w as int),
                s == flat_grid_live(*g, x0, y0, w as int),
                x0 == x_min as int,
                y0 == y_min as int,
                h == g.spec_col_size(),
                y1 == y0 + h as int,
                x0 + w <= i64::MAX,
                y1 <= i64::MAX,
                xu < w,
                w <= GRID_DIM_LIMIT,
                yu <= h,
                r.wf(),
                tight_bounds(
                    prefix_set(s, x0, y0, y1, x0 + xu, y0 + yu),
                    r.x_min as int,
                    r.y_min as int,
                    r.spec_x_max(),
                    r.spec_y_max(),
                ),
                !r.spec_is_empty() ==> x0 <= r.x_min && r.spec_x_max() < x0 + w && y0 <= r.y_min
                    && r.spec_y_max() < y1,
            decreases h - yu,
        {
            let ghost before = prefix_set(s, x0, y0, y1, x0 + xu, y0 + yu);
            let ghost after = prefix_set(s, x0, y0, y1, x0 + xu, y0 + yu + 1);
            proof {
                lemma_flat_index_bounds(w as int, h as int, xu as int, yu as int);
            }
            if *g.get(xu, yu) == 1 {
                let x = x_min + xu as i64;
                let y = y_min + yu as i64;
                proof {
                    assert(s.contains((x as int, y as int)));
                    assert(after =~= before.insert((x as int, y as int)));
                    if r.spec_is_empty() {
                        assert forall|a: int, b: int| !(#[trigger] before.contains((a, b))) by {
                            if before.contains((a, b)) {
                                assert(in_box(
                                    a,
                                    b,
                                    r.x_min as int,
                                    r.y_min as int,
                                    r.spec_x_max(),
                                    r.spec_y_max(),
                                ));
                            }
                        }
                        lemma_tight_first(before, x as int, y as int);
                    } else {
                        lemma_tight_expand(
                            before,
                            r.x_min as int,
                            r.y_min as int,
                            r.spec_x_max(),
                            r.spec_y_max(),
                            x as int,
                            y as int,
                        );
                    }
                }
                r.expand_to_include(x, y);
            } else {
                proof {
                    assert(!s.contains((x0 + xu, y0 + yu)));
                    assert(after =~= before);
                }
            }
            yu = yu + 1;
        }
        proof {
            lemma_prefix_column_wrap(s, x0, y0, y1, x0 + xu);
        }
        xu = xu + 1;
    }
    proof {
        assert(s =~= prefix_set(s, x0, y0, y1, x0 + w, y0));
    }
    r
}

impl DynamicArray2dLifeBoard {
    pub closed spec fn spec_grid(self) -> ArrayGrid<u8> {
        self.grid
    }

    pub closed spec fn spec_board_extent(self) -> Rectangle {
        self.board_extent
    }

    pub closed spec fn spec_live_extent(self) -> Rectangle {
        self.live_extent
    }

    pub open spec fn dims_ok(self) -> bool {
        &&& flat_grid_ok(self.spec_grid(), self.spec_board_extent().width as int)
        &&& self.spec_grid().spec_col_size() == self.spec_board_extent().height
    }

    pub fn live_extent(&self) -> (r: Rectangle)
        ensures
            r == self.spec_live_extent(),
    {
        self.live_extent
    }

    pub fn board_extent(&self) -> (r: Rectangle)
        ensures
            r == self.spec_board_extent(),
    {
        self.board_extent
    }

    /// A board with no live cells and no storage.
    pub fn empty() -> (board: DynamicArray2dLifeBoard)
        ensures
            board.inv(),
            board.live_set() == Set::<(int, int)>::empty(),
            board.spec_live_extent().spec_is_empty(),
            board.spec_board_extent().spec_is_empty(),
            board.step_fits(),
            forall|x: int, y: int|
                #[trigger] board.writable(x, y) == (-COORD_LIMIT <= x <= COORD_LIMIT
                    && -COORD_LIMIT <= y <= COORD_LIMIT),
    {
        let board = DynamicArray2dLifeBoard {
            grid: ArrayGrid::empty(),
            board_extent: Rectangle::empty(),
            live_extent: Rectangle::empty(),
        };
        proof {
            assert(board.live_set() =~= Set::<(int, int)>::empty());
        }
        board
    }

    fn is_live_unchecked(&self, xu: usize, yu: usize) -> (n: u8)
        requires
            self.inv(),
            xu < self.spec_board_extent().width,
            yu < self.spec_board_extent().height,
        ensures
            n as int == live_flag(
                self.live_set(),
                self.spec_board_extent().x_min + xu,
                self.spec_board_extent().y_min + yu,
            ),
    {
        proof {
            lemma_flat_index_bounds(
                self.spec_board_extent().width as int,
                self.spec_board_extent().height as int,
                xu as int,
                yu as int,
            );
        }
        *self.grid.get(xu, yu)
    }

    fn is_live_num(&self, x: i64, y: i64) -> (n: u8)
        requires
            self.inv(),
        ensures
            n as int == live_flag(self.live_set(), x as int, y as int),
    {
        if self.is_live(x, y) {
            1
        } else {
            0
        }
    }

    /// Like `is_live_num`, for coordinates that may stick out past `i64`
    /// by a cell: anything unrepresentable is dead.
    fn is_live_wide(&self, x: i128, y: i128) -> (n: u8)
        requires
            self.inv(),
        ensures
            n as int == live_flag(self.live_set(), x as int, y as int),
    {
        if x < i64::MIN as i128 || x > i64::MAX as i128 || y < i64::MIN as i128 || y
            > i64::MAX as i128 {
            proof {
                let be = self.spec_board_extent();
                if self.live_set().contains((x as int, y as int)) {
                    assert(0 <= x - be.x_min < be.width);
                    assert(0 <= y - be.y_min < be.height);
                }
            }
            0
        } else {
            self.is_live_num(x as i64, y as i64)
        }
    }

    /// The number of live cells on the board.
    pub fn get_live_count(&self) -> (count: u64)
        requires
            self.inv(),
        ensures
            self.live_set().finite(),
            count == self.live_set().len(),
    {
        let w = self.board_extent.width as usize;
        count_flat(&self.grid, self.board_extent.x_min, self.board_extent.y_min, w)
    }

    /// Replace storage with a padded footprint that also covers `(x, y)`,
    /// carrying every live cell over.
    #[verifier::rlimit(60)]
    fn grow_to_include(&mut self, x: i64, y: i64)
        requires
            old(self).inv(),
            old(self).writable(x as int, y as int),
        ensures
            final(self).inv(),
            final(self).live_set() == old(self).live_set(),
            final(self).spec_live_extent() == old(self).spec_live_extent(),
            final(self).spec_board_extent().spec_contains(x as int, y as int),
    {
        let ghost s = old(self).live_set();
        let mut target = self.live_extent;
        target.expand_to_include(x, y);
        let new_be = Rectangle {
            x_min: target.x_min - PADDING,
            width: target.width + 2 * PADDING,
            y_min: target.y_min - PADDING,
            height: target.height + 2 * PADDING,
        };
        let w = new_be.width as usize;
        let h = new_be.height as usize;
        proof {
            assert((w as int) * (h as int) <= usize::MAX) by (nonlinear_arith)
                requires
                    0 <= w as int <= 64_021int && 0 <= h as int <= 64_021int && usize::MAX
                        >= 0xffff_ffff,
            ;
        }
        let mut new_grid: ArrayGrid<u8> = ArrayGrid::create(w, h, 0);
        proof {
            assert forall|a: int, b: int|
                0 <= a < w && 0 <= b < h implies (#[trigger] new_grid.spec_cell(a, b)) == 0 by {
                lemma_flat_index_bounds(w as int, h as int, a, b);
            }
        }
        let ghost old_be = self.board_extent;
        let ghost ox0 = old_be.x_min as int;
        let ghost oy0 = old_be.y_min as int;
        let ghost oy1 = oy0 + old_be.height as int;
        let old_w = self.board_extent.width as usize;
        let old_h = self.board_extent.height as usize;
        proof {
            lemma_prefix_init(s, ox0, oy0, oy1);
            assert forall|a: int, b: int| #[trigger] s.contains((a, b)) implies new_be
                .spec_contains(a, b) by {
                assert(in_box(
                    a,
                    b,
                    self.spec_live_extent().x_min as int,
                    self.spec_live_extent().y_min as int,
                    self.spec_live_extent().spec_x_max(),
                    self.spec_live_extent().spec_y_max(),
                ));
            }
        }
        let mut xu: usize = 0;
        while xu < old_w
            invariant
                self == old(self),
                self.inv(),
                s == self.live_set(),
                ox0 == self.spec_board_extent().x_min as int,
                oy0 == self.spec_board_extent().y_min as int,
                oy1 == oy0 + self.spec_board_extent().height as int,
                old_w == self.spec_board_extent().width as int,
                old_h == self.spec_board_extent().height as int,
                xu <= old_w,
                new_be.wf(),
                !new_be.spec_is_empty(),
                rect_bounded(new_be, EXTENT_LIMIT + PADDING as int),
                w == new_be.width as int,
                h == new_be.height as int,
                forall|a: int, b: int| #[trigger] s.contains((a, b)) ==> new_be.spec_contains(a, b),
                new_grid.spec_col_size() == h,
                new_grid.contents().len() == (w as int) * (h as int),
                forall|i: int|
                    0 <= i < new_grid.contents().len() ==> (#[trigger] new_grid.contents()[i]) <= 1,
                forall|a: int, b: int|
                    0 <= a < w && 0 <= b < h ==> ((#[trigger] new_grid.spec_cell(a, b)) == 1)
                        == prefix_set(s, ox0, oy0, oy1, ox0 + xu, oy0).contains(
                        (new_be.x_min + a, new_be.y_min + b),
                    ),
            decreases old_w - xu,
        {
            let mut yu: usize = 0;
            while yu < old_h
                invariant
                    self == old(self),
                    self.inv(),
                    s == self.live_set(),
                    ox0 == self.spec_board_extent().x_min as int,
                    oy0 == self.spec_board_extent().y_min as int,
                    oy1 == oy0 + self.spec_board_extent().height as int,
                    old_w == self.spec_board_extent().width as int,
                    old_h == self.spec_board_extent().height as int,
                    xu < old_w,
                    yu <= old_h,
                    new_be.wf(),
                    !new_be.spec_is_empty(),
                    rect_bounded(new_be, EXTENT_LIMIT + PADDING as int),
                    w == new_be.width as int,
                    h == new_be.height as int,
                    forall|a: int, b: int|
                        #[trigger] s.contains((a, b)) ==> new_be.spec_contains(a, b),
                    new_grid.spec_col_size() == h,
                    new_grid.contents().len() == (w as int) * (h as int),
                    forall|i: int|
                        0 <= i < new_grid.contents().len() ==> (#[trigger] new_grid.contents()[i])
                            <= 1,
                    forall|a: int, b: int|
                        0 <= a < w && 0 <= b < h ==> ((#[trigger] new_grid.spec_cell(a, b)) == 1)
                            == prefix_set(s, ox0, oy0, oy1, ox0 + xu, oy0 + yu).contains(
                            (new_be.x_min + a, new_be.y_min + b),
                        ),
                decreases old_h - yu,
            {
                let ghost before = prefix_set(s, ox0, oy0, oy1, ox0 + xu, oy0 + yu);
                let ghost after = prefix_set(s, ox0, oy0, oy1, ox0 + xu, oy0 + yu + 1);
                if self.is_live_unchecked(xu, yu) == 1 {
                    proof {
                        assert(s.contains((ox0 + xu, oy0 + yu)));
                        assert(after =~= before.insert((ox0 + xu, oy0 + yu)));
                    }
                    let bx = self.board_extent.x_min + xu as i64;
                    let by = self.board_extent.y_min + yu as i64;
                    let nx = new_be.to_grid_x(bx);
                    let ny = new_be.to_grid_y(by);
                    proof {
                        lemma_flat_index_bounds(w as int, h as int, nx as int, ny as int);
                    }
                    let ghost prev = new_grid;
                    new_grid.set(nx, ny, 1);
                    proof {
                        assert forall|a: int, b: int| 0 <= a < w && 0 <= b < h implies ((
                        #[trigger] new_grid.spec_cell(a, b)) == 1) == after.contains(
                            (new_be.x_min + a, new_be.y_min + b),
                        ) by {
                            lemma_flat_index_bounds(w as int, h as int, a, b);
                            if a != nx as int || b != ny as int {
                                lemma_flat_cells_distinct(h as int, a, b, nx as int, ny as int);
                                assert(new_grid.spec_cell(a, b) == prev.spec_cell(a, b));
                            }
                        }
                    }
                } else {
                    proof {
                        assert(!s.contains((ox0 + xu, oy0 + yu)));
                        assert(after =~= before);
                    }
                }
                yu = yu + 1;
            }
            proof {
                lemma_prefix_column_wrap(s, ox0, oy0, oy1, ox0 + xu);
            }
            xu = xu + 1;
        }
        proof {
            let full = prefix_set(s, ox0, oy0, oy1, ox0 + old_w as int, oy0);
            assert(full =~= s);
        }
        self.grid = new_grid;
        self.board_extent = new_be;
        proof {
            assert(self.live_set() =~= s);
        }
    }

    /// Callers that keep the live cells inside a bounded box may always
    /// write inside the coordinate range and step the board.
    pub proof fn bounded_live_implies_ready(&self, k: int)
        requires
            self.inv(),
            0 <= k <= EXTENT_LIMIT - 1,
            within_box(self.live_set(), -k, -k, k, k),
        ensures
            self.step_fits(),
            forall|x: int, y: int|
                -COORD_LIMIT <= x <= COORD_LIMIT && -COORD_LIMIT <= y <= COORD_LIMIT
                    ==> self.writable(x, y),
    {
        let le = self.spec_live_extent();
        if !le.spec_is_empty() {
            let wx0 = choose|b: int| self.live_set().contains((le.x_min as int, b));
            let wx1 = choose|b: int| self.live_set().contains((le.spec_x_max(), b));
            let wy0 = choose|a: int| self.live_set().contains((a, le.y_min as int));
            let wy1 = choose|a: int| self.live_set().contains((a, le.spec_y_max()));
            assert(self.live_set().contains((le.x_min as int, wx0)));
            assert(self.live_set().contains((le.spec_x_max(), wx1)));
            assert(self.live_set().contains((wy0, le.y_min as int)));
            assert(self.live_set().contains((wy1, le.spec_y_max())));
        }
    }
}

impl LifeBoard for DynamicArray2dLifeBoard {
    open spec fn inv(&self) -> bool {
        &&& self.dims_ok()
        &&& self.spec_board_extent().wf()
        &&& self.spec_live_extent().wf()
        &&& tight_bounds(
            self.live_set(),
            self.spec_live_extent().x_min as int,
            self.spec_live_extent().y_min as int,
            self.spec_live_extent().spec_x_max(),
            self.spec_live_extent().spec_y_max(),
        )
        &&& (!self.spec_live_extent().spec_is_empty() ==> {
            &&& !self.spec_board_extent().spec_is_empty()
            &&& self.spec_board_extent().x_min <= self.spec_live_extent().x_min
            &&& self.spec_live_extent().spec_x_max() <= self.spec_board_extent().spec_x_max()
            &&& self.spec_board_extent().y_min <= self.spec_live_extent().y_min
            &&& self.spec_live_extent().spec_y_max() <= self.spec_board_extent().spec_y_max()
        })
    }

    open spec fn live_set(&self) -> CellSet {
        flat_grid_live(
            self.spec_grid(),
            self.spec_board_extent().x_min as int,
            self.spec_board_extent().y_min as int,
            self.spec_board_extent().width as int,
        )
    }

    open spec fn writable(&self, x: int, y: int) -> bool {
        &&& -COORD_LIMIT <= x <= COORD_LIMIT
        &&& -COORD_LIMIT <= y <= COORD_LIMIT
        &&& rect_bounded(self.spec_live_extent(), EXTENT_LIMIT as int)
    }

    open spec fn kept(&self, x: int, y: int) -> bool {
        true
    }

    open spec fn step_fits(&self) -> bool {
        rect_bounded(self.spec_live_extent(), EXTENT_LIMIT - 1)
    }

    fn is_live(&self, x: i64, y: i64) -> (r: bool) {
        if !self.live_extent.contains_point(x, y) {
            proof {
                if self.live_set().contains((x as int, y as int)) {
                    assert(in_box(
                        x as int,
                        y as int,
                        self.spec_live_extent().x_min as int,
                        self.spec_live_extent().y_min as int,
                        self.spec_live_extent().spec_x_max(),
                        self.spec_live_extent().spec_y_max(),
                    ));
                }
            }
            false
        } else {
            let xu = self.board_extent.to_grid_x(x);
            let yu = self.board_extent.to_grid_y(y);
            self.is_live_unchecked(xu, yu) > 0
        }
    }

    fn set_liveness(&mut self, x: i64, y: i64, is_live: bool) {
        if is_live {
            let ghost s = old(self).live_set();
            if !self.board_extent.contains_point(x, y) {
                self.grow_to_include(x, y);
            }
            let xu = self.board_extent.to_grid_x(x);
            let yu = self.board_extent.to_grid_y(y);
            proof {
                lemma_flat_index_bounds(
                    self.spec_board_extent().width as int,
                    self.spec_board_extent().height as int,
                    xu as int,
                    yu as int,
                );
            }
            self.grid.set(xu, yu, 1);
            proof {
                assert forall|a: int, b: int| #[trigger] self.live_set().contains((a, b))
                    == s.insert((x as int, y as int)).contains((a, b)) by {
                    if a != x as int || b != y as int {
                        if 0 <= a - self.spec_board_extent().x_min
                            < self.spec_board_extent().width && 0 <= b
                            - self.spec_board_extent().y_min < self.spec_board_extent().height {
                            lemma_flat_index_bounds(
                                self.spec_board_extent().width as int,
                                self.spec_board_extent().height as int,
                                a - self.spec_board_extent().x_min,
                                b - self.spec_board_extent().y_min,
                            );
                            lemma_flat_cells_distinct(
                                self.spec_board_extent().height as int,
                                a - self.spec_board_extent().x_min,
                                b - self.spec_board_extent().y_min,
                                xu as int,
                                yu as int,
                            );
                        }
                    }
                }
                assert(self.live_set() =~= s.insert((x as int, y as int)));
                let le = self.spec_live_extent();
                if le.spec_is_empty() {
                    assert forall|a: int, b: int| !(#[trigger] s.contains((a, b))) by {
                        if s.contains((a, b)) {
                            assert(in_box(
                                a,
                                b,
                                le.x_min as int,
                                le.y_min as int,
                                le.spec_x_max(),
                                le.spec_y_max(),
                            ));
                        }
                    }
                    lemma_tight_first(s, x as int, y as int);
                } else {
                    lemma_tight_expand(
                        s,
                        le.x_min as int,
                        le.y_min as int,
                        le.spec_x_max(),
                        le.spec_y_max(),
                        x as int,
                        y as int,
                    );
                }
            }
            self.live_extent.expand_to_include(x, y);
        } else {
            let ghost s = old(self).live_set();
            if !self.board_extent.contains_point(x, y) {
                // The cell is outside the footprint, hence already dead.
                proof {
                    assert(!s.contains((x as int, y as int)));
                    assert(with_cell(s, x as int, y as int, false) =~= s);
                }
                return;
            }
            let xu = self.board_extent.to_grid_x(x);
            let yu = self.board_extent.to_grid_y(y);
            proof {
                lemma_flat_index_bounds(
                    self.spec_board_extent().width as int,
                    self.spec_board_extent().height as int,
                    xu as int,
                    yu as int,
                );
            }
            self.grid.set(xu, yu, 0);
            proof {
                assert forall|a: int, b: int| #[trigger] self.live_set().contains((a, b))
                    == s.remove((x as int, y as int)).contains((a, b)) by {
                    if a != x as int || b != y as int {
                        if 0 <= a - self.spec_board_extent().x_min
                            < self.spec_board_extent().width && 0 <= b
                            - self.spec_board_extent().y_min < self.spec_board_extent().height {
                            lemma_flat_index_bounds(
                                self.spec_board_extent().width as int,
                                self.spec_board_extent().height as int,
                                a - self.spec_board_extent().x_min,
                                b - self.spec_board_extent().y_min,
                            );
                            lemma_flat_cells_distinct(
                                self.spec_board_extent().height as int,
                                a - self.spec_board_extent().x_min,
                                b - self.spec_board_extent().y_min,
                                xu as int,
                                yu as int,
                            );
                        }
                    }
                }
                assert(self.live_set() =~= s.remove((x as int, y as int)));
            }
            let w = self.board_extent.width as usize;
            let fresh = tight_extent_of_flat(
                &self.grid,
                self.board_extent.x_min,
                self.board_extent.y_min,
                w,
            );
            proof {
                let t = self.live_set();
                if !fresh.spec_is_empty() {
                    let wx0 = choose|b: int| t.contains((fresh.x_min as int, b));
                    let wx1 = choose|b: int| t.contains((fresh.spec_x_max(), b));
                    let wy0 = choose|a: int| t.contains((a, fresh.y_min as int));
                    let wy1 = choose|a: int| t.contains((a, fresh.spec_y_max()));
                    assert(s.contains((fresh.x_min as int, wx0)));
                    assert(s.contains((fresh.spec_x_max(), wx1)));
                    assert(s.contains((wy0, fresh.y_min as int)));
                    assert(s.contains((wy1, fresh.spec_y_max())));
                }
            }
            self.live_extent = fresh;
        }
    }

    /// Count the live neighbors of this cell, not counting the cell
    /// itself: unchecked reads away from the footprint's border ring,
    /// bounds-checked reads on and beyond it.
    fn count_live_neighbors(&self, x: i64, y: i64) -> (n: u8) {
        let be = self.board_extent;
        let is_interior = !be.is_empty() && be.contains_point(x, y) && x > be.x_min && y > be.y_min
            && x < be.x_max() && y < be.y_max();
        if is_interior {
            let xu = be.to_grid_x(x);
            let yu = be.to_grid_y(y);
            self.is_live_unchecked(xu - 1, yu - 1) + self.is_live_unchecked(xu - 1, yu)
                + self.is_live_unchecked(xu - 1, yu + 1) + self.is_live_unchecked(xu, yu - 1)
            // the cell itself, at (x, y), is deliberately not counted
             + self.is_live_unchecked(xu, yu + 1) + self.is_live_unchecked(xu + 1, yu - 1)
                + self.is_live_unchecked(xu + 1, yu) + self.is_live_unchecked(xu + 1, yu + 1)
        } else {
            let xi = x as i128;
            let yi = y as i128;
            self.is_live_wide(xi - 1, yi - 1) + self.is_live_wide(xi - 1, yi) + self.is_live_wide(
                xi - 1,
                yi + 1,
            ) + self.is_live_wide(xi, yi - 1)
            // the cell itself, at (x, y), is deliberately not counted
             + self.is_live_wide(xi, yi + 1) + self.is_live_wide(xi + 1, yi - 1)
                + self.is_live_wide(xi + 1, yi) + self.is_live_wide(xi + 1, yi + 1)
        }
    }

    #[verifier::rlimit(60)]
    fn step_one(&mut self) {
        let ghost s = old(self).live_set();
        if self.board_extent.is_empty() {
            // Structurally empty board: an explicit no-op.
            proof {
                assert(s =~= Set::<(int, int)>::empty());
                assert forall|x: int, y: int| #[trigger] self.live_set().contains((x, y)) == (
                next_alive(s, x, y) && old(self).kept(x, y)) by {
                    assert(!s.contains((x - 1, y - 1)));
                    assert(!s.contains((x - 1, y)));
                    assert(!s.contains((x - 1, y + 1)));
                    assert(!s.contains((x, y - 1)));
                    assert(!s.contains((x, y + 1)));
                    assert(!s.contains((x + 1, y - 1)));
                    assert(!s.contains((x + 1, y)));
                    assert(!s.contains((x + 1, y + 1)));
                    assert(!self.live_set().contains((x, y)));
                }
            }
            return;
        }
        let le = self.live_extent;
        let new_be = Rectangle {
            x_min: le.x_min - 1,
            width: le.width + 2,
            y_min: le.y_min - 1,
            height: le.height + 2,
        };
        let w = new_be.width as usize;
        let h = new_be.height as usize;
        proof {
            assert((w as int) * (h as int) <= usize::MAX) by (nonlinear_arith)
                requires
                    0 <= w as int <= 64_021int && 0 <= h as int <= 64_021int && usize::MAX
                        >= 0xffff_ffff,
            ;
            lemma_step_within_box(
                s,
                le.x_min as int,
                le.y_min as int,
                le.spec_x_max(),
                le.spec_y_max(),
            );
        }
        let mut new_grid: ArrayGrid<u8> = ArrayGrid::create(w, h, 0);
        proof {
            assert forall|a: int, b: int|
                0 <= a < w && 0 <= b < h implies (#[trigger] new_grid.spec_cell(a, b)) == 0 by {
                lemma_flat_index_bounds(w as int, h as int, a, b);
            }
        }
        let mut xu: usize = 0;
        while xu < w
            invariant
                self == old(self),
                self.inv(),
                self.step_fits(),
                s == self.live_set(),
                le == self.spec_live_extent(),
                new_be.x_min == le.x_min - 1 && new_be.width == le.width + 2,
                new_be.y_min == le.y_min - 1 && new_be.height == le.height + 2,
                new_be.wf(),
                w == new_be.width as int,
                h == new_be.height as int,
                within_box(
                    crate::rules::step_of(s),
                    new_be.x_min as int,
                    new_be.y_min as int,
                    new_be.spec_x_max(),
                    new_be.spec_y_max(),
                ),
                xu <= w,
                new_grid.spec_col_size() == h,
                new_grid.contents().len() == (w as int) * (h as int),
                forall|i: int|
                    0 <= i < new_grid.contents().len() ==> (#[trigger] new_grid.contents()[i]) <= 1,
                forall|a: int, b: int|
                    0 <= a < xu && 0 <= b < h ==> ((#[trigger] new_grid.spec_cell(a, b)) == 1)
                        == next_alive(s, new_be.x_min + a, new_be.y_min + b),
                forall|a: int, b: int|
                    xu <= a < w && 0 <= b < h ==> (#[trigger] new_grid.spec_cell(a, b)) == 0,
            decreases w - xu,
        {
            let mut yu: usize = 0;
            while yu < h
                invariant
                    self == old(self),
                    self.inv(),
                    self.step_fits(),
                    s == self.live_set(),
                    new_be.wf(),
                    rect_bounded(new_be, EXTENT_LIMIT as int),
                    w == new_be.width as int,
                    h == new_be.height as int,
                    xu < w,
                    yu <= h,
                    new_grid.spec_col_size() == h,
                    new_grid.contents().len() == (w as int) * (h as int),
                    forall|i: int|
                        0 <= i < new_grid.contents().len() ==> (#[trigger] new_grid.contents()[i])
                            <= 1,
                    forall|a: int, b: int|
                        0 <= a < xu && 0 <= b < h ==> ((#[trigger] new_grid.spec_cell(a, b)) == 1)
                            == next_alive(s, new_be.x_min + a, new_be.y_min + b),
                    forall|a: int, b: int|
                        0 <= a < w && 0 <= b < h && (a > xu || (a == xu && b >= yu)) ==> (
                        #[trigger] new_grid.spec_cell(a, b)) == 0,
                    forall|b: int|
                        0 <= b < yu ==> ((#[trigger] new_grid.spec_cell(xu as int, b)) == 1)
                            == next_alive(s, new_be.x_min + xu, new_be.y_min + b),
                decreases h - yu,
            {
                let xi = new_be.x_min + xu as i64;
                let yi = new_be.y_min + yu as i64;
                let count = self.count_live_neighbors(xi, yi);
                let live = count == 3 || (count == 2 && self.is_live(xi, yi));
                proof {
                    lemma_flat_index_bounds(w as int, h as int, xu as int, yu as int);
                }
                let ghost prev = new_grid;
                if live {
                    new_grid.set(xu, yu, 1);
                } else {
                    new_grid.set(xu, yu, 0);
                }
                proof {
                    assert forall|a: int, b: int|
                        0 <= a < w && 0 <= b < h && (a != xu as int || b != yu as int) implies (
                    #[trigger] new_grid.spec_cell(a, b)) == prev.spec_cell(a, b) by {
                        lemma_flat_index_bounds(w as int, h as int, a, b);
                        lemma_flat_cells_distinct(h as int, a, b, xu as int, yu as int);
                    }
                }
                yu = yu + 1;
            }
            xu = xu + 1;
        }
        let new_live = tight_extent_of_flat(&new_grid, new_be.x_min, new_be.y_min, w);
        self.grid = new_grid;
        self.board_extent = new_be;
        self.live_extent = new_live;
        proof {
            assert forall|x: int, y: int| #[trigger] self.live_set().contains((x, y)) == (
            next_alive(s, x, y) && old(self).kept(x, y)) by {
                if in_box(
                    x,
                    y,
                    new_be.x_min as int,
                    new_be.y_min as int,
                    new_be.spec_x_max(),
                    new_be.spec_y_max(),
                ) {
                } else {
                    assert(!crate::rules::step_of(s).contains((x, y)));
                }
            }
            let t = self.live_set();
            if !self.spec_live_extent().spec_is_empty() {
                let fresh = self.spec_live_extent();
                let wx0 = choose|b: int| t.contains((fresh.x_min as int, b));
                let wx1 = choose|b: int| t.contains((fresh.spec_x_max(), b));
                let wy0 = choose|a: int| t.contains((a, fresh.y_min as int));
                let wy1 = choose|a: int| t.contains((a, fresh.spec_y_max()));
                assert(t.contains((fresh.x_min as int, wx0)));
                assert(t.contains((fresh.spec_x_max(), wx1)));
                assert(t.contains((wy0, fresh.y_min as int)));
                assert(t.contains((wy1, fresh.spec_y_max())));
            }
        }
    }

    fn get_stats(&self) -> (stats: Vec<(&'static str, String)>) {
        let count = self.get_live_count();
        let mut stats: Vec<(&'static str, String)> = Vec::new();
        stats.push(("implementation", "Dynamic Array2d".to_owned()));
        stats.push(("live_cells", u64_string(count)));
        stats.push(("board_extent", self.board_extent.describe()));
        stats.push(("live_extent", self.live_extent.describe()));
        stats
    }
}

} // verus!
