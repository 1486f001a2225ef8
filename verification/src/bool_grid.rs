//! Shared machinery for boards stored as vectors of boolean rows: the live
//! set such storage denotes, dead-row construction, live-cell counting and
//! tight-extent computation.

use vstd::prelude::*;
use crate::geometry::{Rectangle, tight_bounds};
use crate::rules::{
    CellSet, lemma_prefix_cell, lemma_prefix_column_wrap, lemma_prefix_init, prefix_set,
};

verus! {

/// The most rows or cells per row any vector-backed board ever holds;
/// keeps cell counts within `u64` and coordinate sums within `i64`.
pub const GRID_DIM_LIMIT: usize = 0xffff_ffff;

/// The set of live board coordinates denoted by rows `g` whose cell
/// `(0, 0)` sits at board coordinate `(x_min, y_min)`.
pub open spec fn vec_grid_live(g: Seq<Vec<bool>>, x_min: int, y_min: int) -> CellSet {
    Set::new(
        |p: (int, int)|
            {
                &&& 0 <= p.0 - x_min < g.len()
                &&& 0 <= p.1 - y_min < g[p.0 - x_min]@.len()
                &&& g[p.0 - x_min]@[p.1 - y_min]
            },
    )
}

/// A row of `n` dead cells.
pub fn dead_row(n: usize) -> (row: Vec<bool>)
    ensures
        row@.len() == n,
        forall|i: int| 0 <= i < n ==> !(#[trigger] row@[i]),
{
    let mut row: Vec<bool> = Vec::new();
    let mut i: usize = 0;
    while i < n
        invariant
            i <= n,
            row@.len() == i,
            forall|j: int| 0 <= j < i ==> !(#[trigger] row@[j]),
        decreases n - i,
    {
        row.push(false);
        i = i + 1;
    }
    row
}

/// A `w` by `h` grid of dead cells.
pub fn dead_grid(w: usize, h: usize) -> (g: Vec<Vec<bool>>)
    ensures
        g@.len() == w,
        forall|i: int| 0 <= i < w ==> (#[trigger] g@[i])@.len() == h,
        forall|i: int, j: int| 0 <= i < w && 0 <= j < h ==> !(#[trigger] g@[i][j]),
{
    let mut g: Vec<Vec<bool>> = Vec::new();
    let mut i: usize = 0;
    while i < w
        invariant
            i <= w,
            g@.len() == i,
            forall|j: int| 0 <= j < i ==> (#[trigger] g@[j]).len() == h,
            forall|j: int, k: int| 0 <= j < i && 0 <= k < h ==> !(#[trigger] g@[j][k]),
        decreases w - i,
    {
        g.push(dead_row(h));
        i = i + 1;
    }
    g
}

/// Count the live cells of a grid of uniform rows.
pub fn count_grid(g: &Vec<Vec<bool>>, x_min: i64, y_min: i64) -> (count: u64)
    requires
        g@.len() <= GRID_DIM_LIMIT,
        forall|i: int|
            0 <= i < g@.len() ==> (#[trigger] g@[i])@.len() == g@[0]@.len()
                && g@[i]@.len() <= GRID_DIM_LIMIT,
        g@.len() == 0 || x_min + g@.len() <= i64::MAX,
        g@.len() == 0 || y_min + g@[0]@.len() <= i64::MAX,
    ensures
        vec_grid_live(g@, x_min as int, y_min as int).finite(),
        count == vec_grid_live(g@, x_min as int, y_min as int).len(),
{
    let ghost s = vec_grid_live(g@, x_min as int, y_min as int);
    let ghost x0 = x_min as int;
    let ghost y0 = y_min as int;
    let ghost y1 = y0 + (if g@.len() == 0 {
        0int
    } else {
        g@[0]@.len() as int
    });
    proof {
        lemma_prefix_init(s, x0, y0, y1);
    }
    let mut count: u64 = 0;
    let mut xu: usize = 0;
    while xu < g.len()
        invariant
            g@.len() <= GRID_DIM_LIMIT,
            forall|i: int|
                0 <= i < g@.len() ==> (#[trigger] g@[i])@.len() == g@[0]@.len()
                    && g@[i]@.len() <= GRID_DIM_LIMIT,
            s == vec_grid_live(g@, x0, y0),
            x0 == x_min as int,
            y0 == y_min as int,
            g@.len() == 0 || y1 == y0 + g@[0]@.len(),
            g@.len() == 0 || y1 - y0 <= GRID_DIM_LIMIT,
            g@.len() == 0 ==> y1 == y0,
            xu <= g@.len(),
            prefix_set(s, x0, y0, y1, x0 + xu, y0).finite(),
            count == prefix_set(s, x0, y0, y1, x0 + xu, y0).len(),
            count <= (xu as int) * (GRID_DIM_LIMIT as int),
        decreases g@.len() - xu,
    {
        let row_len = g[xu].len();
        let mut yu: usize = 0;
        while yu < row_len
            invariant
                g@.len() <= GRID_DIM_LIMIT,
                forall|i: int|
                    0 <= i < g@.len() ==> (#[trigger] g@[i])@.len() == g@[0]@.len()
                        && g@[i]@.len() <= GRID_DIM_LIMIT,
                s == vec_grid_live(g@, x0, y0),
                xu < g@.len(),
                row_len == g@[xu as int]@.len(),
                row_len as int == y1 - y0,
                yu <= row_len,
                prefix_set(s, x0, y0, y1, x0 + xu, y0 + yu).finite(),
                count == prefix_set(s, x0, y0, y1, x0 + xu, y0 + yu).len(),
                count <= (xu as int) * (GRID_DIM_LIMIT as int) + yu,
            decreases row_len - yu,
        {
            proof {
                lemma_prefix_cell(s, x0, y0, y1, x0 + xu, y0 + yu);
            }
            if g[xu][yu] {
                proof {
                    assert(s.contains((x0 + xu, y0 + yu)));
                }
                count = count + 1;
            } else {
                proof {
                    assert(!s.contains((x0 + xu, y0 + yu)));
                }
            }
            yu = yu + 1;
        }
        proof {
            lemma_prefix_column_wrap(s, x0, y0, y1, x0 + xu);
            assert((xu + 1) * (GRID_DIM_LIMIT as int) == (xu as int) * (GRID_DIM_LIMIT as int)
                + GRID_DIM_LIMIT) by (nonlinear_arith);
        }
        xu = xu + 1;
    }
    proof {
        assert(s =~= prefix_set(s, x0, y0, y1, x0 + g@.len(), y0));
    }
    count
}

/// The tight bounding rectangle of the live cells of a grid of uniform
/// rows; the empty rectangle when no cell is live.
pub fn tight_extent_of(g: &Vec<Vec<bool>>, x_min: i64, y_min: i64) -> (r: Rectangle)
    requires
        g@.len() <= GRID_DIM_LIMIT,
        g@.len() == 0 || g@[0]@.len() <= GRID_DIM_LIMIT,
        forall|i: int| 0 <= i < g@.len() ==> (#[trigger] g@[i])@.len() == g@[0]@.len(),
        g@.len() == 0 || x_min + g@.len() <= i64::MAX,
        g@.len() == 0 || y_min + g@[0]@.len() <= i64::MAX,
    ensures
        r.wf(),
        tight_bounds(
            vec_grid_live(g@, x_min as int, y_min as int),
            r.x_min as int,
            r.y_min as int,
            r.spec_x_max(),
            r.spec_y_max(),
        ),
        !r.spec_is_empty() ==> x_min <= r.x_min && r.spec_x_max() < x_min + g@.len() && y_min
            <= r.y_min && r.spec_y_max() < y_min + g@[0]@.len(),
{
    let ghost s = vec_grid_live(g@, x_min as int, y_min as int);
    let ghost x0 = x_min as int;
    let ghost y0 = y_min as int;
    let ghost y1 = y0 + (if g@.len() == 0 {
        0int
    } else {
        g@[0]@.len() as int
    });
    proof {
        lemma_prefix_init(s, x0, y0, y1);
    }
    let mut r = Rectangle::empty();
    let mut xu: usize = 0;
    while xu < g.len()
        invariant
            g@.len() <= GRID_DIM_LIMIT,
            forall|i: int| 0 <= i < g@.len() ==> (#[trigger] g@[i])@.len() == g@[0]@.len(),
            g@.len() == 0 || x_min + g@.len() <= i64::MAX,
            g@.len() == 0 || y1 == y0 + g@[0]@.len() && y1 <= i64::MAX,
            g@.len() == 0 ==> y1 == y0,
            y1 - y0 <= GRID_DIM_LIMIT,
            s == vec_grid_live(g@, x0, y0),
            x0 == x_min as int,
            y0 == y_min as int,
            xu <= g@.len(),
            r.wf(),
            tight_bounds(
                prefix_set(s, x0, y0, y1, x0 + xu, y0),
                r.x_min as int,
                r.y_min as int,
                r.spec_x_max(),
                r.spec_y_max(),
            ),
            !r.spec_is_empty() ==> x0 <= r.x_min && r.spec_x_max() < x0 + g@.len() && y0 <= r.y_min
                && r.spec_y_max() < y1,
        decreases g@.len() - xu,
    {
        let row_len = g[xu].len();
        let mut yu: usize = 0;
        while yu < row_len
            invariant
                g@.len() <= GRID_DIM_LIMIT,
                forall|i: int| 0 <= i < g@.len() ==> (#[trigger] g@[i])@.len() == g@[0]@.len(),
                g@.len() == 0 || x_min + g@.len() <= i64::MAX,
                y1 == y0 + row_len && y1 <= i64::MAX,
                row_len <= GRID_DIM_LIMIT,
                s == vec_grid_live(g@, x0, y0),
                x0 == x_min as int,
                y0 == y_min as int,
                xu < g@.len(),
                row_len == g@[xu as int]@.len(),
                x0 + g@.len() <= i64::MAX,
                yu <= row_len,
                r.wf(),
                tight_bounds(
                    prefix_set(s, x0, y0, y1, x0 + xu, y0 + yu),
                    r.x_min as int,
                    r.y_min as int,
                    r.spec_x_max(),
                    r.spec_y_max(),
                ),
                !r.spec_is_empty() ==> x0 <= r.x_min && r.spec_x_max() < x0 + g@.len() && y0
                    <= r.y_min && r.spec_y_max() < y1,
            decreases row_len - yu,
        {
            let ghost before = prefix_set(s, x0, y0, y1, x0 + xu, y0 + yu);
            let ghost after = prefix_set(s, x0, y0, y1, x0 + xu, y0 + yu + 1);
            if g[xu][yu] {
                let x = x_min + xu as i64;
                let y = y_min + yu as i64;
                proof {
                    assert(s.contains((x as int, y as int)));
                    assert(after =~= before.insert((x as int, y as int)));
                    if r.spec_is_empty() {
                        assert forall|a: int, b: int| !(#[trigger] before.contains((a, b))) by {
                            if before.contains((a, b)) {
                                assert(crate::rules::in_box(
                                    a,
                                    b,
                                    r.x_min as int,
                                    r.y_min as int,
                                    r.spec_x_max(),
                                    r.spec_y_max(),
                                ));
                            }
                        }
                        crate::geometry::lemma_tight_first(before, x as int, y as int);
                    } else {
                        crate::geometry::lemma_tight_expand(
                            before,
                            r.x_min as int,
                            r.y_min as int,
                            r.spec_x_max(),
                            r.spec_y_max(),
                            x as int,
                            y as int,
                        );
                    }
                }
                r.expand_to_include(x, y);
            } else {
                proof {
                    assert(!s.contains((x0 + xu, y0 + yu)));
                    assert(after =~= before);
                }
            }
            yu = yu + 1;
        }
        proof {
            lemma_prefix_column_wrap(s, x0, y0, y1, x0 + xu);
        }
        xu = xu + 1;
    }
    proof {
        assert(s =~= prefix_set(s, x0, y0, y1, x0 + g@.len(), y0));
    }
    r
}

} // verus!
