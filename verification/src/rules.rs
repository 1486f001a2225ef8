//! The mathematical model of the game: the set of live coordinates, the
//! birth/survival rule, and the lemmas that relate bounded boards to the
//! unbounded rule.  Every backend's contract is stated over these functions.

use vstd::prelude::*;

verus! {

/// A board state: the set of live coordinates.
pub type CellSet = Set<(int, int)>;

/// 1 if `(x, y)` is live in `s`, else 0.
pub open spec fn live_flag(s: CellSet, x: int, y: int) -> int {
    if s.contains((x, y)) {
        1
    } else {
        0
    }
}

/// How many of the 8 cells surrounding `(x, y)` are live, not counting
/// `(x, y)` itself.
pub open spec fn neighbor_count(s: CellSet, x: int, y: int) -> int {
    live_flag(s, x - 1, y - 1) + live_flag(s, x - 1, y) + live_flag(s, x - 1, y + 1) + live_flag(
        s,
        x,
        y - 1,
    ) + live_flag(s, x, y + 1) + live_flag(s, x + 1, y - 1) + live_flag(s, x + 1, y) + live_flag(
        s,
        x + 1,
        y + 1,
    )
}

/// The rule: a cell is live in the next generation iff it has exactly 3
/// live neighbors, or it has exactly 2 and is live now.
pub open spec fn next_alive(s: CellSet, x: int, y: int) -> bool {
    neighbor_count(s, x, y) == 3 || (neighbor_count(s, x, y) == 2 && s.contains((x, y)))
}

/// One whole generation, applied simultaneously to every cell of the
/// unbounded grid.
pub open spec fn step_of(s: CellSet) -> CellSet {
    Set::new(|p: (int, int)| next_alive(s, p.0, p.1))
}

/// `n` generations of the unbounded rule.
pub open spec fn step_n(s: CellSet, n: nat) -> CellSet
    decreases n,
{
    if n == 0 {
        s
    } else {
        step_of(step_n(s, (n - 1) as nat))
    }
}

/// The state after setting or clearing one cell.
pub open spec fn with_cell(s: CellSet, x: int, y: int, alive: bool) -> CellSet {
    if alive {
        s.insert((x, y))
    } else {
        s.remove((x, y))
    }
}

/// Inclusive axis-aligned box test.
pub open spec fn in_box(x: int, y: int, x0: int, y0: int, x1: int, y1: int) -> bool {
    x0 <= x <= x1 && y0 <= y <= y1
}

/// Every live cell of `s` lies in the inclusive box.
pub open spec fn within_box(s: CellSet, x0: int, y0: int, x1: int, y1: int) -> bool {
    forall|x: int, y: int| #[trigger] s.contains((x, y)) ==> in_box(x, y, x0, y0, x1, y1)
}

/// The cells of `s` that lie in the inclusive box.
pub open spec fn restrict_box(s: CellSet, x0: int, y0: int, x1: int, y1: int) -> CellSet {
    Set::new(|p: (int, int)| s.contains(p) && in_box(p.0, p.1, x0, y0, x1, y1))
}

/// `n` generations as computed by a backend whose domain is the inclusive
/// box: after each generation, cells outside the box are dropped.
pub open spec fn step_n_in_box(
    s: CellSet,
    x0: int,
    y0: int,
    x1: int,
    y1: int,
    n: nat,
) -> CellSet
    decreases n,
{
    if n == 0 {
        s
    } else {
        restrict_box(step_of(step_n_in_box(s, x0, y0, x1, y1, (n - 1) as nat)), x0, y0, x1, y1)
    }
}

/// `s` with every offset of `pts`, translated by `(cx, cy)`, set live.
pub open spec fn stamped(s: CellSet, pts: Seq<(int, int)>, cx: int, cy: int) -> CellSet {
    s.union(
        Set::new(
            |q: (int, int)|
                exists|i: int|
                    0 <= i < pts.len() && q == (
                        (#[trigger] pts[i]).0 + cx,
                        pts[i].1 + cy,
                    ),
        ),
    )
}

/// The live cells of `s` that a row-major sweep of the half-open box
/// `[x0, _) x [y0, y1)` has visited when it stands at column `x`, row `y`:
/// every full column before `x`, plus the part of column `x` below `y`.
pub open spec fn prefix_set(s: CellSet, x0: int, y0: int, y1: int, x: int, y: int) -> CellSet {
    Set::new(
        |p: (int, int)|
            s.contains(p) && y0 <= p.1 < y1 && (x0 <= p.0 < x || (p.0 == x && p.1 < y)),
    )
}

/// A sweep that has not started has visited no cells.
pub proof fn lemma_prefix_init(s: CellSet, x0: int, y0: int, y1: int)
    ensures
        prefix_set(s, x0, y0, y1, x0, y0) == Set::<(int, int)>::empty(),
        prefix_set(s, x0, y0, y1, x0, y0).finite(),
        prefix_set(s, x0, y0, y1, x0, y0).len() == 0,
{
    assert(prefix_set(s, x0, y0, y1, x0, y0) =~= Set::<(int, int)>::empty());
}

/// Visiting one more cell grows the visited live set by that cell's flag.
pub proof fn lemma_prefix_cell(s: CellSet, x0: int, y0: int, y1: int, x: int, y: int)
    requires
        x0 <= x,
        y0 <= y < y1,
        prefix_set(s, x0, y0, y1, x, y).finite(),
    ensures
        prefix_set(s, x0, y0, y1, x, y + 1).finite(),
        prefix_set(s, x0, y0, y1, x, y + 1).len() == prefix_set(s, x0, y0, y1, x, y).len()
            + live_flag(s, x, y),
{
    let before = prefix_set(s, x0, y0, y1, x, y);
    let after = prefix_set(s, x0, y0, y1, x, y + 1);
    if s.contains((x, y)) {
        assert(after =~= before.insert((x, y)));
        assert(!before.contains((x, y)));
    } else {
        assert(after =~= before);
    }
}

/// Finishing a column and moving to the bottom of the next one visits no
/// new cells.
pub proof fn lemma_prefix_column_wrap(s: CellSet, x0: int, y0: int, y1: int, x: int)
    requires
        x0 <= x,
    ensures
        prefix_set(s, x0, y0, y1, x, y1) == prefix_set(s, x0, y0, y1, x + 1, y0),
{
    assert(prefix_set(s, x0, y0, y1, x, y1) =~= prefix_set(s, x0, y0, y1, x + 1, y0));
}

/// Stamping no offsets leaves the state alone.
pub proof fn lemma_stamped_none(s: CellSet, pts: Seq<(int, int)>, cx: int, cy: int)
    ensures
        stamped(s, pts.take(0), cx, cy) == s,
{
    assert(stamped(s, pts.take(0), cx, cy) =~= s);
}

/// Stamping one more offset adds exactly that translated cell.
pub proof fn lemma_stamped_one_more(s: CellSet, pts: Seq<(int, int)>, cx: int, cy: int, i: int)
    requires
        0 <= i < pts.len(),
    ensures
        stamped(s, pts.take(i + 1), cx, cy) == stamped(s, pts.take(i), cx, cy).insert(
            (pts[i].0 + cx, pts[i].1 + cy),
        ),
{
    let shorter = pts.take(i);
    let longer = pts.take(i + 1);
    let grown = stamped(s, shorter, cx, cy).insert((pts[i].0 + cx, pts[i].1 + cy));
    assert forall|q: (int, int)| #[trigger] stamped(s, longer, cx, cy).contains(q) implies
        grown.contains(q) by {
        if !s.contains(q) {
            let j = choose|j: int| 0 <= j < longer.len() && q == (
                (#[trigger] longer[j]).0 + cx,
                longer[j].1 + cy,
            );
            if j < i {
                assert(shorter[j] == pts[j]);
                assert(q == ((shorter[j]).0 + cx, shorter[j].1 + cy));
            } else {
                assert(longer[j] == pts[i]);
            }
        }
    }
    assert forall|q: (int, int)| #[trigger] grown.contains(q) implies stamped(
        s,
        longer,
        cx,
        cy,
    ).contains(q) by {
        if q == (pts[i].0 + cx, pts[i].1 + cy) {
            assert(longer[i] == pts[i]);
            assert(q == ((longer[i]).0 + cx, longer[i].1 + cy));
        } else if !s.contains(q) {
            let j = choose|j: int| 0 <= j < shorter.len() && q == (
                (#[trigger] shorter[j]).0 + cx,
                shorter[j].1 + cy,
            );
            assert(longer[j] == pts[j]);
            assert(q == ((longer[j]).0 + cx, longer[j].1 + cy));
        }
    }
    assert(stamped(s, longer, cx, cy) =~= grown);
}

/// Setting a cell makes exactly that cell read back as the written value;
/// every other cell is unchanged.
pub proof fn lemma_set_then_query(s: CellSet, x: int, y: int, alive: bool)
    ensures
        with_cell(s, x, y, alive).contains((x, y)) == alive,
        forall|a: int, b: int|
            (a != x || b != y) ==> #[trigger] with_cell(s, x, y, alive).contains((a, b))
                == s.contains((a, b)),
{
}

/// A board with no live cells stays that way: one generation of the rule
/// maps the empty state to the empty state.
pub proof fn lemma_step_of_empty()
    ensures
        step_of(Set::<(int, int)>::empty()) == Set::<(int, int)>::empty(),
{
    assert(step_of(Set::<(int, int)>::empty()) =~= Set::<(int, int)>::empty());
}

/// Live cells cannot appear farther than one cell away from the previous
/// generation's live cells.
pub proof fn lemma_step_within_box(s: CellSet, x0: int, y0: int, x1: int, y1: int)
    requires
        within_box(s, x0, y0, x1, y1),
    ensures
        within_box(step_of(s), x0 - 1, y0 - 1, x1 + 1, y1 + 1),
{
    assert forall|x: int, y: int| #[trigger] step_of(s).contains((x, y)) implies in_box(
        x,
        y,
        x0 - 1,
        y0 - 1,
        x1 + 1,
        y1 + 1,
    ) by {
        if !in_box(x, y, x0 - 1, y0 - 1, x1 + 1, y1 + 1) {
            assert(!s.contains((x - 1, y - 1)));
            assert(!s.contains((x - 1, y)));
            assert(!s.contains((x - 1, y + 1)));
            assert(!s.contains((x, y - 1)));
            assert(!s.contains((x, y)));
            assert(!s.contains((x, y + 1)));
            assert(!s.contains((x + 1, y - 1)));
            assert(!s.contains((x + 1, y)));
            assert(!s.contains((x + 1, y + 1)));
            assert(neighbor_count(s, x, y) == 0);
        }
    }
}

/// Dropping the cells outside a box changes nothing when every live cell
/// already lies inside it.
pub proof fn lemma_restrict_box_noop(s: CellSet, x0: int, y0: int, x1: int, y1: int)
    requires
        within_box(s, x0, y0, x1, y1),
    ensures
        restrict_box(s, x0, y0, x1, y1) == s,
{
    assert(restrict_box(s, x0, y0, x1, y1) =~= s);
}

/// A board bounded by a box, stepped inside a domain with enough room for
/// the pattern to spread one cell per generation, computes exactly the
/// unbounded rule: the domain restriction never drops a live cell.
pub proof fn lemma_steps_agree_in_box(
    s: CellSet,
    bx0: int,
    by0: int,
    bx1: int,
    by1: int,
    dx0: int,
    dy0: int,
    dx1: int,
    dy1: int,
    n: nat,
)
    requires
        within_box(s, bx0, by0, bx1, by1),
        dx0 <= bx0 - n,
        dy0 <= by0 - n,
        bx1 + n <= dx1,
        by1 + n <= dy1,
    ensures
        step_n_in_box(s, dx0, dy0, dx1, dy1, n) == step_n(s, n),
        within_box(step_n(s, n), bx0 - n, by0 - n, bx1 + n, by1 + n),
    decreases n,
{
    if n > 0 {
        let m = (n - 1) as nat;
        lemma_steps_agree_in_box(s, bx0, by0, bx1, by1, dx0, dy0, dx1, dy1, m);
        let t = step_n(s, m);
        lemma_step_within_box(t, bx0 - m, by0 - m, bx1 + m, by1 + m);
        assert(within_box(step_of(t), bx0 - n, by0 - n, bx1 + n, by1 + n));
        assert forall|x: int, y: int| #[trigger] step_of(t).contains((x, y)) implies in_box(
            x,
            y,
            dx0,
            dy0,
            dx1,
            dy1,
        ) by {
            assert(in_box(x, y, bx0 - n, by0 - n, bx1 + n, by1 + n));
        }
        lemma_restrict_box_noop(step_of(t), dx0, dy0, dx1, dy1);
    }
}

/// A state whose cells are exactly the rule applied pointwise is one
/// whole generation of the unbounded rule.
pub proof fn lemma_pointwise_step(s: CellSet, t: CellSet)
    requires
        forall|x: int, y: int| #[trigger] t.contains((x, y)) == next_alive(s, x, y),
    ensures
        t == step_of(s),
{
    assert(t =~= step_of(s));
}

/// A state whose cells are exactly the rule applied pointwise, with
/// everything outside a domain box dropped, is one generation of the
/// box-bounded rule.
pub proof fn lemma_pointwise_step_in_box(
    s: CellSet,
    t: CellSet,
    x0: int,
    y0: int,
    x1: int,
    y1: int,
)
    requires
        forall|x: int, y: int|
            #[trigger] t.contains((x, y)) == (next_alive(s, x, y) && in_box(x, y, x0, y0, x1, y1)),
    ensures
        t == restrict_box(step_of(s), x0, y0, x1, y1),
{
    assert(t =~= restrict_box(step_of(s), x0, y0, x1, y1));
}

/// Cross-backend equivalence: two backends with different (large enough)
/// domain boxes, started from the same set of live cells, hold exactly the
/// same live set after any number of generations, and both agree with the
/// unbounded rule.
pub proof fn lemma_cross_backend_agreement(
    s: CellSet,
    bx0: int,
    by0: int,
    bx1: int,
    by1: int,
    dx0: int,
    dy0: int,
    dx1: int,
    dy1: int,
    ex0: int,
    ey0: int,
    ex1: int,
    ey1: int,
    n: nat,
)
    requires
        within_box(s, bx0, by0, bx1, by1),
        dx0 <= bx0 - n,
        dy0 <= by0 - n,
        bx1 + n <= dx1,
        by1 + n <= dy1,
        ex0 <= bx0 - n,
        ey0 <= by0 - n,
        bx1 + n <= ex1,
        by1 + n <= ey1,
    ensures
        step_n_in_box(s, dx0, dy0, dx1, dy1, n) == step_n_in_box(s, ex0, ey0, ex1, ey1, n),
        step_n_in_box(s, dx0, dy0, dx1, dy1, n) == step_n(s, n),
{
    lemma_steps_agree_in_box(s, bx0, by0, bx1, by1, dx0, dy0, dx1, dy1, n);
    lemma_steps_agree_in_box(s, bx0, by0, bx1, by1, ex0, ey0, ex1, ey1, n);
}

} // verus!
