//! The board abstraction: a point on the board and the capability
//! interface that every storage backend implements.

use vstd::prelude::*;
use crate::decimal::dec_seq;
use crate::pattern::Pattern;
use crate::rules::{
    CellSet, lemma_stamped_none, lemma_stamped_one_more, neighbor_count, next_alive, stamped,
    with_cell,
};

verus! {

/// A signed board coordinate pair. `y` grows upward (mathematical
/// convention); both axes are unbounded in principle.
pub struct BoardPoint {
    x: i64,
    y: i64,
}

impl BoardPoint {
    /// The pair of coordinates this point stands for.
    pub closed spec fn coords(self) -> (int, int) {
        (self.x as int, self.y as int)
    }

    pub fn new(x: i64, y: i64) -> (p: BoardPoint)
        ensures
            p.coords() == (x as int, y as int),
    {
        BoardPoint { x, y }
    }

    /// The point shifted by `(x, y)`.
    pub fn offset(&self, x: i64, y: i64) -> (p: BoardPoint)
        requires
            i64::MIN <= self.coords().0 + x <= i64::MAX,
            i64::MIN <= self.coords().1 + y <= i64::MAX,
        ensures
            p.coords() == (self.coords().0 + x, self.coords().1 + y),
    {
        BoardPoint { x: self.x + x, y: self.y + y }
    }

    pub fn x(&self) -> (r: i64)
        ensures
            r == self.coords().0,
    {
        self.x
    }

    pub fn y(&self) -> (r: i64)
        ensures
            r == self.coords().1,
    {
        self.y
    }
}

/// The capability set every storage backend offers.  A backend models its
/// state as the set of live coordinates (`live_set`); `inv` is its internal
/// well-formedness, `writable` the coordinates it accepts single-cell
/// writes for, `kept` the coordinates a generation step can leave alive
/// (everything, for a backend that grows), and `step_fits` the machine-size
/// precondition of one step.
pub trait LifeBoard: Sized {
    spec fn inv(&self) -> bool;

    spec fn live_set(&self) -> CellSet;

    spec fn writable(&self, x: int, y: int) -> bool;

    spec fn kept(&self, x: int, y: int) -> bool;

    spec fn step_fits(&self) -> bool;

    /// Whether `(x, y)` is live.  Never fails: coordinates outside a
    /// backend's domain read as dead.
    fn is_live(&self, x: i64, y: i64) -> (r: bool)
        requires
            self.inv(),
        ensures
            r == self.live_set().contains((x as int, y as int)),
    ;

    /// Set or clear the single cell `(x, y)`.
    fn set_liveness(&mut self, x: i64, y: i64, is_live: bool)
        requires
            old(self).inv(),
            old(self).writable(x as int, y as int),
        ensures
            final(self).inv(),
            final(self).live_set() == with_cell(old(self).live_set(), x as int, y as int, is_live),
            forall|a: int, b: int|
                #[trigger] final(self).writable(a, b) == old(self).writable(a, b),
            forall|a: int, b: int| #[trigger] final(self).kept(a, b) == old(self).kept(a, b),
    ;

    /// How many of the 8 cells surrounding `(x, y)` are live, excluding
    /// `(x, y)` itself.
    fn count_live_neighbors(&self, x: i64, y: i64) -> (n: u8)
        requires
            self.inv(),
        ensures
            n as int == neighbor_count(self.live_set(), x as int, y as int),
            n <= 8,
    ;

    /// Replace the state with the next generation, computed entirely from
    /// the previous generation's snapshot.
    fn step_one(&mut self)
        requires
            old(self).inv(),
            old(self).step_fits(),
        ensures
            final(self).inv(),
            forall|x: int, y: int|
                #[trigger] final(self).live_set().contains((x, y)) == (next_alive(
                    old(self).live_set(),
                    x,
                    y,
                ) && old(self).kept(x, y)),
            forall|a: int, b: int|
                #[trigger] final(self).writable(a, b) == old(self).writable(a, b),
            forall|a: int, b: int| #[trigger] final(self).kept(a, b) == old(self).kept(a, b),
    ;

    /// Diagnostic name/value pairs about the underlying representation.
    /// The second entry always reports the number of live cells.
    fn get_stats(&self) -> (stats: Vec<(&'static str, String)>)
        requires
            self.inv(),
        ensures
            stats@.len() == 4,
            stats@[1].0@ == "live_cells"@,
            stats@[1].1@ == dec_seq(self.live_set().len()),
    ;

    /// Set the single cell `(x, y)` live.
    fn set_live(&mut self, x: i64, y: i64)
        requires
            old(self).inv(),
            old(self).writable(x as int, y as int),
        ensures
            final(self).inv(),
            final(self).live_set() == with_cell(old(self).live_set(), x as int, y as int, true),
            forall|a: int, b: int|
                #[trigger] final(self).writable(a, b) == old(self).writable(a, b),
            forall|a: int, b: int| #[trigger] final(self).kept(a, b) == old(self).kept(a, b),
    {
        self.set_liveness(x, y, true);
    }

    /// Whether the cell at `point` is live.
    fn is_live_point(&self, point: &BoardPoint) -> (r: bool)
        requires
            self.inv(),
        ensures
            r == self.live_set().contains(point.coords()),
    {
        self.is_live(point.x(), point.y())
    }

    /// Set the cell at `point` live.
    fn set_live_point(&mut self, point: &BoardPoint)
        requires
            old(self).inv(),
            old(self).writable(point.coords().0, point.coords().1),
        ensures
            final(self).inv(),
            final(self).live_set() == with_cell(
                old(self).live_set(),
                point.coords().0,
                point.coords().1,
                true,
            ),
            forall|a: int, b: int|
                #[trigger] final(self).writable(a, b) == old(self).writable(a, b),
            forall|a: int, b: int| #[trigger] final(self).kept(a, b) == old(self).kept(a, b),
    {
        self.set_liveness_point(point, true);
    }

    /// Set or clear the cell at `point`.
    fn set_liveness_point(&mut self, point: &BoardPoint, liveness: bool)
        requires
            old(self).inv(),
            old(self).writable(point.coords().0, point.coords().1),
        ensures
            final(self).inv(),
            final(self).live_set() == with_cell(
                old(self).live_set(),
                point.coords().0,
                point.coords().1,
                liveness,
            ),
            forall|a: int, b: int|
                #[trigger] final(self).writable(a, b) == old(self).writable(a, b),
            forall|a: int, b: int| #[trigger] final(self).kept(a, b) == old(self).kept(a, b),
    {
        self.set_liveness(point.x(), point.y(), liveness);
    }

    /// Stamp every offset of `pattern`, translated by `center`, live onto
    /// the board.
    fn draw_pattern(&mut self, pattern: &Pattern, center: &BoardPoint)
        requires
            old(self).inv(),
            forall|i: int|
                0 <= i < pattern.offsets().len() ==> {
                    &&& i64::MIN <= (#[trigger] pattern.offsets()[i]).0 + center.coords().0
                        <= i64::MAX
                    &&& i64::MIN <= pattern.offsets()[i].1 + center.coords().1 <= i64::MAX
                    &&& old(self).writable(
                        pattern.offsets()[i].0 + center.coords().0,
                        pattern.offsets()[i].1 + center.coords().1,
                    )
                },
        ensures
            final(self).inv(),
            final(self).live_set() == stamped(
                old(self).live_set(),
                pattern.offsets(),
                center.coords().0,
                center.coords().1,
            ),
            forall|a: int, b: int|
                #[trigger] final(self).writable(a, b) == old(self).writable(a, b),
            forall|a: int, b: int| #[trigger] final(self).kept(a, b) == old(self).kept(a, b),
    {
        proof {
            lemma_stamped_none(
                old(self).live_set(),
                pattern.offsets(),
                center.coords().0,
                center.coords().1,
            );
        }
        let points = pattern.get_points();
        let cx = center.x();
        let cy = center.y();
        let mut i: usize = 0;
        while i < points.len()
            invariant
                old(self).inv(),
                self.inv(),
                i <= points@.len(),
                points@.len() == pattern.offsets().len(),
                forall|j: int|
                    0 <= j < points@.len() ==> (#[trigger] points@[j]).coords()
                        == pattern.offsets()[j],
                cx == center.coords().0,
                cy == center.coords().1,
                forall|j: int|
                    0 <= j < pattern.offsets().len() ==> {
                        &&& i64::MIN <= (#[trigger] pattern.offsets()[j]).0 + center.coords().0
                            <= i64::MAX
                        &&& i64::MIN <= pattern.offsets()[j].1 + center.coords().1 <= i64::MAX
                        &&& old(self).writable(
                            pattern.offsets()[j].0 + center.coords().0,
                            pattern.offsets()[j].1 + center.coords().1,
                        )
                    },
                forall|a: int, b: int|
                    #[trigger] self.writable(a, b) == old(self).writable(a, b),
                forall|a: int, b: int| #[trigger] self.kept(a, b) == old(self).kept(a, b),
                self.live_set() == stamped(
                    old(self).live_set(),
                    pattern.offsets().take(i as int),
                    center.coords().0,
                    center.coords().1,
                ),
            decreases points@.len() - i,
        {
            let ghost before = self.live_set();
            let board_point = points[i].offset(cx, cy);
            self.set_live_point(&board_point);
            proof {
                lemma_stamped_one_more(
                    old(self).live_set(),
                    pattern.offsets(),
                    center.coords().0,
                    center.coords().1,
                    i as int,
                );
            }
            i = i + 1;
        }
        proof {
            assert(pattern.offsets().take(points@.len() as int) =~= pattern.offsets());
        }
    }
}

} // verus!
