//! Reusable sets of relative cell offsets that can be stamped onto a board
//! around a center point.

use vstd::prelude::*;
use crate::life_board::BoardPoint;

verus! {

/// An ordered set of `(dx, dy)` offsets; stateless and read-only.
pub struct Pattern {
    points: Vec<BoardPoint>,
}

impl Pattern {
    /// The offsets, in order.
    pub closed spec fn offsets(self) -> Seq<(int, int)> {
        self.points@.map_values(|p: BoardPoint| p.coords())
    }

    pub fn new(points: Vec<BoardPoint>) -> (pat: Pattern)
        ensures
            pat.offsets().len() == points@.len(),
            forall|i: int|
                0 <= i < points@.len() ==> pat.offsets()[i] == (#[trigger] points@[i]).coords(),
    {
        Pattern { points }
    }

    pub fn from_tuples(points: Vec<(i64, i64)>) -> (pat: Pattern)
        ensures
            pat.offsets().len() == points@.len(),
            forall|i: int|
                0 <= i < points@.len() ==> pat.offsets()[i] == (
                    (#[trigger] points@[i]).0 as int,
                    points@[i].1 as int,
                ),
    {
        let mut converted: Vec<BoardPoint> = Vec::new();
        let mut i: usize = 0;
        while i < points.len()
            invariant
                i <= points@.len(),
                converted@.len() == i,
                forall|j: int|
                    0 <= j < i ==> (#[trigger] converted@[j]).coords() == (
                        points@[j].0 as int,
                        points@[j].1 as int,
                    ),
            decreases points@.len() - i,
        {
            let (x, y) = points[i];
            converted.push(BoardPoint::new(x, y));
            i = i + 1;
        }
        let pat = Pattern::new(converted);
        proof {
            assert forall|j: int| 0 <= j < points@.len() implies pat.offsets()[j] == (
                (#[trigger] points@[j]).0 as int,
                points@[j].1 as int,
            ) by {
                assert(pat.offsets()[j] == converted@[j].coords());
            }
        }
        pat
    }

    /// The offsets as board points.
    pub fn get_points(&self) -> (r: &Vec<BoardPoint>)
        ensures
            r@.len() == self.offsets().len(),
            forall|i: int|
                0 <= i < r@.len() ==> (#[trigger] r@[i]).coords() == self.offsets()[i],
    {
        &self.points
    }

    /// A 2x2 still-life block.
    #[allow(non_snake_case)]
    pub fn BLOCK() -> (pat: Pattern)
        ensures
            pat.offsets() == seq![(0int, 0int), (0int, 1int), (1int, 0int), (1int, 1int)],
    {
        let pat = Pattern::from_tuples(vec![(0, 0), (0, 1), (1, 0), (1, 1)]);
        proof {
            assert(pat.offsets() =~= seq![(0int, 0int), (0int, 1int), (1int, 0int), (1int, 1int)]);
        }
        pat
    }

    /// A period-2 beacon oscillator.
    #[allow(non_snake_case)]
    pub fn BEACON() -> (pat: Pattern)
        ensures
            pat.offsets() == seq![
                (-2int, -2int),
                (-2int, -1int),
                (-1int, -1int),
                (-1int, -2int),
                (1int, 1int),
                (1int, 0int),
                (0int, 0int),
                (0int, 1int),
            ],
    {
        let pat = Pattern::from_tuples(
            vec![(-2, -2), (-2, -1), (-1, -1), (-1, -2), (1, 1), (1, 0), (0, 0), (0, 1)],
        );
        proof {
            assert(pat.offsets() =~= seq![
                (-2int, -2int),
                (-2int, -1int),
                (-1int, -1int),
                (-1int, -2int),
                (1int, 1int),
                (1int, 0int),
                (0int, 0int),
                (0int, 1int),
            ]);
        }
        pat
    }

    /// The acorn methuselah.
    #[allow(non_snake_case)]
    pub fn ACORN() -> (pat: Pattern)
        ensures
            pat.offsets() == seq![
                (-2int, -1int),
                (0int, 0int),
                (-3int, 1int),
                (-2int, 1int),
                (1int, 1int),
                (2int, 1int),
                (3int, 1int),
            ],
    {
        let pat = Pattern::from_tuples(
            vec![(-2, -1), (0, 0), (-3, 1), (-2, 1), (1, 1), (2, 1), (3, 1)],
        );
        proof {
            assert(pat.offsets() =~= seq![
                (-2int, -1int),
                (0int, 0int),
                (-3int, 1int),
                (-2int, 1int),
                (1int, 1int),
                (2int, 1int),
                (3int, 1int),
            ]);
        }
        pat
    }

    /// A glider heading toward positive x and y.
    #[allow(non_snake_case)]
    pub fn GLIDER_SOUTHEAST() -> (pat: Pattern)
        ensures
            pat.offsets() == seq![
                (0int, -1int),
                (1int, 0int),
                (-1int, 1int),
                (0int, 1int),
                (1int, 1int),
            ],
    {
        let pat = Pattern::from_tuples(vec![(0, -1), (1, 0), (-1, 1), (0, 1), (1, 1)]);
        proof {
            assert(pat.offsets() =~= seq![
                (0int, -1int),
                (1int, 0int),
                (-1int, 1int),
                (0int, 1int),
                (1int, 1int),
            ]);
        }
        pat
    }

    /// The period-3 pulsar oscillator.
    #[allow(non_snake_case)]
    pub fn PULSAR() -> (pat: Pattern)
        ensures
            pat.offsets().len() == 48,
            forall|i: int| 0 <= i < 48 ==> #[trigger] pat.offsets()[i] == pulsar_offsets()[i],
    {
        let pat = Pattern::from_tuples(
            vec![
                (-4, -6),
                (-3, -6),
                (-2, -6),
                (2, -6),
                (3, -6),
                (4, -6),
                (-6, -2),
                (-1, -2),
                (1, -2),
                (6, -2),
                (-6, -3),
                (-1, -3),
                (1, -3),
                (6, -3),
                (-6, -4),
                (-1, -4),
                (1, -4),
                (6, -4),
                (-4, -1),
                (-3, -1),
                (-2, -1),
                (2, -1),
                (3, -1),
                (4, -1),
                (-4, 6),
                (-3, 6),
                (-2, 6),
                (2, 6),
                (3, 6),
                (4, 6),
                (-6, 2),
                (-1, 2),
                (1, 2),
                (6, 2),
                (-6, 3),
                (-1, 3),
                (1, 3),
                (6, 3),
                (-6, 4),
                (-1, 4),
                (1, 4),
                (6, 4),
                (-4, 1),
                (-3, 1),
                (-2, 1),
                (2, 1),
                (3, 1),
                (4, 1),
            ],
        );
        proof {
            assert(pat.offsets() =~= pulsar_offsets());
        }
        pat
    }
}

/// The 48 cell offsets of the pulsar, in stamping order.
pub open spec fn pulsar_offsets() -> Seq<(int, int)> {
    seq![
        (-4int, -6int),
        (-3int, -6int),
        (-2int, -6int),
        (2int, -6int),
        (3int, -6int),
        (4int, -6int),
        (-6int, -2int),
        (-1int, -2int),
        (1int, -2int),
        (6int, -2int),
        (-6int, -3int),
        (-1int, -3int),
        (1int, -3int),
        (6int, -3int),
        (-6int, -4int),
        (-1int, -4int),
        (1int, -4int),
        (6int, -4int),
        (-4int, -1int),
        (-3int, -1int),
        (-2int, -1int),
        (2int, -1int),
        (3int, -1int),
        (4int, -1int),
        (-4int, 6int),
        (-3int, 6int),
        (-2int, 6int),
        (2int, 6int),
        (3int, 6int),
        (4int, 6int),
        (-6int, 2int),
        (-1int, 2int),
        (1int, 2int),
        (6int, 2int),
        (-6int, 3int),
        (-1int, 3int),
        (1int, 3int),
        (6int, 3int),
        (-6int, 4int),
        (-1int, 4int),
        (1int, 4int),
        (6int, 4int),
        (-4int, 1int),
        (-3int, 1int),
        (-2int, 1int),
        (2int, 1int),
        (3int, 1int),
        (4int, 1int),
    ]
}

} // verus!
