//! Screen-side coordinates for interactive callers: a point in console
//! space (y grows downward) and the step size keyboard modifiers select.

use vstd::prelude::*;
use crate::life_board::BoardPoint;

verus! {

/// A point in console coordinates.
pub struct ConsolePoint {
    x: i64,
    y: i64,
}

impl ConsolePoint {
    /// The pair of coordinates this point stands for.
    pub closed spec fn coords(self) -> (int, int) {
        (self.x as int, self.y as int)
    }

    pub fn new(x: i64, y: i64) -> (p: ConsolePoint)
        ensures
            p.coords() == (x as int, y as int),
    {
        ConsolePoint { x, y }
    }

    /// The board cell this console point addresses.
    pub fn to_board_point(&self) -> (p: BoardPoint)
        ensures
            p.coords() == self.coords(),
    {
        BoardPoint::new(self.x, self.y)
    }

    pub fn move_left(&self, offset: i64) -> (p: ConsolePoint)
        requires
            i64::MIN <= self.coords().0 - offset <= i64::MAX,
        ensures
            p.coords() == (self.coords().0 - offset, self.coords().1),
    {
        ConsolePoint { x: self.x - offset, y: self.y }
    }

    pub fn move_right(&self, offset: i64) -> (p: ConsolePoint)
        requires
            i64::MIN <= self.coords().0 + offset <= i64::MAX,
        ensures
            p.coords() == (self.coords().0 + offset, self.coords().1),
    {
        ConsolePoint { x: self.x + offset, y: self.y }
    }

    pub fn move_up(&self, offset: i64) -> (p: ConsolePoint)
        requires
            i64::MIN <= self.coords().1 - offset <= i64::MAX,
        ensures
            p.coords() == (self.coords().0, self.coords().1 - offset),
    {
        ConsolePoint { x: self.x, y: self.y - offset }
    }

    pub fn move_down(&self, offset: i64) -> (p: ConsolePoint)
        requires
            i64::MIN <= self.coords().1 + offset <= i64::MAX,
        ensures
            p.coords() == (self.coords().0, self.coords().1 + offset),
    {
        ConsolePoint { x: self.x, y: self.y + offset }
    }
}

/// How far one keypress moves the cursor, by the modifiers held: 25 cells
/// with control and alt together, 10 with alt alone, 1 otherwise.
pub fn calc_move_offset(ctrl: bool, alt: bool) -> (offset: i64)
    ensures
        offset == if ctrl && alt {
            25int
        } else if alt {
            10int
        } else {
            1int
        },
{
    if ctrl && alt {
        25
    } else if alt {
        10
    } else {
        1
    }
}

} // verus!
