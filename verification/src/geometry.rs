//! Axis-aligned integer rectangles in board coordinates: bounding-box
//! arithmetic for the growing backends, and the notion of a tight bounding
//! box of a set of live cells.

use vstd::prelude::*;
use vstd::string::StringExecFns;
use crate::rules::{CellSet, in_box, within_box};
use crate::decimal::{int_seq, i64_string};

verus! {

/// The diagnostic rendering of a rectangle:
/// `(minX:_, minY:_, width:_, height:_)`.
pub open spec fn rect_desc(r: Rectangle) -> Seq<char> {
    "(minX:"@ + int_seq(r.x_min as int) + ", minY:"@ + int_seq(r.y_min as int) + ", width:"@
        + int_seq(r.width as int) + ", height:"@ + int_seq(r.height as int) + ")"@
}

/// An axis-aligned box of board cells: `width x height` cells whose lowest
/// corner is `(x_min, y_min)`.  The empty rectangle is the all-zero
/// sentinel: `width == 0 && height == 0`.
#[derive(Clone, Copy, Debug)]
pub struct Rectangle {
    pub x_min: i64,
    pub y_min: i64,
    pub width: i64,
    pub height: i64,
}

/// The smaller of two values.
pub open spec fn spec_min(a: int, b: int) -> int {
    if a <= b {
        a
    } else {
        b
    }
}

/// The larger of two values.
pub open spec fn spec_max(a: int, b: int) -> int {
    if a >= b {
        a
    } else {
        b
    }
}

/// `s` is bounded by the inclusive box and, when the box is not empty,
/// touches all four of its edges: the box is the minimal one covering `s`.
pub open spec fn tight_bounds(s: CellSet, x0: int, y0: int, x1: int, y1: int) -> bool {
    &&& within_box(s, x0, y0, x1, y1)
    &&& (x0 <= x1 && y0 <= y1 ==> {
        &&& exists|b: int| s.contains((x0, b))
        &&& exists|b: int| s.contains((x1, b))
        &&& exists|a: int| s.contains((a, y0))
        &&& exists|a: int| s.contains((a, y1))
    })
}

impl Rectangle {
    /// Both extents zero: the sentinel for "no cells".
    pub open spec fn spec_is_empty(self) -> bool {
        self.width == 0 && self.height == 0
    }

    /// Structural soundness: non-negative extents, neither zero without the
    /// other, bounds that leave the corner arithmetic inside `i64`, and the
    /// all-zero sentinel as the only empty form.
    pub open spec fn wf(self) -> bool {
        &&& 0 <= self.width
        &&& 0 <= self.height
        &&& (self.width == 0 <==> self.height == 0)
        &&& self.x_min + self.width <= i64::MAX
        &&& self.y_min + self.height <= i64::MAX
        &&& (self.spec_is_empty() ==> self.x_min == 0 && self.y_min == 0)
    }

    /// The largest x covered, as an integer (one below `x_min` when empty).
    pub open spec fn spec_x_max(self) -> int {
        self.x_min + self.width - 1
    }

    /// The largest y covered, as an integer (one below `y_min` when empty).
    pub open spec fn spec_y_max(self) -> int {
        self.y_min + self.height - 1
    }

    /// Whether the rectangle covers `(x, y)`; an empty rectangle covers
    /// nothing.
    pub open spec fn spec_contains(self, x: int, y: int) -> bool {
        in_box(x, y, self.x_min as int, self.y_min as int, self.spec_x_max(), self.spec_y_max())
    }

    /// The lowest x after growing to cover a point with x-coordinate `x`.
    pub open spec fn grown_x_min(self, x: int) -> int {
        if self.spec_is_empty() {
            x
        } else {
            spec_min(self.x_min as int, x)
        }
    }

    /// The highest x after growing to cover a point with x-coordinate `x`.
    pub open spec fn grown_x_max(self, x: int) -> int {
        if self.spec_is_empty() {
            x
        } else {
            spec_max(self.spec_x_max(), x)
        }
    }

    /// The lowest y after growing to cover a point with y-coordinate `y`.
    pub open spec fn grown_y_min(self, y: int) -> int {
        if self.spec_is_empty() {
            y
        } else {
            spec_min(self.y_min as int, y)
        }
    }

    /// The highest y after growing to cover a point with y-coordinate `y`.
    pub open spec fn grown_y_max(self, y: int) -> int {
        if self.spec_is_empty() {
            y
        } else {
            spec_max(self.spec_y_max(), y)
        }
    }

    /// The all-zero empty rectangle.
    pub fn empty() -> (r: Rectangle)
        ensures
            r.wf(),
            r.spec_is_empty(),
            r.x_min == 0 && r.y_min == 0 && r.width == 0 && r.height == 0,
    {
        Rectangle { x_min: 0, width: 0, y_min: 0, height: 0 }
    }

    pub fn is_empty(&self) -> (r: bool)
        ensures
            r == self.spec_is_empty(),
    {
        self.width == 0 && self.height == 0
    }

    pub fn x_max(&self) -> (r: i64)
        requires
            self.wf(),
        ensures
            r == self.spec_x_max(),
    {
        self.x_min + self.width - 1
    }

    pub fn y_max(&self) -> (r: i64)
        requires
            self.wf(),
        ensures
            r == self.spec_y_max(),
    {
        self.y_min + self.height - 1
    }

    /// Inclusive bounds test.
    pub fn contains_point(&self, x: i64, y: i64) -> (r: bool)
        requires
            self.wf(),
        ensures
            r == self.spec_contains(x as int, y as int),
    {
        x >= self.x_min && x < self.x_min + self.width && y >= self.y_min && y < self.y_min
            + self.height
    }

    /// Grow the rectangle by the least amount that covers `(x, y)`: an
    /// empty rectangle becomes the 1x1 box at the point.
    pub fn expand_to_include(&mut self, x: i64, y: i64)
        requires
            old(self).wf(),
            old(self).grown_x_max(x as int) < i64::MAX,
            old(self).grown_y_max(y as int) < i64::MAX,
            old(self).grown_x_max(x as int) - old(self).grown_x_min(x as int) < i64::MAX,
            old(self).grown_y_max(y as int) - old(self).grown_y_min(y as int) < i64::MAX,
        ensures
            final(self).wf(),
            !final(self).spec_is_empty(),
            final(self).x_min == old(self).grown_x_min(x as int),
            final(self).y_min == old(self).grown_y_min(y as int),
            final(self).spec_x_max() == old(self).grown_x_max(x as int),
            final(self).spec_y_max() == old(self).grown_y_max(y as int),
    {
        if self.is_empty() {
            self.x_min = x;
            self.y_min = y;
            self.width = 1;
            self.height = 1;
        } else {
            let x_max = if self.x_min + self.width - 1 >= x {
                self.x_min + self.width - 1
            } else {
                x
            };
            let y_max = if self.y_min + self.height - 1 >= y {
                self.y_min + self.height - 1
            } else {
                y
            };
            self.x_min = if self.x_min <= x {
                self.x_min
            } else {
                x
            };
            self.width = x_max - self.x_min + 1;
            self.y_min = if self.y_min <= y {
                self.y_min
            } else {
                y
            };
            self.height = y_max - self.y_min + 1;
        }
    }

    /// Translate a covered x-coordinate to a storage offset from the low
    /// corner.
    pub fn to_grid_x(&self, x: i64) -> (xu: usize)
        requires
            self.x_min <= x,
            x - self.x_min <= usize::MAX,
        ensures
            xu == x - self.x_min,
    {
        ((x as i128) - (self.x_min as i128)) as usize
    }

    /// Translate a covered y-coordinate to a storage offset from the low
    /// corner.
    pub fn to_grid_y(&self, y: i64) -> (yu: usize)
        requires
            self.y_min <= y,
            y - self.y_min <= usize::MAX,
        ensures
            yu == y - self.y_min,
    {
        ((y as i128) - (self.y_min as i128)) as usize
    }

    /// Translate a covered point to storage offsets.
    pub fn to_grid_point(&self, x: i64, y: i64) -> (p: (usize, usize))
        requires
            self.x_min <= x,
            self.y_min <= y,
            x - self.x_min <= usize::MAX,
            y - self.y_min <= usize::MAX,
        ensures
            p.0 == x - self.x_min,
            p.1 == y - self.y_min,
    {
        (self.to_grid_x(x), self.to_grid_y(y))
    }

    /// The x-coordinates the rectangle covers, lowest first.
    pub fn x_range(&self) -> (r: core::ops::Range<i64>)
        requires
            self.wf(),
        ensures
            r.start == self.x_min,
            r.end == self.x_min + self.width,
    {
        self.x_min..self.x_min + self.width
    }

    /// A human-readable description of the rectangle's position and size.
    pub fn describe(&self) -> (s: String)
        ensures
            s@ == rect_desc(*self),
    {
        let mut s = String::new();
        s.append("(minX:");
        let part = i64_string(self.x_min);
        s.append(part.as_str());
        s.append(", minY:");
        let part = i64_string(self.y_min);
        s.append(part.as_str());
        s.append(", width:");
        let part = i64_string(self.width);
        s.append(part.as_str());
        s.append(", height:");
        let part = i64_string(self.height);
        s.append(part.as_str());
        s.append(")");
        s
    }

    /// The y-coordinates the rectangle covers, lowest first.
    pub fn y_range(&self) -> (r: core::ops::Range<i64>)
        requires
            self.wf(),
        ensures
            r.start == self.y_min,
            r.end == self.y_min + self.height,
    {
        self.y_min..self.y_min + self.height
    }
}

/// Growing a tight box to cover one more live cell keeps it tight.
pub proof fn lemma_tight_expand(
    s: CellSet,
    x0: int,
    y0: int,
    x1: int,
    y1: int,
    x: int,
    y: int,
)
    requires
        tight_bounds(s, x0, y0, x1, y1),
        x0 <= x1 && y0 <= y1,
    ensures
        tight_bounds(
            s.insert((x, y)),
            spec_min(x0, x),
            spec_min(y0, y),
            spec_max(x1, x),
            spec_max(y1, y),
        ),
{
    let t = s.insert((x, y));
    assert forall|a: int, b: int| #[trigger] t.contains((a, b)) implies in_box(
        a,
        b,
        spec_min(x0, x),
        spec_min(y0, y),
        spec_max(x1, x),
        spec_max(y1, y),
    ) by {
        if (a, b) != (x, y) {
            assert(s.contains((a, b)));
        }
    }
    let wx0 = choose|b: int| s.contains((x0, b));
    let wx1 = choose|b: int| s.contains((x1, b));
    let wy0 = choose|a: int| s.contains((a, y0));
    let wy1 = choose|a: int| s.contains((a, y1));
    if spec_min(x0, x) == x0 {
        assert(t.contains((x0, wx0)));
    } else {
        assert(t.contains((x, y)));
    }
    if spec_max(x1, x) == x1 {
        assert(t.contains((x1, wx1)));
    } else {
        assert(t.contains((x, y)));
    }
    if spec_min(y0, y) == y0 {
        assert(t.contains((wy0, y0)));
    } else {
        assert(t.contains((x, y)));
    }
    if spec_max(y1, y) == y1 {
        assert(t.contains((wy1, y1)));
    } else {
        assert(t.contains((x, y)));
    }
}

/// The 1x1 box at a cell is the tight box of that single cell over the
/// empty state.
pub proof fn lemma_tight_first(s: CellSet, x: int, y: int)
    requires
        forall|a: int, b: int| !(#[trigger] s.contains((a, b))),
    ensures
        tight_bounds(s.insert((x, y)), x, y, x, y),
{
    assert(s.insert((x, y)).contains((x, y)));
}

} // verus!
