//! Row-major flat storage indexed by two coordinates.  The buffer is laid
//! out one column after another: cell `(x, y)` lives at `y + x * col_size`.
//! A grid is fixed at construction and never resized in place.

use vstd::prelude::*;

verus! {

/// A cell of a `w` by `h` grid has a flat position inside the buffer.
pub proof fn lemma_flat_index_bounds(w: int, h: int, xu: int, yu: int)
    requires
        0 <= xu < w,
        0 <= yu < h,
    ensures
        0 <= yu + xu * h < w * h,
{
    assert(yu + xu * h < w * h) by (nonlinear_arith)
        requires
            0 <= xu < w && 0 <= yu < h,
    ;
    assert(0 <= xu * h) by (nonlinear_arith)
        requires
            0 <= xu && 0 < h,
    ;
}

/// Distinct cells of a grid have distinct flat positions.
pub proof fn lemma_flat_cells_distinct(h: int, a: int, b: int, c: int, d: int)
    requires
        0 <= b < h,
        0 <= d < h,
        a != c || b != d,
    ensures
        b + a * h != d + c * h,
{
    if a != c {
        assert((a - c) * h == a * h - c * h) by (nonlinear_arith);
        if a > c {
            assert((a - c) * h >= h) by (nonlinear_arith)
                requires
                    a - c >= 1 && h > 0,
            ;
        } else {
            assert((a - c) * h <= -h) by (nonlinear_arith)
                requires
                    a - c <= -1 && h > 0,
            ;
        }
    }
}

#[derive(Debug)]
pub struct ArrayGrid<T: Copy> {
    col_size: usize,
    arr: Vec<T>,
}

impl<T: Copy> ArrayGrid<T> {
    /// Cells per column: the grid's extent along y.
    pub closed spec fn spec_col_size(self) -> int {
        self.col_size as int
    }

    /// The flat buffer contents.
    pub closed spec fn contents(self) -> Seq<T> {
        self.arr@
    }

    /// The flat position of cell `(xu, yu)`.
    pub open spec fn spec_index_of(self, xu: int, yu: int) -> int {
        yu + xu * self.spec_col_size()
    }

    /// `(xu, yu)` addresses a slot of the buffer.
    pub open spec fn spec_in_bounds(self, xu: int, yu: int) -> bool {
        &&& 0 <= yu < self.spec_col_size()
        &&& 0 <= xu
        &&& self.spec_index_of(xu, yu) < self.contents().len()
    }

    /// The value stored for cell `(xu, yu)`.
    pub open spec fn spec_cell(self, xu: int, yu: int) -> T {
        self.contents()[self.spec_index_of(xu, yu)]
    }

    pub fn col_size(&self) -> (n: usize)
        ensures
            n == self.spec_col_size(),
    {
        self.col_size
    }

    pub fn len(&self) -> (n: usize)
        ensures
            n == self.contents().len(),
    {
        self.arr.len()
    }

    pub fn set(&mut self, xu: usize, yu: usize, val: T)
        requires
            old(self).spec_in_bounds(xu as int, yu as int),
        ensures
            final(self).spec_col_size() == old(self).spec_col_size(),
            final(self).contents() == old(self).contents().update(
                old(self).spec_index_of(xu as int, yu as int),
                val,
            ),
    {
        let idx = self.get_index(xu, yu);
        self.arr.set(idx, val);
    }

    pub fn get(&self, xu: usize, yu: usize) -> (r: &T)
        requires
            self.spec_in_bounds(xu as int, yu as int),
        ensures
            *r == self.spec_cell(xu as int, yu as int),
    {
        let idx = self.get_index(xu, yu);
        &self.arr[idx]
    }

    pub fn get_mut(&mut self, xu: usize, yu: usize) -> (r: &mut T)
        requires
            old(self).spec_in_bounds(xu as int, yu as int),
        ensures
            *r == old(self).spec_cell(xu as int, yu as int),
            final(self).spec_col_size() == old(self).spec_col_size(),
            final(self).contents() == old(self).contents().update(
                old(self).spec_index_of(xu as int, yu as int),
                *final(r),
            ),
    {
        let idx = self.get_index(xu, yu);
        &mut self.arr[idx]
    }

    fn get_index(&self, xu: usize, yu: usize) -> (idx: usize)
        requires
            self.spec_in_bounds(xu as int, yu as int),
        ensures
            idx == self.spec_index_of(xu as int, yu as int),
    {
        proof {
            assert(self.arr.len() == self.arr@.len());
            assert(0 <= yu + xu * self.col_size < self.arr@.len());
            assert(xu * self.col_size <= yu + xu * self.col_size);
        }
        yu + xu * self.col_size
    }

    /// The flat buffer, one column after another.
    pub fn iter(&self) -> (r: &Vec<T>)
        ensures
            r@ == self.contents(),
    {
        &self.arr
    }

    /// A grid with no cells at all.
    pub fn empty() -> (g: ArrayGrid<T>)
        ensures
            g.spec_col_size() == 0,
            g.contents().len() == 0,
    {
        ArrayGrid { col_size: 0, arr: Vec::new() }
    }

    /// A `row_size` by `col_size` grid with every cell set to `fill`.
    pub fn create(row_size: usize, col_size: usize, fill: T) -> (g: ArrayGrid<T>)
        requires
            row_size * col_size <= usize::MAX,
        ensures
            g.spec_col_size() == col_size,
            g.contents().len() == row_size * col_size,
            forall|i: int| 0 <= i < g.contents().len() ==> g.contents()[i] == fill,
    {
        proof {
            assert(row_size * col_size >= 0) by (nonlinear_arith);
        }
        let size = row_size * col_size;
        let mut arr: Vec<T> = Vec::new();
        let mut i: usize = 0;
        while i < size
            invariant
                i <= size,
                arr@.len() == i,
                forall|j: int| 0 <= j < i ==> arr@[j] == fill,
            decreases size - i,
        {
            arr.push(fill);
            i = i + 1;
        }
        ArrayGrid { col_size, arr }
    }
}

impl<T: Copy> Clone for ArrayGrid<T> {
    /// A cell-for-cell copy of the grid.
    fn clone(&self) -> (g: Self)
        ensures
            g.spec_col_size() == self.spec_col_size(),
            g.contents() == self.contents(),
    {
        let mut arr: Vec<T> = Vec::new();
        let mut i: usize = 0;
        while i < self.arr.len()
            invariant
                i <= self.arr.len(),
                arr@.len() == i,
                forall|j: int| 0 <= j < i ==> arr@[j] == self.arr@[j],
            decreases self.arr.len() - i,
        {
            arr.push(self.arr[i]);
            i = i + 1;
        }
        proof {
            assert(arr@ =~= self.arr@);
        }
        ArrayGrid { col_size: self.col_size, arr }
    }
}

} // verus!
