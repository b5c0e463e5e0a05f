//! The two-dimensional `ndarray` array that holds a formula's literals. The array
//! stays in a private field of `LiteralGrid`, opaque to the proofs; what it holds,
//! row by row, is named by `grid_rows`, and the trusted methods below are each one
//! call into ndarray.

use vstd::prelude::*;
use ndarray::Array2;

verus! {

/// A two-dimensional `ndarray::Array2<i32>`.
#[verifier::external_body]
#[derive(Debug)]
pub struct LiteralGrid {
    cells: Array2<i32>,
}

/// What a grid holds, row by row.
pub uninterp spec fn grid_rows(g: LiteralGrid) -> Seq<Seq<i32>>;

impl LiteralGrid {
    /// `Array2::zeros((rows, cols))`: `rows` rows of `cols` zeros. ndarray panics
    /// where the product of the non-zero lengths exceeds `isize::MAX`, and the
    /// allocation of `rows * cols` values of four bytes fails beyond that.
    #[verifier::external_body]
    pub(crate) fn zeros(rows: usize, cols: usize) -> (r: LiteralGrid)
        requires
            rows <= isize::MAX,
            cols <= isize::MAX,
            rows * cols * 4 <= isize::MAX,
        ensures
            grid_rows(r).len() == rows,
            forall|i: int|
                0 <= i < rows ==> #[trigger] grid_rows(r)[i] == Seq::new(cols as nat, |j: int| 0i32),
    {
        LiteralGrid { cells: Array2::zeros((rows, cols)) }
    }

    /// `cells[[i, j]]`: the cell in row `i` and column `j` (ndarray panics out of bounds).
    #[verifier::external_body]
    pub(crate) fn get(&self, i: usize, j: usize) -> (r: i32)
        requires
            i < grid_rows(*self).len(),
            j < grid_rows(*self)[i as int].len(),
        ensures
            r == grid_rows(*self)[i as int][j as int],
    {
        self.cells[[i, j]]
    }

    /// `cells[[i, j]] = v`: writes one cell and leaves every other one as it was.
    #[verifier::external_body]
    pub(crate) fn set(&mut self, i: usize, j: usize, v: i32)
        requires
            i < grid_rows(*old(self)).len(),
            j < grid_rows(*old(self))[i as int].len(),
        ensures
            grid_rows(*final(self)) == grid_rows(*old(self)).update(
                i as int,
                grid_rows(*old(self))[i as int].update(j as int, v),
            ),
    {
        self.cells[[i, j]] = v;
    }
}

} // verus!
