//! The table that holds the cells of a board: a two-dimensional array of
//! the `ndarray` crate. Nothing in this file is proved; what is said of each
//! call is what the crate does.

use vstd::prelude::*;
use crate::marker::Marker;

verus! {

/// A rectangular table of markers, held in an `ndarray::Array2`.
#[verifier::external_body]
pub struct Grid {
    cells: ndarray::Array2<Marker>,
}

/// The rows of a table, top row first, each from left to right.
pub uninterp spec fn grid_rows(g: Grid) -> Seq<Seq<Marker>>;

/// The number of columns a table was made with.
pub uninterp spec fn grid_width(g: Grid) -> nat;

impl Grid {
    /// `Array2::from_elem` with the shape `(rows, cols)`: a table of that
    /// many rows and columns with `fill` in every cell. The call panics
    /// where the number of cells overflows `isize`, and the allocation of
    /// the cells where their bytes do, a cell taking sixteen at most; both
    /// are left out.
    #[verifier::external_body]
    pub(crate) fn filled(rows: usize, cols: usize, fill: Marker) -> (g: Grid)
        requires
            1 <= rows,
            1 <= cols,
            rows * cols * 16 <= isize::MAX,
        ensures
            grid_rows(g).len() == rows,
            grid_width(g) == cols,
            forall|r: int| 0 <= r < rows ==> (#[trigger] grid_rows(g)[r]).len() == cols,
            forall|r: int, c: int|
                0 <= r < rows && 0 <= c < cols ==> #[trigger] grid_rows(g)[r][c] == fill,
    {
        Grid { cells: ndarray::Array2::from_elem((rows, cols), fill) }
    }

    /// `ArrayBase::nrows`: the number of rows. The call does not panic.
    #[verifier::external_body]
    pub(crate) fn nrows(&self) -> (n: usize)
        ensures
            n == grid_rows(*self).len(),
        no_unwind
    {
        self.cells.nrows()
    }

    /// `ArrayBase::ncols`: the number of columns.
    #[verifier::external_body]
    pub(crate) fn ncols(&self) -> (n: usize)
        ensures
            n == grid_width(*self),
    {
        self.cells.ncols()
    }

    /// Indexing with `[row, col]`: the marker in that row and column. An
    /// index outside the table makes the call panic and is left out.
    #[verifier::external_body]
    pub(crate) fn get(&self, row: usize, col: usize) -> (m: Marker)
        requires
            row < grid_rows(*self).len(),
            col < grid_width(*self),
        ensures
            m == grid_rows(*self)[row as int][col as int],
    {
        self.cells[[row, col]]
    }

    /// Assignment through indexing with `[row, col]`: that cell holds `m`
    /// afterwards, and every other cell and the shape are as before. An
    /// index outside the table makes the call panic and is left out; with
    /// an index inside it the call does not panic.
    #[verifier::external_body]
    pub(crate) fn set(&mut self, row: usize, col: usize, m: Marker)
        requires
            row < grid_rows(*old(self)).len(),
            col < grid_width(*old(self)),
        ensures
            grid_rows(*final(self)) == grid_rows(*old(self)).update(
                row as int,
                grid_rows(*old(self))[row as int].update(col as int, m),
            ),
            grid_width(*final(self)) == grid_width(*old(self)),
        no_unwind
    {
        self.cells[[row, col]] = m;
    }

    /// `Clone::clone` of the array: a table of its own with the same shape
    /// and the same markers.
    #[verifier::external_body]
    pub(crate) fn duplicate(&self) -> (g: Grid)
        ensures
            grid_rows(g) == grid_rows(*self),
            grid_width(g) == grid_width(*self),
    {
        Grid { cells: self.cells.clone() }
    }
}

} // verus!
