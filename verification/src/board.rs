//! The board: a square grid of markers and the questions the game asks of it.

use vstd::prelude::*;
use vstd::string::StrSliceExecFns;
use crate::grid::{grid_rows, grid_width, Grid};
use crate::marker::{decimal, GameError, Marker, State};
use crate::rules::{
    blank_cells, blanks_above, col_full, fresh, inside, is_blank, label_at, label_col, label_row,
    lemma_put_square, lemma_split, lemma_untouched, put, row_blanks, row_full, square, state_of,
    wins, Cells,
};

verus! {

/// A side length with which a board can be made: at least one, and small
/// enough for the cells to be allocated.
pub open spec fn fits(n: int) -> bool {
    1 <= n && n * n * 16 <= isize::MAX
}

/// The printed length of the longest ordinal on a board of side `n`.
pub open spec fn label_width(n: int) -> nat {
    decimal((n * n) as nat).len()
}

proof fn lemma_fits(n: int)
    requires
        fits(n),
    ensures
        n <= n * n,
        n * n <= usize::MAX,
        n <= usize::MAX,
{
    assert(n <= n * n) by (nonlinear_arith)
        requires
            1 <= n,
    ;
}

proof fn lemma_label_bounds(n: int, row: int, col: int)
    requires
        1 <= n,
        0 <= row < n,
        0 <= col < n,
    ensures
        0 <= (n - 1 - row) * n,
        1 <= label_at(n, row, col) <= n * n,
{
    assert(0 <= (n - 1 - row) * n && (n - 1 - row) * n + n <= n * n) by (nonlinear_arith)
        requires
            1 <= n,
            0 <= row < n,
    ;
}

/// Gives every cell its ordinal and frees it.
fn number_cells(grid: &mut Grid)
    requires
        square(grid_rows(*old(grid))),
        grid_width(*old(grid)) == grid_rows(*old(grid)).len(),
        fits(grid_rows(*old(grid)).len() as int),
    ensures
        grid_rows(*final(grid)) == fresh(grid_rows(*old(grid)).len()),
        grid_rows(*final(grid)).len() == grid_rows(*old(grid)).len(),
        square(grid_rows(*final(grid))),
        grid_width(*final(grid)) == grid_width(*old(grid)),
    no_unwind
{
    let n = grid.nrows();
    proof {
        lemma_fits(n as int);
    }
    let mut row: usize = 0;
    while row < n
        invariant
            0 <= row <= n,
            n == grid_rows(*grid).len(),
            grid_width(*grid) == n,
            square(grid_rows(*grid)),
            fits(n as int),
            forall|r: int, c: int|
                0 <= r < row && 0 <= c < n ==> #[trigger] grid_rows(*grid)[r][c] == Marker::Empty(
                    label_at(n as int, r, c) as usize,
                ),
        decreases n - row,
    {
        let mut col: usize = 0;
        while col < n
            invariant
                0 <= row < n,
                0 <= col <= n,
                n == grid_rows(*grid).len(),
                grid_width(*grid) == n,
                square(grid_rows(*grid)),
                fits(n as int),
                forall|r: int, c: int|
                    0 <= r < row && 0 <= c < n ==> #[trigger] grid_rows(*grid)[r][c]
                        == Marker::Empty(label_at(n as int, r, c) as usize),
                forall|c: int|
                    0 <= c < col ==> #[trigger] grid_rows(*grid)[row as int][c] == Marker::Empty(
                        label_at(n as int, row as int, c) as usize,
                    ),
            decreases n - col,
        {
            proof {
                lemma_fits(n as int);
                lemma_label_bounds(n as int, row as int, col as int);
            }
            let label: usize = (n - 1 - row) * n + col + 1;
            let ghost before = grid_rows(*grid);
            proof {
                lemma_put_square(before, row as int, col as int, Marker::Empty(label));
            }
            grid.set(row, col, Marker::Empty(label));
            col = col + 1;
        }
        row = row + 1;
    }
    proof {
        lemma_untouched(grid_rows(*grid));
    }
}

/// The number of characters in which the largest ordinal of the board is written.
fn printed_width(n: usize) -> (w: usize)
    requires
        fits(n as int),
    ensures
        w == label_width(n as int),
{
    proof {
        lemma_fits(n as int);
    }
    let text = Marker::Empty(n * n).string();
    text.as_str().unicode_len()
}

/// A square grid of markers.
pub struct Board {
    grid: Grid,
    width: usize,
}

impl View for Board {
    type V = Cells;

    closed spec fn view(&self) -> Cells {
        grid_rows(self.grid)
    }
}

impl Clone for Board {
    /// A board of its own with the same cells.
    fn clone(&self) -> (copy: Board)
        ensures
            copy@ == self@,
            copy.spec_width() == self.spec_width(),
    {
        proof {
            use_type_invariant(self);
        }
        Board { grid: self.grid.duplicate(), width: self.width }
    }
}

impl Board {
    /// What holds of every board: it is square, can be allocated, and
    /// knows its display width.
    #[verifier::type_invariant]
    pub closed spec fn wf(self) -> bool {
        &&& square(grid_rows(self.grid))
        &&& grid_width(self.grid) == grid_rows(self.grid).len()
        &&& fits(grid_rows(self.grid).len() as int)
        &&& self.width == label_width(grid_rows(self.grid).len() as int)
    }

    /// The display width: the printed length of the longest ordinal.
    pub closed spec fn spec_width(&self) -> nat {
        self.width as nat
    }

    /// What holds of every board.
    pub proof fn lemma_wf(self)
        requires
            self.wf(),
        ensures
            square(self@),
            fits(self@.len() as int),
            self.spec_width() == label_width(self@.len() as int),
    {
    }

    /// Whether a board of side `n` can be made.
    pub fn size_ok(n: usize) -> (ok: bool)
        ensures
            ok == fits(n as int),
    {
        if n == 0 {
            return false;
        }
        let cap: usize = (isize::MAX as usize) / 16;
        let ok = n <= cap / n;
        proof {
            let m = isize::MAX as int;
            let c = cap as int;
            let k = n as int;
            assert(c == m / 16);
            if ok {
                assert(k * k <= c) by (nonlinear_arith)
                    requires
                        1 <= k,
                        k <= c / k,
                        0 <= c,
                ;
                assert(k * k * 16 <= m);
            } else {
                assert(k * k > c) by (nonlinear_arith)
                    requires
                        1 <= k,
                        k > c / k,
                        0 <= c,
                ;
                assert(k * k * 16 > m);
            }
        }
        ok
    }

    /// A board of side `n` on which no move has been made.
    pub fn new(n: usize) -> (b: Board)
        requires
            fits(n as int),
        ensures
            b@ == fresh(n as nat),
            b.spec_width() == label_width(n as int),
    {
        let mut grid = Grid::filled(n, n, Marker::Empty(0));
        number_cells(&mut grid);
        let width = printed_width(n);
        Board { grid, width }
    }

    /// The side length of the board.
    pub fn nrows(&self) -> (n: usize)
        ensures
            n == self@.len(),
            square(self@),
            fits(n as int),
    {
        proof {
            use_type_invariant(self);
        }
        self.grid.nrows()
    }

    /// The side length of the board.
    pub fn ncols(&self) -> (n: usize)
        ensures
            n == self@.len(),
            square(self@),
            fits(n as int),
    {
        proof {
            use_type_invariant(self);
        }
        self.grid.ncols()
    }

    /// The number of cells.
    pub fn size(&self) -> (cells: usize)
        ensures
            cells == self@.len() * self@.len(),
    {
        let n = self.ncols();
        proof {
            lemma_fits(n as int);
        }
        n * self.nrows()
    }

    /// The display width: the printed length of the longest ordinal.
    pub fn width(&self) -> (w: usize)
        ensures
            w == self.spec_width(),
            w == label_width(self@.len() as int),
    {
        proof {
            use_type_invariant(self);
        }
        self.width
    }

    fn at(&self, row: usize, col: usize) -> (m: Marker)
        requires
            inside(self@, row as int, col as int),
        ensures
            m == self@[row as int][col as int],
    {
        proof {
            use_type_invariant(self);
        }
        self.grid.get(row, col)
    }

    /// What the cell holds.
    pub fn get(&self, row: usize, col: usize) -> (r: Result<Marker, GameError>)
        ensures
            inside(self@, row as int, col as int) ==> r == Ok::<Marker, GameError>(
                self@[row as int][col as int],
            ),
            !inside(self@, row as int, col as int) ==> r == Err::<Marker, GameError>(
                GameError::OutOfBounds,
            ),
    {
        let n = self.nrows();
        if row < n && col < n {
            Ok(self.at(row, col))
        } else {
            Err(GameError::OutOfBounds)
        }
    }

    /// Puts `marker` on a free cell. A cell outside the grid is refused as
    /// out of bounds, a cell that is not free as occupied, and the board is
    /// then left as it was. The marker is meant to be the mark of a side;
    /// the marker of a free cell is written like any other, which leaves
    /// the cell free under another ordinal.
    pub fn place(&mut self, row: usize, col: usize, marker: Marker) -> (r: Result<(), GameError>)
        ensures
            !inside(old(self)@, row as int, col as int) ==> r == Err::<(), GameError>(
                GameError::OutOfBounds,
            ),
            inside(old(self)@, row as int, col as int) && !is_blank(old(self)@, (row, col)) ==> r
                == Err::<(), GameError>(GameError::CellOccupied),
            is_blank(old(self)@, (row, col)) ==> r == Ok::<(), GameError>(()),
            r is Ok ==> final(self)@ == put(old(self)@, row as int, col as int, marker),
            r is Err ==> final(self)@ == old(self)@,
            final(self).spec_width() == old(self).spec_width(),
    {
        proof {
            use_type_invariant(&*self);
        }
        let n = self.grid.nrows();
        if row >= n || col >= n {
            return Err(GameError::OutOfBounds);
        }
        if !self.grid.get(row, col).is_empty() {
            return Err(GameError::CellOccupied);
        }
        proof {
            lemma_put_square(grid_rows(self.grid), row as int, col as int, marker);
        }
        self.grid.set(row, col, marker);
        Ok(())
    }

    /// The free cells as (row, column), rows from the top and each row from
    /// the left.
    pub fn get_blanks(&self) -> (empties: Vec<(usize, usize)>)
        ensures
            empties@ == blank_cells(self@),
    {
        let n = self.nrows();
        let mut empties: Vec<(usize, usize)> = Vec::new();
        let mut row: usize = 0;
        while row < n
            invariant
                0 <= row <= n,
                n == self@.len(),
                square(self@),
                empties@ == blanks_above(self@, row as int),
            decreases n - row,
        {
            let ghost done = empties@;
            let mut col: usize = 0;
            while col < n
                invariant
                    0 <= row < n,
                    0 <= col <= n,
                    n == self@.len(),
                    square(self@),
                    done == blanks_above(self@, row as int),
                    empties@ == done + row_blanks(self@, row as int, col as int),
                decreases n - col,
            {
                if self.at(row, col).is_empty() {
                    empties.push((row, col));
                }
                assert(empties@ =~= done + row_blanks(self@, row as int, col + 1));
                col = col + 1;
            }
            row = row + 1;
        }
        empties
    }

    /// Whether some full row, full column or diagonal holds nothing but `marker`.
    pub fn check_win(&self, marker: Marker) -> (won: bool)
        ensures
            won == wins(self@, marker),
    {
        let n = self.nrows();
        let mut winul = true;
        let mut winur = true;
        let mut i: usize = 0;
        while i < n
            invariant
                0 <= i <= n,
                n == self@.len(),
                square(self@),
                winul == (forall|k: int| 0 <= k < i ==> #[trigger] self@[k][k] == marker),
                winur == (forall|k: int| 0 <= k < i ==> #[trigger] self@[k][n - 1 - k] == marker),
                forall|r: int| 0 <= r < i ==> !#[trigger] row_full(self@, r, marker),
                forall|c: int| 0 <= c < i ==> !#[trigger] col_full(self@, c, marker),
            decreases n - i,
        {
            let mut winrow = true;
            let mut wincol = true;
            let mut j: usize = 0;
            while j < n
                invariant
                    0 <= i < n,
                    0 <= j <= n,
                    n == self@.len(),
                    square(self@),
                    winrow == (forall|c: int|
                        0 <= c < j ==> #[trigger] self@[i as int][c] == marker),
                    wincol == (forall|r: int|
                        0 <= r < j ==> #[trigger] self@[r][i as int] == marker),
                decreases n - j,
            {
                winrow = winrow && self.at(i, j) == marker;
                wincol = wincol && self.at(j, i) == marker;
                j = j + 1;
            }
            if winrow || wincol {
                assert(row_full(self@, i as int, marker) || col_full(self@, i as int, marker));
                return true;
            }
            winul = winul && self.at(i, i) == marker;
            winur = winur && self.at(i, n - 1 - i) == marker;
            i = i + 1;
        }
        winul || winur
    }

    /// The standing of the game: the win of `X` where `X` holds a line,
    /// else the win of `O` where `O` holds one, else a draw where no cell is
    /// free, and else a game that goes on.
    pub fn get_state(&self) -> (s: State)
        ensures
            s == state_of(self@),
    {
        if self.check_win(Marker::X) {
            State::WinX
        } else if self.check_win(Marker::O) {
            State::WinO
        } else if self.get_blanks().len() == 0 {
            State::Draw
        } else {
            State::Incomplete
        }
    }

    /// Frees every cell, numbers the cells anew and works out the display width.
    pub fn clear(&mut self)
        ensures
            final(self)@ == fresh(old(self)@.len()),
            final(self).spec_width() == old(self).spec_width(),
    {
        proof {
            use_type_invariant(&*self);
        }
        let n = self.grid.nrows();
        number_cells(&mut self.grid);
        self.width = printed_width(n);
    }

    /// The cell that a reader meets after `num` others.
    pub fn enumerate_to_index(&self, num: usize) -> (p: (usize, usize))
        ensures
            p.0 == num as int / self@.len() as int,
            p.1 == num as int % self@.len() as int,
    {
        let n = self.ncols();
        let y = num % n;
        proof {
            lemma_split(num as int, n as int);
        }
        let x = (num - y) / n;
        (x, y)
    }

    /// The cell that carries the ordinal `num`.
    pub fn input_to_index(&self, num: usize) -> (p: (usize, usize))
        requires
            1 <= num <= self@.len() * self@.len(),
        ensures
            p.0 == label_row(self@.len() as int, num as int),
            p.1 == label_col(self@.len() as int, num as int),
            inside(self@, p.0 as int, p.1 as int),
    {
        let n = self.ncols();
        let num = num - 1;
        let y = num % n;
        proof {
            lemma_split(num as int, n as int);
        }
        let x = n - 1 - (num - y) / n;
        (x, y)
    }

    /// The ordinal that the cell carries while it is free.
    pub fn index_to_input(&self, row: usize, col: usize) -> (num: usize)
        requires
            inside(self@, row as int, col as int),
        ensures
            num == label_at(self@.len() as int, row as int, col as int),
            1 <= num <= self@.len() * self@.len(),
    {
        let n = self.ncols();
        proof {
            lemma_fits(n as int);
            lemma_label_bounds(n as int, row as int, col as int);
        }
        (n - 1 - row) * n + col + 1
    }
}

} // verus!
