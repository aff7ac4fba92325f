//! What the game means, stated over the plain contents of a board.

use vstd::prelude::*;
use crate::marker::{Marker, State};

verus! {

/// The contents of a board: its rows from the top, each from the left.
pub type Cells = Seq<Seq<Marker>>;

/// A grid of at least one cell with as many rows as columns, small enough
/// for its cells to be named by machine integers.
pub open spec fn square(g: Cells) -> bool {
    &&& 1 <= g.len() <= usize::MAX
    &&& forall|r: int| 0 <= r < g.len() ==> (#[trigger] g[r]).len() == g.len()
}

/// Whether a row and a column name a cell of the grid.
pub open spec fn inside(g: Cells, row: int, col: int) -> bool {
    0 <= row < g.len() && 0 <= col < g.len()
}

/// The grid with one cell overwritten.
pub open spec fn put(g: Cells, row: int, col: int, m: Marker) -> Cells {
    g.update(row, g[row].update(col, m))
}

/// Every cell of the row holds `m`.
pub open spec fn row_full(g: Cells, row: int, m: Marker) -> bool {
    forall|c: int| 0 <= c < g.len() ==> #[trigger] g[row][c] == m
}

/// Every cell of the column holds `m`.
pub open spec fn col_full(g: Cells, col: int, m: Marker) -> bool {
    forall|r: int| 0 <= r < g.len() ==> #[trigger] g[r][col] == m
}

/// Every cell of the diagonal from the top left holds `m`.
pub open spec fn diag_full(g: Cells, m: Marker) -> bool {
    forall|i: int| 0 <= i < g.len() ==> #[trigger] g[i][i] == m
}

/// Every cell of the diagonal from the top right holds `m`.
pub open spec fn anti_full(g: Cells, m: Marker) -> bool {
    forall|i: int| 0 <= i < g.len() ==> #[trigger] g[i][g.len() - 1 - i] == m
}

/// Some full row, full column or one of the two diagonals holds nothing but `m`.
pub open spec fn wins(g: Cells, m: Marker) -> bool {
    ||| exists|r: int| 0 <= r < g.len() && #[trigger] row_full(g, r, m)
    ||| exists|c: int| 0 <= c < g.len() && #[trigger] col_full(g, c, m)
    ||| diag_full(g, m)
    ||| anti_full(g, m)
}

/// The free cells of row `row` among its first `upto` columns, from the left.
pub open spec fn row_blanks(g: Cells, row: int, upto: int) -> Seq<(usize, usize)>
    decreases upto,
{
    if upto <= 0 {
        Seq::empty()
    } else if g[row][upto - 1] is Empty {
        row_blanks(g, row, upto - 1).push((row as usize, (upto - 1) as usize))
    } else {
        row_blanks(g, row, upto - 1)
    }
}

/// The free cells of the first `upto` rows, row by row from the top.
pub open spec fn blanks_above(g: Cells, upto: int) -> Seq<(usize, usize)>
    decreases upto,
{
    if upto <= 0 {
        Seq::empty()
    } else {
        blanks_above(g, upto - 1) + row_blanks(g, upto - 1, g.len() as int)
    }
}

/// The free cells of the grid as (row, column), rows from the top and each
/// row from the left.
pub open spec fn blank_cells(g: Cells) -> Seq<(usize, usize)> {
    blanks_above(g, g.len() as int)
}

/// The standing of the grid. A line of `X` is looked for before a line of
/// `O`, which only matters on a grid that holds both.
pub open spec fn state_of(g: Cells) -> State {
    if wins(g, Marker::X) {
        State::WinX
    } else if wins(g, Marker::O) {
        State::WinO
    } else if blank_cells(g).len() == 0 {
        State::Draw
    } else {
        State::Incomplete
    }
}

/// One cell comes before another when a reader of the grid meets it first.
pub open spec fn comes_before(p: (usize, usize), q: (usize, usize)) -> bool {
    p.0 < q.0 || (p.0 == q.0 && p.1 < q.1)
}

/// A cell of the grid that is free.
pub open spec fn is_blank(g: Cells, p: (usize, usize)) -> bool {
    inside(g, p.0 as int, p.1 as int) && g[p.0 as int][p.1 as int] is Empty
}

/// Each entry is strictly before the next, as a reader meets them.
pub open spec fn in_reading_order(s: Seq<(usize, usize)>) -> bool {
    forall|i: int, j: int| 0 <= i < j < s.len() ==> comes_before(#[trigger] s[i], #[trigger] s[j])
}

/// The ordinal of a cell on a board of side `n`: the bottom row is numbered
/// first, each row from the left, as on a numeric keypad.
pub open spec fn label_at(n: int, row: int, col: int) -> int {
    (n - 1 - row) * n + col + 1
}

/// The row of the cell that carries the ordinal.
pub open spec fn label_row(n: int, label: int) -> int {
    n - 1 - (label - 1) / n
}

/// The column of the cell that carries the ordinal.
pub open spec fn label_col(n: int, label: int) -> int {
    (label - 1) % n
}

/// The board of side `n` on which no move has been made: each cell free and
/// numbered.
pub open spec fn fresh(n: nat) -> Cells {
    Seq::new(n, |r: int| Seq::new(n, |c: int| Marker::Empty(label_at(n as int, r, c) as usize)))
}

/// Each cell is free and numbered.
pub open spec fn untouched(g: Cells) -> bool {
    &&& square(g)
    &&& forall|r: int, c: int|
        inside(g, r, c) ==> #[trigger] g[r][c] == Marker::Empty(
            label_at(g.len() as int, r, c) as usize,
        )
}

/// There is one grid of each size on which no move has been made.
pub proof fn lemma_untouched(g: Cells)
    requires
        untouched(g),
    ensures
        g == fresh(g.len()),
{
    let f = fresh(g.len());
    assert forall|r: int| 0 <= r < g.len() implies #[trigger] g[r] == f[r] by {
        assert forall|c: int| 0 <= c < g.len() implies g[r][c] == f[r][c] by {
            assert(inside(g, r, c));
        }
        assert(g[r] =~= f[r]);
    }
    assert(g =~= f);
}

/// On the board on which no move has been made each cell is free and
/// numbered.
pub proof fn lemma_fresh(n: nat)
    requires
        1 <= n <= usize::MAX,
    ensures
        untouched(fresh(n)),
        fresh(n).len() == n,
{
}

/// A count of cells read in rows of `n`: taking off what stands in the last,
/// unfinished row leaves the full rows, and there are fewer than `n` of
/// them while the count is below `n * n`.
pub proof fn lemma_split(k: int, n: int)
    requires
        0 <= k,
        1 <= n,
    ensures
        0 <= k % n < n,
        k % n <= k,
        0 <= k / n,
        (k - k % n) / n == k / n,
        k < n * n ==> k / n < n,
{
    vstd::arithmetic::div_mod::lemma_fundamental_div_mod(k, n);
    vstd::arithmetic::div_mod::lemma_div_multiples_vanish(k / n, n);
    assert(n * (k / n) == (k / n) * n) by (nonlinear_arith);
    assert(0 <= k / n) by (nonlinear_arith)
        requires
            0 <= k,
            n >= 1,
            k == n * (k / n) + k % n,
            0 <= k % n < n,
    ;
    assert(0 <= n * (k / n)) by (nonlinear_arith)
        requires
            0 <= k / n,
            n >= 1,
    ;
    if k < n * n {
        assert(k / n < n) by (nonlinear_arith)
            requires
                0 <= k < n * n,
                n >= 1,
                k == n * (k / n) + k % n,
                0 <= k % n < n,
        ;
    }
}

/// Overwriting a cell of a square grid leaves a square grid that differs
/// in that cell alone.
pub proof fn lemma_put_square(g: Cells, row: int, col: int, m: Marker)
    requires
        square(g),
        inside(g, row, col),
    ensures
        square(put(g, row, col, m)),
        put(g, row, col, m).len() == g.len(),
        put(g, row, col, m)[row][col] == m,
        forall|r: int, c: int|
            inside(g, r, c) && (r != row || c != col) ==> #[trigger] put(g, row, col, m)[r][c]
                == g[r][c],
{
    let h = put(g, row, col, m);
    assert forall|r: int| 0 <= r < h.len() implies (#[trigger] h[r]).len() == h.len() by {
        if r == row {
        } else {
            assert(h[r] == g[r]);
        }
    }
    assert forall|r: int, c: int|
        inside(g, r, c) && (r != row || c != col) implies #[trigger] h[r][c] == g[r][c] by {
        if r == row {
        } else {
            assert(h[r] == g[r]);
        }
    }
}

proof fn lemma_row_blanks(g: Cells, row: int, upto: int)
    requires
        square(g),
        0 <= row < g.len(),
        0 <= upto <= g.len(),
    ensures
        row_blanks(g, row, upto).len() <= upto,
        forall|i: int|
            0 <= i < row_blanks(g, row, upto).len() ==> {
                let p = #[trigger] row_blanks(g, row, upto)[i];
                p.0 == row && p.1 < upto && is_blank(g, p)
            },
        forall|c: int|
            0 <= c < upto && g[row][c] is Empty ==> row_blanks(g, row, upto).contains(
                (row as usize, c as usize),
            ),
        in_reading_order(row_blanks(g, row, upto)),
    decreases upto,
{
    if upto > 0 {
        lemma_row_blanks(g, row, upto - 1);
        let before = row_blanks(g, row, upto - 1);
        let all = row_blanks(g, row, upto);
        let last = (row as usize, (upto - 1) as usize);
        if g[row][upto - 1] is Empty {
            assert(all == before.push(last));
            assert(all[before.len() as int] == last);
            assert forall|c: int| 0 <= c < upto && g[row][c] is Empty implies all.contains(
                (row as usize, c as usize),
            ) by {
                if c < upto - 1 {
                    let i = choose|i: int|
                        0 <= i < before.len() && before[i] == (row as usize, c as usize);
                    assert(all[i] == (row as usize, c as usize));
                } else {
                    assert(all[before.len() as int] == (row as usize, c as usize));
                }
            }
            assert forall|i: int, j: int| 0 <= i < j < all.len() implies comes_before(
                #[trigger] all[i],
                #[trigger] all[j],
            ) by {
                if j < before.len() {
                    assert(all[i] == before[i] && all[j] == before[j]);
                } else {
                    assert(all[i] == before[i]);
                }
            }
        } else {
            assert(all == before);
        }
    }
}

proof fn lemma_blanks_above(g: Cells, upto: int)
    requires
        square(g),
        0 <= upto <= g.len(),
    ensures
        forall|i: int|
            0 <= i < blanks_above(g, upto).len() ==> {
                let p = #[trigger] blanks_above(g, upto)[i];
                p.0 < upto && is_blank(g, p)
            },
        forall|r: int, c: int|
            0 <= r < upto && 0 <= c < g.len() && g[r][c] is Empty ==> blanks_above(
                g,
                upto,
            ).contains((r as usize, c as usize)),
        in_reading_order(blanks_above(g, upto)),
    decreases upto,
{
    if upto > 0 {
        lemma_blanks_above(g, upto - 1);
        lemma_row_blanks(g, upto - 1, g.len() as int);
        let before = blanks_above(g, upto - 1);
        let row = row_blanks(g, upto - 1, g.len() as int);
        let all = blanks_above(g, upto);
        assert(all == before + row);
        assert forall|i: int| 0 <= i < all.len() implies ({
            let p = #[trigger] all[i];
            p.0 < upto && is_blank(g, p)
        }) by {
            if i < before.len() {
                assert(all[i] == before[i]);
            } else {
                assert(all[i] == row[i - before.len()]);
            }
        }
        assert forall|r: int, c: int|
            0 <= r < upto && 0 <= c < g.len() && g[r][c] is Empty implies all.contains(
            (r as usize, c as usize),
        ) by {
            let p = (r as usize, c as usize);
            if r < upto - 1 {
                let i = choose|i: int| 0 <= i < before.len() && before[i] == p;
                assert(all[i] == p);
            } else {
                let i = choose|i: int| 0 <= i < row.len() && row[i] == p;
                assert(all[before.len() + i] == p);
            }
        }
        assert forall|i: int, j: int| 0 <= i < j < all.len() implies comes_before(
            #[trigger] all[i],
            #[trigger] all[j],
        ) by {
            if j < before.len() {
                assert(all[i] == before[i] && all[j] == before[j]);
            } else if i < before.len() {
                assert(all[i] == before[i] && all[j] == row[j - before.len()]);
            } else {
                assert(all[i] == row[i - before.len()] && all[j] == row[j - before.len()]);
            }
        }
    }
}

/// The list of free cells holds exactly the free cells of the grid, each
/// once, in the order in which a reader meets them.
pub proof fn lemma_blank_cells(g: Cells)
    requires
        square(g),
    ensures
        forall|i: int| 0 <= i < blank_cells(g).len() ==> is_blank(g, #[trigger] blank_cells(g)[i]),
        forall|p: (usize, usize)| is_blank(g, p) <==> #[trigger] blank_cells(g).contains(p),
        in_reading_order(blank_cells(g)),
        blank_cells(g).no_duplicates(),
{
    lemma_blanks_above(g, g.len() as int);
    let s = blank_cells(g);
    assert forall|p: (usize, usize)| is_blank(g, p) <==> #[trigger] s.contains(p) by {
        if is_blank(g, p) {
            assert(g[p.0 as int][p.1 as int] is Empty);
            assert((p.0 as int as usize, p.1 as int as usize) == p);
        }
        if s.contains(p) {
            let i = choose|i: int| 0 <= i < s.len() && s[i] == p;
            assert(is_blank(g, s[i]));
        }
    }
    assert forall|i: int, j: int| 0 <= i < s.len() && 0 <= j < s.len() && i != j implies s[i]
        != s[j] by {
        if i < j {
            assert(comes_before(s[i], s[j]));
        } else {
            assert(comes_before(s[j], s[i]));
        }
    }
}

} // verus!
