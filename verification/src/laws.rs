//! What holds of the game whatever the board and whoever moves.

use vstd::prelude::*;
use crate::marker::{Marker, State};
use crate::rules::{
    anti_full, blank_cells, blanks_above, col_full, comes_before, diag_full, in_reading_order,
    fresh, inside, is_blank, label_at, label_col, label_row, lemma_blank_cells, lemma_fresh,
    lemma_put_square, lemma_split, row_blanks, row_full, square, state_of, untouched, wins, Cells,
};
use crate::search::{
    after, lemma_settles_first, score, settled, settles_first, settling_move, top_moves, settles,
};
use crate::scheduler::{Phase, Session};
use crate::strategy::{completes, urgent, urgent_first};

verus! {

proof fn lemma_untouched_row(g: Cells, row: int, upto: int)
    requires
        untouched(g),
        0 <= row < g.len(),
        0 <= upto <= g.len(),
    ensures
        row_blanks(g, row, upto).len() == upto,
    decreases upto,
{
    if upto > 0 {
        lemma_untouched_row(g, row, upto - 1);
        assert(g[row][upto - 1] is Empty);
    }
}

proof fn lemma_untouched_rows(g: Cells, upto: int)
    requires
        untouched(g),
        0 <= upto <= g.len(),
    ensures
        blanks_above(g, upto).len() == upto * g.len(),
    decreases upto,
{
    if upto > 0 {
        lemma_untouched_rows(g, upto - 1);
        lemma_untouched_row(g, upto - 1, g.len() as int);
        assert((upto - 1) * g.len() + g.len() == upto * g.len()) by (nonlinear_arith);
    }
}

/// On a board on which no move has been made the game goes on, and every
/// cell is free.
pub proof fn lemma_fresh_board(n: nat)
    requires
        1 <= n <= usize::MAX,
    ensures
        square(fresh(n)),
        state_of(fresh(n)) == State::Incomplete,
        blank_cells(fresh(n)).len() == n * n,
        !wins(fresh(n), Marker::X),
        !wins(fresh(n), Marker::O),
{
    let g = fresh(n);
    let side = n as int;
    lemma_fresh(n);
    lemma_untouched_rows(g, side);
    assert(side * side >= 1) by (nonlinear_arith)
        requires
            side >= 1,
    ;
    assert forall|m: Marker| m.is_side() implies !wins(g, m) by {
        assert(g[0][0] is Empty);
        assert(g[0][side - 1] is Empty);
        assert(!diag_full(g, m));
        assert(!anti_full(g, m));
        assert forall|r: int| 0 <= r < side implies !#[trigger] row_full(g, r, m) by {
            assert(g[r][0] is Empty);
        }
        assert forall|c: int| 0 <= c < side implies !#[trigger] col_full(g, c, m) by {
            assert(g[0][c] is Empty);
        }
    }
    assert(Marker::X.is_side() && Marker::O.is_side());
}

/// A board without a free cell on which neither side has a line is a draw.
pub proof fn lemma_full_board_is_draw(g: Cells)
    requires
        blank_cells(g).len() == 0,
        !wins(g, Marker::X),
        !wins(g, Marker::O),
    ensures
        state_of(g) == State::Draw,
{
}

/// A board with a free cell on which neither side has a line goes on.
pub proof fn lemma_open_board_goes_on(g: Cells)
    requires
        blank_cells(g).len() > 0,
        !wins(g, Marker::X),
        !wins(g, Marker::O),
    ensures
        state_of(g) == State::Incomplete,
{
}

/// Two lists in reading order that hold the same cells are one list.
proof fn lemma_lists_agree(s: Seq<(usize, usize)>, t: Seq<(usize, usize)>)
    requires
        in_reading_order(s),
        in_reading_order(t),
        forall|p: (usize, usize)| s.contains(p) <==> t.contains(p),
    ensures
        s == t,
    decreases s.len(),
{
    if s.len() == 0 {
        if t.len() > 0 {
            assert(t.contains(t[0]));
        }
        assert(s =~= t);
    } else {
        let a = s.last();
        assert(s.contains(a));
        assert(t.contains(a));
        let b = t.last();
        assert(t.contains(b));
        assert(s.contains(b));
        let i = choose|i: int| 0 <= i < s.len() && s[i] == b;
        let j = choose|j: int| 0 <= j < t.len() && t[j] == a;
        if i < s.len() - 1 {
            assert(comes_before(s[i], s[s.len() - 1]));
            if j < t.len() - 1 {
                assert(comes_before(t[j], t[t.len() - 1]));
            }
        }
        assert(a == b);
        let s1 = s.drop_last();
        let t1 = t.drop_last();
        assert forall|p: (usize, usize)| s1.contains(p) <==> t1.contains(p) by {
            if s1.contains(p) {
                let k = choose|k: int| 0 <= k < s1.len() && s1[k] == p;
                assert(s[k] == p);
                assert(comes_before(s[k], s[s.len() - 1]));
                assert(s.contains(p));
                let l = choose|l: int| 0 <= l < t.len() && t[l] == p;
                assert(l < t.len() - 1);
                assert(t1[l] == p);
            }
            if t1.contains(p) {
                let k = choose|k: int| 0 <= k < t1.len() && t1[k] == p;
                assert(t[k] == p);
                assert(comes_before(t[k], t[t.len() - 1]));
                assert(t.contains(p));
                let l = choose|l: int| 0 <= l < s.len() && s[l] == p;
                assert(l < s.len() - 1);
                assert(s1[l] == p);
            }
        }
        assert forall|x: int, y: int| 0 <= x < y < s1.len() implies comes_before(
            #[trigger] s1[x],
            #[trigger] s1[y],
        ) by {
            assert(s1[x] == s[x] && s1[y] == s[y]);
        }
        assert forall|x: int, y: int| 0 <= x < y < t1.len() implies comes_before(
            #[trigger] t1[x],
            #[trigger] t1[y],
        ) by {
            assert(t1[x] == t[x] && t1[y] == t[y]);
        }
        lemma_lists_agree(s1, t1);
        assert(s =~= s1.push(a));
        assert(t =~= t1.push(b));
    }
}

/// The list of free cells is the only list that holds the free cells of
/// the grid, and no others, in reading order.
pub proof fn lemma_blank_cells_unique(g: Cells, s: Seq<(usize, usize)>)
    requires
        square(g),
        in_reading_order(s),
        forall|p: (usize, usize)| s.contains(p) <==> is_blank(g, p),
    ensures
        s == blank_cells(g),
{
    lemma_blank_cells(g);
    assert forall|p: (usize, usize)| s.contains(p) <==> blank_cells(g).contains(p) by {
        assert(is_blank(g, p) <==> blank_cells(g).contains(p));
    }
    lemma_lists_agree(s, blank_cells(g));
}

/// A move of a side on a free cell takes that cell from the free cells and
/// leaves the others, in their order; and every cell that a side held
/// before the move it holds after it.
pub proof fn lemma_move_takes_one_cell(g: Cells, p: (usize, usize), m: Marker)
    requires
        square(g),
        is_blank(g, p),
        m.is_side(),
    ensures
        square(after(g, p, m)),
        blank_cells(g).contains(p),
        blank_cells(after(g, p, m)) == blank_cells(g).remove(blank_cells(g).index_of(p)),
        blank_cells(after(g, p, m)).len() == blank_cells(g).len() - 1,
        forall|r: int, c: int|
            inside(g, r, c) && !(g[r][c] is Empty) ==> #[trigger] after(g, p, m)[r][c] == g[r][c],
{
    let bs = blank_cells(g);
    let h = after(g, p, m);
    lemma_blank_cells(g);
    lemma_put_square(g, p.0 as int, p.1 as int, m);
    assert(bs.contains(p));
    let i = bs.index_of(p);
    assert(0 <= i < bs.len() && bs[i] == p);
    let t = bs.remove(i);
    assert forall|x: int, y: int| 0 <= x < y < t.len() implies comes_before(
        #[trigger] t[x],
        #[trigger] t[y],
    ) by {
        let x0 = if x < i {
            x
        } else {
            x + 1
        };
        let y0 = if y < i {
            y
        } else {
            y + 1
        };
        assert(t[x] == bs[x0] && t[y] == bs[y0]);
    }
    assert forall|q: (usize, usize)| t.contains(q) <==> is_blank(h, q) by {
        if t.contains(q) {
            let x = choose|x: int| 0 <= x < t.len() && t[x] == q;
            let x0 = if x < i {
                x
            } else {
                x + 1
            };
            assert(bs[x0] == q);
            assert(is_blank(g, bs[x0]));
            assert(q != p);
            assert(h[q.0 as int][q.1 as int] == g[q.0 as int][q.1 as int]);
        }
        if is_blank(h, q) {
            assert(q != p);
            assert(h[q.0 as int][q.1 as int] == g[q.0 as int][q.1 as int]);
            assert(is_blank(g, q));
            assert(bs.contains(q));
            let x0 = choose|x0: int| 0 <= x0 < bs.len() && bs[x0] == q;
            let x = if x0 < i {
                x0
            } else {
                x0 - 1
            };
            assert(t[x] == q);
        }
    }
    lemma_blank_cells_unique(h, t);
}

/// The grid with the marks of the two sides exchanged.
pub open spec fn relabeled(g: Cells) -> Cells {
    Seq::new(g.len(), |r: int| Seq::new(g[r].len(), |c: int| g[r][c].opposite()))
}

/// The standing with the two sides exchanged.
pub open spec fn mirrored(s: State) -> State {
    match s {
        State::WinO => State::WinX,
        State::WinX => State::WinO,
        State::Incomplete => State::Incomplete,
        State::Draw => State::Draw,
    }
}

/// Exchanging the marks of the two sides exchanges the lines they hold.
pub proof fn lemma_relabeled_wins(g: Cells, m: Marker)
    requires
        square(g),
    ensures
        square(relabeled(g)),
        wins(relabeled(g), m.opposite()) == wins(g, m),
{
    let h = relabeled(g);
    let w = m.opposite();
    let n = g.len() as int;
    assert forall|r: int, c: int| inside(g, r, c) implies (#[trigger] h[r][c] == w <==> g[r][c]
        == m) by {
        assert(h[r][c] == g[r][c].opposite());
    }
    assert forall|r: int| 0 <= r < n implies (#[trigger] row_full(h, r, w) <==> row_full(
        g,
        r,
        m,
    )) by {
        if row_full(h, r, w) {
            assert forall|c: int| 0 <= c < n implies #[trigger] g[r][c] == m by {
                assert(h[r][c] == w);
            }
        }
        if row_full(g, r, m) {
            assert forall|c: int| 0 <= c < n implies #[trigger] h[r][c] == w by {
                assert(g[r][c] == m);
            }
        }
    }
    assert forall|c: int| 0 <= c < n implies (#[trigger] col_full(h, c, w) <==> col_full(
        g,
        c,
        m,
    )) by {
        if col_full(h, c, w) {
            assert forall|r: int| 0 <= r < n implies #[trigger] g[r][c] == m by {
                assert(h[r][c] == w);
            }
        }
        if col_full(g, c, m) {
            assert forall|r: int| 0 <= r < n implies #[trigger] h[r][c] == w by {
                assert(g[r][c] == m);
            }
        }
    }
    assert(diag_full(h, w) <==> diag_full(g, m)) by {
        if diag_full(h, w) {
            assert forall|i: int| 0 <= i < n implies #[trigger] g[i][i] == m by {
                assert(h[i][i] == w);
            }
        }
        if diag_full(g, m) {
            assert forall|i: int| 0 <= i < n implies #[trigger] h[i][i] == w by {
                assert(g[i][i] == m);
            }
        }
    }
    assert(anti_full(h, w) <==> anti_full(g, m)) by {
        if anti_full(h, w) {
            assert forall|i: int| 0 <= i < n implies #[trigger] g[i][n - 1 - i] == m by {
                assert(h[i][n - 1 - i] == w);
            }
        }
        if anti_full(g, m) {
            assert forall|i: int| 0 <= i < n implies #[trigger] h[i][n - 1 - i] == w by {
                assert(g[i][n - 1 - i] == m);
            }
        }
    }
    if wins(g, m) {
        if exists|r: int| 0 <= r < n && #[trigger] row_full(g, r, m) {
            let r = choose|r: int| 0 <= r < n && #[trigger] row_full(g, r, m);
            assert(row_full(h, r, w));
        } else if exists|c: int| 0 <= c < n && #[trigger] col_full(g, c, m) {
            let c = choose|c: int| 0 <= c < n && #[trigger] col_full(g, c, m);
            assert(col_full(h, c, w));
        }
    }
    if wins(h, w) {
        if exists|r: int| 0 <= r < n && #[trigger] row_full(h, r, w) {
            let r = choose|r: int| 0 <= r < n && #[trigger] row_full(h, r, w);
            assert(row_full(g, r, m));
        } else if exists|c: int| 0 <= c < n && #[trigger] col_full(h, c, w) {
            let c = choose|c: int| 0 <= c < n && #[trigger] col_full(h, c, w);
            assert(col_full(g, c, m));
        }
    }
}

/// Exchanging the marks of the two sides exchanges the standing, on every
/// grid on which the two sides do not both hold a line.
pub proof fn lemma_relabeled_state(g: Cells)
    requires
        square(g),
        !(wins(g, Marker::X) && wins(g, Marker::O)),
    ensures
        state_of(relabeled(g)) == mirrored(state_of(g)),
{
    let h = relabeled(g);
    lemma_relabeled_wins(g, Marker::X);
    lemma_relabeled_wins(g, Marker::O);
    lemma_blank_cells(g);
    lemma_blank_cells(h);
    if blank_cells(g).len() > 0 {
        let p = blank_cells(g)[0];
        assert(is_blank(g, p));
        assert(h[p.0 as int][p.1 as int] == g[p.0 as int][p.1 as int].opposite());
        assert(is_blank(h, p));
        assert(blank_cells(h).contains(p));
    }
    if blank_cells(h).len() > 0 {
        let p = blank_cells(h)[0];
        assert(is_blank(h, p));
        assert(h[p.0 as int][p.1 as int] == g[p.0 as int][p.1 as int].opposite());
        assert(is_blank(g, p));
        assert(blank_cells(g).contains(p));
    }
}

/// The cell found for an ordinal carries that ordinal.
pub proof fn lemma_label_round_trip(n: int, label: int)
    requires
        1 <= n,
        1 <= label <= n * n,
    ensures
        0 <= label_row(n, label) < n,
        0 <= label_col(n, label) < n,
        label_at(n, label_row(n, label), label_col(n, label)) == label,
{
    let k = label - 1;
    lemma_split(k, n);
    vstd::arithmetic::div_mod::lemma_fundamental_div_mod(k, n);
    assert((k / n) * n == n * (k / n)) by (nonlinear_arith);
}

/// The ordinal of a cell leads back to the cell.
pub proof fn lemma_index_round_trip(n: int, row: int, col: int)
    requires
        1 <= n,
        0 <= row < n,
        0 <= col < n,
    ensures
        1 <= label_at(n, row, col) <= n * n,
        label_row(n, label_at(n, row, col)) == row,
        label_col(n, label_at(n, row, col)) == col,
{
    let a = n - 1 - row;
    let k = a * n + col;
    assert(0 <= a * n && a * n + n <= n * n) by (nonlinear_arith)
        requires
            0 <= a < n,
    ;
    vstd::arithmetic::div_mod::lemma_fundamental_div_mod_converse(k, n, a, col);
}

proof fn lemma_least_settling(g: Cells, m: Marker, j: int)
    requires
        0 <= j < blank_cells(g).len(),
        settles(g, blank_cells(g)[j], m) is Some,
    ensures
        settled(g, m),
        settling_move(g, m) <= j,
    decreases j,
{
    if forall|k: int| 0 <= k < j ==> settles(g, #[trigger] blank_cells(g)[k], m) is None {
        assert(settles_first(g, m, j));
        lemma_settles_first(g, m, j);
    } else {
        let k = choose|k: int| 0 <= k < j && !(settles(g, #[trigger] blank_cells(g)[k], m) is None);
        lemma_least_settling(g, m, k);
    }
}

/// Where `m` can win with one move, the search chooses a single move, the
/// score is 1, and the move is the first of the moves with which `m` wins.
pub proof fn lemma_winning_move_is_taken(g: Cells, m: Marker, layer: nat, p: (usize, usize))
    requires
        square(g),
        is_blank(g, p),
        state_of(after(g, p, m)) == m.win_con(),
    ensures
        score(g, m, layer) == 1,
        top_moves(g, m, layer).len() == 1,
        is_blank(g, top_moves(g, m, layer)[0]),
        state_of(after(g, top_moves(g, m, layer)[0], m)) == m.win_con(),
        !comes_before(p, top_moves(g, m, layer)[0]),
{
    let bs = blank_cells(g);
    lemma_blank_cells(g);
    assert(bs.contains(p));
    let j = choose|j: int| 0 <= j < bs.len() && bs[j] == p;
    lemma_least_settling(g, m, j);
    let i = settling_move(g, m);
    assert(settles_first(g, m, i));
    let q = bs[i];
    assert(is_blank(g, q));
    if i < j {
        assert(comes_before(bs[i], bs[j]));
        let h = after(g, q, m);
        lemma_put_square(g, q.0 as int, q.1 as int, m);
        lemma_blank_cells(h);
        assert(h[p.0 as int][p.1 as int] == g[p.0 as int][p.1 as int]);
        assert(is_blank(h, p));
        assert(blank_cells(h).contains(p));
        assert(state_of(h) != State::Draw);
    }
}

/// A move of one side makes no line for the other: a line that a marker
/// other than `m` holds after `m` has been put on a cell, it held before.
pub proof fn lemma_move_makes_no_line_for_another(
    g: Cells,
    p: (usize, usize),
    m: Marker,
    w: Marker,
)
    requires
        square(g),
        inside(g, p.0 as int, p.1 as int),
        w != m,
        wins(after(g, p, m), w),
    ensures
        wins(g, w),
{
    let h = after(g, p, m);
    let n = g.len() as int;
    let pr = p.0 as int;
    let pc = p.1 as int;
    lemma_put_square(g, pr, pc, m);
    assert(h[pr][pc] == m);
    if exists|r: int| 0 <= r < n && #[trigger] row_full(h, r, w) {
        let r = choose|r: int| 0 <= r < n && #[trigger] row_full(h, r, w);
        assert(h[r][pc] == w);
        assert(r != pr);
        assert forall|c: int| 0 <= c < n implies #[trigger] g[r][c] == w by {
            assert(h[r][c] == w);
            assert(inside(g, r, c));
        }
        assert(row_full(g, r, w));
    } else if exists|c: int| 0 <= c < n && #[trigger] col_full(h, c, w) {
        let c = choose|c: int| 0 <= c < n && #[trigger] col_full(h, c, w);
        assert(h[pr][c] == w);
        assert(c != pc);
        assert forall|r: int| 0 <= r < n implies #[trigger] g[r][c] == w by {
            assert(h[r][c] == w);
            assert(inside(g, r, c));
        }
        assert(col_full(g, c, w));
    } else if diag_full(h, w) {
        assert forall|i: int| 0 <= i < n implies #[trigger] g[i][i] == w by {
            assert(h[i][i] == w);
            assert(inside(g, i, i));
        }
        assert(diag_full(g, w));
    } else {
        assert(anti_full(h, w));
        assert forall|i: int| 0 <= i < n implies #[trigger] g[i][n - 1 - i] == w by {
            assert(h[i][n - 1 - i] == w);
            assert(inside(g, i, n - 1 - i));
        }
        assert(anti_full(g, w));
    }
}

/// Where neither side holds a line, the side that makes a line with its
/// move has won.
pub proof fn lemma_completing_move_wins(g: Cells, p: (usize, usize), m: Marker)
    requires
        square(g),
        is_blank(g, p),
        m.is_side(),
        !wins(g, Marker::X),
        !wins(g, Marker::O),
        completes(g, p, m),
    ensures
        state_of(after(g, p, m)) == m.win_con(),
{
    if wins(after(g, p, m), m.opposite()) {
        lemma_move_makes_no_line_for_another(g, p, m, m.opposite());
    }
}

/// Where neither side holds a line and `m` can make one with one move, the
/// search chooses a single move, the score is 1, and the move is the first
/// of the moves with which `m` makes a line.
pub proof fn lemma_completing_move_is_taken(g: Cells, m: Marker, layer: nat, p: (usize, usize))
    requires
        square(g),
        is_blank(g, p),
        m.is_side(),
        !wins(g, Marker::X),
        !wins(g, Marker::O),
        completes(g, p, m),
    ensures
        score(g, m, layer) == 1,
        top_moves(g, m, layer).len() == 1,
        is_blank(g, top_moves(g, m, layer)[0]),
        completes(g, top_moves(g, m, layer)[0], m),
        !comes_before(p, top_moves(g, m, layer)[0]),
{
    lemma_completing_move_wins(g, p, m);
    lemma_winning_move_is_taken(g, m, layer, p);
}

proof fn lemma_least_urgent(g: Cells, m: Marker, j: int)
    requires
        0 <= j < blank_cells(g).len(),
        urgent(g, blank_cells(g)[j], m),
    ensures
        exists|i: int| 0 <= i <= j && urgent_first(g, m, i),
    decreases j,
{
    if forall|k: int| 0 <= k < j ==> !urgent(g, #[trigger] blank_cells(g)[k], m) {
        assert(urgent_first(g, m, j));
    } else {
        let k = choose|k: int| 0 <= k < j && urgent(g, #[trigger] blank_cells(g)[k], m);
        lemma_least_urgent(g, m, k);
    }
}

/// Where `m` wins on the free cell number `i`, and the other side would win
/// on none of the free cells before it, the first urgent cell, on which the
/// one-ply strategy puts `m`, is a cell on which `m` wins.
pub proof fn lemma_urgent_move_wins(g: Cells, m: Marker, i: int)
    requires
        0 <= i < blank_cells(g).len(),
        completes(g, blank_cells(g)[i], m),
        forall|j: int| 0 <= j < i ==> !completes(g, #[trigger] blank_cells(g)[j], m.opposite()),
    ensures
        exists|k: int| urgent_first(g, m, k) && completes(g, blank_cells(g)[k], m),
{
    lemma_least_urgent(g, m, i);
    let k = choose|k: int| 0 <= k <= i && urgent_first(g, m, k);
    assert(completes(g, blank_cells(g)[k], m));
}

/// A session that is sound stays so when the side awaited moves on a free
/// cell: while a side is awaited the game goes on, and once the round has
/// ended the board is cleared.
pub proof fn lemma_moved_keeps_sound(s: Session, side: Marker, p: (usize, usize))
    requires
        s.sound(),
        s.phase == Phase::AwaitingMove(side),
        is_blank(s.cells, p),
    ensures
        s.moved(side, p).sound(),
        s.moved(side, p).phase is Terminal <==> state_of(after(s.cells, p, side))
            != State::Incomplete,
{
    lemma_put_square(s.cells, p.0 as int, p.1 as int, side);
    lemma_fresh_board(s.cells.len());
}

/// A session that is sound stays so when a round is started.
pub proof fn lemma_restarted_keeps_sound(s: Session, side: Marker)
    requires
        s.sound(),
        side.is_side(),
    ensures
        s.restarted(side).sound(),
{
    lemma_fresh_board(s.cells.len());
}

} // verus!
