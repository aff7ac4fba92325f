//! The exhaustive search for the best move.

use vstd::prelude::*;
use rand::rngs::ThreadRng;
use crate::board::Board;
use crate::marker::{GameError, Marker, State};
use crate::random::pick;
use crate::rules::{blank_cells, is_blank, lemma_blank_cells, put, square, state_of, Cells};

verus! {

/// The number of plies below the first that the search looks into. A move
/// that deep is not followed further and counts as neutral: on a board of
/// nine cells the search is exact, on a larger one its scores are an
/// estimate.
pub const MAX_PLY: u32 = 9;

/// The grid after `m` has been put on the cell `p`.
pub open spec fn after(g: Cells, p: (usize, usize), m: Marker) -> Cells {
    put(g, p.0 as int, p.1 as int, m)
}

/// What a move settles at once for the side that makes it: a win counts 1,
/// a board filled without a winner counts 0, and anything else is open.
pub open spec fn settles(g: Cells, p: (usize, usize), m: Marker) -> Option<int> {
    let s = state_of(after(g, p, m));
    if s == m.win_con() {
        Some(1int)
    } else if s == State::Draw {
        Some(0int)
    } else {
        None
    }
}

/// The free cell number `i` settles the game, and none before it does.
pub open spec fn settles_first(g: Cells, m: Marker, i: int) -> bool {
    &&& 0 <= i < blank_cells(g).len()
    &&& settles(g, blank_cells(g)[i], m) is Some
    &&& forall|j: int| 0 <= j < i ==> settles(g, #[trigger] blank_cells(g)[j], m) is None
}

/// Some move of `m` settles the game at once.
pub open spec fn settled(g: Cells, m: Marker) -> bool {
    exists|i: int| settles_first(g, m, i)
}

/// The number, among the free cells, of the first move that settles the game.
pub open spec fn settling_move(g: Cells, m: Marker) -> int {
    choose|i: int| settles_first(g, m, i)
}

/// The score of the grid for `m`, who is to move, at depth `layer`: what the
/// first settling move counts, or else the best of what the moves lead to.
pub open spec fn score(g: Cells, m: Marker, layer: nat) -> int
    decreases MAX_PLY - layer, 2int, 0int,
{
    if settled(g, m) {
        settles(g, blank_cells(g)[settling_move(g, m)], m).unwrap()
    } else {
        best_reply(g, m, layer, blank_cells(g).len())
    }
}

/// What the move on `p` leads to for `m`: beyond the last ply nothing, on a
/// board that the move fills a loss, and else what the opponent's best
/// answer leaves.
pub open spec fn reply(g: Cells, m: Marker, layer: nat, p: (usize, usize)) -> int
    decreases MAX_PLY - layer, 0int, 0int,
{
    if layer < MAX_PLY {
        if blank_cells(after(g, p, m)).len() == 0 {
            -1
        } else {
            -score(after(g, p, m), m.opposite(), layer + 1)
        }
    } else {
        0
    }
}

/// The best of what the first `upto` free cells lead to, and at least -1,
/// the least score there is.
pub open spec fn best_reply(g: Cells, m: Marker, layer: nat, upto: nat) -> int
    decreases MAX_PLY - layer, 1int, upto,
{
    if upto == 0 {
        -1
    } else {
        let before = best_reply(g, m, layer, (upto - 1) as nat);
        let here = reply(g, m, layer, blank_cells(g)[upto - 1]);
        if here > before {
            here
        } else {
            before
        }
    }
}

/// Whether a move leads to the score of the grid.
pub open spec fn ties(g: Cells, m: Marker, layer: nat) -> spec_fn((usize, usize)) -> bool {
    |p: (usize, usize)| reply(g, m, layer, p) == score(g, m, layer)
}

/// The moves among which the search chooses: the first settling move alone
/// where there is one, else every move that leads to the best score, in the
/// order of the free cells.
pub open spec fn top_moves(g: Cells, m: Marker, layer: nat) -> Seq<(usize, usize)> {
    if settled(g, m) {
        seq![blank_cells(g)[settling_move(g, m)]]
    } else {
        blank_cells(g).filter(ties(g, m, layer))
    }
}

/// There is one first settling move at most.
pub proof fn lemma_settles_first(g: Cells, m: Marker, i: int)
    requires
        settles_first(g, m, i),
    ensures
        settled(g, m),
        settling_move(g, m) == i,
{
    let k = settling_move(g, m);
    assert(settles_first(g, m, k));
    if k < i {
        assert(settles(g, blank_cells(g)[k], m) is None);
    } else if i < k {
        assert(settles(g, blank_cells(g)[i], m) is None);
    }
}

/// Every score is -1, 0 or 1.
pub proof fn lemma_score_range(g: Cells, m: Marker, layer: nat)
    ensures
        -1 <= score(g, m, layer) <= 1,
    decreases MAX_PLY - layer, 2int, 0int,
{
    if !settled(g, m) {
        lemma_best_reply_range(g, m, layer, blank_cells(g).len());
    }
}

/// What a move leads to is -1, 0 or 1.
pub proof fn lemma_reply_range(g: Cells, m: Marker, layer: nat, p: (usize, usize))
    ensures
        -1 <= reply(g, m, layer, p) <= 1,
    decreases MAX_PLY - layer, 0int, 0int,
{
    if layer < MAX_PLY {
        if blank_cells(after(g, p, m)).len() != 0 {
            lemma_score_range(after(g, p, m), m.opposite(), layer + 1);
        }
    }
}

/// The best of what moves lead to is -1, 0 or 1.
pub proof fn lemma_best_reply_range(g: Cells, m: Marker, layer: nat, upto: nat)
    ensures
        -1 <= best_reply(g, m, layer, upto) <= 1,
    decreases MAX_PLY - layer, 1int, upto,
{
    if upto > 0 {
        lemma_best_reply_range(g, m, layer, (upto - 1) as nat);
        lemma_reply_range(g, m, layer, blank_cells(g)[upto - 1]);
    }
}

/// The best reply is no less than what any of the cells leads to, and one of
/// the cells leads to it.
pub proof fn lemma_best_reply(g: Cells, m: Marker, layer: nat, upto: nat)
    requires
        upto <= blank_cells(g).len(),
    ensures
        forall|j: int|
            0 <= j < upto ==> reply(g, m, layer, #[trigger] blank_cells(g)[j]) <= best_reply(
                g,
                m,
                layer,
                upto,
            ),
        upto > 0 ==> exists|j: int|
            0 <= j < upto && reply(g, m, layer, #[trigger] blank_cells(g)[j]) == best_reply(
                g,
                m,
                layer,
                upto,
            ),
    decreases upto,
{
    if upto > 0 {
        lemma_best_reply(g, m, layer, (upto - 1) as nat);
        lemma_reply_range(g, m, layer, blank_cells(g)[upto - 1]);
        let before = best_reply(g, m, layer, (upto - 1) as nat);
        let here = reply(g, m, layer, blank_cells(g)[upto - 1]);
        if here > before || upto == 1 {
            assert(reply(g, m, layer, blank_cells(g)[upto - 1]) == best_reply(g, m, layer, upto));
        } else {
            let j = choose|j: int|
                0 <= j < upto - 1 && reply(g, m, layer, #[trigger] blank_cells(g)[j]) == before;
            assert(reply(g, m, layer, blank_cells(g)[j]) == best_reply(g, m, layer, upto));
        }
    }
}

/// Where a move can be made, the search has a move to choose.
pub proof fn lemma_top_moves_nonempty(g: Cells, m: Marker, layer: nat)
    requires
        blank_cells(g).len() > 0,
    ensures
        top_moves(g, m, layer).len() > 0,
{
    if !settled(g, m) {
        let bs = blank_cells(g);
        lemma_best_reply(g, m, layer, bs.len());
        let j = choose|j: int|
            0 <= j < bs.len() && reply(g, m, layer, #[trigger] bs[j]) == best_reply(
                g,
                m,
                layer,
                bs.len(),
            );
        assert(ties(g, m, layer)(bs[j]));
        bs.lemma_filter_contains(ties(g, m, layer), j);
    }
}

/// The search chooses among free cells only.
pub proof fn lemma_top_moves_are_free(g: Cells, m: Marker, layer: nat)
    ensures
        forall|p: (usize, usize)|
            top_moves(g, m, layer).contains(p) ==> #[trigger] blank_cells(g).contains(p),
{
    assert forall|p: (usize, usize)|
        top_moves(g, m, layer).contains(p) implies #[trigger] blank_cells(g).contains(p) by {
        if settled(g, m) {
            let k = settling_move(g, m);
            assert(settles_first(g, m, k));
            assert(top_moves(g, m, layer)[0] == p);
        } else {
            blank_cells(g).lemma_filter_contains_rev(ties(g, m, layer), p);
        }
    }
}

impl Board {
    /// The moves among which the search chooses for `marker`, and the score
    /// they lead to, where `layer` plies have been looked ahead already.
    /// On a board without a free cell there is no move.
    pub fn best_moves(&self, marker: Marker, layer: u32) -> (r: Result<
        (Vec<(usize, usize)>, i32),
        GameError,
    >)
        ensures
            r is Err <==> blank_cells(self@).len() == 0,
            r matches Err(e) ==> e == GameError::NoLegalMove,
            r matches Ok(found) ==> found.0@ == top_moves(self@, marker, layer as nat) && found.1
                == score(self@, marker, layer as nat),
        decreases MAX_PLY - layer,
    {
        let blanks = self.get_blanks();
        if blanks.len() == 0 {
            return Err(GameError::NoLegalMove);
        }
        let ghost g = self@;
        let ghost depth = layer as nat;
        proof {
            use_type_invariant(self);
            self.lemma_wf();
            lemma_blank_cells(g);
        }
        let mut scores: Vec<i32> = Vec::new();
        let mut i: usize = 0;
        while i < blanks.len()
            invariant
                0 <= i <= blanks.len(),
                g == self@,
                depth == layer as nat,
                square(g),
                blanks@ == blank_cells(g),
                scores.len() == i,
                forall|j: int| 0 <= j < blanks.len() ==> is_blank(g, #[trigger] blanks@[j]),
                forall|j: int|
                    0 <= j < i ==> settles(g, #[trigger] blank_cells(g)[j], marker) is None,
                forall|j: int|
                    0 <= j < i ==> #[trigger] scores@[j] == reply(g, marker, depth, blanks@[j]),
            decreases blanks.len() - i,
        {
            let p = blanks[i];
            let mut next = self.clone();
            next.place(p.0, p.1, marker)?;
            assert(next@ == after(g, p, marker));
            let state = next.get_state();
            if state == marker.win_con() {
                proof {
                    assert(settles_first(g, marker, i as int));
                    lemma_settles_first(g, marker, i as int);
                }
                let only = vec![p];
                assert(only@ =~= seq![p]);
                return Ok((only, 1));
            } else if state == State::Draw {
                proof {
                    assert(settles_first(g, marker, i as int));
                    lemma_settles_first(g, marker, i as int);
                }
                let only = vec![p];
                assert(only@ =~= seq![p]);
                return Ok((only, 0));
            }
            let s: i32 = if layer < MAX_PLY {
                match next.best_moves(marker.opposite(), layer + 1) {
                    Ok(found) => {
                        proof {
                            lemma_score_range(after(g, p, marker), marker.opposite(), depth + 1);
                        }
                        -found.1
                    },
                    Err(_) => -1,
                }
            } else {
                0
            };
            assert(s == reply(g, marker, depth, p));
            scores.push(s);
            i = i + 1;
        }
        proof {
            if settled(g, marker) {
                let k = settling_move(g, marker);
                assert(settles_first(g, marker, k));
                assert(settles(g, blank_cells(g)[k], marker) is None);
            }
        }
        let mut best: i32 = -1;
        let mut j: usize = 0;
        while j < scores.len()
            invariant
                0 <= j <= scores.len(),
                scores.len() == blanks.len(),
                blanks@ == blank_cells(g),
                best == best_reply(g, marker, depth, j as nat),
                forall|k: int|
                    0 <= k < scores.len() ==> #[trigger] scores@[k] == reply(
                        g,
                        marker,
                        depth,
                        blanks@[k],
                    ),
            decreases scores.len() - j,
        {
            if scores[j] > best {
                best = scores[j];
            }
            j = j + 1;
        }
        assert(best == score(g, marker, depth));
        let mut top: Vec<(usize, usize)> = Vec::new();
        let mut k: usize = 0;
        while k < blanks.len()
            invariant
                0 <= k <= blanks.len(),
                scores.len() == blanks.len(),
                blanks@ == blank_cells(g),
                best == score(g, marker, depth),
                top@ == blanks@.take(k as int).filter(ties(g, marker, depth)),
                forall|k: int|
                    0 <= k < scores.len() ==> #[trigger] scores@[k] == reply(
                        g,
                        marker,
                        depth,
                        blanks@[k],
                    ),
            decreases blanks.len() - k,
        {
            proof {
                reveal(Seq::filter);
                assert(blanks@.take(k + 1).drop_last() =~= blanks@.take(k as int));
                assert(blanks@.take(k + 1).last() == blanks@[k as int]);
            }
            if scores[k] == best {
                top.push(blanks[k]);
            }
            k = k + 1;
        }
        assert(blanks@.take(blanks.len() as int) =~= blanks@);
        Ok((top, best))
    }

    /// The best move for `marker` and its score, where `layer` plies have
    /// been looked ahead already. Among moves that are equally good, chance
    /// decides; a move that settles the game at once is taken without a
    /// look at the moves after it. On a board without a free cell there is
    /// no move.
    pub fn calc_optimal(&self, marker: Marker, layer: u32, rng: &mut ThreadRng) -> (r: Result<
        ((usize, usize), i32),
        GameError,
    >)
        ensures
            r is Err <==> blank_cells(self@).len() == 0,
            r matches Err(e) ==> e == GameError::NoLegalMove,
            r matches Ok(found) ==> top_moves(self@, marker, layer as nat).contains(found.0)
                && found.1 == score(self@, marker, layer as nat),
            r matches Ok(found) ==> blank_cells(self@).contains(found.0) && is_blank(
                self@,
                found.0,
            ),
    {
        match self.best_moves(marker, layer) {
            Err(e) => Err(e),
            Ok(found) => {
                proof {
                    use_type_invariant(self);
                    self.lemma_wf();
                    lemma_top_moves_nonempty(self@, marker, layer as nat);
                    lemma_top_moves_are_free(self@, marker, layer as nat);
                    lemma_blank_cells(self@);
                }
                match pick(&found.0, rng) {
                    Some(p) => Ok((p, found.1)),
                    None => Err(GameError::NoLegalMove),
                }
            },
        }
    }
}

} // verus!
