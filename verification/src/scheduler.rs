//! The rounds of a session: whose turn it is, how a round ends, and the
//! count of the rounds that have ended.

use vstd::prelude::*;
use rand::rngs::ThreadRng;
use crate::board::Board;
use crate::laws::lemma_fresh_board;
use crate::marker::{GameError, Marker, State};
use crate::random::draw_below;
use crate::rules::{fresh, inside, is_blank, lemma_put_square, square, state_of, Cells};
use crate::search::after;
use crate::strategy::{plays, Strategy};

verus! {

/// Where a round stands.
#[derive(Copy, Clone, Debug, PartialEq, Eq, Structural)]
pub enum Phase {
    /// The side named is to move.
    AwaitingMove(Marker),
    /// The round has ended in the way named.
    Terminal(State),
}

/// How many rounds each side has won and how many were drawn.
#[derive(Copy, Clone, Debug, PartialEq, Eq, Structural)]
pub struct Tally {
    pub x_wins: u64,
    pub o_wins: u64,
    pub draws: u64,
}

/// One more, as far as the counter goes.
pub open spec fn bumped(k: u64) -> u64 {
    if k < u64::MAX {
        (k + 1) as u64
    } else {
        k
    }
}

fn bump(k: u64) -> (r: u64)
    ensures
        r == bumped(k),
{
    if k < u64::MAX {
        k + 1
    } else {
        k
    }
}

impl Tally {
    /// The count with one round more that ended in `outcome`.
    pub open spec fn spec_record(self, outcome: State) -> Tally {
        match outcome {
            State::WinX => Tally { x_wins: bumped(self.x_wins), ..self },
            State::WinO => Tally { o_wins: bumped(self.o_wins), ..self },
            State::Draw => Tally { draws: bumped(self.draws), ..self },
            State::Incomplete => self,
        }
    }

    /// The count with one round more that ended in `outcome`. A round that
    /// has not ended counts for nothing, and a counter that is full stays
    /// as it is.
    #[verifier::when_used_as_spec(spec_record)]
    pub fn record(self, outcome: State) -> (t: Tally)
        ensures
            t == self.spec_record(outcome),
    {
        match outcome {
            State::WinX => Tally { x_wins: bump(self.x_wins), ..self },
            State::WinO => Tally { o_wins: bump(self.o_wins), ..self },
            State::Draw => Tally { draws: bump(self.draws), ..self },
            State::Incomplete => self,
        }
    }
}

/// The side that begins a round, by the number drawn: `X` on 0, else `O`.
pub open spec fn spec_first_side(draw: usize) -> Marker {
    if draw == 0 {
        Marker::X
    } else {
        Marker::O
    }
}

/// The side that begins a round, by the number drawn: `X` on 0, else `O`.
#[verifier::when_used_as_spec(spec_first_side)]
pub fn first_side(draw: usize) -> (side: Marker)
    ensures
        side == spec_first_side(draw),
        side.is_side(),
{
    if draw == 0 {
        Marker::X
    } else {
        Marker::O
    }
}

/// A session as it stands: the board, the round, the count and the way in
/// which each side finds its moves.
pub struct Session {
    pub cells: Cells,
    pub phase: Phase,
    pub tally: Tally,
    pub x: Strategy,
    pub o: Strategy,
}

impl Session {
    /// The way in which `side` finds its moves.
    pub open spec fn strategy_of(self, side: Marker) -> Strategy {
        if side == Marker::X {
            self.x
        } else {
            self.o
        }
    }

    /// While a side is to move, the game on the board goes on; and once a
    /// round has ended, the board is cleared.
    pub open spec fn sound(self) -> bool {
        &&& square(self.cells)
        &&& match self.phase {
            Phase::AwaitingMove(side) => side.is_side() && state_of(self.cells)
                == State::Incomplete,
            Phase::Terminal(outcome) => outcome != State::Incomplete && self.cells == fresh(
                self.cells.len(),
            ),
        }
    }

    /// The session that starts on the grid as it stands, with `side` to
    /// begin. On a grid on which the game is over the first round has ended
    /// before a move.
    pub open spec fn opened(cells: Cells, x: Strategy, o: Strategy, side: Marker) -> Session {
        let none = Tally { x_wins: 0, o_wins: 0, draws: 0 };
        if state_of(cells) == State::Incomplete {
            Session { cells, phase: Phase::AwaitingMove(side), tally: none, x, o }
        } else {
            Session {
                cells: fresh(cells.len()),
                phase: Phase::Terminal(state_of(cells)),
                tally: none.record(state_of(cells)),
                x,
                o,
            }
        }
    }

    /// The session at the start of a round that `side` begins.
    pub open spec fn restarted(self, side: Marker) -> Session {
        Session { cells: fresh(self.cells.len()), phase: Phase::AwaitingMove(side), ..self }
    }

    /// The session after `side` has moved on the cell `p`. Where the game
    /// goes on, the other side is to move. Where it does not, the round has
    /// ended: it is counted and the board is cleared.
    pub open spec fn moved(self, side: Marker, p: (usize, usize)) -> Session {
        let cells = after(self.cells, p, side);
        if state_of(cells) == State::Incomplete {
            Session { cells, phase: Phase::AwaitingMove(side.opposite()), ..self }
        } else {
            Session {
                cells: fresh(self.cells.len()),
                phase: Phase::Terminal(state_of(cells)),
                tally: self.tally.record(state_of(cells)),
                ..self
            }
        }
    }
}

/// The turn scheduler of a session.
pub struct Scheduler {
    board: Board,
    phase: Phase,
    tally: Tally,
    x: Strategy,
    o: Strategy,
}

impl View for Scheduler {
    type V = Session;

    closed spec fn view(&self) -> Session {
        Session { cells: self.board@, phase: self.phase, tally: self.tally, x: self.x, o: self.o }
    }
}

impl Scheduler {
    /// What holds of every scheduler: its session is sound.
    #[verifier::type_invariant]
    pub closed spec fn wf(self) -> bool {
        self.board.wf() && self@.sound()
    }

    /// A session that starts on the board as it stands, with the side to
    /// begin for which the number drawn stands. On a board on which the game
    /// is over the first round has ended before a move: it is counted and
    /// the board is cleared.
    pub fn with_first(board: Board, x: Strategy, o: Strategy, draw: usize) -> (s: Scheduler)
        ensures
            s@.sound(),
            s@ == Session::opened(board@, x, o, first_side(draw)),
    {
        let side = first_side(draw);
        let none = Tally { x_wins: 0, o_wins: 0, draws: 0 };
        proof {
            use_type_invariant(&board);
            board.lemma_wf();
            lemma_fresh_board(board@.len());
        }
        let outcome = board.get_state();
        if outcome == State::Incomplete {
            Scheduler { board, phase: Phase::AwaitingMove(side), tally: none, x, o }
        } else {
            let mut board = board;
            board.clear();
            proof {
                use_type_invariant(&board);
            }
            Scheduler { board, phase: Phase::Terminal(outcome), tally: none.record(outcome), x, o }
        }
    }

    /// Where the round stands.
    pub fn phase(&self) -> (p: Phase)
        ensures
            p == self@.phase,
            self@.sound(),
    {
        proof {
            use_type_invariant(self);
        }
        self.phase
    }

    /// The count of the rounds that have ended.
    pub fn tally(&self) -> (t: Tally)
        ensures
            t == self@.tally,
    {
        self.tally
    }

    /// The board.
    pub fn board(&self) -> (b: &Board)
        ensures
            b@ == self@.cells,
    {
        &self.board
    }

    /// The way in which `side` finds its moves.
    pub fn strategy_of(&self, side: Marker) -> (s: Strategy)
        ensures
            s == self@.strategy_of(side),
    {
        if side == Marker::X {
            self.x
        } else {
            self.o
        }
    }

    /// Whether the side that is to move wants a line of text for its turn.
    pub fn needs_input(&self) -> (b: bool)
        ensures
            b == (self@.phase matches Phase::AwaitingMove(side) && self@.strategy_of(
                side,
            ).needs_input()),
    {
        match self.phase {
            Phase::AwaitingMove(side) => self.strategy_of(side).needs_input(),
            Phase::Terminal(_) => false,
        }
    }

    /// Clears the board and starts a round that the side picked by chance
    /// begins.
    pub fn begin_round(&mut self, rng: &mut ThreadRng)
        ensures
            final(self)@.sound(),
            exists|side: Marker| side.is_side() && final(self)@ == old(self)@.restarted(side),
    {
        let draw = draw_below(rng, 2);
        self.start_round(draw);
        assert(first_side(draw).is_side());
    }

    /// Clears the board and starts a round that the side begins for which
    /// the number drawn stands.
    pub fn start_round(&mut self, draw: usize)
        ensures
            final(self)@.sound(),
            final(self)@ == old(self)@.restarted(first_side(draw)),
    {
        proof {
            use_type_invariant(&*self);
            use_type_invariant(&self.board);
            self.board.lemma_wf();
            lemma_fresh_board(self.board@.len());
        }
        let side = first_side(draw);
        let mut board = self.board.clone();
        board.clear();
        proof {
            use_type_invariant(&board);
        }
        *self = Scheduler {
            board,
            phase: Phase::AwaitingMove(side),
            tally: self.tally,
            x: self.x,
            o: self.o,
        };
    }

    /// Takes the board as it stands after the move of `side` on `p`.
    fn settle(&mut self, side: Marker, p: (usize, usize), next: Board) -> (shown: Board)
        requires
            old(self)@.phase == Phase::AwaitingMove(side),
            is_blank(old(self)@.cells, p),
            next@ == after(old(self)@.cells, p, side),
        ensures
            final(self)@ == old(self)@.moved(side, p),
            final(self)@.sound(),
            shown@ == after(old(self)@.cells, p, side),
    {
        proof {
            use_type_invariant(&*self);
            use_type_invariant(&next);
            next.lemma_wf();
            lemma_fresh_board(next@.len());
            lemma_put_square(self.board@, p.0 as int, p.1 as int, side);
        }
        let outcome = next.get_state();
        if outcome == State::Incomplete {
            let board = next.clone();
            proof {
                use_type_invariant(&board);
            }
            *self = Scheduler {
                board,
                phase: Phase::AwaitingMove(side.opposite()),
                tally: self.tally,
                x: self.x,
                o: self.o,
            };
        } else {
            let mut board = next.clone();
            board.clear();
            proof {
                use_type_invariant(&board);
            }
            *self = Scheduler {
                board,
                phase: Phase::Terminal(outcome),
                tally: self.tally.record(outcome),
                x: self.x,
                o: self.o,
            };
        }
        next
    }

    /// The move of the side that is to move, on the cell named. Gives the
    /// board as it stands after the move, for showing. A cell outside the
    /// grid is refused as out of bounds and a cell that is not free as
    /// occupied; once the round has ended there is no move. Nothing changes
    /// where the move is refused.
    pub fn apply(&mut self, row: usize, col: usize) -> (r: Result<Board, GameError>)
        ensures
            final(self)@.sound(),
            old(self)@.phase is Terminal ==> (r matches Err(e) && e == GameError::NoLegalMove),
            old(self)@.phase matches Phase::AwaitingMove(side) ==> (match r {
                Ok(shown) => is_blank(old(self)@.cells, (row, col)) && shown@ == after(
                    old(self)@.cells,
                    (row, col),
                    side,
                ) && final(self)@ == old(self)@.moved(side, (row, col)),
                Err(e) => !is_blank(old(self)@.cells, (row, col)) && e == (if inside(
                    old(self)@.cells,
                    row as int,
                    col as int,
                ) {
                    GameError::CellOccupied
                } else {
                    GameError::OutOfBounds
                }),
            }),
            r is Err ==> final(self)@ == old(self)@,
    {
        proof {
            use_type_invariant(&*self);
        }
        match self.phase {
            Phase::Terminal(_) => Err(GameError::NoLegalMove),
            Phase::AwaitingMove(side) => {
                let mut next = self.board.clone();
                match next.place(row, col, side) {
                    Err(e) => Err(e),
                    Ok(()) => Ok(self.settle(side, (row, col), next)),
                }
            },
        }
    }

    /// The turn of the side that is to move: the side finds its move in its
    /// own way, a person from the line typed, and the move is made. Gives
    /// the cell and the board as it stands after the move, for showing.
    /// Once the round has ended there is no move. A person's answer that
    /// names no cell is refused as invalid, and one that names a cell that
    /// is not free as occupied; the other strategies always move. Nothing
    /// changes where the turn is refused.
    pub fn turn(&mut self, line: &str, rng: &mut ThreadRng) -> (r: Result<
        ((usize, usize), Board),
        GameError,
    >)
        ensures
            final(self)@.sound(),
            old(self)@.phase is Terminal ==> (r matches Err(e) && e == GameError::NoLegalMove),
            old(self)@.phase matches Phase::AwaitingMove(side) ==> plays(
                old(self)@.strategy_of(side),
                old(self)@.cells,
                side,
                line@,
                match r {
                    Ok(done) => Ok(done.0),
                    Err(e) => Err(e),
                },
            ),
            old(self)@.phase matches Phase::AwaitingMove(side) ==> (r is Ok || old(
                self,
            )@.strategy_of(side).needs_input()),
            r matches Ok(done) ==> (old(self)@.phase matches Phase::AwaitingMove(side) && is_blank(
                old(self)@.cells,
                done.0,
            ) && done.1@ == after(old(self)@.cells, done.0, side) && final(self)@ == old(
                self,
            )@.moved(side, done.0)),
            r is Err ==> final(self)@ == old(self)@,
    {
        proof {
            use_type_invariant(&*self);
        }
        match self.phase {
            Phase::Terminal(_) => Err(GameError::NoLegalMove),
            Phase::AwaitingMove(side) => {
                let mut next = self.board.clone();
                match self.strategy_of(side).play(&mut next, side, line, rng) {
                    Err(e) => Err(e),
                    Ok(p) => {
                        let shown = self.settle(side, p, next);
                        Ok((p, shown))
                    },
                }
            },
        }
    }
}

impl Board {
    /// Starts a session of rounds on the board as it stands: `add_x` is the
    /// way in which `X` finds its moves and `add_o` that of `O`, no round is
    /// counted yet, and chance picks the side that begins. The rounds are
    /// then played turn by turn on the scheduler that comes back.
    pub fn run_game(self, add_x: Strategy, add_o: Strategy, rng: &mut ThreadRng) -> (s: Scheduler)
        ensures
            s@.sound(),
            exists|side: Marker| side.is_side() && s@ == Session::opened(self@, add_x, add_o, side),
    {
        let draw = draw_below(rng, 2);
        assert(first_side(draw).is_side());
        Scheduler::with_first(self, add_x, add_o, draw)
    }
}

} // verus!
