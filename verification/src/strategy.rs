//! The ways in which a side finds its move, and the questions by which a
//! player picks one of them.

use vstd::prelude::*;
use rand::rngs::ThreadRng;
use crate::board::Board;
use crate::input::{first_mark, numeral, read_mark, read_number};
use crate::marker::{GameError, Marker};
use crate::random::pick;
use crate::rules::{
    blank_cells, is_blank, label_col, label_row, lemma_blank_cells, square, wins, Cells,
};
use crate::search::{after, top_moves};

verus! {

/// Putting `m` on the cell makes a line of `m`.
pub open spec fn completes(g: Cells, p: (usize, usize), m: Marker) -> bool {
    wins(after(g, p, m), m)
}

/// The cell is one that `m` must not leave alone: `m` wins on it, or the
/// other side would.
pub open spec fn urgent(g: Cells, p: (usize, usize), m: Marker) -> bool {
    completes(g, p, m) || completes(g, p, m.opposite())
}

/// The free cell number `i` is urgent for `m`, and none before it is.
pub open spec fn urgent_first(g: Cells, m: Marker, i: int) -> bool {
    &&& 0 <= i < blank_cells(g).len()
    &&& urgent(g, blank_cells(g)[i], m)
    &&& forall|j: int| 0 <= j < i ==> !urgent(g, #[trigger] blank_cells(g)[j], m)
}

/// How a side finds its moves.
#[derive(Copy, Clone, Debug, PartialEq, Eq, Structural)]
pub enum Strategy {
    /// The moves are typed by a person.
    Human,
    /// Each move is left to chance.
    Random,
    /// One move is looked ahead: the first cell is taken on which either
    /// side would win at once.
    Heuristic,
    /// The game is searched to the end.
    Search,
}

/// What a player is asked at the start.
#[derive(Copy, Clone, Debug, PartialEq, Eq, Structural)]
pub enum Prompt {
    /// Whether a person or the machine plays the side.
    Player,
    /// How well the machine is to play.
    Level,
}

/// What an answer at the start leads to.
#[derive(Copy, Clone, Debug, PartialEq, Eq, Structural)]
pub enum Choice {
    /// The side plays in this way.
    Chosen(Strategy),
    /// Another question is to be asked.
    Ask(Prompt),
}

/// What an answer means at each of the questions, going by its first
/// character that is not white space.
pub open spec fn answer_of(prompt: Prompt, mark: Option<char>) -> Result<Choice, GameError> {
    match prompt {
        Prompt::Player => if mark == Some('U') || mark == Some('u') {
            Ok(Choice::Chosen(Strategy::Human))
        } else if mark == Some('C') || mark == Some('c') {
            Ok(Choice::Ask(Prompt::Level))
        } else {
            Err(GameError::InvalidInput)
        },
        Prompt::Level => if mark == Some('R') || mark == Some('r') {
            Ok(Choice::Chosen(Strategy::Random))
        } else if mark == Some('A') || mark == Some('a') {
            Ok(Choice::Chosen(Strategy::Heuristic))
        } else if mark == Some('G') || mark == Some('g') {
            Ok(Choice::Chosen(Strategy::Search))
        } else {
            Err(GameError::InvalidInput)
        },
    }
}

/// The cell that a typed answer names: the cell that carries the ordinal
/// typed, where the answer is a number from 1 to the number of cells.
pub open spec fn named_cell(g: Cells, line: Seq<char>) -> Option<(usize, usize)> {
    match numeral(line) {
        Some(v) => if 1 <= v <= g.len() * g.len() {
            Some(
                (
                    label_row(g.len() as int, v as int) as usize,
                    label_col(g.len() as int, v as int) as usize,
                ),
            )
        } else {
            None
        },
        None => None,
    }
}

/// What a turn may come to when `side` finds its move on the grid in the
/// way given: the cell moved on, or why no move was made. A person's move
/// is the cell that the line names. Chance moves on some free cell, the
/// one-ply strategy on the first urgent cell if there is one, and the search
/// on one of its best moves; these three fail only where no cell is free.
pub open spec fn plays(
    strategy: Strategy,
    g: Cells,
    side: Marker,
    line: Seq<char>,
    r: Result<(usize, usize), GameError>,
) -> bool {
    match strategy {
        Strategy::Human => match named_cell(g, line) {
            None => r == Err::<(usize, usize), GameError>(GameError::InvalidInput),
            Some(p) => r == (if is_blank(g, p) {
                Ok::<(usize, usize), GameError>(p)
            } else {
                Err::<(usize, usize), GameError>(GameError::CellOccupied)
            }),
        },
        Strategy::Random => match r {
            Ok(p) => blank_cells(g).contains(p),
            Err(e) => e == GameError::NoLegalMove && blank_cells(g).len() == 0,
        },
        Strategy::Heuristic => match r {
            Ok(p) => blank_cells(g).contains(p) && forall|i: int|
                urgent_first(g, side, i) ==> p == blank_cells(g)[i],
            Err(e) => e == GameError::NoLegalMove && blank_cells(g).len() == 0,
        },
        Strategy::Search => match r {
            Ok(p) => blank_cells(g).contains(p) && top_moves(g, side, 0).contains(p),
            Err(e) => e == GameError::NoLegalMove && blank_cells(g).len() == 0,
        },
    }
}

impl Strategy {
    /// Whether a line of text is wanted for each move.
    pub open spec fn spec_needs_input(&self) -> bool {
        *self == Strategy::Human
    }

    /// Whether a line of text is wanted for each move.
    #[verifier::when_used_as_spec(spec_needs_input)]
    pub fn needs_input(&self) -> (b: bool)
        ensures
            b == self.spec_needs_input(),
    {
        match self {
            Strategy::Human => true,
            _ => false,
        }
    }

    /// Makes the move of `side` on the board and says on which cell. The
    /// line is what the person typed; the other strategies do not read it.
    /// Where no move is made the board is left as it was.
    pub fn play(&self, board: &mut Board, side: Marker, line: &str, rng: &mut ThreadRng) -> (r:
        Result<(usize, usize), GameError>)
        ensures
            plays(*self, old(board)@, side, line@, r),
            r matches Ok(p) ==> is_blank(old(board)@, p) && final(board)@ == after(
                old(board)@,
                p,
                side,
            ),
            r is Err ==> final(board)@ == old(board)@,
    {
        proof {
            use_type_invariant(&*board);
            board.lemma_wf();
            lemma_blank_cells(board@);
        }
        match self {
            Strategy::Human => board.user_add(side, line),
            Strategy::Random => board.rand_add(side, rng),
            Strategy::Heuristic => board.avg_add(side, rng),
            Strategy::Search => board.comp_add(side, rng),
        }
    }
}

impl Board {
    /// What the answer to a question at the start leads to. An answer that
    /// is none of those offered is refused as invalid, and the same question
    /// is to be asked again.
    pub fn choose_player(prompt: Prompt, line: &str) -> (r: Result<Choice, GameError>)
        ensures
            r == answer_of(prompt, first_mark(line@)),
    {
        let mark = read_mark(line);
        match mark {
            None => Err(GameError::InvalidInput),
            Some(c) => match prompt {
                Prompt::Player => if c == 'U' || c == 'u' {
                    Ok(Choice::Chosen(Strategy::Human))
                } else if c == 'C' || c == 'c' {
                    Ok(Choice::Ask(Prompt::Level))
                } else {
                    Err(GameError::InvalidInput)
                },
                Prompt::Level => if c == 'R' || c == 'r' {
                    Ok(Choice::Chosen(Strategy::Random))
                } else if c == 'A' || c == 'a' {
                    Ok(Choice::Chosen(Strategy::Heuristic))
                } else if c == 'G' || c == 'g' {
                    Ok(Choice::Chosen(Strategy::Search))
                } else {
                    Err(GameError::InvalidInput)
                },
            },
        }
    }

    /// Puts `marker` on the cell that the typed answer names, and says
    /// which. An answer that names no cell is refused as invalid, a cell
    /// that is not free as occupied, and the board is then left as it was.
    pub fn user_add(&mut self, marker: Marker, line: &str) -> (r: Result<(usize, usize), GameError>)
        ensures
            named_cell(old(self)@, line@) is None ==> r == Err::<(usize, usize), GameError>(
                GameError::InvalidInput,
            ),
            named_cell(old(self)@, line@) matches Some(p) ==> r == (if is_blank(old(self)@, p) {
                Ok::<(usize, usize), GameError>(p)
            } else {
                Err::<(usize, usize), GameError>(GameError::CellOccupied)
            }),
            r matches Ok(p) ==> final(self)@ == after(old(self)@, p, marker),
            r is Err ==> final(self)@ == old(self)@,
    {
        let size = self.size();
        let num = match read_number(line, size) {
            Some(num) => num,
            None => {
                return Err(GameError::InvalidInput);
            },
        };
        if num < 1 {
            return Err(GameError::InvalidInput);
        }
        let index = self.input_to_index(num);
        match self.place(index.0, index.1, marker) {
            Ok(()) => Ok(index),
            Err(e) => Err(e),
        }
    }

    /// Puts `marker` on a free cell that chance picks, and says which.
    /// On a board without a free cell there is no move, and nothing changes.
    pub fn rand_add(&mut self, marker: Marker, rng: &mut ThreadRng) -> (r: Result<
        (usize, usize),
        GameError,
    >)
        ensures
            r is Err <==> blank_cells(old(self)@).len() == 0,
            r matches Err(e) ==> e == GameError::NoLegalMove && final(self)@ == old(self)@,
            r matches Ok(p) ==> blank_cells(old(self)@).contains(p) && final(self)@ == after(
                old(self)@,
                p,
                marker,
            ),
    {
        let empties = self.get_blanks();
        proof {
            use_type_invariant(&*self);
            self.lemma_wf();
            lemma_blank_cells(self@);
        }
        match pick(&empties, rng) {
            None => Err(GameError::NoLegalMove),
            Some(pos) => {
                self.place(pos.0, pos.1, marker)?;
                Ok(pos)
            },
        }
    }

    /// Puts `marker` on the first free cell on which it wins or on which
    /// the other side would win, and where there is no such cell, on a free
    /// cell that chance picks. Says on which cell it was put. On a board
    /// without a free cell there is no move, and nothing changes.
    pub fn avg_add(&mut self, marker: Marker, rng: &mut ThreadRng) -> (r: Result<
        (usize, usize),
        GameError,
    >)
        ensures
            r is Err <==> blank_cells(old(self)@).len() == 0,
            r matches Err(e) ==> e == GameError::NoLegalMove && final(self)@ == old(self)@,
            r matches Ok(p) ==> blank_cells(old(self)@).contains(p) && final(self)@ == after(
                old(self)@,
                p,
                marker,
            ),
            r matches Ok(p) ==> forall|i: int|
                urgent_first(old(self)@, marker, i) ==> p == blank_cells(old(self)@)[i],
    {
        let empties = self.get_blanks();
        let ghost g = self@;
        proof {
            use_type_invariant(&*self);
            self.lemma_wf();
            lemma_blank_cells(g);
        }
        let mut i: usize = 0;
        while i < empties.len()
            invariant
                0 <= i <= empties.len(),
                g == self@,
                g == old(self)@,
                square(g),
                empties@ == blank_cells(g),
                forall|j: int| 0 <= j < empties.len() ==> is_blank(g, #[trigger] empties@[j]),
                forall|j: int| 0 <= j < i ==> !urgent(g, #[trigger] blank_cells(g)[j], marker),
            decreases empties.len() - i,
        {
            let pos = empties[i];
            let mut oppboard = self.clone();
            let mut dubboard = self.clone();
            oppboard.place(pos.0, pos.1, marker.opposite())?;
            dubboard.place(pos.0, pos.1, marker)?;
            if dubboard.check_win(marker) || oppboard.check_win(marker.opposite()) {
                self.place(pos.0, pos.1, marker)?;
                assert(urgent_first(g, marker, i as int));
                return Ok(pos);
            }
            i = i + 1;
        }
        self.rand_add(marker, rng)
    }

    /// Puts `marker` on a cell that the full search finds best, and says
    /// which. On a board without a free cell there is no move, and nothing
    /// changes.
    pub fn comp_add(&mut self, marker: Marker, rng: &mut ThreadRng) -> (r: Result<
        (usize, usize),
        GameError,
    >)
        ensures
            r is Err <==> blank_cells(old(self)@).len() == 0,
            r matches Err(e) ==> e == GameError::NoLegalMove && final(self)@ == old(self)@,
            r matches Ok(p) ==> blank_cells(old(self)@).contains(p) && top_moves(
                old(self)@,
                marker,
                0,
            ).contains(p) && final(self)@ == after(old(self)@, p, marker),
    {
        match self.calc_optimal(marker, 0, rng) {
            Err(e) => Err(e),
            Ok(found) => {
                let spot = found.0;
                self.place(spot.0, spot.1, marker)?;
                Ok(spot)
            },
        }
    }
}

} // verus!
