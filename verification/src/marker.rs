use vstd::prelude::*;
use vstd::string::StringExecFns;

verus! {

/// What a cell of the board holds: the mark of one of the two sides, or
/// nothing but the ordinal under which the cell is shown while it is free.
///
/// The ordinal is for display only. Whether a cell is free is decided by the
/// variant, never by the number.
#[derive(Copy, Clone, Debug, PartialEq, Eq, Structural)]
pub enum Marker {
    X,
    O,
    Empty(usize),
}

/// The standing of a game.
#[derive(Copy, Clone, Debug, PartialEq, Eq, Structural)]
pub enum State {
    WinO,
    WinX,
    Incomplete,
    Draw,
}

/// Why an operation on the game was turned down.
#[derive(Copy, Clone, Debug, PartialEq, Eq, Structural)]
pub enum GameError {
    /// A row or column outside the grid was named.
    OutOfBounds,
    /// The cell named already carries the mark of a side.
    CellOccupied,
    /// A move was asked for where none can be made.
    NoLegalMove,
    /// A line of text was not one of the accepted answers.
    InvalidInput,
}

/// The character that stands for a digit below ten.
pub open spec fn digit_char(d: int) -> char {
    if d == 0 {
        '0'
    } else if d == 1 {
        '1'
    } else if d == 2 {
        '2'
    } else if d == 3 {
        '3'
    } else if d == 4 {
        '4'
    } else if d == 5 {
        '5'
    } else if d == 6 {
        '6'
    } else if d == 7 {
        '7'
    } else if d == 8 {
        '8'
    } else {
        '9'
    }
}

/// A number written in base ten, without sign or leading zeros.
pub open spec fn decimal(k: nat) -> Seq<char>
    decreases k,
{
    if k < 10 {
        seq![digit_char(k as int)]
    } else {
        decimal(k / 10).push(digit_char((k % 10) as int))
    }
}

/// How a marker is written: a side by its letter, a free cell by its ordinal.
pub open spec fn marker_text(m: Marker) -> Seq<char> {
    match m {
        Marker::X => seq!['X'],
        Marker::O => seq!['O'],
        Marker::Empty(label) => decimal(label as nat),
    }
}

fn digit_str(d: usize) -> (s: &'static str)
    requires
        d < 10,
    ensures
        s@ == seq![digit_char(d as int)],
{
    proof {
        reveal_strlit("0");
        reveal_strlit("1");
        reveal_strlit("2");
        reveal_strlit("3");
        reveal_strlit("4");
        reveal_strlit("5");
        reveal_strlit("6");
        reveal_strlit("7");
        reveal_strlit("8");
        reveal_strlit("9");
    }
    let s = if d == 0 {
        "0"
    } else if d == 1 {
        "1"
    } else if d == 2 {
        "2"
    } else if d == 3 {
        "3"
    } else if d == 4 {
        "4"
    } else if d == 5 {
        "5"
    } else if d == 6 {
        "6"
    } else if d == 7 {
        "7"
    } else if d == 8 {
        "8"
    } else {
        "9"
    };
    assert(s@ =~= seq![digit_char(d as int)]);
    s
}

/// Writes a number in base ten.
pub fn decimal_string(k: usize) -> (s: String)
    ensures
        s@ == decimal(k as nat),
    decreases k,
{
    if k < 10 {
        String::from_str(digit_str(k))
    } else {
        let mut s = decimal_string(k / 10);
        s.append(digit_str(k % 10));
        assert(s@ =~= decimal(k as nat));
        s
    }
}

impl Marker {
    /// The other side; a free cell as it is.
    pub open spec fn spec_opposite(&self) -> Marker {
        match self {
            Marker::X => Marker::O,
            Marker::O => Marker::X,
            Marker::Empty(label) => Marker::Empty(*label),
        }
    }

    /// The standing that means this side has won.
    pub open spec fn spec_win_con(&self) -> State {
        match self {
            Marker::X => State::WinX,
            Marker::O => State::WinO,
            Marker::Empty(_) => State::Incomplete,
        }
    }

    /// Whether the cell is free.
    pub open spec fn spec_is_empty(&self) -> bool {
        *self is Empty
    }

    /// Whether the marker is the mark of one of the two sides.
    pub open spec fn is_side(&self) -> bool {
        *self == Marker::X || *self == Marker::O
    }

    /// The text under which the marker is shown.
    pub fn string(&self) -> (s: String)
        ensures
            s@ == marker_text(*self),
    {
        proof {
            reveal_strlit("X");
            reveal_strlit("O");
        }
        match self {
            Marker::X => {
                let s = String::from_str("X");
                assert(s@ =~= seq!['X']);
                s
            },
            Marker::O => {
                let s = String::from_str("O");
                assert(s@ =~= seq!['O']);
                s
            },
            Marker::Empty(label) => decimal_string(*label),
        }
    }

    /// The other side. A free cell has no other side and comes back as it is.
    #[verifier::when_used_as_spec(spec_opposite)]
    pub fn opposite(&self) -> (r: Marker)
        ensures
            r == self.spec_opposite(),
    {
        match self {
            Marker::X => Marker::O,
            Marker::O => Marker::X,
            Marker::Empty(label) => Marker::Empty(*label),
        }
    }

    /// The standing that means this side has won. For a free cell, which can
    /// win nothing, the game that goes on.
    #[verifier::when_used_as_spec(spec_win_con)]
    pub fn win_con(&self) -> (s: State)
        ensures
            s == self.spec_win_con(),
    {
        match self {
            Marker::X => State::WinX,
            Marker::O => State::WinO,
            Marker::Empty(_) => State::Incomplete,
        }
    }

    /// Whether the cell is free.
    #[verifier::when_used_as_spec(spec_is_empty)]
    pub fn is_empty(&self) -> (b: bool)
        ensures
            b == self.spec_is_empty(),
    {
        match self {
            Marker::X | Marker::O => false,
            Marker::Empty(_) => true,
        }
    }
}

} // verus!
