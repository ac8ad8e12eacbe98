use vstd::prelude::*;

use crate::role::Role;

verus! {

/// What stands on a square of the board.
#[derive(Clone, Copy, Debug, PartialEq, Eq, Structural, Hash)]
pub enum Space {
    Empty,
    Attacker,
    King,
    Defender,
}

/// A character that names no kind of square.
#[derive(Clone, Copy, Debug, PartialEq, Eq, Structural)]
pub struct SpaceError {
    pub ch: char,
}

/// A square that has no piece, and so no index among the pieces.
#[derive(Clone, Copy, Debug, PartialEq, Eq, Structural)]
pub struct EmptySpaceError;

impl Space {
    /// The side that a piece on this square plays for: the king plays for the defenders.
    pub open spec fn spec_role(self) -> Role {
        match self {
            Space::Attacker => Role::Attacker,
            Space::Defender | Space::King => Role::Defender,
            Space::Empty => Role::Roleless,
        }
    }

    pub fn role(&self) -> (r: Role)
        ensures
            r == self.spec_role(),
    {
        match self {
            Space::Attacker => Role::Attacker,
            Space::Defender | Space::King => Role::Defender,
            Space::Empty => Role::Roleless,
        }
    }

    /// The one-letter ASCII picture of the square.
    pub open spec fn spec_display_ascii(self) -> Seq<char> {
        match self {
            Space::Attacker => "A"@,
            Space::Empty => "."@,
            Space::King => "K"@,
            Space::Defender => "D"@,
        }
    }

    /// The picture of the square with chess symbols.
    pub open spec fn spec_display(self) -> Seq<char> {
        match self {
            Space::Attacker => "♟"@,
            Space::Empty => "."@,
            Space::King => "♔"@,
            Space::Defender => "♙"@,
        }
    }

    /// The letter of the square in a board diagram.
    pub open spec fn spec_diagram_char(self) -> char {
        match self {
            Space::Attacker => 'X',
            Space::Empty => '.',
            Space::King => 'K',
            Space::Defender => 'O',
        }
    }

    /// The one-letter ASCII picture of the square.
    pub fn display_ascii(&self) -> (s: &'static str)
        ensures
            s@ == self.spec_display_ascii(),
    {
        match self {
            Space::Attacker => "A",
            Space::Empty => ".",
            Space::King => "K",
            Space::Defender => "D",
        }
    }

    /// The picture of the square with chess symbols.
    pub fn display(&self) -> (s: &'static str)
        ensures
            s@ == self.spec_display(),
    {
        match self {
            Space::Attacker => "♟",
            Space::Empty => ".",
            Space::King => "♔",
            Space::Defender => "♙",
        }
    }

    /// The letter of the square in a board diagram.
    pub fn diagram_char(&self) -> (c: char)
        ensures
            c == self.spec_diagram_char(),
    {
        match self {
            Space::Attacker => 'X',
            Space::Empty => '.',
            Space::King => 'K',
            Space::Defender => 'O',
        }
    }

    /// The square that a character of a board diagram stands for.
    pub open spec fn spec_from_char(c: char) -> Option<Space> {
        if c == 'X' {
            Some(Space::Attacker)
        } else if c == 'O' {
            Some(Space::Defender)
        } else if c == '.' {
            Some(Space::Empty)
        } else if c == 'K' {
            Some(Space::King)
        } else {
            None
        }
    }

    /// Reads one character of a board diagram: `X`, `O`, `.` or `K`.
    pub fn try_from_char(c: char) -> (r: Result<Space, SpaceError>)
        ensures
            match Space::spec_from_char(c) {
                Some(s) => r == Ok::<Space, SpaceError>(s),
                None => r == Err::<Space, SpaceError>(SpaceError { ch: c }),
            },
    {
        match c {
            'X' => Ok(Space::Attacker),
            'O' => Ok(Space::Defender),
            '.' => Ok(Space::Empty),
            'K' => Ok(Space::King),
            ch => Err(SpaceError { ch }),
        }
    }

    pub open spec fn spec_to_u8(self) -> u8 {
        match self {
            Space::Attacker => 0,
            Space::Defender => 1,
            Space::Empty => 2,
            Space::King => 3,
        }
    }

    /// The byte that stores the square in a compact board.
    pub fn to_u8(&self) -> (b: u8)
        ensures
            b == self.spec_to_u8(),
    {
        match self {
            Space::Attacker => 0,
            Space::Defender => 1,
            Space::Empty => 2,
            Space::King => 3,
        }
    }

    /// The square that a byte of a compact board stores; only 0 to 3 are bytes of a board.
    pub fn from_u8(b: u8) -> (s: Space)
        requires
            b < 4,
        ensures
            s.spec_to_u8() == b,
    {
        match b {
            0 => Space::Attacker,
            1 => Space::Defender,
            2 => Space::Empty,
            _ => Space::King,
        }
    }

    /// The index of a piece among the three kinds of piece.
    pub fn piece_index(&self) -> (r: Result<usize, EmptySpaceError>)
        ensures
            *self == Space::Attacker ==> r == Ok::<usize, EmptySpaceError>(0),
            *self == Space::Defender ==> r == Ok::<usize, EmptySpaceError>(1),
            *self == Space::King ==> r == Ok::<usize, EmptySpaceError>(2),
            *self == Space::Empty ==> r == Err::<usize, EmptySpaceError>(EmptySpaceError),
    {
        match self {
            Space::Attacker => Ok(0),
            Space::Defender => Ok(1),
            Space::King => Ok(2),
            Space::Empty => Err(EmptySpaceError),
        }
    }
}

/// Reading a byte and writing it back gives the square again.
pub proof fn lemma_space_u8_round_trip(s: Space)
    ensures
        s.spec_to_u8() < 4,
        forall|t: Space| t.spec_to_u8() == s.spec_to_u8() ==> t == s,
{
}

} // verus!
