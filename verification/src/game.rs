//! The value domain of the game: eight paint colours and the two territory
//! markers, with their one-byte encoding.

use vstd::prelude::*;

verus! {

/// One of the eight paintable hues, ordered by its byte value.
#[derive(Clone, Copy, Debug, PartialEq, Eq, PartialOrd, Ord, Hash, Structural)]
pub enum Color {
    Red,
    Orange,
    Yellow,
    Green,
    Cyan,
    Blue,
    Purple,
    Pink,
}

impl Color {
    /// The eight colours, in the order of their bytes.
    pub const ALL: [Color; 8] = [
        Color::Red,
        Color::Orange,
        Color::Yellow,
        Color::Green,
        Color::Cyan,
        Color::Blue,
        Color::Purple,
        Color::Pink,
    ];

    /// The byte that stands for this colour, in `0..=7`.
    pub open spec fn byte(self) -> u8 {
        match self {
            Color::Red => 0,
            Color::Orange => 1,
            Color::Yellow => 2,
            Color::Green => 3,
            Color::Cyan => 4,
            Color::Blue => 5,
            Color::Purple => 6,
            Color::Pink => 7,
        }
    }

    /// The colour that a byte stands for; meaningful for bytes below 8.
    pub open spec fn of_byte(v: u8) -> Color {
        if v == 0 {
            Color::Red
        } else if v == 1 {
            Color::Orange
        } else if v == 2 {
            Color::Yellow
        } else if v == 3 {
            Color::Green
        } else if v == 4 {
            Color::Cyan
        } else if v == 5 {
            Color::Blue
        } else if v == 6 {
            Color::Purple
        } else {
            Color::Pink
        }
    }

    /// Decodes a colour; bytes above 7 stand for none.
    pub fn from_u8(v: u8) -> (r: Option<Color>)
        ensures
            r == if v < 8 { Some(Color::of_byte(v)) } else { None::<Color> },
            r matches Some(c) ==> c.byte() == v,
    {
        match v {
            0 => Some(Color::Red),
            1 => Some(Color::Orange),
            2 => Some(Color::Yellow),
            3 => Some(Color::Green),
            4 => Some(Color::Cyan),
            5 => Some(Color::Blue),
            6 => Some(Color::Purple),
            7 => Some(Color::Pink),
            _ => None,
        }
    }

    /// Encodes the colour as its byte.
    pub fn to_u8(self) -> (r: u8)
        ensures
            r == self.byte(),
            r < 8,
    {
        match self {
            Color::Red => 0,
            Color::Orange => 1,
            Color::Yellow => 2,
            Color::Green => 3,
            Color::Cyan => 4,
            Color::Blue => 5,
            Color::Purple => 6,
            Color::Pink => 7,
        }
    }
}

/// What one cell of the board holds, as the player looking at it sees it.
#[derive(Clone, Copy, Debug, PartialEq, Eq, PartialOrd, Ord, Hash, Structural)]
pub enum Cell {
    /// An unclaimed cell of the given colour.
    Color(Color),
    /// Territory of the player whose view this is.
    Me,
    /// Territory of the other player.
    Opponent,
}

impl Cell {
    /// The byte that stands for this cell: the colour's byte, 8 for own
    /// territory, 9 for the opponent's.
    pub open spec fn byte(self) -> u8 {
        match self {
            Cell::Color(c) => c.byte(),
            Cell::Me => 8,
            Cell::Opponent => 9,
        }
    }

    /// The cell that a byte stands for; meaningful for bytes below 10.
    pub open spec fn of_byte(v: u8) -> Cell {
        if v < 8 {
            Cell::Color(Color::of_byte(v))
        } else if v == 8 {
            Cell::Me
        } else {
            Cell::Opponent
        }
    }

    /// Decodes a cell; bytes above 9 stand for none.
    pub fn from_u8(v: u8) -> (r: Option<Cell>)
        ensures
            r == if v < 10 { Some(Cell::of_byte(v)) } else { None::<Cell> },
            r matches Some(c) ==> c.byte() == v,
    {
        if v < 8 {
            match Color::from_u8(v) {
                Some(c) => Some(Cell::Color(c)),
                None => None,
            }
        } else if v == 8 {
            Some(Cell::Me)
        } else if v == 9 {
            Some(Cell::Opponent)
        } else {
            None
        }
    }

    /// Encodes the cell as its byte.
    pub fn to_u8(self) -> (r: u8)
        ensures
            r == self.byte(),
            r < 10,
    {
        match self {
            Cell::Color(c) => c.to_u8(),
            Cell::Me => 8,
            Cell::Opponent => 9,
        }
    }

    /// Whether the cell is unclaimed.
    pub fn is_color(&self) -> (r: bool)
        ensures
            r == (*self is Color),
    {
        match self {
            Cell::Color(_) => true,
            _ => false,
        }
    }

    /// The colour of an unclaimed cell.
    pub fn unwrap_color(&self) -> (c: Color)
        requires
            *self is Color,
        ensures
            *self == Cell::Color(c),
    {
        match self {
            Cell::Color(color) => *color,
            _ => unreached(),
        }
    }
}

/// Encoding and decoding are inverse to each other: every colour is the
/// colour of its byte, every byte below 8 is the byte of its colour, and the
/// same holds of cells and the bytes below 10.
pub proof fn lemma_byte_round_trip()
    ensures
        forall|c: Color| #[trigger] Color::of_byte(c.byte()) == c && c.byte() < 8,
        forall|v: u8| v < 8 ==> #[trigger] Color::of_byte(v).byte() == v,
        forall|c: Cell| #[trigger] Cell::of_byte(c.byte()) == c && c.byte() < 10,
        forall|v: u8| v < 10 ==> #[trigger] Cell::of_byte(v).byte() == v,
{
}

} // verus!
