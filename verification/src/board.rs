//! The board: a grid of 16 by 16 cells, stored row by row, and its encoding
//! as 256 bytes.

use vstd::prelude::*;
use crate::error::ArenaError;
use crate::game::Cell;

verus! {

/// Cells in a row, and rows on the board.
pub const SIDE: usize = 16;

/// Cells on the board.
pub const CELLS: usize = 256;

/// A board as one player sees it. Cell `16 * row + col` is the cell in that
/// row and column; the viewer's own corner is cell 0.
#[derive(Clone, Copy, Debug, PartialEq, Eq)]
pub struct Board {
    pub cells: [Cell; 256],
}

impl View for Board {
    type V = Seq<Cell>;

    open spec fn view(&self) -> Seq<Cell> {
        self.cells@
    }
}

/// Whether a byte sequence encodes a board: 256 bytes, none above 9.
pub open spec fn valid_encoding(bytes: Seq<u8>) -> bool {
    &&& bytes.len() == CELLS
    &&& forall|i: int| 0 <= i < bytes.len() ==> #[trigger] bytes[i] <= 9
}

/// The cells that a byte sequence stands for, byte by byte.
pub open spec fn decoding(bytes: Seq<u8>) -> Seq<Cell> {
    Seq::new(bytes.len(), |i: int| Cell::of_byte(bytes[i]))
}

/// The bytes that stand for a sequence of cells, cell by cell.
pub open spec fn encoding(cells: Seq<Cell>) -> Seq<u8> {
    Seq::new(cells.len(), |i: int| cells[i].byte())
}

impl Board {
    /// The cell at a position counted row by row.
    pub fn cell(&self, index: usize) -> (c: Cell)
        requires
            index < CELLS,
        ensures
            c == self@[index as int],
    {
        self.cells[index]
    }

    /// The cell in a given row and column.
    pub fn at(&self, row: usize, col: usize) -> (c: Cell)
        requires
            row < SIDE,
            col < SIDE,
        ensures
            c == self@[16 * row + col],
    {
        self.cells[16 * row + col]
    }

    /// The board as the 256 bytes that are handed to a bot.
    pub fn to_bytes(&self) -> (bytes: Vec<u8>)
        ensures
            bytes@ == encoding(self@),
            valid_encoding(bytes@),
    {
        let mut bytes: Vec<u8> = Vec::with_capacity(CELLS);
        let mut i: usize = 0;
        while i < CELLS
            invariant
                i <= CELLS,
                bytes@.len() == i,
                forall|k: int| 0 <= k < i ==> #[trigger] bytes@[k] == self@[k].byte(),
            decreases CELLS - i,
        {
            bytes.push(self.cells[i].to_u8());
            i += 1;
        }
        assert(bytes@ =~= encoding(self@));
        bytes
    }
}

/// Reads a board from the bytes that stand for it, and rejects anything that
/// is not 256 bytes of at most 9 each.
pub fn parse_board(bytes: &[u8]) -> (r: Result<Board, ArenaError>)
    ensures
        valid_encoding(bytes@) ==> r is Ok && r->Ok_0@ == decoding(bytes@),
        !valid_encoding(bytes@) ==> r == Err::<Board, ArenaError>(ArenaError::InvalidBoardEncoding),
{
    if bytes.len() != CELLS {
        return Err(ArenaError::InvalidBoardEncoding);
    }
    let mut cells: [Cell; 256] = [Cell::Me; 256];
    let mut i: usize = 0;
    while i < CELLS
        invariant
            i <= CELLS,
            bytes@.len() == CELLS,
            forall|k: int| 0 <= k < i ==> #[trigger] bytes@[k] <= 9,
            forall|k: int| 0 <= k < i ==> #[trigger] cells@[k] == Cell::of_byte(bytes@[k]),
        decreases CELLS - i,
    {
        match Cell::from_u8(bytes[i]) {
            Some(c) => {
                cells[i] = c;
            },
            None => {
                assert(!(bytes@[i as int] <= 9));
                return Err(ArenaError::InvalidBoardEncoding);
            },
        }
        i += 1;
    }
    let board = Board { cells };
    assert(board@ =~= decoding(bytes@));
    Ok(board)
}

/// A board and its bytes determine each other.
pub proof fn lemma_encoding_round_trip(cells: Seq<Cell>, bytes: Seq<u8>)
    ensures
        decoding(encoding(cells)) == cells,
        cells.len() == CELLS ==> valid_encoding(encoding(cells)),
        valid_encoding(bytes) ==> encoding(decoding(bytes)) == bytes,
{
    crate::game::lemma_byte_round_trip();
    assert(decoding(encoding(cells)) =~= cells);
    if valid_encoding(bytes) {
        assert(encoding(decoding(bytes)) =~= bytes);
    }
}

/// How many of the cells have a byte from `low` to `high`, both included.
pub open spec fn tally(cells: Seq<Cell>, low: u8, high: u8) -> nat
    decreases cells.len(),
{
    if cells.len() == 0 {
        0
    } else {
        tally(cells.drop_last(), low, high) + if low <= cells.last().byte() <= high {
            1nat
        } else {
            0nat
        }
    }
}

/// How many cells are unclaimed.
pub open spec fn colors(cells: Seq<Cell>) -> nat {
    tally(cells, 0, 7)
}

/// How many cells are the viewer's territory.
pub open spec fn mine(cells: Seq<Cell>) -> nat {
    tally(cells, 8, 8)
}

/// How many cells are the opponent's territory.
pub open spec fn theirs(cells: Seq<Cell>) -> nat {
    tally(cells, 9, 9)
}

/// Every cell is unclaimed, the viewer's or the opponent's, and only one of
/// the three: the three counts add up to the number of cells, which is 256
/// on a board.
pub proof fn lemma_cell_census(cells: Seq<Cell>)
    ensures
        colors(cells) + mine(cells) + theirs(cells) == cells.len(),
    decreases cells.len(),
{
    if cells.len() > 0 {
        lemma_cell_census(cells.drop_last());
    }
}

/// On a board the three counts add up to 256.
pub proof fn lemma_board_census(board: Board)
    ensures
        colors(board@) + mine(board@) + theirs(board@) == CELLS,
{
    lemma_cell_census(board@);
}

/// A count is zero exactly when no cell has a byte in the range.
pub proof fn lemma_tally_zero(cells: Seq<Cell>, low: u8, high: u8)
    ensures
        tally(cells, low, high) == 0 <==> forall|i: int|
            0 <= i < cells.len() ==> !(low <= (#[trigger] cells[i]).byte() <= high),
    decreases cells.len(),
{
    if cells.len() > 0 {
        let front = cells.drop_last();
        lemma_tally_zero(front, low, high);
        if tally(cells, low, high) == 0 {
            assert forall|i: int| 0 <= i < cells.len() implies !(low <= (#[trigger] cells[i]).byte()
                <= high) by {
                if i < front.len() {
                    assert(front[i] == cells[i]);
                }
            }
        } else if tally(front, low, high) != 0 {
            let i = choose|i: int| 0 <= i < front.len() && low <= (#[trigger] front[i]).byte() <= high;
            assert(cells[i] == front[i]);
        } else {
            assert(low <= cells[cells.len() - 1].byte() <= high);
        }
    }
}

/// Where every cell in the range on one board is in the range on another,
/// the other board has at least as many of them.
pub proof fn lemma_tally_grows(before: Seq<Cell>, after: Seq<Cell>, low: u8, high: u8)
    requires
        before.len() == after.len(),
        forall|i: int|
            0 <= i < before.len() && low <= (#[trigger] before[i]).byte() <= high ==> low
                <= after[i].byte() <= high,
    ensures
        tally(before, low, high) <= tally(after, low, high),
    decreases before.len(),
{
    if before.len() > 0 {
        let b = before.drop_last();
        let a = after.drop_last();
        assert forall|i: int| 0 <= i < b.len() && low <= (#[trigger] b[i]).byte() <= high implies low
            <= a[i].byte() <= high by {
            assert(b[i] == before[i]);
            assert(a[i] == after[i]);
        }
        lemma_tally_grows(b, a, low, high);
        assert(low <= before[before.len() - 1].byte() <= high ==> low <= after[after.len()
            - 1].byte() <= high);
    }
}

} // verus!
