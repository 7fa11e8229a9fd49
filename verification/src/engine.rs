//! The rules of the game on a board: the view of either player, the move,
//! and the end of the game.

use vstd::prelude::*;
use crate::board::{colors, lemma_tally_grows, lemma_tally_zero, mine, Board, CELLS};
use crate::game::{Cell, Color};
use crate::region::{
    adjacent,
    flood,
    is_route,
    lemma_closed_marks_hold_routes,
    lemma_neighbour_is_reached,
    lemma_reached_is_passable,
    lemma_territory_is_reached,
    passable,
    reached,
};

verus! {

/// A cell as the other player sees it: the two territories change places.
pub open spec fn swapped(cell: Cell) -> Cell {
    match cell {
        Cell::Me => Cell::Opponent,
        Cell::Opponent => Cell::Me,
        Cell::Color(c) => Cell::Color(c),
    }
}

/// The board as the other player sees it: turned by half a turn, so that
/// cell `i` comes to stand where cell `255 - i` stood, with the territories
/// changing places.
pub open spec fn inverted(cells: Seq<Cell>) -> Seq<Cell> {
    Seq::new(cells.len(), |i: int| swapped(cells[cells.len() - 1 - i]))
}

/// The board as a player sees it: as it is for the first player, inverted
/// for the second.
pub open spec fn oriented(cells: Seq<Cell>, for_second_player: bool) -> Seq<Cell> {
    if for_second_player {
        inverted(cells)
    } else {
        cells
    }
}

/// The board after the viewer's move of `color`: every reached cell is the
/// viewer's, every other cell is as it was.
pub open spec fn claimed(cells: Seq<Cell>, color: Color) -> Seq<Cell> {
    Seq::new(
        cells.len(),
        |i: int|
            if reached(cells, color, i) {
                Cell::Me
            } else {
                cells[i]
            },
    )
}

/// Whether the game is over: no cell is left unclaimed.
pub open spec fn terminal(cells: Seq<Cell>) -> bool {
    forall|i: int| 0 <= i < cells.len() ==> !((#[trigger] cells[i]) is Color)
}

fn swap_sides(cell: Cell) -> (r: Cell)
    ensures
        r == swapped(cell),
{
    match cell {
        Cell::Me => Cell::Opponent,
        Cell::Opponent => Cell::Me,
        Cell::Color(c) => Cell::Color(c),
    }
}

/// Turns the board into the other player's view of it.
pub fn invert_board(board: &Board) -> (out: Board)
    ensures
        out@ == inverted(board@),
{
    let mut cells: [Cell; 256] = [Cell::Me; 256];
    let mut i: usize = 0;
    while i < CELLS
        invariant
            i <= CELLS,
            forall|k: int| 0 <= k < i ==> #[trigger] cells@[255 - k] == swapped(board@[k]),
        decreases CELLS - i,
    {
        cells[255 - i] = swap_sides(board.cells[i]);
        i += 1;
    }
    let out = Board { cells };
    assert forall|k: int| 0 <= k < CELLS implies out@[k] == inverted(board@)[k] by {
        assert(cells@[255 - (255 - k)] == swapped(board@[255 - k]));
    }
    assert(out@ =~= inverted(board@));
    out
}

/// Gives a player's view of the board: the board itself for the first
/// player, the inverted board for the second. Either player thus sees its
/// own corner as cell 0 and its own territory as `Me`.
pub fn orient(board: &Board, for_second_player: bool) -> (out: Board)
    ensures
        out@ == oriented(board@, for_second_player),
{
    if for_second_player {
        invert_board(board)
    } else {
        *board
    }
}

/// Makes the viewer's move of `color`: the viewer's territory grows by every
/// cell of that colour that can be walked to from it over cells that are the
/// viewer's or have that colour. Cells of other colours and the opponent's
/// territory stay as they are and stop the walk.
pub fn claim(board: &Board, color: Color) -> (out: Board)
    ensures
        out@ == claimed(board@, color),
        mine(out@) >= mine(board@),
{
    let marks = flood(board, color);
    let mut cells: [Cell; 256] = board.cells;
    let mut i: usize = 0;
    while i < CELLS
        invariant
            i <= CELLS,
            forall|k: int| 0 <= k < CELLS ==> #[trigger] marks@[k] == reached(board@, color, k),
            forall|k: int| 0 <= k < i ==> #[trigger] cells@[k] == claimed(board@, color)[k],
            forall|k: int| i <= k < CELLS ==> #[trigger] cells@[k] == board@[k],
        decreases CELLS - i,
    {
        if marks[i] {
            cells[i] = Cell::Me;
        }
        i += 1;
    }
    let out = Board { cells };
    assert(out@ =~= claimed(board@, color));
    proof {
        lemma_claim_keeps_territory(board@, color);
    }
    out
}

/// Tells whether the game is over: whether no cell is left unclaimed.
pub fn is_terminal(board: &Board) -> (r: bool)
    ensures
        r == terminal(board@),
        r == (colors(board@) == 0),
{
    proof {
        lemma_terminal_counts(board@);
    }
    let mut i: usize = 0;
    while i < CELLS
        invariant
            i <= CELLS,
            terminal(board@) <==> colors(board@) == 0,
            forall|k: int| 0 <= k < i ==> !((#[trigger] board@[k]) is Color),
        decreases CELLS - i,
    {
        if board.cells[i].is_color() {
            assert(board@[i as int] is Color);
            return false;
        }
        i += 1;
    }
    true
}

/// Seeing the board from the other side twice gives the board back, and so
/// does taking either player's view twice.
pub proof fn lemma_orient_involution(cells: Seq<Cell>, for_second_player: bool)
    ensures
        inverted(inverted(cells)) == cells,
        oriented(oriented(cells, for_second_player), for_second_player) == cells,
{
    assert(inverted(inverted(cells)) =~= cells);
}

/// The game is over exactly when the count of unclaimed cells is zero.
pub proof fn lemma_terminal_counts(cells: Seq<Cell>)
    ensures
        terminal(cells) <==> colors(cells) == 0,
{
    lemma_tally_zero(cells, 0, 7);
    if terminal(cells) {
        assert forall|i: int| 0 <= i < cells.len() implies !(0 <= (#[trigger] cells[i]).byte() <= 7) by {
            assert(!(cells[i] is Color));
        }
    }
    if colors(cells) == 0 {
        assert forall|i: int| 0 <= i < cells.len() implies !((#[trigger] cells[i]) is Color) by {
            assert(!(0 <= cells[i].byte() <= 7));
        }
    }
}

/// A move changes only cells of the chosen colour, and only into the mover's
/// territory: the mover's cells stay the mover's, the opponent's stay the
/// opponent's, the other colours stay. The mover's territory therefore never
/// shrinks.
pub proof fn lemma_claim_keeps_territory(cells: Seq<Cell>, color: Color)
    requires
        cells.len() == CELLS,
    ensures
        forall|i: int|
            0 <= i < CELLS ==> #[trigger] claimed(cells, color)[i] == cells[i] || (cells[i]
                == Cell::Color(color) && claimed(cells, color)[i] == Cell::Me),
        forall|i: int| 0 <= i < CELLS && cells[i] == Cell::Me ==> #[trigger] claimed(cells, color)[i] == Cell::Me,
        mine(claimed(cells, color)) >= mine(cells),
{
    let after = claimed(cells, color);
    assert forall|i: int| 0 <= i < CELLS implies #[trigger] after[i] == cells[i] || (cells[i]
        == Cell::Color(color) && after[i] == Cell::Me) by {
        if reached(cells, color, i) {
            lemma_reached_is_passable(cells, color, i);
        }
    }
    assert forall|i: int| 0 <= i < cells.len() && 8 <= (#[trigger] cells[i]).byte() <= 8 implies 8
        <= after[i].byte() <= 8 by {
        assert(after[i] == cells[i] || after[i] == Cell::Me);
    }
    lemma_tally_grows(cells, after, 8, 8);
}

/// After a move, exactly the cells that the move reached are reached by the
/// same move again.
proof fn lemma_reached_again(cells: Seq<Cell>, color: Color, i: int)
    requires
        cells.len() == CELLS,
    ensures
        reached(claimed(cells, color), color, i) == reached(cells, color, i),
{
    let after = claimed(cells, color);
    if reached(cells, color, i) {
        lemma_reached_is_passable(cells, color, i);
        lemma_territory_is_reached(after, color, i);
    }
    if reached(after, color, i) {
        let marks = Seq::new(CELLS as nat, |k: int| reached(cells, color, k));
        assert forall|k: int| 0 <= k < CELLS && after[k] == Cell::Me implies #[trigger] marks[k] by {
            if !reached(cells, color, k) {
                lemma_territory_is_reached(cells, color, k);
            }
        }
        assert forall|a: int, b: int|
            #[trigger] adjacent(a, b) && marks[a] && passable(after, color, b) implies marks[b] by {
            if !reached(cells, color, b) {
                assert(after[b] == cells[b]);
                if cells[b] == Cell::Me {
                    lemma_territory_is_reached(cells, color, b);
                } else {
                    lemma_neighbour_is_reached(cells, color, a, b);
                }
            }
        }
        let route = choose|route: Seq<int>| #[trigger]
            is_route(after, color, route) && route.last() == i;
        lemma_closed_marks_hold_routes(after, color, marks, route);
        lemma_reached_is_passable(after, color, i);
    }
}

/// Making the same move twice in a row gives what making it once gives.
pub proof fn lemma_claim_idempotent(cells: Seq<Cell>, color: Color)
    requires
        cells.len() == CELLS,
    ensures
        claimed(claimed(cells, color), color) == claimed(cells, color),
{
    let once = claimed(cells, color);
    let twice = claimed(once, color);
    assert forall|i: int| 0 <= i < CELLS implies twice[i] == once[i] by {
        lemma_reached_again(cells, color, i);
    }
    assert(twice =~= once);
}

/// A move of a colour that no neighbour of the mover's territory has leaves
/// the board as it is.
pub proof fn lemma_wasted_move(cells: Seq<Cell>, color: Color)
    requires
        cells.len() == CELLS,
        forall|i: int, j: int|
            #[trigger] adjacent(i, j) && cells[i] == Cell::Me ==> cells[j] != Cell::Color(color),
    ensures
        claimed(cells, color) == cells,
{
    let marks = Seq::new(CELLS as nat, |k: int| cells[k] == Cell::Me);
    assert forall|i: int| 0 <= i < CELLS implies claimed(cells, color)[i] == cells[i] by {
        if reached(cells, color, i) {
            let route = choose|route: Seq<int>| #[trigger]
                is_route(cells, color, route) && route.last() == i;
            assert forall|a: int, b: int|
                #[trigger] adjacent(a, b) && marks[a] && passable(cells, color, b) implies marks[b] by {
            }
            lemma_closed_marks_hold_routes(cells, color, marks, route);
            lemma_reached_is_passable(cells, color, i);
        }
    }
    assert(claimed(cells, color) =~= cells);
}

} // verus!
