//! A bot that plays the colour which gains the most cells at once.

use vstd::prelude::*;
use crate::board::{mine, tally, Board, CELLS};
use crate::engine::claimed;
use crate::game::{lemma_byte_round_trip, Cell, Color};
use crate::region::{flood, lemma_reached_is_passable, reached};

verus! {

/// How many of the first `n` cells a move of `color` would gain: the cells
/// of that colour that the move reaches.
pub open spec fn gain_below(cells: Seq<Cell>, color: Color, n: nat) -> nat
    decreases n,
{
    if n == 0 {
        0
    } else {
        gain_below(cells, color, (n - 1) as nat) + if cells[n - 1] == Cell::Color(color) && reached(
            cells,
            color,
            n - 1,
        ) {
            1nat
        } else {
            0nat
        }
    }
}

/// How many cells a move of `color` would gain.
pub open spec fn score(cells: Seq<Cell>, color: Color) -> nat {
    gain_below(cells, color, cells.len())
}

/// Whether a move of `a` is at most as good as a move of `b`: it gains
/// fewer cells, or as many while `a` is not the later colour.
pub open spec fn no_better(cells: Seq<Cell>, a: Color, b: Color) -> bool {
    score(cells, a) < score(cells, b) || (score(cells, a) == score(cells, b) && a.byte()
        <= b.byte())
}

proof fn lemma_gain_bounded(cells: Seq<Cell>, color: Color, n: nat)
    ensures
        gain_below(cells, color, n) <= n,
    decreases n,
{
    if n > 0 {
        lemma_gain_bounded(cells, color, (n - 1) as nat);
    }
}

proof fn lemma_gain_is_growth(cells: Seq<Cell>, color: Color, n: nat)
    requires
        cells.len() == CELLS,
        n <= CELLS,
    ensures
        tally(claimed(cells, color).take(n as int), 8, 8) == tally(cells.take(n as int), 8, 8)
            + gain_below(cells, color, n),
    decreases n,
{
    if n > 0 {
        let after = claimed(cells, color);
        lemma_gain_is_growth(cells, color, (n - 1) as nat);
        assert(after.take(n as int).drop_last() =~= after.take(n - 1));
        assert(cells.take(n as int).drop_last() =~= cells.take(n - 1));
        assert(after.take(n as int).last() == after[n - 1]);
        assert(cells.take(n as int).last() == cells[n - 1]);
        if reached(cells, color, n - 1) {
            lemma_reached_is_passable(cells, color, n - 1);
        }
    }
}

/// A move enlarges the mover's territory by exactly its score.
pub proof fn lemma_score_is_growth(cells: Seq<Cell>, color: Color)
    requires
        cells.len() == CELLS,
    ensures
        mine(claimed(cells, color)) == mine(cells) + score(cells, color),
        score(cells, color) <= CELLS,
{
    lemma_gain_is_growth(cells, color, CELLS as nat);
    lemma_gain_bounded(cells, color, CELLS as nat);
    assert(claimed(cells, color).take(CELLS as int) =~= claimed(cells, color));
    assert(cells.take(CELLS as int) =~= cells);
}

/// Counts the cells that a move of `color` would gain on this board.
pub fn score_color(board: &Board, color: Color) -> (count: u32)
    ensures
        count == score(board@, color),
{
    let marks = flood(board, color);
    let mut count: u32 = 0;
    let mut i: usize = 0;
    while i < CELLS
        invariant
            i <= CELLS,
            forall|k: int| 0 <= k < CELLS ==> #[trigger] marks@[k] == reached(board@, color, k),
            count == gain_below(board@, color, i as nat),
            count <= i,
        decreases CELLS - i,
    {
        if marks[i] && board.cells[i] == Cell::Color(color) {
            count += 1;
        }
        i += 1;
    }
    count
}

/// The greedy bot. It keeps nothing from one turn to the next.
pub struct Player {}

impl Player {
    /// Sets the bot up for a match that starts on the given board.
    pub fn new(_board: &Board) -> (player: Player) {
        Player {  }
    }

    /// Chooses the colour that gains the most cells on this board; of
    /// several such colours, the last one.
    pub fn play(&mut self, board: &Board) -> (color: Color)
        ensures
            forall|other: Color| #[trigger] no_better(board@, other, color),
    {
        let mut best: Color = Color::Red;
        let mut best_score: u32 = score_color(board, best);
        let mut k: u8 = 1;
        while k < 8
            invariant
                1 <= k <= 8,
                best.byte() < k,
                best_score == score(board@, best),
                forall|other: Color| other.byte() < k ==> #[trigger] no_better(board@, other, best),
            decreases 8 - k,
        {
            let color = Color::from_u8(k).unwrap();
            let color_score = score_color(board, color);
            let ghost earlier = best;
            if color_score >= best_score {
                best = color;
                best_score = color_score;
            }
            proof {
                lemma_byte_round_trip();
                assert forall|other: Color| other.byte() < k + 1 implies #[trigger] no_better(
                    board@,
                    other,
                    best,
                ) by {
                    if other.byte() == k {
                        assert(Color::of_byte(other.byte()) == other);
                        assert(other == color);
                    } else {
                        assert(no_better(board@, other, earlier));
                    }
                }
            }
            k += 1;
        }
        best
    }
}

} // verus!
