//! The region that a move takes: every cell that can be walked to from the
//! mover's territory over cells that are the mover's already or have the
//! chosen colour.

use vstd::prelude::*;
use crate::board::{Board, CELLS};
use crate::game::{Cell, Color};

verus! {

/// Whether cell `j` lies directly above, below, left or right of cell `i`.
/// The last cell of a row is no neighbour of the first cell of the next.
pub open spec fn adjacent(i: int, j: int) -> bool {
    &&& 0 <= i < CELLS
    &&& 0 <= j < CELLS
    &&& (j == i - 16 || j == i + 16 || (j == i - 1 && i % 16 != 0) || (j == i + 1 && i % 16 != 15))
}

/// Whether a move of `color` may pass over cell `i`: the cell is the mover's,
/// or it has that colour.
pub open spec fn passable(cells: Seq<Cell>, color: Color, i: int) -> bool {
    cells[i] == Cell::Me || cells[i] == Cell::Color(color)
}

/// A walk that starts on a cell of the mover's territory, goes from
/// neighbour to neighbour and stays on passable cells.
pub open spec fn is_route(cells: Seq<Cell>, color: Color, route: Seq<int>) -> bool {
    &&& route.len() > 0
    &&& cells[route[0]] == Cell::Me
    &&& forall|k: int|
        0 <= k < route.len() ==> 0 <= #[trigger] route[k] < CELLS && passable(
            cells,
            color,
            route[k],
        )
    &&& forall|k: int| 0 < k < route.len() ==> adjacent(route[k - 1], #[trigger] route[k])
}

/// Whether a move of `color` reaches cell `i`: some route ends there.
pub open spec fn reached(cells: Seq<Cell>, color: Color, i: int) -> bool {
    exists|route: Seq<int>| #[trigger] is_route(cells, color, route) && route.last() == i
}

/// What the search has established so far: every marked cell is reached, and
/// every cell that waits on the stack is a marked cell of the board.
spec fn search_sound(
    cells: Seq<Cell>,
    color: Color,
    marks: Seq<bool>,
    stack: Seq<usize>,
) -> bool {
    &&& marks.len() == CELLS
    &&& forall|i: int| 0 <= i < CELLS && #[trigger] marks[i] ==> reached(cells, color, i)
    &&& forall|s: int| 0 <= s < stack.len() ==> #[trigger] stack[s] < CELLS && marks[stack[s] as int]
}

/// What is left to do: a marked cell that is neither waiting on the stack
/// nor the cell in hand has all its passable neighbours marked.
spec fn search_closed(
    cells: Seq<Cell>,
    color: Color,
    marks: Seq<bool>,
    stack: Seq<usize>,
    in_hand: int,
) -> bool {
    forall|i: int, j: int|
        #[trigger] adjacent(i, j) && marks[i] && i != in_hand && !stack.contains(i as usize)
            && passable(cells, color, j) ==> marks[j]
}

/// How the search may move on from an earlier moment: marks stay, a cell
/// marked since then waits on the stack, and what waited then waits still.
spec fn search_grown(
    marks_then: Seq<bool>,
    stack_then: Seq<usize>,
    marks: Seq<bool>,
    stack: Seq<usize>,
) -> bool {
    &&& forall|i: int| 0 <= i < CELLS && #[trigger] marks_then[i] ==> marks[i]
    &&& forall|i: int|
        0 <= i < CELLS && #[trigger] marks[i] && !marks_then[i] ==> stack.contains(i as usize)
    &&& forall|x: usize| #[trigger] stack_then.contains(x) ==> stack.contains(x)
}

/// A cell of the mover's territory is reached.
pub proof fn lemma_territory_is_reached(cells: Seq<Cell>, color: Color, i: int)
    requires
        0 <= i < CELLS,
        cells[i] == Cell::Me,
    ensures
        reached(cells, color, i),
{
    let route = seq![i];
    assert(is_route(cells, color, route));
    assert(route.last() == i);
}

/// A passable neighbour of a reached cell is reached.
pub proof fn lemma_neighbour_is_reached(cells: Seq<Cell>, color: Color, i: int, j: int)
    requires
        reached(cells, color, i),
        adjacent(i, j),
        passable(cells, color, j),
    ensures
        reached(cells, color, j),
{
    let route = choose|route: Seq<int>| #[trigger] is_route(cells, color, route) && route.last() == i;
    let longer = route.push(j);
    assert forall|k: int| 0 < k < longer.len() implies adjacent(longer[k - 1], #[trigger] longer[k]) by {
        if k < route.len() {
            assert(longer[k] == route[k]);
            assert(longer[k - 1] == route[k - 1]);
        }
    }
    assert(is_route(cells, color, longer));
    assert(longer.last() == j);
}

/// A reached cell is a passable cell of the board.
pub proof fn lemma_reached_is_passable(cells: Seq<Cell>, color: Color, i: int)
    requires
        reached(cells, color, i),
    ensures
        0 <= i < CELLS,
        passable(cells, color, i),
{
    let route = choose|route: Seq<int>| #[trigger] is_route(cells, color, route) && route.last() == i;
    assert(route[route.len() - 1] == i);
}

/// A set of cells that holds the mover's territory and, with each cell, its
/// passable neighbours holds the end of every route.
pub proof fn lemma_closed_marks_hold_routes(
    cells: Seq<Cell>,
    color: Color,
    marks: Seq<bool>,
    route: Seq<int>,
)
    requires
        forall|i: int| 0 <= i < CELLS && cells[i] == Cell::Me ==> #[trigger] marks[i],
        forall|i: int, j: int|
            #[trigger] adjacent(i, j) && marks[i] && passable(cells, color, j) ==> marks[j],
        is_route(cells, color, route),
    ensures
        marks[route.last()],
    decreases route.len(),
{
    if route.len() == 1 {
        assert(route.last() == route[0]);
    } else {
        let shorter = route.drop_last();
        assert(shorter[0] == route[0]);
        assert forall|k: int| 0 < k < shorter.len() implies adjacent(
            shorter[k - 1],
            #[trigger] shorter[k],
        ) by {
            assert(shorter[k] == route[k]);
            assert(shorter[k - 1] == route[k - 1]);
        }
        assert(is_route(cells, color, shorter));
        lemma_closed_marks_hold_routes(cells, color, marks, shorter);
        let last: int = route.len() - 1;
        assert(shorter.last() == route[last - 1]);
        assert(adjacent(route[last - 1], route[last]));
    }
}

/// Marks cell `to`, a neighbour of the marked cell `from`, and puts it on the
/// stack, if it is passable and not marked yet. `unmarked` is the set of the
/// cells without a mark, and `marks_then` and `stack_then` are the marks and
/// the stack of an earlier moment.
fn visit(
    board: &Board,
    color: Color,
    marks: &mut [bool; 256],
    stack: &mut Vec<usize>,
    to: usize,
    Ghost(from): Ghost<int>,
    Ghost(unmarked): Ghost<Set<int>>,
    Ghost(marks_then): Ghost<Seq<bool>>,
    Ghost(stack_then): Ghost<Seq<usize>>,
) -> (left: Ghost<Set<int>>)
    requires
        adjacent(from, to as int),
        old(marks)@[from],
        search_sound(board@, color, old(marks)@, old(stack)@),
        search_grown(marks_then, stack_then, old(marks)@, old(stack)@),
        unmarked.finite(),
        forall|i: int| unmarked.contains(i) <==> 0 <= i < CELLS && !old(marks)@[i],
    ensures
        search_sound(board@, color, final(marks)@, final(stack)@),
        search_grown(marks_then, stack_then, final(marks)@, final(stack)@),
        passable(board@, color, to as int) ==> final(marks)@[to as int],
        forall|i: int| 0 <= i < CELLS && #[trigger] old(marks)@[i] ==> final(marks)@[i],
        left@.finite(),
        forall|i: int| left@.contains(i) <==> 0 <= i < CELLS && !final(marks)@[i],
        2 * left@.len() + final(stack)@.len() <= 2 * unmarked.len() + old(stack)@.len(),
{
    let cell = board.cells[to];
    if !marks[to] && (cell == Cell::Me || cell == Cell::Color(color)) {
        proof {
            lemma_neighbour_is_reached(board@, color, from, to as int);
        }
        let ghost waiting = stack@;
        marks[to] = true;
        stack.push(to);
        proof {
            assert(stack@[waiting.len() as int] == to);
            assert forall|x: usize| #[trigger] waiting.contains(x) implies stack@.contains(x) by {
                let s = choose|s: int| 0 <= s < waiting.len() && waiting[s] == x;
                assert(stack@[s] == x);
            }
        }
        Ghost(unmarked.remove(to as int))
    } else {
        Ghost(unmarked)
    }
}

/// Finds the cells that a move of `color` reaches: the flags of the result,
/// cell by cell, say whether the cell is reached.
pub fn flood(board: &Board, color: Color) -> (marks: [bool; 256])
    ensures
        forall|i: int| 0 <= i < CELLS ==> #[trigger] marks@[i] == reached(board@, color, i),
{
    let mut marks: [bool; 256] = [false; 256];
    let mut stack: Vec<usize> = Vec::new();
    let ghost mut unmarked: Set<int> = vstd::set_lib::set_int_range(0, CELLS as int);
    proof {
        vstd::set_lib::lemma_int_range(0, CELLS as int);
    }
    let mut i: usize = 0;
    while i < CELLS
        invariant
            i <= CELLS,
            search_sound(board@, color, marks@, stack@),
            forall|k: int| 0 <= k < i && board@[k] == Cell::Me ==> #[trigger] marks@[k],
            forall|k: int| 0 <= k < CELLS && #[trigger] marks@[k] ==> stack@.contains(k as usize),
            unmarked.finite(),
            forall|k: int| unmarked.contains(k) <==> 0 <= k < CELLS && !marks@[k],
        decreases CELLS - i,
    {
        if board.cells[i] == Cell::Me {
            proof {
                lemma_territory_is_reached(board@, color, i as int);
                unmarked = unmarked.remove(i as int);
            }
            let ghost before = stack@;
            marks[i] = true;
            stack.push(i);
            assert(stack@[before.len() as int] == i);
            assert forall|k: int| 0 <= k < CELLS && #[trigger] marks@[k] implies stack@.contains(
                k as usize,
            ) by {
                if k != i {
                    let s = choose|s: int| 0 <= s < before.len() && before[s] == k as usize;
                    assert(stack@[s] == k as usize);
                }
            }
        }
        i += 1;
    }
    let ghost cells = board@;
    while stack.len() > 0
        invariant
            search_sound(cells, color, marks@, stack@),
            search_closed(cells, color, marks@, stack@, -1),
            forall|k: int| 0 <= k < CELLS && cells[k] == Cell::Me ==> #[trigger] marks@[k],
            unmarked.finite(),
            forall|k: int| unmarked.contains(k) <==> 0 <= k < CELLS && !marks@[k],
            cells == board@,
        decreases 2 * unmarked.len() + stack@.len(),
    {
        let ghost waiting = stack@;
        let index = stack.pop().unwrap();
        let ghost at: int = index as int;
        assert(waiting[waiting.len() - 1] == index);
        assert(search_closed(cells, color, marks@, stack@, at)) by {
            assert forall|a: int, b: int|
                #[trigger] adjacent(a, b) && marks@[a] && a != at && !stack@.contains(a as usize)
                    && passable(cells, color, b) implies marks@[b] by {
                if waiting.contains(a as usize) {
                    let s = choose|s: int| 0 <= s < waiting.len() && waiting[s] == a as usize;
                    assert(s < waiting.len() - 1);
                    assert(stack@[s] == a as usize);
                }
            }
        }
        let ghost marks_then = marks@;
        let ghost stack_then = stack@;
        if index >= 16 {
            let left = visit(
                board,
                color,
                &mut marks,
                &mut stack,
                index - 16,
                Ghost(at),
                Ghost(unmarked),
                Ghost(marks_then),
                Ghost(stack_then),
            );
            proof {
                unmarked = left@;
            }
        }
        if index + 16 < CELLS {
            let left = visit(
                board,
                color,
                &mut marks,
                &mut stack,
                index + 16,
                Ghost(at),
                Ghost(unmarked),
                Ghost(marks_then),
                Ghost(stack_then),
            );
            proof {
                unmarked = left@;
            }
        }
        if index % 16 != 0 {
            let left = visit(
                board,
                color,
                &mut marks,
                &mut stack,
                index - 1,
                Ghost(at),
                Ghost(unmarked),
                Ghost(marks_then),
                Ghost(stack_then),
            );
            proof {
                unmarked = left@;
            }
        }
        if index % 16 != 15 {
            let left = visit(
                board,
                color,
                &mut marks,
                &mut stack,
                index + 1,
                Ghost(at),
                Ghost(unmarked),
                Ghost(marks_then),
                Ghost(stack_then),
            );
            proof {
                unmarked = left@;
            }
        }
        assert forall|k: int| 0 <= k < CELLS && cells[k] == Cell::Me implies #[trigger] marks@[k] by {
            assert(marks_then[k]);
        }
        assert(search_closed(cells, color, marks@, stack@, -1)) by {
            assert forall|a: int, b: int|
                #[trigger] adjacent(a, b) && marks@[a] && !stack@.contains(a as usize)
                    && passable(cells, color, b) implies marks@[b] by {
                if a != at {
                    if marks_then[a] {
                        assert(!stack_then.contains(a as usize));
                        assert(marks_then[b]);
                    }
                }
            }
        }
    }
    proof {
        assert forall|k: int| 0 <= k < CELLS implies #[trigger] marks@[k] == reached(cells, color, k) by {
            if reached(cells, color, k) {
                let route = choose|route: Seq<int>| #[trigger]
                    is_route(cells, color, route) && route.last() == k;
                assert forall|a: int, b: int|
                    #[trigger] adjacent(a, b) && marks@[a] && passable(cells, color, b) implies marks@[b] by {
                    assert(!stack@.contains(a as usize));
                }
                lemma_closed_marks_hold_routes(cells, color, marks@, route);
            }
        }
    }
    marks
}

} // verus!
