//! The match: the shared board in the first player's coordinates, whose turn
//! it is, and what each answer of a bot does to the board.

use vstd::prelude::*;
use crate::board::{encoding, Board, CELLS};
use crate::engine::{
    claim,
    claimed,
    is_terminal,
    lemma_claim_keeps_territory,
    orient,
    oriented,
    terminal,
};
use crate::error::ArenaError;
use crate::game::{Cell, Color};
use crate::host::{CallOutcome, CallRequest, HandleState, PlayerHandle};

verus! {

/// Where a match stands.
#[derive(Clone, Copy, Debug, PartialEq, Eq, Hash, Structural)]
pub enum Phase {
    /// The bots are not initialized yet.
    NotStarted,
    /// Moves are being made.
    Running,
    /// No cell is left unclaimed.
    Terminal,
}

/// One of the two players. The first owns cell 0 of the shared board, the
/// second cell 255.
#[derive(Clone, Copy, Debug, PartialEq, Eq, Hash, Structural)]
pub enum Seat {
    First,
    Second,
}

/// A match as a mathematical value.
pub struct GameView {
    /// The board as the first player sees it.
    pub board: Seq<Cell>,
    /// How many moves have been made.
    pub moves: nat,
    pub phase: Phase,
}

/// Whose move it is after `moves` moves: the players take turns, and the
/// first player begins.
pub open spec fn mover(moves: nat) -> Seat {
    if moves % 2 == 0 {
        Seat::First
    } else {
        Seat::Second
    }
}

/// The colour that a bot's answer names: the answer's low byte, if that is
/// one of the eight colours.
pub open spec fn chosen_color(reply: i64) -> Option<Color> {
    let low = reply as int % 256;
    if low < 8 {
        Some(Color::of_byte(low as u8))
    } else {
        None
    }
}

/// The shared board after `seat` has moved `color`: the move is made on the
/// board as that player sees it, and the result is turned back.
pub open spec fn moved(board: Seq<Cell>, seat: Seat, color: Color) -> Seq<Cell> {
    let second = seat == Seat::Second;
    oriented(claimed(oriented(board, second), color), second)
}

/// The phase of a match that is under way on `board`.
pub open spec fn phase_on(board: Seq<Cell>) -> Phase {
    if terminal(board) {
        Phase::Terminal
    } else {
        Phase::Running
    }
}

/// What an outcome of the mover's call does to a match. Outside a running
/// match nothing is due. A call that used up its budget ends the match:
/// the move is not replaced and the other player is not declared the
/// winner. An answer that names no colour is refused before anything is
/// claimed. Any other answer is the mover's move.
pub open spec fn step(state: GameView, outcome: CallOutcome) -> Result<GameView, ArenaError> {
    if state.phase != Phase::Running {
        Err(ArenaError::ProtocolViolation)
    } else {
        match outcome {
            CallOutcome::BudgetExhausted => Err(ArenaError::ComputeBudgetExceeded),
            CallOutcome::Returned(reply) => match chosen_color(reply) {
                None => Err(ArenaError::InvalidMove),
                Some(color) => {
                    let board = moved(state.board, mover(state.moves), color);
                    Ok(GameView { board, moves: state.moves + 1, phase: phase_on(board) })
                },
            },
        }
    }
}

/// Whether the phase of a match fits its board and its count of moves.
pub open spec fn consistent(state: GameView) -> bool {
    &&& state.board.len() == CELLS
    &&& state.phase == Phase::NotStarted ==> state.moves == 0
    &&& state.phase == Phase::Running ==> !terminal(state.board)
    &&& state.phase == Phase::Terminal ==> terminal(state.board)
}

/// Reads the colour that a bot's answer names. Only the low byte of the
/// answer counts, and it has to be one of the eight colours.
pub fn decode_move(reply: i64) -> (r: Result<Color, ArenaError>)
    ensures
        r == match chosen_color(reply) {
            Some(color) => Ok::<Color, ArenaError>(color),
            None => Err::<Color, ArenaError>(ArenaError::InvalidMove),
        },
{
    let low: i64 = match reply.checked_rem_euclid(256) {
        Some(low) => low,
        None => { return Err(ArenaError::InvalidMove); },
    };
    if low < 8 {
        match Color::from_u8(low as u8) {
            Some(color) => Ok(color),
            None => Err(ArenaError::InvalidMove),
        }
    } else {
        Err(ArenaError::InvalidMove)
    }
}

/// A match between two bots.
pub struct GameState {
    board: Board,
    move_number: u64,
    phase: Phase,
}

impl View for GameState {
    type V = GameView;

    closed spec fn view(&self) -> GameView {
        GameView { board: self.board@, moves: self.move_number as nat, phase: self.phase }
    }
}

impl GameState {
    #[verifier::type_invariant]
    spec fn sound(self) -> bool {
        consistent(self@)
    }

    /// A match on the given starting board, before the bots are initialized.
    pub fn new(initial: Board) -> (game: GameState)
        ensures
            game@ == (GameView { board: initial@, moves: 0, phase: Phase::NotStarted }),
    {
        GameState { board: initial, move_number: 0, phase: Phase::NotStarted }
    }

    /// The shared board, as the first player sees it.
    pub fn board(&self) -> (board: Board)
        ensures
            board@ == self@.board,
    {
        self.board
    }

    /// How many moves have been made.
    pub fn move_number(&self) -> (n: u64)
        ensures
            n == self@.moves,
    {
        self.move_number
    }

    /// Where the match stands. A running match has an unclaimed cell left, a
    /// finished one has none.
    pub fn phase(&self) -> (p: Phase)
        ensures
            p == self@.phase,
            consistent(self@),
    {
        proof {
            use_type_invariant(self);
        }
        self.phase
    }

    /// Whose move it is: the first player's after an even number of moves,
    /// the second player's after an odd number.
    pub fn active_player(&self) -> (seat: Seat)
        ensures
            seat == mover(self@.moves),
    {
        if self.move_number % 2 == 0 {
            Seat::First
        } else {
            Seat::Second
        }
    }

    /// The board as the given player sees it.
    pub fn view_for(&self, seat: Seat) -> (board: Board)
        ensures
            board@ == oriented(self@.board, seat == Seat::Second),
    {
        match seat {
            Seat::First => orient(&self.board, false),
            Seat::Second => orient(&self.board, true),
        }
    }

    /// Admits the call that initializes the bot in the given seat, with the
    /// starting board as that bot sees it. It is refused once the match has
    /// started, for a bot that is initialized already, and while an earlier
    /// such call of the bot is under way. The bot is ready once the call is
    /// reported to its handle as having constructed it.
    pub fn initialize_player(&self, seat: Seat, handle: &mut PlayerHandle, fuel: u64) -> (r: Result<
        CallRequest,
        ArenaError,
    >)
        ensures
            r is Ok <==> self@.phase == Phase::NotStarted && old(handle).status()
                == HandleState::Uninitialized && !old(handle).awaiting_outcome(),
            r is Ok ==> r->Ok_0.fuel == fuel && r->Ok_0.board@ == encoding(
                oriented(self@.board, seat == Seat::Second),
            ),
            r is Ok ==> final(handle).status() == HandleState::Uninitialized
                && final(handle).awaiting_outcome() && final(handle).buffers() == old(
                handle,
            ).buffers(),
            r is Err ==> r->Err_0 == ArenaError::ProtocolViolation && *final(handle) == *old(
                handle,
            ),
    {
        match self.phase {
            Phase::NotStarted => {
                let view = self.view_for(seat);
                handle.initialize(&view, fuel)
            },
            _ => Err(ArenaError::ProtocolViolation),
        }
    }

    /// Admits the call for the next move: says whose move it is and what
    /// that bot is to be given, the board as it sees it. It is refused unless
    /// the match is running and that bot is initialized.
    pub fn next_call(&self, first: &PlayerHandle, second: &PlayerHandle, fuel: u64) -> (r: Result<
        (Seat, CallRequest),
        ArenaError,
    >)
        ensures
            r is Ok <==> self@.phase == Phase::Running && (if mover(self@.moves) == Seat::First {
                first.status()
            } else {
                second.status()
            }) == HandleState::Ready,
            r is Ok ==> r->Ok_0.0 == mover(self@.moves) && r->Ok_0.1.fuel == fuel
                && r->Ok_0.1.board@ == encoding(
                oriented(self@.board, mover(self@.moves) == Seat::Second),
            ),
            r is Err ==> r->Err_0 == ArenaError::ProtocolViolation,
    {
        match self.phase {
            Phase::Running => {},
            _ => { return Err(ArenaError::ProtocolViolation); },
        }
        let seat = self.active_player();
        let view = self.view_for(seat);
        let request = match seat {
            Seat::First => first.play(&view, fuel),
            Seat::Second => second.play(&view, fuel),
        };
        match request {
            Ok(request) => Ok((seat, request)),
            Err(e) => Err(e),
        }
    }

    /// Starts the match once both bots are initialized. A match on a board
    /// without an unclaimed cell is over as it starts.
    pub fn start(&mut self, first: &PlayerHandle, second: &PlayerHandle) -> (r: Result<
        (),
        ArenaError,
    >)
        ensures
            r is Ok <==> old(self)@.phase == Phase::NotStarted && first.status()
                == HandleState::Ready && second.status() == HandleState::Ready,
            r is Ok ==> final(self)@ == (GameView {
                phase: phase_on(old(self)@.board),
                ..old(self)@
            }),
            r is Err ==> r->Err_0 == ArenaError::ProtocolViolation && final(self)@ == old(self)@,
    {
        proof {
            use_type_invariant(&*self);
        }
        let ready = match (first.state(), second.state()) {
            (HandleState::Ready, HandleState::Ready) => true,
            _ => false,
        };
        match self.phase {
            Phase::NotStarted => {
                if !ready {
                    return Err(ArenaError::ProtocolViolation);
                }
                if is_terminal(&self.board) {
                    self.phase = Phase::Terminal;
                } else {
                    self.phase = Phase::Running;
                }
                Ok(())
            },
            _ => Err(ArenaError::ProtocolViolation),
        }
    }

    /// Takes the outcome of the mover's call and, if it is a move, makes it
    /// and passes the turn. On an error the match is left as it was.
    pub fn advance(&mut self, outcome: CallOutcome) -> (r: Result<(), ArenaError>)
        requires
            old(self)@.moves < u64::MAX,
        ensures
            match step(old(self)@, outcome) {
                Ok(next) => r is Ok && final(self)@ == next,
                Err(e) => r == Err::<(), ArenaError>(e) && final(self)@ == old(self)@,
            },
    {
        proof {
            use_type_invariant(&*self);
        }
        match self.phase {
            Phase::Running => {},
            _ => { return Err(ArenaError::ProtocolViolation); },
        }
        let reply = match outcome {
            CallOutcome::Returned(reply) => reply,
            CallOutcome::BudgetExhausted => { return Err(ArenaError::ComputeBudgetExceeded); },
        };
        let color = match decode_move(reply) {
            Ok(color) => color,
            Err(e) => { return Err(e); },
        };
        let second = self.move_number % 2 == 1;
        let view = orient(&self.board, second);
        let taken = claim(&view, color);
        let board = orient(&taken, second);
        let phase = if is_terminal(&board) {
            Phase::Terminal
        } else {
            Phase::Running
        };
        *self = GameState { board, move_number: self.move_number + 1, phase };
        Ok(())
    }
}

/// A move leaves each player's corner with its owner: where cell 0 is the
/// first player's and cell 255 the second player's before a move, they are
/// so after it.
pub proof fn lemma_corners_stay(board: Seq<Cell>, seat: Seat, color: Color)
    requires
        board.len() == CELLS,
        board[0] == Cell::Me,
        board[255] == Cell::Opponent,
    ensures
        moved(board, seat, color)[0] == Cell::Me,
        moved(board, seat, color)[255] == Cell::Opponent,
{
    let second = seat == Seat::Second;
    let view = oriented(board, second);
    lemma_claim_keeps_territory(view, color);
    assert(view[0] == Cell::Me);
    assert(view[255] == Cell::Opponent);
    assert(claimed(view, color)[0] == Cell::Me);
    assert(claimed(view, color)[255] == Cell::Opponent);
}

} // verus!
