use arena::arena::{decode_move, GameState, Phase, Seat};
use arena::board::{parse_board, Board};
use arena::engine::{claim, invert_board, is_terminal};
use arena::error::ArenaError;
use arena::game::{Cell, Color};
use arena::host::{CallOutcome, InitOutcome, ModuleStatus, OutputBuffers, PlayerHandle};
use arena::player::Player;

const START: [u8; 256] = [
    8, 5, 5, 1, 1, 5, 6, 4, 6, 0, 2, 6, 0, 2, 7, 7, 7, 3, 6, 3, 1, 2, 2, 6, 0, 3, 7, 7, 6, 2, 1, 7,
    4, 2, 1, 5, 4, 2, 7, 3, 2, 7, 6, 4, 2, 0, 7, 6, 2, 2, 0, 2, 4, 6, 4, 5, 3, 0, 1, 3, 2, 1, 2, 7,
    6, 1, 1, 7, 1, 2, 3, 5, 2, 1, 1, 3, 2, 1, 4, 3, 2, 4, 5, 0, 0, 0, 7, 7, 0, 5, 7, 4, 7, 5, 6, 7,
    7, 2, 5, 0, 7, 5, 4, 7, 7, 7, 3, 3, 6, 2, 1, 4, 2, 1, 4, 5, 2, 5, 3, 1, 5, 6, 2, 7, 1, 3, 3, 2,
    1, 7, 6, 3, 7, 7, 2, 4, 5, 6, 2, 6, 1, 2, 5, 2, 3, 0, 0, 6, 0, 0, 7, 7, 3, 4, 2, 7, 2, 7, 5, 6,
    0, 5, 4, 3, 1, 3, 1, 4, 3, 2, 4, 1, 5, 7, 6, 5, 6, 4, 6, 0, 4, 7, 5, 0, 1, 5, 3, 7, 1, 0, 6, 6,
    2, 0, 6, 4, 4, 2, 5, 4, 2, 3, 5, 5, 1, 2, 0, 7, 6, 1, 3, 2, 7, 4, 0, 7, 7, 7, 3, 1, 5, 4, 3, 1,
    5, 5, 5, 4, 3, 2, 6, 3, 2, 4, 0, 3, 6, 5, 6, 2, 2, 2, 2, 6, 3, 6, 1, 6, 3, 6, 2, 7, 2, 6, 5, 9,
];

fn start() -> Board {
    parse_board(&START).unwrap()
}

fn fresh() -> PlayerHandle {
    PlayerHandle::new(ModuleStatus::Loaded, OutputBuffers::new()).unwrap()
}

fn ready() -> PlayerHandle {
    let mut handle = fresh();
    handle.initialize(&start(), 1).unwrap();
    handle.initialized(InitOutcome::Constructed).unwrap();
    handle
}

fn running(board: Board) -> GameState {
    let mut game = GameState::new(board);
    game.start(&ready(), &ready()).unwrap();
    game
}

#[test]
fn decode_move_reads_the_eight_colors() {
    assert_eq!(decode_move(0), Ok(Color::Red));
    assert_eq!(decode_move(1), Ok(Color::Orange));
    assert_eq!(decode_move(2), Ok(Color::Yellow));
    assert_eq!(decode_move(3), Ok(Color::Green));
    assert_eq!(decode_move(4), Ok(Color::Cyan));
    assert_eq!(decode_move(5), Ok(Color::Blue));
    assert_eq!(decode_move(6), Ok(Color::Purple));
    assert_eq!(decode_move(7), Ok(Color::Pink));
}

#[test]
fn decode_move_rejects_what_is_no_color() {
    for reply in [8i64, 9, 10, 100, 255, -1, -248, i64::MAX] {
        assert_eq!(decode_move(reply), Err(ArenaError::InvalidMove));
    }
}

#[test]
fn decode_move_looks_at_the_low_byte_only() {
    assert_eq!(decode_move(256), Ok(Color::Red));
    assert_eq!(decode_move(259), Ok(Color::Green));
    assert_eq!(decode_move(0x7f07), Ok(Color::Pink));
    assert_eq!(decode_move(-256), Ok(Color::Red));
    assert_eq!(decode_move(-251), Ok(Color::Blue));
    assert_eq!(decode_move(i64::MIN), Ok(Color::Red));
    assert_eq!(decode_move(265), Err(ArenaError::InvalidMove));
}

#[test]
fn a_new_match_has_not_started() {
    let game = GameState::new(start());
    assert_eq!(game.phase(), Phase::NotStarted);
    assert_eq!(game.move_number(), 0);
    assert_eq!(game.board(), start());
    assert_eq!(game.active_player(), Seat::First);
}

#[test]
fn each_player_sees_its_own_view() {
    let game = GameState::new(start());
    assert_eq!(game.view_for(Seat::First), start());
    assert_eq!(game.view_for(Seat::Second), invert_board(&start()));
    assert_eq!(game.view_for(Seat::First).cells[0], Cell::Me);
    assert_eq!(game.view_for(Seat::Second).cells[0], Cell::Me);
}

#[test]
fn start_needs_both_bots_initialized() {
    let fresh = fresh();
    let mut game = GameState::new(start());
    assert_eq!(game.start(&fresh, &ready()), Err(ArenaError::ProtocolViolation));
    assert_eq!(game.start(&ready(), &fresh), Err(ArenaError::ProtocolViolation));
    assert_eq!(game.start(&fresh, &fresh), Err(ArenaError::ProtocolViolation));
    assert_eq!(game.phase(), Phase::NotStarted);
    assert_eq!(game.start(&ready(), &ready()), Ok(()));
    assert_eq!(game.phase(), Phase::Running);
    assert_eq!(game.board(), start());
    assert_eq!(game.move_number(), 0);
}

#[test]
fn start_twice_is_a_protocol_violation() {
    let mut game = running(start());
    assert_eq!(game.start(&ready(), &ready()), Err(ArenaError::ProtocolViolation));
    assert_eq!(game.phase(), Phase::Running);
}

#[test]
fn a_match_on_a_board_without_colors_is_over_as_it_starts() {
    let mut cells = [Cell::Me; 256];
    cells[255] = Cell::Opponent;
    let mut game = running(Board { cells });
    assert_eq!(game.phase(), Phase::Terminal);
    assert_eq!(
        game.advance(CallOutcome::Returned(0)),
        Err(ArenaError::ProtocolViolation)
    );
    assert_eq!(game.move_number(), 0);
}

#[test]
fn advance_before_start_is_a_protocol_violation() {
    let mut game = GameState::new(start());
    assert_eq!(
        game.advance(CallOutcome::Returned(5)),
        Err(ArenaError::ProtocolViolation)
    );
    assert_eq!(
        game.advance(CallOutcome::BudgetExhausted),
        Err(ArenaError::ProtocolViolation)
    );
    assert_eq!(game.board(), start());
    assert_eq!(game.move_number(), 0);
    assert_eq!(game.phase(), Phase::NotStarted);
}

#[test]
fn an_answer_of_nine_is_an_invalid_move_and_claims_nothing() {
    let mut game = running(start());
    assert_eq!(game.advance(CallOutcome::Returned(9)), Err(ArenaError::InvalidMove));
    assert_eq!(game.board(), start());
    assert_eq!(game.move_number(), 0);
    assert_eq!(game.phase(), Phase::Running);
    assert_eq!(game.active_player(), Seat::First);
    assert_eq!(game.advance(CallOutcome::Returned(8)), Err(ArenaError::InvalidMove));
    assert_eq!(game.advance(CallOutcome::Returned(-1)), Err(ArenaError::InvalidMove));
    assert_eq!(game.board(), start());
}

#[test]
fn a_used_up_budget_ends_the_match_and_claims_nothing() {
    let mut game = running(start());
    assert_eq!(
        game.advance(CallOutcome::BudgetExhausted),
        Err(ArenaError::ComputeBudgetExceeded)
    );
    assert_eq!(game.board(), start());
    assert_eq!(game.move_number(), 0);
    assert_eq!(game.phase(), Phase::Running);
}

#[test]
fn the_first_move_is_made_on_the_shared_board() {
    let mut game = running(start());
    assert_eq!(game.advance(CallOutcome::Returned(5)), Ok(()));
    let mut expected = START;
    expected[1] = 8;
    expected[2] = 8;
    assert_eq!(game.board().to_bytes(), expected.to_vec());
    assert_eq!(game.move_number(), 1);
    assert_eq!(game.active_player(), Seat::Second);
    assert_eq!(game.phase(), Phase::Running);
}

#[test]
fn the_second_move_is_made_from_the_far_corner() {
    let mut game = running(start());
    game.advance(CallOutcome::Returned(5)).unwrap();
    assert_eq!(game.view_for(Seat::Second).cells[1], Cell::Color(Color::Blue));
    assert_eq!(game.advance(CallOutcome::Returned(5)), Ok(()));
    let mut expected = START;
    expected[1] = 8;
    expected[2] = 8;
    expected[254] = 9;
    assert_eq!(game.board().to_bytes(), expected.to_vec());
    assert_eq!(game.move_number(), 2);
    assert_eq!(game.active_player(), Seat::First);
}

#[test]
fn a_move_that_gains_nothing_still_passes_the_turn() {
    let mut game = running(start());
    assert_eq!(game.advance(CallOutcome::Returned(0)), Ok(()));
    assert_eq!(game.board(), start());
    assert_eq!(game.move_number(), 1);
    assert_eq!(game.active_player(), Seat::Second);
}

#[test]
fn a_move_is_the_claim_on_the_movers_view_turned_back() {
    let mut game = running(start());
    let replies = [5i64, 2, 1, 5, 4, 6, 7, 7, 3, 0, 2, 1];
    for (n, reply) in replies.iter().enumerate() {
        let before = game.board();
        let color = decode_move(*reply).unwrap();
        let expected = if n % 2 == 0 {
            claim(&before, color)
        } else {
            invert_board(&claim(&invert_board(&before), color))
        };
        assert_eq!(game.advance(CallOutcome::Returned(*reply)), Ok(()));
        assert_eq!(game.board(), expected);
        assert_eq!(game.move_number(), n as u64 + 1);
        assert_eq!(game.board().cells[0], Cell::Me);
        assert_eq!(game.board().cells[255], Cell::Opponent);
    }
}

#[test]
fn the_last_move_ends_the_match() {
    let mut cells = [Cell::Color(Color::Cyan); 256];
    cells[0] = Cell::Me;
    cells[255] = Cell::Opponent;
    let mut game = running(Board { cells });
    assert_eq!(game.phase(), Phase::Running);
    assert_eq!(game.advance(CallOutcome::Returned(4)), Ok(()));
    assert_eq!(game.phase(), Phase::Terminal);
    assert!(is_terminal(&game.board()));
    assert_eq!(game.move_number(), 1);
    assert_eq!(
        game.advance(CallOutcome::Returned(4)),
        Err(ArenaError::ProtocolViolation)
    );
    assert_eq!(game.move_number(), 1);
}

#[test]
fn two_greedy_bots_play_the_match_to_its_end() {
    let mut game = running(start());
    let mut first = Player::new(&game.view_for(Seat::First));
    let mut second = Player::new(&game.view_for(Seat::Second));
    while game.phase() == Phase::Running {
        assert!(game.move_number() < 1000);
        let seat = game.active_player();
        let view = game.view_for(seat);
        let color = match seat {
            Seat::First => first.play(&view),
            Seat::Second => second.play(&view),
        };
        game.advance(CallOutcome::Returned(color.to_u8() as i64)).unwrap();
        let bytes = game.board().to_bytes();
        let colors = bytes.iter().filter(|b| **b < 8).count();
        let mine = bytes.iter().filter(|b| **b == 8).count();
        let theirs = bytes.iter().filter(|b| **b == 9).count();
        assert_eq!(colors + mine + theirs, 256);
        assert_eq!(game.phase() == Phase::Terminal, colors == 0);
    }
    assert_eq!(game.phase(), Phase::Terminal);
    assert_eq!(game.move_number(), 62);
    let bytes = game.board().to_bytes();
    assert_eq!(bytes.iter().filter(|b| **b == 8).count(), 136);
    assert_eq!(bytes.iter().filter(|b| **b == 9).count(), 120);
}

#[test]
fn initialize_player_gives_each_bot_its_own_view_of_the_start() {
    let game = GameState::new(start());
    let mut first = fresh();
    let mut second = fresh();
    let request = game.initialize_player(Seat::First, &mut first, 11).unwrap();
    assert_eq!(request.fuel, 11);
    assert_eq!(request.board, START.to_vec());
    let request = game.initialize_player(Seat::Second, &mut second, 12).unwrap();
    assert_eq!(request.fuel, 12);
    assert_eq!(request.board, invert_board(&start()).to_bytes());
    assert_eq!(request.board[0], 8);
    assert_eq!(request.board[255], 9);
    assert_eq!(
        game.initialize_player(Seat::First, &mut first, 11),
        Err(ArenaError::ProtocolViolation)
    );
    first.initialized(InitOutcome::Constructed).unwrap();
    assert_eq!(
        game.initialize_player(Seat::First, &mut first, 11),
        Err(ArenaError::ProtocolViolation)
    );
}

#[test]
fn start_waits_for_both_bots_to_be_reported_constructed() {
    let mut game = GameState::new(start());
    let mut first = fresh();
    let mut second = fresh();
    game.initialize_player(Seat::First, &mut first, 1).unwrap();
    game.initialize_player(Seat::Second, &mut second, 1).unwrap();
    assert_eq!(game.start(&first, &second), Err(ArenaError::ProtocolViolation));
    assert_eq!(first.initialized(InitOutcome::Constructed), Ok(()));
    assert_eq!(game.start(&first, &second), Err(ArenaError::ProtocolViolation));
    assert_eq!(
        second.initialized(InitOutcome::BudgetExhausted),
        Err(ArenaError::ComputeBudgetExceeded)
    );
    assert_eq!(game.start(&first, &second), Err(ArenaError::ProtocolViolation));
    assert_eq!(game.phase(), Phase::NotStarted);
    game.initialize_player(Seat::Second, &mut second, 1).unwrap();
    assert_eq!(second.initialized(InitOutcome::Constructed), Ok(()));
    assert_eq!(game.start(&first, &second), Ok(()));
    assert_eq!(game.phase(), Phase::Running);
}

#[test]
fn initialize_player_is_refused_once_the_match_runs() {
    let game = running(start());
    let mut late = fresh();
    assert_eq!(
        game.initialize_player(Seat::First, &mut late, 1),
        Err(ArenaError::ProtocolViolation)
    );
    assert_eq!(late.state(), arena::host::HandleState::Uninitialized);
}

#[test]
fn next_call_names_the_mover_and_hands_it_its_view() {
    let mut game = running(start());
    let (seat, request) = game.next_call(&ready(), &ready(), 100).unwrap();
    assert_eq!(seat, Seat::First);
    assert_eq!(request.fuel, 100);
    assert_eq!(request.board, START.to_vec());
    game.advance(CallOutcome::Returned(7)).unwrap();
    let (seat, request) = game.next_call(&ready(), &ready(), 200).unwrap();
    assert_eq!(seat, Seat::Second);
    assert_eq!(request.fuel, 200);
    assert_eq!(request.board, invert_board(&game.board()).to_bytes());
    assert_eq!(request.board[239], 9);
}

#[test]
fn next_call_is_refused_outside_a_running_match_and_for_a_bot_that_is_not_ready() {
    let fresh = fresh();
    let game = GameState::new(start());
    assert_eq!(
        game.next_call(&ready(), &ready(), 1),
        Err(ArenaError::ProtocolViolation)
    );
    let mut game = running(start());
    assert_eq!(
        game.next_call(&fresh, &ready(), 1),
        Err(ArenaError::ProtocolViolation)
    );
    assert!(game.next_call(&ready(), &fresh, 1).is_ok());
    game.advance(CallOutcome::Returned(5)).unwrap();
    assert_eq!(
        game.next_call(&ready(), &fresh, 1),
        Err(ArenaError::ProtocolViolation)
    );
    assert!(game.next_call(&fresh, &ready(), 1).is_ok());
}
