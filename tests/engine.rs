use ttrys::board::{Board, Cell};
use ttrys::engine::{State, Ttrys, UserAction};
use ttrys::sequence::TetrominoSequence;
use ttrys::shapes::{Color, RotationState, Tetromino};

fn game_with(board: Board, first: Tetromino) -> Ttrys {
    Ttrys::with_parts(board, TetrominoSequence::starting_with(5, first))
}

#[test]
fn new_game_waits_to_spawn() {
    let g = Ttrys::new();
    assert_eq!(g.state(), State::Spawn);
    assert_eq!(g.score(), 0);
    assert_eq!(g.level(), 0);
    assert!(g.running());
    assert!(g.current_piece().is_none());
}

#[test]
fn spawn_places_piece_at_top_center() {
    let mut g = game_with(Board::new(), Tetromino::O);
    g.step();
    assert_eq!(g.state(), State::Fall);
    assert_eq!(g.current_piece(), Some(Tetromino::O));
    assert_eq!(g.position(), (5, 19));
    assert_eq!(g.rotation(), RotationState(0));
    let mut g = game_with(Board::new(), Tetromino::I);
    g.step();
    assert_eq!(g.position(), (5, 20));
}

#[test]
fn o_piece_hard_drop_to_the_left() {
    let mut g = game_with(Board::new(), Tetromino::O);
    g.step();
    for _ in 0..4 {
        g.update(UserAction::MoveLeft);
    }
    assert_eq!(g.position(), (1, 19));
    g.update(UserAction::HardDrop);
    g.step();
    assert_eq!(g.state(), State::Lock);
    assert_eq!(g.position(), (1, 1));
    g.step();
    assert_eq!(g.state(), State::Spawn);
    assert_eq!(g.score(), 0);
    let b = g.board();
    assert_eq!(b.cell(0, 2), Cell::Filled(Color::Yellow));
    assert_eq!(b.cell(0, 3), Cell::Filled(Color::Yellow));
    assert_eq!(b.cell(1, 2), Cell::Filled(Color::Yellow));
    assert_eq!(b.cell(1, 3), Cell::Filled(Color::Yellow));
    assert_eq!(b.highest_occupied_row(), 1);
    assert!(!g.hard_drop_pending());
}

#[test]
fn o_piece_stops_at_left_wall() {
    let mut g = game_with(Board::new(), Tetromino::O);
    g.step();
    for _ in 0..10 {
        g.update(UserAction::MoveLeft);
    }
    // flush against the wall: the piece covers columns 0 and 1
    assert_eq!(g.position(), (-1, 19));
    for _ in 0..20 {
        g.update(UserAction::MoveRight);
    }
    assert_eq!(g.position(), (7, 19));
}

#[test]
fn piece_falls_one_row_per_tick_then_locks() {
    let mut g = game_with(Board::new(), Tetromino::O);
    g.step();
    g.step();
    assert_eq!(g.position(), (5, 18));
    for _ in 0..17 {
        g.step();
    }
    assert_eq!(g.position(), (5, 1));
    assert_eq!(g.state(), State::Fall);
    g.step();
    assert_eq!(g.state(), State::Lock);
    assert_eq!(g.position(), (5, 1));
}

#[test]
fn completing_a_row_scores_and_shifts() {
    let mut board = Board::new();
    for col in 1..10 {
        board.set_cell(0, col, Cell::Filled(Color::White));
    }
    board.set_cell(1, 5, Cell::Filled(Color::Red));
    let mut g = game_with(board, Tetromino::I);
    g.step();
    g.step();
    assert_eq!(g.position(), (5, 19));
    g.update(UserAction::RotateCW);
    assert_eq!(g.rotation(), RotationState(1));
    for _ in 0..7 {
        g.update(UserAction::MoveLeft);
    }
    assert_eq!(g.position(), (-2, 19));
    g.update(UserAction::HardDrop);
    g.step();
    assert_eq!(g.state(), State::Lock);
    assert_eq!(g.position(), (-2, 3));
    g.step();
    assert_eq!(g.state(), State::ClearRows);
    assert_eq!(g.pending_rows(), vec![0]);
    assert_eq!(g.board().cell(0, 4), Cell::PendingClear);
    g.step();
    assert_eq!(g.state(), State::Spawn);
    assert_eq!(g.score(), 100);
    assert_eq!(g.level(), 0);
    let b = g.board();
    assert_eq!(b.highest_occupied_row(), 2);
    assert_eq!(b.cell(0, 5), Cell::Filled(Color::Red));
    assert_eq!(b.cell(0, 0), Cell::Filled(Color::Cyan));
    assert_eq!(b.cell(2, 0), Cell::Filled(Color::Cyan));
    assert_eq!(b.cell(3, 0), Cell::Empty);
    assert_eq!(b.cell(0, 1), Cell::Empty);
}

#[test]
fn pause_and_resume_keep_the_piece() {
    let mut g = game_with(Board::new(), Tetromino::T);
    g.step();
    g.step();
    let pos = g.position();
    let rot = g.rotation();
    g.update(UserAction::TogglePause);
    assert_eq!(g.state(), State::Paused);
    g.step();
    g.update(UserAction::MoveLeft);
    g.update(UserAction::RotateCW);
    assert_eq!(g.position(), pos);
    g.update(UserAction::TogglePause);
    assert_eq!(g.state(), State::Fall);
    assert_eq!(g.position(), pos);
    assert_eq!(g.rotation(), rot);
}

#[test]
fn rotation_turns_both_ways() {
    let mut g = game_with(Board::new(), Tetromino::T);
    g.step();
    g.step();
    g.update(UserAction::RotateCW);
    assert_eq!(g.rotation(), RotationState(1));
    g.update(UserAction::RotateCCW);
    g.update(UserAction::RotateCCW);
    assert_eq!(g.rotation(), RotationState(3));
}

#[test]
fn rotation_blocked_outside_grid() {
    let mut g = game_with(Board::new(), Tetromino::I);
    g.step();
    // at the spawn row the vertical I would leave the grid
    g.update(UserAction::RotateCW);
    assert_eq!(g.rotation(), RotationState(0));
    assert_eq!(g.test_rotation(true), None);
}

#[test]
fn quit_ends_the_game() {
    let mut g = game_with(Board::new(), Tetromino::J);
    g.step();
    g.update(UserAction::Quit);
    assert_eq!(g.state(), State::End);
    assert!(!g.running());
    g.update(UserAction::TogglePause);
    assert_eq!(g.state(), State::End);
    g.step();
    assert_eq!(g.state(), State::End);
}

#[test]
fn spawn_on_full_top_ends_the_game() {
    let mut board = Board::new();
    board.set_cell(19, 6, Cell::Filled(Color::Red));
    let mut g = game_with(board, Tetromino::O);
    g.step();
    assert_eq!(g.state(), State::End);
}

#[test]
fn clear_stack_empties_the_grid() {
    let mut board = Board::new();
    board.set_cell(0, 0, Cell::Filled(Color::Red));
    let mut g = game_with(board, Tetromino::O);
    g.update(UserAction::ClearStack);
    assert_eq!(g.board().cell(0, 0), Cell::Empty);
    assert_eq!(g.board().highest_occupied_row(), -1);
}

#[test]
fn moves_ignored_outside_fall() {
    let mut g = game_with(Board::new(), Tetromino::O);
    g.update(UserAction::MoveLeft);
    assert_eq!(g.position(), (0, 0));
    g.update(UserAction::HardDrop);
    assert!(g.hard_drop_pending());
}

#[test]
fn next_piece_is_peeked() {
    let g = game_with(Board::new(), Tetromino::Z);
    assert_eq!(g.next_piece(), Tetromino::Z);
}
