use ttrys::board::{clear_streaks, Board, Cell};
use ttrys::shapes::{Color, RotationState, Tetromino};

fn fill_row_except(b: &mut Board, row: usize, skip: Option<usize>) {
    for col in 0..10 {
        if Some(col) != skip {
            b.set_cell(row, col, Cell::Filled(Color::White));
        }
    }
}

#[test]
fn new_board_is_empty() {
    let b = Board::new();
    assert_eq!(b.highest_occupied_row(), -1);
    for row in 0..20 {
        for col in 0..10 {
            assert_eq!(b.cell(row, col), Cell::Empty);
        }
    }
}

#[test]
fn collides_inside_and_outside_the_grid() {
    let b = Board::new();
    let o = Tetromino::O;
    let r = RotationState(0);
    // the O piece covers columns origin+1, origin+2 and rows origin, origin-1
    assert!(!b.collides(o, r, (-1, 1), (0, 0)));
    assert!(b.collides(o, r, (-2, 1), (0, 0)));
    assert!(b.collides(o, r, (7, 1), (1, 0)));
    assert!(!b.collides(o, r, (7, 1), (0, 0)));
    assert!(b.collides(o, r, (3, 0), (0, 0)));
    assert!(b.collides(o, r, (3, 20), (0, 0)));
    assert!(!b.collides(o, r, (3, 19), (0, 0)));
    assert!(b.collides(o, r, (3, 5), (0, -5)));
}

#[test]
fn collides_with_filled_cell() {
    let mut b = Board::new();
    b.set_cell(0, 4, Cell::Filled(Color::Red));
    let o = Tetromino::O;
    let r = RotationState(0);
    assert!(b.collides(o, r, (3, 1), (0, 0)));
    assert!(!b.collides(o, r, (3, 2), (0, 0)));
    assert!(!b.collides(o, r, (4, 1), (0, 0)));
}

#[test]
fn lock_fills_footprint_and_raises_highest_row() {
    let mut b = Board::new();
    b.lock(Tetromino::T, RotationState(0), (2, 5), Color::Magenta);
    // T spawn state: (1,0), (0,-1), (1,-1), (2,-1)
    assert_eq!(b.cell(5, 3), Cell::Filled(Color::Magenta));
    assert_eq!(b.cell(4, 2), Cell::Filled(Color::Magenta));
    assert_eq!(b.cell(4, 3), Cell::Filled(Color::Magenta));
    assert_eq!(b.cell(4, 4), Cell::Filled(Color::Magenta));
    assert_eq!(b.cell(5, 2), Cell::Empty);
    assert_eq!(b.highest_occupied_row(), 5);
    b.lock(Tetromino::O, RotationState(0), (5, 1), Color::Yellow);
    assert_eq!(b.highest_occupied_row(), 5);
}

#[test]
fn full_rows_touching_only_full_rows() {
    let mut b = Board::new();
    fill_row_except(&mut b, 0, Some(0));
    fill_row_except(&mut b, 1, Some(0));
    fill_row_except(&mut b, 2, Some(5));
    // vertical I in column 0, rows 0..=3
    b.lock(Tetromino::I, RotationState(1), (-2, 3), Color::Cyan);
    let rows = b.full_rows_touching(Tetromino::I, RotationState(1), (-2, 3));
    assert_eq!(rows, vec![0, 1]);
}

#[test]
fn mark_pending_clear_marks_rows() {
    let mut b = Board::new();
    fill_row_except(&mut b, 0, None);
    fill_row_except(&mut b, 1, Some(3));
    b.mark_pending_clear(&vec![0]);
    for col in 0..10 {
        assert_eq!(b.cell(0, col), Cell::PendingClear);
    }
    assert_eq!(b.cell(1, 0), Cell::Filled(Color::White));
}

#[test]
fn compact_moves_rows_down() {
    let mut b = Board::new();
    fill_row_except(&mut b, 0, None);
    b.set_cell(1, 2, Cell::Filled(Color::Red));
    fill_row_except(&mut b, 2, None);
    b.set_cell(3, 7, Cell::Filled(Color::Blue));
    b.set_cell(4, 1, Cell::Filled(Color::Green));
    let streaks = b.compact(&vec![0, 2]);
    assert_eq!(streaks, vec![1, 1]);
    assert_eq!(b.highest_occupied_row(), 2);
    assert_eq!(b.cell(0, 2), Cell::Filled(Color::Red));
    assert_eq!(b.cell(0, 0), Cell::Empty);
    assert_eq!(b.cell(1, 7), Cell::Filled(Color::Blue));
    assert_eq!(b.cell(2, 1), Cell::Filled(Color::Green));
    for row in 3..20 {
        for col in 0..10 {
            assert_eq!(b.cell(row, col), Cell::Empty);
        }
    }
}

#[test]
fn compact_contiguous_rows_make_one_streak() {
    let mut b = Board::new();
    for row in 0..3 {
        fill_row_except(&mut b, row, None);
    }
    b.set_cell(3, 9, Cell::Filled(Color::Red));
    fill_row_except(&mut b, 4, None);
    let streaks = b.compact(&vec![0, 1, 2, 4]);
    assert_eq!(streaks, vec![3, 1]);
    assert_eq!(b.highest_occupied_row(), 0);
    assert_eq!(b.cell(0, 9), Cell::Filled(Color::Red));
    assert_eq!(b.cell(1, 0), Cell::Empty);
}

#[test]
fn compact_top_rows_count_as_streak() {
    let mut b = Board::new();
    fill_row_except(&mut b, 0, None);
    let streaks = b.compact(&vec![0]);
    assert_eq!(streaks, vec![1]);
    assert_eq!(b.highest_occupied_row(), -1);
    assert_eq!(b.cell(0, 0), Cell::Empty);
}

#[test]
fn compact_nothing_changes_nothing() {
    let mut b = Board::new();
    b.set_cell(0, 0, Cell::Filled(Color::Red));
    b.set_cell(3, 4, Cell::Filled(Color::Blue));
    let before = b.clone_cells();
    let streaks = b.compact(&vec![]);
    assert!(streaks.is_empty());
    assert_eq!(b.highest_occupied_row(), 3);
    assert_eq!(b.clone_cells(), before);
}

#[test]
fn clear_streaks_runs() {
    assert_eq!(clear_streaks(&vec![]), Vec::<usize>::new());
    assert_eq!(clear_streaks(&vec![4]), vec![1]);
    assert_eq!(clear_streaks(&vec![1, 2, 3, 7, 9, 10]), vec![3, 1, 2]);
}

#[test]
fn reset_empties_the_grid() {
    let mut b = Board::new();
    b.set_cell(5, 5, Cell::Filled(Color::Red));
    b.reset();
    assert_eq!(b.highest_occupied_row(), -1);
    assert_eq!(b.cell(5, 5), Cell::Empty);
}
