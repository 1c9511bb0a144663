use ttrys::pacing::{duration_from_level, Timeout};
use ttrys::scoring::{add_rewards, clear_reward, level_from_score};
use ttrys::sequence::TetrominoSequence;
use ttrys::shapes::{tetro_color, Color, RotationState, Tetromino};

#[test]
fn rotation_states_wrap() {
    assert_eq!(RotationState(0).cw(), RotationState(1));
    assert_eq!(RotationState(3).cw(), RotationState(0));
    assert_eq!(RotationState(0).ccw(), RotationState(3));
    assert_eq!(RotationState(2).ccw(), RotationState(1));
    assert_eq!(RotationState(1).cw().ccw(), RotationState(1));
    assert_eq!(RotationState(2).index(), 2);
}

#[test]
fn kinds_from_index() {
    assert_eq!(Tetromino::from_index(0), Tetromino::I);
    assert_eq!(Tetromino::from_index(3), Tetromino::O);
    assert_eq!(Tetromino::from_index(6), Tetromino::Z);
    assert_eq!(Tetromino::from_index(7), Tetromino::I);
    assert_eq!(Tetromino::from_index(12), Tetromino::T);
    assert_eq!(Tetromino::L.index(), 2);
}

#[test]
fn kind_letters() {
    let all = [
        Tetromino::I,
        Tetromino::J,
        Tetromino::L,
        Tetromino::O,
        Tetromino::S,
        Tetromino::T,
        Tetromino::Z,
    ];
    let s: String = all.iter().map(|k| k.letter()).collect();
    assert_eq!(s, "IJLOSTZ");
}

#[test]
fn kind_colors() {
    assert_eq!(tetro_color(Tetromino::I), Color::Cyan);
    assert_eq!(tetro_color(Tetromino::L), Color::Ansi(214));
    assert_eq!(tetro_color(Tetromino::Z), Color::Red);
}

#[test]
fn shape_offsets() {
    assert_eq!(Tetromino::I.mino(RotationState(1), 3), (2, -3));
    assert_eq!(Tetromino::O.mino(RotationState(2), 0), (1, 0));
    assert_eq!(Tetromino::S.mino(RotationState(0), 2), (0, -1));
}

#[test]
fn rewards_table() {
    assert_eq!(clear_reward(1), 100);
    assert_eq!(clear_reward(2), 250);
    assert_eq!(clear_reward(3), 500);
    assert_eq!(clear_reward(4), 1000);
    assert_eq!(clear_reward(5), 1000);
    assert_eq!(clear_reward(20), 1000);
}

#[test]
fn levels_from_score() {
    assert_eq!(level_from_score(0), 0);
    assert_eq!(level_from_score(999), 0);
    assert_eq!(level_from_score(1000), 1);
    assert_eq!(level_from_score(2500), 2);
}

#[test]
fn rewards_add_up() {
    assert_eq!(add_rewards(0, &vec![3, 1]), 600);
    assert_eq!(add_rewards(50, &vec![]), 50);
    assert_eq!(add_rewards(u64::MAX - 10, &vec![1]), u64::MAX);
}

#[test]
fn fall_interval_values() {
    let expected = [600, 510, 454, 406, 363, 322, 285, 249, 215, 181, 150];
    for (level, &ms) in expected.iter().enumerate() {
        assert_eq!(duration_from_level(level as u32), ms);
    }
    assert_eq!(duration_from_level(11), 150);
    assert_eq!(duration_from_level(1000), 150);
}

#[test]
fn fall_interval_never_grows() {
    let mut prev = duration_from_level(0);
    for level in 1..30 {
        let d = duration_from_level(level);
        assert!(d <= prev);
        prev = d;
    }
}

#[test]
fn timeout_counts_down() {
    let t = Timeout::new(100, 1000);
    assert!(!t.expired(1000));
    assert_eq!(t.remaining(1000), 100);
    assert_eq!(t.remaining(1050), 50);
    assert!(!t.expired(1100));
    assert_eq!(t.remaining(1100), 0);
    assert!(t.expired(1101));
    assert_eq!(t.remaining(1200), 0);
    assert_eq!(t.remaining(900), 100);
}

#[test]
fn sequence_refill_has_no_duplicates() {
    let mut s = TetrominoSequence::new(7);
    // the first refill: the current piece and the six left in the bag
    let mut seen = Vec::new();
    for _ in 0..7 {
        let k = s.pop();
        assert!(!seen.contains(&k));
        seen.push(k);
    }
    assert_eq!(seen.len(), 7);
}

#[test]
fn sequence_peek_then_pop() {
    let mut s = TetrominoSequence::new(5);
    for _ in 0..20 {
        let p = s.peek();
        assert_eq!(s.pop(), p);
    }
}

#[test]
fn sequence_bag_size_is_clamped() {
    assert_eq!(TetrominoSequence::new(0).bag_size(), 1);
    assert_eq!(TetrominoSequence::new(10).bag_size(), 7);
    assert_eq!(TetrominoSequence::new(5).bag_size(), 5);
}

#[test]
fn sequence_starts_with_given_piece() {
    let mut s = TetrominoSequence::starting_with(3, Tetromino::S);
    assert_eq!(s.peek(), Tetromino::S);
    assert_eq!(s.pop(), Tetromino::S);
}

#[test]
fn sequence_of_one_repeats_refills() {
    let mut s = TetrominoSequence::new(1);
    for _ in 0..10 {
        s.pop();
    }
    assert_eq!(s.bag_size(), 1);
}

#[test]
fn rotation_default_is_spawn_state() {
    assert_eq!(RotationState::default(), RotationState(0));
}

#[test]
fn sequence_refills_are_shuffled() {
    let mut firsts = Vec::new();
    for _ in 0..64 {
        let k = TetrominoSequence::new(7).peek();
        if !firsts.contains(&k) {
            firsts.push(k);
        }
    }
    assert!(firsts.len() > 1);
}

#[test]
fn fill_bag_maps_ids_to_kinds() {
    let mut s = TetrominoSequence::starting_with(7, Tetromino::T);
    s.fill_bag(&vec![1, 7, 4]);
    assert_eq!(s.pop(), Tetromino::T);
    assert_eq!(s.pop(), Tetromino::S);
    assert_eq!(s.pop(), Tetromino::I);
    assert_eq!(s.pop(), Tetromino::J);
}

#[test]
fn new_sequence_has_drawn_its_first_batch() {
    for size in [1usize, 5, 7] {
        let mut s = TetrominoSequence::new(size);
        let mut seen = Vec::new();
        for _ in 0..size {
            let k = s.pop();
            assert!(!seen.contains(&k));
            seen.push(k);
        }
    }
}
