use minesweeper::settings::{Difficulty, MAX_HEIGHT, MAX_WIDTH, MIN_HEIGHT, MIN_WIDTH};

fn validated(width: usize, height: usize, mines: usize) -> Difficulty {
    let mut d = Difficulty(width, height, mines);
    d.validate_custom_data();
    d
}

#[test]
fn the_limits_are_nine_to_thirty_by_nine_to_twenty_four() {
    assert_eq!((MIN_WIDTH, MAX_WIDTH, MIN_HEIGHT, MAX_HEIGHT), (9, 30, 9, 24));
}

#[test]
fn settings_within_the_limits_stay() {
    assert_eq!(validated(9, 9, 10), Difficulty(9, 9, 10));
    assert_eq!(validated(16, 16, 40), Difficulty(16, 16, 40));
    assert_eq!(validated(30, 16, 99), Difficulty(30, 16, 99));
    assert_eq!(validated(30, 24, 667), Difficulty(30, 24, 667));
    assert_eq!(validated(9, 9, 64), Difficulty(9, 9, 64));
    assert_eq!(validated(9, 9, 1), Difficulty(9, 9, 1));
}

#[test]
fn a_board_too_large_is_cut_down() {
    assert_eq!(validated(100, 3, 5000), Difficulty(30, 9, 232));
    assert_eq!(validated(31, 25, 10), Difficulty(30, 24, 10));
    assert_eq!(validated(usize::MAX, usize::MAX, usize::MAX), Difficulty(30, 24, 667));
}

#[test]
fn a_board_too_small_is_widened() {
    assert_eq!(validated(0, 0, 0), Difficulty(9, 9, 1));
    assert_eq!(validated(8, 8, 49), Difficulty(9, 9, 49));
    assert_eq!(validated(1, 24, 200), Difficulty(9, 24, 184));
}

#[test]
fn mines_leave_room_for_a_first_reveal() {
    assert_eq!(validated(9, 9, 65), Difficulty(9, 9, 64));
    assert_eq!(validated(10, 12, 1000), Difficulty(10, 12, 99));
    assert_eq!(validated(30, 24, 668), Difficulty(30, 24, 667));
    assert_eq!(validated(12, 12, 0), Difficulty(12, 12, 1));
}
