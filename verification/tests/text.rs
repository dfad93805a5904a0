use minesweeper::board::Board;
use minesweeper::text::digit_char;
use minesweeper::tile::{Digit, Tile};

#[test]
fn a_digit_is_written_as_its_number() {
    let digits = [
        (Digit::Zero, '0'),
        (Digit::One, '1'),
        (Digit::Two, '2'),
        (Digit::Three, '3'),
        (Digit::Four, '4'),
        (Digit::Five, '5'),
        (Digit::Six, '6'),
        (Digit::Seven, '7'),
        (Digit::Eight, '8'),
        (Digit::Nine, '9'),
    ];
    for (d, c) in digits {
        assert_eq!(digit_char(d), c);
        assert_eq!(d.to_text(), c.to_string());
        assert_eq!(d.to_text(), format!("{}", Digit::to_int(d)));
    }
}

#[test]
fn a_tile_is_written_in_a_box() {
    assert_eq!(Tile::Safe(Digit::Zero).to_text(), "|_|");
    assert_eq!(Tile::Safe(Digit::One).to_text(), "|1|");
    assert_eq!(Tile::Safe(Digit::Eight).to_text(), "|8|");
    assert_eq!(Tile::Safe(Digit::Nine).to_text(), "|9|");
    assert_eq!(Tile::Mine.to_text(), "|*|");
}

#[test]
fn a_hidden_board_is_written_with_empty_boxes_flags_and_question_marks() {
    let mut board = Board::with_mines(3, 2, &vec![(2, 1)]).unwrap();
    board.toggle_display_at(0, 0).unwrap();
    board.toggle_display_at(1, 0).unwrap();
    board.toggle_display_at(1, 0).unwrap();
    let expected = "\n    0  1  2 \n 0 |!||?|| |\n 1 | || || |\n";
    assert_eq!(board.to_text(), expected);
}

#[test]
fn a_revealed_board_is_written_with_its_tiles() {
    let mut board = Board::with_mines(3, 2, &vec![(2, 1)]).unwrap();
    board.reveal_all();
    let expected = "\n    0  1  2 \n 0 |_||1||1|\n 1 |_||1||*|\n";
    assert_eq!(board.to_text(), expected);
}

#[test]
fn a_board_in_play_is_written_as_the_player_sees_it() {
    let mut board = Board::with_mines(5, 3, &vec![(0, 0), (4, 2), (4, 1)]).unwrap();
    assert!(board.reveal_at(2, 1).is_ok());
    board.toggle_display_at(4, 2).unwrap();
    let expected = "\n    0  1  2  3  4 \n 0 | ||1||_||1|| |\n 1 |1||1||_||2|| |\n 2 |_||_||_||2||!|\n";
    assert_eq!(board.to_text(), expected);
}

#[test]
fn columns_and_rows_from_ten_on_take_two_digits() {
    let board = Board::with_mines(12, 11, &Vec::new()).unwrap();
    let text = board.to_text();
    let lines: Vec<&str> = text.split('\n').collect();
    assert_eq!(lines.len(), 14);
    assert_eq!(lines[0], "");
    assert_eq!(lines[1], "    0  1  2  3  4  5  6  7  8  9  10 11");
    assert_eq!(lines[2], format!(" 0 {}", "| |".repeat(12)));
    assert_eq!(lines[11], format!(" 9 {}", "| |".repeat(12)));
    assert_eq!(lines[12], format!("10 {}", "| |".repeat(12)));
    assert_eq!(lines[13], "");
}

#[test]
fn rows_from_a_hundred_on_take_three_digits() {
    let board = Board::with_mines(1, 102, &Vec::new()).unwrap();
    let text = board.to_text();
    let lines: Vec<&str> = text.split('\n').collect();
    assert_eq!(lines[1], "    0 ");
    assert_eq!(lines[2 + 99], "99 | |");
    assert_eq!(lines[2 + 100], "100 | |");
    assert_eq!(lines[2 + 101], "101 | |");
}

#[test]
fn a_board_without_cells_is_written_as_its_frame() {
    let board = Board::new(0, 0, 0);
    assert_eq!(board.to_text(), "\n   \n");
    let no_columns = Board::new(0, 2, 0);
    assert_eq!(no_columns.to_text(), "\n   \n 0 \n 1 \n");
    assert!(no_columns.check_victory());
}
