use minesweeper::tile::{Digit, Tile, TileDisplay};

const DIGITS: [Digit; 10] = [
    Digit::Zero,
    Digit::One,
    Digit::Two,
    Digit::Three,
    Digit::Four,
    Digit::Five,
    Digit::Six,
    Digit::Seven,
    Digit::Eight,
    Digit::Nine,
];

#[test]
fn to_int_gives_the_number_of_each_digit() {
    for (n, d) in DIGITS.iter().enumerate() {
        assert_eq!(Digit::to_int(*d), n as i32);
    }
}

#[test]
fn from_int_gives_the_digit_of_each_number() {
    for (n, d) in DIGITS.iter().enumerate() {
        assert_eq!(Digit::from_int(n), *d);
        assert_eq!(Digit::from_int(n as u8), *d);
        assert_eq!(Digit::from_count(n), *d);
    }
}

#[test]
fn from_int_undoes_to_int() {
    for d in DIGITS.iter() {
        assert_eq!(Digit::from_int(Digit::to_int(*d) as u16), *d);
    }
}

#[test]
fn tiles_compare_by_what_they_hold() {
    assert_eq!(Tile::Safe(Digit::Three), Tile::Safe(Digit::Three));
    assert_ne!(Tile::Safe(Digit::Three), Tile::Safe(Digit::Four));
    assert_ne!(Tile::Safe(Digit::Zero), Tile::Mine);
    assert_eq!(Tile::Mine, Tile::Mine);
}

#[test]
fn next_runs_through_hidden_flag_and_question() {
    assert_eq!(TileDisplay::Hidden.next(), TileDisplay::Flag);
    assert_eq!(TileDisplay::Flag.next(), TileDisplay::Question);
    assert_eq!(TileDisplay::Question.next(), TileDisplay::Hidden);
}

#[test]
fn next_leaves_a_revealed_cell_revealed() {
    assert_eq!(TileDisplay::Revealed.next(), TileDisplay::Revealed);
    assert_eq!(TileDisplay::Revealed.next().next().next(), TileDisplay::Revealed);
}

#[test]
fn three_steps_come_back_and_the_fourth_is_the_first() {
    for d in [TileDisplay::Hidden, TileDisplay::Flag, TileDisplay::Question, TileDisplay::Revealed] {
        assert_eq!(d.next().next().next(), d);
        assert_eq!(d.next().next().next().next(), d.next());
    }
    assert_eq!(TileDisplay::Hidden.next().next().next().next(), TileDisplay::Flag);
}
