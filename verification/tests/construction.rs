use minesweeper::board::Board;
use minesweeper::digits::count_adjacent_mines;
use minesweeper::error::BoardError;
use minesweeper::placement::{
    clear_around, count_free, draw_coordinate, lay_nth, may_lay, place_mines,
};
use minesweeper::random::RandomSource;
use minesweeper::tile::{Digit, Tile, TileDisplay};

fn mines_of(board: &Board) -> Vec<(usize, usize)> {
    let mut mines = Vec::new();
    for x in 0..board.width() {
        for y in 0..board.height() {
            if board.get_tile_at(x, y) == Ok(Tile::Mine) {
                mines.push((x, y));
            }
        }
    }
    mines
}

fn mines_around(board: &Board, x: usize, y: usize) -> usize {
    let mut n = 0;
    for dx in -1i64..=1 {
        for dy in -1i64..=1 {
            let (nx, ny) = (x as i64 + dx, y as i64 + dy);
            if (dx, dy) != (0, 0) && nx >= 0 && ny >= 0 {
                if board.get_tile_at(nx as usize, ny as usize) == Ok(Tile::Mine) {
                    n += 1;
                }
            }
        }
    }
    n
}

fn assert_digits_count_mines(board: &Board) {
    for x in 0..board.width() {
        for y in 0..board.height() {
            match board.get_tile_at(x, y).unwrap() {
                Tile::Mine => {}
                Tile::Safe(d) => assert_eq!(Digit::to_int(d) as usize, mines_around(board, x, y)),
            }
        }
    }
}

fn assert_all_hidden(board: &Board) {
    for x in 0..board.width() {
        for y in 0..board.height() {
            assert_eq!(board.get_display_at(x, y), Ok(TileDisplay::Hidden));
        }
    }
}

#[test]
fn new_lays_as_many_mines_as_asked_for() {
    for (width, height, mines) in [(9, 9, 10), (16, 16, 40), (30, 16, 99), (10, 10, 10), (5, 7, 34)] {
        for _ in 0..20 {
            let board = Board::new(width, height, mines);
            assert_eq!(board.width(), width);
            assert_eq!(board.height(), height);
            assert_eq!(board.mines(), mines);
            assert_eq!(mines_of(&board).len(), mines);
            assert_all_hidden(&board);
            assert!(!board.check_victory());
        }
    }
}

#[test]
fn new_writes_the_number_of_mines_around_into_every_safe_cell() {
    for (width, height, mines) in [(9, 9, 10), (16, 16, 40), (30, 24, 200), (4, 4, 8), (1, 9, 4)] {
        for _ in 0..20 {
            assert_digits_count_mines(&Board::new(width, height, mines));
        }
    }
}

#[test]
fn new_without_mines_is_blank() {
    let board = Board::new(4, 3, 0);
    for x in 0..4 {
        for y in 0..3 {
            assert_eq!(board.get_tile_at(x, y), Ok(Tile::Safe(Digit::Zero)));
        }
    }
}

#[test]
fn new_can_fill_the_board() {
    let board = Board::new(4, 3, 12);
    assert_eq!(mines_of(&board).len(), 12);
    assert!(board.check_victory());
    let single = Board::new(1, 1, 1);
    assert_eq!(single.get_tile_at(0, 0), Ok(Tile::Mine));
}

#[test]
fn new_with_a_script_lays_the_mines_where_the_script_says() {
    let mut rng = RandomSource::scripted(vec![4, 7, 4, 7, 2, 0]);
    let board = Board::new_with(3, 3, 2, &mut rng);
    assert_eq!(mines_of(&board), vec![(1, 1), (2, 0)]);
    assert_eq!(board.get_tile_at(0, 0), Ok(Tile::Safe(Digit::One)));
    assert_eq!(board.get_tile_at(1, 0), Ok(Tile::Safe(Digit::Two)));
    assert_eq!(board.get_tile_at(2, 1), Ok(Tile::Safe(Digit::Two)));
    assert_eq!(board.get_tile_at(2, 2), Ok(Tile::Safe(Digit::One)));
    assert_digits_count_mines(&board);
}

#[test]
fn new_draws_among_the_free_cells_when_every_draw_hits_a_mine() {
    let mut rng = RandomSource::scripted(vec![0]);
    let board = Board::new_with(2, 2, 3, &mut rng);
    assert_eq!(mines_of(&board), vec![(0, 0), (0, 1), (1, 0)]);
    assert_eq!(board.get_tile_at(1, 1), Ok(Tile::Safe(Digit::Three)));
    let mut stuck = RandomSource::scripted(Vec::new());
    let board = Board::new_with(3, 2, 6, &mut stuck);
    assert_eq!(mines_of(&board).len(), 6);
}

#[test]
fn new_takes_the_free_cell_of_the_number_drawn() {
    let mut script = vec![0; 10];
    script.push(2);
    script.push(1);
    let mut rng = RandomSource::scripted(script);
    let board = Board::new_with(2, 2, 3, &mut rng);
    assert_eq!(mines_of(&board), vec![(0, 0), (1, 0), (1, 1)]);
    assert_eq!(board.get_tile_at(0, 1), Ok(Tile::Safe(Digit::Three)));
}

#[test]
fn new_on_a_crowded_board_leaves_every_cell_free_now_and_then() {
    let mut left_free = [[false; 3]; 3];
    for _ in 0..400 {
        let board = Board::new(3, 3, 8);
        let mines = mines_of(&board);
        assert_eq!(mines.len(), 8);
        for x in 0..3 {
            for y in 0..3 {
                if !mines.contains(&(x, y)) {
                    left_free[x][y] = true;
                }
            }
        }
    }
    assert_eq!(left_free, [[true; 3]; 3]);
}

#[test]
fn count_free_counts_the_safe_cells_where_a_mine_may_go() {
    let blank = Tile::Safe(Digit::Zero);
    let mut tiles = vec![vec![blank; 4]; 5];
    assert_eq!(count_free(&tiles, 5, 4, None), 20);
    assert_eq!(count_free(&tiles, 5, 4, Some((0, 0))), 6);
    assert_eq!(count_free(&tiles, 5, 4, Some((2, 1))), 2);
    tiles[4][3] = Tile::Mine;
    tiles[0][0] = Tile::Mine;
    assert_eq!(count_free(&tiles, 5, 4, None), 18);
    assert_eq!(count_free(&tiles, 5, 4, Some((0, 0))), 5);
    assert_eq!(count_free(&tiles, 5, 4, Some((2, 1))), 1);
    assert_eq!(count_free(&Vec::new(), 0, 7, None), 0);
}

#[test]
fn lay_nth_lays_a_mine_on_the_free_cell_of_that_number() {
    let blank = Tile::Safe(Digit::Zero);
    let mut tiles = vec![vec![blank; 2]; 3];
    tiles[0][1] = Tile::Mine;
    assert_eq!(lay_nth(&mut tiles, 3, 2, None, 5), None);
    assert_eq!(lay_nth(&mut tiles, 3, 2, None, 0), Some((0, 0)));
    assert_eq!(lay_nth(&mut tiles, 3, 2, None, 3), Some((2, 1)));
    assert_eq!(lay_nth(&mut tiles, 3, 2, None, 1), Some((1, 1)));
    assert_eq!(lay_nth(&mut tiles, 3, 2, None, 2), None);
    assert_eq!(tiles[0], vec![Tile::Mine, Tile::Mine]);
    assert_eq!(tiles[1], vec![blank, Tile::Mine]);
    assert_eq!(tiles[2], vec![blank, Tile::Mine]);
    let mut far = vec![vec![blank; 5]; 5];
    assert_eq!(lay_nth(&mut far, 5, 5, Some((4, 4)), 8), Some((2, 2)));
    assert_eq!(lay_nth(&mut far, 5, 5, Some((4, 4)), 8), None);
    assert_eq!(lay_nth(&mut far, 5, 5, Some((0, 0)), 0), Some((2, 3)));
}

#[test]
fn with_mines_lays_the_mines_that_are_listed() {
    let board = Board::with_mines(4, 3, &vec![(0, 0), (3, 2), (1, 1)]).unwrap();
    assert_eq!(mines_of(&board), vec![(0, 0), (1, 1), (3, 2)]);
    assert_eq!(board.mines(), 3);
    assert_eq!((board.width(), board.height()), (4, 3));
    assert_eq!(board.get_tile_at(1, 0), Ok(Tile::Safe(Digit::Two)));
    assert_eq!(board.get_tile_at(2, 2), Ok(Tile::Safe(Digit::Two)));
    assert_eq!(board.get_tile_at(3, 0), Ok(Tile::Safe(Digit::Zero)));
    assert_digits_count_mines(&board);
    assert_all_hidden(&board);
}

#[test]
fn with_mines_counts_a_cell_once() {
    let board = Board::with_mines(2, 2, &vec![(1, 1), (1, 1), (0, 1), (1, 1)]).unwrap();
    assert_eq!(board.mines(), 2);
    assert_eq!(mines_of(&board), vec![(0, 1), (1, 1)]);
}

#[test]
fn with_mines_reports_the_first_cell_off_the_board() {
    let r = Board::with_mines(4, 3, &vec![(0, 0), (4, 1), (9, 9)]);
    assert_eq!(r.unwrap_err(), BoardError::OutOfBounds { x: 4, y: 1, width: 4, height: 3 });
    let r = Board::with_mines(4, 3, &vec![(3, 3)]);
    assert_eq!(r.unwrap_err(), BoardError::OutOfBounds { x: 3, y: 3, width: 4, height: 3 });
    assert!(Board::with_mines(4, 3, &Vec::new()).is_ok());
}

#[test]
fn a_cell_in_the_middle_of_mines_counts_eight() {
    let ring = vec![(0, 0), (1, 0), (2, 0), (0, 1), (2, 1), (0, 2), (1, 2), (2, 2)];
    let board = Board::with_mines(3, 3, &ring).unwrap();
    assert_eq!(board.get_tile_at(1, 1), Ok(Tile::Safe(Digit::Eight)));
}

#[test]
fn update_digits_counts_anew_and_keeps_the_mines() {
    let blank = Tile::Safe(Digit::Zero);
    let mut tiles = vec![
        vec![Tile::Mine, Tile::Safe(Digit::Seven), blank],
        vec![blank, blank, Tile::Safe(Digit::Nine)],
        vec![blank, Tile::Mine, Tile::Mine],
    ];
    Board::update_digits(&mut tiles, 3, 3);
    let expected = vec![
        vec![Tile::Mine, Tile::Safe(Digit::One), blank],
        vec![Tile::Safe(Digit::Two), Tile::Safe(Digit::Three), Tile::Safe(Digit::Two)],
        vec![Tile::Safe(Digit::One), Tile::Mine, Tile::Mine],
    ];
    assert_eq!(tiles, expected);
    Board::update_digits(&mut tiles, 3, 3);
    assert_eq!(tiles, expected);
    assert_eq!(count_adjacent_mines(&tiles, 1, 1, 3, 3), 3);
    assert_eq!(count_adjacent_mines(&tiles, 2, 2, 3, 3), 1);
    assert_eq!(count_adjacent_mines(&tiles, 0, 2, 3, 3), 0);
}

#[test]
fn draw_coordinate_keeps_two_away_from_the_centre() {
    let mut rng = RandomSource::thread();
    for len in 1..12 {
        for centre in 0..len {
            for _ in 0..50 {
                match draw_coordinate(len, Some(centre), &mut rng) {
                    Some(v) => {
                        assert!(v < len);
                        assert!(v + 2 <= centre || centre + 2 <= v);
                    }
                    None => assert!(centre < 2 && centre + 2 >= len),
                }
            }
            let v = draw_coordinate(len, None, &mut rng).unwrap();
            assert!(v < len);
        }
    }
}

#[test]
fn draw_coordinate_tosses_a_coin_where_both_sides_have_room() {
    let mut rng = RandomSource::scripted(vec![0, 1, 1, 0, 3, 1]);
    assert_eq!(draw_coordinate(7, Some(3), &mut rng), Some(1));
    assert_eq!(draw_coordinate(7, Some(3), &mut rng), Some(5));
    assert_eq!(draw_coordinate(7, Some(5), &mut rng), Some(3));
    assert_eq!(draw_coordinate(7, Some(1), &mut rng), Some(4));
    assert_eq!(draw_coordinate(3, Some(1), &mut rng), None);
    assert_eq!(draw_coordinate(2, Some(0), &mut rng), None);
    assert_eq!(draw_coordinate(3, Some(0), &mut rng), Some(2));
}

#[test]
fn may_lay_wants_two_columns_and_two_rows_between() {
    assert!(may_lay(None, 0, 0));
    assert!(may_lay(Some((3, 3)), 1, 1));
    assert!(may_lay(Some((3, 3)), 5, 1));
    assert!(may_lay(Some((3, 3)), 0, 9));
    assert!(!may_lay(Some((3, 3)), 3, 3));
    assert!(!may_lay(Some((3, 3)), 2, 0));
    assert!(!may_lay(Some((3, 3)), 0, 4));
    assert!(!may_lay(Some((3, 3)), 4, 4));
    assert!(!may_lay(Some((3, 3)), 3, 9));
}

#[test]
fn clear_around_takes_the_mines_on_and_around_one_cell() {
    let mut tiles = vec![vec![Tile::Mine; 4]; 4];
    assert_eq!(clear_around(&mut tiles, 4, 4, 0, 0), 4);
    let blank = Tile::Safe(Digit::Zero);
    assert_eq!(tiles[0], vec![blank, blank, Tile::Mine, Tile::Mine]);
    assert_eq!(tiles[1], vec![blank, blank, Tile::Mine, Tile::Mine]);
    assert_eq!(tiles[2], vec![Tile::Mine; 4]);
    assert_eq!(clear_around(&mut tiles, 4, 4, 2, 2), 8);
    assert_eq!(clear_around(&mut tiles, 4, 4, 2, 2), 0);
    assert_eq!(tiles[3], vec![Tile::Mine, blank, blank, blank]);
    assert_eq!(tiles[0], vec![blank, blank, Tile::Mine, Tile::Mine]);
}

#[test]
fn place_mines_stops_when_no_cell_is_left() {
    let blank = Tile::Safe(Digit::Zero);
    let mut tiles = vec![vec![blank; 5]; 5];
    let mut rng = RandomSource::thread();
    assert_eq!(place_mines(&mut tiles, 5, 5, 30, Some((0, 0)), &mut rng), 9);
    for x in 0..5 {
        for y in 0..5 {
            assert_eq!(tiles[x][y] == Tile::Mine, x >= 2 && y >= 2);
        }
    }
    assert_eq!(place_mines(&mut tiles, 5, 5, 3, Some((0, 0)), &mut rng), 0);
    assert_eq!(place_mines(&mut tiles, 5, 5, 3, Some((4, 4)), &mut rng), 3);
    assert_eq!(place_mines(&mut tiles, 5, 5, 100, None, &mut rng), 13);
    assert_eq!(tiles, vec![vec![Tile::Mine; 5]; 5]);
}

#[test]
fn a_board_without_cells_refuses_every_move() {
    for (width, height) in [(0, 0), (0, 5), (5, 0)] {
        let mut board = Board::new(width, height, 0);
        assert_eq!((board.width(), board.height(), board.mines()), (width, height, 0));
        let off = BoardError::OutOfBounds { x: 0, y: 0, width, height };
        assert_eq!(board.reveal_at(0, 0), Err(off));
        assert_eq!(board.reveal_adjacent(0, 0), Err(off));
        assert_eq!(board.chord(0, 0), Err(off));
        assert_eq!(board.toggle_display_at(0, 0), Err(off));
        assert_eq!(board.get_tile_at(0, 0), Err(off));
        assert_eq!(board.get_display_at(0, 0), Err(off));
        assert_eq!(board.adjacent_flags_at(0, 0), Err(off));
        board.reveal_all();
        assert!(board.check_victory());
        assert!(Board::with_mines(width, height, &Vec::new()).is_ok());
        assert_eq!(Board::with_mines(width, height, &vec![(0, 0)]).unwrap_err(), off);
    }
}

#[test]
fn adjacent_flags_at_counts_the_flags_around_a_cell() {
    let mut board = Board::with_mines(3, 3, &Vec::new()).unwrap();
    assert_eq!(board.adjacent_flags_at(1, 1), Ok(0));
    for (x, y) in [(0, 0), (1, 0), (2, 2), (1, 1)] {
        assert_eq!(board.toggle_display_at(x, y), Ok(TileDisplay::Flag));
    }
    assert_eq!(board.toggle_display_at(0, 1), Ok(TileDisplay::Flag));
    assert_eq!(board.toggle_display_at(0, 1), Ok(TileDisplay::Question));
    assert_eq!(board.adjacent_flags_at(1, 1), Ok(3));
    assert_eq!(board.adjacent_flags_at(0, 0), Ok(2));
    assert_eq!(board.adjacent_flags_at(2, 1), Ok(3));
    assert_eq!(board.adjacent_flags_at(0, 2), Ok(1));
    assert_eq!(
        board.adjacent_flags_at(3, 1),
        Err(BoardError::OutOfBounds { x: 3, y: 1, width: 3, height: 3 })
    );
}
