use minesweeper::board::Board;
use minesweeper::error::BoardError;
use minesweeper::tile::{Digit, Tile, TileDisplay};

/// The moves as a recursive reveal makes them, to hold the board against:
/// a chord reveals every hidden cell around, mine or not.
struct Model {
    tiles: Vec<Vec<Tile>>,
    display: Vec<Vec<TileDisplay>>,
    width: usize,
    height: usize,
}

const STEPS: [(i64, i64); 8] = [(-1, 0), (-1, 1), (-1, -1), (1, 0), (1, 1), (1, -1), (0, 1), (0, -1)];

impl Model {
    fn of(board: &Board) -> Model {
        let (width, height) = (board.width(), board.height());
        let mut tiles = Vec::new();
        let mut display = Vec::new();
        for x in 0..width {
            tiles.push((0..height).map(|y| board.get_tile_at(x, y).unwrap()).collect());
            display.push((0..height).map(|y| board.get_display_at(x, y).unwrap()).collect());
        }
        Model { tiles, display, width, height }
    }

    fn around(&self, x: usize, y: usize) -> Vec<(usize, usize)> {
        let mut cells = Vec::new();
        for (dx, dy) in STEPS {
            let (nx, ny) = (x as i64 + dx, y as i64 + dy);
            if nx >= 0 && ny >= 0 && (nx as usize) < self.width && (ny as usize) < self.height {
                cells.push((nx as usize, ny as usize));
            }
        }
        cells
    }

    fn reveal_at(&mut self, x: usize, y: usize) -> Tile {
        self.display[x][y] = TileDisplay::Revealed;
        if self.tiles[x][y] == Tile::Safe(Digit::Zero) {
            self.reveal_adjacent(x, y);
        }
        self.tiles[x][y]
    }

    fn reveal_adjacent(&mut self, x: usize, y: usize) -> bool {
        let mut hit = false;
        for (nx, ny) in self.around(x, y) {
            if self.display[nx][ny] == TileDisplay::Hidden && self.reveal_at(nx, ny) == Tile::Mine {
                hit = true;
            }
        }
        hit
    }

    fn toggle(&mut self, x: usize, y: usize) -> TileDisplay {
        self.display[x][y] = match self.display[x][y] {
            TileDisplay::Hidden => TileDisplay::Flag,
            TileDisplay::Flag => TileDisplay::Question,
            TileDisplay::Question => TileDisplay::Hidden,
            TileDisplay::Revealed => TileDisplay::Revealed,
        };
        self.display[x][y]
    }

    fn flags_around(&self, x: usize, y: usize) -> i32 {
        let flagged = |c: &(usize, usize)| self.display[c.0][c.1] == TileDisplay::Flag;
        self.around(x, y).iter().filter(|c| flagged(c)).count() as i32
    }

    fn won(&self) -> bool {
        for x in 0..self.width {
            for y in 0..self.height {
                if self.tiles[x][y] != Tile::Mine && self.display[x][y] != TileDisplay::Revealed {
                    return false;
                }
            }
        }
        true
    }

    fn agrees_with(&self, board: &Board) -> bool {
        for x in 0..self.width {
            for y in 0..self.height {
                if board.get_tile_at(x, y) != Ok(self.tiles[x][y]) {
                    return false;
                }
                if board.get_display_at(x, y) != Ok(self.display[x][y]) {
                    return false;
                }
            }
        }
        board.check_victory() == self.won()
    }
}

struct Dice(u64);

impl Dice {
    fn roll(&mut self, bound: usize) -> usize {
        self.0 = self.0.wrapping_mul(6364136223846793005).wrapping_add(1442695040888963407);
        ((self.0 >> 33) % bound as u64) as usize
    }
}

fn play(width: usize, height: usize, mines: usize, seed: u64, moves: usize) {
    let mut dice = Dice(seed);
    let mut board = Board::new(width, height, mines);
    for _ in 0..dice.roll(4) {
        board.toggle_display_at(dice.roll(width), dice.roll(height)).unwrap();
    }
    let (fx, fy) = (dice.roll(width), dice.roll(height));
    let flags = Model::of(&board);
    assert!(board.reveal_at(fx, fy).is_ok());
    let mut model = Model::of(&board);
    model.display = flags.display;
    for (nx, ny) in model.around(fx, fy) {
        assert_ne!(model.tiles[nx][ny], Tile::Mine);
    }
    assert_ne!(model.reveal_at(fx, fy), Tile::Mine);
    assert!(model.agrees_with(&board));
    for _ in 0..moves {
        let (x, y) = (dice.roll(width + 1), dice.roll(height + 1));
        let inside = x < width && y < height;
        let off = BoardError::OutOfBounds { x, y, width, height };
        match dice.roll(5) {
            0 | 1 => {
                let expected = if inside { Ok(model.reveal_at(x, y)) } else { Err(off) };
                assert_eq!(board.reveal_at(x, y), expected);
            }
            2 => {
                let expected = if inside { Ok(model.toggle(x, y)) } else { Err(off) };
                assert_eq!(board.toggle_display_at(x, y), expected);
            }
            3 => {
                let expected = if !inside {
                    Err(off)
                } else if model.display[x][y] != TileDisplay::Revealed {
                    Err(BoardError::NotRevealed { x, y })
                } else {
                    Ok(model.reveal_adjacent(x, y))
                };
                assert_eq!(board.reveal_adjacent(x, y), expected);
            }
            _ => {
                if inside && model.tiles[x][y] == Tile::Mine {
                    continue;
                }
                let expected = if !inside {
                    Err(off)
                } else if model.display[x][y] != TileDisplay::Revealed {
                    Err(BoardError::NotRevealed { x, y })
                } else {
                    let digit = match model.tiles[x][y] {
                        Tile::Safe(d) => Digit::to_int(d),
                        Tile::Mine => unreachable!(),
                    };
                    if model.flags_around(x, y) == digit {
                        Ok(Some(model.reveal_adjacent(x, y)))
                    } else {
                        Ok(None)
                    }
                };
                assert_eq!(board.chord(x, y), expected);
            }
        }
        assert!(model.agrees_with(&board));
    }
}

#[test]
fn the_board_moves_as_a_recursive_reveal_does_on_small_boards() {
    for seed in 0..300 {
        play(5, 4, 3, seed, 40);
    }
}

#[test]
fn the_board_moves_as_a_recursive_reveal_does_on_the_usual_boards() {
    for seed in 0..40 {
        play(9, 9, 10, 1000 + seed, 60);
        play(16, 16, 40, 2000 + seed, 60);
        play(30, 16, 99, 3000 + seed, 60);
    }
}

#[test]
fn the_board_moves_as_a_recursive_reveal_does_on_crowded_boards() {
    for seed in 0..100 {
        play(6, 6, 20, 4000 + seed, 50);
        play(8, 3, 12, 5000 + seed, 50);
    }
}

#[test]
fn the_board_moves_as_a_recursive_reveal_does_on_narrow_boards() {
    for seed in 0..100 {
        play(1, 12, 3, 6000 + seed, 30);
        play(12, 1, 3, 7000 + seed, 30);
        play(2, 2, 1, 8000 + seed, 10);
        play(1, 1, 1, 9000 + seed, 5);
        play(1, 1, 0, 9500 + seed, 5);
    }
}
