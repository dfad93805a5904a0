//! The board: its tiles, what the player sees of them, and the moves.

use vstd::prelude::*;
use crate::cascade::{chord_hits, chorded, revealed};
use crate::cells::{filled, get_cell, set_cell};
use crate::chord::{count_adjacent_flags, lemma_nothing_hidden, open_around};
use crate::error::BoardError;
use crate::grid::{
    Cell, Grid, adjacent_flags, cell, digits_match, grid_of, in_grid, inside, is_mine,
    lemma_all_mines, lemma_mine_added, lemma_mine_cells_finite, lemma_no_mines,
    lemma_no_mines_around, mine_count, near, put, rectangular, shows,
};
use crate::placement::{place_mines, relocate, relocated};
use crate::random::RandomSource;
use crate::tile::{Digit, Tile, TileDisplay};

verus! {

/// What a [`Board`] is: its size, the number of mines it was made for,
/// the tile and the display state of every cell, and whether a cell has
/// been revealed by the player yet.
pub struct BoardView {
    pub width: nat,
    pub height: nat,
    pub mines: nat,
    pub tiles: Grid<Tile>,
    pub display: Grid<TileDisplay>,
    pub first_reveal_done: bool,
}

/// Whether no cell of `d` is revealed.
pub open spec fn none_revealed(d: Grid<TileDisplay>) -> bool {
    forall|c: Cell| !#[trigger] shows(d, c, TileDisplay::Revealed)
}

/// Whether every cell of `d` is revealed.
pub open spec fn all_revealed(d: Grid<TileDisplay>) -> bool {
    forall|c: Cell| #[trigger] inside(d, c) ==> d[c.0][c.1] == TileDisplay::Revealed
}

/// Whether every cell of `d` is hidden.
pub open spec fn all_hidden(d: Grid<TileDisplay>) -> bool {
    forall|c: Cell| #[trigger] inside(d, c) ==> d[c.0][c.1] == TileDisplay::Hidden
}

/// The `i`-th cell of a list of coordinates.
pub open spec fn cell_at(cells: Seq<(usize, usize)>, i: int) -> Cell {
    cell(cells[i].0, cells[i].1)
}

/// Whether `c` is among the first `n` cells of a list of coordinates.
pub open spec fn has_cell(cells: Seq<(usize, usize)>, n: int, c: Cell) -> bool {
    exists|i: int| 0 <= i < n && #[trigger] cell_at(cells, i) == c
}

impl BoardView {
    /// Whether `c` is a cell of the board.
    pub open spec fn has(self, c: Cell) -> bool {
        in_grid(c, self.width, self.height)
    }

    /// The tile of the cell `c`.
    pub open spec fn tile(self, c: Cell) -> Tile {
        self.tiles[c.0][c.1]
    }

    /// What the cell `c` shows.
    pub open spec fn shown(self, c: Cell) -> TileDisplay {
        self.display[c.0][c.1]
    }

    /// What holds of every board: it has one tile and one display state
    /// per cell, every safe tile holds the number of mines around it,
    /// there are no more mines than the board was made for, and as long
    /// as the player has revealed no cell, either no cell is revealed or
    /// all are.
    pub open spec fn wf(self) -> bool {
        &&& self.width * self.height <= usize::MAX
        &&& rectangular(self.tiles, self.width, self.height)
        &&& rectangular(self.display, self.width, self.height)
        &&& digits_match(self.tiles)
        &&& mine_count(self.tiles) <= self.mines
        &&& (!self.first_reveal_done ==> none_revealed(self.display) || all_revealed(
            self.display,
        ))
    }

    /// Whether the game is won: every safe cell is revealed.
    pub open spec fn won(self) -> bool {
        forall|c: Cell| #[trigger]
            self.has(c) ==> (self.tile(c) is Safe ==> self.shown(c) == TileDisplay::Revealed)
    }

    /// The board with `tiles` in place of its tiles.
    pub open spec fn with_tiles(self, tiles: Grid<Tile>) -> BoardView {
        BoardView { tiles, ..self }
    }

    /// The board with `display` in place of what its cells show.
    pub open spec fn with_display(self, display: Grid<TileDisplay>) -> BoardView {
        BoardView { display, ..self }
    }

    /// The board after the player has toggled the cell `c`.
    pub open spec fn toggled(self, c: Cell) -> BoardView {
        self.with_display(put(self.display, c, self.shown(c).toggled()))
    }

    /// The board after every cell has been revealed.
    pub open spec fn disclosed(self) -> BoardView {
        self.with_display(
            Seq::new(self.width, |x: int| Seq::new(self.height, |y: int| TileDisplay::Revealed)),
        )
    }

    /// The board after the player has revealed the cell `c`, mines
    /// staying where they are.
    pub open spec fn revealed(self, c: Cell) -> BoardView {
        BoardView {
            display: revealed(self.tiles, self.display, c),
            first_reveal_done: true,
            ..self
        }
    }

    /// Whether `after` is this board after the player has revealed the
    /// cell `c`. If it is the first reveal of the game, the mines on and
    /// around `c` have first been moved away; else the tiles are as they
    /// were. Then `c` is revealed with all that it uncovers.
    pub open spec fn reveals_to(self, after: BoardView, c: Cell) -> bool {
        &&& self.first_reveal_done ==> after.tiles == self.tiles
        &&& !self.first_reveal_done ==> relocated(
            self.tiles,
            after.tiles,
            c,
            self.width,
            self.height,
        )
        &&& after == self.with_tiles(after.tiles).revealed(c)
    }

    /// The board after a chord at the cell `c`.
    pub open spec fn chorded(self, c: Cell) -> BoardView {
        self.with_display(chorded(self.tiles, self.display, c))
    }

    /// Whether a chord at the cell `c` reveals a mine.
    pub open spec fn chord_hits(self, c: Cell) -> bool {
        chord_hits(self.tiles, self.display, c)
    }

    /// Whether the cell `c` shows as many flags around it as its digit says.
    pub open spec fn flags_match(self, c: Cell) -> bool {
        self.tile(c) matches Tile::Safe(d) && d.value() == adjacent_flags(self.display, c)
    }
}

/// A Minesweeper board.
#[derive(Debug)]
pub struct Board {
    tiles: Vec<Vec<Tile>>,
    display: Vec<Vec<TileDisplay>>,
    width: usize,
    height: usize,
    mines: usize,
    any_revealed: bool,
}

impl View for Board {
    type V = BoardView;

    closed spec fn view(&self) -> BoardView {
        BoardView {
            width: self.width as nat,
            height: self.height as nat,
            mines: self.mines as nat,
            tiles: grid_of(self.tiles@),
            display: grid_of(self.display@),
            first_reveal_done: self.any_revealed,
        }
    }
}

impl Board {
    /// What holds of every board that this library hands out.
    pub open spec fn wf(&self) -> bool {
        self@.wf()
    }

    /// A board of `width` columns and `height` rows with `mines` mines on
    /// cells chosen at random by the thread's generator.
    pub fn new(width: usize, height: usize, mines: usize) -> (board: Board)
        requires
            width * height <= usize::MAX,
            mines <= width * height,
        ensures
            board.wf(),
            board@.width == width,
            board@.height == height,
            board@.mines == mines,
            mine_count(board@.tiles) == mines,
            all_hidden(board@.display),
            !board@.first_reveal_done,
    {
        let mut rng = RandomSource::thread();
        Board::new_with(width, height, mines, &mut rng)
    }

    /// A board of `width` columns and `height` rows with `mines` mines on
    /// cells chosen by `rng`.
    pub fn new_with(width: usize, height: usize, mines: usize, rng: &mut RandomSource) -> (board:
        Board)
        requires
            width * height <= usize::MAX,
            mines <= width * height,
        ensures
            final(rng)@.continues(old(rng)@),
            board.wf(),
            board@.width == width,
            board@.height == height,
            board@.mines == mines,
            mine_count(board@.tiles) == mines,
            all_hidden(board@.display),
            !board@.first_reveal_done,
    {
        let display: Vec<Vec<TileDisplay>> = filled(width, height, TileDisplay::Hidden);
        let mut tiles: Vec<Vec<Tile>> = filled(width, height, Tile::Safe(Digit::Zero));
        proof {
            lemma_no_mines(grid_of(tiles@));
        }
        let placed: usize = place_mines(&mut tiles, width, height, mines, None, rng);
        proof {
            if placed != mines {
                lemma_all_mines(grid_of(tiles@), width as nat, height as nat);
            }
        }
        Board::update_digits(&mut tiles, height, width);
        Board { tiles, display, width, height, mines, any_revealed: false }
    }

    /// A board of `width` columns and `height` rows with a mine on each
    /// of the cells listed in `cells`, and on no other. A cell that is
    /// listed twice counts once. The first cell of the list that is not
    /// on the board is reported.
    pub fn with_mines(width: usize, height: usize, cells: &Vec<(usize, usize)>) -> (r: Result<
        Board,
        BoardError,
    >)
        requires
            width * height <= usize::MAX,
        ensures
            r is Ok <==> forall|i: int|
                0 <= i < cells.len() ==> in_grid(
                    #[trigger] cell_at(cells@, i),
                    width as nat,
                    height as nat,
                ),
            r matches Err(e) ==> exists|i: int|
                {
                    &&& 0 <= i < cells.len()
                    &&& !in_grid(#[trigger] cell_at(cells@, i), width as nat, height as nat)
                    &&& forall|j: int|
                        0 <= j < i ==> in_grid(
                            #[trigger] cell_at(cells@, j),
                            width as nat,
                            height as nat,
                        )
                    &&& e == (BoardError::OutOfBounds {
                        x: cells[i].0,
                        y: cells[i].1,
                        width,
                        height,
                    })
                },
            r matches Ok(board) ==> {
                &&& board.wf()
                &&& board@.width == width
                &&& board@.height == height
                &&& board@.mines == mine_count(board@.tiles)
                &&& forall|c: Cell|
                    is_mine(board@.tiles, c) <==> has_cell(cells@, cells.len() as int, c)
                &&& all_hidden(board@.display)
                &&& !board@.first_reveal_done
            },
    {
        let display: Vec<Vec<TileDisplay>> = filled(width, height, TileDisplay::Hidden);
        let mut tiles: Vec<Vec<Tile>> = filled(width, height, Tile::Safe(Digit::Zero));
        let mut mines: usize = 0;
        proof {
            lemma_no_mines(grid_of(tiles@));
        }
        let mut i: usize = 0;
        while i < cells.len()
            invariant
                i <= cells.len(),
                width * height <= usize::MAX,
                rectangular(grid_of(tiles@), width as nat, height as nat),
                mines == mine_count(grid_of(tiles@)),
                forall|j: int|
                    0 <= j < i ==> in_grid(
                        #[trigger] cell_at(cells@, j),
                        width as nat,
                        height as nat,
                    ),
                forall|c: Cell| is_mine(grid_of(tiles@), c) <==> has_cell(cells@, i as int, c),
            decreases cells.len() - i,
        {
            let (x, y) = cells[i];
            assert(cell_at(cells@, i as int) == cell(x, y));
            if x >= width || y >= height {
                return Err(BoardError::OutOfBounds { x, y, width, height });
            }
            let ghost now = grid_of(tiles@);
            if get_cell(&tiles, x, y) != Tile::Mine {
                set_cell(&mut tiles, x, y, Tile::Mine);
                proof {
                    lemma_mine_added(now, grid_of(tiles@), cell(x, y), width as nat, height as nat);
                    lemma_mine_cells_finite(grid_of(tiles@), width as nat, height as nat);
                }
                mines += 1;
            }
            proof {
                let after = grid_of(tiles@);
                assert forall|c: Cell| is_mine(after, c) <==> has_cell(
                    cells@,
                    i as int + 1,
                    c,
                ) by {
                    if has_cell(cells@, i as int + 1, c) {
                        let j = choose|j: int| 0 <= j < i + 1 && #[trigger] cell_at(cells@, j) == c;
                        if j < i {
                            assert(has_cell(cells@, i as int, c));
                        }
                    }
                    if is_mine(after, c) && c != cell(x, y) {
                        assert(is_mine(now, c));
                        let j = choose|j: int| 0 <= j < i && #[trigger] cell_at(cells@, j) == c;
                    }
                }
            }
            i += 1;
        }
        Board::update_digits(&mut tiles, height, width);
        Ok(Board { tiles, display, width, height, mines, any_revealed: false })
    }

    /// The number of columns.
    pub fn width(&self) -> (width: usize)
        ensures
            width == self@.width,
    {
        self.width
    }

    /// The number of rows.
    pub fn height(&self) -> (height: usize)
        ensures
            height == self@.height,
    {
        self.height
    }

    /// The number of mines that the board was made for.
    pub fn mines(&self) -> (mines: usize)
        ensures
            mines == self@.mines,
    {
        self.mines
    }

    /// Reveals every cell.
    pub fn reveal_all(&mut self)
        requires
            old(self).wf(),
        ensures
            final(self).wf(),
            final(self)@ == old(self)@.disclosed(),
    {
        self.display = filled(self.width, self.height, TileDisplay::Revealed);
        proof {
            let d = grid_of(self.display@);
            let e = old(self)@.disclosed().display;
            assert forall|x: int| 0 <= x < self.width implies d[x] =~= e[x] by {
                assert forall|y: int| 0 <= y < self.height implies d[x][y] == e[x][y] by {
                    assert(inside(d, (x, y)));
                }
            }
            assert(d =~= e);
        }
    }

    /// Reveals the cell in column `x`, row `y`, whatever it showed before,
    /// and hands out its tile. If the tile is blank, the hidden cells
    /// around it are revealed too, with all that they uncover. On the
    /// first reveal of a game, the mines on and around the cell are first
    /// moved away, to cells that the thread's generator picks.
    pub fn reveal_at(&mut self, x: usize, y: usize) -> (r: Result<Tile, BoardError>)
        requires
            old(self).wf(),
        ensures
            final(self).wf(),
            old(self)@.has(cell(x, y)) <==> r is Ok,
            r matches Err(e) ==> final(self)@ == old(self)@ && e == (BoardError::OutOfBounds {
                x,
                y,
                width: old(self)@.width as usize,
                height: old(self)@.height as usize,
            }),
            r matches Ok(t) ==> {
                &&& old(self)@.reveals_to(final(self)@, cell(x, y))
                &&& t == final(self)@.tile(cell(x, y))
                &&& !old(self)@.first_reveal_done ==> {
                    &&& t == Tile::Safe(Digit::Zero)
                    &&& forall|c: Cell|
                        near(cell(x, y), c) ==> !#[trigger] is_mine(final(self)@.tiles, c)
                }
            },
    {
        let mut rng = RandomSource::thread();
        self.reveal_at_with(x, y, &mut rng)
    }

    /// As [`Board::reveal_at`], with `rng` to pick the cells that mines
    /// are moved to.
    pub fn reveal_at_with(&mut self, x: usize, y: usize, rng: &mut RandomSource) -> (r: Result<
        Tile,
        BoardError,
    >)
        requires
            old(self).wf(),
        ensures
            final(self).wf(),
            final(rng)@.continues(old(rng)@),
            r is Err || old(self)@.first_reveal_done ==> final(rng)@ == old(rng)@,
            old(self)@.has(cell(x, y)) <==> r is Ok,
            r matches Err(e) ==> final(self)@ == old(self)@ && e == (BoardError::OutOfBounds {
                x,
                y,
                width: old(self)@.width as usize,
                height: old(self)@.height as usize,
            }),
            r matches Ok(t) ==> {
                &&& old(self)@.reveals_to(final(self)@, cell(x, y))
                &&& t == final(self)@.tile(cell(x, y))
                &&& !old(self)@.first_reveal_done ==> {
                    &&& t == Tile::Safe(Digit::Zero)
                    &&& forall|c: Cell|
                        near(cell(x, y), c) ==> !#[trigger] is_mine(final(self)@.tiles, c)
                }
            },
    {
        if x >= self.width || y >= self.height {
            return Err(BoardError::OutOfBounds { x, y, width: self.width, height: self.height });
        }
        if !self.any_revealed {
            self.guarantee_zero(x, y, rng);
        }
        self.any_revealed = true;
        set_cell(&mut self.display, x, y, TileDisplay::Revealed);
        let tile: Tile = get_cell(&self.tiles, x, y);
        proof {
            if !old(self)@.first_reveal_done {
                lemma_no_mines_around(grid_of(self.tiles@), cell(x, y));
            }
        }
        if tile == Tile::Safe(Digit::Zero) {
            open_around(&self.tiles, &mut self.display, self.width, self.height, x, y);
        }
        Ok(tile)
    }

    /// Moves the mines on and around the cell in column `x`, row `y`
    /// away, before the first reveal of a game.
    fn guarantee_zero(&mut self, x: usize, y: usize, rng: &mut RandomSource)
        requires
            old(self).wf(),
            x < old(self)@.width,
            y < old(self)@.height,
        ensures
            final(self).wf(),
            final(rng)@.continues(old(rng)@),
            final(self)@ == old(self)@.with_tiles(final(self)@.tiles),
            relocated(
                old(self)@.tiles,
                final(self)@.tiles,
                cell(x, y),
                old(self)@.width,
                old(self)@.height,
            ),
    {
        relocate(&mut self.tiles, self.width, self.height, x, y, rng);
    }

    /// Reveals each hidden cell around the revealed cell in column `x`,
    /// row `y`, with all that it uncovers. Says whether one of them held
    /// a mine.
    pub fn reveal_adjacent(&mut self, x: usize, y: usize) -> (r: Result<bool, BoardError>)
        requires
            old(self).wf(),
        ensures
            final(self).wf(),
            r is Ok <==> old(self)@.has(cell(x, y)) && old(self)@.shown(cell(x, y))
                == TileDisplay::Revealed,
            r matches Err(e) ==> final(self)@ == old(self)@ && e == (if old(self)@.has(cell(x, y)) {
                BoardError::NotRevealed { x, y }
            } else {
                BoardError::OutOfBounds {
                    x,
                    y,
                    width: old(self)@.width as usize,
                    height: old(self)@.height as usize,
                }
            }),
            r matches Ok(hit) ==> final(self)@ == old(self)@.chorded(cell(x, y)) && hit == old(
                self,
            )@.chord_hits(cell(x, y)),
    {
        if x >= self.width || y >= self.height {
            return Err(BoardError::OutOfBounds { x, y, width: self.width, height: self.height });
        }
        if get_cell(&self.display, x, y) != TileDisplay::Revealed {
            return Err(BoardError::NotRevealed { x, y });
        }
        proof {
            if !self.any_revealed {
                assert(shows(grid_of(self.display@), cell(x, y), TileDisplay::Revealed));
                lemma_nothing_hidden(
                    grid_of(self.tiles@),
                    grid_of(self.display@),
                    cell(x, y),
                    self.width as nat,
                    self.height as nat,
                );
            }
        }
        let hit: bool = open_around(&self.tiles, &mut self.display, self.width, self.height, x, y);
        Ok(hit)
    }

    /// Reveals the hidden cells around the revealed cell in column `x`,
    /// row `y`, as [`Board::reveal_adjacent`] does, if the cell shows as
    /// many flags around it as its digit says; else nothing changes.
    /// `Some` tells that the cells were revealed, and whether a mine was
    /// among them. The cell must not hold a mine.
    pub fn chord(&mut self, x: usize, y: usize) -> (r: Result<Option<bool>, BoardError>)
        requires
            old(self).wf(),
            old(self)@.has(cell(x, y)) && old(self)@.shown(cell(x, y)) == TileDisplay::Revealed
                ==> old(self)@.tile(cell(x, y)) is Safe,
        ensures
            final(self).wf(),
            r is Ok <==> old(self)@.has(cell(x, y)) && old(self)@.shown(cell(x, y))
                == TileDisplay::Revealed,
            r matches Err(e) ==> final(self)@ == old(self)@ && e == (if old(self)@.has(cell(x, y)) {
                BoardError::NotRevealed { x, y }
            } else {
                BoardError::OutOfBounds {
                    x,
                    y,
                    width: old(self)@.width as usize,
                    height: old(self)@.height as usize,
                }
            }),
            r matches Ok(o) ==> (o is Some <==> old(self)@.flags_match(cell(x, y))),
            r matches Ok(None) ==> final(self)@ == old(self)@,
            r matches Ok(Some(hit)) ==> final(self)@ == old(self)@.chorded(cell(x, y)) && hit
                == old(self)@.chord_hits(cell(x, y)),
    {
        if x >= self.width || y >= self.height {
            return Err(BoardError::OutOfBounds { x, y, width: self.width, height: self.height });
        }
        if get_cell(&self.display, x, y) != TileDisplay::Revealed {
            return Err(BoardError::NotRevealed { x, y });
        }
        let wanted: i32 = match get_cell(&self.tiles, x, y) {
            Tile::Safe(digit) => Digit::to_int(digit),
            Tile::Mine => {
                return Ok(None);
            },
        };
        let flags: usize = count_adjacent_flags(&self.display, x, y, self.width, self.height);
        if flags as i32 == wanted {
            match self.reveal_adjacent(x, y) {
                Ok(hit) => Ok(Some(hit)),
                Err(e) => Err(e),
            }
        } else {
            Ok(None)
        }
    }

    /// Moves the display state of the cell in column `x`, row `y` on by
    /// one step: hidden, flag, question mark and hidden again. A revealed
    /// cell stays revealed. Hands out the new state.
    pub fn toggle_display_at(&mut self, x: usize, y: usize) -> (r: Result<TileDisplay, BoardError>)
        requires
            old(self).wf(),
        ensures
            final(self).wf(),
            old(self)@.has(cell(x, y)) <==> r is Ok,
            r matches Err(e) ==> final(self)@ == old(self)@ && e == (BoardError::OutOfBounds {
                x,
                y,
                width: old(self)@.width as usize,
                height: old(self)@.height as usize,
            }),
            r matches Ok(d) ==> final(self)@ == old(self)@.toggled(cell(x, y)) && d == old(
                self,
            )@.shown(cell(x, y)).toggled(),
    {
        if x >= self.width || y >= self.height {
            return Err(BoardError::OutOfBounds { x, y, width: self.width, height: self.height });
        }
        let next: TileDisplay = get_cell(&self.display, x, y).next();
        set_cell(&mut self.display, x, y, next);
        proof {
            let before = old(self)@.display;
            let after = grid_of(self.display@);
            if !self.any_revealed {
                if none_revealed(before) {
                    assert forall|c: Cell| !#[trigger] shows(
                        after,
                        c,
                        TileDisplay::Revealed,
                    ) by {
                        if shows(after, c, TileDisplay::Revealed) {
                            assert(!shows(before, c, TileDisplay::Revealed));
                        }
                    }
                } else {
                    assert(inside(before, cell(x, y)));
                    assert(after[x as int] =~= before[x as int]);
                    assert(after =~= before);
                }
            }
        }
        Ok(next)
    }

    /// What the cell in column `x`, row `y` shows.
    pub fn get_display_at(&self, x: usize, y: usize) -> (r: Result<TileDisplay, BoardError>)
        requires
            self.wf(),
        ensures
            self@.has(cell(x, y)) <==> r is Ok,
            r matches Err(e) ==> e == (BoardError::OutOfBounds {
                x,
                y,
                width: self@.width as usize,
                height: self@.height as usize,
            }),
            r matches Ok(d) ==> d == self@.shown(cell(x, y)),
    {
        if x >= self.width || y >= self.height {
            return Err(BoardError::OutOfBounds { x, y, width: self.width, height: self.height });
        }
        Ok(get_cell(&self.display, x, y))
    }

    /// The tile of the cell in column `x`, row `y`.
    pub fn get_tile_at(&self, x: usize, y: usize) -> (r: Result<Tile, BoardError>)
        requires
            self.wf(),
        ensures
            self@.has(cell(x, y)) <==> r is Ok,
            r matches Err(e) ==> e == (BoardError::OutOfBounds {
                x,
                y,
                width: self@.width as usize,
                height: self@.height as usize,
            }),
            r matches Ok(t) ==> t == self@.tile(cell(x, y)),
    {
        if x >= self.width || y >= self.height {
            return Err(BoardError::OutOfBounds { x, y, width: self.width, height: self.height });
        }
        Ok(get_cell(&self.tiles, x, y))
    }

    /// The number of flags on the up to eight cells around the cell in
    /// column `x`, row `y`.
    pub fn adjacent_flags_at(&self, x: usize, y: usize) -> (r: Result<usize, BoardError>)
        requires
            self.wf(),
        ensures
            self@.has(cell(x, y)) <==> r is Ok,
            r matches Err(e) ==> e == (BoardError::OutOfBounds {
                x,
                y,
                width: self@.width as usize,
                height: self@.height as usize,
            }),
            r matches Ok(n) ==> n == adjacent_flags(self@.display, cell(x, y)),
    {
        if x >= self.width || y >= self.height {
            return Err(BoardError::OutOfBounds { x, y, width: self.width, height: self.height });
        }
        Ok(count_adjacent_flags(&self.display, x, y, self.width, self.height))
    }

    /// Whether the game is won: every safe cell is revealed.
    pub fn check_victory(&self) -> (won: bool)
        requires
            self.wf(),
        ensures
            won == self@.won(),
    {
        let mut x: usize = 0;
        while x < self.width
            invariant
                self.wf(),
                x <= self.width,
                forall|c: Cell| #[trigger]
                    self@.has(c) && c.0 < x ==> (self@.tile(c) is Safe ==> self@.shown(c)
                        == TileDisplay::Revealed),
            decreases self.width - x,
        {
            let mut y: usize = 0;
            while y < self.height
                invariant
                    self.wf(),
                    x < self.width,
                    y <= self.height,
                    forall|c: Cell| #[trigger]
                        self@.has(c) && (c.0 < x || (c.0 == x && c.1 < y)) ==> (self@.tile(c)
                            is Safe ==> self@.shown(c) == TileDisplay::Revealed),
                decreases self.height - y,
            {
                match get_cell(&self.tiles, x, y) {
                    Tile::Safe(_) => {
                        if get_cell(&self.display, x, y) != TileDisplay::Revealed {
                            assert(self@.has(cell(x, y)));
                            return false;
                        }
                    },
                    Tile::Mine => {},
                }
                y += 1;
            }
            x += 1;
        }
        true
    }
}

} // verus!
