//! A game on a board as the console front end plays it: the moves, and
//! when the game is over.

use vstd::prelude::*;
use crate::board::{Board, BoardView, all_hidden, none_revealed};
use crate::error::BoardError;
use crate::grid::{Cell, cell, mine_count, put, shows};
use crate::tile::{Tile, TileDisplay};

verus! {

/// Whether a game is still running.
#[derive(Debug, PartialEq, Eq, Structural, Copy, Clone)]
pub enum GameState {
    Run,
    End,
}

/// What a [`TextGame`] is: its board, and whether the game still runs.
pub struct TextGameView {
    pub board: BoardView,
    pub state: GameState,
}

impl TextGameView {
    /// What holds of every game: its board is in order, and while the
    /// game runs and no cell has been revealed by the player, no cell is
    /// revealed at all.
    pub open spec fn wf(self) -> bool {
        &&& self.board.wf()
        &&& (self.state == GameState::Run && !self.board.first_reveal_done ==> none_revealed(
            self.board.display,
        ))
    }

    /// The board after the cell `c` has been given a flag, if it was
    /// hidden or carried a question mark.
    pub open spec fn flagged(self, c: Cell) -> BoardView {
        if self.board.shown(c) == TileDisplay::Hidden || self.board.shown(c)
            == TileDisplay::Question {
            self.board.with_display(put(self.board.display, c, TileDisplay::Flag))
        } else {
            self.board
        }
    }
}

/// A game on a board.
#[derive(Debug)]
pub struct TextGame {
    board: Board,
    state: GameState,
}

impl View for TextGame {
    type V = TextGameView;

    closed spec fn view(&self) -> TextGameView {
        TextGameView { board: self.board@, state: self.state }
    }
}

impl TextGame {
    /// What holds of every game that this library hands out.
    pub open spec fn wf(&self) -> bool {
        self@.wf()
    }

    /// A new game on a board of `width` columns and `height` rows with
    /// `mines` mines on cells chosen at random.
    pub fn with_size(width: usize, height: usize, mines: usize) -> (game: TextGame)
        requires
            width * height <= usize::MAX,
            mines <= width * height,
        ensures
            game.wf(),
            game@.state == GameState::Run,
            game@.board.width == width,
            game@.board.height == height,
            game@.board.mines == mines,
            mine_count(game@.board.tiles) == mines,
            all_hidden(game@.board.display),
            !game@.board.first_reveal_done,
    {
        let board = Board::new(width, height, mines);
        TextGame { board, state: GameState::Run }
    }

    /// A new game on `board`, on which no cell is revealed unless the
    /// player has revealed one.
    pub fn with_board(board: Board) -> (game: TextGame)
        requires
            board.wf(),
            board@.first_reveal_done || none_revealed(board@.display),
        ensures
            game.wf(),
            game@.state == GameState::Run,
            game@.board == board@,
    {
        TextGame { board, state: GameState::Run }
    }

    /// The board of the game.
    pub fn board(&self) -> (board: &Board)
        ensures
            board@ == self@.board,
    {
        &self.board
    }

    /// Whether the game still runs.
    pub fn state(&self) -> (state: GameState)
        ensures
            state == self@.state,
    {
        self.state
    }

    /// Reveals the cell in column `x`, row `y`, as [`Board::reveal_at`]
    /// does. If it holds a mine, every cell is revealed and the game is
    /// over.
    pub fn check(&mut self, x: usize, y: usize) -> (r: Result<Tile, BoardError>)
        requires
            old(self).wf(),
        ensures
            final(self).wf(),
            old(self)@.board.has(cell(x, y)) <==> r is Ok,
            r matches Err(e) ==> final(self)@ == old(self)@ && e == (BoardError::OutOfBounds {
                x,
                y,
                width: old(self)@.board.width as usize,
                height: old(self)@.board.height as usize,
            }),
            r matches Ok(t) ==> {
                let opened = old(self)@.board.with_tiles(final(self)@.board.tiles).revealed(
                    cell(x, y),
                );
                &&& old(self)@.board.reveals_to(opened, cell(x, y))
                &&& t == opened.tile(cell(x, y))
                &&& t is Mine ==> final(self)@.board == opened.disclosed() && final(self)@.state
                    == GameState::End
                &&& t is Safe ==> final(self)@.board == opened && final(self)@.state == old(
                    self,
                )@.state
            },
    {
        match self.board.reveal_at(x, y) {
            Ok(tile) => {
                if tile == Tile::Mine {
                    self.board.reveal_all();
                    self.game_over(true);
                }
                Ok(tile)
            },
            Err(e) => Err(e),
        }
    }

    /// Moves the display state of the cell in column `x`, row `y` on by
    /// one step, as [`Board::toggle_display_at`] does.
    pub fn toggle(&mut self, x: usize, y: usize) -> (r: Result<TileDisplay, BoardError>)
        requires
            old(self).wf(),
        ensures
            final(self).wf(),
            final(self)@.state == old(self)@.state,
            old(self)@.board.has(cell(x, y)) <==> r is Ok,
            r matches Err(e) ==> final(self)@ == old(self)@ && e == (BoardError::OutOfBounds {
                x,
                y,
                width: old(self)@.board.width as usize,
                height: old(self)@.board.height as usize,
            }),
            r matches Ok(d) ==> final(self)@.board == old(self)@.board.toggled(cell(x, y)) && d
                == old(self)@.board.shown(cell(x, y)).toggled(),
    {
        let r = self.board.toggle_display_at(x, y);
        proof {
            if r is Ok && !self.board@.first_reveal_done && self.state == GameState::Run {
                let before = old(self)@.board.display;
                let after = self.board@.display;
                assert forall|c: Cell| !#[trigger] shows(after, c, TileDisplay::Revealed) by {
                    if shows(after, c, TileDisplay::Revealed) {
                        assert(!shows(before, c, TileDisplay::Revealed));
                    }
                }
            }
        }
        r
    }

    /// Gives the cell in column `x`, row `y` a flag if it is hidden or
    /// carries a question mark, and hands out what it shows then.
    pub fn flag(&mut self, x: usize, y: usize) -> (r: Result<TileDisplay, BoardError>)
        requires
            old(self).wf(),
        ensures
            final(self).wf(),
            final(self)@.state == old(self)@.state,
            old(self)@.board.has(cell(x, y)) <==> r is Ok,
            r matches Err(e) ==> final(self)@ == old(self)@ && e == (BoardError::OutOfBounds {
                x,
                y,
                width: old(self)@.board.width as usize,
                height: old(self)@.board.height as usize,
            }),
            r matches Ok(d) ==> final(self)@.board == old(self)@.flagged(cell(x, y)) && d
                == final(self)@.board.shown(cell(x, y)),
    {
        let shown: TileDisplay = match self.board.get_display_at(x, y) {
            Ok(shown) => shown,
            Err(e) => {
                return Err(e);
            },
        };
        let ghost c = cell(x, y);
        let ghost before = self@.board;
        match shown {
            TileDisplay::Hidden => self.toggle(x, y),
            TileDisplay::Question => {
                let _ = self.toggle(x, y);
                let r = self.toggle(x, y);
                proof {
                    assert(self@.board.display[c.0] =~= put(
                        before.display,
                        c,
                        TileDisplay::Flag,
                    )[c.0]);
                    assert(self@.board.display =~= put(before.display, c, TileDisplay::Flag));
                }
                r
            },
            _ => Ok(shown),
        }
    }

    /// A chord at the revealed cell in column `x`, row `y`, as
    /// [`Board::chord`] makes it: if the cell shows as many flags around
    /// it as its digit says, each hidden cell around it is revealed with
    /// all that it uncovers; else nothing changes. `Some` tells that the
    /// cells were revealed, and whether a mine was among them. The game
    /// goes on either way. The cell must not hold a mine.
    pub fn chord(&mut self, x: usize, y: usize) -> (r: Result<Option<bool>, BoardError>)
        requires
            old(self).wf(),
            old(self)@.board.has(cell(x, y)) && old(self)@.board.shown(cell(x, y))
                == TileDisplay::Revealed ==> old(self)@.board.tile(cell(x, y)) is Safe,
        ensures
            final(self).wf(),
            final(self)@.state == old(self)@.state,
            r is Ok <==> old(self)@.board.has(cell(x, y)) && old(self)@.board.shown(cell(x, y))
                == TileDisplay::Revealed,
            r matches Err(e) ==> final(self)@ == old(self)@ && e == (if old(self)@.board.has(
                cell(x, y),
            ) {
                BoardError::NotRevealed { x, y }
            } else {
                BoardError::OutOfBounds {
                    x,
                    y,
                    width: old(self)@.board.width as usize,
                    height: old(self)@.board.height as usize,
                }
            }),
            r matches Ok(o) ==> (o is Some <==> old(self)@.board.flags_match(cell(x, y))),
            r matches Ok(None) ==> final(self)@ == old(self)@,
            r matches Ok(Some(hit)) ==> final(self)@.board == old(self)@.board.chorded(cell(x, y))
                && hit == old(self)@.board.chord_hits(cell(x, y)),
    {
        let r = self.board.chord(x, y);
        proof {
            if r is Ok && !old(self)@.board.first_reveal_done {
                assert(shows(old(self)@.board.display, cell(x, y), TileDisplay::Revealed));
            }
        }
        r
    }

    /// Ends the game; a lost game has every cell revealed.
    pub fn game_over(&mut self, lose: bool)
        requires
            old(self).wf(),
        ensures
            final(self).wf(),
            final(self)@.state == GameState::End,
            final(self)@.board == (if lose {
                old(self)@.board.disclosed()
            } else {
                old(self)@.board
            }),
    {
        if lose {
            self.board.reveal_all();
        }
        self.state = GameState::End;
    }

    /// Ends a running game that is won, and says whether it did.
    pub fn settle(&mut self) -> (won: bool)
        requires
            old(self).wf(),
        ensures
            final(self).wf(),
            final(self)@.board == old(self)@.board,
            won == (old(self)@.state == GameState::Run && old(self)@.board.won()),
            final(self)@.state == (if won {
                GameState::End
            } else {
                old(self)@.state
            }),
    {
        if self.state != GameState::End && self.board.check_victory() {
            self.game_over(false);
            true
        } else {
            false
        }
    }
}

} // verus!
