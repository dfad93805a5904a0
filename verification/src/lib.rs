//! A Minesweeper board engine: mine placement, adjacency digits, the safe
//! first reveal, cascading reveals, chords, flags and the victory check.
//!
//! Every executable function carries a contract stated over the
//! mathematical model in [`grid`] and [`cascade`], and Verus proves each
//! body against it. Two things are taken on trust: the random number
//! generator behind [`random::RandomSource`], and the making of a
//! `String` from its characters in [`text`].

pub mod board;
pub mod cascade;
pub mod cells;
pub mod chord;
pub mod digits;
pub mod error;
pub mod flood;
pub mod grid;
pub mod laws;
pub mod placement;
pub mod random;
pub mod settings;
pub mod text;
pub mod textgame;
pub mod tile;

pub use board::Board;
pub use error::BoardError;
pub use random::RandomSource;
pub use settings::Difficulty;
pub use textgame::{GameState, TextGame};
pub use tile::{Digit, Tile, TileDisplay};
