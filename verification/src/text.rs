//! The board as text: a line with the numbers of the columns, then one
//! line per row with its number and its cells.

use vstd::prelude::*;
use crate::board::{Board, BoardView};
use crate::grid::cell;
use crate::tile::{Digit, Tile, TileDisplay};

verus! {

/// The character of a digit.
pub open spec fn digit_symbol(d: Digit) -> char {
    match d {
        Digit::Zero => '0',
        Digit::One => '1',
        Digit::Two => '2',
        Digit::Three => '3',
        Digit::Four => '4',
        Digit::Five => '5',
        Digit::Six => '6',
        Digit::Seven => '7',
        Digit::Eight => '8',
        Digit::Nine => '9',
    }
}

/// The number `n` in decimal digits, without leading zeros.
pub open spec fn decimal(n: nat) -> Seq<char>
    decreases n,
{
    if n < 10 {
        seq![digit_symbol(Digit::of(n as int))]
    } else {
        decimal(n / 10).push(digit_symbol(Digit::of((n % 10) as int)))
    }
}

/// The number of column `x` above the board: a space in front, and one
/// behind where the number has a single digit.
pub open spec fn column_label(x: nat) -> Seq<char> {
    if x < 10 {
        seq![' '] + decimal(x) + seq![' ']
    } else {
        seq![' '] + decimal(x)
    }
}

/// The number of row `y` in front of the row: at least two characters
/// wide, and a space behind.
pub open spec fn row_label(y: nat) -> Seq<char> {
    if y < 10 {
        seq![' '] + decimal(y) + seq![' ']
    } else {
        decimal(y) + seq![' ']
    }
}

/// A revealed tile as text: a mine as a star, a blank tile as a line,
/// any other by its digit.
pub open spec fn tile_text(t: Tile) -> Seq<char> {
    match t {
        Tile::Mine => seq!['|', '*', '|'],
        Tile::Safe(Digit::Zero) => seq!['|', '_', '|'],
        Tile::Safe(d) => seq!['|', digit_symbol(d), '|'],
    }
}

/// A cell as text: its tile where it is revealed, else an empty box, an
/// exclamation mark for a flag or a question mark.
pub open spec fn cell_text(t: Tile, shown: TileDisplay) -> Seq<char> {
    match shown {
        TileDisplay::Revealed => tile_text(t),
        TileDisplay::Hidden => seq!['|', ' ', '|'],
        TileDisplay::Flag => seq!['|', '!', '|'],
        TileDisplay::Question => seq!['|', '?', '|'],
    }
}

/// The numbers of the first `n` columns.
pub open spec fn column_labels(n: nat) -> Seq<char>
    decreases n,
{
    if n == 0 {
        Seq::empty()
    } else {
        column_labels((n - 1) as nat) + column_label((n - 1) as nat)
    }
}

/// The first `n` cells of row `y`.
pub open spec fn row_cells(board: BoardView, y: int, n: nat) -> Seq<char>
    decreases n,
{
    if n == 0 {
        Seq::empty()
    } else {
        row_cells(board, y, (n - 1) as nat) + cell_text(
            board.tile((n - 1, y)),
            board.shown((n - 1, y)),
        )
    }
}

/// The line of row `y`: its number, its cells, and the end of the line.
pub open spec fn row_text(board: BoardView, y: int) -> Seq<char> {
    row_label(y as nat) + row_cells(board, y, board.width) + seq!['\n']
}

/// The lines of the first `n` rows.
pub open spec fn rows_text(board: BoardView, n: nat) -> Seq<char>
    decreases n,
{
    if n == 0 {
        Seq::empty()
    } else {
        rows_text(board, (n - 1) as nat) + row_text(board, n - 1)
    }
}

/// The board as text: an empty line, the numbers of the columns behind
/// three spaces, and the rows.
pub open spec fn board_text(board: BoardView) -> Seq<char> {
    seq!['\n', ' ', ' ', ' '] + column_labels(board.width) + seq!['\n'] + rows_text(
        board,
        board.height,
    )
}

/// Calls `String::from_iter` of std on the characters. Taken on trust,
/// as its documentation says: the string holds these characters in this
/// order.
#[verifier::external_body]
fn string_of(chars: Vec<char>) -> (s: String)
    ensures
        s@ == chars@,
{
    String::from_iter(chars)
}

/// The character of a digit.
pub fn digit_char(d: Digit) -> (c: char)
    ensures
        c == digit_symbol(d),
{
    match d {
        Digit::Zero => '0',
        Digit::One => '1',
        Digit::Two => '2',
        Digit::Three => '3',
        Digit::Four => '4',
        Digit::Five => '5',
        Digit::Six => '6',
        Digit::Seven => '7',
        Digit::Eight => '8',
        Digit::Nine => '9',
    }
}

/// Writes `n` in decimal digits behind what `out` holds.
fn push_decimal(out: &mut Vec<char>, n: usize)
    ensures
        final(out)@ == old(out)@ + decimal(n as nat),
    decreases n,
{
    if n >= 10 {
        push_decimal(out, n / 10);
    }
    out.push(digit_char(Digit::from_count(n % 10)));
}

/// Writes `t` as a revealed tile behind what `out` holds.
fn push_tile(out: &mut Vec<char>, t: Tile)
    ensures
        final(out)@ == old(out)@ + tile_text(t),
{
    out.push('|');
    match t {
        Tile::Mine => out.push('*'),
        Tile::Safe(Digit::Zero) => out.push('_'),
        Tile::Safe(d) => out.push(digit_char(d)),
    }
    out.push('|');
}

/// Writes a cell behind what `out` holds.
fn push_cell(out: &mut Vec<char>, t: Tile, shown: TileDisplay)
    ensures
        final(out)@ == old(out)@ + cell_text(t, shown),
{
    match shown {
        TileDisplay::Revealed => push_tile(out, t),
        TileDisplay::Hidden => {
            out.push('|');
            out.push(' ');
            out.push('|');
        },
        TileDisplay::Flag => {
            out.push('|');
            out.push('!');
            out.push('|');
        },
        TileDisplay::Question => {
            out.push('|');
            out.push('?');
            out.push('|');
        },
    }
}

impl Digit {
    /// The digit as text.
    pub fn to_text(self) -> (s: String)
        ensures
            s@ == seq![digit_symbol(self)],
    {
        let mut out: Vec<char> = Vec::new();
        out.push(digit_char(self));
        string_of(out)
    }
}

impl Tile {
    /// The tile as text, as it shows once it is revealed.
    pub fn to_text(self) -> (s: String)
        ensures
            s@ == tile_text(self),
    {
        let mut out: Vec<char> = Vec::new();
        push_tile(&mut out, self);
        string_of(out)
    }
}

impl Board {
    /// The board as text.
    pub fn to_text(&self) -> (s: String)
        requires
            self.wf(),
        ensures
            s@ == board_text(self@),
    {
        let width: usize = self.width();
        let height: usize = self.height();
        let mut out: Vec<char> = Vec::new();
        out.push('\n');
        out.push(' ');
        out.push(' ');
        out.push(' ');
        let ghost start = seq!['\n', ' ', ' ', ' '];
        let mut x: usize = 0;
        while x < width
            invariant
                x <= width,
                out@ == start + column_labels(x as nat),
            decreases width - x,
        {
            out.push(' ');
            push_decimal(&mut out, x);
            if x < 10 {
                out.push(' ');
            }
            x += 1;
        }
        out.push('\n');
        let ghost head = start + column_labels(width as nat) + seq!['\n'];
        let mut y: usize = 0;
        while y < height
            invariant
                self.wf(),
                width == self@.width,
                height == self@.height,
                y <= height,
                out@ == head + rows_text(self@, y as nat),
            decreases height - y,
        {
            let ghost before = out@;
            if y < 10 {
                out.push(' ');
            }
            push_decimal(&mut out, y);
            out.push(' ');
            let mut x: usize = 0;
            while x < width
                invariant
                    self.wf(),
                    width == self@.width,
                    height == self@.height,
                    y < height,
                    x <= width,
                    out@ == before + row_label(y as nat) + row_cells(self@, y as int, x as nat),
                decreases width - x,
            {
                match (self.get_tile_at(x, y), self.get_display_at(x, y)) {
                    (Ok(t), Ok(shown)) => push_cell(&mut out, t, shown),
                    _ => {},
                }
                x += 1;
            }
            out.push('\n');
            y += 1;
        }
        string_of(out)
    }
}

} // verus!
