//! The contents of a cell and what the player sees of it.

use vstd::prelude::*;
use vstd::std_specs::convert::IntoSpec;

verus! {

/// A single decimal digit.
#[derive(Debug, PartialEq, Eq, Structural, Copy, Clone)]
pub enum Digit {
    Zero,
    One,
    Two,
    Three,
    Four,
    Five,
    Six,
    Seven,
    Eight,
    Nine,
}

impl Digit {
    /// The number this digit stands for.
    pub open spec fn value(self) -> int {
        match self {
            Digit::Zero => 0,
            Digit::One => 1,
            Digit::Two => 2,
            Digit::Three => 3,
            Digit::Four => 4,
            Digit::Five => 5,
            Digit::Six => 6,
            Digit::Seven => 7,
            Digit::Eight => 8,
            Digit::Nine => 9,
        }
    }

    /// The digit that stands for `n`, for `n` from 0 to 9.
    pub open spec fn of(n: int) -> Digit {
        if n == 0 {
            Digit::Zero
        } else if n == 1 {
            Digit::One
        } else if n == 2 {
            Digit::Two
        } else if n == 3 {
            Digit::Three
        } else if n == 4 {
            Digit::Four
        } else if n == 5 {
            Digit::Five
        } else if n == 6 {
            Digit::Six
        } else if n == 7 {
            Digit::Seven
        } else if n == 8 {
            Digit::Eight
        } else {
            Digit::Nine
        }
    }

    pub fn to_int(d: Digit) -> (n: i32)
        ensures
            n == d.value(),
    {
        match d {
            Digit::Zero => 0,
            Digit::One => 1,
            Digit::Two => 2,
            Digit::Three => 3,
            Digit::Four => 4,
            Digit::Five => 5,
            Digit::Six => 6,
            Digit::Seven => 7,
            Digit::Eight => 8,
            Digit::Nine => 9,
        }
    }

    /// The digit for a number that converts to at most 9.
    pub fn from_int<T: Into<usize>>(i: T) -> (d: Digit)
        requires
            T::obeys_into_spec(),
            i.into_spec() <= 9,
        ensures
            d == Digit::of(i.into_spec() as int),
            d.value() == i.into_spec(),
    {
        let n: usize = i.into();
        Digit::from_count(n)
    }

    /// The digit for a count of at most 9.
    pub fn from_count(n: usize) -> (d: Digit)
        requires
            n <= 9,
        ensures
            d == Digit::of(n as int),
            d.value() == n,
    {
        if n == 0 {
            Digit::Zero
        } else if n == 1 {
            Digit::One
        } else if n == 2 {
            Digit::Two
        } else if n == 3 {
            Digit::Three
        } else if n == 4 {
            Digit::Four
        } else if n == 5 {
            Digit::Five
        } else if n == 6 {
            Digit::Six
        } else if n == 7 {
            Digit::Seven
        } else if n == 8 {
            Digit::Eight
        } else {
            Digit::Nine
        }
    }
}

/// What a cell holds: a mine, or the number of mines around it.
#[derive(Debug, PartialEq, Eq, Structural, Copy, Clone)]
pub enum Tile {
    Safe(Digit),
    Mine,
}

/// What the player sees of a cell.
#[derive(Debug, PartialEq, Eq, Structural, Copy, Clone)]
pub enum TileDisplay {
    Hidden,
    Revealed,
    Flag,
    Question,
}

impl TileDisplay {
    /// The state that follows this one when the player toggles the cell:
    /// hidden, flag and question mark follow each other in a cycle, and a
    /// revealed cell stays revealed.
    pub open spec fn toggled(self) -> TileDisplay {
        match self {
            TileDisplay::Hidden => TileDisplay::Flag,
            TileDisplay::Flag => TileDisplay::Question,
            TileDisplay::Question => TileDisplay::Hidden,
            TileDisplay::Revealed => TileDisplay::Revealed,
        }
    }

    pub fn next(self) -> (d: TileDisplay)
        ensures
            d == self.toggled(),
    {
        match self {
            TileDisplay::Hidden => TileDisplay::Flag,
            TileDisplay::Flag => TileDisplay::Question,
            TileDisplay::Question => TileDisplay::Hidden,
            TileDisplay::Revealed => TileDisplay::Revealed,
        }
    }
}

} // verus!
