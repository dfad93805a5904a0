//! The size and the number of mines of a game, and the limits that a
//! game of the player's own choosing is held to.

use vstd::prelude::*;

verus! {

pub const MAX_WIDTH: usize = 30;

pub const MAX_HEIGHT: usize = 24;

pub const MIN_WIDTH: usize = 9;

pub const MIN_HEIGHT: usize = 9;

/// The number of columns, of rows and of mines of a game, in this order.
#[derive(Debug, PartialEq, Eq, Structural, Copy, Clone)]
pub struct Difficulty(pub usize, pub usize, pub usize);

/// `v`, or the nearer of `low` and `high` where `v` lies outside them.
pub open spec fn clamped(v: int, low: int, high: int) -> int {
    if v > high {
        high
    } else if v < low {
        low
    } else {
        v
    }
}

impl Difficulty {
    /// These settings within the limits: the width from 9 to 30, the
    /// height from 9 to 24, and at least one mine, but no more than a
    /// board one column and one row smaller has cells.
    pub open spec fn within_limits(self) -> Difficulty {
        let width = clamped(self.0 as int, MIN_WIDTH as int, MAX_WIDTH as int);
        let height = clamped(self.1 as int, MIN_HEIGHT as int, MAX_HEIGHT as int);
        let mines = clamped(self.2 as int, 1, (width - 1) * (height - 1));
        Difficulty(width as usize, height as usize, mines as usize)
    }

    /// Brings the settings within the limits. A board can be made of what
    /// comes out.
    pub fn validate_custom_data(&mut self)
        ensures
            *final(self) == old(self).within_limits(),
            MIN_WIDTH <= final(self).0 <= MAX_WIDTH,
            MIN_HEIGHT <= final(self).1 <= MAX_HEIGHT,
            1 <= final(self).2 < final(self).0 * final(self).1,
    {
        if self.0 > MAX_WIDTH {
            self.0 = MAX_WIDTH;
        }
        if self.0 < MIN_WIDTH {
            self.0 = MIN_WIDTH;
        }
        if self.1 > MAX_HEIGHT {
            self.1 = MAX_HEIGHT;
        }
        if self.1 < MIN_HEIGHT {
            self.1 = MIN_HEIGHT;
        }
        assert(64 <= (self.0 - 1) * (self.1 - 1) <= 667 && (self.0 - 1) * (self.1 - 1) < self.0
            * self.1) by (nonlinear_arith)
            requires
                9 <= self.0 <= 30,
                9 <= self.1 <= 24,
        ;
        let most: usize = (self.0 - 1) * (self.1 - 1);
        if self.2 > most {
            self.2 = most;
        }
        if self.2 < 1 {
            self.2 = 1;
        }
    }
}

} // verus!
