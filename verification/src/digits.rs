//! Counting the mines around a cell and writing the counts into the grid.

use vstd::prelude::*;
use crate::board::Board;
use crate::cells::{get_cell, neighbor_of, set_cell};
use crate::grid::{
    Cell, Grid, adjacent_mines, cell, digits_match, grid_of, inside, is_mine,
    lemma_adjacent_mines_bound, lemma_same_mines, mine_at, mine_count, neighbor, rectangular,
};
use crate::tile::{Digit, Tile};

verus! {

/// What `update_digits` leaves in a cell that held `t` with `n` mines around it.
pub open spec fn recounted(t: Tile, n: nat) -> Tile {
    if t is Mine {
        Tile::Mine
    } else {
        Tile::Safe(Digit::of(n as int))
    }
}

/// The grid `g` with the number of mines around it in every safe cell.
pub open spec fn with_digits(g: Grid<Tile>) -> Grid<Tile> {
    Seq::new(
        g.len(),
        |x: int| Seq::new(g[x].len(), |y: int| recounted(g[x][y], adjacent_mines(g, (x, y)))),
    )
}

/// 1 if the `k`-th neighbour of the cell in column `x`, row `y` holds a mine, else 0.
fn mine_beside(
    tiles: &Vec<Vec<Tile>>,
    x: usize,
    y: usize,
    k: usize,
    width: usize,
    height: usize,
) -> (n: usize)
    requires
        rectangular(grid_of(tiles@), width as nat, height as nat),
        x < width,
        y < height,
        k < 8,
    ensures
        n == mine_at(grid_of(tiles@), neighbor(cell(x, y), k as int)),
{
    match neighbor_of(x, y, k, width, height) {
        Some((nx, ny)) => {
            if get_cell(tiles, nx, ny) == Tile::Mine {
                1
            } else {
                0
            }
        },
        None => 0,
    }
}

/// The number of mines around the cell in column `x`, row `y`.
pub fn count_adjacent_mines(
    tiles: &Vec<Vec<Tile>>,
    x: usize,
    y: usize,
    width: usize,
    height: usize,
) -> (n: usize)
    requires
        rectangular(grid_of(tiles@), width as nat, height as nat),
        x < width,
        y < height,
    ensures
        n == adjacent_mines(grid_of(tiles@), cell(x, y)),
        n <= 8,
{
    proof {
        reveal(adjacent_mines);
    }
    let mut n: usize = mine_beside(tiles, x, y, 0, width, height);
    n += mine_beside(tiles, x, y, 1, width, height);
    n += mine_beside(tiles, x, y, 2, width, height);
    n += mine_beside(tiles, x, y, 3, width, height);
    n += mine_beside(tiles, x, y, 4, width, height);
    n += mine_beside(tiles, x, y, 5, width, height);
    n += mine_beside(tiles, x, y, 6, width, height);
    n += mine_beside(tiles, x, y, 7, width, height);
    n
}

impl Board {
    /// Writes into every safe cell the number of mines around it. The mines
    /// themselves stay where they are.
    pub fn update_digits(tiles: &mut Vec<Vec<Tile>>, height: usize, width: usize)
        requires
            rectangular(grid_of(old(tiles)@), width as nat, height as nat),
        ensures
            grid_of(final(tiles)@) == with_digits(grid_of(old(tiles)@)),
            rectangular(grid_of(final(tiles)@), width as nat, height as nat),
            forall|c: Cell| is_mine(grid_of(final(tiles)@), c) == is_mine(grid_of(old(tiles)@), c),
            mine_count(grid_of(final(tiles)@)) == mine_count(grid_of(old(tiles)@)),
            digits_match(grid_of(final(tiles)@)),
    {
        let ghost before = grid_of(tiles@);
        let mut x: usize = 0;
        while x < width
            invariant
                x <= width,
                before == grid_of(old(tiles)@),
                rectangular(before, width as nat, height as nat),
                rectangular(grid_of(tiles@), width as nat, height as nat),
                forall|c: Cell| #[trigger]
                    inside(before, c) ==> grid_of(tiles@)[c.0][c.1] == (if c.0 < x {
                        recounted(before[c.0][c.1], adjacent_mines(before, c))
                    } else {
                        before[c.0][c.1]
                    }),
            decreases width - x,
        {
            let mut y: usize = 0;
            while y < height
                invariant
                    x < width,
                    y <= height,
                    rectangular(before, width as nat, height as nat),
                    rectangular(grid_of(tiles@), width as nat, height as nat),
                    forall|c: Cell| #[trigger]
                        inside(before, c) ==> grid_of(tiles@)[c.0][c.1] == (if c.0 < x || (c.0 == x
                            && c.1 < y) {
                            recounted(before[c.0][c.1], adjacent_mines(before, c))
                        } else {
                            before[c.0][c.1]
                        }),
                decreases height - y,
            {
                let ghost now = grid_of(tiles@);
                proof {
                    assert forall|c: Cell| is_mine(now, c) == is_mine(before, c) by {
                        assert(inside(now, c) == inside(before, c));
                    }
                    lemma_same_mines(before, now);
                }
                if get_cell(tiles, x, y) != Tile::Mine {
                    let n: usize = count_adjacent_mines(tiles, x, y, width, height);
                    set_cell(tiles, x, y, Tile::Safe(Digit::from_count(n)));
                }
                y += 1;
            }
            x += 1;
        }
        proof {
            let after = grid_of(tiles@);
            assert forall|c: Cell| #[trigger] inside(after, c) implies after[c.0][c.1] == recounted(
                before[c.0][c.1],
                adjacent_mines(before, c),
            ) by {
                assert(inside(before, c));
            }
            assert forall|x: int| 0 <= x < width implies after[x] =~= with_digits(before)[x] by {
                assert forall|y: int| 0 <= y < height implies after[x][y] == with_digits(
                    before,
                )[x][y] by {
                    assert(inside(after, (x, y)));
                }
            }
            assert(after =~= with_digits(before));
            lemma_same_mines(before, after);
            assert forall|c: Cell| #[trigger] inside(after, c) implies (after[c.0][c.1] matches Tile::Safe(
                d,
            ) ==> d.value() == adjacent_mines(after, c)) by {
                lemma_adjacent_mines_bound(before, c);
            }
        }
    }
}

} // verus!
