//! Reading and writing single cells of a grid held as a vector of columns.

use vstd::prelude::*;
use crate::grid::{Cell, cell, grid_of, in_grid, inside, neighbor, put, rectangular};

verus! {

/// The content of the cell in column `x`, row `y`.
pub fn get_cell<T: Copy>(g: &Vec<Vec<T>>, x: usize, y: usize) -> (t: T)
    requires
        inside(grid_of(g@), cell(x, y)),
    ensures
        t == grid_of(g@)[x as int][y as int],
{
    g[x][y]
}

/// Replaces the content of the cell in column `x`, row `y` by `t`.
pub fn set_cell<T>(g: &mut Vec<Vec<T>>, x: usize, y: usize, t: T)
    requires
        inside(grid_of(old(g)@), cell(x, y)),
    ensures
        grid_of(final(g)@) == put(grid_of(old(g)@), cell(x, y), t),
{
    g[x][y] = t;
}

/// A grid of `width` columns and `height` rows with `t` in every cell.
pub fn filled<T: Copy>(width: usize, height: usize, t: T) -> (g: Vec<Vec<T>>)
    ensures
        rectangular(grid_of(g@), width as nat, height as nat),
        forall|c: Cell| #[trigger]
            inside(grid_of(g@), c) ==> grid_of(g@)[c.0][c.1] == t,
{
    let mut g: Vec<Vec<T>> = Vec::new();
    let mut x: usize = 0;
    while x < width
        invariant
            x <= width,
            g.len() == x,
            forall|i: int| 0 <= i < x ==> (#[trigger] g[i]).len() == height,
            forall|i: int, j: int| 0 <= i < x && 0 <= j < height ==> (#[trigger] g[i][j]) == t,
        decreases width - x,
    {
        let mut column: Vec<T> = Vec::new();
        let mut y: usize = 0;
        while y < height
            invariant
                y <= height,
                column.len() == y,
                forall|j: int| 0 <= j < y ==> (#[trigger] column[j]) == t,
            decreases height - y,
        {
            column.push(t);
            y += 1;
        }
        g.push(column);
        x += 1;
    }
    g
}

/// The `k`-th neighbour of the cell in column `x`, row `y`, if the board
/// of `width` columns and `height` rows has one.
pub fn neighbor_of(x: usize, y: usize, k: usize, width: usize, height: usize) -> (n: Option<
    (usize, usize),
>)
    requires
        x < width,
        y < height,
        k < 8,
    ensures
        match n {
            Some((nx, ny)) => nx < width && ny < height && cell(nx, ny) == neighbor(
                cell(x, y),
                k as int,
            ),
            None => !in_grid(neighbor(cell(x, y), k as int), width as nat, height as nat),
        },
{
    let left: bool = x > 0;
    let right: bool = x + 1 < width;
    let up: bool = y > 0;
    let down: bool = y + 1 < height;
    if k == 0 {
        if left {
            Some((x - 1, y))
        } else {
            None
        }
    } else if k == 1 {
        if left && down {
            Some((x - 1, y + 1))
        } else {
            None
        }
    } else if k == 2 {
        if left && up {
            Some((x - 1, y - 1))
        } else {
            None
        }
    } else if k == 3 {
        if right {
            Some((x + 1, y))
        } else {
            None
        }
    } else if k == 4 {
        if right && down {
            Some((x + 1, y + 1))
        } else {
            None
        }
    } else if k == 5 {
        if right && up {
            Some((x + 1, y - 1))
        } else {
            None
        }
    } else if k == 6 {
        if down {
            Some((x, y + 1))
        } else {
            None
        }
    } else {
        if up {
            Some((x, y - 1))
        } else {
            None
        }
    }
}

} // verus!
