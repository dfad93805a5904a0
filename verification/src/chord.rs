//! Revealing the hidden cells around a cell, one after the other, and
//! counting the flags around it.

use vstd::prelude::*;
use crate::cascade::{
    cascade_path, cascades, chord_hits, chorded, flooded, hits_mine,
    lemma_cascades_join, lemma_cascades_safe, lemma_cascades_shrink, lemma_path_tail, opened,
    uncovered,
};
use crate::cells::{get_cell, neighbor_of};
use crate::flood::flood;
use crate::grid::{
    Cell, Grid, adjacent_flags, cell, digits_match, flag_at, grid_of, inside, neighbor,
    rectangular, shows,
};
use crate::tile::{Tile, TileDisplay};

verus! {

/// Nothing is uncovered before the first neighbour has been revealed.
proof fn lemma_opened_none(g: Grid<Tile>, d: Grid<TileDisplay>, c: Cell)
    ensures
        opened(g, d, c, 0) == d,
{
    let o = opened(g, d, c, 0);
    assert forall|x: int| 0 <= x < d.len() implies o[x] =~= d[x] by {}
}

/// A neighbour that is off the board, or no longer hidden when its turn
/// comes, uncovers nothing new, and is no hidden mine.
proof fn lemma_open_pass(g: Grid<Tile>, d: Grid<TileDisplay>, c: Cell, k: int, w: nat, h: nat)
    requires
        digits_match(g),
        rectangular(d, w, h),
        0 <= k < 8,
        !shows(opened(g, d, c, k), neighbor(c, k), TileDisplay::Hidden),
    ensures
        opened(g, d, c, k + 1) == opened(g, d, c, k),
        !hits_mine(g, d, c, k),
{
    let n = neighbor(c, k);
    let now = opened(g, d, c, k);
    let next = opened(g, d, c, k + 1);
    if shows(d, n, TileDisplay::Hidden) {
        assert(now[n.0][n.1] == TileDisplay::Revealed);
        assert(uncovered(g, d, c, k, n));
        let i = choose|i: int| 0 <= i < k && #[trigger] cascades(g, d, neighbor(c, i), n);
        assert(neighbor(c, i) != n);
        lemma_cascades_safe(g, d, neighbor(c, i), n);
    }
    assert forall|t: Cell| uncovered(g, d, c, k + 1, t) implies uncovered(g, d, c, k, t) by {
        let j = choose|j: int| 0 <= j < k + 1 && #[trigger] cascades(g, d, neighbor(c, j), t);
        if j == k {
            let i = choose|i: int| 0 <= i < k && #[trigger] cascades(g, d, neighbor(c, i), n);
            lemma_cascades_join(g, d, neighbor(c, i), n, t);
        }
    }
    assert forall|x: int| 0 <= x < w implies next[x] =~= now[x] by {}
}

/// Revealing a neighbour that is still hidden when its turn comes
/// uncovers what it would have uncovered at the start.
proof fn lemma_open_step(g: Grid<Tile>, d: Grid<TileDisplay>, c: Cell, k: int, w: nat, h: nat)
    requires
        rectangular(d, w, h),
        0 <= k < 8,
        shows(opened(g, d, c, k), neighbor(c, k), TileDisplay::Hidden),
    ensures
        flooded(g, opened(g, d, c, k), neighbor(c, k)) == opened(g, d, c, k + 1),
        shows(d, neighbor(c, k), TileDisplay::Hidden),
{
    let n = neighbor(c, k);
    let now = opened(g, d, c, k);
    let next = opened(g, d, c, k + 1);
    let f = flooded(g, now, n);
    assert forall|x: int| 0 <= x < w implies f[x] =~= next[x] by {
        assert forall|y: int| 0 <= y < h implies f[x][y] == next[x][y] by {
            let t: Cell = (x, y);
            if cascades(g, now, n, t) {
                lemma_cascades_shrink(g, d, now, n, t);
            } else if uncovered(g, d, c, k, t) {
                let j = choose|j: int| 0 <= j < k && #[trigger] cascades(g, d, neighbor(c, j), t);
            } else if uncovered(g, d, c, k + 1, t) {
                let j = choose|j: int|
                    0 <= j < k + 1 && #[trigger] cascades(g, d, neighbor(c, j), t);
                let p = choose|p: Seq<Cell>| #[trigger]
                    cascade_path(g, d, p) && p[0] == n && p[p.len() - 1] == t;
                assert forall|i: int| 0 <= i < p.len() implies shows(
                    now,
                    #[trigger] p[i],
                    TileDisplay::Hidden,
                ) by {
                    if uncovered(g, d, c, k, p[i]) {
                        let m = choose|m: int|
                            0 <= m < k && #[trigger] cascades(g, d, neighbor(c, m), p[i]);
                        lemma_path_tail(g, d, p, i);
                        lemma_cascades_join(g, d, neighbor(c, m), p[i], t);
                    }
                }
                assert(cascade_path(g, now, p));
            }
        }
    }
}

/// Where the cell `c` is revealed and no cell, or every cell, is
/// revealed, a chord has nothing to reveal.
pub proof fn lemma_nothing_hidden(g: Grid<Tile>, d: Grid<TileDisplay>, c: Cell, w: nat, h: nat)
    requires
        rectangular(d, w, h),
        forall|t: Cell| #[trigger] inside(d, t) ==> d[t.0][t.1] == TileDisplay::Revealed,
    ensures
        chorded(g, d, c) == d,
{
    let o = chorded(g, d, c);
    assert forall|x: int| 0 <= x < w implies o[x] =~= d[x] by {}
}

/// 1 if the `k`-th neighbour of the cell in column `x`, row `y` carries a flag, else 0.
fn flag_beside(
    display: &Vec<Vec<TileDisplay>>,
    x: usize,
    y: usize,
    k: usize,
    width: usize,
    height: usize,
) -> (n: usize)
    requires
        rectangular(grid_of(display@), width as nat, height as nat),
        x < width,
        y < height,
        k < 8,
    ensures
        n == flag_at(grid_of(display@), neighbor(cell(x, y), k as int)),
{
    match neighbor_of(x, y, k, width, height) {
        Some((nx, ny)) => {
            if get_cell(display, nx, ny) == TileDisplay::Flag {
                1
            } else {
                0
            }
        },
        None => 0,
    }
}

/// The number of flags around the cell in column `x`, row `y`.
pub fn count_adjacent_flags(
    display: &Vec<Vec<TileDisplay>>,
    x: usize,
    y: usize,
    width: usize,
    height: usize,
) -> (n: usize)
    requires
        rectangular(grid_of(display@), width as nat, height as nat),
        x < width,
        y < height,
    ensures
        n == adjacent_flags(grid_of(display@), cell(x, y)),
        n <= 8,
{
    proof {
        reveal(adjacent_flags);
    }
    let mut n: usize = flag_beside(display, x, y, 0, width, height);
    n += flag_beside(display, x, y, 1, width, height);
    n += flag_beside(display, x, y, 2, width, height);
    n += flag_beside(display, x, y, 3, width, height);
    n += flag_beside(display, x, y, 4, width, height);
    n += flag_beside(display, x, y, 5, width, height);
    n += flag_beside(display, x, y, 6, width, height);
    n += flag_beside(display, x, y, 7, width, height);
    n
}

/// Reveals each hidden cell around the cell in column `x`, row `y`, in
/// the order of [`neighbor`], with all that it uncovers. Says whether one
/// of them held a mine.
pub fn open_around(
    tiles: &Vec<Vec<Tile>>,
    display: &mut Vec<Vec<TileDisplay>>,
    width: usize,
    height: usize,
    x: usize,
    y: usize,
) -> (hit: bool)
    requires
        rectangular(grid_of(tiles@), width as nat, height as nat),
        rectangular(grid_of(old(display)@), width as nat, height as nat),
        digits_match(grid_of(tiles@)),
        x < width,
        y < height,
    ensures
        rectangular(grid_of(final(display)@), width as nat, height as nat),
        grid_of(final(display)@) == chorded(grid_of(tiles@), grid_of(old(display)@), cell(x, y)),
        hit == chord_hits(grid_of(tiles@), grid_of(old(display)@), cell(x, y)),
{
    let ghost g = grid_of(tiles@);
    let ghost d0 = grid_of(display@);
    let ghost c = cell(x, y);
    let ghost w = width as nat;
    let ghost h = height as nat;
    proof {
        lemma_opened_none(g, d0, c);
    }
    let mut hit: bool = false;
    let mut k: usize = 0;
    while k < 8
        invariant
            k <= 8,
            x < width,
            y < height,
            c == cell(x, y),
            w == width,
            h == height,
            g == grid_of(tiles@),
            d0 == grid_of(old(display)@),
            digits_match(g),
            rectangular(g, w, h),
            rectangular(d0, w, h),
            rectangular(grid_of(display@), w, h),
            grid_of(display@) == opened(g, d0, c, k as int),
            hit == exists|j: int| 0 <= j < k && #[trigger] hits_mine(g, d0, c, j),
        decreases 8 - k,
    {
        let ghost hit_before = hit;
        match neighbor_of(x, y, k, width, height) {
            Some((nx, ny)) => {
                if get_cell(display, nx, ny) == TileDisplay::Hidden {
                    proof {
                        lemma_open_step(g, d0, c, k as int, w, h);
                    }
                    flood(tiles, display, width, height, nx, ny);
                    if get_cell(tiles, nx, ny) == Tile::Mine {
                        hit = true;
                    }
                } else {
                    proof {
                        lemma_open_pass(g, d0, c, k as int, w, h);
                    }
                }
            },
            None => {
                proof {
                    lemma_open_pass(g, d0, c, k as int, w, h);
                }
            },
        }
        proof {
            let seen = |n: int| exists|j: int| 0 <= j < n && #[trigger] hits_mine(g, d0, c, j);
            assert(hit == (hit_before || hits_mine(g, d0, c, k as int)));
            if hits_mine(g, d0, c, k as int) {
                assert(seen(k + 1));
            }
            if seen(k + 1) {
                let j = choose|j: int| 0 <= j < k + 1 && #[trigger] hits_mine(g, d0, c, j);
                if j < k {
                    assert(seen(k as int));
                }
            }
            if hit_before {
                let j = choose|j: int| 0 <= j < k && #[trigger] hits_mine(g, d0, c, j);
                assert(seen(k + 1));
            }
        }
        k += 1;
    }
    hit
}

} // verus!
