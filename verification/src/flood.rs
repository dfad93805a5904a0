//! Revealing a hidden cell and all that it uncovers, with a list of
//! cells still to look at in place of recursion.

use vstd::prelude::*;
use crate::cascade::{cascade_path, cascades, flooded, lemma_cascades_self, lemma_cascades_step};
use crate::cells::{get_cell, neighbor_of, set_cell};
use crate::grid::{
    Cell, Grid, cell, grid_of, hidden_cells, inside, is_blank, lemma_adjacent_is_neighbor,
    lemma_hidden_removed, neighbor, put, rectangular, shows,
};
use crate::tile::{Digit, Tile, TileDisplay};

verus! {

/// The cells that a list of coordinates stands for.
pub open spec fn cells_of(list: Seq<(usize, usize)>) -> Seq<Cell> {
    Seq::new(list.len(), |i: int| cell(list[i].0, list[i].1))
}

/// Every cell of `d` shows what it showed in `d0`, or has been revealed
/// by the cascade from `s`.
spec fn sound(g: Grid<Tile>, d0: Grid<TileDisplay>, d: Grid<TileDisplay>, s: Cell) -> bool {
    forall|t: Cell| #[trigger]
        inside(d0, t) ==> d[t.0][t.1] == d0[t.0][t.1] || (d[t.0][t.1] == TileDisplay::Revealed
            && cascades(g, d0, s, t))
}

/// Every cell still to look at has been revealed by the cascade from `s`.
spec fn listed(
    g: Grid<Tile>,
    d0: Grid<TileDisplay>,
    d: Grid<TileDisplay>,
    s: Cell,
    list: Seq<Cell>,
) -> bool {
    forall|i: int|
        0 <= i < list.len() ==> shows(d, #[trigger] list[i], TileDisplay::Revealed) && cascades(
            g,
            d0,
            s,
            list[i],
        )
}

/// The first `k` neighbours of `p` that were hidden are revealed.
spec fn expanded(d0: Grid<TileDisplay>, d: Grid<TileDisplay>, p: Cell, k: int) -> bool {
    forall|j: int|
        0 <= j < k && #[trigger] shows(d0, neighbor(p, j), TileDisplay::Hidden) ==> shows(
            d,
            neighbor(p, j),
            TileDisplay::Revealed,
        )
}

/// Every blank cell that the cascade has revealed, but for `skip`, is
/// still to look at or has all its neighbours revealed.
spec fn closed_under(
    g: Grid<Tile>,
    d0: Grid<TileDisplay>,
    d: Grid<TileDisplay>,
    list: Seq<Cell>,
    skip: Option<Cell>,
) -> bool {
    forall|p: Cell|
        (#[trigger] shows(d, p, TileDisplay::Revealed) && shows(d0, p, TileDisplay::Hidden)
            && is_blank(g, p) && Some(p) != skip) ==> list.contains(p) || expanded(d0, d, p, 8)
}

/// What holds while the cascade from `s` runs.
spec fn flooding(
    g: Grid<Tile>,
    d0: Grid<TileDisplay>,
    d: Grid<TileDisplay>,
    s: Cell,
    list: Seq<Cell>,
    skip: Option<Cell>,
    w: nat,
    h: nat,
) -> bool {
    &&& rectangular(g, w, h)
    &&& rectangular(d0, w, h)
    &&& rectangular(d, w, h)
    &&& shows(d0, s, TileDisplay::Hidden)
    &&& shows(d, s, TileDisplay::Revealed)
    &&& sound(g, d0, d, s)
    &&& listed(g, d0, d, s, list)
    &&& closed_under(g, d0, d, list, skip)
}

proof fn lemma_flood_start(g: Grid<Tile>, d0: Grid<TileDisplay>, s: Cell, w: nat, h: nat)
    requires
        rectangular(g, w, h),
        rectangular(d0, w, h),
        shows(d0, s, TileDisplay::Hidden),
    ensures
        flooding(g, d0, put(d0, s, TileDisplay::Revealed), s, seq![s], None, w, h),
{
    let list = seq![s];
    lemma_cascades_self(g, d0, s);
    assert(list[0] == s);
}

/// Taking the last cell off the list leaves it as the one cell whose
/// neighbours are still to be seen to.
proof fn lemma_flood_take(
    g: Grid<Tile>,
    d0: Grid<TileDisplay>,
    d: Grid<TileDisplay>,
    s: Cell,
    list: Seq<Cell>,
    w: nat,
    h: nat,
)
    requires
        flooding(g, d0, d, s, list, None, w, h),
        list.len() > 0,
    ensures
        flooding(g, d0, d, s, list.drop_last(), Some(list.last()), w, h),
        expanded(d0, d, list.last(), 0),
        shows(d, list.last(), TileDisplay::Revealed),
        cascades(g, d0, s, list.last()),
{
    let rest = list.drop_last();
    let p = list.last();
    assert forall|q: Cell|
        (#[trigger] shows(d, q, TileDisplay::Revealed) && shows(d0, q, TileDisplay::Hidden)
            && is_blank(g, q) && Some(q) != Some(p)) implies rest.contains(q) || expanded(
        d0,
        d,
        q,
        8,
    ) by {
        if list.contains(q) {
            let i = choose|i: int| 0 <= i < list.len() && list[i] == q;
            assert(rest[i] == q);
        }
    }
}

/// Revealing a hidden neighbour of a blank cell that the cascade has
/// revealed, and putting it on the list, keeps the cascade in order.
proof fn lemma_flood_reveal(
    g: Grid<Tile>,
    d0: Grid<TileDisplay>,
    d: Grid<TileDisplay>,
    s: Cell,
    list: Seq<Cell>,
    p: Cell,
    k: int,
    w: nat,
    h: nat,
)
    requires
        flooding(g, d0, d, s, list, Some(p), w, h),
        expanded(d0, d, p, k),
        0 <= k < 8,
        cascades(g, d0, s, p),
        is_blank(g, p),
        shows(d, neighbor(p, k), TileDisplay::Hidden),
    ensures
        flooding(
            g,
            d0,
            put(d, neighbor(p, k), TileDisplay::Revealed),
            s,
            list.push(neighbor(p, k)),
            Some(p),
            w,
            h,
        ),
        expanded(d0, put(d, neighbor(p, k), TileDisplay::Revealed), p, k + 1),
{
    let n = neighbor(p, k);
    let d1 = put(d, n, TileDisplay::Revealed);
    let list1 = list.push(n);
    assert(inside(d0, n));
    lemma_cascades_step(g, d0, s, p, n);
    assert forall|q: Cell|
        (#[trigger] shows(d1, q, TileDisplay::Revealed) && shows(d0, q, TileDisplay::Hidden)
            && is_blank(g, q) && Some(q) != Some(p)) implies list1.contains(q) || expanded(
        d0,
        d1,
        q,
        8,
    ) by {
        if q == n {
            assert(list1[list.len() as int] == q);
        } else {
            assert(shows(d, q, TileDisplay::Revealed));
            if list.contains(q) {
                let i = choose|i: int| 0 <= i < list.len() && list[i] == q;
                assert(list1[i] == q);
            }
        }
    }
}

/// Along the path of a cascade every cell is revealed, once no cell is
/// left to look at.
proof fn lemma_path_revealed(
    g: Grid<Tile>,
    d0: Grid<TileDisplay>,
    d: Grid<TileDisplay>,
    s: Cell,
    p: Seq<Cell>,
    i: int,
    w: nat,
    h: nat,
)
    requires
        flooding(g, d0, d, s, Seq::empty(), None, w, h),
        cascade_path(g, d0, p),
        p[0] == s,
        0 <= i < p.len(),
    ensures
        shows(d, p[i], TileDisplay::Revealed),
    decreases i,
{
    if i > 0 {
        lemma_path_revealed(g, d0, d, s, p, i - 1, w, h);
        let a = p[i - 1];
        let b = p[i];
        lemma_adjacent_is_neighbor(a, b);
    }
}

/// Once no cell is left to look at, the cascade has revealed what it uncovers.
proof fn lemma_flood_done(
    g: Grid<Tile>,
    d0: Grid<TileDisplay>,
    d: Grid<TileDisplay>,
    s: Cell,
    w: nat,
    h: nat,
)
    requires
        flooding(g, d0, d, s, Seq::empty(), None, w, h),
    ensures
        d == flooded(g, d0, s),
{
    let f = flooded(g, d0, s);
    assert forall|x: int, y: int| 0 <= x < w && 0 <= y < h implies d[x][y] == f[x][y] by {
        let t: Cell = (x, y);
        assert(inside(d0, t));
        if cascades(g, d0, s, t) {
            let p = choose|p: Seq<Cell>| #[trigger]
                cascade_path(g, d0, p) && p[0] == s && p[p.len() - 1] == t;
            lemma_path_revealed(g, d0, d, s, p, p.len() - 1, w, h);
        }
    }
    assert forall|x: int| 0 <= x < w implies d[x] =~= f[x] by {}
}

/// Reveals the hidden cell in column `x`, row `y`, and all that it uncovers.
pub fn flood(
    tiles: &Vec<Vec<Tile>>,
    display: &mut Vec<Vec<TileDisplay>>,
    width: usize,
    height: usize,
    x: usize,
    y: usize,
)
    requires
        rectangular(grid_of(tiles@), width as nat, height as nat),
        rectangular(grid_of(old(display)@), width as nat, height as nat),
        x < width,
        y < height,
        shows(grid_of(old(display)@), cell(x, y), TileDisplay::Hidden),
    ensures
        rectangular(grid_of(final(display)@), width as nat, height as nat),
        grid_of(final(display)@) == flooded(grid_of(tiles@), grid_of(old(display)@), cell(x, y)),
{
    let ghost g = grid_of(tiles@);
    let ghost d0 = grid_of(display@);
    let ghost s = cell(x, y);
    let ghost w = width as nat;
    let ghost h = height as nat;
    set_cell(display, x, y, TileDisplay::Revealed);
    // The cells that are revealed but whose neighbours have not been seen to.
    let mut pending: Vec<(usize, usize)> = Vec::new();
    pending.push((x, y));
    proof {
        lemma_flood_start(g, d0, s, w, h);
        assert(cells_of(pending@) =~= seq![s]);
    }
    while pending.len() > 0
        invariant
            g == grid_of(tiles@),
            w == width,
            h == height,
            flooding(g, d0, grid_of(display@), s, cells_of(pending@), None, w, h),
            forall|i: int|
                0 <= i < pending.len() ==> (#[trigger] pending[i]).0 < width && pending[i].1
                    < height,
        decreases hidden_cells(grid_of(display@)).len(), pending.len(),
    {
        let ghost list = cells_of(pending@);
        let ghost d_start = grid_of(display@);
        let ghost len_start = pending.len();
        let (px, py) = pending.pop().unwrap();
        let ghost p = cell(px, py);
        proof {
            assert(cells_of(pending@) =~= list.drop_last());
            lemma_flood_take(g, d0, d_start, s, list, w, h);
        }
        if get_cell(tiles, px, py) == Tile::Safe(Digit::Zero) {
            let mut k: usize = 0;
            while k < 8
                invariant
                    k <= 8,
                    px < width,
                    py < height,
                    p == cell(px, py),
                    g == grid_of(tiles@),
                    w == width,
                    h == height,
                    is_blank(g, p),
                    cascades(g, d0, s, p),
                    flooding(g, d0, grid_of(display@), s, cells_of(pending@), Some(p), w, h),
                    expanded(d0, grid_of(display@), p, k as int),
                    forall|i: int|
                        0 <= i < pending.len() ==> (#[trigger] pending[i]).0 < width
                            && pending[i].1 < height,
                    hidden_cells(grid_of(display@)).len() <= hidden_cells(d_start).len(),
                    hidden_cells(grid_of(display@)).len() == hidden_cells(d_start).len()
                        ==> pending.len() == len_start - 1,
                decreases 8 - k,
            {
                let ghost d = grid_of(display@);
                let ghost list_now = cells_of(pending@);
                match neighbor_of(px, py, k, width, height) {
                    Some((nx, ny)) => {
                        if get_cell(display, nx, ny) == TileDisplay::Hidden {
                            set_cell(display, nx, ny, TileDisplay::Revealed);
                            pending.push((nx, ny));
                            proof {
                                lemma_flood_reveal(g, d0, d, s, list_now, p, k as int, w, h);
                                assert(cells_of(pending@) =~= list_now.push(neighbor(p, k as int)));
                                lemma_hidden_removed(d, grid_of(display@), cell(nx, ny), w, h);
                            }
                        }
                    },
                    None => {},
                }
                k += 1;
            }
        }
    }
    proof {
        lemma_flood_done(g, d0, grid_of(display@), s, w, h);
    }
}

} // verus!
