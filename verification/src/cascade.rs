//! What a reveal uncovers: the model of the cascade through blank cells,
//! and of a chord.

use vstd::prelude::*;
use crate::grid::{
    Cell, Grid, adjacent, adjacent_mines, digits_match, is_blank, is_mine, neighbor, put, shows,
};
use crate::tile::{Tile, TileDisplay};

verus! {

/// Whether a cascade can run along `p`: every cell of `p` is hidden, and
/// every cell but the last is blank and next to the cell that follows it.
pub open spec fn cascade_path(g: Grid<Tile>, d: Grid<TileDisplay>, p: Seq<Cell>) -> bool {
    &&& p.len() >= 1
    &&& forall|i: int| 0 <= i < p.len() ==> shows(d, #[trigger] p[i], TileDisplay::Hidden)
    &&& forall|i: int|
        0 <= i < p.len() - 1 ==> is_blank(g, #[trigger] p[i]) && adjacent(p[i], p[i + 1])
}

/// Whether revealing the hidden cell `from` uncovers `to`: `to` is `from`
/// itself, or a hidden cell that a chain of hidden blank cells, each next
/// to the one before, joins to `from`.
pub open spec fn cascades(g: Grid<Tile>, d: Grid<TileDisplay>, from: Cell, to: Cell) -> bool {
    exists|p: Seq<Cell>| #[trigger] cascade_path(g, d, p) && p[0] == from && p[p.len() - 1] == to
}

/// The display after the hidden cell `seed` has been revealed, with all
/// that this uncovers.
pub open spec fn flooded(g: Grid<Tile>, d: Grid<TileDisplay>, seed: Cell) -> Grid<TileDisplay> {
    Seq::new(
        d.len(),
        |x: int|
            Seq::new(
                d[x].len(),
                |y: int|
                    if cascades(g, d, seed, (x, y)) {
                        TileDisplay::Revealed
                    } else {
                        d[x][y]
                    },
            ),
    )
}

/// Whether the `k`-th neighbour of `c` is a hidden mine.
pub open spec fn hits_mine(g: Grid<Tile>, d: Grid<TileDisplay>, c: Cell, k: int) -> bool {
    shows(d, neighbor(c, k), TileDisplay::Hidden) && is_mine(g, neighbor(c, k))
}

/// Whether revealing one of the first `n` neighbours of `c` uncovers `t`.
pub open spec fn uncovered(g: Grid<Tile>, d: Grid<TileDisplay>, c: Cell, n: int, t: Cell) -> bool {
    exists|k: int| 0 <= k < n && #[trigger] cascades(g, d, neighbor(c, k), t)
}

/// The display after the first `n` neighbours of `c` have been revealed
/// where they were hidden, with all that this uncovers.
pub open spec fn opened(g: Grid<Tile>, d: Grid<TileDisplay>, c: Cell, n: int) -> Grid<
    TileDisplay,
> {
    Seq::new(
        d.len(),
        |x: int|
            Seq::new(
                d[x].len(),
                |y: int|
                    if uncovered(g, d, c, n, (x, y)) {
                        TileDisplay::Revealed
                    } else {
                        d[x][y]
                    },
            ),
    )
}

/// The display after a chord at `c`: each of the eight neighbours of `c`
/// that was hidden is revealed, with all that it uncovers.
pub open spec fn chorded(g: Grid<Tile>, d: Grid<TileDisplay>, c: Cell) -> Grid<TileDisplay> {
    opened(g, d, c, 8)
}

/// Whether a chord at `c` reveals a mine: one of the neighbours of `c` is
/// a hidden mine.
pub open spec fn chord_hits(g: Grid<Tile>, d: Grid<TileDisplay>, c: Cell) -> bool {
    exists|k: int| 0 <= k < 8 && #[trigger] hits_mine(g, d, c, k)
}

/// The display after the cell `c` has been revealed, whatever it showed
/// before: `c` is revealed, and if it is blank, so are its hidden
/// neighbours, with all that they uncover.
pub open spec fn revealed(g: Grid<Tile>, d: Grid<TileDisplay>, c: Cell) -> Grid<TileDisplay> {
    if is_blank(g, c) {
        chorded(g, put(d, c, TileDisplay::Revealed), c)
    } else {
        put(d, c, TileDisplay::Revealed)
    }
}

/// A hidden cell uncovers itself.
pub proof fn lemma_cascades_self(g: Grid<Tile>, d: Grid<TileDisplay>, s: Cell)
    requires
        shows(d, s, TileDisplay::Hidden),
    ensures
        cascades(g, d, s, s),
{
    let p = seq![s];
    assert(cascade_path(g, d, p));
}

/// A cascade that has come to a blank cell goes on to each hidden cell next to it.
pub proof fn lemma_cascades_step(g: Grid<Tile>, d: Grid<TileDisplay>, s: Cell, a: Cell, b: Cell)
    requires
        cascades(g, d, s, a),
        is_blank(g, a),
        adjacent(a, b),
        shows(d, b, TileDisplay::Hidden),
    ensures
        cascades(g, d, s, b),
{
    let p = choose|p: Seq<Cell>| #[trigger]
        cascade_path(g, d, p) && p[0] == s && p[p.len() - 1] == a;
    let q = p.push(b);
    assert(cascade_path(g, d, q));
}

/// From each cell on its path a cascade runs on to the end of the path.
pub proof fn lemma_path_tail(g: Grid<Tile>, d: Grid<TileDisplay>, p: Seq<Cell>, i: int)
    requires
        cascade_path(g, d, p),
        0 <= i < p.len(),
    ensures
        cascades(g, d, p[i], p[p.len() - 1]),
{
    let q = p.subrange(i, p.len() as int);
    assert(cascade_path(g, d, q));
}

/// What a cell uncovers that a cascade has uncovered, that cascade uncovers too.
pub proof fn lemma_cascades_join(g: Grid<Tile>, d: Grid<TileDisplay>, s: Cell, a: Cell, t: Cell)
    requires
        cascades(g, d, s, a),
        cascades(g, d, a, t),
    ensures
        cascades(g, d, s, t),
{
    let p = choose|p: Seq<Cell>| #[trigger]
        cascade_path(g, d, p) && p[0] == s && p[p.len() - 1] == a;
    let r = choose|r: Seq<Cell>| #[trigger]
        cascade_path(g, d, r) && r[0] == a && r[r.len() - 1] == t;
    let q = p + r.subrange(1, r.len() as int);
    assert(cascade_path(g, d, q));
}

/// No mine lies next to a blank cell.
pub proof fn lemma_blank_has_safe_neighbors(g: Grid<Tile>, a: Cell, b: Cell)
    requires
        digits_match(g),
        is_blank(g, a),
        adjacent(a, b),
    ensures
        !is_mine(g, b),
{
    reveal(adjacent_mines);
}

/// A cascade uncovers no mine but the one it may start on.
pub proof fn lemma_cascades_safe(g: Grid<Tile>, d: Grid<TileDisplay>, s: Cell, t: Cell)
    requires
        digits_match(g),
        cascades(g, d, s, t),
        t != s || !is_mine(g, s),
    ensures
        !is_mine(g, t),
{
    let p = choose|p: Seq<Cell>| #[trigger]
        cascade_path(g, d, p) && p[0] == s && p[p.len() - 1] == t;
    if p.len() > 1 {
        let i = p.len() - 2;
        assert(is_blank(g, p[i]) && adjacent(p[i], p[i + 1]));
        lemma_blank_has_safe_neighbors(g, p[i], t);
    }
}

/// Where fewer cells are hidden, a cascade uncovers no more.
pub proof fn lemma_cascades_shrink(
    g: Grid<Tile>,
    d: Grid<TileDisplay>,
    less: Grid<TileDisplay>,
    s: Cell,
    t: Cell,
)
    requires
        cascades(g, less, s, t),
        forall|c: Cell| #[trigger]
            shows(less, c, TileDisplay::Hidden) ==> shows(d, c, TileDisplay::Hidden),
    ensures
        cascades(g, d, s, t),
{
    let p = choose|p: Seq<Cell>| #[trigger]
        cascade_path(g, less, p) && p[0] == s && p[p.len() - 1] == t;
    assert(cascade_path(g, d, p));
}

} // verus!
