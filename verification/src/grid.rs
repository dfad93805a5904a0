//! The mathematical model that the contracts speak of: cells, grids of
//! tiles and of display states, neighbours, and sets of cells.

use vstd::prelude::*;
use vstd::set_lib::*;
use crate::tile::{Digit, Tile, TileDisplay};

verus! {

/// A cell by its column `x` and its row `y`.
pub type Cell = (int, int);

/// A grid as a sequence of columns: `g[x][y]` is the cell in column `x`, row `y`.
pub type Grid<T> = Seq<Seq<T>>;

/// The cell with the executable coordinates `x` and `y`.
pub open spec fn cell(x: usize, y: usize) -> Cell {
    (x as int, y as int)
}

/// Whether `c` lies on a board of `w` columns and `h` rows.
pub open spec fn in_grid(c: Cell, w: nat, h: nat) -> bool {
    0 <= c.0 < w && 0 <= c.1 < h
}

/// Whether `g` has `w` columns of `h` cells each.
pub open spec fn rectangular<T>(g: Grid<T>, w: nat, h: nat) -> bool {
    &&& g.len() == w
    &&& forall|x: int| 0 <= x < w ==> (#[trigger] g[x]).len() == h
}

/// Whether `c` is a cell of `g`.
pub open spec fn inside<T>(g: Grid<T>, c: Cell) -> bool {
    0 <= c.0 < g.len() && 0 <= c.1 < g[c.0].len()
}

/// The grid that the columns `v` stand for.
pub open spec fn grid_of<T>(v: Seq<Vec<T>>) -> Grid<T> {
    Seq::new(v.len(), |x: int| v[x]@)
}

/// `g` with the cell `c` replaced by `t`.
pub open spec fn put<T>(g: Grid<T>, c: Cell, t: T) -> Grid<T> {
    g.update(c.0, g[c.0].update(c.1, t))
}

/// Whether `c` is a cell of `g` that holds a mine.
pub open spec fn is_mine(g: Grid<Tile>, c: Cell) -> bool {
    inside(g, c) && g[c.0][c.1] is Mine
}

/// Whether `c` is a cell of `g` with no mine around it.
pub open spec fn is_blank(g: Grid<Tile>, c: Cell) -> bool {
    inside(g, c) && g[c.0][c.1] == Tile::Safe(Digit::Zero)
}

/// Whether `c` is a cell of `d` in the display state `s`.
pub open spec fn shows(d: Grid<TileDisplay>, c: Cell, s: TileDisplay) -> bool {
    inside(d, c) && d[c.0][c.1] == s
}

/// The step from a cell to its `k`-th neighbour, for `k` from 0 to 7, in
/// the order in which a chord visits them.
pub open spec fn offset(k: int) -> Cell {
    if k == 0 {
        (-1, 0)
    } else if k == 1 {
        (-1, 1)
    } else if k == 2 {
        (-1, -1)
    } else if k == 3 {
        (1, 0)
    } else if k == 4 {
        (1, 1)
    } else if k == 5 {
        (1, -1)
    } else if k == 6 {
        (0, 1)
    } else {
        (0, -1)
    }
}

/// The `k`-th neighbour of `c`.
pub open spec fn neighbor(c: Cell, k: int) -> Cell {
    (c.0 + offset(k).0, c.1 + offset(k).1)
}

/// Whether `b` is `a` or one of the eight cells around it.
pub open spec fn near(a: Cell, b: Cell) -> bool {
    -1 <= b.0 - a.0 <= 1 && -1 <= b.1 - a.1 <= 1
}

/// Whether `b` is one of the eight cells around `a`.
pub open spec fn adjacent(a: Cell, b: Cell) -> bool {
    near(a, b) && a != b
}

/// Whether `b` is at least two columns and at least two rows away from `a`.
pub open spec fn far(a: Cell, b: Cell) -> bool {
    (b.0 - a.0 >= 2 || a.0 - b.0 >= 2) && (b.1 - a.1 >= 2 || a.1 - b.1 >= 2)
}

/// 1 if `c` holds a mine, else 0.
pub open spec fn mine_at(g: Grid<Tile>, c: Cell) -> nat {
    if is_mine(g, c) {
        1
    } else {
        0
    }
}

/// The number of mines among the up to eight cells around `c`.
#[verifier::opaque]
pub open spec fn adjacent_mines(g: Grid<Tile>, c: Cell) -> nat {
    mine_at(g, neighbor(c, 0)) + mine_at(g, neighbor(c, 1)) + mine_at(g, neighbor(c, 2)) + mine_at(
        g,
        neighbor(c, 3),
    ) + mine_at(g, neighbor(c, 4)) + mine_at(g, neighbor(c, 5)) + mine_at(g, neighbor(c, 6))
        + mine_at(g, neighbor(c, 7))
}

/// 1 if `c` carries a flag, else 0.
pub open spec fn flag_at(d: Grid<TileDisplay>, c: Cell) -> nat {
    if shows(d, c, TileDisplay::Flag) {
        1
    } else {
        0
    }
}

/// The number of flags among the up to eight cells around `c`.
#[verifier::opaque]
pub open spec fn adjacent_flags(d: Grid<TileDisplay>, c: Cell) -> nat {
    flag_at(d, neighbor(c, 0)) + flag_at(d, neighbor(c, 1)) + flag_at(d, neighbor(c, 2)) + flag_at(
        d,
        neighbor(c, 3),
    ) + flag_at(d, neighbor(c, 4)) + flag_at(d, neighbor(c, 5)) + flag_at(d, neighbor(c, 6))
        + flag_at(d, neighbor(c, 7))
}

/// Whether every safe cell of `g` holds the number of mines around it.
pub open spec fn digits_match(g: Grid<Tile>) -> bool {
    forall|c: Cell| #[trigger]
        inside(g, c) ==> (g[c.0][c.1] matches Tile::Safe(d) ==> d.value() == adjacent_mines(g, c))
}

/// The cells of a board of `w` columns and `h` rows.
pub open spec fn grid_cells(w: nat, h: nat) -> Set<Cell> {
    Set::new(|c: Cell| in_grid(c, w, h))
}

/// The cells of `g` that hold a mine.
pub open spec fn mine_cells(g: Grid<Tile>) -> Set<Cell> {
    Set::new(|c: Cell| is_mine(g, c))
}

/// The number of mines in `g`.
pub open spec fn mine_count(g: Grid<Tile>) -> nat {
    mine_cells(g).len()
}

/// The cells of `d` that are still hidden.
pub open spec fn hidden_cells(d: Grid<TileDisplay>) -> Set<Cell> {
    Set::new(|c: Cell| shows(d, c, TileDisplay::Hidden))
}

/// The cells of row 0 to `h - 1` in column `x`.
spec fn column_cells(x: int, h: nat) -> Set<Cell> {
    Set::new(|c: Cell| c.0 == x && 0 <= c.1 < h)
}

proof fn lemma_column_cells(x: int, h: nat)
    ensures
        column_cells(x, h).finite(),
        column_cells(x, h).len() == h,
    decreases h,
{
    if h == 0 {
        assert(column_cells(x, h) =~= Set::empty());
    } else {
        lemma_column_cells(x, (h - 1) as nat);
        assert(column_cells(x, h) =~= column_cells(x, (h - 1) as nat).insert((x, h - 1)));
    }
}

/// A board of `w` columns and `h` rows has `w * h` cells.
pub proof fn lemma_grid_cells(w: nat, h: nat)
    ensures
        grid_cells(w, h).finite(),
        grid_cells(w, h).len() == w * h,
    decreases w,
{
    if w == 0 {
        assert(grid_cells(w, h) =~= Set::empty());
    } else {
        let rest = grid_cells((w - 1) as nat, h);
        let last = column_cells(w - 1, h);
        lemma_grid_cells((w - 1) as nat, h);
        lemma_column_cells(w - 1, h);
        assert(grid_cells(w, h) =~= rest + last);
        lemma_set_disjoint_lens(rest, last);
        assert(w * h == (w - 1) * h + h) by (nonlinear_arith);
    }
}

/// The mines of a rectangular grid are finitely many, at most one per cell.
pub proof fn lemma_mine_cells_finite(g: Grid<Tile>, w: nat, h: nat)
    requires
        rectangular(g, w, h),
    ensures
        mine_cells(g).finite(),
        mine_count(g) <= w * h,
{
    lemma_grid_cells(w, h);
    lemma_len_subset(mine_cells(g), grid_cells(w, h));
}

/// A grid whose every cell holds a mine has as many mines as cells.
pub proof fn lemma_all_mines(g: Grid<Tile>, w: nat, h: nat)
    requires
        rectangular(g, w, h),
        forall|c: Cell| in_grid(c, w, h) ==> #[trigger] is_mine(g, c),
    ensures
        mine_count(g) == w * h,
{
    lemma_grid_cells(w, h);
    assert(mine_cells(g) =~= grid_cells(w, h));
}

/// A grid without a mine has a mine count of 0.
pub proof fn lemma_no_mines(g: Grid<Tile>)
    requires
        forall|c: Cell| !#[trigger] is_mine(g, c),
    ensures
        mine_count(g) == 0,
{
    assert(mine_cells(g) =~= Set::empty());
}

/// Laying a mine on a safe cell adds one to the mine count.
pub proof fn lemma_mine_added(g: Grid<Tile>, after: Grid<Tile>, c: Cell, w: nat, h: nat)
    requires
        rectangular(g, w, h),
        in_grid(c, w, h),
        !is_mine(g, c),
        after == put(g, c, Tile::Mine),
    ensures
        rectangular(after, w, h),
        mine_cells(after) == mine_cells(g).insert(c),
        mine_count(after) == mine_count(g) + 1,
{
    lemma_mine_cells_finite(g, w, h);
    assert(mine_cells(after) =~= mine_cells(g).insert(c));
}

/// Making a mined cell safe takes one from the mine count.
pub proof fn lemma_mine_removed(g: Grid<Tile>, after: Grid<Tile>, c: Cell, t: Tile, w: nat, h: nat)
    requires
        rectangular(g, w, h),
        in_grid(c, w, h),
        is_mine(g, c),
        t is Safe,
        after == put(g, c, t),
    ensures
        rectangular(after, w, h),
        mine_cells(after) == mine_cells(g).remove(c),
        mine_count(after) + 1 == mine_count(g),
{
    lemma_mine_cells_finite(g, w, h);
    assert(mine_cells(after) =~= mine_cells(g).remove(c));
}

/// Two grids with the same mines have the same mine count and the same
/// number of mines around every cell.
pub proof fn lemma_same_mines(g: Grid<Tile>, after: Grid<Tile>)
    requires
        forall|c: Cell| is_mine(g, c) == is_mine(after, c),
    ensures
        mine_cells(g) == mine_cells(after),
        mine_count(g) == mine_count(after),
        forall|c: Cell| #[trigger] adjacent_mines(g, c) == adjacent_mines(after, c),
{
    reveal(adjacent_mines);
    assert(mine_cells(g) =~= mine_cells(after));
}

/// A safe cell with no mine on any cell near it is blank.
pub proof fn lemma_no_mines_around(g: Grid<Tile>, c: Cell)
    requires
        digits_match(g),
        inside(g, c),
        forall|t: Cell| near(c, t) ==> !#[trigger] is_mine(g, t),
    ensures
        is_blank(g, c),
{
    reveal(adjacent_mines);
    assert(!is_mine(g, c));
    assert forall|k: int| 0 <= k < 8 implies mine_at(g, #[trigger] neighbor(c, k)) == 0 by {
        assert(near(c, neighbor(c, k)));
        assert(!is_mine(g, neighbor(c, k)));
    }
    assert(adjacent_mines(g, c) == 0);
}

/// No cell has more than eight mines around it.
pub proof fn lemma_adjacent_mines_bound(g: Grid<Tile>, c: Cell)
    ensures
        adjacent_mines(g, c) <= 8,
{
    reveal(adjacent_mines);
}

/// The hidden cells of a rectangular grid are finitely many.
pub proof fn lemma_hidden_cells_finite(d: Grid<TileDisplay>, w: nat, h: nat)
    requires
        rectangular(d, w, h),
    ensures
        hidden_cells(d).finite(),
{
    lemma_grid_cells(w, h);
    lemma_len_subset(hidden_cells(d), grid_cells(w, h));
}

/// Revealing a hidden cell leaves one hidden cell less.
pub proof fn lemma_hidden_removed(
    d: Grid<TileDisplay>,
    after: Grid<TileDisplay>,
    c: Cell,
    w: nat,
    h: nat,
)
    requires
        rectangular(d, w, h),
        shows(d, c, TileDisplay::Hidden),
        after == put(d, c, TileDisplay::Revealed),
    ensures
        rectangular(after, w, h),
        hidden_cells(after).finite(),
        hidden_cells(after).len() + 1 == hidden_cells(d).len(),
{
    lemma_hidden_cells_finite(d, w, h);
    assert(hidden_cells(after) =~= hidden_cells(d).remove(c));
}

/// The cells around `a` are its eight neighbours.
pub proof fn lemma_adjacent_is_neighbor(a: Cell, b: Cell)
    ensures
        adjacent(a, b) <==> exists|k: int| 0 <= k < 8 && b == #[trigger] neighbor(a, k),
{
    if adjacent(a, b) {
        let dx = b.0 - a.0;
        let dy = b.1 - a.1;
        let k: int = if dx == -1 {
            if dy == 0 {
                0
            } else if dy == 1 {
                1
            } else {
                2
            }
        } else if dx == 1 {
            if dy == 0 {
                3
            } else if dy == 1 {
                4
            } else {
                5
            }
        } else if dy == 1 {
            6
        } else {
            7
        };
        assert(b == neighbor(a, k));
    }
    if exists|k: int| 0 <= k < 8 && b == #[trigger] neighbor(a, k) {
        let k = choose|k: int| 0 <= k < 8 && b == #[trigger] neighbor(a, k);
    }
}

} // verus!
