//! What follows from the contracts of the board, stated once and proved.

use vstd::prelude::*;
use crate::board::{BoardView, all_hidden, all_revealed};
use crate::cascade::{
    cascade_path, cascades, hits_mine, lemma_cascades_safe, lemma_cascades_self,
    lemma_cascades_step, lemma_blank_has_safe_neighbors, uncovered,
};
use crate::digits::with_digits;
use crate::grid::{
    Cell, Grid, adjacent, adjacent_mines, digits_match, far, in_grid, inside, is_blank, is_mine,
    lemma_adjacent_is_neighbor, lemma_adjacent_mines_bound, lemma_all_mines,
    lemma_no_mines_around, lemma_same_mines, mine_at, mine_count, near, neighbor, put,
    rectangular, shows,
};
use crate::placement::relocated;
use crate::tile::{Tile, TileDisplay};

verus! {

/// On every board, the digit of a safe cell is the number of its eight
/// neighbours, as far as the board has them, that hold a mine, and so
/// is never more than eight.
pub proof fn digits_count_the_mines_around(board: BoardView, c: Cell)
    requires
        board.wf(),
        board.has(c),
    ensures
        board.tile(c) matches Tile::Safe(d) ==> 0 <= d.value() <= 8 && d.value() == adjacent_mines(
            board.tiles,
            c,
        ),
        board.tile(c) matches Tile::Safe(d) ==> d.value() == mine_at(board.tiles, neighbor(c, 0))
            + mine_at(board.tiles, neighbor(c, 1)) + mine_at(board.tiles, neighbor(c, 2)) + mine_at(
            board.tiles,
            neighbor(c, 3),
        ) + mine_at(board.tiles, neighbor(c, 4)) + mine_at(board.tiles, neighbor(c, 5)) + mine_at(
            board.tiles,
            neighbor(c, 6),
        ) + mine_at(board.tiles, neighbor(c, 7)),
{
    reveal(adjacent_mines);
    assert(inside(board.tiles, c));
}

/// Counting the digits anew gives a grid whose digits are right, keeps
/// the mines, and changes nothing when it is done again; a grid whose
/// digits are right is left as it is.
pub proof fn counting_anew_settles(g: Grid<Tile>, w: nat, h: nat)
    requires
        rectangular(g, w, h),
    ensures
        rectangular(with_digits(g), w, h),
        digits_match(with_digits(g)),
        forall|c: Cell| is_mine(with_digits(g), c) == is_mine(g, c),
        with_digits(with_digits(g)) == with_digits(g),
        digits_match(g) ==> with_digits(g) == g,
{
    let once = with_digits(g);
    let twice = with_digits(once);
    assert forall|c: Cell| is_mine(once, c) == is_mine(g, c) by {
        assert(inside(once, c) == inside(g, c));
    }
    lemma_same_mines(g, once);
    assert forall|c: Cell| #[trigger] inside(once, c) implies (once[c.0][c.1] matches Tile::Safe(d)
        ==> d.value() == adjacent_mines(once, c)) by {
        lemma_adjacent_mines_bound(g, c);
    }
    assert forall|x: int| 0 <= x < w implies twice[x] =~= once[x] by {
        assert forall|y: int| 0 <= y < h implies twice[x][y] == once[x][y] by {
            assert(inside(once, (x, y)));
        }
    }
    assert(twice =~= once);
    if digits_match(g) {
        assert forall|x: int| 0 <= x < w implies once[x] =~= g[x] by {
            assert forall|y: int| 0 <= y < h implies once[x][y] == g[x][y] by {
                assert(inside(g, (x, y)));
                lemma_adjacent_mines_bound(g, (x, y));
            }
        }
        assert(once =~= g);
    }
}

/// The first reveal leaves no mine on the cell revealed nor on any cell
/// around it, and so never lands on a mine: the cell revealed is blank.
pub proof fn first_reveal_is_safe(
    before: Grid<Tile>,
    after: Grid<Tile>,
    center: Cell,
    w: nat,
    h: nat,
    c: Cell,
)
    requires
        relocated(before, after, center, w, h),
        in_grid(center, w, h),
        near(center, c),
    ensures
        !is_mine(after, c),
        inside(after, c) ==> after[c.0][c.1] is Safe,
        is_blank(after, center),
{
    assert(!is_mine(after, c));
    lemma_no_mines_around(after, center);
}

/// The first reveal never adds a mine, and it loses one only where every
/// cell far from the one revealed holds a mine already: one free cell
/// there, and the board has as many mines as before.
pub proof fn first_reveal_keeps_the_mines(
    before: Grid<Tile>,
    after: Grid<Tile>,
    center: Cell,
    w: nat,
    h: nat,
    free: Cell,
)
    requires
        relocated(before, after, center, w, h),
        in_grid(free, w, h),
        far(center, free),
        !is_mine(after, free),
    ensures
        mine_count(after) == mine_count(before),
{
}

/// A game is won as soon as every cell is revealed, and a board with a
/// safe cell is not won while every cell is hidden.
pub proof fn won_when_all_is_revealed(board: BoardView)
    requires
        board.wf(),
    ensures
        all_revealed(board.display) ==> board.won(),
        board.disclosed().won(),
        all_hidden(board.display) && mine_count(board.tiles) < board.width * board.height
            ==> !board.won(),
{
    if all_revealed(board.display) {
        assert forall|c: Cell| #[trigger] board.has(c) implies board.shown(c)
            == TileDisplay::Revealed by {
            assert(inside(board.display, c));
        }
    }
    if all_hidden(board.display) && mine_count(board.tiles) < board.width * board.height {
        if board.won() {
            assert forall|c: Cell|
                in_grid(c, board.width, board.height) implies #[trigger] is_mine(
                board.tiles,
                c,
            ) by {
                assert(board.has(c));
                assert(inside(board.display, c));
            }
            lemma_all_mines(board.tiles, board.width, board.height);
        }
    }
}

/// Once a game is won, making any safe cell show anything but its tile
/// undoes the win.
pub proof fn covering_a_safe_cell_undoes_the_win(board: BoardView, c: Cell, s: TileDisplay)
    requires
        board.wf(),
        board.won(),
        board.has(c),
        board.tile(c) is Safe,
        s != TileDisplay::Revealed,
    ensures
        !board.with_display(put(board.display, c, s)).won(),
{
    let after = board.with_display(put(board.display, c, s));
    assert(after.has(c));
}

/// Toggling runs through hidden, flag and question mark and comes back
/// after three steps; the fourth step is the first again. A revealed
/// cell stays revealed.
pub proof fn toggling_comes_round(d: TileDisplay)
    ensures
        d.toggled().toggled().toggled() == d,
        d.toggled().toggled().toggled().toggled() == d.toggled(),
        TileDisplay::Hidden.toggled().toggled().toggled().toggled() == TileDisplay::Flag,
        TileDisplay::Question.toggled().toggled().toggled().toggled() == TileDisplay::Hidden,
        d == TileDisplay::Revealed <==> d.toggled() == TileDisplay::Revealed,
{
}

/// Toggling a cell of a board three times leaves the board as it was,
/// and toggling a revealed cell changes nothing.
pub proof fn toggling_the_board_comes_round(board: BoardView, c: Cell)
    requires
        board.wf(),
        board.has(c),
    ensures
        board.toggled(c).toggled(c).toggled(c) == board,
        board.shown(c) == TileDisplay::Revealed ==> board.toggled(c) == board,
        forall|t: Cell| board.has(t) && t != c ==> board.toggled(c).shown(t) == board.shown(t),
        board.toggled(c).shown(c) == board.shown(c).toggled(),
{
    let one = board.toggled(c);
    let two = one.toggled(c);
    let three = two.toggled(c);
    assert(three.display[c.0] =~= board.display[c.0]);
    assert(three.display =~= board.display);
    if board.shown(c) == TileDisplay::Revealed {
        assert(one.display[c.0] =~= board.display[c.0]);
        assert(one.display =~= board.display);
    }
}

/// A chord reveals every hidden cell around the cell, and it says that
/// it hit a mine if and only if one of the cells that it revealed holds
/// a mine.
pub proof fn chord_hits_when_a_mine_is_revealed(board: BoardView, c: Cell)
    requires
        board.wf(),
        board.has(c),
    ensures
        forall|k: int|
            0 <= k < 8 && board.has(neighbor(c, k)) && board.shown(neighbor(c, k))
                == TileDisplay::Hidden ==> #[trigger] board.chorded(c).shown(neighbor(c, k))
                == TileDisplay::Revealed,
        board.chord_hits(c) <==> exists|t: Cell|
            #![trigger board.chorded(c).shown(t)]
            board.has(t) && board.shown(t) == TileDisplay::Hidden && board.chorded(c).shown(t)
                == TileDisplay::Revealed && board.tile(t) is Mine,
{
    let g = board.tiles;
    let d = board.display;
    assert forall|k: int|
        0 <= k < 8 && board.has(neighbor(c, k)) && board.shown(neighbor(c, k))
            == TileDisplay::Hidden implies #[trigger] board.chorded(c).shown(neighbor(c, k))
        == TileDisplay::Revealed by {
        lemma_cascades_self(g, d, neighbor(c, k));
        assert(uncovered(g, d, c, 8, neighbor(c, k)));
    }
    if board.chord_hits(c) {
        let k = choose|k: int| 0 <= k < 8 && #[trigger] hits_mine(g, d, c, k);
        let t = neighbor(c, k);
        lemma_cascades_self(g, d, t);
        assert(uncovered(g, d, c, 8, t));
        assert(board.has(t));
        assert(board.chorded(c).shown(t) == TileDisplay::Revealed);
    }
    if exists|t: Cell|
        #![trigger board.chorded(c).shown(t)]
        board.has(t) && board.shown(t) == TileDisplay::Hidden && board.chorded(c).shown(t)
            == TileDisplay::Revealed && board.tile(t) is Mine {
        let t = choose|t: Cell|
            #![trigger board.chorded(c).shown(t)]
            board.has(t) && board.shown(t) == TileDisplay::Hidden && board.chorded(c).shown(t)
                == TileDisplay::Revealed && board.tile(t) is Mine;
        assert(uncovered(g, d, c, 8, t));
        let k = choose|k: int| 0 <= k < 8 && #[trigger] cascades(g, d, neighbor(c, k), t);
        if t != neighbor(c, k) {
            lemma_cascades_safe(g, d, neighbor(c, k), t);
        }
        assert(hits_mine(g, d, c, k));
    }
}

/// Revealing a safe cell reveals no mine: every cell that it newly
/// reveals is safe.
pub proof fn revealing_a_safe_cell_reveals_no_mine(board: BoardView, c: Cell, t: Cell)
    requires
        board.wf(),
        board.has(c),
        board.tile(c) is Safe,
        board.has(t),
        board.revealed(c).shown(t) == TileDisplay::Revealed,
        board.shown(t) != TileDisplay::Revealed,
    ensures
        board.tile(t) is Safe,
{
    let g = board.tiles;
    let d1 = put(board.display, c, TileDisplay::Revealed);
    if t != c {
        let k = choose|k: int| 0 <= k < 8 && #[trigger] cascades(g, d1, neighbor(c, k), t);
        lemma_blank_has_safe_neighbors(g, c, neighbor(c, k));
        lemma_cascades_safe(g, d1, neighbor(c, k), t);
    }
}

/// Whether `q` runs from `c` through blank cells, each after the first
/// hidden and next to the one before.
pub open spec fn blank_path(g: Grid<Tile>, d: Grid<TileDisplay>, c: Cell, q: Seq<Cell>) -> bool {
    &&& q.len() >= 1
    &&& q[0] == c
    &&& forall|i: int| 0 <= i < q.len() ==> is_blank(g, #[trigger] q[i])
    &&& forall|i: int|
        1 <= i < q.len() ==> shows(d, #[trigger] q[i], TileDisplay::Hidden) && adjacent(
            q[i - 1],
            q[i],
        )
}

/// Whether `z` belongs to the region of blank cells around the blank
/// cell `c`: hidden blank cells, each next to the one before, join it to `c`.
pub open spec fn in_blank_region(g: Grid<Tile>, d: Grid<TileDisplay>, c: Cell, z: Cell) -> bool {
    exists|q: Seq<Cell>| #[trigger] blank_path(g, d, c, q) && q[q.len() - 1] == z
}

/// Whether `t` is a hidden cell of the region of blank cells around `c`
/// or of its border: it lies next to a cell of the region.
pub open spec fn in_blank_region_or_border(
    g: Grid<Tile>,
    d: Grid<TileDisplay>,
    c: Cell,
    t: Cell,
) -> bool {
    shows(d, t, TileDisplay::Hidden) && exists|z: Cell| #[trigger]
        in_blank_region(g, d, c, z) && adjacent(z, t)
}

/// Every hidden cell next to a cell of the blank region around `c` is
/// uncovered when the neighbours of `c` are revealed.
proof fn lemma_region_is_uncovered(
    g: Grid<Tile>,
    d: Grid<TileDisplay>,
    c: Cell,
    q: Seq<Cell>,
    t: Cell,
)
    requires
        inside(d, c),
        blank_path(g, d, c, q),
        adjacent(q[q.len() - 1], t),
        shows(d, t, TileDisplay::Hidden),
        t != c,
    ensures
        uncovered(g, put(d, c, TileDisplay::Revealed), c, 8, t),
    decreases q.len(),
{
    let d1 = put(d, c, TileDisplay::Revealed);
    let z = q[q.len() - 1];
    if z == c {
        lemma_adjacent_is_neighbor(c, t);
        let k = choose|k: int| 0 <= k < 8 && t == #[trigger] neighbor(c, k);
        lemma_cascades_self(g, d1, t);
    } else {
        let rest = q.drop_last();
        lemma_region_is_uncovered(g, d, c, rest, z);
        let k = choose|k: int| 0 <= k < 8 && #[trigger] cascades(g, d1, neighbor(c, k), z);
        lemma_cascades_step(g, d1, neighbor(c, k), z, t);
    }
}

/// Every cell along a cascade that starts next to `c` lies next to a
/// cell of the blank region around `c`.
proof fn lemma_uncovered_is_region(
    g: Grid<Tile>,
    d: Grid<TileDisplay>,
    c: Cell,
    p: Seq<Cell>,
    i: int,
)
    requires
        is_blank(g, c),
        inside(d, c),
        cascade_path(g, put(d, c, TileDisplay::Revealed), p),
        adjacent(c, p[0]),
        0 <= i < p.len(),
    ensures
        in_blank_region_or_border(g, d, c, p[i]),
        i < p.len() - 1 ==> in_blank_region(g, d, c, p[i]),
    decreases i,
{
    let z: Cell = if i == 0 {
        c
    } else {
        p[i - 1]
    };
    if i == 0 {
        let q = seq![c];
        assert(blank_path(g, d, c, q));
        assert(in_blank_region(g, d, c, c));
    } else {
        lemma_uncovered_is_region(g, d, c, p, i - 1);
    }
    if i < p.len() - 1 {
        let q0 = choose|q: Seq<Cell>| #[trigger] blank_path(g, d, c, q) && q[q.len() - 1] == z;
        let q = q0.push(p[i]);
        assert(blank_path(g, d, c, q));
    }
}

/// Revealing a blank cell reveals the region of blank cells around it
/// and the border of that region, and no cell beyond: a cell is revealed
/// afterwards if and only if it was revealed before, or is the cell
/// itself, or was hidden and lies next to a cell of the region.
pub proof fn revealing_a_blank_cell_opens_its_region(board: BoardView, c: Cell, t: Cell)
    requires
        board.wf(),
        board.has(c),
        board.has(t),
        is_blank(board.tiles, c),
    ensures
        board.revealed(c).shown(t) == TileDisplay::Revealed <==> {
            ||| board.shown(t) == TileDisplay::Revealed
            ||| t == c
            ||| in_blank_region_or_border(board.tiles, board.display, c, t)
        },
        board.revealed(c).shown(t) != TileDisplay::Revealed ==> board.revealed(c).shown(t)
            == board.shown(t),
{
    let g = board.tiles;
    let d = board.display;
    let d1 = put(d, c, TileDisplay::Revealed);
    if t != c {
        if in_blank_region_or_border(g, d, c, t) {
            let z = choose|z: Cell| #[trigger] in_blank_region(g, d, c, z) && adjacent(z, t);
            let q = choose|q: Seq<Cell>| #[trigger] blank_path(g, d, c, q) && q[q.len() - 1] == z;
            lemma_region_is_uncovered(g, d, c, q, t);
        }
        if uncovered(g, d1, c, 8, t) {
            let k = choose|k: int| 0 <= k < 8 && #[trigger] cascades(g, d1, neighbor(c, k), t);
            let p = choose|p: Seq<Cell>| #[trigger]
                cascade_path(g, d1, p) && p[0] == neighbor(c, k) && p[p.len() - 1] == t;
            lemma_uncovered_is_region(g, d, c, p, p.len() - 1);
        }
    }
}

} // verus!
