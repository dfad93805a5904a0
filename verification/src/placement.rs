//! Laying mines at random, and moving them away from the first cell that
//! the player reveals.

use vstd::prelude::*;
use vstd::set_lib::{lemma_len_subset, lemma_set_empty_equivalency_len};
use crate::board::Board;
use crate::cells::{get_cell, set_cell};
use crate::grid::{
    Cell, Grid, cell, digits_match, far, grid_cells, grid_of, in_grid, inside, is_mine,
    lemma_grid_cells, lemma_mine_added, lemma_mine_removed, mine_count, near, put, rectangular,
};
use crate::random::RandomSource;
use crate::tile::{Digit, Tile};

verus! {

/// Whether a mine may be laid on `c`: anywhere on the board, or only far
/// from the cell to avoid.
pub open spec fn allowed(avoid: Option<Cell>, c: Cell) -> bool {
    match avoid {
        None => true,
        Some(a) => far(a, c),
    }
}

/// The cell to avoid, by its model.
pub open spec fn avoided(avoid: Option<(usize, usize)>) -> Option<Cell> {
    match avoid {
        None => None,
        Some((x, y)) => Some(cell(x, y)),
    }
}

/// Whether `after` is `before` with mines laid on some safe cells where
/// they are allowed, and nothing else changed.
pub open spec fn laid(before: Grid<Tile>, after: Grid<Tile>, avoid: Option<Cell>) -> bool {
    forall|c: Cell| #[trigger]
        inside(before, c) ==> {
            ||| after[c.0][c.1] == before[c.0][c.1]
            ||| (!is_mine(before, c) && is_mine(after, c) && allowed(avoid, c))
        }
}

/// Whether `after` is `before` with the mines on and around `center`
/// made blank, and nothing else changed.
pub open spec fn cleared(before: Grid<Tile>, after: Grid<Tile>, center: Cell) -> bool {
    forall|c: Cell| #[trigger]
        inside(before, c) ==> after[c.0][c.1] == (if near(center, c) && is_mine(before, c) {
            Tile::Safe(Digit::Zero)
        } else {
            before[c.0][c.1]
        })
}

/// What the first reveal, at `center`, may make of the mines: none is
/// left on or around `center`, the others stay, and the ones taken away
/// come back far from `center`, all of them unless every cell there
/// holds a mine already. The digits are counted anew.
pub open spec fn relocated(
    before: Grid<Tile>,
    after: Grid<Tile>,
    center: Cell,
    w: nat,
    h: nat,
) -> bool {
    &&& rectangular(after, w, h)
    &&& digits_match(after)
    &&& forall|c: Cell| near(center, c) ==> !#[trigger] is_mine(after, c)
    &&& forall|c: Cell| #[trigger] is_mine(before, c) && !near(center, c) ==> is_mine(after, c)
    &&& forall|c: Cell| #[trigger] is_mine(after, c) && !is_mine(before, c) ==> far(center, c)
    &&& mine_count(after) <= mine_count(before)
    &&& (mine_count(after) == mine_count(before) || forall|c: Cell|
        in_grid(c, w, h) && far(center, c) ==> #[trigger] is_mine(after, c))
}

/// Whether the coordinate `v` is at least two away from `center`, if there is one.
pub open spec fn clear_of(center: Option<usize>, v: usize) -> bool {
    match center {
        None => true,
        Some(c) => v + 2 <= c || c + 2 <= v,
    }
}

/// Draws a coordinate below `len` that is at least two away from
/// `center`: from the side before `center` or the side after it, by the
/// toss of a coin where both have room. Without a `center` every
/// coordinate below `len` can be drawn. `None` if no coordinate will do.
pub fn draw_coordinate(len: usize, center: Option<usize>, rng: &mut RandomSource) -> (v: Option<
    usize,
>)
    requires
        len >= 1,
        center matches Some(c) ==> c < len,
    ensures
        final(rng)@.continues(old(rng)@),
        v matches Some(r) ==> r < len && clear_of(center, r),
        v is None <==> forall|r: usize| r < len ==> !#[trigger] clear_of(center, r),
{
    match center {
        None => {
            Some(rng.pick(0, len))
        },
        Some(c) => {
            let before: bool = c >= 2;
            let after: bool = len - c > 2;
            if before && after {
                assert(clear_of(center, 0));
                if rng.pick(0, 2) == 0 {
                    Some(rng.pick(0, c - 1))
                } else {
                    Some(rng.pick(c + 2, len))
                }
            } else if before {
                assert(clear_of(center, 0));
                Some(rng.pick(0, c - 1))
            } else if after {
                assert(clear_of(center, (len - 1) as usize));
                Some(rng.pick(c + 2, len))
            } else {
                None
            }
        },
    }
}

/// Whether a mine may be laid on the cell in column `x`, row `y`.
pub fn may_lay(avoid: Option<(usize, usize)>, x: usize, y: usize) -> (b: bool)
    ensures
        b == allowed(avoided(avoid), cell(x, y)),
{
    match avoid {
        None => true,
        Some((ax, ay)) => {
            let off_x: bool = if x >= ax {
                x - ax >= 2
            } else {
                ax - x >= 2
            };
            let off_y: bool = if y >= ay {
                y - ay >= 2
            } else {
                ay - y >= 2
            };
            off_x && off_y
        },
    }
}

/// One more mine on the safe cell `c` keeps what has been laid so far in
/// order and adds one to the count.
proof fn lemma_lay_one(
    before: Grid<Tile>,
    now: Grid<Tile>,
    after: Grid<Tile>,
    avoid: Option<Cell>,
    c: Cell,
    w: nat,
    h: nat,
)
    requires
        rectangular(before, w, h),
        rectangular(now, w, h),
        laid(before, now, avoid),
        in_grid(c, w, h),
        !is_mine(now, c),
        allowed(avoid, c),
        after == put(now, c, Tile::Mine),
    ensures
        rectangular(after, w, h),
        laid(before, after, avoid),
        mine_count(after) == mine_count(now) + 1,
{
    lemma_mine_added(now, after, c, w, h);
}

/// Whether `c` comes before the cell in column `x`, row `y` when the
/// board is gone through column by column.
pub open spec fn comes_before(c: Cell, x: int, y: int) -> bool {
    c.0 < x || (c.0 == x && c.1 < y)
}

/// The free cells that come before the cell in column `x`, row `y`: the
/// cells of the board that are safe and where a mine is allowed.
pub open spec fn free_before(
    g: Grid<Tile>,
    avoid: Option<Cell>,
    w: nat,
    h: nat,
    x: int,
    y: int,
) -> Set<Cell> {
    Set::new(
        |c: Cell| in_grid(c, w, h) && allowed(avoid, c) && !is_mine(g, c) && comes_before(c, x, y),
    )
}

/// The free cells: the cells of the board that are safe and where a
/// mine is allowed.
pub open spec fn free_cells(g: Grid<Tile>, avoid: Option<Cell>, w: nat, h: nat) -> Set<Cell> {
    free_before(g, avoid, w, h, w as int, 0)
}

/// The free cells before any cell are finitely many, no more than the
/// board has cells.
proof fn lemma_free_finite(g: Grid<Tile>, avoid: Option<Cell>, w: nat, h: nat, x: int, y: int)
    ensures
        free_before(g, avoid, w, h, x, y).finite(),
        free_before(g, avoid, w, h, x, y).len() <= w * h,
{
    lemma_grid_cells(w, h);
    assert(free_before(g, avoid, w, h, x, y).subset_of(grid_cells(w, h)));
    lemma_len_subset(free_before(g, avoid, w, h, x, y), grid_cells(w, h));
}

/// Going one cell on takes that cell in, if it is free.
proof fn lemma_free_step(g: Grid<Tile>, avoid: Option<Cell>, w: nat, h: nat, x: int, y: int)
    requires
        0 <= x < w,
        0 <= y < h,
    ensures
        free_before(g, avoid, w, h, x, y + 1).len() == free_before(g, avoid, w, h, x, y).len() + (
        if allowed(avoid, (x, y)) && !is_mine(g, (x, y)) {
            1nat
        } else {
            0nat
        }),
{
    let c: Cell = (x, y);
    let here = free_before(g, avoid, w, h, x, y);
    let next = free_before(g, avoid, w, h, x, y + 1);
    lemma_free_finite(g, avoid, w, h, x, y);
    if allowed(avoid, c) && !is_mine(g, c) {
        assert(next =~= here.insert(c));
    } else {
        assert(next =~= here);
    }
}

/// The end of a column is the start of the next.
proof fn lemma_free_column(g: Grid<Tile>, avoid: Option<Cell>, w: nat, h: nat, x: int)
    ensures
        free_before(g, avoid, w, h, x, h as int) == free_before(g, avoid, w, h, x + 1, 0),
        free_before(g, avoid, w, h, 0, 0).len() == 0,
{
    assert(free_before(g, avoid, w, h, x, h as int) =~= free_before(g, avoid, w, h, x + 1, 0));
    assert(free_before(g, avoid, w, h, 0, 0) =~= Set::empty());
}

/// A mine on a free cell leaves one free cell less, and as many before
/// that cell as there were.
proof fn lemma_free_taken(
    g: Grid<Tile>,
    after: Grid<Tile>,
    avoid: Option<Cell>,
    c: Cell,
    w: nat,
    h: nat,
)
    requires
        rectangular(g, w, h),
        in_grid(c, w, h),
        allowed(avoid, c),
        !is_mine(g, c),
        after == put(g, c, Tile::Mine),
    ensures
        free_cells(after, avoid, w, h).len() + 1 == free_cells(g, avoid, w, h).len(),
{
    lemma_free_finite(g, avoid, w, h, w as int, 0);
    assert(free_cells(after, avoid, w, h) =~= free_cells(g, avoid, w, h).remove(c));
}

/// The number of free cells.
pub fn count_free(
    tiles: &Vec<Vec<Tile>>,
    width: usize,
    height: usize,
    avoid: Option<(usize, usize)>,
) -> (n: usize)
    requires
        width * height <= usize::MAX,
        rectangular(grid_of(tiles@), width as nat, height as nat),
    ensures
        n == free_cells(grid_of(tiles@), avoided(avoid), width as nat, height as nat).len(),
{
    let ghost g = grid_of(tiles@);
    let ghost a = avoided(avoid);
    let ghost w = width as nat;
    let ghost h = height as nat;
    let mut n: usize = 0;
    let mut x: usize = 0;
    proof {
        lemma_free_column(g, a, w, h, 0);
    }
    while x < width
        invariant
            x <= width,
            w == width,
            h == height,
            g == grid_of(tiles@),
            a == avoided(avoid),
            width * height <= usize::MAX,
            rectangular(g, w, h),
            n == free_before(g, a, w, h, x as int, 0).len(),
        decreases width - x,
    {
        let mut y: usize = 0;
        while y < height
            invariant
                x < width,
                y <= height,
                w == width,
                h == height,
                g == grid_of(tiles@),
                a == avoided(avoid),
                width * height <= usize::MAX,
                rectangular(g, w, h),
                n == free_before(g, a, w, h, x as int, y as int).len(),
            decreases height - y,
        {
            proof {
                lemma_free_step(g, a, w, h, x as int, y as int);
                lemma_free_finite(g, a, w, h, x as int, y + 1);
            }
            if may_lay(avoid, x, y) && get_cell(tiles, x, y) != Tile::Mine {
                n += 1;
            }
            y += 1;
        }
        proof {
            lemma_free_column(g, a, w, h, x as int);
        }
        x += 1;
    }
    n
}

/// Lays a mine on the free cell that has `k` free cells before it, and
/// says which cell that is; `None`, and no mine laid, if there are not
/// more than `k` free cells.
pub fn lay_nth(
    tiles: &mut Vec<Vec<Tile>>,
    width: usize,
    height: usize,
    avoid: Option<(usize, usize)>,
    k: usize,
) -> (at: Option<(usize, usize)>)
    requires
        rectangular(grid_of(old(tiles)@), width as nat, height as nat),
    ensures
        at is Some <==> k < free_cells(
            grid_of(old(tiles)@),
            avoided(avoid),
            width as nat,
            height as nat,
        ).len(),
        at is None ==> final(tiles)@ == old(tiles)@,
        at matches Some((x, y)) ==> {
            &&& x < width
            &&& y < height
            &&& allowed(avoided(avoid), cell(x, y))
            &&& !is_mine(grid_of(old(tiles)@), cell(x, y))
            &&& grid_of(final(tiles)@) == put(grid_of(old(tiles)@), cell(x, y), Tile::Mine)
            &&& free_before(
                grid_of(old(tiles)@),
                avoided(avoid),
                width as nat,
                height as nat,
                x as int,
                y as int,
            ).len() == k
        },
{
    let ghost g = grid_of(tiles@);
    let ghost a = avoided(avoid);
    let ghost w = width as nat;
    let ghost h = height as nat;
    let mut seen: usize = 0;
    let mut x: usize = 0;
    proof {
        lemma_free_column(g, a, w, h, 0);
    }
    while x < width
        invariant
            x <= width,
            w == width,
            h == height,
            a == avoided(avoid),
            tiles@ == old(tiles)@,
            g == grid_of(tiles@),
            rectangular(g, w, h),
            seen == free_before(g, a, w, h, x as int, 0).len(),
            seen <= k,
        decreases width - x,
    {
        let mut y: usize = 0;
        while y < height
            invariant
                x < width,
                y <= height,
                w == width,
                h == height,
                a == avoided(avoid),
                tiles@ == old(tiles)@,
                g == grid_of(tiles@),
                rectangular(g, w, h),
                seen == free_before(g, a, w, h, x as int, y as int).len(),
                seen <= k,
            decreases height - y,
        {
            proof {
                lemma_free_step(g, a, w, h, x as int, y as int);
            }
            if may_lay(avoid, x, y) && get_cell(tiles, x, y) != Tile::Mine {
                if seen == k {
                    set_cell(tiles, x, y, Tile::Mine);
                    proof {
                        lemma_free_finite(g, a, w, h, x as int, y + 1);
                        lemma_free_finite(g, a, w, h, w as int, 0);
                        assert(free_before(g, a, w, h, x as int, y + 1).subset_of(
                            free_cells(g, a, w, h),
                        ));
                        lemma_len_subset(
                            free_before(g, a, w, h, x as int, y + 1),
                            free_cells(g, a, w, h),
                        );
                    }
                    return Some((x, y));
                }
                seen += 1;
            }
            y += 1;
        }
        proof {
            lemma_free_column(g, a, w, h, x as int);
        }
        x += 1;
    }
    None
}

/// Lays up to `count` mines on free cells, and says how many it laid.
/// Cells are drawn at random, and a draw that hits a mine is made
/// again. After as many draws in a row have hit a mine as the board has
/// cells, each mine still to lay goes to a free cell that is drawn by
/// its number among the free cells, until no free cell is left.
pub fn place_mines(
    tiles: &mut Vec<Vec<Tile>>,
    width: usize,
    height: usize,
    count: usize,
    avoid: Option<(usize, usize)>,
    rng: &mut RandomSource,
) -> (placed: usize)
    requires
        width * height <= usize::MAX,
        rectangular(grid_of(old(tiles)@), width as nat, height as nat),
        avoid matches Some((x, y)) ==> x < width && y < height,
    ensures
        final(rng)@.continues(old(rng)@),
        rectangular(grid_of(final(tiles)@), width as nat, height as nat),
        laid(grid_of(old(tiles)@), grid_of(final(tiles)@), avoided(avoid)),
        mine_count(grid_of(final(tiles)@)) == mine_count(grid_of(old(tiles)@)) + placed,
        placed <= count,
        placed == count || forall|c: Cell|
            in_grid(c, width as nat, height as nat) && allowed(avoided(avoid), c)
                ==> #[trigger] is_mine(grid_of(final(tiles)@), c),
{
    let ghost before = grid_of(tiles@);
    let ghost a = avoided(avoid);
    let ghost w = width as nat;
    let ghost h = height as nat;
    let limit: usize = width * height;
    let center_x: Option<usize> = match avoid {
        None => None,
        Some((x, _)) => Some(x),
    };
    let center_y: Option<usize> = match avoid {
        None => None,
        Some((_, y)) => Some(y),
    };
    let mut placed: usize = 0;
    let mut misses: usize = 0;
    while placed < count && misses < limit
        invariant
            rng@.continues(old(rng)@),
            a == avoided(avoid),
            w == width,
            h == height,
            limit == width * height,
            placed <= count,
            misses <= limit,
            center_x matches Some(x) ==> x < width,
            center_y matches Some(y) ==> y < height,
            avoid is None ==> center_x is None && center_y is None,
            avoid matches Some((x, y)) ==> center_x == Some(x) && center_y == Some(y),
            rectangular(before, width as nat, height as nat),
            rectangular(grid_of(tiles@), width as nat, height as nat),
            laid(before, grid_of(tiles@), avoided(avoid)),
            mine_count(grid_of(tiles@)) == mine_count(before) + placed,
        decreases count - placed, limit - misses,
    {
        assert(width >= 1 && height >= 1) by (nonlinear_arith)
            requires
                0 < width * height,
        ;
        let drawn: Option<(usize, usize)> = match draw_coordinate(width, center_x, rng) {
            None => None,
            Some(x) => match draw_coordinate(height, center_y, rng) {
                None => None,
                Some(y) => Some((x, y)),
            },
        };
        match drawn {
            Some((x, y)) => {
                if get_cell(tiles, x, y) == Tile::Mine {
                    misses += 1;
                } else {
                    let ghost now = grid_of(tiles@);
                    set_cell(tiles, x, y, Tile::Mine);
                    proof {
                        lemma_lay_one(before, now, grid_of(tiles@), a, cell(x, y), w, h);
                    }
                    placed += 1;
                    misses = 0;
                }
            },
            None => {
                // No cell is far enough from the one to avoid: give up drawing.
                misses = limit;
            },
        }
    }
    if placed < count {
        // Too many draws have hit a mine: draw among the free cells only.
        let mut free: usize = count_free(tiles, width, height, avoid);
        while placed < count && free > 0
            invariant
                rng@.continues(old(rng)@),
                a == avoided(avoid),
                w == width,
                h == height,
                placed <= count,
                rectangular(before, w, h),
                rectangular(grid_of(tiles@), w, h),
                laid(before, grid_of(tiles@), a),
                mine_count(grid_of(tiles@)) == mine_count(before) + placed,
                free == free_cells(grid_of(tiles@), a, w, h).len(),
            decreases free,
        {
            let ghost now = grid_of(tiles@);
            let k: usize = rng.pick(0, free);
            match lay_nth(tiles, width, height, avoid, k) {
                Some((x, y)) => {
                    proof {
                        lemma_lay_one(before, now, grid_of(tiles@), a, cell(x, y), w, h);
                        lemma_free_taken(now, grid_of(tiles@), a, cell(x, y), w, h);
                    }
                    placed += 1;
                    free -= 1;
                },
                // There is none: `k` is less than the number of free cells.
                None => {},
            }
        }
        proof {
            if placed < count {
                let left = free_cells(grid_of(tiles@), a, w, h);
                lemma_free_finite(grid_of(tiles@), a, w, h, w as int, 0);
                lemma_set_empty_equivalency_len(left);
                assert forall|c: Cell| in_grid(c, w, h) && allowed(a, c) implies #[trigger] is_mine(
                    grid_of(tiles@),
                    c,
                ) by {
                    assert(!left.contains(c));
                }
            }
        }
    }
    placed
}

/// Makes the mines on and around the cell in column `x`, row `y` blank,
/// and says how many there were.
pub fn clear_around(
    tiles: &mut Vec<Vec<Tile>>,
    width: usize,
    height: usize,
    x: usize,
    y: usize,
) -> (removed: usize)
    requires
        rectangular(grid_of(old(tiles)@), width as nat, height as nat),
        x < width,
        y < height,
    ensures
        rectangular(grid_of(final(tiles)@), width as nat, height as nat),
        cleared(grid_of(old(tiles)@), grid_of(final(tiles)@), cell(x, y)),
        mine_count(grid_of(final(tiles)@)) + removed == mine_count(grid_of(old(tiles)@)),
        removed <= 9,
{
    let ghost before = grid_of(tiles@);
    let ghost center = cell(x, y);
    let first_x: usize = if x > 0 {
        x - 1
    } else {
        x
    };
    let last_x: usize = if x + 1 < width {
        x + 1
    } else {
        x
    };
    let first_y: usize = if y > 0 {
        y - 1
    } else {
        y
    };
    let last_y: usize = if y + 1 < height {
        y + 1
    } else {
        y
    };
    let mut removed: usize = 0;
    let mut cx: usize = first_x;
    while cx <= last_x
        invariant
            first_x <= cx <= last_x + 1,
            last_x < width,
            last_y < height,
            first_y <= last_y,
            x <= first_x + 1,
            last_x <= x + 1,
            y <= first_y + 1,
            last_y <= y + 1,
            first_x <= x <= last_x,
            first_y <= y <= last_y,
            x > 0 ==> first_x == x - 1,
            y > 0 ==> first_y == y - 1,
            x + 1 < width ==> last_x == x + 1,
            y + 1 < height ==> last_y == y + 1,
            center == cell(x, y),
            rectangular(before, width as nat, height as nat),
            rectangular(grid_of(tiles@), width as nat, height as nat),
            removed <= 3 * (cx - first_x),
            mine_count(grid_of(tiles@)) + removed == mine_count(before),
            forall|c: Cell| #[trigger]
                inside(before, c) ==> grid_of(tiles@)[c.0][c.1] == (if near(center, c) && c.0 < cx
                    && is_mine(before, c) {
                    Tile::Safe(Digit::Zero)
                } else {
                    before[c.0][c.1]
                }),
        decreases last_x + 1 - cx,
    {
        let mut cy: usize = first_y;
        while cy <= last_y
            invariant
                first_x <= cx <= last_x,
                first_y <= cy <= last_y + 1,
                last_x < width,
                last_y < height,
                x <= first_x + 1,
                last_x <= x + 1,
                y <= first_y + 1,
                last_y <= y + 1,
                first_x <= x <= last_x,
                first_y <= y <= last_y,
                x > 0 ==> first_x == x - 1,
                y > 0 ==> first_y == y - 1,
                x + 1 < width ==> last_x == x + 1,
                y + 1 < height ==> last_y == y + 1,
                center == cell(x, y),
                rectangular(before, width as nat, height as nat),
                rectangular(grid_of(tiles@), width as nat, height as nat),
                removed <= 3 * (cx - first_x) + (cy - first_y),
                mine_count(grid_of(tiles@)) + removed == mine_count(before),
                forall|c: Cell| #[trigger]
                    inside(before, c) ==> grid_of(tiles@)[c.0][c.1] == (if near(center, c) && (c.0
                        < cx || (c.0 == cx && c.1 < cy)) && is_mine(before, c) {
                        Tile::Safe(Digit::Zero)
                    } else {
                        before[c.0][c.1]
                    }),
            decreases last_y + 1 - cy,
        {
            let ghost now = grid_of(tiles@);
            if get_cell(tiles, cx, cy) == Tile::Mine {
                set_cell(tiles, cx, cy, Tile::Safe(Digit::Zero));
                proof {
                    lemma_mine_removed(
                        now,
                        grid_of(tiles@),
                        cell(cx, cy),
                        Tile::Safe(Digit::Zero),
                        width as nat,
                        height as nat,
                    );
                }
                removed += 1;
            }
            cy += 1;
        }
        cx += 1;
    }
    removed
}

/// Moves the mines on and around the cell in column `x`, row `y` to
/// cells far from it, and counts the digits anew.
pub fn relocate(
    tiles: &mut Vec<Vec<Tile>>,
    width: usize,
    height: usize,
    x: usize,
    y: usize,
    rng: &mut RandomSource,
)
    requires
        width * height <= usize::MAX,
        rectangular(grid_of(old(tiles)@), width as nat, height as nat),
        x < width,
        y < height,
    ensures
        final(rng)@.continues(old(rng)@),
        relocated(
            grid_of(old(tiles)@),
            grid_of(final(tiles)@),
            cell(x, y),
            width as nat,
            height as nat,
        ),
{
    let ghost before = grid_of(tiles@);
    let ghost center = cell(x, y);
    let removed: usize = clear_around(tiles, width, height, x, y);
    let ghost bare = grid_of(tiles@);
    place_mines(tiles, width, height, removed, Some((x, y)), rng);
    Board::update_digits(tiles, height, width);
    proof {
        let after = grid_of(tiles@);
        assert forall|c: Cell| near(center, c) implies !#[trigger] is_mine(after, c) by {
            if inside(before, c) {
                assert(inside(bare, c));
            }
        }
        assert forall|c: Cell| #[trigger] is_mine(before, c) && !near(center, c) implies is_mine(
            after,
            c,
        ) by {
            assert(inside(bare, c));
        }
        assert forall|c: Cell| #[trigger] is_mine(after, c) && !is_mine(before, c) implies far(
            center,
            c,
        ) by {
            assert(inside(bare, c));
        }
    }
}

} // verus!
