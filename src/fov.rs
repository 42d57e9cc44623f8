//! Field of view: a bounded flood fill from the observer that spreads through
//! `Empty` cells and stops at the first tile along each line.

use crate::coords::{cell_of, grid_coord, world_position_to_cell};
use crate::grid::{height_of, in_grid, is_grid, rows_of, width_of, MAX_GRID_DIM};
use crate::tile::TileType;
use crate::world::WorldGrid;
use vstd::prelude::*;

verus! {

/// An `Empty` cell on the grid: sight passes through it.
pub open spec fn open_cell(g: Seq<Seq<TileType>>, x: int, y: int) -> bool {
    in_grid(g, x, y) && g[y][x] == TileType::Empty
}

/// Cell `(x, y)` is seen within `k` steps from the observer at `(ox, oy)`:
/// it is on the grid, and it is the observer, or it was seen within `k - 1`
/// steps, or one of its eight neighbours was seen within `k - 1` steps and
/// is `Empty`.
pub open spec fn seen(g: Seq<Seq<TileType>>, ox: int, oy: int, k: nat, x: int, y: int) -> bool
    decreases k,
{
    if k == 0 {
        in_grid(g, x, y) && x == ox && y == oy
    } else {
        let j = (k - 1) as nat;
        in_grid(g, x, y) && ((x == ox && y == oy) || seen(g, ox, oy, j, x, y) || (seen(
            g,
            ox,
            oy,
            j,
            x - 1,
            y - 1,
        ) && open_cell(g, x - 1, y - 1)) || (seen(g, ox, oy, j, x, y - 1) && open_cell(
            g,
            x,
            y - 1,
        )) || (seen(g, ox, oy, j, x + 1, y - 1) && open_cell(g, x + 1, y - 1)) || (seen(
            g,
            ox,
            oy,
            j,
            x - 1,
            y,
        ) && open_cell(g, x - 1, y)) || (seen(g, ox, oy, j, x + 1, y) && open_cell(g, x + 1, y))
            || (seen(g, ox, oy, j, x - 1, y + 1) && open_cell(g, x - 1, y + 1)) || (seen(
            g,
            ox,
            oy,
            j,
            x,
            y + 1,
        ) && open_cell(g, x, y + 1)) || (seen(g, ox, oy, j, x + 1, y + 1) && open_cell(
            g,
            x + 1,
            y + 1,
        )))
    }
}

/// Sight passes on from `(x, y)` after `k` steps: seen, and `Empty`.
pub open spec fn passes(g: Seq<Seq<TileType>>, ox: int, oy: int, k: nat, x: int, y: int) -> bool {
    seen(g, ox, oy, k, x, y) && open_cell(g, x, y)
}

/// Two distinct cells that touch, at a side or a corner.
pub open spec fn adjacent(a: (int, int), b: (int, int)) -> bool {
    -1 <= a.0 - b.0 <= 1 && -1 <= a.1 - b.1 <= 1 && a != b
}

/// A line of sight from `(ox, oy)` to `(x, y)`: a chain of touching cells
/// on the grid from the observer to the cell, every cell but the last
/// `Empty`.
pub open spec fn is_sight_line(
    g: Seq<Seq<TileType>>,
    ox: int,
    oy: int,
    x: int,
    y: int,
    p: Seq<(int, int)>,
) -> bool {
    &&& p.len() >= 1
    &&& p[0] == (ox, oy)
    &&& p[p.len() - 1] == (x, y)
    &&& forall|i: int| 0 <= i < p.len() ==> in_grid(g, #[trigger] p[i].0, p[i].1)
    &&& forall|i: int|
        0 <= i < p.len() - 1 ==> open_cell(g, #[trigger] p[i].0, p[i].1) && adjacent(p[i], p[i + 1])
}

/// A seen cell lies within `k` cells of the observer each way, and the
/// observer is on the grid.
pub proof fn lemma_seen_near(g: Seq<Seq<TileType>>, ox: int, oy: int, k: nat, x: int, y: int)
    requires
        seen(g, ox, oy, k, x, y),
    ensures
        -k <= x - ox <= k,
        -k <= y - oy <= k,
        in_grid(g, ox, oy),
    decreases k,
{
    if k > 0 && !(x == ox && y == oy) {
        let j = (k - 1) as nat;
        if seen(g, ox, oy, j, x, y) {
            lemma_seen_near(g, ox, oy, j, x, y);
        } else if passes(g, ox, oy, j, x - 1, y - 1) {
            lemma_seen_near(g, ox, oy, j, x - 1, y - 1);
        } else if passes(g, ox, oy, j, x, y - 1) {
            lemma_seen_near(g, ox, oy, j, x, y - 1);
        } else if passes(g, ox, oy, j, x + 1, y - 1) {
            lemma_seen_near(g, ox, oy, j, x + 1, y - 1);
        } else if passes(g, ox, oy, j, x - 1, y) {
            lemma_seen_near(g, ox, oy, j, x - 1, y);
        } else if passes(g, ox, oy, j, x + 1, y) {
            lemma_seen_near(g, ox, oy, j, x + 1, y);
        } else if passes(g, ox, oy, j, x - 1, y + 1) {
            lemma_seen_near(g, ox, oy, j, x - 1, y + 1);
        } else if passes(g, ox, oy, j, x, y + 1) {
            lemma_seen_near(g, ox, oy, j, x, y + 1);
        } else {
            lemma_seen_near(g, ox, oy, j, x + 1, y + 1);
        }
    }
}

/// A cell seen within `k` steps has a line of sight from the observer of
/// at most `k + 1` cells.
pub proof fn lemma_seen_sight_line(
    g: Seq<Seq<TileType>>,
    ox: int,
    oy: int,
    k: nat,
    x: int,
    y: int,
) -> (p: Seq<(int, int)>)
    requires
        seen(g, ox, oy, k, x, y),
    ensures
        is_sight_line(g, ox, oy, x, y, p),
        p.len() <= k + 1,
    decreases k,
{
    if x == ox && y == oy {
        seq![(x, y)]
    } else {
        let j = (k - 1) as nat;
        if seen(g, ox, oy, j, x, y) {
            lemma_seen_sight_line(g, ox, oy, j, x, y)
        } else {
            let n = if passes(g, ox, oy, j, x - 1, y - 1) {
                (x - 1, y - 1)
            } else if passes(g, ox, oy, j, x, y - 1) {
                (x, y - 1)
            } else if passes(g, ox, oy, j, x + 1, y - 1) {
                (x + 1, y - 1)
            } else if passes(g, ox, oy, j, x - 1, y) {
                (x - 1, y)
            } else if passes(g, ox, oy, j, x + 1, y) {
                (x + 1, y)
            } else if passes(g, ox, oy, j, x - 1, y + 1) {
                (x - 1, y + 1)
            } else if passes(g, ox, oy, j, x, y + 1) {
                (x, y + 1)
            } else {
                (x + 1, y + 1)
            };
            let q = lemma_seen_sight_line(g, ox, oy, j, n.0, n.1);
            let p = q.push((x, y));
            assert forall|i: int| 0 <= i < p.len() - 1 implies open_cell(
                g,
                #[trigger] p[i].0,
                p[i].1,
            ) && adjacent(p[i], p[i + 1]) by {
                if i < q.len() - 1 {
                    assert(p[i] == q[i] && p[i + 1] == q[i + 1]);
                } else {
                    assert(p[i] == n);
                }
            }
            assert forall|i: int| 0 <= i < p.len()
                implies in_grid(g, #[trigger] p[i].0, p[i].1) by {
                if i < q.len() {
                    assert(p[i] == q[i]);
                }
            }
            p
        }
    }
}

/// Once a step adds nothing, no later step does.
pub proof fn lemma_seen_stable(g: Seq<Seq<TileType>>, ox: int, oy: int, k: nat, j: nat)
    requires
        forall|x: int, y: int| #[trigger] seen(g, ox, oy, k + 1, x, y) == seen(g, ox, oy, k, x, y),
        k <= j,
    ensures
        forall|x: int, y: int| #[trigger] seen(g, ox, oy, j, x, y) == seen(g, ox, oy, k, x, y),
    decreases j - k,
{
    if j > k {
        let i = (j - 1) as nat;
        lemma_seen_stable(g, ox, oy, k, i);
        assert forall|x: int, y: int|
            #[trigger] seen(g, ox, oy, j, x, y) == seen(g, ox, oy, k, x, y) by {
            let k1 = (k + 1) as nat;
            assert(seen(g, ox, oy, i, x, y) == seen(g, ox, oy, k, x, y));
            assert(seen(g, ox, oy, i, x - 1, y - 1) == seen(g, ox, oy, k, x - 1, y - 1));
            assert(seen(g, ox, oy, i, x, y - 1) == seen(g, ox, oy, k, x, y - 1));
            assert(seen(g, ox, oy, i, x + 1, y - 1) == seen(g, ox, oy, k, x + 1, y - 1));
            assert(seen(g, ox, oy, i, x - 1, y) == seen(g, ox, oy, k, x - 1, y));
            assert(seen(g, ox, oy, i, x + 1, y) == seen(g, ox, oy, k, x + 1, y));
            assert(seen(g, ox, oy, i, x - 1, y + 1) == seen(g, ox, oy, k, x - 1, y + 1));
            assert(seen(g, ox, oy, i, x, y + 1) == seen(g, ox, oy, k, x, y + 1));
            assert(seen(g, ox, oy, i, x + 1, y + 1) == seen(g, ox, oy, k, x + 1, y + 1));
            assert(seen(g, ox, oy, j, x, y) == seen(g, ox, oy, k1, x, y));
            assert(seen(g, ox, oy, k1, x, y) == seen(g, ox, oy, k, x, y));
        }
    }
}

/// A rectangle of cells: columns `x0 .. x0 + width`, rows `y0 .. y0 + height`.
#[derive(Clone, Copy)]
struct Window {
    x0: i64,
    y0: i64,
    width: i64,
    height: i64,
}

/// The cells seen within `k` steps from `(ox, oy)` that lie in the window,
/// held as `marks[y - win.y0][x - win.x0]`.
spec fn marks_match(
    marks: Seq<Seq<bool>>,
    g: Seq<Seq<TileType>>,
    ox: int,
    oy: int,
    k: nat,
    win: Window,
) -> bool {
    &&& marks.len() == win.height
    &&& forall|i: int| 0 <= i < win.height ==> #[trigger] marks[i].len() == win.width
    &&& forall|i: int, j: int|
        0 <= i < win.height && 0 <= j < win.width ==> 
            #[trigger] marks[i][j] == seen(g, ox, oy, k, win.x0 + j, win.y0 + i)
}

/// The window holds every cell of the grid within `r` cells of the
/// observer each way, and nothing off the grid.
spec fn window_ok(g: Seq<Seq<TileType>>, ox: int, oy: int, r: int, win: Window) -> bool {
    &&& is_grid(g)
    &&& in_grid(g, ox, oy)
    &&& 0 <= r
    &&& win.x0 == if ox - r > 0 { ox - r } else { 0 }
    &&& win.y0 == if oy - r > 0 { oy - r } else { 0 }
    &&& win.x0 + win.width - 1 == if ox + r < width_of(g) - 1 { ox + r } else { width_of(g) - 1 }
    &&& win.y0 + win.height - 1 == if oy + r < height_of(g) - 1 { oy + r } else { height_of(g) - 1 }
}

/// Whether sight passes on from `(x, y)` after `k` steps, read from the
/// marks of step `k`.
fn passes_at(
    grid: &WorldGrid,
    marks: &Vec<Vec<bool>>,
    Ghost(k): Ghost<nat>,
    Ghost(ox): Ghost<int>,
    Ghost(oy): Ghost<int>,
    Ghost(r): Ghost<int>,
    win: Window,
    x: i64,
    y: i64,
) -> (b: bool)
    requires
        grid.wf(),
        window_ok(grid@.tiles, ox, oy, r, win),
        marks_match(rows_of(marks@), grid@.tiles, ox, oy, k, win),
        k <= r,
        -1 <= x <= MAX_GRID_DIM,
        -1 <= y <= MAX_GRID_DIM,
    ensures
        b == passes(grid@.tiles, ox, oy, k, x as int, y as int),
{
    let ghost g = grid@.tiles;
    if x < win.x0 || y < win.y0 || x >= win.x0 + win.width || y >= win.y0 + win.height {
        proof {
            if seen(g, ox, oy, k, x as int, y as int) {
                lemma_seen_near(g, ox, oy, k, x as int, y as int);
            }
        }
        false
    } else {
        let i = (y - win.y0) as usize;
        let j = (x - win.x0) as usize;
        assert(rows_of(marks@)[i as int].len() == win.width);
        let row = &marks[i];
        if row[j] {
            match grid.tile_at((x as i32, y as i32)) {
                Some(TileType::Empty) => true,
                _ => false,
            }
        } else {
            false
        }
    }
}

/// Whether sight passes on after `k` steps from any of the eight cells
/// around `(x, y)`.
fn lit_around(
    grid: &WorldGrid,
    marks: &Vec<Vec<bool>>,
    Ghost(k): Ghost<nat>,
    Ghost(ox): Ghost<int>,
    Ghost(oy): Ghost<int>,
    Ghost(r): Ghost<int>,
    win: Window,
    x: i64,
    y: i64,
) -> (b: bool)
    requires
        grid.wf(),
        window_ok(grid@.tiles, ox, oy, r, win),
        marks_match(rows_of(marks@), grid@.tiles, ox, oy, k, win),
        k <= r,
        0 <= x < MAX_GRID_DIM,
        0 <= y < MAX_GRID_DIM,
    ensures
        b == {
            let g = grid@.tiles;
            ||| passes(g, ox, oy, k, x - 1, y - 1)
            ||| passes(g, ox, oy, k, x as int, y - 1)
            ||| passes(g, ox, oy, k, x + 1, y - 1)
            ||| passes(g, ox, oy, k, x - 1, y as int)
            ||| passes(g, ox, oy, k, x + 1, y as int)
            ||| passes(g, ox, oy, k, x - 1, y + 1)
            ||| passes(g, ox, oy, k, x as int, y + 1)
            ||| passes(g, ox, oy, k, x + 1, y + 1)
        },
{
    let sw = passes_at(grid, marks, Ghost(k), Ghost(ox), Ghost(oy), Ghost(r), win, x - 1, y - 1);
    let s = passes_at(grid, marks, Ghost(k), Ghost(ox), Ghost(oy), Ghost(r), win, x, y - 1);
    let se = passes_at(grid, marks, Ghost(k), Ghost(ox), Ghost(oy), Ghost(r), win, x + 1, y - 1);
    let w = passes_at(grid, marks, Ghost(k), Ghost(ox), Ghost(oy), Ghost(r), win, x - 1, y);
    let e = passes_at(grid, marks, Ghost(k), Ghost(ox), Ghost(oy), Ghost(r), win, x + 1, y);
    let nw = passes_at(grid, marks, Ghost(k), Ghost(ox), Ghost(oy), Ghost(r), win, x - 1, y + 1);
    let n = passes_at(grid, marks, Ghost(k), Ghost(ox), Ghost(oy), Ghost(r), win, x, y + 1);
    let ne = passes_at(grid, marks, Ghost(k), Ghost(ox), Ghost(oy), Ghost(r), win, x + 1, y + 1);
    sw || s || se || w || e || nw || n || ne
}

/// One step of the flood fill over the window: the marks of step `k + 1`,
/// and whether any mark changed.
fn spread_round(
    grid: &WorldGrid,
    marks: &Vec<Vec<bool>>,
    Ghost(k): Ghost<nat>,
    Ghost(ox): Ghost<int>,
    Ghost(oy): Ghost<int>,
    Ghost(r): Ghost<int>,
    win: Window,
) -> (res: (Vec<Vec<bool>>, bool))
    requires
        grid.wf(),
        window_ok(grid@.tiles, ox, oy, r, win),
        marks_match(rows_of(marks@), grid@.tiles, ox, oy, k, win),
        k < r,
    ensures
        marks_match(
            rows_of(res.0@),
            grid@.tiles,
            ox,
            oy,
            (k + 1) as nat,
            win,
        ),
        !res.1 ==> forall|i: int, j: int|
            0 <= i < win.height && 0 <= j < win.width ==> 
                #[trigger] rows_of(res.0@)[i][j] == rows_of(marks@)[i][j],
{
    let ghost g = grid@.tiles;
    let ghost k1: nat = (k + 1) as nat;
    let mut out: Vec<Vec<bool>> = Vec::new();
    let mut changed = false;
    let mut i: i64 = 0;
    while i < win.height
        invariant
            grid.wf(),
            g == grid@.tiles,
            k1 == k + 1,
            window_ok(g, ox, oy, r, win),
            marks_match(rows_of(marks@), g, ox, oy, k, win),
            k < r,
            0 <= i <= win.height,
            out@.len() == i,
            forall|a: int| 0 <= a < i ==> #[trigger] out@[a]@.len() == win.width,
            forall|a: int, b: int|
                0 <= a < i && 0 <= b < win.width ==> #[trigger] out@[a]@[b] == seen(
                    g,
                    ox,
                    oy,
                    k1,
                    win.x0 + b,
                    win.y0 + a,
                ),
            !changed ==> forall|a: int, b: int|
                0 <= a < i && 0 <= b < win.width ==> 
                    #[trigger] out@[a]@[b] == rows_of(marks@)[a][b],
        decreases win.height - i,
    {
        assert(rows_of(marks@)[i as int].len() == win.width);
        let old_row = &marks[i as usize];
        let mut row: Vec<bool> = Vec::new();
        let mut j: i64 = 0;
        let y = win.y0 + i;
        while j < win.width
            invariant
                grid.wf(),
                g == grid@.tiles,
                k1 == k + 1,
                window_ok(g, ox, oy, r, win),
                marks_match(rows_of(marks@), g, ox, oy, k, win),
                k < r,
                0 <= i < win.height,
                y == win.y0 + i,
                old_row@ == rows_of(marks@)[i as int],
                0 <= j <= win.width,
                row@.len() == j,
                forall|b: int|
                    0 <= b < j ==> 
                        #[trigger] row@[b] == seen(g, ox, oy, k1, win.x0 + b, win.y0 + i),
                !changed ==> forall|a: int, b: int|
                    0 <= a < i && 0 <= b < win.width ==> 
                        #[trigger] out@[a]@[b] == rows_of(marks@)[a][b],
                !changed ==> forall|b: int| 0 <= b < j ==> #[trigger] row@[b] == old_row@[b],
            decreases win.width - j,
        {
            let x = win.x0 + j;
            let was = old_row[j as usize];
            let now = was || lit_around(
                grid,
                marks,
                Ghost(k),
                Ghost(ox),
                Ghost(oy),
                Ghost(r),
                win,
                x,
                y,
            );
            proof {
                assert(in_grid(g, x as int, y as int));
                assert(was == seen(g, ox, oy, k, x as int, y as int));
                assert(now == seen(g, ox, oy, k1, x as int, y as int));
            }
            if now != was {
                changed = true;
            }
            row.push(now);
            j = j + 1;
        }
        out.push(row);
        i = i + 1;
    }
    (out, changed)
}

/// Cell `c` comes before position `(i, j)` of the window in row order.
spec fn before(c: (i32, i32), win: Window, i: int, j: int) -> bool {
    ||| (win.y0 <= c.1 < win.y0 + i && win.x0 <= c.0 < win.x0 + win.width)
    ||| (c.1 == win.y0 + i && win.x0 <= c.0 < win.x0 + j)
}

/// The cells visible from `observer` within `max_radius` steps: the flood
/// fill from the observer through `Empty` cells, each cell reached (the
/// first tile on each line included) being seen. Off the grid nothing is
/// seen. Each cell appears once, in row order.
pub fn visible_cells(grid: &WorldGrid, observer: (i32, i32), max_radius: u32) -> (r: Vec<
    (i32, i32),
>)
    requires
        grid.wf(),
    ensures
        forall|c: (i32, i32)|
            r@.contains(c) <==> seen(
                grid@.tiles,
                observer.0 as int,
                observer.1 as int,
                max_radius as nat,
                c.0 as int,
                c.1 as int,
            ),
        r@.no_duplicates(),
{
    let ghost g = grid@.tiles;
    let ghost ox = observer.0 as int;
    let ghost oy = observer.1 as int;
    let ghost rr = max_radius as int;
    let mut out: Vec<(i32, i32)> = Vec::new();
    if !grid.contains(observer) {
        proof {
            assert forall|c: (i32, i32)|
                !seen(g, ox, oy, max_radius as nat, c.0 as int, c.1 as int) by {
                if seen(g, ox, oy, max_radius as nat, c.0 as int, c.1 as int) {
                    lemma_seen_near(g, ox, oy, max_radius as nat, c.0 as int, c.1 as int);
                }
            }
        }
        return out;
    }
    let w = grid.width() as i64;
    let h = grid.height() as i64;
    let oxe = observer.0 as i64;
    let oye = observer.1 as i64;
    let re = max_radius as i64;
    let x0 = if oxe - re > 0 { oxe - re } else { 0 };
    let y0 = if oye - re > 0 { oye - re } else { 0 };
    let x1 = if oxe + re < w - 1 { oxe + re } else { w - 1 };
    let y1 = if oye + re < h - 1 { oye + re } else { h - 1 };
    let ww = x1 - x0 + 1;
    let wh = y1 - y0 + 1;
    let win = Window { x0, y0, width: ww, height: wh };
    // Step zero: only the observer is seen.
    let mut marks: Vec<Vec<bool>> = Vec::new();
    let mut i: i64 = 0;
    while i < win.height
        invariant
            grid.wf(),
            g == grid@.tiles,
            window_ok(g, ox, oy, rr, win),
            oxe == ox,
            oye == oy,
            0 <= i <= win.height,
            marks@.len() == i,
            forall|a: int| 0 <= a < i ==> #[trigger] marks@[a]@.len() == win.width,
            forall|a: int, b: int|
                0 <= a < i && 0 <= b < win.width ==> #[trigger] marks@[a]@[b] == seen(
                    g,
                    ox,
                    oy,
                    0,
                    win.x0 + b,
                    win.y0 + a,
                ),
        decreases win.height - i,
    {
        let mut row: Vec<bool> = Vec::new();
        let mut j: i64 = 0;
        while j < win.width
            invariant
                g == grid@.tiles,
                window_ok(g, ox, oy, rr, win),
                oxe == ox,
                oye == oy,
                0 <= i < win.height,
                0 <= j <= win.width,
                row@.len() == j,
                forall|b: int| 0 <= b < j ==> 
                    #[trigger] row@[b] == seen(g, ox, oy, 0, win.x0 + b, win.y0 + i),
            decreases win.width - j,
        {
            row.push(win.x0 + j == oxe && win.y0 + i == oye);
            j = j + 1;
        }
        marks.push(row);
        i = i + 1;
    }
    let mut k: u32 = 0;
    while k < max_radius
        invariant
            grid.wf(),
            g == grid@.tiles,
            window_ok(g, ox, oy, rr, win),
            rr == max_radius,
            k <= max_radius,
            marks_match(rows_of(marks@), g, ox, oy, k as nat, win),
        decreases max_radius - k,
    {
        let (next, changed) = spread_round(
            grid,
            &marks,
            Ghost(k as nat),
            Ghost(ox),
            Ghost(oy),
            Ghost(rr),
            win,
        );
        if changed {
            marks = next;
            k = k + 1;
        } else {
            proof {
                let kn = k as nat;
                assert forall|x: int, y: int|
                    #[trigger] seen(g, ox, oy, kn + 1, x, y) == seen(g, ox, oy, kn, x, y) by {
                    if win.x0 <= x < win.x0 + win.width && win.y0 <= y < win.y0 + win.height {
                        assert(rows_of(next@)[y - win.y0][x - win.x0]
                            == rows_of(marks@)[y - win.y0][x - win.x0]);
                    } else {
                        if seen(g, ox, oy, kn + 1, x, y) {
                            lemma_seen_near(g, ox, oy, kn + 1, x, y);
                        }
                        if seen(g, ox, oy, kn, x, y) {
                            lemma_seen_near(g, ox, oy, kn, x, y);
                        }
                    }
                }
                lemma_seen_stable(g, ox, oy, kn, max_radius as nat);
            }
            k = max_radius;
        }
    }
    // Collect the marked cells in row order.
    let mut i: i64 = 0;
    while i < win.height
        invariant
            grid.wf(),
            g == grid@.tiles,
            window_ok(g, ox, oy, rr, win),
            rr == max_radius,
            marks_match(rows_of(marks@), g, ox, oy, max_radius as nat, win),
            0 <= i <= win.height,
            forall|c: (i32, i32)|
                out@.contains(c) <==> before(c, win, i as int, 0) && seen(
                    g,
                    ox,
                    oy,
                    max_radius as nat,
                    c.0 as int,
                    c.1 as int,
                ),
            forall|a: int| 0 <= a < out@.len() ==> before(#[trigger] out@[a], win, i as int, 0),
            out@.no_duplicates(),
        decreases win.height - i,
    {
        assert(rows_of(marks@)[i as int].len() == win.width);
        let row = &marks[i as usize];
        let mut j: i64 = 0;
        while j < win.width
            invariant
                grid.wf(),
                g == grid@.tiles,
                window_ok(g, ox, oy, rr, win),
                rr == max_radius,
                marks_match(rows_of(marks@), g, ox, oy, max_radius as nat, win),
                0 <= i < win.height,
                row@ == rows_of(marks@)[i as int],
                0 <= j <= win.width,
                forall|c: (i32, i32)|
                    out@.contains(c) <==> before(c, win, i as int, j as int) && seen(
                        g,
                        ox,
                        oy,
                        max_radius as nat,
                        c.0 as int,
                        c.1 as int,
                    ),
                forall|a: int| 0 <= a < out@.len() ==> 
                    before(#[trigger] out@[a], win, i as int, j as int),
                out@.no_duplicates(),
            decreases win.width - j,
        {
            if row[j as usize] {
                let c = ((win.x0 + j) as i32, (win.y0 + i) as i32);
                let ghost prev = out@;
                out.push(c);
                proof {
                    assert forall|e: (i32, i32)|
                        out@.contains(e) <==> before(e, win, i as int, j + 1) && seen(
                            g,
                            ox,
                            oy,
                            max_radius as nat,
                            e.0 as int,
                            e.1 as int,
                        ) by {
                        if out@.contains(e) {
                            let a = choose|a: int| 0 <= a < out@.len() && out@[a] == e;
                            if a < prev.len() {
                                assert(prev[a] == e);
                                assert(prev.contains(e));
                            }
                        }
                        if e == c {
                            assert(out@[prev.len() as int] == e);
                        } else if before(e, win, i as int, j + 1) && seen(
                            g,
                            ox,
                            oy,
                            max_radius as nat,
                            e.0 as int,
                            e.1 as int,
                        ) {
                            assert(prev.contains(e));
                            let a = choose|a: int| 0 <= a < prev.len() && prev[a] == e;
                            assert(out@[a] == e);
                        }
                    }
                    assert forall|a: int, b: int|
                        0 <= a < out@.len() && 0 <= b < out@.len() && a != b
                        implies out@[a] != out@[b] by {
                        if a < prev.len() && b < prev.len() {
                            assert(prev[a] != prev[b]);
                        } else if a < prev.len() {
                            assert(before(prev[a], win, i as int, j as int));
                        } else {
                            assert(before(prev[b], win, i as int, j as int));
                        }
                    }
                }
            } else {
                proof {
                    let c = ((win.x0 + j) as i32, (win.y0 + i) as i32);
                    assert(!seen(g, ox, oy, max_radius as nat, c.0 as int, c.1 as int));
                }
            }
            j = j + 1;
        }
        i = i + 1;
    }
    proof {
        assert forall|c: (i32, i32)|
            seen(g, ox, oy, max_radius as nat, c.0 as int, c.1 as int)
                implies before(c, win, win.height as int, 0) by {
            lemma_seen_near(g, ox, oy, max_radius as nat, c.0 as int, c.1 as int);
        }
    }
    out
}

/// What is seen stays within reach: a cell seen within `k` steps lies at
/// most `k` cells from the observer each way, and a line of sight of at most
/// `k + 1` cells leads to it from the observer through `Empty` cells, only
/// its last cell (the tile that blocks the line, or an `Empty` cell) being
/// possibly solid.
pub proof fn lemma_visibility_contained(
    g: Seq<Seq<TileType>>,
    ox: int,
    oy: int,
    k: nat,
    x: int,
    y: int,
)
    requires
        seen(g, ox, oy, k, x, y),
    ensures
        -k <= x - ox <= k,
        -k <= y - oy <= k,
        exists|p: Seq<(int, int)>| is_sight_line(g, ox, oy, x, y, p) && p.len() <= k + 1,
{
    lemma_seen_near(g, ox, oy, k, x, y);
    let p = lemma_seen_sight_line(g, ox, oy, k, x, y);
    assert(is_sight_line(g, ox, oy, x, y, p) && p.len() <= k + 1);
}

/// Whatever a line of sight of at most `k + 1` cells reaches is seen within
/// `k` steps: together with `lemma_visibility_contained`, the cells seen
/// within `k` steps are exactly the ends of such lines.
pub proof fn lemma_sight_line_seen(
    g: Seq<Seq<TileType>>,
    ox: int,
    oy: int,
    k: nat,
    x: int,
    y: int,
    p: Seq<(int, int)>,
)
    requires
        is_sight_line(g, ox, oy, x, y, p),
        p.len() <= k + 1,
    ensures
        seen(g, ox, oy, k, x, y),
    decreases p.len(),
{
    let last = p.len() - 1;
    assert(in_grid(g, p[last].0, p[last].1));
    if p.len() == 1 {
        lemma_seen_origin(g, ox, oy, k);
    } else {
        let q = p.drop_last();
        let n = p[last - 1];
        assert(open_cell(g, p[last - 1].0, p[last - 1].1) && adjacent(p[last - 1], p[last]));
        assert(q[0] == p[0]);
        assert forall|i: int| 0 <= i < q.len() implies in_grid(g, #[trigger] q[i].0, q[i].1) by {
            assert(q[i] == p[i]);
        }
        assert forall|i: int| 0 <= i < q.len() - 1 implies open_cell(g, #[trigger] q[i].0, q[i].1)
            && adjacent(q[i], q[i + 1]) by {
            assert(q[i] == p[i] && q[i + 1] == p[i + 1]);
        }
        let j = (k - 1) as nat;
        lemma_sight_line_seen(g, ox, oy, j, n.0, n.1, q);
        assert(passes(g, ox, oy, j, n.0, n.1));
        assert(n == (x - 1, y - 1) || n == (x, y - 1) || n == (x + 1, y - 1) || n == (x - 1, y)
            || n == (x + 1, y) || n == (x - 1, y + 1) || n == (x, y + 1) || n == (x + 1, y + 1));
    }
}

/// The observer, when on the grid, is seen at every step.
pub proof fn lemma_seen_origin(g: Seq<Seq<TileType>>, ox: int, oy: int, k: nat)
    requires
        in_grid(g, ox, oy),
    ensures
        seen(g, ox, oy, k, ox, oy),
{
}

/// What the player sees: the cells of the most recent computation, the
/// radius of the flood fill, and whether anything was seen since the flag
/// was last cleared.
pub struct FieldOfView {
    pub visible_tiles: Vec<(i32, i32)>,
    pub radius: u32,
    pub dirty: bool,
}

impl FieldOfView {
    /// Nothing seen yet, with the given radius.
    pub fn new(radius: u32) -> (r: FieldOfView)
        ensures
            r.visible_tiles@.len() == 0,
            r.radius == radius,
            !r.dirty,
    {
        FieldOfView { visible_tiles: Vec::new(), radius, dirty: false }
    }
}

impl Default for FieldOfView {
    /// Nothing seen yet, with a radius of ten cells.
    fn default() -> (r: FieldOfView)
        ensures
            r.visible_tiles@.len() == 0,
            r.radius == 10,
            !r.dirty,
    {
        FieldOfView::new(10)
    }
}

/// Recomputes what the player at world position `player_position` sees: the
/// visible cells from the cell under the player, replacing what was seen
/// before. The flag `dirty` is raised when anything is seen.
pub fn update_fov(fov: &mut FieldOfView, grid: &WorldGrid, player_position: (i32, i32))
    requires
        grid.wf(),
    ensures
        ({
            let o = cell_of(
                grid@.width(),
                grid@.height(),
                (grid_coord(player_position.0 as int), grid_coord(player_position.1 as int)),
            );
            forall|c: (i32, i32)|
                final(fov).visible_tiles@.contains(c) <==> seen(
                    grid@.tiles,
                    o.0,
                    o.1,
                    old(fov).radius as nat,
                    c.0 as int,
                    c.1 as int,
                )
        }),
        final(fov).visible_tiles@.no_duplicates(),
        final(fov).radius == old(fov).radius,
        final(fov).dirty == (old(fov).dirty || final(fov).visible_tiles@.len() > 0),
{
    let observer = world_position_to_cell(player_position, grid.width(), grid.height());
    let visible = visible_cells(grid, observer, fov.radius);
    fov.dirty = fov.dirty || visible.len() > 0;
    fov.visible_tiles = visible;
}

} // verus!
