//! World space and grid space. A world position is in world units (pixels,
//! `y` pointing up); a grid position counts tiles from the world origin; a
//! cell `(x, y)` indexes the grid, row 0 being the deepest and the surface
//! lying just above the last row.

use crate::grid::MAX_GRID_DIM;
use vstd::prelude::*;

verus! {

/// An axis-aligned rectangle in world units.
#[derive(Clone, Copy, PartialEq, Eq, Debug, Structural)]
pub struct Area {
    pub min_x: i32,
    pub min_y: i32,
    pub max_x: i32,
    pub max_y: i32,
}

/// The edge length of a tile, in world units.
pub const TILE_SIZE: i32 = 32;

/// The grid coordinate of world coordinate `v`: `v` moved half a tile away
/// from zero (zero counts as positive), divided by the tile size, truncated
/// toward zero.
pub open spec fn grid_coord(v: int) -> int {
    if v >= 0 {
        (v + TILE_SIZE / 2) / TILE_SIZE as int
    } else {
        -((-v + TILE_SIZE / 2) / TILE_SIZE as int)
    }
}

/// The world coordinate of the centre of grid coordinate `c`.
pub open spec fn world_coord(c: int) -> int {
    c * TILE_SIZE
}

/// Grid coordinates whose world coordinate fits an `i32`.
pub open spec fn world_coord_fits(c: int) -> bool {
    i32::MIN <= world_coord(c) <= i32::MAX
}

/// The cell that grid position `g` falls on in a `w` by `h` grid: the grid
/// is centred horizontally on the origin and lies entirely below it.
pub open spec fn cell_of(w: int, h: int, g: (int, int)) -> (int, int) {
    (g.0 + w / 2, g.1 + h)
}

/// The grid position of cell `c` of a `w` by `h` grid.
pub open spec fn grid_position_of(w: int, h: int, c: (int, int)) -> (int, int) {
    (c.0 - w / 2, c.1 - h)
}

fn grid_coord_of(v: i32) -> (r: i32)
    ensures
        r == grid_coord(v as int),
{
    let half: i64 = (TILE_SIZE / 2) as i64;
    let size: i64 = TILE_SIZE as i64;
    let wide = v as i64;
    if wide >= 0 {
        ((wide + half) / size) as i32
    } else {
        (-((-wide + half) / size)) as i32
    }
}

/// The grid position of a world position.
pub fn world_to_grid_position(world_position: (i32, i32)) -> (r: (i32, i32))
    ensures
        r.0 == grid_coord(world_position.0 as int),
        r.1 == grid_coord(world_position.1 as int),
{
    (grid_coord_of(world_position.0), grid_coord_of(world_position.1))
}

/// The world position of the centre of a grid position.
pub fn grid_to_world_position(grid_position: (i32, i32)) -> (r: (i32, i32))
    requires
        world_coord_fits(grid_position.0 as int),
        world_coord_fits(grid_position.1 as int),
    ensures
        r.0 == world_coord(grid_position.0 as int),
        r.1 == world_coord(grid_position.1 as int),
{
    (grid_position.0 * TILE_SIZE, grid_position.1 * TILE_SIZE)
}

/// The cell of a `width` by `height` grid under a world position; it may
/// lie off the grid.
pub fn world_position_to_cell(world_position: (i32, i32), width: usize, height: usize) -> (r: (
    i32,
    i32,
))
    requires
        0 < width <= MAX_GRID_DIM,
        0 < height <= MAX_GRID_DIM,
    ensures
        (r.0 as int, r.1 as int) == cell_of(
            width as int,
            height as int,
            (grid_coord(world_position.0 as int), grid_coord(world_position.1 as int)),
        ),
{
    let g = world_to_grid_position(world_position);
    (g.0 + (width / 2) as i32, g.1 + height as i32)
}

/// The index `(column, row)` of the cell under a world position, or `None`
/// when the position lies off the `width` by `height` grid.
pub fn world_position_to_idx(world_position: (i32, i32), width: usize, height: usize) -> (r:
    Option<(usize, usize)>)
    requires
        0 < width <= MAX_GRID_DIM,
        0 < height <= MAX_GRID_DIM,
    ensures
        ({
            let c = cell_of(
                width as int,
                height as int,
                (grid_coord(world_position.0 as int), grid_coord(world_position.1 as int)),
            );
            match r {
                Some(i) => 0 <= c.0 < width && 0 <= c.1 < height && i.0 == c.0 && i.1 == c.1,
                None => !(0 <= c.0 < width && 0 <= c.1 < height),
            }
        }),
{
    let c = world_position_to_cell(world_position, width, height);
    if 0 <= c.0 && (c.0 as usize) < width && 0 <= c.1 && (c.1 as usize) < height {
        Some((c.0 as usize, c.1 as usize))
    } else {
        None
    }
}

/// The world position of the centre of cell `idx` of a `width` by `height`
/// grid, or `None` when `idx` lies off the grid.
pub fn idx_to_world_position(idx: (usize, usize), width: usize, height: usize) -> (r: Option<
    (i32, i32),
>)
    requires
        0 < width <= MAX_GRID_DIM,
        0 < height <= MAX_GRID_DIM,
    ensures
        ({
            let g = grid_position_of(width as int, height as int, (idx.0 as int, idx.1 as int));
            match r {
                Some(p) => idx.0 < width && idx.1 < height && p.0 == world_coord(g.0) && p.1
                    == world_coord(g.1),
                None => !(idx.0 < width && idx.1 < height),
            }
        }),
{
    if idx.0 < width && idx.1 < height {
        let gx = idx.0 as i32 - (width / 2) as i32;
        let gy = idx.1 as i32 - height as i32;
        Some(grid_to_world_position((gx, gy)))
    } else {
        None
    }
}

/// Back from world space: the grid coordinate of the centre of grid
/// coordinate `c` is `c` itself.
pub proof fn lemma_grid_world_round_trip(c: int)
    ensures
        grid_coord(world_coord(c)) == c,
{
    if c >= 0 {
        assert((c * 32 + 16) / 32 == c);
    } else {
        assert((-(c * 32) + 16) / 32 == -c);
    }
}

/// Every cell of a `w` by `h` grid maps to a world position that maps back
/// to the cell.
pub proof fn lemma_cell_world_round_trip(w: int, h: int, x: int, y: int)
    requires
        0 < w <= MAX_GRID_DIM,
        0 < h <= MAX_GRID_DIM,
        0 <= x < w,
        0 <= y < h,
    ensures
        ({
            let g = grid_position_of(w, h, (x, y));
            &&& world_coord_fits(g.0)
            &&& world_coord_fits(g.1)
            &&& cell_of(w, h, (grid_coord(world_coord(g.0)), grid_coord(world_coord(g.1)))) == (x, y)
        }),
{
    let g = grid_position_of(w, h, (x, y));
    lemma_grid_world_round_trip(g.0);
    lemma_grid_world_round_trip(g.1);
}

} // verus!
