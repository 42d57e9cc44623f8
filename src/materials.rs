//! Depth-banded mineral placement driven by a coherent noise field.

use crate::grid::{
    grid_from, has_dims, height_of, in_grid, is_grid, lemma_grid_from_dims, rows_of, width_of,
};
use crate::tile::TileType;
use vstd::prelude::*;

verus! {

/// How many rows lie between row `y` and the surface, which is above the
/// last row (row `h - 1`).
pub open spec fn depth_of(h: int, y: int) -> int {
    h - 1 - y
}

/// The kind a `Solid` cell of row `y` becomes, for a noise level `noise` in
/// thousandths: the top 20% of the rows (by row count, from the surface), the
/// next 60% and the rest each have their own thresholds.
pub open spec fn material_for(h: int, y: int, noise: u32) -> TileType {
    let d = depth_of(h, y);
    if d < h * 20 / 100 {
        if noise < 700 {
            TileType::Solid
        } else if noise < 800 {
            TileType::Sand
        } else if noise < 900 {
            TileType::Copper
        } else {
            TileType::Iron
        }
    } else if d < h * 80 / 100 {
        if noise < 700 {
            TileType::Solid
        } else if noise < 900 {
            TileType::Iron
        } else {
            TileType::Gold
        }
    } else {
        if noise < 700 {
            TileType::Solid
        } else if noise < 800 {
            TileType::Iron
        } else if noise < 900 {
            TileType::Gold
        } else {
            TileType::Crystal
        }
    }
}

/// Cell `(x, y)` after distribution: `Solid` cells take their band's
/// material, every other cell is kept.
pub open spec fn materialized_cell(
    g: Seq<Seq<TileType>>,
    noise: Seq<Seq<u32>>,
    x: int,
    y: int,
) -> TileType {
    if g[y][x] == TileType::Solid {
        material_for(height_of(g), y, noise[y][x])
    } else {
        g[y][x]
    }
}

pub open spec fn materialized(g: Seq<Seq<TileType>>, noise: Seq<Seq<u32>>) -> Seq<Seq<TileType>> {
    grid_from(width_of(g), height_of(g), |x: int, y: int| materialized_cell(g, noise, x, y))
}

/// The material for a `Solid` cell of row `y` in a grid of `height` rows.
fn material_at(height: usize, y: usize, noise: u32) -> (r: TileType)
    requires
        0 < height <= crate::grid::MAX_GRID_DIM,
        y < height,
    ensures
        r == material_for(height as int, y as int, noise),
{
    let d = height - 1 - y;
    if d < height * 20 / 100 {
        if noise < 700 {
            TileType::Solid
        } else if noise < 800 {
            TileType::Sand
        } else if noise < 900 {
            TileType::Copper
        } else {
            TileType::Iron
        }
    } else if d < height * 80 / 100 {
        if noise < 700 {
            TileType::Solid
        } else if noise < 900 {
            TileType::Iron
        } else {
            TileType::Gold
        }
    } else {
        if noise < 700 {
            TileType::Solid
        } else if noise < 800 {
            TileType::Iron
        } else if noise < 900 {
            TileType::Gold
        } else {
            TileType::Crystal
        }
    }
}

/// Replaces each `Solid` cell by the material that its depth band and its
/// noise level (`noise[y][x]`, in thousandths) select; every other cell is
/// kept. A new grid is returned. No cell becomes or stops being `Empty`.
pub fn distribute_materials(tiles: &Vec<Vec<TileType>>, noise: &Vec<Vec<u32>>) -> (r: Vec<
    Vec<TileType>,
>)
    requires
        is_grid(rows_of(tiles@)),
        has_dims(rows_of(noise@), width_of(rows_of(tiles@)), height_of(rows_of(tiles@))),
    ensures
        rows_of(r@) == materialized(rows_of(tiles@), rows_of(noise@)),
        has_dims(rows_of(r@), width_of(rows_of(tiles@)), height_of(rows_of(tiles@))),
        forall|x: int, y: int|
            in_grid(rows_of(tiles@), x, y) ==> (#[trigger] rows_of(r@)[y][x] == TileType::Empty)
                == (rows_of(tiles@)[y][x] == TileType::Empty),
{
    let ghost g = rows_of(tiles@);
    let ghost ng = rows_of(noise@);
    let height = tiles.len();
    let width = tiles[0].len();
    let mut out: Vec<Vec<TileType>> = Vec::new();
    let mut y: usize = 0;
    while y < height
        invariant
            g == rows_of(tiles@),
            ng == rows_of(noise@),
            is_grid(g),
            has_dims(ng, width as int, height as int),
            height == height_of(g),
            width == width_of(g),
            y <= height,
            out@.len() == y,
            forall|j: int| 0 <= j < y ==> #[trigger] out@[j]@.len() == width,
            forall|j: int, x: int|
                0 <= j < y && 0 <= x < width ==> #[trigger] out@[j]@[x] == materialized_cell(
                    g,
                    ng,
                    x,
                    j,
                ),
        decreases height - y,
    {
        assert(g[y as int].len() == width);
        assert(ng[y as int].len() == width);
        let src = &tiles[y];
        let levels = &noise[y];
        let mut row: Vec<TileType> = Vec::new();
        let mut x: usize = 0;
        while x < width
            invariant
                g == rows_of(tiles@),
                ng == rows_of(noise@),
                is_grid(g),
                has_dims(ng, width as int, height as int),
                height == height_of(g),
                width == width_of(g),
                y < height,
                src@ == g[y as int],
                levels@ == ng[y as int],
                src@.len() == width,
                levels@.len() == width,
                x <= width,
                row@.len() == x,
                forall|i: int|
                    0 <= i < x ==> #[trigger] row@[i] == materialized_cell(g, ng, i, y as int),
            decreases width - x,
        {
            let kind = src[x];
            let cell = if kind == TileType::Solid {
                material_at(height, y, levels[x])
            } else {
                kind
            };
            row.push(cell);
            x = x + 1;
        }
        out.push(row);
        y = y + 1;
    }
    proof {
        lemma_grid_from_dims(
            width as int,
            height as int,
            |x: int, y: int| materialized_cell(g, ng, x, y),
        );
        assert(rows_of(out@) =~~= materialized(g, ng));
    }
    out
}

} // verus!
