//! Cave carving: a seeded random fill smoothed by a cellular automaton.

use crate::grid::{
    grid_from, has_dims, height_of, in_grid, is_grid, lemma_grid_from_dims, rows_of, width_of,
    MAX_GRID_DIM,
};
use crate::tile::TileType;
use rand::distributions::Uniform;
use rand::rngs::StdRng;
use rand::{Rng, SeedableRng};
use vstd::prelude::*;

verus! {

/// Random draws are taken in `0 .. PER_MILLE`, and a fill probability is
/// given in thousandths.
pub const PER_MILLE: u32 = 1000;

/// A cell counts as solid for its neighbours when it lies off the grid or
/// holds `Solid`.
pub open spec fn solid_or_outside(g: Seq<Seq<TileType>>, x: int, y: int) -> bool {
    !in_grid(g, x, y) || g[y][x] == TileType::Solid
}

pub open spec fn solid_weight(g: Seq<Seq<TileType>>, x: int, y: int) -> nat {
    if solid_or_outside(g, x, y) {
        1
    } else {
        0
    }
}

/// How many of the eight cells around `(x, y)` count as solid.
pub open spec fn solid_neighbors(g: Seq<Seq<TileType>>, x: int, y: int) -> nat {
    solid_weight(g, x - 1, y - 1) + solid_weight(g, x, y - 1) + solid_weight(g, x + 1, y - 1)
        + solid_weight(g, x - 1, y) + solid_weight(g, x + 1, y) + solid_weight(g, x - 1, y + 1)
        + solid_weight(g, x, y + 1) + solid_weight(g, x + 1, y + 1)
}

/// The automaton's rule for one cell with `n` solid neighbours.
pub open spec fn next_kind(current: TileType, n: nat) -> TileType {
    if current == TileType::Solid && n < 3 {
        TileType::Empty
    } else if current == TileType::Empty && n > 4 {
        TileType::Solid
    } else {
        current
    }
}

/// Cell `(x, y)` after step `s`: the rule applied to the previous grid, except
/// that cell `(s, 0)` is set to `Solid`.
pub open spec fn cell_after_step(g: Seq<Seq<TileType>>, s: int, x: int, y: int) -> TileType {
    if y == 0 && x == s {
        TileType::Solid
    } else {
        next_kind(g[y][x], solid_neighbors(g, x, y))
    }
}

/// One simultaneous step of the automaton.
pub open spec fn step_grid(g: Seq<Seq<TileType>>, s: int) -> Seq<Seq<TileType>> {
    grid_from(width_of(g), height_of(g), |x: int, y: int| cell_after_step(g, s, x, y))
}

/// Steps `0 .. n` applied in order.
pub open spec fn simulate(g: Seq<Seq<TileType>>, n: nat) -> Seq<Seq<TileType>>
    decreases n,
{
    if n == 0 {
        g
    } else {
        step_grid(simulate(g, (n - 1) as nat), n - 1)
    }
}

/// The initial fill: cell `(x, y)` is `Solid` when its draw, taken in row
/// order, is below `fill`.
pub open spec fn initial_grid(draws: Seq<u32>, w: int, h: int, fill: u32) -> Seq<Seq<TileType>> {
    grid_from(w, h, |x: int, y: int| fill_kind(draws[y * w + x], fill))
}

pub open spec fn fill_kind(draw: u32, fill: u32) -> TileType {
    if draw < fill {
        TileType::Solid
    } else {
        TileType::Empty
    }
}

/// The `count` draws that a `StdRng` seeded with `seed` yields from the
/// uniform distribution on `0 .. bound`.
pub uninterp spec fn seeded_uniform(seed: u64, count: nat, bound: u32) -> Seq<u32>;

/// The cave carved from `seed`: the initial fill, then `steps` steps.
pub open spec fn cave_of(w: int, h: int, fill: u32, steps: nat, seed: u64) -> Seq<Seq<TileType>> {
    simulate(initial_grid(seeded_uniform(seed, (w * h) as nat, PER_MILLE), w, h, fill), steps)
}

/// Relies on rand 0.8: `StdRng::seed_from_u64` builds a deterministic
/// generator from the seed, and `Rng::sample_iter` over `Uniform::new(0, bound)`
/// yields values in `0 .. bound` (it panics on an empty range, hence
/// `bound > 0`).
#[verifier::external_body]
fn seeded_draws(seed: u64, count: usize, bound: u32) -> (r: Vec<u32>)
    requires
        bound > 0,
    ensures
        r@ == seeded_uniform(seed, count as nat, bound),
        r@.len() == count,
        forall|i: int| 0 <= i < r@.len() ==> #[trigger] r@[i] < bound,
{
    StdRng::seed_from_u64(seed).sample_iter(Uniform::new(0u32, bound)).take(count).collect()
}

pub proof fn lemma_step_dims(g: Seq<Seq<TileType>>, s: int)
    requires
        is_grid(g),
    ensures
        has_dims(step_grid(g, s), width_of(g), height_of(g)),
{
    lemma_grid_from_dims(width_of(g), height_of(g), |x: int, y: int| cell_after_step(g, s, x, y));
}

/// Whether the cell at `(x, y)` counts as solid; `(x, y)` may lie one cell
/// off the grid.
fn solid_or_outside_at(tiles: &Vec<Vec<TileType>>, x: i64, y: i64) -> (r: bool)
    requires
        is_grid(rows_of(tiles@)),
        -1 <= x <= MAX_GRID_DIM,
        -1 <= y <= MAX_GRID_DIM,
    ensures
        r == solid_or_outside(rows_of(tiles@), x as int, y as int),
{
    if x < 0 || y < 0 || y >= tiles.len() as i64 || x >= tiles[0].len() as i64 {
        true
    } else {
        let row = &tiles[y as usize];
        assert(rows_of(tiles@)[y as int].len() == rows_of(tiles@)[0].len());
        row[x as usize] == TileType::Solid
    }
}

/// How many of the eight cells around `(x, y)` are `Solid` or off the grid.
pub fn count_solid_neighbors(tiles: &Vec<Vec<TileType>>, x: usize, y: usize) -> (r: usize)
    requires
        is_grid(rows_of(tiles@)),
        in_grid(rows_of(tiles@), x as int, y as int),
    ensures
        r == solid_neighbors(rows_of(tiles@), x as int, y as int),
        r <= 8,
{
    let xi = x as i64;
    let yi = y as i64;
    let mut n: usize = 0;
    if solid_or_outside_at(tiles, xi - 1, yi - 1) {
        n = n + 1;
    }
    if solid_or_outside_at(tiles, xi, yi - 1) {
        n = n + 1;
    }
    if solid_or_outside_at(tiles, xi + 1, yi - 1) {
        n = n + 1;
    }
    if solid_or_outside_at(tiles, xi - 1, yi) {
        n = n + 1;
    }
    if solid_or_outside_at(tiles, xi + 1, yi) {
        n = n + 1;
    }
    if solid_or_outside_at(tiles, xi - 1, yi + 1) {
        n = n + 1;
    }
    if solid_or_outside_at(tiles, xi, yi + 1) {
        n = n + 1;
    }
    if solid_or_outside_at(tiles, xi + 1, yi + 1) {
        n = n + 1;
    }
    n
}

/// One step of the automaton over the whole grid, every cell computed from
/// the grid as it was; afterwards cell `(index, 0)` is set to `Solid` (when
/// `index` lies on the grid).
pub fn simulation(tiles: &Vec<Vec<TileType>>, index: usize) -> (r: Vec<Vec<TileType>>)
    requires
        is_grid(rows_of(tiles@)),
    ensures
        rows_of(r@) == step_grid(rows_of(tiles@), index as int),
        has_dims(rows_of(r@), width_of(rows_of(tiles@)), height_of(rows_of(tiles@))),
{
    let ghost g = rows_of(tiles@);
    let height = tiles.len();
    let width = tiles[0].len();
    let mut out: Vec<Vec<TileType>> = Vec::new();
    let mut y: usize = 0;
    while y < height
        invariant
            g == rows_of(tiles@),
            is_grid(g),
            height == height_of(g),
            width == width_of(g),
            y <= height,
            out@.len() == y,
            forall|j: int, x: int|
                0 <= j < y && 0 <= x < width ==> out@[j]@.len() == width && #[trigger] out@[j]@[x]
                    == cell_after_step(g, index as int, x, j),
            forall|j: int| 0 <= j < y ==> #[trigger] out@[j]@.len() == width,
        decreases height - y,
    {
        let mut row: Vec<TileType> = Vec::new();
        let mut x: usize = 0;
        while x < width
            invariant
                g == rows_of(tiles@),
                is_grid(g),
                height == height_of(g),
                width == width_of(g),
                y < height,
                x <= width,
                row@.len() == x,
                forall|i: int|
                    0 <= i < x ==> #[trigger] row@[i] == cell_after_step(
                        g,
                        index as int,
                        i,
                        y as int,
                    ),
            decreases width - x,
        {
            let cell = if y == 0 && x == index {
                TileType::Solid
            } else {
                let n = count_solid_neighbors(tiles, x, y);
                let current = tiles[y][x];
                if current == TileType::Solid && n < 3 {
                    TileType::Empty
                } else if current == TileType::Empty && n > 4 {
                    TileType::Solid
                } else {
                    current
                }
            };
            row.push(cell);
            x = x + 1;
        }
        out.push(row);
        y = y + 1;
    }
    proof {
        lemma_step_dims(g, index as int);
        assert(rows_of(out@) =~~= step_grid(g, index as int));
    }
    out
}

/// The initial fill of a `width` by `height` grid from one draw per cell,
/// taken in row order.
fn fill_from_draws(draws: &Vec<u32>, width: usize, height: usize, fill: u32) -> (r: Vec<
    Vec<TileType>,
>)
    requires
        0 < width <= MAX_GRID_DIM,
        0 < height <= MAX_GRID_DIM,
        draws@.len() == width * height,
    ensures
        rows_of(r@) == initial_grid(draws@, width as int, height as int, fill),
        has_dims(rows_of(r@), width as int, height as int),
{
    proof {
        assert(width * height <= MAX_GRID_DIM * MAX_GRID_DIM) by (nonlinear_arith)
            requires
                0 < width <= MAX_GRID_DIM,
                0 < height <= MAX_GRID_DIM,
        ;
    }
    let mut out: Vec<Vec<TileType>> = Vec::new();
    let mut y: usize = 0;
    let mut base: usize = 0;
    while y < height
        invariant
            0 < width <= MAX_GRID_DIM,
            0 < height <= MAX_GRID_DIM,
            draws@.len() == width * height,
            width * height <= MAX_GRID_DIM * MAX_GRID_DIM,
            y <= height,
            base == y * width,
            out@.len() == y,
            forall|j: int| 0 <= j < y ==> #[trigger] out@[j]@.len() == width,
            forall|j: int, x: int|
                0 <= j < y && 0 <= x < width ==> #[trigger] out@[j]@[x] == fill_kind(
                    draws@[j * width + x],
                    fill,
                ),
        decreases height - y,
    {
        proof {
            assert(base + width <= width * height) by (nonlinear_arith)
                requires
                    base == y * width,
                    y < height,
            ;
        }
        let mut row: Vec<TileType> = Vec::new();
        let mut x: usize = 0;
        while x < width
            invariant
                0 < width <= MAX_GRID_DIM,
                draws@.len() == width * height,
                width * height <= MAX_GRID_DIM * MAX_GRID_DIM,
                y < height,
                base == y * width,
                base + width <= width * height,
                x <= width,
                row@.len() == x,
                forall|i: int|
                    0 <= i < x ==> #[trigger] row@[i] == fill_kind(draws@[base + i], fill),
            decreases width - x,
        {
            let cell = if draws[base + x] < fill {
                TileType::Solid
            } else {
                TileType::Empty
            };
            row.push(cell);
            x = x + 1;
        }
        out.push(row);
        proof {
            assert(base + width == (y + 1) * width) by (nonlinear_arith)
                requires
                    base == y * width,
            ;
        }
        y = y + 1;
        base = base + width;
    }
    proof {
        lemma_grid_from_dims(
            width as int,
            height as int,
            |x: int, y: int| fill_kind(draws@[y * width + x], fill),
        );
        assert(rows_of(out@) =~~= initial_grid(draws@, width as int, height as int, fill));
    }
    out
}

/// Carves a `width` by `height` cave: each cell is first `Solid` with
/// probability `fill_per_mille / 1000` (drawn from a generator seeded with
/// `seed`), then `steps` steps of the automaton are applied, step `s` setting
/// cell `(s, 0)` to `Solid` afterwards.
pub fn generate_cave(
    width: usize,
    height: usize,
    fill_per_mille: u32,
    steps: usize,
    seed: u64,
) -> (r: Vec<Vec<TileType>>)
    requires
        0 < width <= MAX_GRID_DIM,
        0 < height <= MAX_GRID_DIM,
    ensures
        rows_of(r@) == cave_of(width as int, height as int, fill_per_mille, steps as nat, seed),
        has_dims(rows_of(r@), width as int, height as int),
{
    proof {
        assert(width * height <= MAX_GRID_DIM * MAX_GRID_DIM) by (nonlinear_arith)
            requires
                0 < width <= MAX_GRID_DIM,
                0 < height <= MAX_GRID_DIM,
        ;
    }
    let draws = seeded_draws(seed, width * height, PER_MILLE);
    let mut tiles = fill_from_draws(&draws, width, height, fill_per_mille);
    let ghost g0 = rows_of(tiles@);
    let mut s: usize = 0;
    while s < steps
        invariant
            s <= steps,
            is_grid(g0),
            rows_of(tiles@) == simulate(g0, s as nat),
            has_dims(rows_of(tiles@), width as int, height as int),
        decreases steps - s,
    {
        tiles = simulation(&tiles, s);
        s = s + 1;
    }
    tiles
}

/// A corner cell whose in-grid neighbours are all `Solid` counts eight solid
/// neighbours, the cells off the grid counting as solid, so a `Solid` corner
/// survives every step of the automaton.
pub proof fn lemma_solid_corner_survives(g: Seq<Seq<TileType>>, x: int, y: int, s: int)
    requires
        is_grid(g),
        width_of(g) >= 2,
        height_of(g) >= 2,
        x == 0 || x == width_of(g) - 1,
        y == 0 || y == height_of(g) - 1,
        g[y][x] == TileType::Solid,
        forall|a: int, b: int|
            -1 <= a - x <= 1 && -1 <= b - y <= 1 && in_grid(g, a, b) ==> #[trigger] g[b][a]
                == TileType::Solid,
    ensures
        solid_neighbors(g, x, y) == 8,
        cell_after_step(g, s, x, y) == TileType::Solid,
{
    assert(solid_or_outside(g, x - 1, y - 1));
    assert(solid_or_outside(g, x, y - 1));
    assert(solid_or_outside(g, x + 1, y - 1));
    assert(solid_or_outside(g, x - 1, y));
    assert(solid_or_outside(g, x + 1, y));
    assert(solid_or_outside(g, x - 1, y + 1));
    assert(solid_or_outside(g, x, y + 1));
    assert(solid_or_outside(g, x + 1, y + 1));
}

} // verus!
