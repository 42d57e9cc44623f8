//! The world grid: the kind of every cell and the drilling state of every
//! tile, built once and then changed only by excavation.

use crate::cave::{cave_of, generate_cave};
use crate::coords::{Area, TILE_SIZE};
use crate::grid::{
    grid_from, has_dims, height_of, in_grid, is_grid, lemma_grid_from_dims, rows_of, width_of,
    MAX_GRID_DIM,
};
use crate::materials::{distribute_materials, materialized};
use crate::tile::{drilling_of, get_tile_to_render, Drilling, TileType};
use vstd::prelude::*;

verus! {

/// Why a grid could not be built or a cell could not be reached.
#[derive(Clone, Copy, PartialEq, Eq, Debug, Structural)]
pub enum GridError {
    /// A width or height of zero or above `MAX_GRID_DIM`, rows of unequal
    /// length, or a noise field of other dimensions than the grid.
    InvalidDimensions,
    /// A cell off the grid.
    OutOfBounds,
}

/// What one application of the drill did to its target.
#[derive(Clone, Copy, PartialEq, Eq, Debug, Structural)]
pub enum DrillOutcome {
    /// The tile is still there.
    StillSolid,
    /// The tile was excavated; it held this material.
    Destroyed(TileType),
    /// There is no tile at the target: the cell is `Empty` or off the grid.
    NoTarget,
}

/// The grid as a mathematical value.
pub struct GridModel {
    pub tiles: Seq<Seq<TileType>>,
    pub drilling: Seq<Seq<Drilling>>,
}

impl GridModel {
    /// A grid, with one drilling state per cell.
    pub open spec fn wf(self) -> bool {
        is_grid(self.tiles) && has_dims(self.drilling, width_of(self.tiles), height_of(self.tiles))
    }

    pub open spec fn width(self) -> int {
        width_of(self.tiles)
    }

    pub open spec fn height(self) -> int {
        height_of(self.tiles)
    }

    pub open spec fn contains(self, c: (i32, i32)) -> bool {
        in_grid(self.tiles, c.0 as int, c.1 as int)
    }

    pub open spec fn kind(self, c: (i32, i32)) -> TileType {
        self.tiles[c.1 as int][c.0 as int]
    }

    /// A tile stands at `c`: it is on the grid and not `Empty`.
    pub open spec fn has_tile(self, c: (i32, i32)) -> bool {
        self.contains(c) && self.kind(c) != TileType::Empty
    }

    pub open spec fn drilling_at(self, c: (i32, i32)) -> Drilling {
        self.drilling[c.1 as int][c.0 as int]
    }
}

/// The drilling state that each cell of `g` starts with.
pub open spec fn initial_drilling(g: Seq<Seq<TileType>>) -> Seq<Seq<Drilling>> {
    grid_from(width_of(g), height_of(g), |x: int, y: int| drilling_of(g[y][x]))
}

/// A freshly built world over the kinds `g`.
pub open spec fn fresh_world(g: Seq<Seq<TileType>>) -> GridModel {
    GridModel { tiles: g, drilling: initial_drilling(g) }
}

/// The world that `generate_world` builds.
pub open spec fn generated_world(
    w: int,
    h: int,
    fill_per_mille: u32,
    steps: nat,
    seed: u64,
    noise: Seq<Seq<u32>>,
) -> GridModel {
    fresh_world(materialized(cave_of(w, h, fill_per_mille, steps, seed), noise))
}

/// How much integrity one application of the drill removes: `power` is in
/// thousandths of a unit of integrity per second, `dt_ms` in milliseconds,
/// and the rate is scaled by `1 - hardness` (rounded down; nothing at all
/// for a hardness of 1000 or more).
pub open spec fn drill_decrement(power: u32, dt_ms: u32, hardness: u32) -> int {
    if hardness >= 1000 {
        0
    } else {
        (power as int * dt_ms as int * (1000 - hardness as int)) / 1_000_000
    }
}

/// The grid after drilling cell `c`, and what the drill reports. A tile
/// whose integrity the drill removes entirely becomes `Empty` (its
/// integrity set to zero); a drill that removes nothing changes nothing.
pub open spec fn drill_result(m: GridModel, c: (i32, i32), power: u32, dt_ms: u32) -> (
    GridModel,
    DrillOutcome,
) {
    if !m.has_tile(c) {
        (m, DrillOutcome::NoTarget)
    } else {
        let d = m.drilling_at(c);
        let dec = drill_decrement(power, dt_ms, d.hardness);
        let (x, y) = (c.0 as int, c.1 as int);
        if dec == 0 {
            (m, DrillOutcome::StillSolid)
        } else if dec >= d.integrity {
            (
                GridModel {
                    tiles: m.tiles.update(y, m.tiles[y].update(x, TileType::Empty)),
                    drilling: m.drilling.update(
                        y,
                        m.drilling[y].update(x, Drilling { integrity: 0, hardness: d.hardness }),
                    ),
                },
                DrillOutcome::Destroyed(m.kind(c)),
            )
        } else {
            (
                GridModel {
                    tiles: m.tiles,
                    drilling: m.drilling.update(
                        y,
                        m.drilling[y].update(
                            x,
                            Drilling { integrity: (d.integrity - dec) as u32, hardness: d.hardness },
                        ),
                    ),
                },
                DrillOutcome::StillSolid,
            )
        }
    }
}

/// Drilling never raises the integrity of any tile and never refills a
/// cell: an `Empty` cell stays `Empty`. A tile drilled away leaves an
/// `Empty` cell that any further drilling reports as `NoTarget`, changing
/// nothing.
pub proof fn lemma_drill_monotone(
    m: GridModel,
    c: (i32, i32),
    power: u32,
    dt_ms: u32,
    next_power: u32,
    next_dt_ms: u32,
)
    requires
        m.wf(),
    ensures
        ({
            let (m2, out) = drill_result(m, c, power, dt_ms);
            &&& m2.wf()
            &&& forall|e: (i32, i32)|
                m.contains(e) ==> #[trigger] m2.drilling_at(e).integrity <= m.drilling_at(e).integrity
            &&& forall|e: (i32, i32)|
                m.contains(e) && m.kind(e) == TileType::Empty ==> #[trigger] m2.kind(e)
                    == TileType::Empty
            &&& out is Destroyed ==> m2.kind(c) == TileType::Empty && drill_result(
                m2,
                c,
                next_power,
                next_dt_ms,
            ) == (m2, DrillOutcome::NoTarget)
        }),
{
    let (m2, out) = drill_result(m, c, power, dt_ms);
    let w = m.width();
    let h = m.height();
    assert(m.drilling.len() == h);
    if m.has_tile(c) {
        let y = c.1 as int;
        assert(m.tiles[y].len() == w);
        assert(m.drilling[y].len() == w);
        assert forall|j: int| 0 <= j < m2.tiles.len() implies #[trigger] m2.tiles[j].len()
            == m2.tiles[0].len() by {
            assert(m.tiles[j].len() == w);
        }
        assert forall|j: int| 0 <= j < m2.drilling.len() implies #[trigger] m2.drilling[j].len()
            == m2.drilling[0].len() by {
            assert(m.drilling[j].len() == w);
        }
    }
}

/// The world: the kind of every cell and the drilling state of every tile.
/// A cell holds a tile exactly when its kind is not `Empty`.
pub struct WorldGrid {
    tiles: Vec<Vec<TileType>>,
    drilling: Vec<Vec<Drilling>>,
}

impl View for WorldGrid {
    type V = GridModel;

    closed spec fn view(&self) -> GridModel {
        GridModel { tiles: rows_of(self.tiles@), drilling: rows_of(self.drilling@) }
    }
}

/// Whether `rows` is a grid; checked row by row.
fn check_dims<T>(rows: &Vec<Vec<T>>, width: usize, height: usize) -> (r: bool)
    ensures
        r == has_dims(rows_of(rows@), width as int, height as int),
{
    if width == 0 || width > MAX_GRID_DIM || height == 0 || height > MAX_GRID_DIM || rows.len()
        != height {
        return false;
    }
    let mut y: usize = 0;
    while y < height
        invariant
            0 < width <= MAX_GRID_DIM,
            0 < height <= MAX_GRID_DIM,
            rows@.len() == height,
            y <= height,
            forall|j: int| 0 <= j < y ==> #[trigger] rows@[j]@.len() == width,
        decreases height - y,
    {
        if rows[y].len() != width {
            assert(rows_of(rows@)[y as int].len() != width);
            return false;
        }
        y = y + 1;
    }
    assert forall|j: int| 0 <= j < rows_of(rows@).len() implies #[trigger] rows_of(rows@)[j].len()
        == rows_of(rows@)[0].len() by {
        assert(rows@[j]@.len() == width);
        assert(rows@[0]@.len() == width);
    }
    true
}

/// The drilling state each cell of `tiles` starts with.
fn initial_drilling_of(tiles: &Vec<Vec<TileType>>) -> (r: Vec<Vec<Drilling>>)
    requires
        is_grid(rows_of(tiles@)),
    ensures
        rows_of(r@) == initial_drilling(rows_of(tiles@)),
        has_dims(rows_of(r@), width_of(rows_of(tiles@)), height_of(rows_of(tiles@))),
{
    let ghost g = rows_of(tiles@);
    let height = tiles.len();
    let width = tiles[0].len();
    let mut out: Vec<Vec<Drilling>> = Vec::new();
    let mut y: usize = 0;
    while y < height
        invariant
            g == rows_of(tiles@),
            is_grid(g),
            height == height_of(g),
            width == width_of(g),
            y <= height,
            out@.len() == y,
            forall|j: int| 0 <= j < y ==> #[trigger] out@[j]@.len() == width,
            forall|j: int, x: int|
                0 <= j < y && 0 <= x < width ==> #[trigger] out@[j]@[x] == drilling_of(g[j][x]),
        decreases height - y,
    {
        assert(g[y as int].len() == width);
        let src = &tiles[y];
        let mut row: Vec<Drilling> = Vec::new();
        let mut x: usize = 0;
        while x < width
            invariant
                g == rows_of(tiles@),
                is_grid(g),
                y < height,
                height == height_of(g),
                width == width_of(g),
                src@ == g[y as int],
                src@.len() == width,
                x <= width,
                row@.len() == x,
                forall|i: int| 0 <= i < x ==> #[trigger] row@[i] == drilling_of(g[y as int][i]),
            decreases width - x,
        {
            let (tile, _) = get_tile_to_render(&src[x]);
            row.push(tile.drilling);
            x = x + 1;
        }
        out.push(row);
        y = y + 1;
    }
    proof {
        lemma_grid_from_dims(width as int, height as int, |x: int, y: int| drilling_of(g[y][x]));
        assert(rows_of(out@) =~~= initial_drilling(g));
    }
    out
}

impl WorldGrid {
    /// A grid is well formed: every operation keeps it so.
    pub open spec fn wf(&self) -> bool {
        self@.wf()
    }

    /// A world over the given kinds, each tile with its kind's starting
    /// drilling state. Fails with `InvalidDimensions` unless `tiles` is a
    /// grid: non-empty, at most `MAX_GRID_DIM` each way, rows of equal length.
    pub fn from_tiles(tiles: Vec<Vec<TileType>>) -> (r: Result<WorldGrid, GridError>)
        ensures
            match r {
                Ok(w) => is_grid(rows_of(tiles@)) && w.wf() && w@ == fresh_world(rows_of(tiles@)),
                Err(e) => !is_grid(rows_of(tiles@)) && e == GridError::InvalidDimensions,
            },
    {
        let height = tiles.len();
        if height == 0 {
            return Err(GridError::InvalidDimensions);
        }
        let width = tiles[0].len();
        if !check_dims(&tiles, width, height) {
            return Err(GridError::InvalidDimensions);
        }
        let drilling = initial_drilling_of(&tiles);
        Ok(WorldGrid { tiles, drilling })
    }

    /// Generates a world: a `width` by `height` cave carved from `seed`
    /// (see `generate_cave`), whose `Solid` cells then take the materials
    /// that the noise field `noise` (`noise[y][x]` in thousandths) selects.
    /// Fails with `InvalidDimensions` when the dimensions are zero or above
    /// `MAX_GRID_DIM`, or `noise` is not `width` by `height`.
    pub fn generate_world(
        width: usize,
        height: usize,
        fill_per_mille: u32,
        steps: usize,
        seed: u64,
        noise: &Vec<Vec<u32>>,
    ) -> (r: Result<WorldGrid, GridError>)
        ensures
            match r {
                Ok(w) => has_dims(rows_of(noise@), width as int, height as int) && w.wf() && w@
                    == generated_world(
                    width as int,
                    height as int,
                    fill_per_mille,
                    steps as nat,
                    seed,
                    rows_of(noise@),
                ),
                Err(e) => e == GridError::InvalidDimensions && !has_dims(
                    rows_of(noise@),
                    width as int,
                    height as int,
                ),
            },
    {
        if !check_dims(noise, width, height) {
            return Err(GridError::InvalidDimensions);
        }
        let cave = generate_cave(width, height, fill_per_mille, steps, seed);
        let tiles = distribute_materials(&cave, noise);
        let drilling = initial_drilling_of(&tiles);
        Ok(WorldGrid { tiles, drilling })
    }

    pub fn width(&self) -> (r: usize)
        requires
            self.wf(),
        ensures
            r == self@.width(),
            0 < r <= MAX_GRID_DIM,
    {
        self.tiles[0].len()
    }

    pub fn height(&self) -> (r: usize)
        requires
            self.wf(),
        ensures
            r == self@.height(),
            0 < r <= MAX_GRID_DIM,
    {
        self.tiles.len()
    }

    /// The world-space extent of the map: the grid's width centred on the
    /// origin, and its height both below and above the surface (the room
    /// above is open sky), shifted by half a tile to align with the tiles'
    /// edges.
    pub fn map_area(&self) -> (r: Area)
        requires
            self.wf(),
        ensures
            r.min_x == -(self@.width() * TILE_SIZE / 2) - TILE_SIZE / 2,
            r.max_x == self@.width() * TILE_SIZE / 2 - TILE_SIZE / 2,
            r.min_y == -(self@.height() * TILE_SIZE) - TILE_SIZE / 2,
            r.max_y == self@.height() * TILE_SIZE - TILE_SIZE / 2,
    {
        let w = self.width() as i32;
        let h = self.height() as i32;
        let half = TILE_SIZE / 2;
        Area {
            min_x: -(w * TILE_SIZE / 2) - half,
            max_x: w * TILE_SIZE / 2 - half,
            min_y: -(h * TILE_SIZE) - half,
            max_y: h * TILE_SIZE - half,
        }
    }

    /// Whether `cell` lies on the grid.
    pub fn contains(&self, cell: (i32, i32)) -> (r: bool)
        requires
            self.wf(),
        ensures
            r == self@.contains(cell),
    {
        0 <= cell.0 && (cell.0 as usize) < self.width() && 0 <= cell.1 && (cell.1 as usize)
            < self.height()
    }

    /// The kind at `cell`, or `None` off the grid.
    pub fn tile_at(&self, cell: (i32, i32)) -> (r: Option<TileType>)
        requires
            self.wf(),
        ensures
            r == if self@.contains(cell) {
                Some(self@.kind(cell))
            } else {
                None::<TileType>
            },
    {
        if self.contains(cell) {
            let row = &self.tiles[cell.1 as usize];
            assert(rows_of(self.tiles@)[cell.1 as int].len() == rows_of(self.tiles@)[0].len());
            Some(row[cell.0 as usize])
        } else {
            None
        }
    }

    /// The drilling state of the tile at `cell`, or `None` when no tile
    /// stands there.
    pub fn drilling_at(&self, cell: (i32, i32)) -> (r: Option<Drilling>)
        requires
            self.wf(),
        ensures
            r == if self@.has_tile(cell) {
                Some(self@.drilling_at(cell))
            } else {
                None::<Drilling>
            },
    {
        match self.tile_at(cell) {
            Some(kind) => {
                if kind == TileType::Empty {
                    None
                } else {
                    let row = &self.drilling[cell.1 as usize];
                    assert(rows_of(self.drilling@)[cell.1 as int].len() == self@.width());
                    Some(row[cell.0 as usize])
                }
            },
            None => None,
        }
    }

    /// Sets the drilling state of the cell at `cell`; fails with
    /// `OutOfBounds` off the grid.
    pub fn set_drilling(&mut self, cell: (i32, i32), drilling: Drilling) -> (r: Result<
        (),
        GridError,
    >)
        requires
            old(self).wf(),
        ensures
            final(self).wf(),
            match r {
                Ok(()) => old(self)@.contains(cell) && final(self)@ == (GridModel {
                    tiles: old(self)@.tiles,
                    drilling: old(self)@.drilling.update(
                        cell.1 as int,
                        old(self)@.drilling[cell.1 as int].update(cell.0 as int, drilling),
                    ),
                }),
                Err(e) => !old(self)@.contains(cell) && e == GridError::OutOfBounds && final(self)@
                    == old(self)@,
            },
    {
        if !self.contains(cell) {
            return Err(GridError::OutOfBounds);
        }
        let ghost before = self@;
        let x = cell.0 as usize;
        let y = cell.1 as usize;
        assert(rows_of(self.drilling@)[y as int].len() == before.width());
        self.drilling[y][x] = drilling;
        proof {
            assert(self@.drilling =~~= before.drilling.update(
                y as int,
                before.drilling[y as int].update(x as int, drilling),
            ));
            assert(self@.tiles =~~= before.tiles);
        }
        Ok(())
    }

    /// Drills the tile at `target` with `power` (thousandths of a unit of
    /// integrity per second) for `dt_ms` milliseconds; see `drill_result`.
    /// A tile drilled away becomes `Empty` and its material is reported.
    pub fn apply_drill(&mut self, target: (i32, i32), power: u32, dt_ms: u32) -> (r: DrillOutcome)
        requires
            old(self).wf(),
        ensures
            final(self).wf(),
            (final(self)@, r) == drill_result(old(self)@, target, power, dt_ms),
    {
        let kind = match self.tile_at(target) {
            Some(k) => k,
            None => return DrillOutcome::NoTarget,
        };
        if kind == TileType::Empty {
            return DrillOutcome::NoTarget;
        }
        let ghost before = self@;
        let x = target.0 as usize;
        let y = target.1 as usize;
        assert(rows_of(self.drilling@)[y as int].len() == before.width());
        assert(rows_of(self.tiles@)[y as int].len() == before.width());
        let d = self.drilling[y][x];
        let dec: u128 = if d.hardness >= 1000 {
            0
        } else {
            proof {
                assert(power as int * dt_ms as int <= 0xffff_ffff * 0xffff_ffff) by (nonlinear_arith);
                assert(power as int * dt_ms as int * (1000 - d.hardness as int) <= 0xffff_ffff
                    * 0xffff_ffff * 1000) by (nonlinear_arith)
                    requires
                        power as int * dt_ms as int <= 0xffff_ffff * 0xffff_ffff,
                        d.hardness < 1000,
                ;
            }
            (power as u128 * dt_ms as u128 * (1000 - d.hardness) as u128) / 1_000_000
        };
        if dec == 0 {
            DrillOutcome::StillSolid
        } else if dec >= d.integrity as u128 {
            self.tiles[y][x] = TileType::Empty;
            self.drilling[y][x] = Drilling { integrity: 0, hardness: d.hardness };
            proof {
                let after = drill_result(before, target, power, dt_ms).0;
                assert(self@.tiles =~~= after.tiles);
                assert(self@.drilling =~~= after.drilling);
            }
            DrillOutcome::Destroyed(kind)
        } else {
            self.drilling[y][x] = Drilling { integrity: d.integrity - dec as u32, hardness: d.hardness };
            proof {
                let after = drill_result(before, target, power, dt_ms).0;
                assert(self@.tiles =~~= after.tiles);
                assert(self@.drilling =~~= after.drilling);
            }
            DrillOutcome::StillSolid
        }
    }
}

} // verus!
