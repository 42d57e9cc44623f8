//! Tile kinds and the drilling parameters that each kind starts with.

use vstd::prelude::*;

verus! {

/// What occupies one grid cell.
#[derive(Clone, Copy, PartialEq, Eq, Debug, Structural)]
pub enum TileType {
    Solid,
    Sand,
    Iron,
    Copper,
    Gold,
    Crystal,
    Empty,
}

/// Drilling parameters of a tile, in fixed point: `integrity` in thousandths
/// of a unit of integrity, `hardness` in thousandths (a hardness of 1000 or
/// more makes the tile undrillable).
#[derive(Clone, Copy, PartialEq, Eq, Debug, Structural)]
pub struct Drilling {
    pub integrity: u32,
    pub hardness: u32,
}

/// A tile as it stands in the world: its kind and its current drilling state.
#[derive(Clone, Copy, PartialEq, Eq, Debug, Structural)]
pub struct Tile {
    pub tile_type: TileType,
    pub drilling: Drilling,
}

/// The drilling parameters a freshly placed tile of kind `k` starts with.
pub open spec fn drilling_of(k: TileType) -> Drilling {
    match k {
        TileType::Solid => Drilling { integrity: 400, hardness: 100 },
        TileType::Sand => Drilling { integrity: 100, hardness: 50 },
        TileType::Copper => Drilling { integrity: 400, hardness: 200 },
        TileType::Iron => Drilling { integrity: 600, hardness: 300 },
        TileType::Gold => Drilling { integrity: 400, hardness: 200 },
        TileType::Crystal => Drilling { integrity: 100, hardness: 70 },
        TileType::Empty => Drilling { integrity: 0, hardness: 0 },
    }
}

/// The index of the kind's picture in the terrain texture atlas.
pub open spec fn atlas_index_of(k: TileType) -> usize {
    match k {
        TileType::Solid => 0,
        TileType::Sand => 3,
        TileType::Copper => 5,
        TileType::Iron => 4,
        TileType::Gold => 6,
        TileType::Crystal => 7,
        TileType::Empty => 0,
    }
}

/// The tile to place for a cell of kind `tile_type`, with its atlas index.
pub fn get_tile_to_render(tile_type: &TileType) -> (r: (Tile, usize))
    ensures
        r.0.tile_type == *tile_type,
        r.0.drilling == drilling_of(*tile_type),
        r.1 == atlas_index_of(*tile_type),
{
    let (integrity, hardness, index): (u32, u32, usize) = match tile_type {
        TileType::Solid => (400, 100, 0),
        TileType::Sand => (100, 50, 3),
        TileType::Copper => (400, 200, 5),
        TileType::Iron => (600, 300, 4),
        TileType::Gold => (400, 200, 6),
        TileType::Crystal => (100, 70, 7),
        TileType::Empty => (0, 0, 0),
    };
    (Tile { tile_type: *tile_type, drilling: Drilling { integrity, hardness } }, index)
}

} // verus!
