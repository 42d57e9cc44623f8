//! The player's drill: which cell it bites and what becomes of the player's
//! state.

use crate::coords::{cell_of, grid_coord, world_position_to_cell, world_to_grid_position};
use crate::world::{drill_result, DrillOutcome, WorldGrid};
use vstd::prelude::*;

verus! {

/// What the drilling machine is doing.
#[derive(Clone, Copy, PartialEq, Eq, Debug, Structural)]
pub enum DrillState {
    Idle,
    Flying,
    Drilling,
    Falling,
}

impl Default for DrillState {
    fn default() -> (r: DrillState)
        ensures
            r == DrillState::Idle,
    {
        DrillState::Idle
    }
}

impl DrillState {
    /// The picture of the machine in this state, in the player's texture
    /// atlas.
    pub fn atlas_index(&self) -> (r: usize)
        ensures
            r == match *self {
                DrillState::Idle => 2usize,
                DrillState::Flying => 3,
                DrillState::Falling => 1,
                DrillState::Drilling => 0,
            },
    {
        match self {
            DrillState::Idle => 2,
            DrillState::Flying => 3,
            DrillState::Falling => 1,
            DrillState::Drilling => 0,
        }
    }
}

/// A direction the drill can point in; drilling upward is not possible.
#[derive(Clone, Copy, PartialEq, Eq, Debug, Structural)]
pub enum DrillDirection {
    Left,
    Right,
    Down,
}

/// The cell offset of a direction (`y` grows upward).
pub open spec fn offset_of(d: DrillDirection) -> (int, int) {
    match d {
        DrillDirection::Left => (-1, 0),
        DrillDirection::Right => (1, 0),
        DrillDirection::Down => (0, -1),
    }
}

/// The drill may bite only while the machine stands or is already drilling.
pub open spec fn can_drill(s: DrillState) -> bool {
    s == DrillState::Idle || s == DrillState::Drilling
}

/// One tick of drilling by the player at world position `player_position`
/// in the direction held, if any. When the machine can drill, the cell next
/// to the player's cell in that direction is drilled (see `drill_result`)
/// and, if a tile stood there, the machine is `Drilling` afterwards.
/// Otherwise nothing changes. Returns the new state and the outcome
/// (`NoTarget` when nothing was drilled).
pub fn drill(
    grid: &mut WorldGrid,
    state: DrillState,
    player_position: (i32, i32),
    direction: Option<DrillDirection>,
    power: u32,
    dt_ms: u32,
) -> (r: (DrillState, DrillOutcome))
    requires
        old(grid).wf(),
    ensures
        final(grid).wf(),
        match direction {
            Some(d) if can_drill(state) => {
                let c = cell_of(
                    old(grid)@.width(),
                    old(grid)@.height(),
                    (grid_coord(player_position.0 as int), grid_coord(player_position.1 as int)),
                );
                let t = ((c.0 + offset_of(d).0) as i32, (c.1 + offset_of(d).1) as i32);
                let (m2, out) = drill_result(old(grid)@, t, power, dt_ms);
                &&& final(grid)@ == m2
                &&& r.1 == out
                &&& r.0 == if out == DrillOutcome::NoTarget {
                    state
                } else {
                    DrillState::Drilling
                }
            },
            _ => final(grid)@ == old(grid)@ && r == (state, DrillOutcome::NoTarget),
        },
{
    let d = match direction {
        Some(d) => d,
        None => return (state, DrillOutcome::NoTarget),
    };
    if state != DrillState::Idle && state != DrillState::Drilling {
        return (state, DrillOutcome::NoTarget);
    }
    let cell = world_position_to_cell(player_position, grid.width(), grid.height());
    let target = match d {
        DrillDirection::Left => (cell.0 - 1, cell.1),
        DrillDirection::Right => (cell.0 + 1, cell.1),
        DrillDirection::Down => (cell.0, cell.1 - 1),
    };
    let outcome = grid.apply_drill(target, power, dt_ms);
    match outcome {
        DrillOutcome::NoTarget => (state, outcome),
        _ => (DrillState::Drilling, outcome),
    }
}

/// The machine's state after it touched a tile: landing on a tile in its
/// own column (by grid position) leaves it `Idle`; any other contact keeps
/// its state.
pub fn collision_detection(
    player_position: (i32, i32),
    tile_position: (i32, i32),
    state: DrillState,
) -> (r: DrillState)
    ensures
        r == if grid_coord(player_position.0 as int) == grid_coord(tile_position.0 as int) {
            DrillState::Idle
        } else {
            state
        },
{
    let player_cell = world_to_grid_position(player_position);
    let tile_cell = world_to_grid_position(tile_position);
    if player_cell.0 == tile_cell.0 {
        DrillState::Idle
    } else {
        state
    }
}

} // verus!
