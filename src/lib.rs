//! Procedural cave worlds for a side-scrolling drilling game: cellular-automata
//! terrain, depth-banded minerals, field of view and excavation, each stated
//! over a mathematical model of the grid and proved against it.

pub mod camera;
pub mod cave;
pub mod coords;
pub mod fov;
pub mod game;
pub mod grid;
pub mod hud;
pub mod inventory;
pub mod materials;
pub mod player;
pub mod text;
pub mod tile;
pub mod world;

pub use camera::CameraPlugin;
pub use cave::{count_solid_neighbors, generate_cave, simulation, PER_MILLE};
pub use coords::{
    Area,
    grid_to_world_position, idx_to_world_position, world_position_to_cell,
    world_position_to_idx, world_to_grid_position, TILE_SIZE,
};
pub use fov::{update_fov, visible_cells, FieldOfView};
pub use game::{
    check_loading_progress, handle_button_interaction, GameState, LoadingProgress, MenuAction,
    MenuButton, MenuState,
};
pub use grid::MAX_GRID_DIM;
pub use hud::HUDPlugin;
pub use inventory::{sell_all_inventory, Currency, Inventory, Item};
pub use materials::distribute_materials;
pub use player::{collision_detection, drill, DrillDirection, DrillState};
pub use tile::{get_tile_to_render, Drilling, Tile, TileType};
pub use world::{DrillOutcome, GridError, WorldGrid};
