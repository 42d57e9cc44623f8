use black_quartz::{
    drill, grid_to_world_position, idx_to_world_position, update_fov, visible_cells,
    world_position_to_cell, world_position_to_idx, world_to_grid_position, Area, CameraPlugin,
    DrillDirection, DrillOutcome, DrillState, FieldOfView, HUDPlugin, Currency, TileType,
    WorldGrid, TILE_SIZE,
};
use TileType::{Empty, Solid};

fn filled(width: usize, height: usize, kind: TileType) -> Vec<Vec<TileType>> {
    vec![vec![kind; width]; height]
}

fn sorted(mut cells: Vec<(i32, i32)>) -> Vec<(i32, i32)> {
    cells.sort();
    cells
}

#[test]
fn fov_corner_of_open_grid() {
    let grid = WorldGrid::from_tiles(filled(3, 3, Empty)).unwrap();
    let seen = visible_cells(&grid, (0, 0), 1);
    assert_eq!(sorted(seen), vec![(0, 0), (0, 1), (1, 0), (1, 1)]);
    let seen = visible_cells(&grid, (1, 1), 1);
    assert_eq!(seen.len(), 9);
}

#[test]
fn fov_stops_at_the_first_tile() {
    // A wall at x = 2 across a 6 by 3 grid: the wall is seen, nothing behind.
    let mut tiles = filled(6, 3, Empty);
    for y in 0..3 {
        tiles[y][2] = Solid;
    }
    let grid = WorldGrid::from_tiles(tiles).unwrap();
    let seen = sorted(visible_cells(&grid, (0, 1), 10));
    let mut want = vec![];
    for x in 0..3 {
        for y in 0..3 {
            want.push((x, y));
        }
    }
    assert_eq!(seen, want);
}

#[test]
fn fov_respects_the_radius() {
    let grid = WorldGrid::from_tiles(filled(9, 9, Empty)).unwrap();
    for r in 0..6u32 {
        let seen = visible_cells(&grid, (4, 4), r);
        for (x, y) in &seen {
            assert!((x - 4).abs() <= r as i32 && (y - 4).abs() <= r as i32);
        }
        let side = (2 * r.min(4) + 1) as usize;
        assert_eq!(seen.len(), side * side);
    }
}

#[test]
fn fov_solid_observer_sees_only_itself() {
    let mut tiles = filled(3, 3, Empty);
    tiles[1][1] = Solid;
    let grid = WorldGrid::from_tiles(tiles).unwrap();
    assert_eq!(visible_cells(&grid, (1, 1), 5), vec![(1, 1)]);
    assert_eq!(visible_cells(&grid, (7, 1), 5), vec![]);
    assert_eq!(visible_cells(&grid, (-1, 0), 5), vec![]);
}

#[test]
fn fov_follows_winding_corridor() {
    // Row 0 open, row 1 solid except at x = 4, row 2 open: from (0, 0) the
    // top row is reached only around through x = 4.
    let mut tiles = filled(5, 3, Empty);
    for x in 0..4 {
        tiles[1][x] = Solid;
    }
    let grid = WorldGrid::from_tiles(tiles).unwrap();
    let seen = visible_cells(&grid, (0, 0), 4);
    assert!(seen.contains(&(3, 1)));
    assert!(seen.contains(&(4, 1)));
    assert!(!seen.contains(&(3, 2)));
    let seen = visible_cells(&grid, (0, 0), 5);
    assert!(seen.contains(&(3, 2)));
    assert!(!seen.contains(&(2, 2)));
    assert!(!seen.contains(&(0, 2)));
    let seen = visible_cells(&grid, (0, 0), 100);
    assert!(seen.contains(&(0, 2)));
}

#[test]
fn update_fov_replaces_and_flags() {
    let grid = WorldGrid::from_tiles(filled(4, 4, Empty)).unwrap();
    let mut fov = FieldOfView::default();
    assert_eq!(fov.radius, 10);
    assert!(!fov.dirty);
    // World (0, -32) is grid position (0, -1), cell (2, 3) of a 4 by 4 grid.
    update_fov(&mut fov, &grid, (0, -32));
    assert_eq!(fov.visible_tiles.len(), 16);
    assert!(fov.dirty);
    fov.dirty = false;
    // Far off the grid nothing is seen, and the old cells are gone.
    update_fov(&mut fov, &grid, (10_000, 10_000));
    assert!(fov.visible_tiles.is_empty());
    assert!(!fov.dirty);
}

#[test]
fn world_grid_round_trip() {
    assert_eq!(TILE_SIZE, 32);
    for c in -100..100 {
        let w = grid_to_world_position((c, -c));
        assert_eq!(w, (c * 32, -c * 32));
        assert_eq!(world_to_grid_position(w), (c, -c));
    }
    for y in 0..7usize {
        for x in 0..10usize {
            let w = idx_to_world_position((x, y), 10, 7).unwrap();
            assert_eq!(world_position_to_idx(w, 10, 7), Some((x, y)));
        }
    }
    assert_eq!(idx_to_world_position((10, 0), 10, 7), None);
}

#[test]
fn world_to_grid_rounds_half_away_from_zero() {
    assert_eq!(world_to_grid_position((0, 0)), (0, 0));
    assert_eq!(world_to_grid_position((15, -15)), (0, 0));
    assert_eq!(world_to_grid_position((16, -16)), (1, -1));
    assert_eq!(world_to_grid_position((47, -47)), (1, -1));
    assert_eq!(world_to_grid_position((48, -48)), (2, -2));
    assert_eq!(world_to_grid_position((i32::MAX, i32::MIN)), (67108864, -67108864));
}

#[test]
fn world_position_cells() {
    // A 100 by 500 grid: x = 0 is column 50, y = -32 is the top row.
    assert_eq!(world_position_to_cell((0, -32), 100, 500), (50, 499));
    assert_eq!(world_position_to_idx((0, -32), 100, 500), Some((50, 499)));
    assert_eq!(world_position_to_idx((-1600, -16000), 100, 500), Some((0, 0)));
    assert_eq!(world_position_to_cell((0, 25), 100, 500), (50, 501));
    assert_eq!(world_position_to_idx((0, 25), 100, 500), None);
    assert_eq!(world_position_to_idx((-1617, -32), 100, 500), None);
}

#[test]
fn drill_from_player_position() {
    // A 4 by 4 grid, all solid but the top row; the player stands on cell
    // (2, 3) (world (0, -32)).
    let mut tiles = filled(4, 4, Solid);
    for x in 0..4 {
        tiles[3][x] = Empty;
    }
    let mut grid = WorldGrid::from_tiles(tiles).unwrap();
    // Flying: no drilling.
    let r = drill(&mut grid, DrillState::Flying, (0, -32), Some(DrillDirection::Down), 1000, 1000);
    assert_eq!(r, (DrillState::Flying, DrillOutcome::NoTarget));
    assert_eq!(grid.tile_at((2, 2)), Some(Solid));
    // No direction held.
    let r = drill(&mut grid, DrillState::Idle, (0, -32), None, 1000, 1000);
    assert_eq!(r, (DrillState::Idle, DrillOutcome::NoTarget));
    // Sideways into open air: nothing to drill.
    let r = drill(&mut grid, DrillState::Idle, (0, -32), Some(DrillDirection::Left), 1000, 1000);
    assert_eq!(r, (DrillState::Idle, DrillOutcome::NoTarget));
    // Down: solid rock, 400 thousandths, hardness 100: 200 ms removes 180.
    let r = drill(&mut grid, DrillState::Idle, (0, -32), Some(DrillDirection::Down), 1000, 200);
    assert_eq!(r, (DrillState::Drilling, DrillOutcome::StillSolid));
    assert_eq!(grid.drilling_at((2, 2)).unwrap().integrity, 220);
    let r = drill(&mut grid, DrillState::Drilling, (0, -32), Some(DrillDirection::Down), 1000, 200);
    assert_eq!(r, (DrillState::Drilling, DrillOutcome::StillSolid));
    assert_eq!(grid.drilling_at((2, 2)).unwrap().integrity, 40);
    let r = drill(&mut grid, DrillState::Drilling, (0, -32), Some(DrillDirection::Down), 1000, 200);
    assert_eq!(r, (DrillState::Drilling, DrillOutcome::Destroyed(Solid)));
    assert_eq!(grid.tile_at((2, 2)), Some(Empty));
}

#[test]
fn default_drill_state_is_idle() {
    assert_eq!(DrillState::default(), DrillState::Idle);
}

#[test]
fn camera_follows_inside_the_map() {
    let view = Area { min_x: -100, min_y: -50, max_x: 100, max_y: 50 };
    let map = Area { min_x: -1000, min_y: -2000, max_x: 1000, max_y: 2000 };
    let moved = CameraPlugin::follow_player((10, 20), DrillState::Idle, (0, 0), view, map);
    assert_eq!(moved, (10, 20));
    let edge = CameraPlugin::follow_player((950, -1960), DrillState::Flying, (3, 4), view, map);
    assert_eq!(edge, (3, 4));
    let half = CameraPlugin::follow_player((900, -1960), DrillState::Falling, (3, 4), view, map);
    assert_eq!(half, (900, 4));
    let still = CameraPlugin::follow_player((10, 20), DrillState::Drilling, (0, 0), view, map);
    assert_eq!(still, (0, 0));
}

#[test]
fn map_area_of_grid() {
    let grid = WorldGrid::from_tiles(filled(100, 500, Solid)).unwrap();
    assert_eq!(
        grid.map_area(),
        Area { min_x: -1616, min_y: -16016, max_x: 1584, max_y: 15984 }
    );
}

#[test]
fn hud_readouts() {
    assert_eq!(HUDPlugin::depth_text((0, -320)), "-10");
    assert_eq!(HUDPlugin::depth_text((0, 25)), "1");
    assert_eq!(HUDPlugin::depth_text((0, 0)), "0");
    assert_eq!(HUDPlugin::currency_text(&Currency::default()), "100");
    assert_eq!(HUDPlugin::currency_text(&Currency { amount: 4_294_967_295 }), "4294967295");
}
