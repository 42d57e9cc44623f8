use black_quartz::{
    count_solid_neighbors, distribute_materials, generate_cave, get_tile_to_render, simulation,
    DrillOutcome, Drilling, GridError, TileType, WorldGrid,
};
use TileType::{Copper, Crystal, Empty, Gold, Iron, Sand, Solid};

fn filled(width: usize, height: usize, kind: TileType) -> Vec<Vec<TileType>> {
    vec![vec![kind; width]; height]
}

fn noise_field(width: usize, height: usize, level: u32) -> Vec<Vec<u32>> {
    vec![vec![level; width]; height]
}

#[test]
fn drill_destroys_then_no_target() {
    let mut tiles = filled(5, 5, Empty);
    tiles[2][2] = Solid;
    let mut grid = WorldGrid::from_tiles(tiles).unwrap();
    grid.set_drilling((2, 2), Drilling { integrity: 1000, hardness: 0 }).unwrap();
    assert_eq!(grid.apply_drill((2, 2), 1000, 1000), DrillOutcome::Destroyed(Solid));
    assert_eq!(grid.tile_at((2, 2)), Some(Empty));
    assert_eq!(grid.apply_drill((2, 2), 1000, 1000), DrillOutcome::NoTarget);
}

#[test]
fn drilling_never_raises_integrity() {
    let mut tiles = filled(3, 3, Empty);
    tiles[1][1] = Iron;
    let mut grid = WorldGrid::from_tiles(tiles).unwrap();
    // Iron starts at 600 thousandths with hardness 300: each 100 ms tick at
    // power 1000 removes 1000 * 100 * 700 / 1_000_000 = 70.
    let mut last = grid.drilling_at((1, 1)).unwrap().integrity;
    assert_eq!(last, 600);
    let mut ticks = 0;
    loop {
        ticks += 1;
        match grid.apply_drill((1, 1), 1000, 100) {
            DrillOutcome::StillSolid => {
                let now = grid.drilling_at((1, 1)).unwrap().integrity;
                assert_eq!(now, last - 70);
                last = now;
            }
            DrillOutcome::Destroyed(kind) => {
                assert_eq!(kind, Iron);
                break;
            }
            DrillOutcome::NoTarget => panic!("the tile vanished"),
        }
    }
    assert_eq!(ticks, 9);
    assert_eq!(grid.drilling_at((1, 1)), None);
    assert_eq!(grid.apply_drill((1, 1), 1000, 100), DrillOutcome::NoTarget);
    assert_eq!(grid.tile_at((1, 1)), Some(Empty));
}

#[test]
fn drill_without_power_or_on_hard_rock_changes_nothing() {
    let mut tiles = filled(2, 2, Solid);
    tiles[0][0] = Empty;
    let mut grid = WorldGrid::from_tiles(tiles).unwrap();
    assert_eq!(grid.apply_drill((1, 0), 0, 1000), DrillOutcome::StillSolid);
    assert_eq!(grid.drilling_at((1, 0)).unwrap().integrity, 400);
    grid.set_drilling((1, 1), Drilling { integrity: 10, hardness: 1000 }).unwrap();
    assert_eq!(grid.apply_drill((1, 1), u32::MAX, u32::MAX), DrillOutcome::StillSolid);
    assert_eq!(grid.drilling_at((1, 1)).unwrap().integrity, 10);
    assert_eq!(grid.apply_drill((0, 0), 1000, 1000), DrillOutcome::NoTarget);
    assert_eq!(grid.apply_drill((5, 0), 1000, 1000), DrillOutcome::NoTarget);
    assert_eq!(grid.apply_drill((-1, 0), 1000, 1000), DrillOutcome::NoTarget);
}

#[test]
fn tile_lookup_table() {
    let expect = [
        (Solid, 400, 100, 0),
        (Sand, 100, 50, 3),
        (Copper, 400, 200, 5),
        (Iron, 600, 300, 4),
        (Gold, 400, 200, 6),
        (Crystal, 100, 70, 7),
        (Empty, 0, 0, 0),
    ];
    for (kind, integrity, hardness, index) in expect {
        let (tile, i) = get_tile_to_render(&kind);
        assert_eq!(tile.tile_type, kind);
        assert_eq!(tile.drilling, Drilling { integrity, hardness });
        assert_eq!(i, index);
    }
}

#[test]
fn from_tiles_rejects_bad_shapes() {
    assert_eq!(WorldGrid::from_tiles(vec![]).err(), Some(GridError::InvalidDimensions));
    assert_eq!(WorldGrid::from_tiles(vec![vec![]]).err(), Some(GridError::InvalidDimensions));
    let ragged = vec![vec![Solid, Solid], vec![Solid]];
    assert_eq!(WorldGrid::from_tiles(ragged).err(), Some(GridError::InvalidDimensions));
    let grid = WorldGrid::from_tiles(filled(3, 2, Sand)).unwrap();
    assert_eq!(grid.width(), 3);
    assert_eq!(grid.height(), 2);
    assert_eq!(grid.tile_at((2, 1)), Some(Sand));
    assert_eq!(grid.tile_at((3, 1)), None);
    assert_eq!(grid.tile_at((0, -1)), None);
    assert_eq!(grid.drilling_at((0, 0)), Some(Drilling { integrity: 100, hardness: 50 }));
}

#[test]
fn set_drilling_off_grid_fails() {
    let mut grid = WorldGrid::from_tiles(filled(2, 2, Solid)).unwrap();
    let d = Drilling { integrity: 5, hardness: 5 };
    assert_eq!(grid.set_drilling((2, 0), d), Err(GridError::OutOfBounds));
    assert_eq!(grid.set_drilling((0, 0), d), Ok(()));
    assert_eq!(grid.drilling_at((0, 0)), Some(d));
}

#[test]
fn neighbor_count_treats_off_grid_as_solid() {
    let tiles = filled(3, 3, Empty);
    assert_eq!(count_solid_neighbors(&tiles, 1, 1), 0);
    assert_eq!(count_solid_neighbors(&tiles, 0, 0), 5);
    assert_eq!(count_solid_neighbors(&tiles, 1, 0), 3);
    let mut tiles = filled(3, 3, Empty);
    tiles[1][1] = Solid;
    tiles[0][1] = Iron;
    assert_eq!(count_solid_neighbors(&tiles, 0, 0), 6);
    assert_eq!(count_solid_neighbors(&tiles, 2, 2), 6);
}

#[test]
fn solid_corner_survives_smoothing() {
    let mut tiles = filled(4, 4, Empty);
    tiles[0][0] = Solid;
    tiles[0][1] = Solid;
    tiles[1][0] = Solid;
    tiles[1][1] = Solid;
    assert_eq!(count_solid_neighbors(&tiles, 0, 0), 8);
    let next = simulation(&tiles, 3);
    assert_eq!(next[0][0], Solid);
}

#[test]
fn simulation_rules() {
    // An isolated solid cell in the middle has no solid neighbours: it goes.
    let mut tiles = filled(5, 5, Empty);
    tiles[2][2] = Solid;
    let next = simulation(&tiles, 10);
    assert_eq!(next[2][2], Empty);
    // An empty cell with five solid neighbours fills in.
    let mut tiles = filled(5, 5, Empty);
    for (x, y) in [(1, 1), (2, 1), (3, 1), (1, 2), (3, 2)] {
        tiles[y][x] = Solid;
    }
    let next = simulation(&tiles, 10);
    assert_eq!(next[2][2], Solid);
    // Four are not enough.
    tiles[2][3] = Empty;
    let next = simulation(&tiles, 10);
    assert_eq!(next[2][2], Empty);
    // Materials are never changed by the rule.
    let mut tiles = filled(3, 3, Empty);
    tiles[1][1] = Gold;
    assert_eq!(simulation(&tiles, 10)[1][1], Gold);
}

#[test]
fn simulation_forces_the_seam_cell() {
    let tiles = filled(5, 5, Empty);
    for s in 0..5 {
        let next = simulation(&tiles, s);
        for y in 0..5 {
            for x in 0..5 {
                // A corner has five off-grid neighbours, which count as
                // solid, so it fills in; other border cells have three.
                let corner = (x == 0 || x == 4) && (y == 0 || y == 4);
                let want = if (y == 0 && x == s) || corner { Solid } else { Empty };
                assert_eq!(next[y][x], want, "step {} cell ({}, {})", s, x, y);
            }
        }
    }
    // Off the grid, nothing is forced.
    let next = simulation(&tiles, 7);
    assert_eq!(next[0][2], Empty);
    assert_eq!(next[0][0], Solid);
}

#[test]
fn materials_follow_depth_bands() {
    // Ten rows: rows 8 and 9 are the top 20%, rows 2..=7 the middle 60%,
    // rows 0 and 1 the deepest 20%.
    let tiles = filled(1, 10, Solid);
    let cases = [
        (0, Solid, Solid, Solid),
        (699, Solid, Solid, Solid),
        (700, Sand, Iron, Iron),
        (799, Sand, Iron, Iron),
        (800, Copper, Iron, Gold),
        (899, Copper, Iron, Gold),
        (900, Iron, Gold, Crystal),
        (1000, Iron, Gold, Crystal),
    ];
    for (level, shallow, mid, deep) in cases {
        let out = distribute_materials(&tiles, &noise_field(1, 10, level));
        for y in 0..10 {
            let want = if y >= 8 { shallow } else if y >= 2 { mid } else { deep };
            assert_eq!(out[y][0], want, "level {} row {}", level, y);
        }
    }
}

#[test]
fn materials_keep_empty_and_other_cells() {
    let tiles = vec![vec![Empty, Solid, Gold]; 5];
    let out = distribute_materials(&tiles, &noise_field(3, 5, 950));
    for y in 0..5 {
        assert_eq!(out[y][0], Empty);
        assert_ne!(out[y][1], Empty);
        assert_eq!(out[y][2], Gold);
    }
    assert_eq!(out[4][1], Iron);
    assert_eq!(out[2][1], Gold);
    assert_eq!(out[0][1], Crystal);
}

#[test]
fn cave_fill_extremes() {
    assert_eq!(generate_cave(6, 4, 1000, 0, 7), filled(6, 4, Solid));
    assert_eq!(generate_cave(6, 4, 0, 0, 7), filled(6, 4, Empty));
}

#[test]
fn cave_fill_is_random_but_seeded() {
    let a = generate_cave(20, 20, 500, 0, 42);
    let solid = a.iter().flatten().filter(|t| **t == Solid).count();
    assert!(solid > 0 && solid < 400);
    assert_eq!(a, generate_cave(20, 20, 500, 0, 42));
}

#[test]
fn generation_is_deterministic() {
    let noise = noise_field(30, 40, 850);
    let a = WorldGrid::generate_world(30, 40, 550, 4, 1234, &noise).unwrap();
    let b = WorldGrid::generate_world(30, 40, 550, 4, 1234, &noise).unwrap();
    for y in 0..40 {
        for x in 0..30 {
            assert_eq!(a.tile_at((x, y)), b.tile_at((x, y)));
            assert_eq!(a.drilling_at((x, y)), b.drilling_at((x, y)));
        }
    }
    // The seam cells of the four steps are solid before materials are placed;
    // row 0 is in the deepest band, where level 850 gives gold.
    for s in 0..4 {
        assert_eq!(a.tile_at((s, 0)), Some(Gold));
    }
}

#[test]
fn generate_world_rejects_bad_dimensions() {
    let noise = noise_field(4, 4, 0);
    assert_eq!(
        WorldGrid::generate_world(0, 4, 550, 4, 1, &noise).err(),
        Some(GridError::InvalidDimensions)
    );
    assert_eq!(
        WorldGrid::generate_world(4, 5, 550, 4, 1, &noise).err(),
        Some(GridError::InvalidDimensions)
    );
    assert!(WorldGrid::generate_world(4, 4, 550, 4, 1, &noise).is_ok());
}
