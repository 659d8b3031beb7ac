use krunker_client::map::{GameMap, MapParseError, RawMap, RawMapConfig, RawMapObject};
use krunker_client::{Vec3, AABB};

fn object(position: [i64; 3], size_index: usize) -> RawMapObject {
    RawMapObject {
        position,
        size_index: Some(size_index),
        id: None,
        not_collidable: None,
        border: None,
        direction: None,
    }
}

/// A 100x100 floor three cells thick with its top at y = 0, a thin
/// pillar near one corner to give the map some height, and one spawn
/// at the origin (standing on the floor).
fn floor_map() -> RawMap {
    RawMap {
        name: String::from("flat"),
        sizes: vec![100_000, 7_500, 100_000, 1_000, 30_000, 1_000],
        objects: vec![object([0, -7_500, 0], 0), object([49_000, -7_500, 49_000], 1)],
        config: RawMapConfig { modes: vec![0] },
        spawns: vec![vec![Some(0), Some(0), Some(0)]],
    }
}

#[test]
fn floor_map_dimensions_and_bounds() {
    let m = GameMap::new(&floor_map()).unwrap();
    let b = m.bounds();
    assert_eq!(
        b,
        AABB {
            min_x: -50_000,
            min_y: -7_500,
            min_z: -50_000,
            max_x: 50_000,
            max_y: 22_500,
            max_z: 50_000,
        }
    );
    assert_eq!(m.name(), String::from("flat"));
    assert_eq!(m.spawns(), vec![Vec3 { x: 0, y: 0, z: 0 }]);
}

#[test]
fn floor_map_walkable_component_is_the_floor_level() {
    let m = GameMap::new(&floor_map()).unwrap();
    // The spawn's cell.
    assert_eq!(m.walkable_code((20, 3, 20)), 1);
    // Every walkable cell sits at floor level, inside the margins, and
    // every floor-level cell inside the margins is walkable: one
    // connected component covering the floor. The cell diagonally
    // beside the pillar is excluded by the overhang check.
    for x in 0..40 {
        for y in 0..12 {
            for z in 0..40 {
                let code = m.walkable_code((x, y, z));
                let on_floor = y == 3
                    && (1..=38).contains(&x)
                    && (1..=38).contains(&z)
                    && !(x == 38 && z == 38);
                if on_floor {
                    assert_eq!(code, 1, "cell ({x},{y},{z})");
                } else {
                    assert_eq!(code, 0, "cell ({x},{y},{z})");
                }
            }
        }
    }
}

#[test]
fn find_path_same_cell_is_singleton() {
    let m = GameMap::new(&floor_map()).unwrap();
    let path = m.find_path(&(20, 3, 20), &(20, 3, 20)).unwrap();
    assert_eq!(path, vec![(20, 3, 20)]);
}

#[test]
fn find_path_crosses_the_floor() {
    let m = GameMap::new(&floor_map()).unwrap();
    let path = m.find_path(&(1, 3, 1), &(37, 3, 37)).unwrap();
    assert!(path.len() >= 2);
    assert_eq!(path[0], (1, 3, 1));
    assert_eq!(path[path.len() - 1], (37, 3, 37));
    for cell in &path {
        assert_eq!(m.walkable_code(*cell), 1, "cell {cell:?}");
    }
}

#[test]
fn find_path_to_disconnected_cell_is_none() {
    let m = GameMap::new(&floor_map()).unwrap();
    // A cell far above the floor is not walkable, so no path reaches it.
    assert_eq!(m.find_path(&(20, 3, 20), &(20, 8, 20)), None);
}

#[test]
fn closest_walkable_cell_snaps_down_to_the_floor() {
    let m = GameMap::new(&floor_map()).unwrap();
    assert_eq!(
        m.closest_walkable_cell(&Vec3 { x: 0, y: 0, z: 0 }),
        Some((20, 3, 20))
    );
    // Two cells above the floor, the scan walks down to it.
    assert_eq!(
        m.closest_walkable_cell(&Vec3 { x: 0, y: 5_000, z: 0 }),
        Some((20, 3, 20))
    );
    // Outside the bounds there is no cell.
    assert_eq!(m.closest_walkable_cell(&Vec3 { x: 70_000, y: 0, z: 0 }), None);
}

#[test]
fn voxel_map_solid_cells_are_not_walkable() {
    // One 10x10x10 object at the origin and a spawn inside it at
    // (0, 6, 0): the spawn's cell is bumped up and marked; the solid
    // cells stay unwalkable.
    let raw = RawMap {
        name: String::from("cube"),
        sizes: vec![10_000, 10_000, 10_000],
        objects: vec![object([0, 0, 0], 0)],
        config: RawMapConfig { modes: vec![0] },
        spawns: vec![vec![Some(0), Some(6_000), Some(0)]],
    };
    let m = GameMap::new(&raw).unwrap();
    let b = m.bounds();
    assert!(b.min_x <= -5_000 && b.max_x >= 5_000);
    assert!(b.min_y <= 0 && b.max_y >= 10_000);
    // The bumped spawn cell is marked walkable.
    assert_eq!(m.walkable_code((2, 3, 2)), 1);
    // Cells inside the solid are not.
    assert_eq!(m.walkable_code((2, 2, 2)), 0);
    assert_eq!(m.walkable_code((1, 1, 1)), 0);
}

#[test]
fn non_collidable_and_excluded_objects_are_dropped() {
    let mut raw = floor_map();
    // A huge non-collidable box and an excluded-id box over the floor
    // change nothing.
    let mut ghost_box = object([0, 0, 0], 0);
    ghost_box.not_collidable = Some(1);
    let mut excluded_box = object([0, 0, 0], 0);
    excluded_box.id = Some(4);
    raw.objects.push(ghost_box);
    raw.objects.push(excluded_box);
    let m = GameMap::new(&raw).unwrap();
    assert_eq!(m.walkable_code((20, 3, 20)), 1);
}

#[test]
fn spawn_row_too_short_fails() {
    let mut raw = floor_map();
    raw.spawns = vec![vec![Some(0), Some(0)]];
    assert!(matches!(GameMap::new(&raw), Err(MapParseError::SpawnTooShort)));
}

#[test]
fn null_spawn_fails() {
    let mut raw = floor_map();
    raw.spawns = vec![vec![Some(0), None, Some(0)]];
    assert!(matches!(GameMap::new(&raw), Err(MapParseError::NullSpawn)));
}

#[test]
fn size_index_out_of_bounds_fails() {
    let mut raw = floor_map();
    raw.objects.push(object([0, 0, 0], 9));
    assert!(matches!(GameMap::new(&raw), Err(MapParseError::MissingSize)));
}

#[test]
fn spawn_outside_grid_fails() {
    let mut raw = floor_map();
    raw.spawns = vec![vec![Some(70_000), Some(0), Some(0)]];
    assert!(matches!(GameMap::new(&raw), Err(MapParseError::OutOfBoundsCell)));
}

#[test]
fn aabb_operations() {
    let mut a = AABB::zero();
    let b = AABB { min_x: -10, min_y: -20, min_z: -30, max_x: 1, max_y: 2, max_z: 3 };
    a.extend_by(&b);
    assert_eq!(a, b);
    let mut c = b;
    let lim = AABB { min_x: -5, min_y: -50, min_z: -50, max_x: 50, max_y: 1, max_z: 50 };
    c.limit_by(&lim);
    assert_eq!(c, AABB { min_x: -5, min_y: -20, min_z: -30, max_x: 1, max_y: 1, max_z: 3 });

    let d = AABB { min_x: 0, min_y: 0, min_z: 0, max_x: 10, max_y: 10, max_z: 10 };
    let e = AABB { min_x: 9, min_y: 9, min_z: 9, max_x: 20, max_y: 20, max_z: 20 };
    let f = AABB { min_x: 10, min_y: 0, min_z: 0, max_x: 20, max_y: 10, max_z: 10 };
    assert!(d.intersects(&e));
    // Touching faces do not count as overlap.
    assert!(!d.intersects(&f));
    assert!(d.contains(&Vec3 { x: 10, y: 0, z: 5 }));
    assert!(!d.contains(&Vec3 { x: 11, y: 0, z: 5 }));
}

#[test]
fn cell_world_transforms() {
    let bounds =
        AABB { min_x: -50_000, min_y: -7_500, min_z: -50_000, max_x: 50_000, max_y: 22_500, max_z: 50_000 };
    let cell = krunker_client::position_to_cell(&bounds, &Vec3 { x: 0, y: 0, z: 0 });
    assert_eq!(cell, (20, 3, 20));
    let center = krunker_client::cell_to_position(&bounds, &cell);
    assert_eq!(center, Vec3 { x: 1_250, y: 1_250, z: 1_250 });
}

#[test]
fn successors_are_walkable_and_unique() {
    let m = GameMap::new(&floor_map()).unwrap();
    let succs = m.successors((20, 3, 20));
    // Interior floor cell: four axis and four vertical-diagonal steps
    // never leave the plane, so the successors are the four axis
    // neighbours at the same height, each with cost 1.
    assert_eq!(succs.len(), 4);
    for (cell, cost) in &succs {
        assert_eq!(m.walkable_code(*cell), 1);
        assert_eq!(*cost, 1);
    }
    for a in 0..succs.len() {
        for b in (a + 1)..succs.len() {
            assert_ne!(succs[a].0, succs[b].0);
        }
    }
}
