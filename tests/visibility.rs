use ascii_hero::{try_move_player, GameMap, Player, Position, TileType, Viewshed, VisibilitySystem, World};

fn open_map(w: i32, h: i32, walls: &[(i32, i32)]) -> GameMap {
    let n = (w * h) as usize;
    let mut map = GameMap {
        tiles: vec![TileType::Floor; n],
        rooms: Vec::new(),
        width: w,
        height: h,
        revealed_tiles: vec![false; n],
        visible_tiles: vec![false; n],
    };
    for (x, y) in walls {
        let idx = map.xy_idx(*x, *y);
        map.tiles[idx] = TileType::Wall;
    }
    map
}

fn pass(world: &mut World) {
    VisibilitySystem {}.run(world);
}

#[test]
fn pass_keeps_only_cells_on_the_map() {
    let mut world = World::new(open_map(5, 5, &[]));
    let e = world.create_entity(Some(Position { x: 0, y: 0 }), Some(Viewshed::new(2)), None);
    let fov = vec![
        Position { x: 0, y: 0 },
        Position { x: -1, y: 0 },
        Position { x: 1, y: 0 },
        Position { x: 0, y: 5 },
        Position { x: 0, y: 1 },
    ];
    VisibilitySystem {}.apply_fields_of_view(&mut world, &vec![fov]);
    let v = world.viewsheds[e].as_ref().unwrap();
    assert_eq!(v.visible_tiles, vec![Position { x: 0, y: 0 }, Position { x: 1, y: 0 }, Position { x: 0, y: 1 }]);
    assert!(!v.dirty);
    assert_eq!(v.range, 2);
    let lit: Vec<usize> = (0..25).filter(|i| world.map.visible_tiles[*i]).collect();
    assert_eq!(lit, vec![0, 1, 5]);
    assert!(world.map.revealed_tiles.iter().all(|b| !*b));
}

#[test]
fn player_sight_reveals_tiles() {
    let mut world = World::new(open_map(5, 5, &[]));
    world.create_entity(Some(Position { x: 2, y: 2 }), Some(Viewshed::new(1)), Some(Player {}));
    let fov = vec![Position { x: 2, y: 2 }, Position { x: 3, y: 2 }];
    VisibilitySystem {}.apply_fields_of_view(&mut world, &vec![fov]);
    let revealed: Vec<usize> = (0..25).filter(|i| world.map.revealed_tiles[*i]).collect();
    assert_eq!(revealed, vec![12, 13]);
}

#[test]
fn own_tile_is_always_visible() {
    let mut world = World::new(open_map(12, 12, &[(5, 5), (6, 5), (4, 4)]));
    let spots = [(0, 0), (4, 5), (11, 11), (7, 3), (0, 11)];
    let mut ids = Vec::new();
    for (x, y) in spots.iter() {
        ids.push(world.create_entity(Some(Position { x: *x, y: *y }), Some(Viewshed::new(8)), None));
    }
    pass(&mut world);
    for (e, (x, y)) in ids.iter().zip(spots.iter()) {
        assert!(world.viewsheds[*e].as_ref().unwrap().sees(*x, *y));
        assert!(world.map.visible_tiles[world.map.xy_idx(*x, *y)]);
    }
}

#[test]
fn walls_block_sight() {
    let walls: Vec<(i32, i32)> = (0..10).map(|y| (5, y)).collect();
    let mut world = World::new(open_map(10, 10, &walls));
    let e = world.create_entity(Some(Position { x: 2, y: 5 }), Some(Viewshed::new(8)), Some(Player {}));
    pass(&mut world);
    let v = world.viewsheds[e].as_ref().unwrap();
    assert!(v.sees(4, 5));
    assert!(v.sees(5, 5));
    assert!(!v.sees(7, 5));
    assert!(!world.map.revealed_tiles[world.map.xy_idx(7, 5)]);
}

#[test]
fn revealed_tiles_are_never_forgotten() {
    let walls: Vec<(i32, i32)> = (0..9).map(|y| (6, y)).collect();
    let mut world = World::new(open_map(14, 10, &walls));
    world.create_entity(Some(Position { x: 1, y: 9 }), Some(Viewshed::new(4)), Some(Player {}));
    let mut before = world.map.revealed_tiles.clone();
    for step in 0..12 {
        pass(&mut world);
        for i in 0..before.len() {
            assert!(!before[i] || world.map.revealed_tiles[i], "turn {} forgot cell {}", step, i);
        }
        before = world.map.revealed_tiles.clone();
        try_move_player(1, 0, &mut world);
    }
    assert!(world.map.revealed_tiles[world.map.xy_idx(1, 9)]);
}

#[test]
fn visible_now_is_recomputed_every_pass() {
    let mut world = World::new(open_map(30, 3, &[]));
    world.create_entity(Some(Position { x: 1, y: 1 }), Some(Viewshed::new(2)), Some(Player {}));
    pass(&mut world);
    assert!(world.map.visible_tiles[world.map.xy_idx(1, 1)]);
    for _ in 0..10 {
        try_move_player(1, 0, &mut world);
    }
    pass(&mut world);
    assert!(!world.map.visible_tiles[world.map.xy_idx(1, 1)]);
    assert!(world.map.revealed_tiles[world.map.xy_idx(1, 1)]);
    assert!(world.map.visible_tiles[world.map.xy_idx(11, 1)]);
}

#[test]
fn rendering_waits_for_a_fresh_pass() {
    let mut world = World::new(open_map(8, 8, &[]));
    world.create_entity(Some(Position { x: 3, y: 3 }), Some(Viewshed::new(4)), Some(Player {}));
    assert!(!world.ready_to_render());
    pass(&mut world);
    assert!(world.ready_to_render());
    try_move_player(1, 0, &mut world);
    assert!(!world.ready_to_render());
    pass(&mut world);
    assert!(world.ready_to_render());
}

#[test]
fn only_entities_on_seen_cells_are_drawn() {
    let walls: Vec<(i32, i32)> = (0..10).map(|y| (5, y)).collect();
    let mut world = World::new(open_map(10, 10, &walls));
    let player = world.create_entity(Some(Position { x: 2, y: 2 }), Some(Viewshed::new(8)), Some(Player {}));
    let near = world.create_entity(Some(Position { x: 3, y: 2 }), None, None);
    let far = world.create_entity(Some(Position { x: 8, y: 2 }), None, None);
    let nowhere = world.create_entity(None, None, None);
    pass(&mut world);
    assert!(world.should_draw(player));
    assert!(world.should_draw(near));
    assert!(!world.should_draw(far));
    assert!(!world.should_draw(nowhere));
}

#[test]
fn entity_without_viewshed_is_skipped() {
    let mut world = World::new(open_map(4, 4, &[]));
    let e = world.create_entity(Some(Position { x: 1, y: 1 }), None, Some(Player {}));
    VisibilitySystem {}.apply_fields_of_view(&mut world, &vec![vec![Position { x: 1, y: 1 }]]);
    assert!(world.viewsheds[e].is_none());
    assert!(world.map.visible_tiles.iter().all(|b| !*b));
    assert!(world.map.revealed_tiles.iter().all(|b| !*b));
}

#[test]
fn fresh_viewshed_is_stale_and_empty() {
    let v = Viewshed::new(8);
    assert!(v.dirty);
    assert_eq!(v.range, 8);
    assert!(v.visible_tiles.is_empty());
    assert!(!v.sees(0, 0));
}

#[test]
fn pass_lists_each_cell_once_and_on_the_map() {
    let mut world = World::new(open_map(6, 6, &[(2, 2)]));
    let e = world.create_entity(Some(Position { x: 0, y: 0 }), Some(Viewshed::new(20)), Some(Player {}));
    pass(&mut world);
    let v = world.viewsheds[e].as_ref().unwrap();
    let mut cells: Vec<(i32, i32)> = v.visible_tiles.iter().map(|p| (p.x, p.y)).collect();
    let listed = cells.len();
    cells.sort();
    cells.dedup();
    assert_eq!(cells.len(), listed);
    assert!(cells.iter().all(|(x, y)| *x >= 0 && *x < 6 && *y >= 0 && *y < 6));
    assert!(cells.len() > 20);
    assert!(!v.sees(3, 3));
}

#[test]
fn opacity_marks_walls() {
    let map = open_map(3, 2, &[(1, 0), (2, 1)]);
    let grid = map.opacity();
    assert_eq!((grid.width, grid.height), (3, 2));
    assert_eq!(grid.opaque, vec![false, true, false, false, false, true]);
}
