use ascii_hero::{try_move_player, GameMap, Player, Position, Rect, TileType, Viewshed, World};

/// A `w` by `h` grid that is floor everywhere but at the listed walls.
fn open_map(w: i32, h: i32, walls: &[(i32, i32)]) -> GameMap {
    let n = (w * h) as usize;
    let mut map = GameMap {
        tiles: vec![TileType::Floor; n],
        rooms: Vec::new(),
        width: w,
        height: h,
        revealed_tiles: vec![false; n],
        visible_tiles: vec![false; n],
    };
    for (x, y) in walls {
        let idx = map.xy_idx(*x, *y);
        map.tiles[idx] = TileType::Wall;
    }
    map
}

fn world_with_player(map: GameMap, x: i32, y: i32, dirty: bool) -> (World, usize) {
    let mut world = World::new(map);
    let mut vs = Viewshed::new(10);
    vs.dirty = dirty;
    let e = world.create_entity(Some(Position { x, y }), Some(vs), Some(Player {}));
    (world, e)
}

#[test]
fn move_into_wall_is_refused() {
    let (mut world, e) = world_with_player(open_map(10, 10, &[(5, 5)]), 4, 5, false);
    assert!(!world.try_move(e, 1, 0));
    assert_eq!(world.positions[e], Some(Position { x: 4, y: 5 }));
    assert!(!world.viewsheds[e].as_ref().unwrap().dirty);
}

#[test]
fn move_onto_floor_is_taken() {
    let (mut world, e) = world_with_player(open_map(10, 10, &[(5, 5)]), 4, 5, false);
    assert!(world.try_move(e, 0, 1));
    assert_eq!(world.positions[e], Some(Position { x: 4, y: 6 }));
    assert!(world.viewsheds[e].as_ref().unwrap().dirty);
    assert_eq!(world.viewsheds[e].as_ref().unwrap().range, 10);
}

#[test]
fn blocked_player_stays_put() {
    let (mut world, e) = world_with_player(open_map(10, 10, &[(5, 5)]), 4, 5, false);
    try_move_player(1, 0, &mut world);
    assert_eq!(world.positions[e], Some(Position { x: 4, y: 5 }));
    assert!(!world.viewsheds[e].as_ref().unwrap().dirty);
}

#[test]
fn player_moves_in_each_direction() {
    let (mut world, e) = world_with_player(open_map(10, 10, &[]), 4, 4, false);
    try_move_player(-1, 0, &mut world);
    assert_eq!(world.positions[e], Some(Position { x: 3, y: 4 }));
    try_move_player(0, -1, &mut world);
    assert_eq!(world.positions[e], Some(Position { x: 3, y: 3 }));
    try_move_player(1, 0, &mut world);
    try_move_player(0, 1, &mut world);
    assert_eq!(world.positions[e], Some(Position { x: 4, y: 4 }));
    assert!(world.viewsheds[e].as_ref().unwrap().dirty);
}

#[test]
fn move_off_the_edge_is_held_on_the_map() {
    let (mut world, e) = world_with_player(open_map(10, 10, &[]), 0, 9, false);
    assert!(world.try_move(e, -1, 1));
    assert_eq!(world.positions[e], Some(Position { x: 0, y: 9 }));
    assert!(world.viewsheds[e].as_ref().unwrap().dirty);
}

#[test]
fn only_players_follow_input() {
    let mut world = World::new(open_map(10, 10, &[]));
    let monster = world.create_entity(Some(Position { x: 2, y: 2 }), Some(Viewshed::new(8)), None);
    let player = world.create_entity(Some(Position { x: 6, y: 6 }), Some(Viewshed::new(8)), Some(Player {}));
    let blind = world.create_entity(Some(Position { x: 8, y: 8 }), None, Some(Player {}));
    try_move_player(1, 0, &mut world);
    assert_eq!(world.positions[monster], Some(Position { x: 2, y: 2 }));
    assert_eq!(world.positions[player], Some(Position { x: 7, y: 6 }));
    assert_eq!(world.positions[blind], Some(Position { x: 9, y: 8 }));
}

#[test]
fn entity_without_position_does_not_move() {
    let mut world = World::new(open_map(5, 5, &[]));
    let e = world.create_entity(None, Some(Viewshed::new(3)), Some(Player {}));
    assert!(!world.try_move(e, 1, 0));
    assert!(world.positions[e].is_none());
}

#[test]
fn player_walks_a_generated_corridor_only_on_floor() {
    let mut map = GameMap::new(20, 20);
    map.add_room(Rect::new(1, 1, 4, 4), true);
    let (mut world, e) = world_with_player(map, 3, 3, false);
    for _ in 0..5 {
        try_move_player(1, 0, &mut world);
    }
    assert_eq!(world.positions[e], Some(Position { x: 5, y: 3 }));
}

#[test]
fn player_without_viewshed_still_moves() {
    let mut world = World::new(open_map(6, 6, &[(3, 2)]));
    let e = world.create_entity(Some(Position { x: 2, y: 2 }), None, Some(Player {}));
    try_move_player(0, 1, &mut world);
    assert_eq!(world.positions[e], Some(Position { x: 2, y: 3 }));
    assert!(world.viewsheds[e].is_none());
    try_move_player(1, -1, &mut world);
    assert_eq!(world.positions[e], Some(Position { x: 2, y: 3 }));
}
