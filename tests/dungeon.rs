use ascii_hero::{GameMap, Rect, TileType, MAP_HEIGHT, MAP_WIDTH, MAX_ROOMS, MAX_SIZE, MIN_SIZE};
use rltk::RandomNumberGenerator;

fn floor_reached_from(map: &GameMap, start: (i32, i32)) -> Vec<bool> {
    let mut seen = vec![false; map.tiles.len()];
    let mut stack = vec![start];
    while let Some((x, y)) = stack.pop() {
        if x < 0 || y < 0 || x >= map.width || y >= map.height {
            continue;
        }
        let idx = map.xy_idx(x, y);
        if seen[idx] || map.tiles[idx] != TileType::Floor {
            continue;
        }
        seen[idx] = true;
        stack.push((x + 1, y));
        stack.push((x - 1, y));
        stack.push((x, y + 1));
        stack.push((x, y - 1));
    }
    seen
}

fn in_interior(r: &Rect, x: i32, y: i32) -> bool {
    x >= r.x1 + 1 && x <= r.x2 && y >= r.y1 + 1 && y <= r.y2
}

#[test]
fn rect_new_sets_corners() {
    let r = Rect::new(3, 4, 5, 6);
    assert_eq!((r.x1, r.y1, r.x2, r.y2), (3, 4, 8, 10));
}

#[test]
fn rect_center_is_integer_midpoint() {
    assert_eq!(Rect::new(3, 4, 5, 6).center(), (5, 7));
    assert_eq!(Rect::new(0, 0, 1, 1).center(), (0, 0));
    assert_eq!(Rect::new(10, 20, 7, 9).center(), (13, 24));
}

#[test]
fn rect_intersect_counts_touching_edges() {
    let a = Rect::new(0, 0, 5, 5);
    let touching = Rect::new(5, 0, 5, 5);
    let apart = Rect::new(6, 0, 5, 5);
    let inside = Rect::new(1, 1, 2, 2);
    assert!(a.intersect(&touching));
    assert!(touching.intersect(&a));
    assert!(!a.intersect(&apart));
    assert!(!apart.intersect(&a));
    assert!(a.intersect(&inside));
    assert!(a.intersect(&a));
}

#[test]
fn xy_idx_is_row_major() {
    let map = GameMap::new(80, 50);
    assert_eq!(map.xy_idx(0, 0), 0);
    assert_eq!(map.xy_idx(3, 2), 163);
    assert_eq!(map.xy_idx(79, 49), 3999);
    assert_eq!(map.idx_xy(163), (3, 2));
    assert_eq!(map.idx_xy(3999), (79, 49));
}

#[test]
fn xy_idx_round_trips_on_every_cell() {
    let map = GameMap::new(7, 5);
    for y in 0..5 {
        for x in 0..7 {
            assert_eq!(map.idx_xy(map.xy_idx(x, y)), (x, y));
        }
    }
}

#[test]
fn new_map_is_all_wall_and_unseen() {
    let map = GameMap::new(4, 3);
    assert_eq!(map.tiles.len(), 12);
    assert!(map.tiles.iter().all(|t| *t == TileType::Wall));
    assert!(map.revealed_tiles.iter().all(|b| !*b));
    assert!(map.visible_tiles.iter().all(|b| !*b));
    assert!(map.rooms.is_empty());
    assert_eq!(map.dimensions(), (4, 3));
}

#[test]
fn opacity_follows_tile_kind() {
    let mut map = GameMap::new(10, 10);
    map.add_room(Rect::new(1, 1, 3, 3), true);
    assert!(map.is_opaque(map.xy_idx(0, 0)));
    assert!(!map.is_opaque(map.xy_idx(2, 2)));
}

#[test]
fn add_room_carves_only_the_interior() {
    let mut map = GameMap::new(12, 12);
    let r = Rect::new(2, 3, 4, 5);
    map.add_room(r, true);
    for y in 0..12 {
        for x in 0..12 {
            let expect = if in_interior(&r, x, y) { TileType::Floor } else { TileType::Wall };
            assert_eq!(map.tiles[map.xy_idx(x, y)], expect, "cell ({}, {})", x, y);
        }
    }
    assert_eq!(map.rooms, vec![r]);
}

#[test]
fn add_room_digs_horizontal_then_vertical_corridor() {
    let mut map = GameMap::new(30, 30);
    let a = Rect::new(1, 1, 4, 4);
    let b = Rect::new(20, 20, 4, 4);
    map.add_room(a, true);
    map.add_room(b, true);
    let (ax, ay) = a.center();
    let (bx, by) = b.center();
    for x in ax..=bx {
        assert_eq!(map.tiles[map.xy_idx(x, ay)], TileType::Floor);
    }
    for y in ay..=by {
        assert_eq!(map.tiles[map.xy_idx(bx, y)], TileType::Floor);
    }
    assert_eq!(map.tiles[map.xy_idx(ax, by)], TileType::Wall);
}

#[test]
fn add_room_digs_vertical_then_horizontal_corridor() {
    let mut map = GameMap::new(30, 30);
    let a = Rect::new(1, 1, 4, 4);
    let b = Rect::new(20, 20, 4, 4);
    map.add_room(a, true);
    map.add_room(b, false);
    let (ax, ay) = a.center();
    let (bx, by) = b.center();
    for y in ay..=by {
        assert_eq!(map.tiles[map.xy_idx(ax, y)], TileType::Floor);
    }
    for x in ax..=bx {
        assert_eq!(map.tiles[map.xy_idx(x, by)], TileType::Floor);
    }
    assert_eq!(map.tiles[map.xy_idx(bx, ay)], TileType::Wall);
}

#[test]
fn room_is_free_rejects_overlap_and_contact() {
    let mut map = GameMap::new(30, 30);
    map.add_room(Rect::new(2, 2, 5, 5), true);
    assert!(!map.room_is_free(&Rect::new(4, 4, 5, 5)));
    assert!(!map.room_is_free(&Rect::new(7, 2, 5, 5)));
    assert!(map.room_is_free(&Rect::new(8, 2, 5, 5)));
}

#[test]
fn two_connected_rooms_reach_each_other() {
    let mut map = GameMap::new(40, 30);
    let a = Rect::new(2, 2, 5, 5);
    let b = Rect::new(25, 18, 5, 5);
    assert!(!a.intersect(&b));
    map.add_room(a, true);
    map.add_room(b, false);
    let seen = floor_reached_from(&map, a.center());
    let (bx, by) = b.center();
    assert!(seen[map.xy_idx(bx, by)]);
}

#[test]
fn generated_rooms_never_intersect() {
    for seed in 0..40u64 {
        let mut rng = RandomNumberGenerator::seeded(seed);
        let map = GameMap::generate(80, 50, 30, 6, 10, &mut rng);
        for i in 0..map.rooms.len() {
            for j in (i + 1)..map.rooms.len() {
                assert!(!map.rooms[i].intersect(&map.rooms[j]), "seed {} rooms {} {}", seed, i, j);
            }
        }
    }
}

#[test]
fn generated_floor_is_connected_to_first_room() {
    for seed in 0..40u64 {
        let mut rng = RandomNumberGenerator::seeded(seed);
        let map = GameMap::generate(80, 50, 30, 6, 10, &mut rng);
        assert!(!map.rooms.is_empty());
        let seen = floor_reached_from(&map, map.rooms[0].center());
        for (idx, tile) in map.tiles.iter().enumerate() {
            if *tile == TileType::Floor {
                assert!(seen[idx], "seed {} cell {:?} unreachable", seed, map.idx_xy(idx));
            }
        }
    }
}

#[test]
fn generated_rooms_respect_size_and_border() {
    for seed in 0..40u64 {
        let mut rng = RandomNumberGenerator::seeded(seed);
        let map = GameMap::generate(60, 40, 25, 4, 8, &mut rng);
        assert!(map.rooms.len() <= 25);
        for r in map.rooms.iter() {
            assert!(r.x2 - r.x1 >= 4 && r.x2 - r.x1 <= 8);
            assert!(r.y2 - r.y1 >= 4 && r.y2 - r.y1 <= 8);
            assert!(r.x1 >= 0 && r.y1 >= 0);
            assert!(r.x2 <= 58 && r.y2 <= 38);
        }
        for y in 0..40 {
            assert_eq!(map.tiles[map.xy_idx(0, y)], TileType::Wall);
            assert_eq!(map.tiles[map.xy_idx(59, y)], TileType::Wall);
        }
        for x in 0..60 {
            assert_eq!(map.tiles[map.xy_idx(x, 0)], TileType::Wall);
            assert_eq!(map.tiles[map.xy_idx(x, 39)], TileType::Wall);
        }
    }
}

#[test]
fn generated_rooms_vary_in_size_and_place() {
    let mut sizes = std::collections::HashSet::new();
    let mut short_of_edge = 0;
    for seed in 0..20u64 {
        let mut rng = RandomNumberGenerator::seeded(seed);
        let map = GameMap::generate(80, 50, 30, 6, 10, &mut rng);
        for r in map.rooms.iter() {
            sizes.insert((r.x2 - r.x1, r.y2 - r.y1));
            if r.x2 < 78 && r.y2 < 48 {
                short_of_edge += 1;
            }
        }
    }
    assert!(sizes.len() > 1);
    assert!(sizes.iter().any(|(w, _)| *w == 10));
    assert!(short_of_edge > 0);
}

#[test]
fn one_attempt_gives_exactly_one_room() {
    for seed in 0..20u64 {
        let mut rng = RandomNumberGenerator::seeded(seed);
        let map = GameMap::generate(80, 50, 1, 6, 10, &mut rng);
        assert_eq!(map.rooms.len(), 1);
        let r = map.rooms[0];
        for y in 0..50 {
            for x in 0..80 {
                let expect = if in_interior(&r, x, y) { TileType::Floor } else { TileType::Wall };
                assert_eq!(map.tiles[map.xy_idx(x, y)], expect);
            }
        }
    }
}

#[test]
fn no_attempts_give_no_rooms() {
    let mut rng = RandomNumberGenerator::seeded(3);
    let map = GameMap::generate(20, 20, 0, 3, 5, &mut rng);
    assert!(map.rooms.is_empty());
    assert!(map.tiles.iter().all(|t| *t == TileType::Wall));
}

#[test]
fn default_level_has_the_standard_shape() {
    let map = GameMap::new_map_rooms_and_corridors();
    assert_eq!((map.width, map.height), (MAP_WIDTH, MAP_HEIGHT));
    assert_eq!(map.tiles.len(), 4000);
    assert!(!map.rooms.is_empty() && map.rooms.len() <= MAX_ROOMS as usize);
    for r in map.rooms.iter() {
        assert!(r.x2 - r.x1 >= MIN_SIZE && r.x2 - r.x1 <= MAX_SIZE);
    }
    let (cx, cy) = map.rooms[0].center();
    assert_eq!(map.tiles[map.xy_idx(cx, cy)], TileType::Floor);
}

#[test]
fn place_room_keeps_only_free_rooms() {
    let mut map = GameMap::new(30, 30);
    assert!(map.place_room(Rect::new(2, 2, 5, 5), true));
    let before = map.tiles.clone();
    assert!(!map.place_room(Rect::new(6, 6, 5, 5), true));
    assert_eq!(map.tiles, before);
    assert_eq!(map.rooms.len(), 1);
    assert!(map.place_room(Rect::new(15, 15, 5, 5), false));
    assert_eq!(map.rooms.len(), 2);
    let (ax, ay) = map.rooms[0].center();
    let (bx, by) = map.rooms[1].center();
    assert_eq!(map.tiles[map.xy_idx(ax, by)], TileType::Floor);
    assert_eq!(map.tiles[map.xy_idx(bx, ay)], TileType::Wall);
}
