use vstd::prelude::*;

use crate::connectivity::{
    between, floor_at, floor_connected_from, lemma_block, lemma_horizontal_run,
    lemma_reachable_mono, lemma_reachable_symmetric, lemma_reachable_trans, lemma_vertical_run, reachable,
};
use crate::map::{GameMap, TileType};
use crate::random::{new_rng, random_range, roll_die};
use crate::rect::Rect;
use rltk::RandomNumberGenerator;

verus! {

/// Whether `(x, y)` lies on the L-shaped corridor from `(px, py)` to `(nx, ny)`: along the
/// row of the start and then the column of the end when `horizontal_first`, else along
/// the column of the start and then the row of the end.
pub open spec fn on_corridor(
    px: int,
    py: int,
    nx: int,
    ny: int,
    horizontal_first: bool,
    x: int,
    y: int,
) -> bool {
    if horizontal_first {
        (y == py && between(x, px, nx)) || (x == nx && between(y, py, ny))
    } else {
        (x == px && between(y, py, ny)) || (y == ny && between(x, px, nx))
    }
}

/// Width and height of a generated level.
pub const MAP_WIDTH: i32 = 80;

pub const MAP_HEIGHT: i32 = 50;

/// Placement attempts, and the least and greatest side of a room, for a generated level.
pub const MAX_ROOMS: i32 = 30;

pub const MIN_SIZE: i32 = 6;

pub const MAX_SIZE: i32 = 10;

/// A room with sides between `min_size` and `max_size` whose rectangle keeps off the last
/// row and column of a `width` by `height` grid, so that no carving reaches the border.
pub open spec fn room_placed(r: Rect, min_size: int, max_size: int, width: int, height: int) -> bool {
    &&& min_size <= r.x2 - r.x1 <= max_size
    &&& min_size <= r.y2 - r.y1 <= max_size
    &&& 0 <= r.x1
    &&& r.x2 <= width - 2
    &&& 0 <= r.y1
    &&& r.y2 <= height - 2
}

/// Whether `(x, y)` lies on a corridor from the centre of `a` to the centre of `b`.
pub open spec fn on_corridor_between(a: Rect, b: Rect, horizontal_first: bool, x: int, y: int) -> bool {
    on_corridor(a.center_x(), a.center_y(), b.center_x(), b.center_y(), horizontal_first, x, y)
}

impl GameMap {
    /// The cells that adding `room` turns into floor: its interior and, when rooms came
    /// before it, the corridor from the centre of the last one to its centre.
    pub open spec fn carved_by(self, room: Rect, horizontal_first: bool, x: int, y: int) -> bool {
        ||| room.interior_contains(x, y)
        ||| self.rooms@.len() > 0 && on_corridor_between(
            self.rooms@.last(),
            room,
            horizontal_first,
            x,
            y,
        )
    }


    /// Room `i` accounts for floor at `(x, y)`: the cell is in its interior, or on a
    /// corridor, of either shape, that joins it to room `i - 1`.
    pub open spec fn explains(self, i: int, x: int, y: int) -> bool {
        &&& 0 <= i < self.rooms@.len()
        &&& {
            ||| self.rooms@[i].interior_contains(x, y)
            ||| i > 0 && on_corridor_between(self.rooms@[i - 1], self.rooms@[i], true, x, y)
            ||| i > 0 && on_corridor_between(self.rooms@[i - 1], self.rooms@[i], false, x, y)
        }
    }

    /// Floor lies only in rooms and in the corridors between successive rooms.
    pub open spec fn floor_only_in_rooms_and_corridors(self) -> bool {
        forall|x: int, y: int| #[trigger] self.is_floor(x, y) ==> exists|i: int| #[trigger] self.explains(i, x, y)
    }

    /// The interior of every room is floor.
    pub open spec fn rooms_carved(self) -> bool {
        forall|i: int, x: int, y: int|
            0 <= i < self.rooms@.len() && #[trigger] self.rooms@[i].interior_contains(x, y) ==> self.is_floor(x, y)
    }

    /// No two rooms touch or overlap.
    pub open spec fn rooms_disjoint(self) -> bool {
        forall|i: int, j: int|
            0 <= i < j < self.rooms@.len() ==> !(#[trigger] self.rooms@[i]).overlaps(#[trigger] self.rooms@[j])
    }

    /// Every floor cell can be reached over floor from the centre of the first room.
    pub open spec fn connected_from_first_room(self) -> bool {
        self.rooms@.len() > 0 ==> floor_connected_from(
            self.tiles@,
            self.width as int,
            self.height as int,
            self.rooms@[0].center_x(),
            self.rooms@[0].center_y(),
        )
    }

    /// The interior of the last room holds its centre (the room is at least two cells
    /// wide and high), or there is no room and no floor yet.
    pub open spec fn ready_for_room(self) -> bool {
        if self.rooms@.len() > 0 {
            self.is_floor(self.rooms@.last().center_x(), self.rooms@.last().center_y())
        } else {
            forall|x: int, y: int| !#[trigger] self.is_floor(x, y)
        }
    }

    /// Whether `room` overlaps none of the rooms placed so far.
    pub open spec fn is_free(self, room: Rect) -> bool {
        forall|i: int| 0 <= i < self.rooms@.len() ==> !room.overlaps(#[trigger] self.rooms@[i])
    }

    /// A level of the given size: up to `max_rooms` candidate rooms with random sides in
    /// `min_size..=max_size` and random positions, each kept only if it touches no room
    /// kept before, carved out and joined to the previous kept room by an L-shaped
    /// corridor whose shape is drawn at random.
    pub fn generate(
        width: i32,
        height: i32,
        max_rooms: i32,
        min_size: i32,
        max_size: i32,
        rng: &mut RandomNumberGenerator,
    ) -> (map: GameMap)
        requires
            0 < width,
            0 < height,
            width * height <= usize::MAX,
            1 <= min_size <= max_size,
            max_size + 2 <= width,
            max_size + 2 <= height,
        ensures
            map.wf(),
            map.width == width,
            map.height == height,
            map.rooms@.len() <= if max_rooms > 0 { max_rooms as int } else { 0 },
            max_rooms >= 1 ==> map.rooms@.len() >= 1,
            forall|i: int|
                0 <= i < map.rooms@.len() ==> room_placed(
                    #[trigger] map.rooms@[i],
                    min_size as int,
                    max_size as int,
                    width as int,
                    height as int,
                ),
            map.rooms_disjoint(),
            map.rooms_carved(),
            map.floor_only_in_rooms_and_corridors(),
            min_size >= 2 ==> map.connected_from_first_room(),
            forall|i: int| 0 <= i < map.revealed_tiles@.len() ==> !#[trigger] map.revealed_tiles@[i],
            forall|i: int| 0 <= i < map.visible_tiles@.len() ==> !#[trigger] map.visible_tiles@[i],
    {
        let mut map = GameMap::new(width, height);
        let mut attempt: i32 = 0;
        while attempt < max_rooms
            invariant
                map.wf(),
                map.width == width,
                map.height == height,
                0 < width,
                0 < height,
                1 <= min_size <= max_size,
                max_size + 2 <= width,
                max_size + 2 <= height,
                0 <= attempt,
                attempt <= max_rooms || attempt == 0,
                map.rooms@.len() <= attempt,
                attempt >= 1 ==> map.rooms@.len() >= 1,
                forall|i: int|
                    0 <= i < map.rooms@.len() ==> room_placed(
                        #[trigger] map.rooms@[i],
                        min_size as int,
                        max_size as int,
                        width as int,
                        height as int,
                    ),
                map.rooms_disjoint(),
                map.rooms_carved(),
                map.floor_only_in_rooms_and_corridors(),
                min_size >= 2 ==> map.connected_from_first_room() && map.ready_for_room(),
                forall|i: int| 0 <= i < map.revealed_tiles@.len() ==> !#[trigger] map.revealed_tiles@[i],
                forall|i: int| 0 <= i < map.visible_tiles@.len() ==> !#[trigger] map.visible_tiles@[i],
            decreases max_rooms - attempt,
        {
            let w = random_range(rng, min_size, max_size + 1);
            let h = random_range(rng, min_size, max_size + 1);
            let x = roll_die(rng, width - w - 1) - 1;
            let y = roll_die(rng, height - h - 1) - 1;
            let new_room = Rect::new(x, y, w, h);
            let horizontal_first = map.rooms.len() > 0 && random_range(rng, 0, 2) == 1;
            let ghost m0 = map;
            let placed = map.place_room(new_room, horizontal_first);
            proof {
                if placed {
                    lemma_add_room_bookkeeping(m0, map, new_room, horizontal_first);
                    if min_size >= 2 {
                        lemma_add_room_connected(m0, map, new_room, horizontal_first);
                    }
                    assert(map.rooms@[map.rooms@.len() - 1] == new_room);
                } else {
                    assert forall|x: int, y: int| #[trigger] map.is_floor(x, y) implies exists|i: int|
                        #[trigger] map.explains(i, x, y) by {
                        assert(m0.is_floor(x, y));
                        let i = choose|i: int| #[trigger] m0.explains(i, x, y);
                        assert(map.explains(i, x, y));
                    }
                }
            }
            attempt = attempt + 1;
        }
        map
    }

    /// An 80 by 50 level with thirty placement attempts and rooms of six to ten cells a
    /// side, drawn from a freshly seeded generator.
    pub fn new_map_rooms_and_corridors() -> (map: GameMap)
        ensures
            map.wf(),
            map.width == MAP_WIDTH,
            map.height == MAP_HEIGHT,
            1 <= map.rooms@.len() <= MAX_ROOMS,
            forall|i: int|
                0 <= i < map.rooms@.len() ==> room_placed(
                    #[trigger] map.rooms@[i],
                    MIN_SIZE as int,
                    MAX_SIZE as int,
                    MAP_WIDTH as int,
                    MAP_HEIGHT as int,
                ),
            map.rooms_disjoint(),
            map.rooms_carved(),
            map.floor_only_in_rooms_and_corridors(),
            map.connected_from_first_room(),
            forall|i: int| 0 <= i < map.revealed_tiles@.len() ==> !#[trigger] map.revealed_tiles@[i],
            forall|i: int| 0 <= i < map.visible_tiles@.len() ==> !#[trigger] map.visible_tiles@[i],
    {
        let mut rng = new_rng();
        GameMap::generate(MAP_WIDTH, MAP_HEIGHT, MAX_ROOMS, MIN_SIZE, MAX_SIZE, &mut rng)
    }

    /// Whether `room` may be placed: it touches or overlaps no room placed so far.
    pub fn room_is_free(&self, room: &Rect) -> (r: bool)
        ensures
            r == self.is_free(*room),
    {
        let mut i: usize = 0;
        while i < self.rooms.len()
            invariant
                0 <= i <= self.rooms@.len(),
                forall|j: int| 0 <= j < i ==> !room.overlaps(#[trigger] self.rooms@[j]),
            decreases self.rooms@.len() - i,
        {
            if room.intersect(&self.rooms[i]) {
                return false;
            }
            i = i + 1;
        }
        true
    }

    /// Places `room` if it touches or overlaps no room placed so far, as `add_room` does,
    /// and otherwise leaves the map as it is. Returns whether the room was placed.
    pub fn place_room(&mut self, room: Rect, horizontal_first: bool) -> (placed: bool)
        requires
            old(self).wf(),
            old(self).room_fits(room),
        ensures
            final(self).wf(),
            placed == old(self).is_free(room),
            final(self).width == old(self).width,
            final(self).height == old(self).height,
            final(self).revealed_tiles@ == old(self).revealed_tiles@,
            final(self).visible_tiles@ == old(self).visible_tiles@,
            placed ==> final(self).rooms@ == old(self).rooms@.push(room),
            placed ==> forall|px: int, py: int|
                #![trigger final(self).tile_at(px, py)]
                final(self).in_bounds(px, py) ==> final(self).tile_at(px, py) == if old(
                    self,
                ).carved_by(room, horizontal_first, px, py) {
                    TileType::Floor
                } else {
                    old(self).tile_at(px, py)
                },
            !placed ==> final(self).rooms@ == old(self).rooms@,
            !placed ==> final(self).tiles@ == old(self).tiles@,
    {
        if self.room_is_free(&room) {
            self.add_room(room, horizontal_first);
            true
        } else {
            false
        }
    }

    /// Carves `room` into the grid, joins its centre to the centre of the last room
    /// placed (if any) by an L-shaped corridor, and appends it to the rooms.
    pub fn add_room(&mut self, room: Rect, horizontal_first: bool)
        requires
            old(self).wf(),
            old(self).room_fits(room),
        ensures
            final(self).wf(),
            final(self).width == old(self).width,
            final(self).height == old(self).height,
            final(self).revealed_tiles@ == old(self).revealed_tiles@,
            final(self).visible_tiles@ == old(self).visible_tiles@,
            final(self).rooms@ == old(self).rooms@.push(room),
            forall|px: int, py: int|
                #![trigger final(self).tile_at(px, py)]
                final(self).in_bounds(px, py) ==> final(self).tile_at(px, py) == if old(
                    self,
                ).carved_by(room, horizontal_first, px, py) {
                    TileType::Floor
                } else {
                    old(self).tile_at(px, py)
                },
    {
        let ghost m0 = *self;
        self.apply_room_to_map(&room);
        let n = self.rooms.len();
        if n > 0 {
            let (new_x, new_y) = room.center();
            let (prev_x, prev_y) = self.rooms[n - 1].center();
            proof {
                assert(self.room_fits(self.rooms@[n - 1]));
            }
            if horizontal_first {
                self.apply_horizontal_tunnel(prev_x, new_x, prev_y);
                self.apply_vertical_tunnel(prev_y, new_y, new_x);
            } else {
                self.apply_vertical_tunnel(prev_y, new_y, prev_x);
                self.apply_horizontal_tunnel(prev_x, new_x, new_y);
            }
        }
        let ghost m3 = *self;
        proof {
            assert forall|px: int, py: int| #![trigger m3.tile_at(px, py)]
                m3.in_bounds(px, py) implies m3.tile_at(px, py) == if m0.carved_by(
                    room,
                    horizontal_first,
                    px,
                    py,
                ) {
                    TileType::Floor
                } else {
                    m0.tile_at(px, py)
                } by {
                assert(self.tile_at(px, py) == m3.tile_at(px, py));
            }
        }
        self.rooms.push(room);
        proof {
            assert forall|px: int, py: int| #![trigger self.tile_at(px, py)]
                self.in_bounds(px, py) implies self.tile_at(px, py) == if m0.carved_by(
                    room,
                    horizontal_first,
                    px,
                    py,
                ) {
                    TileType::Floor
                } else {
                    m0.tile_at(px, py)
                } by {
                assert(self.tiles@ == m3.tiles@);
                assert(m3.tile_at(px, py) == self.tile_at(px, py));
            }
        }
    }
}

/// On a level whose floor is connected from the first room, the centres of any two rooms
/// of at least two cells a side are joined by a walk over floor.
pub proof fn lemma_rooms_reach_each_other(m: GameMap, i: int, j: int)
    requires
        m.wf(),
        m.rooms_carved(),
        m.connected_from_first_room(),
        0 <= i < m.rooms@.len(),
        0 <= j < m.rooms@.len(),
        m.rooms@[i].x2 - m.rooms@[i].x1 >= 2 && m.rooms@[i].y2 - m.rooms@[i].y1 >= 2,
        m.rooms@[j].x2 - m.rooms@[j].x1 >= 2 && m.rooms@[j].y2 - m.rooms@[j].y1 >= 2,
    ensures
        reachable(
            m.tiles@,
            m.width as int,
            m.height as int,
            m.rooms@[i].center_x(),
            m.rooms@[i].center_y(),
            m.rooms@[j].center_x(),
            m.rooms@[j].center_y(),
        ),
{
    let w = m.width as int;
    let h = m.height as int;
    let a = m.rooms@[i];
    let b = m.rooms@[j];
    let c = m.rooms@[0];
    assert(a.interior_contains(a.center_x(), a.center_y()));
    assert(b.interior_contains(b.center_x(), b.center_y()));
    assert(m.is_floor(a.center_x(), a.center_y()));
    assert(m.is_floor(b.center_x(), b.center_y()));
    assert(reachable(m.tiles@, w, h, c.center_x(), c.center_y(), a.center_x(), a.center_y()));
    assert(reachable(m.tiles@, w, h, c.center_x(), c.center_y(), b.center_x(), b.center_y()));
    lemma_reachable_symmetric(m.tiles@, w, h, c.center_x(), c.center_y(), a.center_x(), a.center_y());
    lemma_reachable_trans(
        m.tiles@,
        w,
        h,
        a.center_x(),
        a.center_y(),
        c.center_x(),
        c.center_y(),
        b.center_x(),
        b.center_y(),
    );
}

/// Adding a room keeps floor confined to rooms and corridors, keeps every room's
/// interior carved, and keeps rooms apart when the new one is free.
proof fn lemma_add_room_bookkeeping(m0: GameMap, m1: GameMap, room: Rect, horizontal_first: bool)
    requires
        m0.wf(),
        m0.room_fits(room),
        m1.width == m0.width,
        m1.height == m0.height,
        m1.tiles@.len() == m0.tiles@.len(),
        m1.rooms@ == m0.rooms@.push(room),
        forall|px: int, py: int|
            #![trigger m1.tile_at(px, py)]
            m1.in_bounds(px, py) ==> m1.tile_at(px, py) == if m0.carved_by(room, horizontal_first, px, py) {
                TileType::Floor
            } else {
                m0.tile_at(px, py)
            },
        m0.floor_only_in_rooms_and_corridors(),
        m0.rooms_carved(),
    ensures
        m1.floor_only_in_rooms_and_corridors(),
        m1.rooms_carved(),
        m0.rooms_disjoint() && m0.is_free(room) ==> m1.rooms_disjoint(),
        room.x2 - room.x1 >= 2 && room.y2 - room.y1 >= 2 ==> m1.ready_for_room(),
{
    let n = m0.rooms@.len() as int;
    assert(m1.rooms@[n] == room);
    assert forall|i: int| 0 <= i < n implies #[trigger] m1.rooms@[i] == m0.rooms@[i] by {}
    assert forall|x: int, y: int| #[trigger] m1.is_floor(x, y) implies exists|i: int| #[trigger] m1.explains(i, x, y) by {
        assert(m1.in_bounds(x, y));
        assert(m1.tile_at(x, y) == TileType::Floor);
        if m0.carved_by(room, horizontal_first, x, y) {
            if n > 0 {
                assert(m1.rooms@[n - 1] == m0.rooms@.last());
            }
            assert(m1.explains(n, x, y));
        } else {
            assert(m0.is_floor(x, y));
            let i = choose|i: int| #[trigger] m0.explains(i, x, y);
            if i > 0 {
                assert(m1.rooms@[i - 1] == m0.rooms@[i - 1]);
            }
            assert(m1.rooms@[i] == m0.rooms@[i]);
            assert(m1.explains(i, x, y));
        }
    }
    assert forall|i: int, x: int, y: int|
        0 <= i < m1.rooms@.len() && #[trigger] m1.rooms@[i].interior_contains(x, y) implies m1.is_floor(x, y) by {
        if i < n {
            assert(m1.rooms@[i] == m0.rooms@[i]);
            assert(m0.room_fits(m0.rooms@[i]));
            assert(m0.is_floor(x, y));
        }
        assert(m1.in_bounds(x, y));
        assert(m1.tile_at(x, y) == TileType::Floor);
    }
    if m0.rooms_disjoint() && m0.is_free(room) {
        assert forall|i: int, j: int|
            0 <= i < j < m1.rooms@.len() implies !(#[trigger] m1.rooms@[i]).overlaps(#[trigger] m1.rooms@[j]) by {
            if j < n {
                assert(m1.rooms@[j] == m0.rooms@[j]);
                assert(m1.rooms@[i] == m0.rooms@[i]);
            } else {
                assert(m1.rooms@[i] == m0.rooms@[i]);
                assert(!room.overlaps(m0.rooms@[i]));
            }
        }
    }
    if room.x2 - room.x1 >= 2 && room.y2 - room.y1 >= 2 {
        assert(m1.rooms@.last() == room);
        assert(room.interior_contains(room.center_x(), room.center_y()));
        assert(m1.in_bounds(room.center_x(), room.center_y()));
        assert(m1.tile_at(room.center_x(), room.center_y()) == TileType::Floor);
    }
}

/// Adding a room of at least two cells on each side keeps every floor cell reachable
/// from the centre of the first room.
proof fn lemma_add_room_connected(m0: GameMap, m1: GameMap, room: Rect, horizontal_first: bool)
    requires
        m0.wf(),
        m0.room_fits(room),
        room.x2 - room.x1 >= 2,
        room.y2 - room.y1 >= 2,
        m1.width == m0.width,
        m1.height == m0.height,
        m1.tiles@.len() == m0.tiles@.len(),
        m1.rooms@ == m0.rooms@.push(room),
        forall|px: int, py: int|
            #![trigger m1.tile_at(px, py)]
            m1.in_bounds(px, py) ==> m1.tile_at(px, py) == if m0.carved_by(room, horizontal_first, px, py) {
                TileType::Floor
            } else {
                m0.tile_at(px, py)
            },
        m0.connected_from_first_room(),
        m0.ready_for_room(),
    ensures
        m1.connected_from_first_room(),
{
    let w = m0.width as int;
    let h = m0.height as int;
    let t0 = m0.tiles@;
    let t1 = m1.tiles@;
    let nx = room.center_x();
    let ny = room.center_y();
    assert forall|x: int, y: int| #[trigger] floor_at(t0, w, h, x, y) implies floor_at(t1, w, h, x, y) by {
        assert(m1.in_bounds(x, y));
        assert(m1.tile_at(x, y) == TileType::Floor);
    }
    assert forall|x: int, y: int| room.x1 + 1 <= x <= room.x2 && room.y1 + 1 <= y <= room.y2 implies #[trigger] floor_at(
        t1,
        w,
        h,
        x,
        y,
    ) by {
        assert(m1.in_bounds(x, y));
        assert(room.interior_contains(x, y));
        assert(m1.tile_at(x, y) == TileType::Floor);
    }
    lemma_block(t1, w, h, room.x1 + 1, room.y1 + 1, room.x2 as int, room.y2 as int, nx, ny);
    if m0.rooms@.len() == 0 {
        assert(m1.rooms@[0] == room);
        assert forall|x: int, y: int| #[trigger] floor_at(t1, w, h, x, y) implies reachable(
            t1,
            w,
            h,
            nx,
            ny,
            x,
            y,
        ) by {
            assert(m1.in_bounds(x, y));
            assert(m1.tile_at(x, y) == TileType::Floor);
            assert(!m0.is_floor(x, y));
        }
    } else {
        let prev = m0.rooms@.last();
        let cx = m0.rooms@[0].center_x();
        let cy = m0.rooms@[0].center_y();
        assert(m1.rooms@[0] == m0.rooms@[0]);
        assert(m0.room_fits(m0.rooms@[m0.rooms@.len() - 1]));
        let px = prev.center_x();
        let py = prev.center_y();
        assert(floor_at(t0, w, h, px, py));
        lemma_reachable_mono(t0, t1, w, h, cx, cy, px, py);
        assert forall|x: int, y: int|
            on_corridor(px, py, nx, ny, horizontal_first, x, y) implies #[trigger] floor_at(t1, w, h, x, y) by {
            if horizontal_first {
                if y == py {
                    assert(0 <= x < w);
                } else {
                    assert(0 <= y < h);
                }
            } else {
                if x == px {
                    assert(0 <= y < h);
                } else {
                    assert(0 <= x < w);
                }
            }
            assert(m0.carved_by(room, horizontal_first, x, y));
            assert(m1.in_bounds(x, y));
            assert(m1.tile_at(x, y) == TileType::Floor);
        }
        lemma_corridor_reachable(t1, w, h, cx, cy, px, py, nx, ny, horizontal_first);
        assert(on_corridor(px, py, nx, ny, horizontal_first, nx, ny));
        assert(reachable(t1, w, h, cx, cy, nx, ny));
        assert forall|x: int, y: int| #[trigger] floor_at(t1, w, h, x, y) implies reachable(
            t1,
            w,
            h,
            cx,
            cy,
            x,
            y,
        ) by {
            assert(m1.in_bounds(x, y));
            assert(m1.tile_at(x, y) == TileType::Floor);
            if m0.carved_by(room, horizontal_first, x, y) {
                if room.interior_contains(x, y) {
                    assert(reachable(t1, w, h, nx, ny, x, y));
                    lemma_reachable_trans(t1, w, h, cx, cy, nx, ny, x, y);
                } else {
                    assert(on_corridor(px, py, nx, ny, horizontal_first, x, y));
                }
            } else {
                assert(floor_at(t0, w, h, x, y));
                lemma_reachable_mono(t0, t1, w, h, cx, cy, x, y);
            }
        }
    }
}

/// Every cell of a carved corridor can be reached from wherever its start can be reached.
proof fn lemma_corridor_reachable(
    tiles: Seq<TileType>,
    w: int,
    h: int,
    cx: int,
    cy: int,
    px: int,
    py: int,
    nx: int,
    ny: int,
    horizontal_first: bool,
)
    requires
        0 <= px < w,
        0 <= nx < w,
        0 <= py < h,
        0 <= ny < h,
        reachable(tiles, w, h, cx, cy, px, py),
        forall|x: int, y: int|
            on_corridor(px, py, nx, ny, horizontal_first, x, y) ==> #[trigger] floor_at(tiles, w, h, x, y),
    ensures
        forall|x: int, y: int|
            on_corridor(px, py, nx, ny, horizontal_first, x, y) ==> #[trigger] reachable(
                tiles,
                w,
                h,
                cx,
                cy,
                x,
                y,
            ),
{
    if horizontal_first {
        assert forall|x: int| between(x, px, nx) implies #[trigger] floor_at(tiles, w, h, x, py) by {
            assert(on_corridor(px, py, nx, ny, horizontal_first, x, py));
        }
        assert forall|y: int| between(y, py, ny) implies #[trigger] floor_at(tiles, w, h, nx, y) by {
            assert(on_corridor(px, py, nx, ny, horizontal_first, nx, y));
        }
        lemma_horizontal_run(tiles, w, h, py, px, nx);
        lemma_vertical_run(tiles, w, h, nx, py, ny);
        assert(between(nx, px, nx));
        assert(reachable(tiles, w, h, px, py, nx, py));
        lemma_reachable_trans(tiles, w, h, cx, cy, px, py, nx, py);
        assert forall|x: int, y: int| on_corridor(px, py, nx, ny, horizontal_first, x, y) implies #[trigger] reachable(
            tiles,
            w,
            h,
            cx,
            cy,
            x,
            y,
        ) by {
            if y == py && between(x, px, nx) {
                assert(reachable(tiles, w, h, px, py, x, py));
                lemma_reachable_trans(tiles, w, h, cx, cy, px, py, x, y);
            } else {
                assert(reachable(tiles, w, h, nx, py, nx, y));
                lemma_reachable_trans(tiles, w, h, cx, cy, nx, py, x, y);
            }
        }
    } else {
        assert forall|y: int| between(y, py, ny) implies #[trigger] floor_at(tiles, w, h, px, y) by {
            assert(on_corridor(px, py, nx, ny, horizontal_first, px, y));
        }
        assert forall|x: int| between(x, px, nx) implies #[trigger] floor_at(tiles, w, h, x, ny) by {
            assert(on_corridor(px, py, nx, ny, horizontal_first, x, ny));
        }
        lemma_vertical_run(tiles, w, h, px, py, ny);
        lemma_horizontal_run(tiles, w, h, ny, px, nx);
        assert(between(ny, py, ny));
        assert(reachable(tiles, w, h, px, py, px, ny));
        lemma_reachable_trans(tiles, w, h, cx, cy, px, py, px, ny);
        assert forall|x: int, y: int| on_corridor(px, py, nx, ny, horizontal_first, x, y) implies #[trigger] reachable(
            tiles,
            w,
            h,
            cx,
            cy,
            x,
            y,
        ) by {
            if x == px && between(y, py, ny) {
                assert(reachable(tiles, w, h, px, py, x, y));
                lemma_reachable_trans(tiles, w, h, cx, cy, px, py, x, y);
            } else {
                assert(reachable(tiles, w, h, px, ny, x, ny));
                lemma_reachable_trans(tiles, w, h, cx, cy, px, ny, x, y);
            }
        }
    }
}

} // verus!
