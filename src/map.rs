use vstd::prelude::*;

use crate::connectivity::{between, floor_at};
use crate::rect::Rect;

verus! {

/// The kind of a grid cell: walls block movement and sight, floors do not.
#[derive(Clone, Copy, Debug, PartialEq, Eq, Structural)]
pub enum TileType {
    Wall,
    Floor,
}

/// A `width` by `height` grid of tiles stored row by row, with the rooms carved into
/// it, the cells the player has ever seen, and the cells seen during the last pass.
pub struct GameMap {
    pub tiles: Vec<TileType>,
    pub rooms: Vec<Rect>,
    pub width: i32,
    pub height: i32,
    pub revealed_tiles: Vec<bool>,
    pub visible_tiles: Vec<bool>,
}

/// Row-major position of `(x, y)` on a grid `w` cells wide.
pub open spec fn index_of(w: int, x: int, y: int) -> int {
    y * w + x
}

pub(crate) proof fn lemma_index_in_range(w: int, h: int, x: int, y: int)
    requires
        0 <= x < w,
        0 <= y < h,
    ensures
        0 <= index_of(w, x, y) < w * h,
{
    assert(0 <= y * w) by (nonlinear_arith)
        requires
            0 <= y,
            0 < w,
    ;
    assert(y * w + x < w * h) by (nonlinear_arith)
        requires
            0 <= x < w,
            0 <= y < h,
    ;
}

proof fn lemma_index_injective(w: int, x: int, y: int, x2: int, y2: int)
    requires
        0 <= x < w,
        0 <= x2 < w,
        0 <= y,
        0 <= y2,
        index_of(w, x, y) == index_of(w, x2, y2),
    ensures
        x == x2,
        y == y2,
{
    assert(y == y2) by (nonlinear_arith)
        requires
            0 <= x < w,
            0 <= x2 < w,
            y * w + x == y2 * w + x2,
    ;
}

impl GameMap {
    pub open spec fn cells(self) -> int {
        self.width * self.height
    }

    pub open spec fn in_bounds(self, x: int, y: int) -> bool {
        0 <= x < self.width && 0 <= y < self.height
    }

    pub open spec fn idx(self, x: int, y: int) -> int {
        index_of(self.width as int, x, y)
    }

    pub open spec fn tile_at(self, x: int, y: int) -> TileType {
        self.tiles@[self.idx(x, y)]
    }

    pub open spec fn is_floor(self, x: int, y: int) -> bool {
        floor_at(self.tiles@, self.width as int, self.height as int, x, y)
    }

    /// A room whose whole rectangle, and so its interior, lies on the grid.
    pub open spec fn room_fits(self, r: Rect) -> bool {
        r.wf() && 0 <= r.x1 && r.x2 < self.width && 0 <= r.y1 && r.y2 < self.height
    }

    /// A room whose interior lies on the grid; its outline may sit one cell off the
    /// top and left edges.
    pub open spec fn interior_fits(self, r: Rect) -> bool {
        r.wf() && -1 <= r.x1 && r.x2 < self.width && -1 <= r.y1 && r.y2 < self.height
    }

    pub open spec fn wf(self) -> bool {
        &&& self.width > 0
        &&& self.height > 0
        &&& self.tiles@.len() == self.cells()
        &&& self.revealed_tiles@.len() == self.cells()
        &&& self.visible_tiles@.len() == self.cells()
        &&& forall|i: int| 0 <= i < self.rooms@.len() ==> self.room_fits(#[trigger] self.rooms@[i])
    }

    /// Everything but the tiles is as in `other`.
    pub open spec fn same_but_tiles(self, other: GameMap) -> bool {
        &&& self.width == other.width
        &&& self.height == other.height
        &&& self.rooms@ == other.rooms@
        &&& self.revealed_tiles@ == other.revealed_tiles@
        &&& self.visible_tiles@ == other.visible_tiles@
        &&& self.tiles@.len() == other.tiles@.len()
    }

    /// Decodes a row-major index back into its coordinates.
    pub open spec fn xy_of(self, idx: int) -> (int, int) {
        (idx % (self.width as int), idx / (self.width as int))
    }

    /// A `width` by `height` grid of walls with no rooms, nothing seen and nothing revealed.
    pub fn new(width: i32, height: i32) -> (map: GameMap)
        requires
            0 < width,
            0 < height,
            width * height <= usize::MAX,
        ensures
            map.wf(),
            map.width == width,
            map.height == height,
            map.rooms@.len() == 0,
            forall|x: int, y: int| !#[trigger] map.is_floor(x, y),
            forall|i: int| 0 <= i < map.tiles@.len() ==> #[trigger] map.tiles@[i] == TileType::Wall,
            forall|i: int| 0 <= i < map.revealed_tiles@.len() ==> !#[trigger] map.revealed_tiles@[i],
            forall|i: int| 0 <= i < map.visible_tiles@.len() ==> !#[trigger] map.visible_tiles@[i],
    {
        let cells: usize = (width as usize) * (height as usize);
        let mut tiles: Vec<TileType> = Vec::new();
        let mut revealed_tiles: Vec<bool> = Vec::new();
        let mut visible_tiles: Vec<bool> = Vec::new();
        let mut k: usize = 0;
        while k < cells
            invariant
                k <= cells,
                tiles@.len() == k,
                revealed_tiles@.len() == k,
                visible_tiles@.len() == k,
                forall|j: int| 0 <= j < k ==> #[trigger] tiles@[j] == TileType::Wall,
                forall|j: int| 0 <= j < k ==> !#[trigger] revealed_tiles@[j],
                forall|j: int| 0 <= j < k ==> !#[trigger] visible_tiles@[j],
            decreases cells - k,
        {
            tiles.push(TileType::Wall);
            revealed_tiles.push(false);
            visible_tiles.push(false);
            k = k + 1;
        }
        let map = GameMap { tiles, rooms: Vec::new(), width, height, revealed_tiles, visible_tiles };
        proof {
            assert forall|x: int, y: int| !#[trigger] map.is_floor(x, y) by {
                if map.in_bounds(x, y) {
                    lemma_index_in_range(width as int, height as int, x, y);
                }
            }
        }
        map
    }

    /// The index of cell `(x, y)` in the row-major arrays.
    pub fn xy_idx(&self, x: i32, y: i32) -> (r: usize)
        requires
            self.wf(),
            self.in_bounds(x as int, y as int),
        ensures
            r == self.idx(x as int, y as int),
            r < self.tiles@.len(),
    {
        let cells = self.tiles.len();
        let yu = y as usize;
        let wu = self.width as usize;
        let xu = x as usize;
        proof {
            lemma_index_in_range(self.width as int, self.height as int, x as int, y as int);
            assert(yu * wu + xu < cells);
            assert(0 <= yu * wu) by (nonlinear_arith);
        }
        yu * wu + xu
    }

    /// The cell at row-major index `idx`.
    pub fn idx_xy(&self, idx: usize) -> (r: (i32, i32))
        requires
            self.wf(),
            idx < self.tiles@.len(),
        ensures
            r.0 == self.xy_of(idx as int).0,
            r.1 == self.xy_of(idx as int).1,
            self.in_bounds(r.0 as int, r.1 as int),
            self.idx(r.0 as int, r.1 as int) == idx,
    {
        let w = self.width as usize;
        let x = idx % w;
        let y = idx / w;
        proof {
            let wi = self.width as int;
            let hi = self.height as int;
            vstd::arithmetic::div_mod::lemma_fundamental_div_mod(idx as int, wi);
            assert(y < hi) by (nonlinear_arith)
                requires
                    idx < wi * hi,
                    y == idx as int / wi,
                    0 < wi,
                    0 <= x < wi,
                    idx == wi * y + x,
            ;
            vstd::arithmetic::mul::lemma_mul_is_commutative(wi, y as int);
        }
        (x as i32, y as i32)
    }

    /// The grid's size as `(width, height)`.
    pub fn dimensions(&self) -> (r: (i32, i32))
        ensures
            r == (self.width, self.height),
    {
        (self.width, self.height)
    }

    /// Whether the tile at `idx` blocks sight.
    pub fn is_opaque(&self, idx: usize) -> (r: bool)
        requires
            idx < self.tiles@.len(),
        ensures
            r == (self.tiles@[idx as int] == TileType::Wall),
    {
        self.tiles[idx] == TileType::Wall
    }

    fn set_floor(&mut self, x: i32, y: i32)
        requires
            old(self).wf(),
            old(self).in_bounds(x as int, y as int),
        ensures
            final(self).wf(),
            final(self).same_but_tiles(*old(self)),
            forall|px: int, py: int|
                #![trigger final(self).tile_at(px, py)]
                final(self).in_bounds(px, py) ==> final(self).tile_at(px, py) == if px == x && py == y {
                    TileType::Floor
                } else {
                    old(self).tile_at(px, py)
                },
    {
        let idx = self.xy_idx(x, y);
        self.tiles.set(idx, TileType::Floor);
        proof {
            assert forall|px: int, py: int|
                #![trigger self.tile_at(px, py)]
                self.in_bounds(px, py) implies self.tile_at(px, py) == if px == x && py == y {
                    TileType::Floor
                } else {
                    old(self).tile_at(px, py)
                } by {
                lemma_index_in_range(self.width as int, self.height as int, px, py);
                if self.idx(px, py) == idx {
                    lemma_index_injective(self.width as int, px, py, x as int, y as int);
                }
            }
        }
    }

    pub open spec fn visible_at(self, x: int, y: int) -> bool {
        self.visible_tiles@[self.idx(x, y)]
    }

    pub open spec fn revealed_at(self, x: int, y: int) -> bool {
        self.revealed_tiles@[self.idx(x, y)]
    }

    /// Only the two seen-tile arrays may differ from `other`.
    pub open spec fn same_layout(self, other: GameMap) -> bool {
        &&& self.width == other.width
        &&& self.height == other.height
        &&& self.rooms@ == other.rooms@
        &&& self.tiles@ == other.tiles@
    }

    /// Forgets what was seen in the last visibility pass.
    pub fn clear_visible(&mut self)
        requires
            old(self).wf(),
        ensures
            final(self).wf(),
            final(self).same_layout(*old(self)),
            final(self).revealed_tiles@ == old(self).revealed_tiles@,
            forall|i: int| 0 <= i < final(self).visible_tiles@.len() ==> !#[trigger] final(self).visible_tiles@[i],
    {
        let mut i: usize = 0;
        while i < self.visible_tiles.len()
            invariant
                self.wf(),
                self.same_layout(*old(self)),
                self.revealed_tiles@ == old(self).revealed_tiles@,
                0 <= i <= self.visible_tiles@.len(),
                forall|j: int| 0 <= j < i ==> !#[trigger] self.visible_tiles@[j],
            decreases self.visible_tiles@.len() - i,
        {
            self.visible_tiles.set(i, false);
            i = i + 1;
        }
    }

    /// Records that cell `(x, y)` is seen now and, when `reveal`, that it has been seen.
    pub fn mark_seen(&mut self, x: i32, y: i32, reveal: bool)
        requires
            old(self).wf(),
            old(self).in_bounds(x as int, y as int),
        ensures
            final(self).wf(),
            final(self).same_layout(*old(self)),
            forall|px: int, py: int|
                #![trigger final(self).visible_at(px, py)]
                final(self).in_bounds(px, py) ==> final(self).visible_at(px, py) == (old(self).visible_at(px, py)
                    || (px == x && py == y)),
            forall|px: int, py: int|
                #![trigger final(self).revealed_at(px, py)]
                final(self).in_bounds(px, py) ==> final(self).revealed_at(px, py) == (old(self).revealed_at(px, py)
                    || (reveal && px == x && py == y)),
    {
        let idx = self.xy_idx(x, y);
        self.visible_tiles.set(idx, true);
        if reveal {
            self.revealed_tiles.set(idx, true);
        }
        proof {
            assert forall|px: int, py: int| #![trigger self.idx(px, py)]
                self.in_bounds(px, py) implies 0 <= self.idx(px, py) < self.tiles@.len() && (self.idx(
                    px,
                    py,
                ) == idx ==> px == x && py == y) by {
                lemma_index_in_range(self.width as int, self.height as int, px, py);
                if self.idx(px, py) == idx {
                    lemma_index_injective(self.width as int, px, py, x as int, y as int);
                }
            }
        }
    }

    /// Turns the interior of `room` into floor.
    pub(crate) fn apply_room_to_map(&mut self, room: &Rect)
        requires
            old(self).wf(),
            old(self).interior_fits(*room),
        ensures
            final(self).wf(),
            final(self).same_but_tiles(*old(self)),
            forall|px: int, py: int|
                #![trigger final(self).tile_at(px, py)]
                final(self).in_bounds(px, py) ==> final(self).tile_at(px, py) == if room.interior_contains(
                    px,
                    py,
                ) {
                    TileType::Floor
                } else {
                    old(self).tile_at(px, py)
                },
    {
        let mut y: i32 = room.y1 + 1;
        while y <= room.y2
            invariant
                self.wf(),
                self.same_but_tiles(*old(self)),
                old(self).interior_fits(*room),
                room.y1 + 1 <= y <= room.y2 + 1,
                forall|px: int, py: int|
                    #![trigger self.tile_at(px, py)]
                    self.in_bounds(px, py) ==> self.tile_at(px, py) == if room.x1 + 1 <= px <= room.x2
                        && room.y1 + 1 <= py < y {
                        TileType::Floor
                    } else {
                        old(self).tile_at(px, py)
                    },
            decreases room.y2 + 1 - y,
        {
            let mut x: i32 = room.x1 + 1;
            while x <= room.x2
                invariant
                    self.wf(),
                    self.same_but_tiles(*old(self)),
                    old(self).interior_fits(*room),
                    room.y1 + 1 <= y <= room.y2,
                    room.x1 + 1 <= x <= room.x2 + 1,
                    forall|px: int, py: int|
                        #![trigger self.tile_at(px, py)]
                        self.in_bounds(px, py) ==> self.tile_at(px, py) == if (room.x1 + 1 <= px
                            <= room.x2 && room.y1 + 1 <= py < y) || (py == y && room.x1 + 1 <= px
                            < x) {
                            TileType::Floor
                        } else {
                            old(self).tile_at(px, py)
                        },
                decreases room.x2 + 1 - x,
            {
                self.set_floor(x, y);
                x = x + 1;
            }
            y = y + 1;
        }
    }

    /// Turns the cells of row `y` between `x1` and `x2` into floor, skipping any off the grid.
    pub(crate) fn apply_horizontal_tunnel(&mut self, x1: i32, x2: i32, y: i32)
        requires
            old(self).wf(),
        ensures
            final(self).wf(),
            final(self).same_but_tiles(*old(self)),
            forall|px: int, py: int|
                #![trigger final(self).tile_at(px, py)]
                final(self).in_bounds(px, py) ==> final(self).tile_at(px, py) == if py == y && between(
                    px,
                    x1 as int,
                    x2 as int,
                ) {
                    TileType::Floor
                } else {
                    old(self).tile_at(px, py)
                },
    {
        let lo: i64 = if x1 <= x2 { x1 as i64 } else { x2 as i64 };
        let hi: i64 = if x1 <= x2 { x2 as i64 } else { x1 as i64 };
        let mut x: i64 = lo;
        while x <= hi
            invariant
                self.wf(),
                self.same_but_tiles(*old(self)),
                lo <= x <= hi + 1,
                lo == (if x1 <= x2 { x1 } else { x2 }),
                hi == (if x1 <= x2 { x2 } else { x1 }),
                forall|px: int, py: int|
                    #![trigger self.tile_at(px, py)]
                    self.in_bounds(px, py) ==> self.tile_at(px, py) == if py == y && lo <= px < x {
                        TileType::Floor
                    } else {
                        old(self).tile_at(px, py)
                    },
            decreases hi + 1 - x,
        {
            if 0 <= x && x < self.width as i64 && 0 <= y && y < self.height {
                self.set_floor(x as i32, y);
            }
            x = x + 1;
        }
    }

    /// Turns the cells of column `x` between `y1` and `y2` into floor, skipping any off the grid.
    pub(crate) fn apply_vertical_tunnel(&mut self, y1: i32, y2: i32, x: i32)
        requires
            old(self).wf(),
        ensures
            final(self).wf(),
            final(self).same_but_tiles(*old(self)),
            forall|px: int, py: int|
                #![trigger final(self).tile_at(px, py)]
                final(self).in_bounds(px, py) ==> final(self).tile_at(px, py) == if px == x && between(
                    py,
                    y1 as int,
                    y2 as int,
                ) {
                    TileType::Floor
                } else {
                    old(self).tile_at(px, py)
                },
    {
        let lo: i64 = if y1 <= y2 { y1 as i64 } else { y2 as i64 };
        let hi: i64 = if y1 <= y2 { y2 as i64 } else { y1 as i64 };
        let mut y: i64 = lo;
        while y <= hi
            invariant
                self.wf(),
                self.same_but_tiles(*old(self)),
                lo <= y <= hi + 1,
                lo == (if y1 <= y2 { y1 } else { y2 }),
                hi == (if y1 <= y2 { y2 } else { y1 }),
                forall|px: int, py: int|
                    #![trigger self.tile_at(px, py)]
                    self.in_bounds(px, py) ==> self.tile_at(px, py) == if px == x && lo <= py < y {
                        TileType::Floor
                    } else {
                        old(self).tile_at(px, py)
                    },
            decreases hi + 1 - y,
        {
            if 0 <= x && x < self.width && 0 <= y && y < self.height as i64 {
                self.set_floor(x, y as i32);
            }
            y = y + 1;
        }
    }
}

/// Decoding an index of the grid gives a cell on the grid that encodes back to it.
pub proof fn lemma_xy_of_in_bounds(m: GameMap, i: int)
    requires
        m.wf(),
        0 <= i < m.tiles@.len(),
    ensures
        m.in_bounds(m.xy_of(i).0, m.xy_of(i).1),
        m.idx(m.xy_of(i).0, m.xy_of(i).1) == i,
{
    let w = m.width as int;
    let h = m.height as int;
    vstd::arithmetic::div_mod::lemma_fundamental_div_mod(i, w);
    let x = i % w;
    let y = i / w;
    assert(0 <= x < w);
    assert(0 <= y < h) by (nonlinear_arith)
        requires
            0 <= i < w * h,
            i == w * y + x,
            0 <= x < w,
            0 < w,
    ;
    vstd::arithmetic::mul::lemma_mul_is_commutative(w, y);
}

/// Encoding a cell as an index and decoding the index gives back the cell.
pub proof fn lemma_xy_idx_round_trip(m: GameMap, x: int, y: int)
    requires
        m.wf(),
        m.in_bounds(x, y),
    ensures
        m.xy_of(m.idx(x, y)) == (x, y),
        0 <= m.idx(x, y) < m.tiles@.len(),
{
    let w = m.width as int;
    lemma_index_in_range(w, m.height as int, x, y);
    vstd::arithmetic::div_mod::lemma_fundamental_div_mod_converse(m.idx(x, y), w, y, x);
}

} // verus!
