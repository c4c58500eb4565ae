use vstd::prelude::*;

verus! {

/// Largest sight range: rltk's field of view sizes its working set by `(2 * range)^2`
/// in `i32`.
pub const MAX_VIEW_RANGE: i32 = 23170;

/// Where an entity stands, in grid coordinates.
#[derive(Clone, Copy, Debug, PartialEq, Eq, Structural)]
pub struct Position {
    pub x: i32,
    pub y: i32,
}

/// Marks the entity the user controls; its sight also reveals tiles for good.
#[derive(Clone, Copy, Debug, PartialEq, Eq, Structural)]
pub struct Player {}

/// What an entity saw in the last visibility pass, how far it sees, and whether that
/// result is stale because the entity moved since.
pub struct Viewshed {
    pub visible_tiles: Vec<Position>,
    pub range: i32,
    pub dirty: bool,
}

/// Whether some entry of `s` is the cell `(x, y)`.
pub open spec fn lists(s: Seq<Position>, x: int, y: int) -> bool {
    exists|i: int| 0 <= i < s.len() && #[trigger] s[i].x == x && s[i].y == y
}

impl Viewshed {
    /// A fresh viewshed of the given range that has seen nothing yet and asks to be computed.
    pub fn new(range: i32) -> (r: Viewshed)
        requires
            0 < range <= MAX_VIEW_RANGE,
        ensures
            r.visible_tiles@.len() == 0,
            r.range == range,
            r.dirty,
    {
        Viewshed { visible_tiles: Vec::new(), range, dirty: true }
    }

    /// Whether the last pass saw cell `(x, y)`.
    pub fn sees(&self, x: i32, y: i32) -> (r: bool)
        ensures
            r == lists(self.visible_tiles@, x as int, y as int),
    {
        let mut i: usize = 0;
        while i < self.visible_tiles.len()
            invariant
                0 <= i <= self.visible_tiles@.len(),
                forall|j: int|
                    0 <= j < i ==> !(#[trigger] self.visible_tiles@[j].x == x && self.visible_tiles@[j].y == y),
            decreases self.visible_tiles@.len() - i,
        {
            if self.visible_tiles[i].x == x && self.visible_tiles[i].y == y {
                return true;
            }
            i = i + 1;
        }
        false
    }
}

} // verus!
