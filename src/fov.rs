use vstd::prelude::*;

use crate::components::{lists, Position, MAX_VIEW_RANGE};
use crate::map::{GameMap, TileType};

verus! {

#[verifier::external_type_specification]
#[verifier::external_body]
pub struct ExPoint(rltk::Point);

/// Which cells of a `width` by `height` grid block sight, row by row, in the shape that
/// rltk's field-of-view routine reads.
pub struct Opacity {
    pub opaque: Vec<bool>,
    pub width: i32,
    pub height: i32,
}

impl rltk::BaseMap for Opacity {
    fn is_opaque(&self, idx: usize) -> bool {
        if idx < self.opaque.len() {
            self.opaque[idx]
        } else {
            true
        }
    }
}

impl rltk::Algorithm2D for Opacity {
    #[verifier::external_body]
    fn dimensions(&self) -> rltk::Point {
        rltk::Point::new(self.width, self.height)
    }
}

impl GameMap {
    /// The opacity of every cell: walls block sight.
    pub fn opacity(&self) -> (r: Opacity)
        requires
            self.wf(),
        ensures
            r.width == self.width,
            r.height == self.height,
            r.opaque@.len() == self.tiles@.len(),
            forall|i: int| 0 <= i < r.opaque@.len() ==> #[trigger] r.opaque@[i] == (self.tiles@[i] == TileType::Wall),
    {
        let mut opaque: Vec<bool> = Vec::new();
        let mut i: usize = 0;
        while i < self.tiles.len()
            invariant
                0 <= i <= self.tiles@.len(),
                opaque@.len() == i,
                forall|j: int| 0 <= j < i ==> #[trigger] opaque@[j] == (self.tiles@[j] == TileType::Wall),
            decreases self.tiles@.len() - i,
        {
            opaque.push(self.is_opaque(i));
            i = i + 1;
        }
        Opacity { opaque, width: self.width, height: self.height }
    }
}

/// Relies on rltk's `field_of_view` (recursive shadowcasting): it collects the visible
/// cells into a set that starts with the origin, and returns the members of that set
/// that lie on the grid. The order follows the set's walk, which differs between runs.
/// Its index arithmetic is in `i32`, and it panics on a negative index, so the origin
/// must lie on a grid whose cell count fits in `i32`.
#[verifier::external_body]
pub(crate) fn field_of_view(x: i32, y: i32, range: i32, grid: &Opacity) -> (r: Vec<Position>)
    requires
        0 < range <= MAX_VIEW_RANGE,
        0 <= x < grid.width,
        0 <= y < grid.height,
        grid.width * grid.height <= i32::MAX,
    ensures
        forall|i: int| 0 <= i < r@.len() ==> 0 <= #[trigger] r@[i].x < grid.width && 0 <= r@[i].y < grid.height,
        r@.no_duplicates(),
        lists(r@, x as int, y as int),
{
    rltk::field_of_view(rltk::Point::new(x, y), range, grid)
        .into_iter()
        .map(|p| Position { x: p.x, y: p.y })
        .collect()
}

} // verus!
