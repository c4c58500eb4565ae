use vstd::prelude::*;

use crate::components::{Player, Position, Viewshed, MAX_VIEW_RANGE};
use crate::map::{GameMap, TileType};

verus! {

/// `v` limited to `lo..=hi`.
pub open spec fn clamp(v: int, lo: int, hi: int) -> int {
    if v < lo {
        lo
    } else if v > hi {
        hi
    } else {
        v
    }
}

/// The level and its entities. An entity is an index into the component lists; entry
/// `e` of each list holds that entity's component of that kind, if it has one.
pub struct World {
    pub map: GameMap,
    pub positions: Vec<Option<Position>>,
    pub viewsheds: Vec<Option<Viewshed>>,
    pub players: Vec<Option<Player>>,
}

impl World {
    pub open spec fn entity_count(self) -> int {
        self.positions@.len() as int
    }

    /// The component lists line up, every position lies on a floor cell of the map, and
    /// every sight range is positive and at most `MAX_VIEW_RANGE`.
    pub open spec fn wf(self) -> bool {
        &&& self.map.wf()
        &&& forall|e: int|
            0 <= e < self.viewsheds@.len() && (#[trigger] self.viewsheds@[e]).is_some() ==> 0
                < self.viewsheds@[e].unwrap().range <= MAX_VIEW_RANGE
        &&& self.viewsheds@.len() == self.positions@.len()
        &&& self.players@.len() == self.positions@.len()
        &&& forall|e: int|
            0 <= e < self.positions@.len() && (#[trigger] self.positions@[e]).is_some() ==> self.map.is_floor(
                self.positions@[e].unwrap().x as int,
                self.positions@[e].unwrap().y as int,
            )
    }

    /// Where a step by `(dx, dy)` from `p` leads, held on the map.
    pub open spec fn step_target(self, p: Position, dx: int, dy: int) -> (int, int) {
        (
            clamp(p.x + dx, 0, self.map.width - 1),
            clamp(p.y + dy, 0, self.map.height - 1),
        )
    }

    /// A step from `p` by `(dx, dy)` is taken unless it leads onto a wall.
    pub open spec fn step_allowed(self, p: Position, dx: int, dy: int) -> bool {
        self.map.tile_at(self.step_target(p, dx, dy).0, self.step_target(p, dx, dy).1) != TileType::Wall
    }

    /// `after` is `before` with its staleness flag raised.
    pub open spec fn dirtied(before: Option<Viewshed>, after: Option<Viewshed>) -> bool {
        match before {
            Some(v) => after.is_some() && after.unwrap().visible_tiles@ == v.visible_tiles@
                && after.unwrap().range == v.range && after.unwrap().dirty,
            None => after.is_none(),
        }
    }

    /// No entity with sight holds a stale viewshed, so what the map marks as seen now
    /// matches where everyone stands.
    pub open spec fn views_current(self) -> bool {
        forall|e: int|
            0 <= e < self.entity_count() && (#[trigger] self.viewsheds@[e]).is_some() && self.positions@[e].is_some()
                ==> !self.viewsheds@[e].unwrap().dirty
    }

    /// Whether every viewshed of an entity with a position is current, so that drawing
    /// from the seen-now cells shows this turn's view.
    pub fn ready_to_render(&self) -> (r: bool)
        requires
            self.wf(),
        ensures
            r == self.views_current(),
    {
        let mut e: usize = 0;
        while e < self.positions.len()
            invariant
                self.wf(),
                0 <= e <= self.entity_count(),
                forall|j: int|
                    0 <= j < e && (#[trigger] self.viewsheds@[j]).is_some() && self.positions@[j].is_some()
                        ==> !self.viewsheds@[j].unwrap().dirty,
            decreases self.entity_count() - e,
        {
            if self.positions[e].is_some() {
                match &self.viewsheds[e] {
                    Some(v) => {
                        if v.dirty {
                            return false;
                        }
                    },
                    None => {},
                }
            }
            e = e + 1;
        }
        true
    }

    /// Whether `entity` is to be drawn: it has a position and its cell is seen now.
    pub fn should_draw(&self, entity: usize) -> (r: bool)
        requires
            self.wf(),
            entity < self.entity_count(),
        ensures
            r == (self.positions@[entity as int].is_some() && self.map.visible_at(
                self.positions@[entity as int].unwrap().x as int,
                self.positions@[entity as int].unwrap().y as int,
            )),
    {
        match self.positions[entity] {
            Some(p) => {
                let idx = self.map.xy_idx(p.x, p.y);
                self.map.visible_tiles[idx]
            },
            None => false,
        }
    }

    /// An empty world on `map`.
    pub fn new(map: GameMap) -> (w: World)
        requires
            map.wf(),
        ensures
            w.wf(),
            w.map == map,
            w.entity_count() == 0,
    {
        World { map, positions: Vec::new(), viewsheds: Vec::new(), players: Vec::new() }
    }

    /// Adds an entity with the given components and returns it.
    pub fn create_entity(
        &mut self,
        position: Option<Position>,
        viewshed: Option<Viewshed>,
        player: Option<Player>,
    ) -> (e: usize)
        requires
            old(self).wf(),
            position.is_some() ==> old(self).map.is_floor(
                position.unwrap().x as int,
                position.unwrap().y as int,
            ),
            viewshed.is_some() ==> 0 < viewshed.unwrap().range <= MAX_VIEW_RANGE,
        ensures
            final(self).wf(),
            e == old(self).entity_count(),
            final(self).map == old(self).map,
            final(self).positions@ == old(self).positions@.push(position),
            final(self).viewsheds@ == old(self).viewsheds@.push(viewshed),
            final(self).players@ == old(self).players@.push(player),
    {
        let e = self.positions.len();
        self.positions.push(position);
        self.viewsheds.push(viewshed);
        self.players.push(player);
        e
    }

    /// Moves `entity` by `(dx, dy)`, held on the map, unless that leads onto a wall; a
    /// move marks the entity's viewshed stale. Returns whether it moved.
    pub fn try_move(&mut self, entity: usize, dx: i32, dy: i32) -> (moved: bool)
        requires
            old(self).wf(),
            entity < old(self).entity_count(),
        ensures
            final(self).wf(),
            final(self).map == old(self).map,
            final(self).players@ == old(self).players@,
            moved == (old(self).positions@[entity as int].is_some() && old(self).step_allowed(
                old(self).positions@[entity as int].unwrap(),
                dx as int,
                dy as int,
            )),
            moved ==> final(self).positions@ == old(self).positions@.update(
                entity as int,
                Some(
                    Position {
                        x: old(self).step_target(
                            old(self).positions@[entity as int].unwrap(),
                            dx as int,
                            dy as int,
                        ).0 as i32,
                        y: old(self).step_target(
                            old(self).positions@[entity as int].unwrap(),
                            dx as int,
                            dy as int,
                        ).1 as i32,
                    },
                ),
            ),
            moved ==> final(self).viewsheds@.len() == old(self).viewsheds@.len(),
            moved ==> World::dirtied(
                old(self).viewsheds@[entity as int],
                final(self).viewsheds@[entity as int],
            ),
            moved ==> forall|e: int|
                0 <= e < final(self).viewsheds@.len() && e != entity ==> #[trigger] final(self).viewsheds@[e]
                    == old(self).viewsheds@[e],
            !moved ==> final(self).positions@ == old(self).positions@,
            !moved ==> final(self).viewsheds@ == old(self).viewsheds@,
    {
        match self.positions[entity] {
            None => false,
            Some(p) => {
                let tx = p.x as i64 + dx as i64;
                let ty = p.y as i64 + dy as i64;
                let cx: i32 = if tx < 0 {
                    0
                } else if tx > (self.map.width - 1) as i64 {
                    self.map.width - 1
                } else {
                    tx as i32
                };
                let cy: i32 = if ty < 0 {
                    0
                } else if ty > (self.map.height - 1) as i64 {
                    self.map.height - 1
                } else {
                    ty as i32
                };
                let idx = self.map.xy_idx(cx, cy);
                if self.map.tiles[idx] == TileType::Wall {
                    false
                } else {
                    self.positions.set(entity, Some(Position { x: cx, y: cy }));
                    let mut slot: Option<Viewshed> = None;
                    self.viewsheds.set_and_swap(entity, &mut slot);
                    match slot {
                        Some(v) => {
                            self.viewsheds.set(
                                entity,
                                Some(Viewshed { visible_tiles: v.visible_tiles, range: v.range, dirty: true }),
                            );
                        },
                        None => {},
                    }
                    true
                }
            },
        }
    }
}

/// A step towards a wall cell on the map is refused.
pub proof fn lemma_step_onto_wall_refused(w: World, p: Position, dx: int, dy: int)
    requires
        w.wf(),
        w.map.in_bounds(p.x + dx, p.y + dy),
        w.map.tile_at(p.x + dx, p.y + dy) == TileType::Wall,
    ensures
        !w.step_allowed(p, dx, dy),
{
}

/// A step towards a floor cell on the map is taken and lands exactly on that cell.
pub proof fn lemma_step_onto_floor_taken(w: World, p: Position, dx: int, dy: int)
    requires
        w.wf(),
        w.map.is_floor(p.x + dx, p.y + dy),
    ensures
        w.step_allowed(p, dx, dy),
        w.step_target(p, dx, dy) == (p.x + dx, p.y + dy),
{
}

/// Moves every player entity that has a position by `(delta_x, delta_y)`,
/// as `World::try_move` does.
pub fn try_move_player(delta_x: i32, delta_y: i32, ecs: &mut World)
    requires
        old(ecs).wf(),
    ensures
        final(ecs).wf(),
        final(ecs).map == old(ecs).map,
        final(ecs).players@ == old(ecs).players@,
        final(ecs).positions@.len() == old(ecs).positions@.len(),
        final(ecs).viewsheds@.len() == old(ecs).viewsheds@.len(),
        forall|e: int|
            #![trigger final(ecs).positions@[e]]
            #![trigger final(ecs).viewsheds@[e]]
            0 <= e < old(ecs).entity_count() ==> {
                let p = old(ecs).positions@[e];
                if old(ecs).players@[e].is_some() && p.is_some()
                    && old(ecs).step_allowed(p.unwrap(), delta_x as int, delta_y as int) {
                    &&& final(ecs).positions@[e] == Some(
                        Position {
                            x: old(ecs).step_target(p.unwrap(), delta_x as int, delta_y as int).0 as i32,
                            y: old(ecs).step_target(p.unwrap(), delta_x as int, delta_y as int).1 as i32,
                        },
                    )
                    &&& World::dirtied(old(ecs).viewsheds@[e], final(ecs).viewsheds@[e])
                } else {
                    &&& final(ecs).positions@[e] == p
                    &&& final(ecs).viewsheds@[e] == old(ecs).viewsheds@[e]
                }
            },
{
    let n = ecs.positions.len();
    let mut e: usize = 0;
    while e < n
        invariant
            ecs.wf(),
            n == old(ecs).entity_count(),
            e <= n,
            ecs.map == old(ecs).map,
            ecs.players@ == old(ecs).players@,
            ecs.positions@.len() == n,
            ecs.viewsheds@.len() == n,
            forall|j: int|
                #![trigger ecs.positions@[j]]
                #![trigger ecs.viewsheds@[j]]
                e <= j < n ==> ecs.positions@[j] == old(ecs).positions@[j] && ecs.viewsheds@[j]
                    == old(ecs).viewsheds@[j],
            forall|j: int|
                #![trigger ecs.positions@[j]]
                #![trigger ecs.viewsheds@[j]]
                0 <= j < e ==> {
                    let p = old(ecs).positions@[j];
                    if old(ecs).players@[j].is_some() && p.is_some()
                        && old(ecs).step_allowed(p.unwrap(), delta_x as int, delta_y as int) {
                        &&& ecs.positions@[j] == Some(
                            Position {
                                x: old(ecs).step_target(p.unwrap(), delta_x as int, delta_y as int).0 as i32,
                                y: old(ecs).step_target(p.unwrap(), delta_x as int, delta_y as int).1 as i32,
                            },
                        )
                        &&& World::dirtied(old(ecs).viewsheds@[j], ecs.viewsheds@[j])
                    } else {
                        &&& ecs.positions@[j] == p
                        &&& ecs.viewsheds@[j] == old(ecs).viewsheds@[j]
                    }
                },
        decreases n - e,
    {
        if ecs.players[e].is_some() {
            ecs.try_move(e, delta_x, delta_y);
        }
        e = e + 1;
    }
}

} // verus!
