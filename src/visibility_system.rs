use vstd::prelude::*;

use crate::components::{lists, Position, Viewshed};
use crate::fov::field_of_view;
use crate::world::World;

verus! {

/// Refreshes every viewshed each pass. Recomputing is cheap on a grid of this size, so
/// it is done for every entity that has a position and a viewshed, stale or not, and
/// each refreshed viewshed is marked current.
pub struct VisibilitySystem {}

/// Cells on a `w` by `h` grid.
pub open spec fn on_grid(w: int, h: int) -> spec_fn(Position) -> bool {
    |p: Position| 0 <= p.x < w && 0 <= p.y < h
}

proof fn lemma_take_step(s: Seq<Position>, k: int, pred: spec_fn(Position) -> bool)
    requires
        0 <= k < s.len(),
    ensures
        s.take(k + 1).filter(pred) == if pred(s[k]) {
            s.take(k).filter(pred).push(s[k])
        } else {
            s.take(k).filter(pred)
        },
        forall|x: int, y: int|
            #[trigger] lists(s.take(k + 1), x, y) == (lists(s.take(k), x, y) || (s[k].x == x && s[k].y
                == y)),
{
    reveal(Seq::filter);
    assert(s.take(k + 1).drop_last() =~= s.take(k));
    assert forall|x: int, y: int|
        #[trigger] lists(s.take(k + 1), x, y) == (lists(s.take(k), x, y) || (s[k].x == x && s[k].y == y)) by {
        if lists(s.take(k + 1), x, y) {
            let i = choose|i: int| 0 <= i < s.take(k + 1).len() && #[trigger] s.take(k + 1)[i].x == x
                && s.take(k + 1)[i].y == y;
            if i < k {
                assert(s.take(k)[i] == s.take(k + 1)[i]);
            }
        }
        if lists(s.take(k), x, y) {
            let i = choose|i: int| 0 <= i < s.take(k).len() && #[trigger] s.take(k)[i].x == x && s.take(
                k,
            )[i].y == y;
            assert(s.take(k + 1)[i] == s.take(k)[i]);
        }
        if s[k].x == x && s[k].y == y {
            assert(s.take(k + 1)[k] == s[k]);
        }
    }
}

proof fn lemma_filter_keeps_all(s: Seq<Position>, pred: spec_fn(Position) -> bool)
    requires
        forall|i: int| 0 <= i < s.len() ==> pred(#[trigger] s[i]),
    ensures
        s.filter(pred) == s,
    decreases s.len(),
{
    reveal(Seq::filter);
    if s.len() > 0 {
        lemma_filter_keeps_all(s.drop_last(), pred);
        assert(pred(s[s.len() - 1]));
        assert(s.drop_last().push(s.last()) =~= s);
    }
}

impl World {
    /// The entity has what a visibility pass needs: a position and a viewshed.
    pub open spec fn has_sight(self, e: int) -> bool {
        self.positions@[e].is_some() && self.viewsheds@[e].is_some()
    }

    /// The part of a field of view that lies on the map, in its order.
    pub open spec fn kept_view(self, fov: Seq<Position>) -> Seq<Position> {
        fov.filter(on_grid(self.map.width as int, self.map.height as int))
    }

    /// `after` holds the on-map part of `fov`, keeps the range of `before`, and is current.
    pub open spec fn refreshed(self, before: Option<Viewshed>, after: Option<Viewshed>, fov: Seq<Position>) -> bool {
        &&& after.is_some()
        &&& after.unwrap().visible_tiles@ == self.kept_view(fov)
        &&& after.unwrap().range == before.unwrap().range
        &&& !after.unwrap().dirty
    }

    /// Replaces the viewshed of `entity` by the on-map part of `field_of_view`, marks those
    /// cells as seen now and, for a player, as revealed for good.
    pub fn refresh_viewshed(&mut self, entity: usize, field_of_view: &Vec<Position>)
        requires
            old(self).wf(),
            entity < old(self).entity_count(),
            old(self).has_sight(entity as int),
        ensures
            final(self).wf(),
            final(self).map.same_layout(old(self).map),
            final(self).positions@ == old(self).positions@,
            final(self).players@ == old(self).players@,
            final(self).viewsheds@.len() == old(self).viewsheds@.len(),
            old(self).refreshed(
                old(self).viewsheds@[entity as int],
                final(self).viewsheds@[entity as int],
                field_of_view@,
            ),
            forall|e: int|
                0 <= e < final(self).viewsheds@.len() && e != entity ==> #[trigger] final(self).viewsheds@[e]
                    == old(self).viewsheds@[e],
            forall|x: int, y: int|
                #![trigger final(self).map.visible_at(x, y)]
                final(self).map.in_bounds(x, y) ==> final(self).map.visible_at(x, y) == (old(self).map.visible_at(
                    x,
                    y,
                ) || lists(field_of_view@, x, y)),
            forall|x: int, y: int|
                #![trigger final(self).map.revealed_at(x, y)]
                final(self).map.in_bounds(x, y) ==> final(self).map.revealed_at(x, y) == (old(
                    self,
                ).map.revealed_at(x, y) || (old(self).players@[entity as int].is_some() && lists(
                    field_of_view@,
                    x,
                    y,
                ))),
    {
        let reveal = self.players[entity].is_some();
        let mut slot: Option<Viewshed> = None;
        self.viewsheds.set_and_swap(entity, &mut slot);
        let range = match slot {
            Some(v) => v.range,
            None => 0,
        };
        let ghost pred = on_grid(self.map.width as int, self.map.height as int);
        let ghost fov = field_of_view@;
        let mut kept: Vec<Position> = Vec::new();
        let mut k: usize = 0;
        while k < field_of_view.len()
            invariant
                self.wf(),
                self.map.same_layout(old(self).map),
                self.positions@ == old(self).positions@,
                self.players@ == old(self).players@,
                self.viewsheds@ == old(self).viewsheds@.update(entity as int, None),
                reveal == old(self).players@[entity as int].is_some(),
                pred == on_grid(self.map.width as int, self.map.height as int),
                fov == field_of_view@,
                0 <= k <= fov.len(),
                kept@ == fov.take(k as int).filter(pred),
                forall|x: int, y: int|
                    #![trigger self.map.visible_at(x, y)]
                    self.map.in_bounds(x, y) ==> self.map.visible_at(x, y) == (old(self).map.visible_at(x, y)
                        || lists(fov.take(k as int), x, y)),
                forall|x: int, y: int|
                    #![trigger self.map.revealed_at(x, y)]
                    self.map.in_bounds(x, y) ==> self.map.revealed_at(x, y) == (old(self).map.revealed_at(x, y)
                        || (reveal && lists(fov.take(k as int), x, y))),
            decreases fov.len() - k,
        {
            let p = field_of_view[k];
            proof {
                lemma_take_step(fov, k as int, pred);
            }
            if 0 <= p.x && p.x < self.map.width && 0 <= p.y && p.y < self.map.height {
                kept.push(p);
                self.map.mark_seen(p.x, p.y, reveal);
            }
            k = k + 1;
        }
        proof {
            assert(fov.take(fov.len() as int) =~= fov);
        }
        self.viewsheds.set(entity, Some(Viewshed { visible_tiles: kept, range, dirty: false }));
    }
}

/// Some entity below `limit` that has sight lists `(x, y)` in its field of view.
pub open spec fn seen_in_pass(w: World, fovs: Seq<Vec<Position>>, limit: int, x: int, y: int) -> bool {
    exists|j: int| 0 <= j < limit && w.has_sight(j) && #[trigger] lists(fovs[j]@, x, y)
}

/// Some player entity below `limit` that has sight lists `(x, y)` in its field of view.
pub open spec fn seen_by_player_in_pass(w: World, fovs: Seq<Vec<Position>>, limit: int, x: int, y: int) -> bool {
    exists|j: int|
        0 <= j < limit && w.has_sight(j) && w.players@[j].is_some() && #[trigger] lists(fovs[j]@, x, y)
}

impl VisibilitySystem {
    /// One visibility pass over fields of view computed elsewhere: `fields_of_view[e]` is
    /// the field of view of entity `e` from its position and range. Each entity with a position and a viewshed gets the on-map
    /// part of its field of view as its visible tiles; the map's seen-now cells become
    /// exactly the cells so listed, and cells listed for a player are revealed for good.
    pub fn apply_fields_of_view(&mut self, ecs: &mut World, fields_of_view: &Vec<Vec<Position>>)
        requires
            old(ecs).wf(),
            fields_of_view@.len() == old(ecs).entity_count(),
        ensures
            final(ecs).wf(),
            final(ecs).map.same_layout(old(ecs).map),
            final(ecs).positions@ == old(ecs).positions@,
            final(ecs).players@ == old(ecs).players@,
            final(ecs).viewsheds@.len() == old(ecs).viewsheds@.len(),
            forall|e: int|
                #![trigger final(ecs).viewsheds@[e]]
                0 <= e < old(ecs).entity_count() ==> if old(ecs).has_sight(e) {
                    old(ecs).refreshed(old(ecs).viewsheds@[e], final(ecs).viewsheds@[e], fields_of_view@[e]@)
                } else {
                    final(ecs).viewsheds@[e] == old(ecs).viewsheds@[e]
                },
            forall|x: int, y: int|
                #![trigger final(ecs).map.visible_at(x, y)]
                final(ecs).map.in_bounds(x, y) ==> final(ecs).map.visible_at(x, y) == seen_in_pass(
                    *old(ecs),
                    fields_of_view@,
                    old(ecs).entity_count(),
                    x,
                    y,
                ),
            forall|x: int, y: int|
                #![trigger final(ecs).map.revealed_at(x, y)]
                final(ecs).map.in_bounds(x, y) ==> final(ecs).map.revealed_at(x, y) == (old(
                    ecs,
                ).map.revealed_at(x, y) || seen_by_player_in_pass(
                    *old(ecs),
                    fields_of_view@,
                    old(ecs).entity_count(),
                    x,
                    y,
                )),
            final(ecs).views_current(),
            // a revealed cell stays revealed
            forall|i: int|
                0 <= i < old(ecs).map.revealed_tiles@.len() && #[trigger] old(ecs).map.revealed_tiles@[i]
                    ==> final(ecs).map.revealed_tiles@[i],
            // an entity's own cell is visible to it whenever its field of view lists it
            forall|e: int|
                #![trigger final(ecs).viewsheds@[e]]
                0 <= e < old(ecs).entity_count() && old(ecs).has_sight(e) && lists(
                    fields_of_view@[e]@,
                    old(ecs).positions@[e].unwrap().x as int,
                    old(ecs).positions@[e].unwrap().y as int,
                ) ==> lists(
                    final(ecs).viewsheds@[e].unwrap().visible_tiles@,
                    old(ecs).positions@[e].unwrap().x as int,
                    old(ecs).positions@[e].unwrap().y as int,
                ),
    {
        let ghost w0 = *ecs;
        let ghost fovs = fields_of_view@;
        ecs.map.clear_visible();
        proof {
            assert forall|x: int, y: int| #![trigger ecs.map.visible_at(x, y)]
                ecs.map.in_bounds(x, y) implies !ecs.map.visible_at(x, y) by {
                crate::map::lemma_index_in_range(ecs.map.width as int, ecs.map.height as int, x, y);
            }
        }
        let n = ecs.positions.len();
        let mut e: usize = 0;
        while e < n
            invariant
                ecs.wf(),
                n == w0.entity_count(),
                fovs == fields_of_view@,
                fovs.len() == n,
                0 <= e <= n,
                ecs.map.same_layout(w0.map),
                ecs.positions@ == w0.positions@,
                ecs.players@ == w0.players@,
                ecs.viewsheds@.len() == n,
                forall|j: int| #![trigger ecs.viewsheds@[j]] e <= j < n ==> ecs.viewsheds@[j] == w0.viewsheds@[j],
                forall|j: int|
                    #![trigger ecs.viewsheds@[j]]
                    0 <= j < e ==> if w0.has_sight(j) {
                        w0.refreshed(w0.viewsheds@[j], ecs.viewsheds@[j], fovs[j]@)
                    } else {
                        ecs.viewsheds@[j] == w0.viewsheds@[j]
                    },
                forall|x: int, y: int|
                    #![trigger ecs.map.visible_at(x, y)]
                    ecs.map.in_bounds(x, y) ==> ecs.map.visible_at(x, y) == seen_in_pass(w0, fovs, e as int, x, y),
                forall|x: int, y: int|
                    #![trigger ecs.map.revealed_at(x, y)]
                    ecs.map.in_bounds(x, y) ==> ecs.map.revealed_at(x, y) == (w0.map.revealed_at(x, y)
                        || seen_by_player_in_pass(w0, fovs, e as int, x, y)),
            decreases n - e,
        {
            let sighted = ecs.positions[e].is_some() && ecs.viewsheds[e].is_some();
            let ghost before = *ecs;
            if sighted {
                ecs.refresh_viewshed(e, &fields_of_view[e]);
            }
            proof {
                assert(sighted == w0.has_sight(e as int));
                assert forall|x: int, y: int| #![trigger ecs.map.visible_at(x, y)]
                    ecs.map.in_bounds(x, y) implies ecs.map.visible_at(x, y) == seen_in_pass(
                        w0,
                        fovs,
                        e + 1,
                        x,
                        y,
                    ) by {
                    assert(before.map.visible_at(x, y) == seen_in_pass(w0, fovs, e as int, x, y));
                    if seen_in_pass(w0, fovs, e as int, x, y) {
                        let j = choose|j: int| 0 <= j < e && w0.has_sight(j) && #[trigger] lists(fovs[j]@, x, y);
                        assert(0 <= j < e + 1 && w0.has_sight(j) && lists(fovs[j]@, x, y));
                    }
                    if sighted && lists(fovs[e as int]@, x, y) {
                        assert(0 <= e < e + 1 && w0.has_sight(e as int) && lists(fovs[e as int]@, x, y));
                    }
                    if seen_in_pass(w0, fovs, e + 1, x, y) {
                        let j = choose|j: int| 0 <= j < e + 1 && w0.has_sight(j) && #[trigger] lists(fovs[j]@, x, y);
                        if j < e {
                            assert(seen_in_pass(w0, fovs, e as int, x, y));
                        }
                    }
                }
                assert forall|x: int, y: int| #![trigger ecs.map.revealed_at(x, y)]
                    ecs.map.in_bounds(x, y) implies ecs.map.revealed_at(x, y) == (w0.map.revealed_at(x, y)
                        || seen_by_player_in_pass(w0, fovs, e + 1, x, y)) by {
                    assert(before.map.revealed_at(x, y) == (w0.map.revealed_at(x, y) || seen_by_player_in_pass(
                        w0,
                        fovs,
                        e as int,
                        x,
                        y,
                    )));
                    if seen_by_player_in_pass(w0, fovs, e as int, x, y) {
                        let j = choose|j: int|
                            0 <= j < e && w0.has_sight(j) && w0.players@[j].is_some() && #[trigger] lists(
                                fovs[j]@,
                                x,
                                y,
                            );
                        assert(0 <= j < e + 1 && w0.has_sight(j) && w0.players@[j].is_some() && lists(
                            fovs[j]@,
                            x,
                            y,
                        ));
                    }
                    if sighted && w0.players@[e as int].is_some() && lists(fovs[e as int]@, x, y) {
                        assert(0 <= e < e + 1 && w0.has_sight(e as int) && w0.players@[e as int].is_some()
                            && lists(fovs[e as int]@, x, y));
                    }
                    if seen_by_player_in_pass(w0, fovs, e + 1, x, y) {
                        let j = choose|j: int|
                            0 <= j < e + 1 && w0.has_sight(j) && w0.players@[j].is_some() && #[trigger] lists(
                                fovs[j]@,
                                x,
                                y,
                            );
                        if j < e {
                            assert(seen_by_player_in_pass(w0, fovs, e as int, x, y));
                        }
                    }
                }
            }
            e = e + 1;
        }
        proof {
            assert forall|e: int|
                0 <= e < ecs.entity_count() && (#[trigger] ecs.viewsheds@[e]).is_some() && ecs.positions@[e].is_some()
                    implies !ecs.viewsheds@[e].unwrap().dirty by {
                if !w0.has_sight(e) {
                    assert(ecs.viewsheds@[e] == w0.viewsheds@[e]);
                }
            }
            assert forall|i: int|
                0 <= i < w0.map.revealed_tiles@.len() && #[trigger] w0.map.revealed_tiles@[i]
                    implies ecs.map.revealed_tiles@[i] by {
                let (x, y) = w0.map.xy_of(i);
                crate::map::lemma_xy_of_in_bounds(w0.map, i);
                assert(ecs.map.revealed_at(x, y));
            }
            assert forall|e: int|
                #![trigger ecs.viewsheds@[e]]
                0 <= e < w0.entity_count() && w0.has_sight(e) && lists(
                    fovs[e]@,
                    w0.positions@[e].unwrap().x as int,
                    w0.positions@[e].unwrap().y as int,
                ) implies lists(
                    ecs.viewsheds@[e].unwrap().visible_tiles@,
                    w0.positions@[e].unwrap().x as int,
                    w0.positions@[e].unwrap().y as int,
                ) by {
                let p = w0.positions@[e].unwrap();
                let fov = fovs[e]@;
                let pred = on_grid(w0.map.width as int, w0.map.height as int);
                let i = choose|i: int| 0 <= i < fov.len() && #[trigger] fov[i].x == p.x && fov[i].y == p.y;
                assert(w0.map.in_bounds(p.x as int, p.y as int));
                assert(pred(fov[i]));
                broadcast use vstd::seq_lib::group_filter_ensures;
                assert(fov.filter(pred).contains(fov[i]));
                let j = choose|j: int| 0 <= j < fov.filter(pred).len() && fov.filter(pred)[j] == fov[i];
                assert(fov.filter(pred)[j].x == p.x);
            }
        }
    }

    /// One visibility pass: each entity with a position and a viewshed gets, as its
    /// visible tiles, rltk's field of view from its position within its range (its own
    /// cell always among them, each cell once, all on the map), and is marked current.
    /// The map's seen-now cells become exactly the cells so listed, and cells listed for
    /// a player are revealed for good.
    pub fn run(&mut self, ecs: &mut World)
        requires
            old(ecs).wf(),
            old(ecs).map.width * old(ecs).map.height <= i32::MAX,
        ensures
            final(ecs).wf(),
            final(ecs).map.same_layout(old(ecs).map),
            final(ecs).positions@ == old(ecs).positions@,
            final(ecs).players@ == old(ecs).players@,
            final(ecs).viewsheds@.len() == old(ecs).viewsheds@.len(),
            forall|e: int|
                #![trigger final(ecs).viewsheds@[e]]
                0 <= e < old(ecs).entity_count() ==> if old(ecs).has_sight(e) {
                    let v = final(ecs).viewsheds@[e];
                    let p = old(ecs).positions@[e].unwrap();
                    &&& v.is_some()
                    &&& v.unwrap().range == old(ecs).viewsheds@[e].unwrap().range
                    &&& !v.unwrap().dirty
                    &&& v.unwrap().visible_tiles@.no_duplicates()
                    &&& forall|i: int|
                        0 <= i < v.unwrap().visible_tiles@.len() ==> old(ecs).map.in_bounds(
                            #[trigger] v.unwrap().visible_tiles@[i].x as int,
                            v.unwrap().visible_tiles@[i].y as int,
                        )
                    &&& lists(v.unwrap().visible_tiles@, p.x as int, p.y as int)
                } else {
                    final(ecs).viewsheds@[e] == old(ecs).viewsheds@[e]
                },
            forall|x: int, y: int|
                #![trigger final(ecs).map.visible_at(x, y)]
                final(ecs).map.in_bounds(x, y) ==> final(ecs).map.visible_at(x, y) == exists|e: int|
                    0 <= e < old(ecs).entity_count() && old(ecs).has_sight(e) && #[trigger] lists(
                        final(ecs).viewsheds@[e].unwrap().visible_tiles@,
                        x,
                        y,
                    ),
            forall|x: int, y: int|
                #![trigger final(ecs).map.revealed_at(x, y)]
                final(ecs).map.in_bounds(x, y) ==> final(ecs).map.revealed_at(x, y) == (old(
                    ecs,
                ).map.revealed_at(x, y) || exists|e: int|
                    0 <= e < old(ecs).entity_count() && old(ecs).has_sight(e) && old(ecs).players@[e].is_some()
                        && #[trigger] lists(final(ecs).viewsheds@[e].unwrap().visible_tiles@, x, y)),
            final(ecs).views_current(),
            // a revealed cell stays revealed
            forall|i: int|
                0 <= i < old(ecs).map.revealed_tiles@.len() && #[trigger] old(ecs).map.revealed_tiles@[i]
                    ==> final(ecs).map.revealed_tiles@[i],
    {
        let ghost w0 = *ecs;
        let grid = ecs.map.opacity();
        let mut fields: Vec<Vec<Position>> = Vec::new();
        let n = ecs.positions.len();
        let mut e: usize = 0;
        while e < n
            invariant
                ecs.wf(),
                *ecs == w0,
                n == w0.entity_count(),
                0 <= e <= n,
                fields@.len() == e,
                grid.width == w0.map.width,
                grid.height == w0.map.height,
                grid.width * grid.height <= i32::MAX,
                forall|j: int|
                    0 <= j < e && w0.has_sight(j) ==> {
                        let f = (#[trigger] fields@[j])@;
                        let p = w0.positions@[j].unwrap();
                        &&& f.no_duplicates()
                        &&& forall|i: int|
                            0 <= i < f.len() ==> w0.map.in_bounds(#[trigger] f[i].x as int, f[i].y as int)
                        &&& lists(f, p.x as int, p.y as int)
                    },
            decreases n - e,
        {
            let mut seen: Vec<Position> = Vec::new();
            match (&ecs.positions[e], &ecs.viewsheds[e]) {
                (Some(p), Some(v)) => {
                    proof {
                        assert(ecs.positions@[e as int].is_some());
                        assert(ecs.viewsheds@[e as int].is_some());
                        assert(ecs.map.is_floor(p.x as int, p.y as int));
                    }
                    seen = field_of_view(p.x, p.y, v.range, &grid);
                },
                _ => {},
            }
            fields.push(seen);
            proof {
                assert forall|j: int| 0 <= j < e + 1 && w0.has_sight(j) implies {
                    let f = (#[trigger] fields@[j])@;
                    let p = w0.positions@[j].unwrap();
                    &&& f.no_duplicates()
                    &&& forall|i: int|
                        0 <= i < f.len() ==> w0.map.in_bounds(#[trigger] f[i].x as int, f[i].y as int)
                    &&& lists(f, p.x as int, p.y as int)
                } by {
                    if j < e {
                        assert(fields@[j] == fields@.drop_last()[j]);
                    }
                }
            }
            e = e + 1;
        }
        self.apply_fields_of_view(ecs, &fields);
        proof {
            let fovs = fields@;
            let pred = on_grid(w0.map.width as int, w0.map.height as int);
            assert forall|j: int| 0 <= j < n && w0.has_sight(j) implies (#[trigger] ecs.viewsheds@[j]).unwrap().visible_tiles@
                == fovs[j]@ by {
                let f = fovs[j]@;
                assert forall|i: int| 0 <= i < f.len() implies pred(#[trigger] f[i]) by {
                    assert(w0.map.in_bounds(f[i].x as int, f[i].y as int));
                }
                lemma_filter_keeps_all(f, pred);
            }
            assert forall|x: int, y: int| #![trigger ecs.map.visible_at(x, y)]
                ecs.map.in_bounds(x, y) implies ecs.map.visible_at(x, y) == exists|e: int|
                    0 <= e < w0.entity_count() && w0.has_sight(e) && #[trigger] lists(
                        ecs.viewsheds@[e].unwrap().visible_tiles@,
                        x,
                        y,
                    ) by {
                if seen_in_pass(w0, fovs, n as int, x, y) {
                    let j = choose|j: int| 0 <= j < n && w0.has_sight(j) && #[trigger] lists(fovs[j]@, x, y);
                    assert(ecs.viewsheds@[j].unwrap().visible_tiles@ == fovs[j]@);
                    assert(lists(ecs.viewsheds@[j].unwrap().visible_tiles@, x, y));
                }
                if exists|e: int|
                    0 <= e < w0.entity_count() && w0.has_sight(e) && #[trigger] lists(
                        ecs.viewsheds@[e].unwrap().visible_tiles@,
                        x,
                        y,
                    ) {
                    let j = choose|j: int|
                        0 <= j < w0.entity_count() && w0.has_sight(j) && #[trigger] lists(
                            ecs.viewsheds@[j].unwrap().visible_tiles@,
                            x,
                            y,
                        );
                    assert(ecs.viewsheds@[j].unwrap().visible_tiles@ == fovs[j]@);
                    assert(lists(fovs[j]@, x, y));
                }
            }
            assert forall|x: int, y: int| #![trigger ecs.map.revealed_at(x, y)]
                ecs.map.in_bounds(x, y) implies ecs.map.revealed_at(x, y) == (w0.map.revealed_at(x, y)
                    || exists|e: int|
                    0 <= e < w0.entity_count() && w0.has_sight(e) && w0.players@[e].is_some()
                        && #[trigger] lists(ecs.viewsheds@[e].unwrap().visible_tiles@, x, y)) by {
                if seen_by_player_in_pass(w0, fovs, n as int, x, y) {
                    let j = choose|j: int|
                        0 <= j < n && w0.has_sight(j) && w0.players@[j].is_some() && #[trigger] lists(
                            fovs[j]@,
                            x,
                            y,
                        );
                    assert(ecs.viewsheds@[j].unwrap().visible_tiles@ == fovs[j]@);
                    assert(lists(ecs.viewsheds@[j].unwrap().visible_tiles@, x, y));
                }
                if exists|e: int|
                    0 <= e < w0.entity_count() && w0.has_sight(e) && w0.players@[e].is_some()
                        && #[trigger] lists(ecs.viewsheds@[e].unwrap().visible_tiles@, x, y) {
                    let j = choose|j: int|
                        0 <= j < w0.entity_count() && w0.has_sight(j) && w0.players@[j].is_some()
                            && #[trigger] lists(ecs.viewsheds@[j].unwrap().visible_tiles@, x, y);
                    assert(ecs.viewsheds@[j].unwrap().visible_tiles@ == fovs[j]@);
                    assert(lists(fovs[j]@, x, y));
                }
            }
            assert forall|e: int| #![trigger ecs.viewsheds@[e]] 0 <= e < w0.entity_count() implies if w0.has_sight(e) {
                let v = ecs.viewsheds@[e];
                let p = w0.positions@[e].unwrap();
                &&& v.is_some()
                &&& v.unwrap().range == w0.viewsheds@[e].unwrap().range
                &&& !v.unwrap().dirty
                &&& v.unwrap().visible_tiles@.no_duplicates()
                &&& forall|i: int|
                    0 <= i < v.unwrap().visible_tiles@.len() ==> w0.map.in_bounds(
                        #[trigger] v.unwrap().visible_tiles@[i].x as int,
                        v.unwrap().visible_tiles@[i].y as int,
                    )
                &&& lists(v.unwrap().visible_tiles@, p.x as int, p.y as int)
            } else {
                ecs.viewsheds@[e] == w0.viewsheds@[e]
            } by {
                if w0.has_sight(e) {
                    assert(ecs.viewsheds@[e].unwrap().visible_tiles@ == fovs[e]@);
                }
            }
        }
    }
}

} // verus!
