use vstd::prelude::*;

use crate::map::TileType;

verus! {

/// Whether `(x, y)` lies on the `w` by `h` grid stored row by row in `tiles` and is floor.
pub open spec fn floor_at(tiles: Seq<TileType>, w: int, h: int, x: int, y: int) -> bool {
    0 <= x < w && 0 <= y < h && tiles[y * w + x] == TileType::Floor
}

/// Orthogonal neighbours.
pub open spec fn adjacent(a: (int, int), b: (int, int)) -> bool {
    ||| a.0 == b.0 && (a.1 - b.1 == 1 || b.1 - a.1 == 1)
    ||| a.1 == b.1 && (a.0 - b.0 == 1 || b.0 - a.0 == 1)
}

/// A non-empty sequence of floor cells, each a neighbour of the one before.
pub open spec fn is_walk(tiles: Seq<TileType>, w: int, h: int, path: Seq<(int, int)>) -> bool {
    &&& path.len() > 0
    &&& forall|i: int| 0 <= i < path.len() ==> floor_at(tiles, w, h, #[trigger] path[i].0, path[i].1)
    &&& forall|i: int| 0 <= i < path.len() - 1 ==> adjacent(#[trigger] path[i], path[i + 1])
}

/// Whether a walk over floor cells leads from `(ax, ay)` to `(bx, by)`.
pub open spec fn reachable(
    tiles: Seq<TileType>,
    w: int,
    h: int,
    ax: int,
    ay: int,
    bx: int,
    by: int,
) -> bool {
    exists|path: Seq<(int, int)>|
        #[trigger] is_walk(tiles, w, h, path) && path[0] == (ax, ay) && path[path.len() - 1] == (bx, by)
}

/// Every floor cell can be reached from `(cx, cy)` over floor cells.
pub open spec fn floor_connected_from(tiles: Seq<TileType>, w: int, h: int, cx: int, cy: int) -> bool {
    forall|x: int, y: int| #[trigger] floor_at(tiles, w, h, x, y) ==> reachable(tiles, w, h, cx, cy, x, y)
}

pub proof fn lemma_reachable_refl(tiles: Seq<TileType>, w: int, h: int, x: int, y: int)
    requires
        floor_at(tiles, w, h, x, y),
    ensures
        reachable(tiles, w, h, x, y, x, y),
{
    let p = seq![(x, y)];
    assert(is_walk(tiles, w, h, p));
}

pub proof fn lemma_reachable_step(
    tiles: Seq<TileType>,
    w: int,
    h: int,
    ax: int,
    ay: int,
    bx: int,
    by: int,
    cx: int,
    cy: int,
)
    requires
        reachable(tiles, w, h, ax, ay, bx, by),
        floor_at(tiles, w, h, cx, cy),
        adjacent((bx, by), (cx, cy)),
    ensures
        reachable(tiles, w, h, ax, ay, cx, cy),
{
    let p = choose|p: Seq<(int, int)>|
        #[trigger] is_walk(tiles, w, h, p) && p[0] == (ax, ay) && p[p.len() - 1] == (bx, by);
    let q = p.push((cx, cy));
    assert forall|i: int| 0 <= i < q.len() implies floor_at(tiles, w, h, #[trigger] q[i].0, q[i].1) by {
        if i < p.len() {
            assert(q[i] == p[i]);
        }
    }
    assert forall|i: int| 0 <= i < q.len() - 1 implies adjacent(#[trigger] q[i], q[i + 1]) by {
        assert(q[i] == p[i]);
        if i < p.len() - 1 {
            assert(q[i + 1] == p[i + 1]);
        }
    }
    assert(is_walk(tiles, w, h, q));
    assert(q[0] == (ax, ay));
}

pub proof fn lemma_reachable_symmetric(
    tiles: Seq<TileType>,
    w: int,
    h: int,
    ax: int,
    ay: int,
    bx: int,
    by: int,
)
    requires
        reachable(tiles, w, h, ax, ay, bx, by),
    ensures
        reachable(tiles, w, h, bx, by, ax, ay),
{
    let p = choose|p: Seq<(int, int)>|
        #[trigger] is_walk(tiles, w, h, p) && p[0] == (ax, ay) && p[p.len() - 1] == (bx, by);
    let n = p.len();
    let q = Seq::new(n, |i: int| p[n - 1 - i]);
    assert forall|i: int| 0 <= i < q.len() implies floor_at(tiles, w, h, #[trigger] q[i].0, q[i].1) by {
        assert(q[i] == p[n - 1 - i]);
    }
    assert forall|i: int| 0 <= i < q.len() - 1 implies adjacent(#[trigger] q[i], q[i + 1]) by {
        assert(q[i] == p[n - 1 - i]);
        assert(q[i + 1] == p[n - 2 - i]);
        assert(adjacent(p[n - 2 - i], p[n - 2 - i + 1]));
    }
    assert(is_walk(tiles, w, h, q));
}

pub proof fn lemma_reachable_trans(
    tiles: Seq<TileType>,
    w: int,
    h: int,
    ax: int,
    ay: int,
    bx: int,
    by: int,
    cx: int,
    cy: int,
)
    requires
        reachable(tiles, w, h, ax, ay, bx, by),
        reachable(tiles, w, h, bx, by, cx, cy),
    ensures
        reachable(tiles, w, h, ax, ay, cx, cy),
{
    let p = choose|p: Seq<(int, int)>|
        #[trigger] is_walk(tiles, w, h, p) && p[0] == (ax, ay) && p[p.len() - 1] == (bx, by);
    let q = choose|q: Seq<(int, int)>|
        #[trigger] is_walk(tiles, w, h, q) && q[0] == (bx, by) && q[q.len() - 1] == (cx, cy);
    let r = p + q.subrange(1, q.len() as int);
    let n = p.len();
    assert forall|i: int| 0 <= i < r.len() implies floor_at(tiles, w, h, #[trigger] r[i].0, r[i].1) by {
        if i < n {
            assert(r[i] == p[i]);
        } else {
            assert(r[i] == q[i - n + 1]);
        }
    }
    assert forall|i: int| 0 <= i < r.len() - 1 implies adjacent(#[trigger] r[i], r[i + 1]) by {
        if i < n - 1 {
            assert(r[i] == p[i]);
            assert(r[i + 1] == p[i + 1]);
        } else if i == n - 1 {
            assert(r[i] == q[0]);
            assert(r[i + 1] == q[1]);
        } else {
            assert(r[i] == q[i - n + 1]);
            assert(r[i + 1] == q[i - n + 2]);
        }
    }
    assert(is_walk(tiles, w, h, r));
    if q.len() == 1 {
        assert(r[r.len() - 1] == p[n - 1]);
    } else {
        assert(r[r.len() - 1] == q[q.len() - 1]);
    }
}

/// A walk stays a walk when no floor cell is walled up.
pub proof fn lemma_reachable_mono(
    tiles: Seq<TileType>,
    tiles2: Seq<TileType>,
    w: int,
    h: int,
    ax: int,
    ay: int,
    bx: int,
    by: int,
)
    requires
        reachable(tiles, w, h, ax, ay, bx, by),
        forall|x: int, y: int| #[trigger] floor_at(tiles, w, h, x, y) ==> floor_at(tiles2, w, h, x, y),
    ensures
        reachable(tiles2, w, h, ax, ay, bx, by),
{
    let p = choose|p: Seq<(int, int)>|
        #[trigger] is_walk(tiles, w, h, p) && p[0] == (ax, ay) && p[p.len() - 1] == (bx, by);
    assert forall|i: int| 0 <= i < p.len() implies floor_at(tiles2, w, h, #[trigger] p[i].0, p[i].1) by {
        assert(floor_at(tiles, w, h, p[i].0, p[i].1));
    }
    assert(is_walk(tiles2, w, h, p));
}

/// Whether `v` lies between `a` and `b`, both ends included, in either order.
pub open spec fn between(v: int, a: int, b: int) -> bool {
    if a <= b {
        a <= v <= b
    } else {
        b <= v <= a
    }
}

proof fn lemma_row(tiles: Seq<TileType>, w: int, h: int, y: int, lo: int, hi: int)
    requires
        lo <= hi,
        forall|x: int| lo <= x <= hi ==> #[trigger] floor_at(tiles, w, h, x, y),
    ensures
        forall|x: int| lo <= x <= hi ==> #[trigger] reachable(tiles, w, h, lo, y, x, y),
    decreases hi - lo,
{
    if hi == lo {
        lemma_reachable_refl(tiles, w, h, lo, y);
    } else {
        lemma_row(tiles, w, h, y, lo, hi - 1);
        assert(floor_at(tiles, w, h, hi, y));
        lemma_reachable_step(tiles, w, h, lo, y, hi - 1, y, hi, y);
    }
}

proof fn lemma_column(tiles: Seq<TileType>, w: int, h: int, x: int, lo: int, hi: int)
    requires
        lo <= hi,
        forall|y: int| lo <= y <= hi ==> #[trigger] floor_at(tiles, w, h, x, y),
    ensures
        forall|y: int| lo <= y <= hi ==> #[trigger] reachable(tiles, w, h, x, lo, x, y),
    decreases hi - lo,
{
    if hi == lo {
        lemma_reachable_refl(tiles, w, h, x, lo);
    } else {
        lemma_column(tiles, w, h, x, lo, hi - 1);
        assert(floor_at(tiles, w, h, x, hi));
        lemma_reachable_step(tiles, w, h, x, lo, x, hi - 1, x, hi);
    }
}

/// On a horizontal run of floor, every cell of the run is reachable from either end.
pub proof fn lemma_horizontal_run(tiles: Seq<TileType>, w: int, h: int, y: int, xa: int, xb: int)
    requires
        forall|x: int| between(x, xa, xb) ==> #[trigger] floor_at(tiles, w, h, x, y),
    ensures
        forall|x: int| between(x, xa, xb) ==> #[trigger] reachable(tiles, w, h, xa, y, x, y),
{
    let lo = if xa <= xb { xa } else { xb };
    let hi = if xa <= xb { xb } else { xa };
    assert forall|x: int| lo <= x <= hi implies #[trigger] floor_at(tiles, w, h, x, y) by {
        assert(between(x, xa, xb));
    }
    lemma_row(tiles, w, h, y, lo, hi);
    assert(reachable(tiles, w, h, lo, y, xa, y));
    lemma_reachable_symmetric(tiles, w, h, lo, y, xa, y);
    assert forall|x: int| between(x, xa, xb) implies #[trigger] reachable(tiles, w, h, xa, y, x, y) by {
        assert(reachable(tiles, w, h, lo, y, x, y));
        lemma_reachable_trans(tiles, w, h, xa, y, lo, y, x, y);
    }
}

/// On a vertical run of floor, every cell of the run is reachable from either end.
pub proof fn lemma_vertical_run(tiles: Seq<TileType>, w: int, h: int, x: int, ya: int, yb: int)
    requires
        forall|y: int| between(y, ya, yb) ==> #[trigger] floor_at(tiles, w, h, x, y),
    ensures
        forall|y: int| between(y, ya, yb) ==> #[trigger] reachable(tiles, w, h, x, ya, x, y),
{
    let lo = if ya <= yb { ya } else { yb };
    let hi = if ya <= yb { yb } else { ya };
    assert forall|y: int| lo <= y <= hi implies #[trigger] floor_at(tiles, w, h, x, y) by {
        assert(between(y, ya, yb));
    }
    lemma_column(tiles, w, h, x, lo, hi);
    assert(reachable(tiles, w, h, x, lo, x, ya));
    lemma_reachable_symmetric(tiles, w, h, x, lo, x, ya);
    assert forall|y: int| between(y, ya, yb) implies #[trigger] reachable(tiles, w, h, x, ya, x, y) by {
        assert(reachable(tiles, w, h, x, lo, x, y));
        lemma_reachable_trans(tiles, w, h, x, ya, x, lo, x, y);
    }
}

/// In a solid block of floor, every cell is reachable from every other.
pub proof fn lemma_block(
    tiles: Seq<TileType>,
    w: int,
    h: int,
    x1: int,
    y1: int,
    x2: int,
    y2: int,
    cx: int,
    cy: int,
)
    requires
        x1 <= cx <= x2,
        y1 <= cy <= y2,
        forall|x: int, y: int| x1 <= x <= x2 && y1 <= y <= y2 ==> #[trigger] floor_at(tiles, w, h, x, y),
    ensures
        forall|x: int, y: int|
            x1 <= x <= x2 && y1 <= y <= y2 ==> #[trigger] reachable(tiles, w, h, cx, cy, x, y),
{
    assert forall|x: int| x1 <= x <= x2 implies #[trigger] floor_at(tiles, w, h, x, y1) by {}
    lemma_row(tiles, w, h, y1, x1, x2);
    assert forall|x: int, y: int| x1 <= x <= x2 && y1 <= y <= y2 implies #[trigger] reachable(
        tiles,
        w,
        h,
        x1,
        y1,
        x,
        y,
    ) by {
        assert forall|yy: int| y1 <= yy <= y2 implies #[trigger] floor_at(tiles, w, h, x, yy) by {}
        lemma_column(tiles, w, h, x, y1, y2);
        assert(reachable(tiles, w, h, x1, y1, x, y1));
        assert(reachable(tiles, w, h, x, y1, x, y));
        lemma_reachable_trans(tiles, w, h, x1, y1, x, y1, x, y);
    }
    assert(reachable(tiles, w, h, x1, y1, cx, cy));
    lemma_reachable_symmetric(tiles, w, h, x1, y1, cx, cy);
    assert forall|x: int, y: int| x1 <= x <= x2 && y1 <= y <= y2 implies #[trigger] reachable(
        tiles,
        w,
        h,
        cx,
        cy,
        x,
        y,
    ) by {
        assert(reachable(tiles, w, h, x1, y1, x, y));
        lemma_reachable_trans(tiles, w, h, cx, cy, x1, y1, x, y);
    }
}

} // verus!
