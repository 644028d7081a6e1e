//! A rectangle against a point and against a segment, in closed form.
//!
//! A rectangle is tested as the polygon of its four corners. For a rectangle
//! with an area this comes to what one expects: a point belongs to the
//! rectangle exactly when it lies within its bounds, and a segment meets the
//! rectangle exactly when one of its points does. The second statement
//! covers the segment that lies wholly in the interior and touches no side,
//! and the one that passes through with both ends outside.

use vstd::prelude::*;
use crate::arith::{
    lemma_distribute,
    lemma_product_sign,
    lemma_regroup,
    lemma_scaled_order,
    lemma_scaled_part,
    lemma_swap,
    lemma_times_zero,
};
use crate::common_point::{
    RationalPt,
    lemma_ends_on_segment,
    lemma_path_meets_segment_is_sharing,
    lemma_paths_meet_is_sharing,
    lemma_whole_on_segment,
    rational_on_path,
    rational_on_segment,
    whole,
};
use crate::contains::region_contains;
use crate::laws::lemma_without_holes_not_lopsided;
use crate::model::{
    Bounds,
    Pt,
    Segment,
    is_path_edge,
    on_segment,
    path_edge,
    path_meets_segment,
    paths_meet,
    spans_overlap,
};
use crate::polygon::{
    boundary_meets_path,
    boundary_meets_segment,
    has_vertex_inside,
    region_meets_path,
    region_meets_point,
    region_meets_region,
    region_meets_segment,
};
use crate::ring::{
    CoordPos,
    crossings,
    has_three_distinct,
    on_ring,
    ray_crosses,
    ring_edge,
    ring_position,
};

verus! {

impl Bounds {
    /// The rectangle has an area: it is neither a point nor a segment.
    pub open spec fn proper(self) -> bool {
        self.min.x < self.max.x && self.min.y < self.max.y
    }

    /// The point lies within the bounds, the border included.
    pub open spec fn holds(self, p: Pt) -> bool {
        self.min.x <= p.x <= self.max.x && self.min.y <= p.y <= self.max.y
    }

    /// The point lies within the bounds and off the border.
    pub open spec fn holds_strictly(self, p: Pt) -> bool {
        self.min.x < p.x < self.max.x && self.min.y < p.y < self.max.y
    }

    /// Where the point lies relative to the bounds.
    pub open spec fn position(self, p: Pt) -> CoordPos {
        if self.holds_strictly(p) {
            CoordPos::Inside
        } else if self.holds(p) {
            CoordPos::OnBoundary
        } else {
            CoordPos::Outside
        }
    }
}

/// A point lies on a vertical segment exactly when it has the `x` of the
/// segment and its `y` lies between those of the ends.
proof fn lemma_on_vertical(p: Pt, x: int, y1: int, y2: int)
    requires
        y1 != y2,
    ensures
        on_segment(p, Segment { start: Pt { x, y: y1 }, end: Pt { x, y: y2 } }) == (p.x == x && (y1
            <= p.y <= y2 || y2 <= p.y <= y1)),
{
    lemma_times_zero(p.y - y1, x - x);
    lemma_product_sign(y2 - y1, p.x - x);
}

/// A point lies on a horizontal segment exactly when it has the `y` of the
/// segment and its `x` lies between those of the ends.
proof fn lemma_on_horizontal(p: Pt, y: int, x1: int, x2: int)
    requires
        x1 != x2,
    ensures
        on_segment(p, Segment { start: Pt { x: x1, y }, end: Pt { x: x2, y } }) == (p.y == y && (x1
            <= p.x <= x2 || x2 <= p.x <= x1)),
{
    lemma_times_zero(p.x - x1, y - y);
    lemma_product_sign(x2 - x1, p.y - y);
}

/// The ray from a point towards larger `x` crosses a vertical segment
/// exactly when the segment lies to the right of the point and the ray is
/// level with one of its points other than the upper end.
proof fn lemma_ray_crosses_vertical(p: Pt, x: int, y1: int, y2: int)
    ensures
        ray_crosses(p, Segment { start: Pt { x, y: y1 }, end: Pt { x, y: y2 } }) == (p.x < x && ((y1
            <= p.y < y2) || (y2 <= p.y < y1))),
{
    lemma_times_zero(p.y - y1, x - x);
    lemma_product_sign(x - p.x, y2 - y1);
}

/// The ray from a point never crosses a horizontal segment.
proof fn lemma_ray_misses_horizontal(p: Pt, y: int, x1: int, x2: int)
    ensures
        !ray_crosses(p, Segment { start: Pt { x: x1, y }, end: Pt { x: x2, y } }),
{
}

/// Relative to the ring of a rectangle with an area, a point lies where it
/// lies relative to the bounds.
pub proof fn lemma_bounds_position(b: Bounds, p: Pt)
    requires
        b.proper(),
    ensures
        ring_position(p, b.region().exterior) == b.position(p),
{
    let ring = b.region().exterior;
    let (x0, y0, x1, y1) = (b.min.x, b.min.y, b.max.x, b.max.y);
    assert(ring.len() == 5);
    assert(ring[0] == Pt { x: x0, y: y0 });
    assert(ring[1] == Pt { x: x0, y: y1 });
    assert(ring[2] == Pt { x: x1, y: y1 });
    assert(ring[3] == Pt { x: x1, y: y0 });
    assert(ring[4] == Pt { x: x0, y: y0 });
    assert(ring[0] != ring[1] && ring[1] != ring[2] && ring[0] != ring[2]);
    assert(has_three_distinct(ring));
    let left = Segment { start: ring[0], end: ring[1] };
    let top = Segment { start: ring[1], end: ring[2] };
    let right = Segment { start: ring[2], end: ring[3] };
    let bottom = Segment { start: ring[3], end: ring[4] };
    let corner = Segment { start: ring[4], end: ring[0] };
    assert(ring_edge(ring, 0) == left);
    assert(ring_edge(ring, 1) == top);
    assert(ring_edge(ring, 2) == right);
    assert(ring_edge(ring, 3) == bottom);
    assert(ring_edge(ring, 4) == corner);
    lemma_on_vertical(p, x0, y0, y1);
    lemma_on_horizontal(p, y1, x0, x1);
    lemma_on_vertical(p, x1, y1, y0);
    lemma_on_horizontal(p, y0, x1, x0);
    lemma_times_zero(p.y - y0, x0 - x0);
    lemma_times_zero(p.x - x0, y0 - y0);
    assert(on_segment(p, corner) == (p == ring[0]));
    let on_border = b.holds(p) && !b.holds_strictly(p);
    assert(on_border == (on_segment(p, left) || on_segment(p, top) || on_segment(p, right)
        || on_segment(p, bottom) || on_segment(p, corner)));
    if on_border {
        assert(on_ring(p, ring)) by {
            if on_segment(p, left) {
                assert(0 <= 0 < ring.len() && on_segment(p, ring_edge(ring, 0)));
            } else if on_segment(p, top) {
                assert(0 <= 1 < ring.len() && on_segment(p, ring_edge(ring, 1)));
            } else if on_segment(p, right) {
                assert(0 <= 2 < ring.len() && on_segment(p, ring_edge(ring, 2)));
            } else if on_segment(p, bottom) {
                assert(0 <= 3 < ring.len() && on_segment(p, ring_edge(ring, 3)));
            } else {
                assert(0 <= 4 < ring.len() && on_segment(p, ring_edge(ring, 4)));
            }
        }
    } else {
        assert forall|k: int| 0 <= k < ring.len() implies !on_segment(
            p,
            #[trigger] ring_edge(ring, k),
        ) by {
            assert(k == 0 || k == 1 || k == 2 || k == 3 || k == 4);
        }
        lemma_ray_crosses_vertical(p, x0, y0, y1);
        lemma_ray_misses_horizontal(p, y1, x0, x1);
        lemma_ray_crosses_vertical(p, x1, y1, y0);
        lemma_ray_misses_horizontal(p, y0, x1, x0);
        lemma_ray_misses_horizontal(p, y0, x0, x0);
        assert(crossings(p, ring, 0) == 0);
        assert(crossings(p, ring, 1) == if ray_crosses(p, left) { 1nat } else { 0nat });
        assert(crossings(p, ring, 2) == crossings(p, ring, 1));
        assert(crossings(p, ring, 3) == crossings(p, ring, 2) + if ray_crosses(p, right) {
            1nat
        } else {
            0nat
        });
        assert(crossings(p, ring, 4) == crossings(p, ring, 3));
        assert(crossings(p, ring, 5) == crossings(p, ring, 4));
    }
}

/// A rectangle with an area meets exactly the points within its bounds, and
/// strictly contains exactly those off its border.
pub proof fn lemma_bounds_meets_point(b: Bounds, p: Pt)
    requires
        b.proper(),
    ensures
        region_meets_point(b.region(), p) == b.holds(p),
        region_contains(b.region(), p) == b.holds_strictly(p),
{
    lemma_bounds_position(b, p);
}

/// A rectangle without an area meets no point: its ring has no three distinct
/// vertices.
pub proof fn lemma_flat_bounds_meet_no_point(b: Bounds, p: Pt)
    requires
        b.min.x == b.max.x || b.min.y == b.max.y,
    ensures
        !region_meets_point(b.region(), p),
{
    let ring = b.region().exterior;
    assert forall|i: int, j: int, k: int|
        0 <= i < ring.len() && 0 <= j < ring.len() && 0 <= k < ring.len() implies !(ring[i]
        != ring[j] && ring[j] != ring[k] && ring[i] != ring[k]) by {
        assert(ring.len() == 5);
        assert(ring[i] == ring[0] || ring[i] == ring[2] || ring[i] == ring[1] || ring[i]
            == ring[3]);
        assert(ring[j] == ring[0] || ring[j] == ring[2] || ring[j] == ring[1] || ring[j]
            == ring[3]);
        assert(ring[k] == ring[0] || ring[k] == ring[2] || ring[k] == ring[1] || ring[k]
            == ring[3]);
    }
}

/// The rational point lies within the bounds, the border included.
pub open spec fn rational_within(b: Bounds, q: RationalPt) -> bool {
    q.d > 0 && q.d * b.min.x <= q.x <= q.d * b.max.x && q.d * b.min.y <= q.y <= q.d * b.max.y
}

/// The rational point lies on the border of the bounds.
pub open spec fn rational_on_border(b: Bounds, q: RationalPt) -> bool {
    rational_within(b, q) && (q.x == q.d * b.min.x || q.x == q.d * b.max.x || q.y == q.d * b.min.y
        || q.y == q.d * b.max.y)
}

/// A point on the border of a rectangle lies on a side of the polygon of its
/// corners.
proof fn lemma_border_on_ring(b: Bounds, q: RationalPt)
    requires
        b.ordered(),
        rational_on_border(b, q),
    ensures
        rational_on_path(q, b.region().exterior),
{
    let ring = b.region().exterior;
    let (x0, y0, x1, y1) = (b.min.x, b.min.y, b.max.x, b.max.y);
    assert(ring.len() == 5);
    assert(path_edge(ring, 0) == Segment { start: Pt { x: x0, y: y0 }, end: Pt { x: x0, y: y1 } });
    assert(path_edge(ring, 1) == Segment { start: Pt { x: x0, y: y1 }, end: Pt { x: x1, y: y1 } });
    assert(path_edge(ring, 2) == Segment { start: Pt { x: x1, y: y1 }, end: Pt { x: x1, y: y0 } });
    assert(path_edge(ring, 3) == Segment { start: Pt { x: x1, y: y0 }, end: Pt { x: x0, y: y0 } });
    if q.x == q.d * x0 {
        lemma_times_zero(q.y - q.d * y0, x0 - x0);
        lemma_times_zero(y1 - y0, q.x - q.d * x0);
        assert(is_path_edge(ring, 0) && rational_on_segment(q, path_edge(ring, 0)));
    } else if q.y == q.d * y1 {
        lemma_times_zero(x1 - x0, q.y - q.d * y1);
        lemma_times_zero(q.x - q.d * x0, y1 - y1);
        assert(is_path_edge(ring, 1) && rational_on_segment(q, path_edge(ring, 1)));
    } else if q.x == q.d * x1 {
        lemma_times_zero(q.y - q.d * y1, x1 - x1);
        lemma_times_zero(y0 - y1, q.x - q.d * x1);
        assert(is_path_edge(ring, 2) && rational_on_segment(q, path_edge(ring, 2)));
    } else {
        lemma_times_zero(x0 - x1, q.y - q.d * y0);
        lemma_times_zero(q.x - q.d * x1, y0 - y0);
        assert(is_path_edge(ring, 3) && rational_on_segment(q, path_edge(ring, 3)));
    }
}

/// A point on a side of the polygon of the corners of a rectangle lies on
/// the border of the rectangle.
proof fn lemma_ring_on_border(b: Bounds, q: RationalPt)
    requires
        b.ordered(),
        rational_on_path(q, b.region().exterior),
    ensures
        rational_on_border(b, q),
{
    let ring = b.region().exterior;
    let (x0, y0, x1, y1) = (b.min.x, b.min.y, b.max.x, b.max.y);
    assert(ring.len() == 5);
    let i = choose|i: int|
        is_path_edge(ring, i) && rational_on_segment(q, #[trigger] path_edge(ring, i));
    assert(i == 0 || i == 1 || i == 2 || i == 3);
    lemma_scaled_order(q.d, x0, x1);
    lemma_scaled_order(q.d, y0, y1);
    assert(ring[0] == Pt { x: x0, y: y0 });
    assert(ring[1] == Pt { x: x0, y: y1 });
    assert(ring[2] == Pt { x: x1, y: y1 });
    assert(ring[3] == Pt { x: x1, y: y0 });
    assert(ring[4] == Pt { x: x0, y: y0 });
}

/// A quantity changes evenly along the way from a first point to a second:
/// it is `alpha` at the first point and `alpha + beta` at the second. This is
/// `m` times what it is `k` of `m` parts of the way along.
spec fn held(alpha: int, beta: int, k: int, m: int) -> int {
    m * alpha + k * beta
}

/// What is not negative at the start of the way and positive at its end is
/// not negative on the way.
proof fn lemma_persist(alpha: int, beta: int, k: int, m: int)
    requires
        alpha >= 0,
        alpha + beta > 0,
        0 <= k <= m,
        m > 0,
    ensures
        held(alpha, beta, k, m) >= 0,
{
    lemma_product_sign(m, alpha);
    if beta >= 0 {
        lemma_product_sign(k, beta);
    } else {
        lemma_product_sign(m - k, beta);
        lemma_distribute(m, k, beta);
        lemma_distribute(alpha, beta, m);
        lemma_product_sign(m, alpha + beta);
    }
}

/// What is not positive at the start of the way and positive at its end
/// vanishes at `-alpha` of `beta` parts of the way.
proof fn lemma_enter(alpha: int, beta: int)
    requires
        alpha <= 0,
        alpha + beta > 0,
    ensures
        beta > 0,
        0 <= -alpha < beta,
        held(alpha, beta, -alpha, beta) == 0,
{
    lemma_swap(beta, alpha);
    lemma_distribute(0, alpha, beta);
}

/// Of two such quantities that vanish on the way, what the second is where
/// the first vanishes is the opposite of what the first is where the second
/// vanishes: the one that vanishes later is positive there.
proof fn lemma_later_entry(ai: int, bi: int, aj: int, bj: int)
    ensures
        held(aj, bj, -ai, bi) == -held(ai, bi, -aj, bj),
{
    lemma_swap(bi, aj);
    lemma_swap(bj, ai);
    lemma_distribute(0, ai, bj);
    lemma_distribute(0, aj, bi);
}

/// Four such quantities are positive at the end of the way. At its start the
/// first two are not both non-positive, nor are the last two, but one of the
/// four is. Then at some point of the way one of the four vanishes and none
/// is negative.
proof fn lemma_contact(
    a1: int,
    b1: int,
    a2: int,
    b2: int,
    a3: int,
    b3: int,
    a4: int,
    b4: int,
) -> (km: (int, int))
    requires
        a1 + b1 > 0,
        a2 + b2 > 0,
        a3 + b3 > 0,
        a4 + b4 > 0,
        a1 > 0 || a2 > 0,
        a3 > 0 || a4 > 0,
        a1 <= 0 || a2 <= 0 || a3 <= 0 || a4 <= 0,
    ensures
        km.1 > 0,
        0 <= km.0 <= km.1,
        held(a1, b1, km.0, km.1) >= 0,
        held(a2, b2, km.0, km.1) >= 0,
        held(a3, b3, km.0, km.1) >= 0,
        held(a4, b4, km.0, km.1) >= 0,
        held(a1, b1, km.0, km.1) == 0 || held(a2, b2, km.0, km.1) == 0 || held(a3, b3, km.0, km.1)
            == 0 || held(a4, b4, km.0, km.1) == 0,
{
    // The one of the first two, and the one of the last two, that may be
    // non-positive at the start.
    let (ai, bi) = if a1 <= 0 { (a1, b1) } else { (a2, b2) };
    let (aj, bj) = if a3 <= 0 { (a3, b3) } else { (a4, b4) };
    let first = if ai <= 0 && aj <= 0 {
        lemma_enter(ai, bi);
        lemma_enter(aj, bj);
        lemma_later_entry(ai, bi, aj, bj);
        held(aj, bj, -ai, bi) >= 0
    } else {
        ai <= 0
    };
    let (k, m) = if first { (-ai, bi) } else { (-aj, bj) };
    if first {
        lemma_enter(ai, bi);
    } else {
        lemma_enter(aj, bj);
    }
    if a1 > 0 {
        lemma_persist(a1, b1, k, m);
    }
    if a2 > 0 {
        lemma_persist(a2, b2, k, m);
    }
    if a3 > 0 {
        lemma_persist(a3, b3, k, m);
    }
    if a4 > 0 {
        lemma_persist(a4, b4, k, m);
    }
    if ai > 0 {
        lemma_persist(ai, bi, k, m);
    }
    if aj > 0 {
        lemma_persist(aj, bj, k, m);
    }
    (k, m)
}

/// The point `k` of `m` parts of the way from the point `a` to the rational
/// point `q`.
pub open spec fn part_way(a: Pt, q: RationalPt, k: int, m: int) -> RationalPt {
    RationalPt {
        x: m * (q.d * a.x) + k * (q.x - q.d * a.x),
        y: m * (q.d * a.y) + k * (q.y - q.d * a.y),
        d: m * q.d,
    }
}

/// What lies between the start of a segment and a point of the segment lies
/// on the segment.
pub proof fn lemma_part_way_on_segment(s: Segment, q: RationalPt, k: int, m: int)
    requires
        rational_on_segment(q, s),
        m > 0,
        0 <= k <= m,
    ensures
        rational_on_segment(part_way(s.start, q, k, m), s),
{
    let r = part_way(s.start, q, k, m);
    let (wx, wy) = (s.end.x - s.start.x, s.end.y - s.start.y);
    let (vx, vy) = (q.x - q.d * s.start.x, q.y - q.d * s.start.y);
    lemma_product_sign(m, q.d);
    lemma_regroup(m, q.d, s.start.x);
    lemma_regroup(m, q.d, s.start.y);
    lemma_regroup(m, q.d, s.end.x);
    lemma_regroup(m, q.d, s.end.y);
    assert(r.x - r.d * s.start.x == k * vx);
    assert(r.y - r.d * s.start.y == k * vy);
    // On the line.
    lemma_regroup(k, wx, vy);
    lemma_regroup(k, wy, vx);
    lemma_distribute(wx * vy, wy * vx, k);
    lemma_times_zero(k, wx * vy - wy * vx);
    assert(wx * (k * vy) - wy * (k * vx) == 0);
    // Between the ends.
    lemma_distribute(q.d * s.end.x, q.d * s.start.x, m);
    lemma_distribute(q.d * s.end.y, q.d * s.start.y, m);
    lemma_scaled_part(k, m, vx, q.d * s.end.x - q.d * s.start.x);
    lemma_scaled_part(k, m, vy, q.d * s.end.y - q.d * s.start.y);
}

/// How far the point part of the way from `a` to `q` lies beyond a bound, or
/// short of it, in one coordinate.
proof fn lemma_part_way_held(c: int, a: int, x: int, d: int, k: int, m: int)
    ensures
        (m * (d * a) + k * (x - d * a)) - (m * d) * c == held(d * a - d * c, x - d * a, k, m),
        (m * d) * c - (m * (d * a) + k * (x - d * a)) == held(d * c - d * a, d * a - x, k, m),
{
    lemma_regroup(m, d, c);
    lemma_distribute(d * a, d * c, m);
    lemma_distribute(d * c, d * a, m);
    lemma_distribute(0, x - d * a, k);
    assert(d * a - x == 0 - (x - d * a));
}

/// A segment that starts outside the interior of a rectangle and has a point
/// in the interior has a point on the border.
proof fn lemma_reaches_border(b: Bounds, s: Segment, q: RationalPt)
    requires
        b.proper(),
        !b.holds_strictly(s.start),
        rational_on_segment(q, s),
        rational_within(b, q),
        !rational_on_border(b, q),
    ensures
        exists|r: RationalPt| rational_on_border(b, r) && #[trigger] rational_on_segment(r, s),
{
    let a = s.start;
    let d = q.d;
    let (x0, y0, x1, y1) = (b.min.x, b.min.y, b.max.x, b.max.y);
    let (a1, b1) = (d * a.x - d * x0, q.x - d * a.x);
    let (a2, b2) = (d * x1 - d * a.x, d * a.x - q.x);
    let (a3, b3) = (d * a.y - d * y0, q.y - d * a.y);
    let (a4, b4) = (d * y1 - d * a.y, d * a.y - q.y);
    lemma_scaled_order(d, x0, a.x);
    lemma_scaled_order(d, a.x, x1);
    lemma_scaled_order(d, y0, a.y);
    lemma_scaled_order(d, a.y, y1);
    lemma_scaled_order(d, x0, x1);
    lemma_scaled_order(d, y0, y1);
    let (k, m) = lemma_contact(a1, b1, a2, b2, a3, b3, a4, b4);
    let r = part_way(a, q, k, m);
    lemma_part_way_on_segment(s, q, k, m);
    lemma_part_way_held(x0, a.x, q.x, d, k, m);
    lemma_part_way_held(x1, a.x, q.x, d, k, m);
    lemma_part_way_held(y0, a.y, q.y, d, k, m);
    lemma_part_way_held(y1, a.y, q.y, d, k, m);
    lemma_product_sign(m, d);
    assert(rational_on_border(b, r) && rational_on_segment(r, s));
}

/// A rectangle with an area meets a segment exactly when a point of the
/// segment lies within its bounds.
pub proof fn lemma_bounds_meets_segment(b: Bounds, s: Segment)
    requires
        b.proper(),
    ensures
        region_meets_segment(b.region(), s) <==> exists|q: RationalPt|
            rational_within(b, q) && #[trigger] rational_on_segment(q, s),
{
    let region = b.region();
    let ring = region.exterior;
    assert(boundary_meets_segment(region, s) == path_meets_segment(ring, s));
    lemma_path_meets_segment_is_sharing(ring, s);
    lemma_bounds_meets_point(b, s.start);
    lemma_bounds_meets_point(b, s.end);
    if region_meets_segment(region, s) {
        if path_meets_segment(ring, s) {
            let q = choose|q: RationalPt|
                rational_on_path(q, ring) && #[trigger] rational_on_segment(q, s);
            lemma_ring_on_border(b, q);
            assert(rational_within(b, q) && rational_on_segment(q, s));
        } else {
            let p = if region_contains(region, s.start) { s.start } else { s.end };
            lemma_ends_on_segment(s);
            lemma_whole_on_segment(p, s);
            assert(rational_within(b, whole(p)) && rational_on_segment(whole(p), s));
        }
    }
    if exists|q: RationalPt| rational_within(b, q) && #[trigger] rational_on_segment(q, s) {
        let q = choose|q: RationalPt| rational_within(b, q) && #[trigger] rational_on_segment(q, s);
        if !b.holds_strictly(s.start) {
            if rational_on_border(b, q) {
                lemma_border_on_ring(b, q);
                assert(rational_on_path(q, ring) && rational_on_segment(q, s));
            } else {
                lemma_reaches_border(b, s, q);
                let r = choose|r: RationalPt|
                    rational_on_border(b, r) && #[trigger] rational_on_segment(r, s);
                lemma_border_on_ring(b, r);
                assert(rational_on_path(r, ring) && rational_on_segment(r, s));
            }
        }
    }
}

/// A rectangle with an area meets a polyline that has an edge exactly when
/// a point of the polyline lies within its bounds.
pub proof fn lemma_bounds_meets_path(b: Bounds, path: Seq<Pt>)
    requires
        b.proper(),
        path.len() >= 2,
    ensures
        region_meets_path(b.region(), path) <==> exists|q: RationalPt|
            rational_within(b, q) && #[trigger] rational_on_path(q, path),
{
    let region = b.region();
    let ring = region.exterior;
    assert(boundary_meets_path(region, path) == paths_meet(ring, path));
    lemma_paths_meet_is_sharing(ring, path);
    if region_meets_path(region, path) {
        if paths_meet(ring, path) {
            let q = choose|q: RationalPt|
                rational_on_path(q, ring) && #[trigger] rational_on_path(q, path);
            lemma_ring_on_border(b, q);
            assert(rational_within(b, q) && rational_on_path(q, path));
        } else {
            let k = choose|k: int| 0 <= k < path.len() && region_contains(region, #[trigger] path[k]);
            let i = if k + 1 < path.len() { k } else { k - 1 };
            lemma_bounds_meets_point(b, path[k]);
            lemma_ends_on_segment(path_edge(path, i));
            lemma_whole_on_segment(path[k], path_edge(path, i));
            assert(is_path_edge(path, i) && rational_on_segment(whole(path[k]), path_edge(path, i)));
            assert(rational_within(b, whole(path[k])) && rational_on_path(whole(path[k]), path));
        }
    }
    if exists|q: RationalPt| rational_within(b, q) && #[trigger] rational_on_path(q, path) {
        let q = choose|q: RationalPt| rational_within(b, q) && #[trigger] rational_on_path(q, path);
        let i = choose|i: int|
            is_path_edge(path, i) && rational_on_segment(q, #[trigger] path_edge(path, i));
        let e = path_edge(path, i);
        lemma_bounds_meets_segment(b, e);
        assert(rational_within(b, q) && rational_on_segment(q, e));
        assert(region_meets_segment(region, e));
        if boundary_meets_segment(region, e) {
            assert(path_meets_segment(ring, e));
            crate::line_string::lemma_paths_meet_by_edge(ring, path);
            assert(is_path_edge(path, i) && path_meets_segment(ring, path_edge(path, i)));
        } else if region_contains(region, e.start) {
            assert(0 <= i < path.len() && region_contains(region, path[i]));
        } else {
            assert(0 <= i + 1 < path.len() && region_contains(region, path[i + 1]));
        }
    }
}

/// The bounds of two rectangles have a point in common.
pub open spec fn bounds_overlap(a: Bounds, b: Bounds) -> bool {
    spans_overlap(a.min.x, a.max.x, b.min.x, b.max.x) && spans_overlap(
        a.min.y,
        a.max.y,
        b.min.y,
        b.max.y,
    )
}

/// A point on the border of one rectangle and within the bounds of another
/// is found where the polygon of the first is tested against the second.
proof fn lemma_border_point_meets(a: Bounds, b: Bounds, p: Pt)
    requires
        a.proper(),
        b.proper(),
        b.holds(p),
        a.holds(p),
        !a.holds_strictly(p),
    ensures
        region_meets_path(b.region(), a.region().exterior),
{
    let q = whole(p);
    assert(rational_on_border(a, q));
    lemma_border_on_ring(a, q);
    lemma_bounds_meets_path(b, a.region().exterior);
    assert(rational_within(b, q) && rational_on_path(q, a.region().exterior));
}

/// Two rectangles with an area meet exactly when their bounds overlap.
pub proof fn lemma_bounds_meet_bounds(a: Bounds, b: Bounds)
    requires
        a.proper(),
        b.proper(),
    ensures
        region_meets_region(a.region(), b.region()) == bounds_overlap(a, b),
{
    let (ra, rb) = (a.region(), b.region());
    lemma_bounds_meets_path(a, rb.exterior);
    lemma_bounds_meets_path(b, ra.exterior);
    if region_meets_path(ra, rb.exterior) {
        let q = choose|q: RationalPt|
            rational_within(a, q) && #[trigger] rational_on_path(q, rb.exterior);
        lemma_ring_on_border(b, q);
        lemma_scaled_spans(q.d, q.x, a.min.x, a.max.x, b.min.x, b.max.x);
        lemma_scaled_spans(q.d, q.y, a.min.y, a.max.y, b.min.y, b.max.y);
    }
    if region_meets_path(rb, ra.exterior) {
        let q = choose|q: RationalPt|
            rational_within(b, q) && #[trigger] rational_on_path(q, ra.exterior);
        lemma_ring_on_border(a, q);
        lemma_scaled_spans(q.d, q.x, a.min.x, a.max.x, b.min.x, b.max.x);
        lemma_scaled_spans(q.d, q.y, a.min.y, a.max.y, b.min.y, b.max.y);
    }
    if bounds_overlap(a, b) {
        // The lower left corner of what the two have in common lies on the
        // border of one of them.
        let x = if a.min.x >= b.min.x { a.min.x } else { b.min.x };
        let y = if a.min.y >= b.min.y { a.min.y } else { b.min.y };
        let p = Pt { x, y };
        if x == a.min.x {
            lemma_border_point_meets(a, b, p);
        } else {
            lemma_border_point_meets(b, a, p);
        }
    }
}

/// Two intervals that hold the same number, each multiplied by a positive
/// number, overlap.
proof fn lemma_scaled_spans(d: int, v: int, a1: int, a2: int, b1: int, b2: int)
    requires
        d > 0,
        d * a1 <= v <= d * a2,
        d * b1 <= v <= d * b2,
    ensures
        spans_overlap(a1, a2, b1, b2),
{
    lemma_scaled_order(d, a1, b2);
    lemma_scaled_order(d, b1, a2);
    lemma_scaled_order(d, a1, a2);
    lemma_scaled_order(d, b1, b2);
}

} // verus!
