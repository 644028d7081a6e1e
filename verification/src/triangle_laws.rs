//! The position of a point relative to a triangle.
//!
//! Whether a point lies inside a ring is decided by counting how often a ray
//! crosses the ring. For the simplest ring, a triangle, "inside" has a plain
//! meaning of its own: the point lies strictly on the same side of all three
//! edges. This module proves that the two agree.

use vstd::prelude::*;
use crate::arith::{
    lemma_distribute,
    lemma_product_sign,
    lemma_proportional_span,
    lemma_regroup,
    lemma_swap,
    lemma_times_zero,
};
use crate::common_point::lemma_cross_reversed;
use crate::model::{Pt, Segment, cross, on_segment};
use crate::ring::{
    CoordPos,
    crossings,
    has_three_distinct,
    lemma_gap_is_cross,
    ray_crosses,
    ring_edge,
    ring_position,
};
use crate::ring_laws::{lemma_backward_position, lemma_reversed_edge};

verus! {

/// The ring of the triangle with the given corners.
pub open spec fn triangle(a: Pt, b: Pt, c: Pt) -> Seq<Pt> {
    seq![a, b, c]
}

/// The segment between two points.
pub open spec fn side(u: Pt, v: Pt) -> Segment {
    Segment { start: u, end: v }
}

/// The point lies on a side of the triangle.
pub open spec fn on_triangle(p: Pt, a: Pt, b: Pt, c: Pt) -> bool {
    on_segment(p, side(a, b)) || on_segment(p, side(b, c)) || on_segment(p, side(c, a))
}

/// The point lies strictly on the same side of all three sides of the
/// triangle.
pub open spec fn in_triangle(p: Pt, a: Pt, b: Pt, c: Pt) -> bool {
    (cross(a, b, p) > 0 && cross(b, c, p) > 0 && cross(c, a, p) > 0) || (cross(a, b, p) < 0
        && cross(b, c, p) < 0 && cross(c, a, p) < 0)
}

/// Where the point lies relative to the triangle.
pub open spec fn triangle_position(p: Pt, a: Pt, b: Pt, c: Pt) -> CoordPos {
    if on_triangle(p, a, b, c) {
        CoordPos::OnBoundary
    } else if in_triangle(p, a, b, c) {
        CoordPos::Inside
    } else {
        CoordPos::Outside
    }
}

/// The signed area of `u`, `v`, `p`, in the steps from `p` to `u` and to `v`.
proof fn lemma_cross_about(u: Pt, v: Pt, p: Pt)
    ensures
        cross(u, v, p) == (u.x - p.x) * (v.y - p.y) - (u.y - p.y) * (v.x - p.x),
{
    let (ux, uy, vx, vy) = (u.x - p.x, u.y - p.y, v.x - p.x, v.y - p.y);
    assert(v.x - u.x == vx - ux && v.y - u.y == vy - uy);
    assert(p.y - u.y == 0 - uy && p.x - u.x == 0 - ux);
    assert(cross(u, v, p) == (vx - ux) * (0 - uy) - (vy - uy) * (0 - ux));
    lemma_distribute(vx, ux, 0 - uy);
    lemma_distribute(vy, uy, 0 - ux);
    lemma_distribute(0, uy, vx);
    lemma_distribute(0, uy, ux);
    lemma_distribute(0, ux, vy);
    lemma_distribute(0, ux, uy);
    lemma_swap(vx, uy);
    lemma_swap(vy, ux);
    lemma_swap(ux, uy);
}

/// The area of a triangle is the sum of the areas of the three triangles
/// that any point makes with its sides.
pub proof fn lemma_area_sum(a: Pt, b: Pt, c: Pt, p: Pt)
    ensures
        cross(a, b, c) == cross(a, b, p) + cross(b, c, p) + cross(c, a, p),
{
    let (ax, ay) = (a.x - p.x, a.y - p.y);
    let (bx, by) = (b.x - p.x, b.y - p.y);
    let (cx, cy) = (c.x - p.x, c.y - p.y);
    lemma_cross_about(a, b, p);
    lemma_cross_about(b, c, p);
    lemma_cross_about(c, a, p);
    assert(b.x - a.x == bx - ax && c.y - a.y == cy - ay && b.y - a.y == by - ay && c.x - a.x == cx
        - ax);
    assert(cross(a, b, c) == (bx - ax) * (cy - ay) - (by - ay) * (cx - ax));
    lemma_distribute(bx, ax, cy - ay);
    lemma_distribute(cy, ay, bx);
    lemma_distribute(cy, ay, ax);
    lemma_distribute(by, ay, cx - ax);
    lemma_distribute(cx, ax, by);
    lemma_distribute(cx, ax, ay);
    lemma_swap(by, ax);
    lemma_swap(bx, ay);
    lemma_swap(ay, cx);
    lemma_swap(ax, cy);
    lemma_swap(ax, ay);
}

/// The signed area does not change when the three points are passed on by
/// one place.
pub proof fn lemma_cross_cyclic(a: Pt, b: Pt, c: Pt)
    ensures
        cross(b, c, a) == cross(a, b, c),
        cross(c, a, b) == cross(a, b, c),
{
    lemma_area_sum(a, b, c, a);
    lemma_area_sum(b, c, a, a);
    lemma_area_sum(c, a, b, a);
}

/// A point is the mean of the corners of a triangle, each weighted by the
/// area that the point makes with the opposite side: here for the heights
/// of the corners above the point.
proof fn lemma_weighted_heights(a: Pt, b: Pt, c: Pt, p: Pt)
    ensures
        cross(b, c, p) * (a.y - p.y) + cross(c, a, p) * (b.y - p.y) + cross(a, b, p) * (c.y - p.y)
            == 0,
{
    let (ax, ay) = (a.x - p.x, a.y - p.y);
    let (bx, by) = (b.x - p.x, b.y - p.y);
    let (cx, cy) = (c.x - p.x, c.y - p.y);
    lemma_cross_about(a, b, p);
    lemma_cross_about(b, c, p);
    lemma_cross_about(c, a, p);
    lemma_distribute(bx * cy, by * cx, ay);
    lemma_distribute(cx * ay, cy * ax, by);
    lemma_distribute(ax * by, ay * bx, cy);
    // Each product of three steps, in one order.
    lemma_regroup(ay, bx, cy);
    lemma_regroup(ay, by, cx);
    lemma_regroup(ay, cx, by);
    lemma_regroup(ax, by, cy);
    lemma_regroup(ax, cy, by);
    lemma_regroup(ay, cy, bx);
    assert((bx * cy) * ay == ay * (bx * cy));
    assert((by * cx) * ay == ay * (by * cx));
    assert((cx * ay) * by == ay * (by * cx));
    assert((cy * ax) * by == ax * (by * cy));
    assert((ax * by) * cy == ax * (by * cy));
    assert((ay * bx) * cy == ay * (bx * cy));
}

/// No corner of a triangle with an area coincides with another.
proof fn lemma_corners_distinct(a: Pt, b: Pt, c: Pt)
    requires
        cross(a, b, c) != 0,
    ensures
        a != b && b != c && a != c,
{
    lemma_cross_cyclic(a, b, c);
    if a == b {
        lemma_times_zero(c.y - a.y, b.x - a.x);
        lemma_times_zero(c.x - a.x, b.y - a.y);
    }
    if a == c {
        lemma_times_zero(b.x - a.x, c.y - a.y);
        lemma_times_zero(b.y - a.y, c.x - a.x);
    }
    if b == c {
        lemma_times_zero(a.y - b.y, c.x - b.x);
        lemma_times_zero(a.x - b.x, c.y - b.y);
    }
}

/// A point level with two corners of a triangle that makes positive areas
/// with the two sides through the third corner, which lies above it, lies
/// between the two corners.
proof fn lemma_between_on_the_base(p: Pt, u: Pt, v: Pt, w: Pt)
    requires
        u.y > p.y,
        v.y == p.y,
        w.y == p.y,
        cross(u, v, p) > 0,
        cross(w, u, p) > 0,
    ensures
        v.x < p.x < w.x,
{
    lemma_cross_about(u, v, p);
    lemma_cross_about(w, u, p);
    lemma_times_zero(u.x - p.x, v.y - p.y);
    lemma_times_zero(u.x - p.x, w.y - p.y);
    lemma_product_sign(u.y - p.y, v.x - p.x);
    lemma_product_sign(w.x - p.x, u.y - p.y);
}

/// The ray from `p` crosses a side that rises past it exactly when `p` lies
/// to the left of the side, and one that falls past it exactly when `p` lies
/// to its right. It crosses no side whose ends are both above it, or both
/// not.
proof fn lemma_side_crossed(p: Pt, u: Pt, v: Pt)
    ensures
        (u.y <= p.y < v.y) ==> ray_crosses(p, side(u, v)) == (cross(u, v, p) > 0),
        (v.y <= p.y < u.y) ==> ray_crosses(p, side(u, v)) == (cross(u, v, p) < 0),
        ((u.y > p.y) == (v.y > p.y)) ==> !ray_crosses(p, side(u, v)),
{
    lemma_gap_is_cross(p, side(u, v));
}

/// A point on the line through a side that the level of the point passes
/// through lies on the side.
proof fn lemma_level_with_side(p: Pt, u: Pt, v: Pt)
    requires
        cross(u, v, p) == 0,
        (u.y <= p.y < v.y) || (v.y <= p.y < u.y),
    ensures
        on_segment(p, side(u, v)),
{
    lemma_proportional_span(v.y - u.y, p.x - u.x, p.y - u.y, v.x - u.x);
}

/// Where the first corner of a triangle that turns counter-clockwise lies
/// above a point and the other two do not, the ray from the point crosses
/// exactly one side exactly when the point lies in the triangle.
proof fn lemma_apex_above(p: Pt, u: Pt, v: Pt, w: Pt)
    requires
        cross(u, v, w) > 0,
        u.y > p.y,
        v.y <= p.y,
        w.y <= p.y,
        !on_triangle(p, u, v, w),
    ensures
        !ray_crosses(p, side(v, w)),
        (ray_crosses(p, side(u, v)) != ray_crosses(p, side(w, u))) == in_triangle(p, u, v, w),
{
    let w1 = cross(u, v, p);
    let w2 = cross(v, w, p);
    let w3 = cross(w, u, p);
    lemma_side_crossed(p, u, v);
    lemma_side_crossed(p, v, w);
    lemma_side_crossed(p, w, u);
    lemma_area_sum(u, v, w, p);
    lemma_weighted_heights(u, v, w, p);
    lemma_product_sign(w2, u.y - p.y);
    lemma_product_sign(w3, v.y - p.y);
    lemma_product_sign(w1, w.y - p.y);
    if w1 == 0 {
        lemma_level_with_side(p, u, v);
    }
    if w3 == 0 {
        lemma_level_with_side(p, w, u);
    }
    if w1 > 0 && w3 > 0 && w2 <= 0 {
        // Then the point is level with the other two corners, and between
        // them.
        assert(v.y == p.y && w.y == p.y && w2 == 0);
        lemma_between_on_the_base(p, u, v, w);
        assert(on_segment(p, side(v, w)));
    }
}

/// Where the first corner of a triangle that turns counter-clockwise does
/// not lie above a point and the other two do, the ray from the point
/// crosses exactly one side exactly when the point lies in the triangle.
proof fn lemma_apex_below(p: Pt, u: Pt, v: Pt, w: Pt)
    requires
        cross(u, v, w) > 0,
        u.y <= p.y,
        v.y > p.y,
        w.y > p.y,
        !on_triangle(p, u, v, w),
    ensures
        !ray_crosses(p, side(v, w)),
        (ray_crosses(p, side(u, v)) != ray_crosses(p, side(w, u))) == in_triangle(p, u, v, w),
{
    let w1 = cross(u, v, p);
    let w2 = cross(v, w, p);
    let w3 = cross(w, u, p);
    lemma_side_crossed(p, u, v);
    lemma_side_crossed(p, v, w);
    lemma_side_crossed(p, w, u);
    lemma_area_sum(u, v, w, p);
    lemma_weighted_heights(u, v, w, p);
    lemma_product_sign(w2, u.y - p.y);
    lemma_product_sign(w3, v.y - p.y);
    lemma_product_sign(w1, w.y - p.y);
    if w1 == 0 {
        lemma_level_with_side(p, u, v);
    }
    if w3 == 0 {
        lemma_level_with_side(p, w, u);
    }
}

/// Where the corners of a triangle with an area all lie above a point, or
/// none does, the point does not lie in the triangle.
proof fn lemma_beside_the_triangle(p: Pt, a: Pt, b: Pt, c: Pt)
    requires
        cross(a, b, c) > 0,
        (a.y > p.y) == (b.y > p.y),
        (b.y > p.y) == (c.y > p.y),
    ensures
        !in_triangle(p, a, b, c),
{
    lemma_area_sum(a, b, c, p);
    lemma_weighted_heights(a, b, c, p);
    lemma_product_sign(cross(b, c, p), a.y - p.y);
    lemma_product_sign(cross(c, a, p), b.y - p.y);
    lemma_product_sign(cross(a, b, p), c.y - p.y);
    if in_triangle(p, a, b, c) {
        assert(a.y == p.y && b.y == p.y && c.y == p.y);
        lemma_times_zero(b.x - a.x, c.y - a.y);
        lemma_times_zero(c.x - a.x, b.y - a.y);
    }
}

/// Relative to a triangle that turns counter-clockwise, a point lies where
/// the ray from it tells.
proof fn lemma_triangle_turning_left(p: Pt, a: Pt, b: Pt, c: Pt)
    requires
        cross(a, b, c) > 0,
    ensures
        ring_position(p, triangle(a, b, c)) == triangle_position(p, a, b, c),
{
    let ring = triangle(a, b, c);
    lemma_corners_distinct(a, b, c);
    assert(ring.len() == 3 && ring[0] == a && ring[1] == b && ring[2] == c);
    assert(0 <= 0 < ring.len() && 0 <= 1 < ring.len() && 0 <= 2 < ring.len() && ring[0] != ring[1]
        && ring[1] != ring[2] && ring[0] != ring[2]);
    assert(has_three_distinct(ring));
    assert(ring_edge(ring, 0) == side(a, b));
    assert(ring_edge(ring, 1) == side(b, c));
    assert(ring_edge(ring, 2) == side(c, a));
    if on_triangle(p, a, b, c) {
        if on_segment(p, side(a, b)) {
            assert(0 <= 0 < ring.len() && on_segment(p, ring_edge(ring, 0)));
        } else if on_segment(p, side(b, c)) {
            assert(0 <= 1 < ring.len() && on_segment(p, ring_edge(ring, 1)));
        } else {
            assert(0 <= 2 < ring.len() && on_segment(p, ring_edge(ring, 2)));
        }
    } else {
        assert forall|k: int| 0 <= k < ring.len() implies !on_segment(
            p,
            #[trigger] ring_edge(ring, k),
        ) by {
            assert(k == 0 || k == 1 || k == 2);
        }
        assert(crossings(p, ring, 0) == 0);
        assert(crossings(p, ring, 1) == crossings(p, ring, 0) + if ray_crosses(p, side(a, b)) {
            1nat
        } else {
            0nat
        });
        assert(crossings(p, ring, 2) == crossings(p, ring, 1) + if ray_crosses(p, side(b, c)) {
            1nat
        } else {
            0nat
        });
        assert(crossings(p, ring, 3) == crossings(p, ring, 2) + if ray_crosses(p, side(c, a)) {
            1nat
        } else {
            0nat
        });
        lemma_cross_cyclic(a, b, c);
        let (above_a, above_b, above_c) = (a.y > p.y, b.y > p.y, c.y > p.y);
        if above_a == above_b && above_b == above_c {
            lemma_beside_the_triangle(p, a, b, c);
            lemma_side_crossed(p, a, b);
            lemma_side_crossed(p, b, c);
            lemma_side_crossed(p, c, a);
        } else if above_b == above_c {
            if above_a {
                lemma_apex_above(p, a, b, c);
            } else {
                lemma_apex_below(p, a, b, c);
            }
        } else if above_c == above_a {
            if above_b {
                lemma_apex_above(p, b, c, a);
            } else {
                lemma_apex_below(p, b, c, a);
            }
        } else {
            if above_c {
                lemma_apex_above(p, c, a, b);
            } else {
                lemma_apex_below(p, c, a, b);
            }
        }
    }
}

/// Relative to the ring of a triangle with an area, a point lies on the
/// boundary where it lies on a side, inside where it lies strictly on the
/// same side of all three sides, and outside elsewhere.
pub proof fn lemma_triangle_position(p: Pt, a: Pt, b: Pt, c: Pt)
    requires
        cross(a, b, c) != 0,
    ensures
        ring_position(p, triangle(a, b, c)) == triangle_position(p, a, b, c),
{
    if cross(a, b, c) > 0 {
        lemma_triangle_turning_left(p, a, b, c);
    } else {
        lemma_cross_reversed(a, b, c);
        lemma_cross_cyclic(b, a, c);
        assert(cross(c, b, a) > 0);
        lemma_triangle_turning_left(p, c, b, a);
        lemma_backward_position(p, triangle(a, b, c));
        assert(triangle(a, b, c).reverse() =~= triangle(c, b, a));
        lemma_cross_reversed(a, b, p);
        lemma_cross_reversed(b, c, p);
        lemma_cross_reversed(c, a, p);
        lemma_reversed_edge(p, side(a, b));
        lemma_reversed_edge(p, side(b, c));
        lemma_reversed_edge(p, side(c, a));
    }
}

} // verus!
