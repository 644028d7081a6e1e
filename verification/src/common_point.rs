//! What it means that two segments meet: they have a point in common.
//!
//! The common point of two segments with integer ends need not have integer
//! coordinates, but it always has rational ones. This module states what it
//! means for a rational point to lie on a segment, and proves that
//! [`segments_meet`] holds exactly when some rational point lies on both.
//! The same then holds of polylines, which meet where their edges do.

use vstd::prelude::*;
use crate::arith::{
    lemma_distribute,
    lemma_mix_has_no_side,
    lemma_parameter_span,
    lemma_proportional_span,
    lemma_regroup,
    lemma_scaled_offset,
    lemma_scaled_spans_overlap,
    lemma_swap,
    lemma_times_zero,
    lemma_zero_factor,
};
use crate::model::{
    Pt,
    Segment,
    apart,
    boxes_overlap,
    cross,
    in_span,
    is_path_edge,
    on_segment,
    path_edge,
    path_meets_point,
    path_meets_segment,
    paths_meet,
    segments_meet,
};

verus! {

/// The point `(x / d, y / d)` of the rational plane, for a positive `d`.
pub struct RationalPt {
    pub x: int,
    pub y: int,
    pub d: int,
}

/// The rational point lies on the segment: on the line through its ends and
/// between them. These are the conditions of [`on_segment`], multiplied by
/// the denominator.
pub open spec fn rational_on_segment(q: RationalPt, s: Segment) -> bool {
    &&& q.d > 0
    &&& (s.end.x - s.start.x) * (q.y - q.d * s.start.y) - (s.end.y - s.start.y) * (q.x - q.d
        * s.start.x) == 0
    &&& in_span(q.x, q.d * s.start.x, q.d * s.end.x)
    &&& in_span(q.y, q.d * s.start.y, q.d * s.end.y)
}

/// Some point of the rational plane lies on both segments.
pub open spec fn share_a_point(s: Segment, t: Segment) -> bool {
    exists|q: RationalPt| rational_on_segment(q, s) && #[trigger] rational_on_segment(q, t)
}

/// The rational point lies on an edge of the polyline.
pub open spec fn rational_on_path(q: RationalPt, path: Seq<Pt>) -> bool {
    exists|i: int| is_path_edge(path, i) && rational_on_segment(q, #[trigger] path_edge(path, i))
}

/// The point with integer coordinates, as a rational point.
pub open spec fn whole(p: Pt) -> RationalPt {
    RationalPt { x: p.x, y: p.y, d: 1 }
}

/// The segment with its ends exchanged.
pub open spec fn reversed(s: Segment) -> Segment {
    Segment { start: s.end, end: s.start }
}

/// A point with integer coordinates lies on a segment as a rational point
/// exactly when it lies on it as an integer point.
pub proof fn lemma_whole_on_segment(p: Pt, s: Segment)
    ensures
        rational_on_segment(whole(p), s) == on_segment(p, s),
{
    assert(p.y - 1 * s.start.y == p.y - s.start.y);
    assert(p.x - 1 * s.start.x == p.x - s.start.x);
}

/// The line function of a segment, at a rational point given by its step
/// `(x2, y2)` from a second point, is the multiple of its value at the second
/// point and what the step adds. The segment has the direction `(wx, wy)`;
/// `(gx, gy)` is the step from its start to the second point.
proof fn lemma_line_from(
    wx: int,
    wy: int,
    gx: int,
    gy: int,
    d: int,
    x1: int,
    y1: int,
    x2: int,
    y2: int,
)
    requires
        x1 == x2 + d * gx,
        y1 == y2 + d * gy,
    ensures
        wx * y1 - wy * x1 == d * (wx * gy - wy * gx) + (wx * y2 - wy * x2),
{
    lemma_distribute(y2, d * gy, wx);
    lemma_distribute(x2, d * gx, wy);
    lemma_regroup(d, wx, gy);
    lemma_regroup(d, wy, gx);
    lemma_distribute(wx * gy, wy * gx, d);
}

/// With `u * n == v * m`, the value `f` of a line function at a point,
/// multiplied by `u`, is a mix of its values `c1` and `c2` at two other
/// points.
proof fn lemma_weighted_side(
    wx: int,
    wy: int,
    u: int,
    v: int,
    m: int,
    n: int,
    d: int,
    c1: int,
    c2: int,
    f: int,
)
    requires
        u * n == v * m,
        f == d * c1 + (wx * n - wy * m),
        c2 == c1 + (wx * v - wy * u),
    ensures
        u * f == (u * d - m) * c1 + m * c2,
{
    lemma_distribute(d * c1, wx * n - wy * m, u);
    lemma_distribute(wx * n, wy * m, u);
    lemma_regroup(wx, u, n);
    assert(wx * (u * n) == wx * (v * m));
    lemma_regroup(m, wx, v);
    lemma_regroup(m, wy, u);
    assert(u * f == u * (d * c1) + m * (wx * v) - m * (wy * u));
    lemma_distribute(u * d, m, c1);
    lemma_regroup(u, d, c1);
    lemma_distribute(c1, wx * v - wy * u, m);
    lemma_distribute(wx * v, wy * u, m);
}

/// The signed areas of the ends of two segments against each other. With `w`
/// and `u` the steps along `s` and along `t`, and `g` the step from the start
/// of `s` to the start of `t`, all four are sums of products of two of the
/// six coordinates of these steps.
proof fn lemma_areas_of(s: Segment, t: Segment)
    ensures
        ({
            let wx = s.end.x - s.start.x;
            let wy = s.end.y - s.start.y;
            let ux = t.end.x - t.start.x;
            let uy = t.end.y - t.start.y;
            let gx = t.start.x - s.start.x;
            let gy = t.start.y - s.start.y;
            &&& cross(s.start, s.end, t.start) == wx * gy - wy * gx
            &&& cross(s.start, s.end, t.end) == (wx * gy - wy * gx) + (wx * uy - wy * ux)
            &&& cross(t.start, t.end, s.start) == uy * gx - ux * gy
            &&& cross(t.start, t.end, s.end) == (uy * gx - ux * gy) + (wy * ux - wx * uy)
        }),
{
    let wx = s.end.x - s.start.x;
    let wy = s.end.y - s.start.y;
    let ux = t.end.x - t.start.x;
    let uy = t.end.y - t.start.y;
    let gx = t.start.x - s.start.x;
    let gy = t.start.y - s.start.y;
    assert(t.end.y - s.start.y == gy + uy && t.end.x - s.start.x == gx + ux);
    assert(cross(s.start, s.end, t.end) == wx * (gy + uy) - wy * (gx + ux));
    lemma_distribute(gy, uy, wx);
    lemma_distribute(gx, ux, wy);
    assert(s.start.y - t.start.y == 0 - gy && s.start.x - t.start.x == 0 - gx);
    assert(cross(t.start, t.end, s.start) == ux * (0 - gy) - uy * (0 - gx));
    lemma_distribute(0, gy, ux);
    lemma_distribute(0, gx, uy);
    assert(s.end.y - t.start.y == wy - gy && s.end.x - t.start.x == wx - gx);
    assert(cross(t.start, t.end, s.end) == ux * (wy - gy) - uy * (wx - gx));
    lemma_distribute(wy, gy, ux);
    lemma_distribute(wx, gx, uy);
    lemma_swap(ux, wy);
    lemma_swap(uy, wx);
}

/// How the areas of [`lemma_areas_of`] are tied to each other by the steps.
proof fn lemma_area_products(wx: int, wy: int, ux: int, uy: int, gx: int, gy: int)
    ensures
        wx * (uy * gx - ux * gy) == gx * (wx * uy - wy * ux) - ux * (wx * gy - wy * gx),
        wy * (uy * gx - ux * gy) == gy * (wx * uy - wy * ux) - uy * (wx * gy - wy * gx),
{
    lemma_distribute(uy * gx, ux * gy, wx);
    lemma_distribute(wx * uy, wy * ux, gx);
    lemma_distribute(wx * gy, wy * gx, ux);
    lemma_regroup(wx, uy, gx);
    lemma_regroup(ux, wy, gx);
    lemma_regroup(wx, ux, gy);
    lemma_distribute(uy * gx, ux * gy, wy);
    lemma_distribute(wx * uy, wy * ux, gy);
    lemma_distribute(wx * gy, wy * gx, uy);
    lemma_regroup(uy, wx, gy);
    lemma_regroup(wy, ux, gy);
    lemma_regroup(wy, uy, gx);
}

/// A segment that shares a point with `t` does not have both ends of `t`
/// strictly on one side of its line.
proof fn lemma_common_point_not_apart(q: RationalPt, s: Segment, t: Segment)
    requires
        rational_on_segment(q, s),
        rational_on_segment(q, t),
    ensures
        !apart(s, t),
{
    let wx = s.end.x - s.start.x;
    let wy = s.end.y - s.start.y;
    let ux = t.end.x - t.start.x;
    let uy = t.end.y - t.start.y;
    let gx = t.start.x - s.start.x;
    let gy = t.start.y - s.start.y;
    let c1 = cross(s.start, s.end, t.start);
    let c2 = cross(s.start, s.end, t.end);
    let px = q.x - q.d * t.start.x;
    let py = q.y - q.d * t.start.y;
    let x1 = q.x - q.d * s.start.x;
    let y1 = q.y - q.d * s.start.y;
    let fs = wx * y1 - wy * x1;
    lemma_areas_of(s, t);
    lemma_distribute(t.start.x, s.start.x, q.d);
    lemma_distribute(t.start.y, s.start.y, q.d);
    lemma_line_from(wx, wy, gx, gy, q.d, x1, y1, px, py);
    assert(fs == q.d * c1 + (wx * py - wy * px));
    lemma_scaled_offset(q.d, q.x, t.start.x, t.end.x);
    lemma_scaled_offset(q.d, q.y, t.start.y, t.end.y);
    if ux != 0 {
        lemma_weighted_side(wx, wy, ux, uy, px, py, q.d, c1, c2, fs);
        lemma_times_zero(ux, fs);
        lemma_swap(ux, q.d);
        lemma_mix_has_no_side(ux, q.d, px, c1, c2);
    } else if uy != 0 {
        // The same with the two axes exchanged.
        lemma_distribute(0, wy, px);
        lemma_distribute(0, wx, py);
        lemma_distribute(0, wy, ux);
        lemma_distribute(0, wx, uy);
        lemma_swap(wx, py);
        lemma_swap(wy, px);
        lemma_swap(wx, uy);
        lemma_swap(wy, ux);
        lemma_swap(ux, py);
        lemma_swap(uy, px);
        assert(fs == q.d * c1 + ((0 - wy) * px - (0 - wx) * py));
        assert(c2 == c1 + ((0 - wy) * ux - (0 - wx) * uy));
        lemma_weighted_side(0 - wy, 0 - wx, uy, ux, py, px, q.d, c1, c2, fs);
        lemma_times_zero(uy, fs);
        lemma_swap(uy, q.d);
        lemma_mix_has_no_side(uy, q.d, py, c1, c2);
    } else {
        lemma_times_zero(q.d, ux);
        lemma_times_zero(q.d, uy);
        assert(px == 0 && py == 0);
        lemma_times_zero(wx, py);
        lemma_times_zero(wy, px);
        lemma_swap(q.d, c1);
        lemma_zero_factor(c1, q.d);
        lemma_times_zero(wx, uy);
        lemma_times_zero(wy, ux);
    }
}

/// Two segments that share a point meet.
pub proof fn lemma_common_point_means_meet(q: RationalPt, s: Segment, t: Segment)
    requires
        rational_on_segment(q, s),
        rational_on_segment(q, t),
    ensures
        segments_meet(s, t),
{
    lemma_common_point_not_apart(q, s, t);
    lemma_common_point_not_apart(q, t, s);
    lemma_scaled_spans_overlap(q.d, q.x, s.start.x, s.end.x, t.start.x, t.end.x);
    lemma_scaled_spans_overlap(q.d, q.y, s.start.y, s.end.y, t.start.y, t.end.y);
}

/// The line function of a segment changes its sign when the ends of the
/// segment are exchanged.
proof fn lemma_reversed_line(wx: int, wy: int, p: int, r: int, d: int)
    ensures
        (0 - wx) * (p - d * wy) - (0 - wy) * (r - d * wx) == -(wx * p - wy * r),
{
    lemma_distribute(0, wx, p - d * wy);
    lemma_distribute(0, wy, r - d * wx);
    lemma_distribute(p, d * wy, wx);
    lemma_distribute(r, d * wx, wy);
    lemma_regroup(wx, d, wy);
}

/// A rational point lies on a segment exactly when it lies on the segment
/// with its ends exchanged.
pub proof fn lemma_reversed_on(q: RationalPt, s: Segment)
    ensures
        rational_on_segment(q, reversed(s)) == rational_on_segment(q, s),
{
    let wx = s.end.x - s.start.x;
    let wy = s.end.y - s.start.y;
    let p = q.y - q.d * s.start.y;
    let r = q.x - q.d * s.start.x;
    lemma_reversed_line(wx, wy, p, r, q.d);
    lemma_distribute(s.end.y, s.start.y, q.d);
    lemma_distribute(s.end.x, s.start.x, q.d);
    assert(s.start.x - s.end.x == 0 - wx && s.start.y - s.end.y == 0 - wy);
    assert(q.y - q.d * s.end.y == p - q.d * wy);
    assert(q.x - q.d * s.end.x == r - q.d * wx);
}

/// The signed area changes its sign when the first two points are
/// exchanged.
pub proof fn lemma_cross_reversed(a: Pt, b: Pt, c: Pt)
    ensures
        cross(b, a, c) == -cross(a, b, c),
{
    let wx = b.x - a.x;
    let wy = b.y - a.y;
    let p = c.y - a.y;
    let r = c.x - a.x;
    lemma_reversed_line(wx, wy, p, r, 1);
    assert(a.x - b.x == 0 - wx && a.y - b.y == 0 - wy);
    assert(c.y - b.y == p - 1 * wy);
    assert(c.x - b.x == r - 1 * wx);
}

/// Whether two segments meet does not depend on the direction of either.
pub proof fn lemma_reversed_meets(s: Segment, t: Segment)
    ensures
        segments_meet(s, reversed(t)) == segments_meet(s, t),
        segments_meet(reversed(s), t) == segments_meet(s, t),
{
    lemma_cross_reversed(t.start, t.end, s.start);
    lemma_cross_reversed(t.start, t.end, s.end);
    lemma_cross_reversed(s.start, s.end, t.start);
    lemma_cross_reversed(s.start, s.end, t.end);
}

/// Whether two segments share a point does not depend on which is named
/// first, nor on the direction of either.
pub proof fn lemma_share_a_point_symmetric(s: Segment, t: Segment)
    ensures
        share_a_point(s, t) == share_a_point(t, s),
        share_a_point(s, reversed(t)) == share_a_point(s, t),
        share_a_point(reversed(s), t) == share_a_point(s, t),
{
    if share_a_point(s, t) {
        let q = choose|q: RationalPt| rational_on_segment(q, s) && rational_on_segment(q, t);
        lemma_reversed_on(q, s);
        lemma_reversed_on(q, t);
        assert(rational_on_segment(q, t) && rational_on_segment(q, s));
        assert(rational_on_segment(q, s) && rational_on_segment(q, reversed(t)));
        assert(rational_on_segment(q, reversed(s)) && rational_on_segment(q, t));
    }
    if share_a_point(t, s) {
        let q = choose|q: RationalPt| rational_on_segment(q, t) && rational_on_segment(q, s);
        assert(rational_on_segment(q, s) && rational_on_segment(q, t));
    }
    if share_a_point(s, reversed(t)) {
        let q = choose|q: RationalPt|
            rational_on_segment(q, s) && rational_on_segment(q, reversed(t));
        lemma_reversed_on(q, t);
        assert(rational_on_segment(q, s) && rational_on_segment(q, t));
    }
    if share_a_point(reversed(s), t) {
        let q = choose|q: RationalPt|
            rational_on_segment(q, reversed(s)) && rational_on_segment(q, t);
        lemma_reversed_on(q, s);
        assert(rational_on_segment(q, s) && rational_on_segment(q, t));
    }
}

/// The point that divides a segment in the ratio `k` to `d - k` lies on it.
pub proof fn lemma_on_by_parameter(q: RationalPt, s: Segment, k: int)
    requires
        q.d > 0,
        0 <= k <= q.d,
        q.x == q.d * s.start.x + k * (s.end.x - s.start.x),
        q.y == q.d * s.start.y + k * (s.end.y - s.start.y),
    ensures
        rational_on_segment(q, s),
{
    let wx = s.end.x - s.start.x;
    let wy = s.end.y - s.start.y;
    lemma_parameter_span(q.d, s.start.x, wx, k, q.x);
    lemma_parameter_span(q.d, s.start.y, wy, k, q.y);
    assert(s.start.x + wx == s.end.x && s.start.y + wy == s.end.y);
    assert(q.y - q.d * s.start.y == k * wy);
    assert(q.x - q.d * s.start.x == k * wx);
    lemma_regroup(wx, k, wy);
}

/// Where the ends of `t` lie strictly on opposite sides of the line through
/// `s`, the first to its left, and the ends of `s` do not lie strictly on one
/// side of the line through `t`, the two lines cross in a point of both
/// segments.
proof fn lemma_crossing_point(s: Segment, t: Segment)
    requires
        cross(s.start, s.end, t.start) > 0,
        cross(s.start, s.end, t.end) < 0,
        !apart(t, s),
    ensures
        share_a_point(s, t),
{
    let wx = s.end.x - s.start.x;
    let wy = s.end.y - s.start.y;
    let ux = t.end.x - t.start.x;
    let uy = t.end.y - t.start.y;
    let gx = t.start.x - s.start.x;
    let gy = t.start.y - s.start.y;
    let c1 = cross(s.start, s.end, t.start);
    let c2 = cross(s.start, s.end, t.end);
    let e1 = cross(t.start, t.end, s.start);
    let e2 = cross(t.start, t.end, s.end);
    lemma_areas_of(s, t);
    let d = c1 - c2;
    let k = -e1;
    assert(d == wy * ux - wx * uy);
    assert(e2 == e1 + d);
    assert(0 <= k <= d);
    let q = RationalPt { x: d * t.start.x + c1 * ux, y: d * t.start.y + c1 * uy, d };
    lemma_on_by_parameter(q, t, c1);
    // The same point, counted from the start of `s`.
    lemma_area_products(wx, wy, ux, uy, gx, gy);
    assert(wx * e1 == gx * (0 - d) - ux * c1);
    assert(wy * e1 == gy * (0 - d) - uy * c1);
    lemma_distribute(0, d, gx);
    lemma_distribute(0, d, gy);
    lemma_distribute(0, e1, wx);
    lemma_distribute(0, e1, wy);
    lemma_swap(d, gx);
    lemma_swap(d, gy);
    lemma_swap(c1, ux);
    lemma_swap(c1, uy);
    lemma_swap(k, wx);
    lemma_swap(k, wy);
    assert(k * wx == d * gx + c1 * ux);
    assert(k * wy == d * gy + c1 * uy);
    lemma_distribute(s.start.x, gx, d);
    lemma_distribute(s.start.y, gy, d);
    assert(s.start.x + gx == t.start.x && s.start.y + gy == t.start.y);
    lemma_on_by_parameter(q, s, k);
    assert(rational_on_segment(q, s) && rational_on_segment(q, t));
}

/// An end of a segment lies on the segment.
pub proof fn lemma_ends_on_segment(s: Segment)
    ensures
        on_segment(s.start, s),
        on_segment(s.end, s),
{
    lemma_times_zero(s.end.x - s.start.x, s.start.y - s.start.y);
    lemma_times_zero(s.end.y - s.start.y, s.start.x - s.start.x);
    lemma_swap(s.end.x - s.start.x, s.end.y - s.start.y);
}

/// Where the start of `t` lies on `s`, the two segments share that point.
proof fn lemma_end_is_common(s: Segment, t: Segment)
    requires
        on_segment(t.start, s),
    ensures
        share_a_point(s, t),
{
    let q = whole(t.start);
    lemma_whole_on_segment(t.start, s);
    lemma_whole_on_segment(t.start, t);
    lemma_ends_on_segment(t);
    assert(rational_on_segment(q, s) && rational_on_segment(q, t));
}

/// A point on the line through the ends of a segment that is not vertical
/// lies on the segment where it lies between the ends in `x`.
proof fn lemma_on_segment_by_x(p: Pt, g: Segment)
    requires
        cross(g.start, g.end, p) == 0,
        g.start.x != g.end.x,
        in_span(p.x, g.start.x, g.end.x),
    ensures
        on_segment(p, g),
{
    lemma_proportional_span(
        g.end.x - g.start.x,
        p.y - g.start.y,
        p.x - g.start.x,
        g.end.y - g.start.y,
    );
}

/// A point on the line through the ends of a segment that is not horizontal
/// lies on the segment where it lies between the ends in `y`.
proof fn lemma_on_segment_by_y(p: Pt, g: Segment)
    requires
        cross(g.start, g.end, p) == 0,
        g.start.y != g.end.y,
        in_span(p.y, g.start.y, g.end.y),
    ensures
        on_segment(p, g),
{
    lemma_proportional_span(
        g.end.y - g.start.y,
        p.x - g.start.x,
        p.y - g.start.y,
        g.end.x - g.start.x,
    );
}

/// Where the start of `t` lies on the line through `s` and its end does not,
/// and an end of `s` lies on the line through `t`, the start of `t` is that
/// end of `s`.
proof fn lemma_touch_at_start(s: Segment, t: Segment)
    requires
        cross(s.start, s.end, t.start) == 0,
        cross(s.start, s.end, t.end) != 0,
        cross(t.start, t.end, s.start) == 0 || cross(t.start, t.end, s.end) == 0,
    ensures
        on_segment(t.start, s),
{
    let wx = s.end.x - s.start.x;
    let wy = s.end.y - s.start.y;
    let ux = t.end.x - t.start.x;
    let uy = t.end.y - t.start.y;
    let gx = t.start.x - s.start.x;
    let gy = t.start.y - s.start.y;
    let c1 = cross(s.start, s.end, t.start);
    let n = cross(s.start, s.end, t.end);
    let e1 = cross(t.start, t.end, s.start);
    let e2 = cross(t.start, t.end, s.end);
    lemma_areas_of(s, t);
    lemma_area_products(wx, wy, ux, uy, gx, gy);
    assert(n == wx * uy - wy * ux);
    lemma_times_zero(ux, c1);
    lemma_times_zero(uy, c1);
    assert(wx * e1 == gx * n);
    assert(wy * e1 == gy * n);
    if e1 == 0 {
        lemma_times_zero(wx, e1);
        lemma_times_zero(wy, e1);
        lemma_zero_factor(gx, n);
        lemma_zero_factor(gy, n);
        assert(t.start == s.start);
    } else {
        assert(e1 == n);
        lemma_distribute(wx, gx, n);
        lemma_distribute(wy, gy, n);
        lemma_zero_factor(wx - gx, n);
        lemma_zero_factor(wy - gy, n);
        assert(t.start == s.end);
    }
    lemma_ends_on_segment(s);
}

/// Of two segments on one line whose boxes overlap, neither of them
/// degenerate, an end of one lies on the other.
proof fn lemma_overlap_on_a_line(s: Segment, t: Segment)
    requires
        cross(s.start, s.end, t.start) == 0,
        cross(s.start, s.end, t.end) == 0,
        s.start != s.end,
        t.start != t.end,
        boxes_overlap(s, t),
    ensures
        on_segment(t.start, s) || on_segment(t.end, s) || on_segment(s.start, t) || on_segment(
            s.end,
            t,
        ),
{
    let wx = s.end.x - s.start.x;
    let wy = s.end.y - s.start.y;
    let ux = t.end.x - t.start.x;
    let uy = t.end.y - t.start.y;
    let gx = t.start.x - s.start.x;
    let gy = t.start.y - s.start.y;
    let e1 = cross(t.start, t.end, s.start);
    let e2 = cross(t.start, t.end, s.end);
    lemma_areas_of(s, t);
    lemma_area_products(wx, wy, ux, uy, gx, gy);
    let n = wx * uy - wy * ux;
    assert(n == 0);
    lemma_times_zero(gx, n);
    lemma_times_zero(gy, n);
    lemma_times_zero(ux, wx * gy - wy * gx);
    lemma_times_zero(uy, wx * gy - wy * gx);
    assert(wx * e1 == 0 && wy * e1 == 0);
    lemma_swap(wx, e1);
    lemma_swap(wy, e1);
    if wx != 0 {
        lemma_zero_factor(e1, wx);
    } else {
        lemma_zero_factor(e1, wy);
    }
    assert(e1 == 0 && e2 == 0);
    if wx != 0 {
        if ux == 0 {
            lemma_times_zero(wy, ux);
            lemma_swap(uy, wx);
            lemma_zero_factor(uy, wx);
        }
        assert(ux != 0);
        if in_span(t.start.x, s.start.x, s.end.x) {
            lemma_on_segment_by_x(t.start, s);
        } else if in_span(t.end.x, s.start.x, s.end.x) {
            lemma_on_segment_by_x(t.end, s);
        } else if in_span(s.start.x, t.start.x, t.end.x) {
            lemma_on_segment_by_x(s.start, t);
        } else {
            lemma_on_segment_by_x(s.end, t);
        }
    } else {
        if uy == 0 {
            lemma_times_zero(wx, uy);
            lemma_swap(ux, wy);
            lemma_zero_factor(ux, wy);
        }
        assert(uy != 0);
        if in_span(t.start.y, s.start.y, s.end.y) {
            lemma_on_segment_by_y(t.start, s);
        } else if in_span(t.end.y, s.start.y, s.end.y) {
            lemma_on_segment_by_y(t.end, s);
        } else if in_span(s.start.y, t.start.y, t.end.y) {
            lemma_on_segment_by_y(s.start, t);
        } else {
            lemma_on_segment_by_y(s.end, t);
        }
    }
}

/// Two segments that meet without crossing properly touch: an end of one lies
/// on the other.
proof fn lemma_touching_has_an_end(s: Segment, t: Segment)
    requires
        segments_meet(s, t),
        cross(s.start, s.end, t.start) == 0 || cross(s.start, s.end, t.end) == 0,
        cross(t.start, t.end, s.start) == 0 || cross(t.start, t.end, s.end) == 0,
    ensures
        on_segment(t.start, s) || on_segment(t.end, s) || on_segment(s.start, t) || on_segment(
            s.end,
            t,
        ),
{
    let c1 = cross(s.start, s.end, t.start);
    let c2 = cross(s.start, s.end, t.end);
    if c1 == 0 && c2 != 0 {
        lemma_touch_at_start(s, t);
    } else if c2 == 0 && c1 != 0 {
        lemma_cross_reversed(t.start, t.end, s.start);
        lemma_cross_reversed(t.start, t.end, s.end);
        lemma_touch_at_start(s, reversed(t));
    } else if s.start == s.end {
        assert(on_segment(s.start, t));
    } else if t.start == t.end {
        assert(on_segment(t.start, s));
    } else {
        lemma_overlap_on_a_line(s, t);
    }
}

/// Two segments that meet share a point.
pub proof fn lemma_meet_means_common_point(s: Segment, t: Segment)
    requires
        segments_meet(s, t),
    ensures
        share_a_point(s, t),
{
    let c1 = cross(s.start, s.end, t.start);
    let c2 = cross(s.start, s.end, t.end);
    let e1 = cross(t.start, t.end, s.start);
    let e2 = cross(t.start, t.end, s.end);
    lemma_reversed_meets(s, t);
    lemma_share_a_point_symmetric(s, t);
    lemma_share_a_point_symmetric(t, s);
    if c1 > 0 && c2 < 0 {
        lemma_crossing_point(s, t);
    } else if c1 < 0 && c2 > 0 {
        lemma_crossing_point(s, reversed(t));
    } else if e1 > 0 && e2 < 0 {
        lemma_crossing_point(t, s);
    } else if e1 < 0 && e2 > 0 {
        lemma_crossing_point(t, reversed(s));
    } else {
        lemma_touching_has_an_end(s, t);
        if on_segment(t.start, s) {
            lemma_end_is_common(s, t);
        } else if on_segment(t.end, s) {
            lemma_end_is_common(s, reversed(t));
        } else if on_segment(s.start, t) {
            lemma_end_is_common(t, s);
        } else {
            lemma_end_is_common(t, reversed(s));
        }
    }
}

/// Two segments meet exactly when they have a point in common.
pub proof fn lemma_meet_is_sharing_a_point(s: Segment, t: Segment)
    ensures
        segments_meet(s, t) <==> share_a_point(s, t),
{
    if segments_meet(s, t) {
        lemma_meet_means_common_point(s, t);
    }
    if share_a_point(s, t) {
        let q = choose|q: RationalPt| rational_on_segment(q, s) && rational_on_segment(q, t);
        lemma_common_point_means_meet(q, s, t);
    }
}

/// A point with integer coordinates lies on a polyline exactly when it lies
/// on it as a rational point.
pub proof fn lemma_whole_on_path(path: Seq<Pt>, p: Pt)
    ensures
        path_meets_point(path, p) <==> rational_on_path(whole(p), path),
{
    if path_meets_point(path, p) {
        let i = choose|i: int| is_path_edge(path, i) && on_segment(p, #[trigger] path_edge(path, i));
        lemma_whole_on_segment(p, path_edge(path, i));
        assert(is_path_edge(path, i) && rational_on_segment(whole(p), path_edge(path, i)));
    }
    if rational_on_path(whole(p), path) {
        let i = choose|i: int|
            is_path_edge(path, i) && rational_on_segment(whole(p), #[trigger] path_edge(path, i));
        lemma_whole_on_segment(p, path_edge(path, i));
        assert(is_path_edge(path, i) && on_segment(p, path_edge(path, i)));
    }
}

/// A polyline meets a segment exactly when the two have a point in common.
pub proof fn lemma_path_meets_segment_is_sharing(path: Seq<Pt>, s: Segment)
    ensures
        path_meets_segment(path, s) <==> exists|q: RationalPt|
            rational_on_path(q, path) && #[trigger] rational_on_segment(q, s),
{
    if path_meets_segment(path, s) {
        let i = choose|i: int| is_path_edge(path, i) && segments_meet(#[trigger] path_edge(path, i), s);
        lemma_meet_means_common_point(path_edge(path, i), s);
        let q = choose|q: RationalPt|
            rational_on_segment(q, path_edge(path, i)) && rational_on_segment(q, s);
        assert(is_path_edge(path, i) && rational_on_segment(q, path_edge(path, i)));
        assert(rational_on_path(q, path) && rational_on_segment(q, s));
    }
    if exists|q: RationalPt| rational_on_path(q, path) && #[trigger] rational_on_segment(q, s) {
        let q = choose|q: RationalPt|
            rational_on_path(q, path) && #[trigger] rational_on_segment(q, s);
        let i = choose|i: int|
            is_path_edge(path, i) && rational_on_segment(q, #[trigger] path_edge(path, i));
        lemma_common_point_means_meet(q, path_edge(path, i), s);
        assert(is_path_edge(path, i) && segments_meet(path_edge(path, i), s));
    }
}

/// Two polylines meet exactly when they have a point in common.
pub proof fn lemma_paths_meet_is_sharing(p: Seq<Pt>, q: Seq<Pt>)
    ensures
        paths_meet(p, q) <==> exists|x: RationalPt|
            rational_on_path(x, p) && #[trigger] rational_on_path(x, q),
{
    if paths_meet(p, q) {
        let (i, j) = choose|i: int, j: int|
            is_path_edge(p, i) && is_path_edge(q, j) && segments_meet(
                #[trigger] path_edge(p, i),
                #[trigger] path_edge(q, j),
            );
        lemma_meet_means_common_point(path_edge(p, i), path_edge(q, j));
        let x = choose|x: RationalPt|
            rational_on_segment(x, path_edge(p, i)) && rational_on_segment(x, path_edge(q, j));
        assert(is_path_edge(p, i) && rational_on_segment(x, path_edge(p, i)));
        assert(is_path_edge(q, j) && rational_on_segment(x, path_edge(q, j)));
        assert(rational_on_path(x, p) && rational_on_path(x, q));
    }
    if exists|x: RationalPt| rational_on_path(x, p) && #[trigger] rational_on_path(x, q) {
        let x = choose|x: RationalPt| rational_on_path(x, p) && #[trigger] rational_on_path(x, q);
        let i = choose|i: int|
            is_path_edge(p, i) && rational_on_segment(x, #[trigger] path_edge(p, i));
        let j = choose|j: int|
            is_path_edge(q, j) && rational_on_segment(x, #[trigger] path_edge(q, j));
        lemma_common_point_means_meet(x, path_edge(p, i), path_edge(q, j));
        assert(is_path_edge(p, i) && is_path_edge(q, j) && segments_meet(
            path_edge(p, i),
            path_edge(q, j),
        ));
    }
}

} // verus!
