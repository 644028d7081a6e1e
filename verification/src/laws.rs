//! What holds of the predicates in general, proved over the model.
//!
//! The rings of a region are not checked for being well formed, and some of
//! the laws fail for regions that are not: each law names what it needs.

use vstd::prelude::*;
use crate::arith::lemma_times_zero;
use crate::common_point::lemma_ends_on_segment;
use crate::contains::region_contains;
use crate::line_string::{lemma_paths_meet_symmetric, lemma_segments_meet_symmetric};
use crate::model::{
    Bounds,
    Pt,
    Region,
    Segment,
    is_path_edge,
    on_segment,
    path_edge,
    path_meets_point,
    path_meets_segment,
    paths_meet,
    segments_meet,
};
use crate::polygon::{
    boundary_meets_path,
    boundary_meets_segment,
    has_vertex_inside,
    meets_a_hole_of,
    region_meets_path,
    region_meets_point,
    region_meets_region,
    region_meets_segment,
};
use crate::ring::{CoordPos, has_three_distinct, on_ring, ring_edge, ring_position};
use crate::intersects::Intersects;
use crate::kernel::Scalar;
use crate::shape::{Figure, Shape, figures_meet};

verus! {

/// The rings of a region by number: the exterior ring is ring 0, the holes
/// follow in their order.
pub open spec fn ring_of(r: Region, i: int) -> Seq<Pt> {
    if i == 0 {
        r.exterior
    } else {
        r.holes[i - 1]
    }
}

/// `i` numbers a ring of the region.
pub open spec fn is_ring_of(r: Region, i: int) -> bool {
    0 <= i <= r.holes.len()
}

/// A ring of `a` meets a ring of `b`, the rings read as polylines.
pub open spec fn rings_meet(a: Region, b: Region) -> bool {
    exists|i: int, j: int|
        is_ring_of(a, i) && is_ring_of(b, j) && paths_meet(
            #[trigger] ring_of(a, i),
            #[trigger] ring_of(b, j),
        )
}

/// A vertex of a hole of `b` lies strictly inside `a`.
pub open spec fn hole_vertex_inside(a: Region, b: Region) -> bool {
    exists|h: int| 0 <= h < b.holes.len() && has_vertex_inside(a, #[trigger] b.holes[h])
}

/// What brings two regions together whichever is asked: two of their rings
/// meet, or a vertex of the exterior ring of one lies strictly inside the
/// other.
pub open spec fn regions_touch(a: Region, b: Region) -> bool {
    rings_meet(a, b) || has_vertex_inside(a, b.exterior) || has_vertex_inside(b, a.exterior)
}

/// The two regions do not touch, and a vertex of a hole lies strictly inside
/// the other region for one of them but not for the other. A hole of a
/// well-formed region lies inside its exterior ring, so this is a sign of
/// a malformed region; it is not proved here that well-formed regions are
/// free of it.
pub open spec fn lopsided(a: Region, b: Region) -> bool {
    !regions_touch(a, b) && hole_vertex_inside(a, b) != hole_vertex_inside(b, a)
}

/// A ring of the region has an edge when read as a polyline: it has two
/// vertices or more.
pub open spec fn has_an_edge(r: Region) -> bool {
    exists|i: int| is_ring_of(r, i) && (#[trigger] ring_of(r, i)).len() >= 2
}

/// Every segment meets itself.
pub proof fn lemma_segment_meets_itself(s: Segment)
    ensures
        segments_meet(s, s),
{
    lemma_ends_on_segment(s);
}

/// A degenerate segment behaves as its single point: it meets a segment
/// exactly when the point lies on that segment, and a point lies on it
/// exactly when the two coincide.
pub proof fn lemma_degenerate_segment_is_point(p: Pt, t: Segment, q: Pt)
    ensures
        segments_meet(Segment { start: p, end: p }, t) == on_segment(p, t),
        segments_meet(t, Segment { start: p, end: p }) == on_segment(p, t),
        on_segment(q, Segment { start: p, end: p }) == (q == p),
{
    let s = Segment { start: p, end: p };
    lemma_times_zero(t.start.y - p.y, p.x - p.x);
    lemma_times_zero(t.start.x - p.x, p.y - p.y);
    lemma_times_zero(t.end.y - p.y, p.x - p.x);
    lemma_times_zero(t.end.x - p.x, p.y - p.y);
    lemma_times_zero(q.y - p.y, p.x - p.x);
    lemma_times_zero(q.x - p.x, p.y - p.y);
    lemma_segments_meet_symmetric(s, t);
}

/// A polyline meets a ring of the region exactly when it meets one of the
/// numbered rings.
pub proof fn lemma_boundary_by_ring(r: Region, path: Seq<Pt>)
    ensures
        boundary_meets_path(r, path) <==> exists|i: int|
            is_ring_of(r, i) && paths_meet(#[trigger] ring_of(r, i), path),
{
    if boundary_meets_path(r, path) {
        if paths_meet(r.exterior, path) {
            assert(is_ring_of(r, 0) && paths_meet(ring_of(r, 0), path));
        } else {
            let h = choose|h: int|
                0 <= h < r.holes.len() && paths_meet(#[trigger] r.holes[h], path);
            assert(is_ring_of(r, h + 1) && paths_meet(ring_of(r, h + 1), path));
        }
    }
    if exists|i: int| is_ring_of(r, i) && paths_meet(#[trigger] ring_of(r, i), path) {
        let i = choose|i: int| is_ring_of(r, i) && paths_meet(#[trigger] ring_of(r, i), path);
        if i != 0 {
            assert(0 <= i - 1 < r.holes.len() && paths_meet(r.holes[i - 1], path));
        }
    }
}

/// Whether two rings of two regions meet does not depend on which region is
/// named first.
pub proof fn lemma_rings_meet_symmetric(a: Region, b: Region)
    ensures
        rings_meet(a, b) == rings_meet(b, a),
{
    if rings_meet(a, b) {
        let (i, j) = choose|i: int, j: int|
            is_ring_of(a, i) && is_ring_of(b, j) && paths_meet(
                #[trigger] ring_of(a, i),
                #[trigger] ring_of(b, j),
            );
        lemma_paths_meet_symmetric(ring_of(a, i), ring_of(b, j));
        assert(is_ring_of(b, j) && is_ring_of(a, i) && paths_meet(ring_of(b, j), ring_of(a, i)));
    }
    if rings_meet(b, a) {
        let (j, i) = choose|j: int, i: int|
            is_ring_of(b, j) && is_ring_of(a, i) && paths_meet(
                #[trigger] ring_of(b, j),
                #[trigger] ring_of(a, i),
            );
        lemma_paths_meet_symmetric(ring_of(b, j), ring_of(a, i));
        assert(is_ring_of(a, i) && is_ring_of(b, j) && paths_meet(ring_of(a, i), ring_of(b, j)));
    }
}

/// Whether two regions touch does not depend on which is named first.
pub proof fn lemma_regions_touch_symmetric(a: Region, b: Region)
    ensures
        regions_touch(a, b) == regions_touch(b, a),
{
    lemma_rings_meet_symmetric(a, b);
}

/// Two regions meet exactly when they touch or a vertex of a hole of the
/// second lies strictly inside the first.
pub proof fn lemma_regions_meet_in_parts(a: Region, b: Region)
    ensures
        region_meets_region(a, b) <==> regions_touch(a, b) || hole_vertex_inside(a, b),
{
    if region_meets_path(a, b.exterior) {
        if boundary_meets_path(a, b.exterior) {
            lemma_boundary_by_ring(a, b.exterior);
            let i = choose|i: int|
                is_ring_of(a, i) && paths_meet(#[trigger] ring_of(a, i), b.exterior);
            assert(is_ring_of(a, i) && is_ring_of(b, 0) && paths_meet(ring_of(a, i), ring_of(b, 0)));
        }
        assert(regions_touch(a, b));
    }
    if meets_a_hole_of(a, b) {
        let h = choose|h: int|
            0 <= h < b.holes.len() && region_meets_path(a, #[trigger] b.holes[h]);
        if boundary_meets_path(a, b.holes[h]) {
            lemma_boundary_by_ring(a, b.holes[h]);
            let i = choose|i: int|
                is_ring_of(a, i) && paths_meet(#[trigger] ring_of(a, i), b.holes[h]);
            assert(is_ring_of(a, i) && is_ring_of(b, h + 1) && paths_meet(
                ring_of(a, i),
                ring_of(b, h + 1),
            ));
        } else {
            assert(0 <= h < b.holes.len() && has_vertex_inside(a, b.holes[h]));
        }
    }
    if region_meets_path(b, a.exterior) {
        if boundary_meets_path(b, a.exterior) {
            lemma_boundary_by_ring(b, a.exterior);
            let j = choose|j: int|
                is_ring_of(b, j) && paths_meet(#[trigger] ring_of(b, j), a.exterior);
            assert(is_ring_of(b, j) && is_ring_of(a, 0) && paths_meet(ring_of(b, j), ring_of(a, 0)));
            assert(rings_meet(b, a));
            lemma_rings_meet_symmetric(a, b);
        }
        assert(regions_touch(a, b));
    }
    if rings_meet(a, b) {
        let (i, j) = choose|i: int, j: int|
            is_ring_of(a, i) && is_ring_of(b, j) && paths_meet(
                #[trigger] ring_of(a, i),
                #[trigger] ring_of(b, j),
            );
        lemma_boundary_by_ring(a, ring_of(b, j));
        assert(is_ring_of(a, i) && paths_meet(ring_of(a, i), ring_of(b, j)));
        assert(boundary_meets_path(a, ring_of(b, j)));
        if j != 0 {
            assert(0 <= j - 1 < b.holes.len() && region_meets_path(a, b.holes[j - 1]));
        }
        assert(region_meets_region(a, b));
    }
    if hole_vertex_inside(a, b) {
        let h = choose|h: int|
            0 <= h < b.holes.len() && has_vertex_inside(a, #[trigger] b.holes[h]);
        assert(0 <= h < b.holes.len() && region_meets_path(a, b.holes[h]));
    }
}

/// Two regions give the same answer whichever of them is asked, unless they
/// are lopsided, and only then do they differ.
pub proof fn lemma_regions_meet_symmetric(a: Region, b: Region)
    ensures
        (region_meets_region(a, b) == region_meets_region(b, a)) <==> !lopsided(a, b),
{
    lemma_regions_meet_in_parts(a, b);
    lemma_regions_meet_in_parts(b, a);
    lemma_regions_touch_symmetric(a, b);
}

/// Regions without holes are never lopsided.
pub proof fn lemma_without_holes_not_lopsided(a: Region, b: Region)
    requires
        a.holes.len() == 0,
        b.holes.len() == 0,
    ensures
        !lopsided(a, b),
        region_meets_region(a, b) == region_meets_region(b, a),
{
    lemma_regions_meet_symmetric(a, b);
}

/// Two figures give the same answer whichever of them is asked. Where both
/// are regions, this needs that they are not lopsided.
pub proof fn lemma_figures_meet_symmetric(a: Figure, b: Figure)
    requires
        a matches Figure::Region(r) ==> (b matches Figure::Region(o) ==> !lopsided(r, o)),
    ensures
        figures_meet(a, b) == figures_meet(b, a),
{
    match (a, b) {
        (Figure::Segment(s), Figure::Segment(t)) => {
            lemma_segments_meet_symmetric(s, t);
        },
        (Figure::Path(l), Figure::Path(m)) => {
            lemma_paths_meet_symmetric(l, m);
        },
        (Figure::Region(r), Figure::Region(o)) => {
            lemma_regions_meet_symmetric(r, o);
        },
        (Figure::Bounds(r), Figure::Bounds(o)) => {
            lemma_without_holes_not_lopsided(r.region(), o.region());
        },
        _ => {},
    }
}

/// Two shapes give the same answer whichever of them is asked. Where both
/// are polygons, this needs that they are not lopsided.
pub proof fn lemma_shapes_meet_symmetric<T: Scalar>(a: &Shape<T>, b: &Shape<T>)
    requires
        a@ matches Figure::Region(r) ==> (b@ matches Figure::Region(o) ==> !lopsided(r, o)),
    ensures
        a.meets(b) == b.meets(a),
{
    lemma_figures_meet_symmetric(a@, b@);
}

/// Every point meets itself.
pub proof fn lemma_point_meets_itself(p: Pt)
    ensures
        figures_meet(Figure::Point(p), Figure::Point(p)),
{
}

/// A region meets itself exactly when one of its rings has an edge. A region
/// whose rings are all empty or single vertices meets nothing, itself
/// included.
pub proof fn lemma_region_meets_itself(r: Region)
    ensures
        region_meets_region(r, r) <==> has_an_edge(r),
{
    lemma_regions_meet_in_parts(r, r);
    if has_an_edge(r) {
        let i = choose|i: int| is_ring_of(r, i) && (#[trigger] ring_of(r, i)).len() >= 2;
        let ring = ring_of(r, i);
        lemma_segment_meets_itself(path_edge(ring, 0));
        assert(is_path_edge(ring, 0) && segments_meet(path_edge(ring, 0), path_edge(ring, 0)));
        assert(paths_meet(ring, ring));
        assert(is_ring_of(r, i) && paths_meet(ring_of(r, i), ring_of(r, i)));
    }
    if rings_meet(r, r) {
        let (i, j) = choose|i: int, j: int|
            is_ring_of(r, i) && is_ring_of(r, j) && paths_meet(
                #[trigger] ring_of(r, i),
                #[trigger] ring_of(r, j),
            );
        let (k, m) = choose|k: int, m: int|
            is_path_edge(ring_of(r, i), k) && is_path_edge(ring_of(r, j), m) && segments_meet(
                #[trigger] path_edge(ring_of(r, i), k),
                #[trigger] path_edge(ring_of(r, j), m),
            );
        assert(is_ring_of(r, i) && ring_of(r, i).len() >= 2);
    }
    if has_vertex_inside(r, r.exterior) || hole_vertex_inside(r, r) {
        lemma_container_has_an_edge(r);
    }
}

/// A ring with three distinct vertices has three vertices or more.
pub proof fn lemma_three_distinct_length(ring: Seq<Pt>)
    requires
        has_three_distinct(ring),
    ensures
        ring.len() >= 3,
{
    let (i, j, k) = choose|i: int, j: int, k: int|
        0 <= i < ring.len() && 0 <= j < ring.len() && 0 <= k < ring.len() && ring[i] != ring[j]
            && ring[j] != ring[k] && ring[i] != ring[k];
    assert(i != j && j != k && i != k);
}

/// A region that strictly contains a point has an exterior ring of three
/// vertices or more.
pub proof fn lemma_container_has_vertices(r: Region, p: Pt)
    requires
        region_contains(r, p),
    ensures
        r.exterior.len() >= 3,
{
    assert(ring_position(p, r.exterior) == CoordPos::Inside);
    assert(has_three_distinct(r.exterior));
    lemma_three_distinct_length(r.exterior);
}

/// A region with a vertex of one of its own rings strictly inside it has an
/// edge.
proof fn lemma_container_has_an_edge(r: Region)
    requires
        has_vertex_inside(r, r.exterior) || hole_vertex_inside(r, r),
    ensures
        has_an_edge(r),
{
    if has_vertex_inside(r, r.exterior) {
        let k = choose|k: int|
            0 <= k < r.exterior.len() && region_contains(r, #[trigger] r.exterior[k]);
        lemma_container_has_vertices(r, r.exterior[k]);
    } else {
        let h = choose|h: int|
            0 <= h < r.holes.len() && has_vertex_inside(r, #[trigger] r.holes[h]);
        let k = choose|k: int|
            0 <= k < r.holes[h].len() && region_contains(r, #[trigger] r.holes[h][k]);
        lemma_container_has_vertices(r, r.holes[h][k]);
    }
    assert(is_ring_of(r, 0) && ring_of(r, 0).len() >= 2);
}

/// The ring repeats its first vertex at the end, as the rings of a
/// well-formed region do.
pub open spec fn is_closed(ring: Seq<Pt>) -> bool {
    ring.len() >= 2 && ring[0] == ring[ring.len() - 1]
}

/// Every ring of the region is closed and has three distinct vertices.
pub open spec fn rings_well_formed(r: Region) -> bool {
    forall|i: int|
        is_ring_of(r, i) ==> is_closed(#[trigger] ring_of(r, i)) && has_three_distinct(
            ring_of(r, i),
        )
}

/// A point of a ring of the region belongs to the region: it is not outside
/// the exterior ring and not strictly inside a hole. This holds at every
/// point of a well-formed region, whose holes lie inside its exterior ring
/// and apart from each other.
pub open spec fn rings_belong_at(r: Region, p: Pt) -> bool {
    (exists|i: int|
        is_ring_of(r, i) && ring_position(p, #[trigger] ring_of(r, i)) == CoordPos::OnBoundary)
        ==> region_meets_point(r, p)
}

/// The segment that consists of the single point `p`.
pub open spec fn point_segment(p: Pt) -> Segment {
    Segment { start: p, end: p }
}

/// A closed ring has the same points whether it is read as a loop or as a
/// polyline: the edge from its last vertex back to its first adds nothing.
pub proof fn lemma_closed_ring_as_path(ring: Seq<Pt>, p: Pt)
    requires
        is_closed(ring),
    ensures
        on_ring(p, ring) == path_meets_point(ring, p),
        path_meets_point(ring, p) == path_meets_segment(ring, point_segment(p)),
{
    if on_ring(p, ring) {
        let i = choose|i: int| 0 <= i < ring.len() && on_segment(p, #[trigger] ring_edge(ring, i));
        if i + 1 < ring.len() {
            assert(ring_edge(ring, i) == path_edge(ring, i));
            assert(is_path_edge(ring, i) && on_segment(p, path_edge(ring, i)));
        } else {
            lemma_degenerate_segment_is_point(ring[0], path_edge(ring, 0), p);
            lemma_ends_on_segment(path_edge(ring, 0));
            assert(is_path_edge(ring, 0) && on_segment(p, path_edge(ring, 0)));
        }
    }
    if path_meets_point(ring, p) {
        let i = choose|i: int| is_path_edge(ring, i) && on_segment(p, #[trigger] path_edge(ring, i));
        assert(ring_edge(ring, i) == path_edge(ring, i));
        assert(0 <= i < ring.len() && on_segment(p, ring_edge(ring, i)));
        lemma_degenerate_segment_is_point(p, path_edge(ring, i), p);
        assert(is_path_edge(ring, i) && segments_meet(path_edge(ring, i), point_segment(p)));
    }
    if path_meets_segment(ring, point_segment(p)) {
        let i = choose|i: int|
            is_path_edge(ring, i) && segments_meet(#[trigger] path_edge(ring, i), point_segment(p));
        lemma_degenerate_segment_is_point(p, path_edge(ring, i), p);
        assert(is_path_edge(ring, i) && on_segment(p, path_edge(ring, i)));
    }
}

/// A degenerate segment behaves as its single point against a region whose
/// rings are well formed: where the point belongs to the region, the segment
/// meets it; and where the rings of the region belong to it at that point,
/// the segment meets the region only if the point belongs to it.
pub proof fn lemma_point_as_segment(r: Region, p: Pt)
    requires
        rings_well_formed(r),
    ensures
        region_meets_point(r, p) ==> region_meets_segment(r, point_segment(p)),
        rings_belong_at(r, p) ==> region_meets_segment(r, point_segment(p)) == region_meets_point(
            r,
            p,
        ),
{
    let s = point_segment(p);
    assert(is_ring_of(r, 0) && ring_of(r, 0) == r.exterior);
    lemma_closed_ring_as_path(r.exterior, p);
    assert forall|h: int| 0 <= h < r.holes.len() implies (ring_position(p, #[trigger] r.holes[h])
        == CoordPos::OnBoundary) == path_meets_segment(r.holes[h], s) by {
        assert(is_ring_of(r, h + 1) && ring_of(r, h + 1) == r.holes[h]);
        lemma_closed_ring_as_path(r.holes[h], p);
    }
    if region_meets_point(r, p) && !region_contains(r, p) && ring_position(p, r.exterior)
        != CoordPos::OnBoundary {
        let h = choose|h: int|
            0 <= h < r.holes.len() && ring_position(p, #[trigger] r.holes[h]) != CoordPos::Outside;
        assert(path_meets_segment(r.holes[h], s));
    }
    if rings_belong_at(r, p) && region_meets_segment(r, s) {
        if path_meets_segment(r.exterior, s) {
            assert(is_ring_of(r, 0) && ring_position(p, ring_of(r, 0)) == CoordPos::OnBoundary);
        } else if !region_contains(r, p) {
            let h = choose|h: int|
                0 <= h < r.holes.len() && path_meets_segment(#[trigger] r.holes[h], s);
            assert(is_ring_of(r, h + 1) && ring_position(p, ring_of(r, h + 1))
                == CoordPos::OnBoundary);
        }
    }
}

/// A point on an edge of a ring with three distinct vertices is on the
/// boundary of that ring.
pub proof fn lemma_edge_point_on_boundary(p: Pt, ring: Seq<Pt>, i: int)
    requires
        has_three_distinct(ring),
        0 <= i < ring.len(),
        on_segment(p, ring_edge(ring, i)),
    ensures
        ring_position(p, ring) == CoordPos::OnBoundary,
{
}

/// A point on the boundary of the exterior ring belongs to the region,
/// provided that it is not strictly inside a hole.
pub proof fn lemma_exterior_boundary_meets(r: Region, p: Pt)
    requires
        ring_position(p, r.exterior) == CoordPos::OnBoundary,
        forall|h: int|
            0 <= h < r.holes.len() ==> ring_position(p, #[trigger] r.holes[h]) != CoordPos::Inside,
    ensures
        region_meets_point(r, p),
{
}

/// A point on the boundary of a hole belongs to the region, provided that it
/// is not outside the exterior ring and not strictly inside another hole.
pub proof fn lemma_hole_boundary_meets(r: Region, p: Pt, h: int)
    requires
        0 <= h < r.holes.len(),
        ring_position(p, r.holes[h]) == CoordPos::OnBoundary,
        ring_position(p, r.exterior) != CoordPos::Outside,
        forall|g: int|
            0 <= g < r.holes.len() && g != h ==> ring_position(p, #[trigger] r.holes[g])
                != CoordPos::Inside,
    ensures
        region_meets_point(r, p),
{
}

/// A point strictly inside a hole does not belong to the region, and is not
/// contained in it.
pub proof fn lemma_inside_hole_misses(r: Region, p: Pt, h: int)
    requires
        0 <= h < r.holes.len(),
        ring_position(p, r.holes[h]) == CoordPos::Inside,
    ensures
        !region_meets_point(r, p),
        !region_contains(r, p),
{
}

/// What a region strictly contains belongs to it.
pub proof fn lemma_contained_point_meets(r: Region, p: Pt)
    requires
        region_contains(r, p),
    ensures
        region_meets_point(r, p),
{
}

/// A segment with an end strictly inside a region meets the region, whether
/// or not it touches a ring.
pub proof fn lemma_contained_segment_meets(r: Region, s: Segment)
    requires
        region_contains(r, s.start) || region_contains(r, s.end),
    ensures
        region_meets_segment(r, s),
{
}

/// A polyline with a vertex strictly inside a region meets the region,
/// whether or not it touches a ring. So does every polyline of one vertex or
/// more that lies wholly in the interior.
pub proof fn lemma_contained_path_meets(r: Region, path: Seq<Pt>, k: int)
    requires
        0 <= k < path.len(),
        region_contains(r, path[k]),
    ensures
        region_meets_path(r, path),
{
}

/// Against every figure a rectangle answers as the polygon of its four
/// corners does.
pub proof fn lemma_bounds_as_region(f: Figure, b: Bounds)
    ensures
        figures_meet(f, Figure::Bounds(b)) == figures_meet(f, Figure::Region(b.region())),
{
    match f {
        Figure::Bounds(a) => {
            lemma_without_holes_not_lopsided(a.region(), b.region());
        },
        _ => {},
    }
}

/// A region without any vertex meets no figure.
pub proof fn lemma_empty_region_meets_nothing(r: Region, f: Figure)
    requires
        r.exterior.len() == 0,
        forall|h: int| 0 <= h < r.holes.len() ==> (#[trigger] r.holes[h]).len() == 0,
    ensures
        !figures_meet(Figure::Region(r), f),
        !figures_meet(f, Figure::Region(r)),
{
    assert(!has_three_distinct(r.exterior));
    assert forall|path: Seq<Pt>| !boundary_meets_path(r, path) by {
        lemma_boundary_by_ring(r, path);
        assert forall|i: int| is_ring_of(r, i) implies !paths_meet(
            #[trigger] ring_of(r, i),
            path,
        ) by {
            assert(ring_of(r, i).len() == 0);
        }
    }
    assert forall|s: Segment| !boundary_meets_segment(r, s) by {
        assert(!path_meets_segment(r.exterior, s));
    }
    match f {
        Figure::Region(o) => {
            lemma_regions_meet_in_parts(r, o);
            lemma_regions_meet_in_parts(o, r);
            lemma_rings_meet_symmetric(r, o);
            if rings_meet(r, o) {
                let (i, j) = choose|i: int, j: int|
                    is_ring_of(r, i) && is_ring_of(o, j) && paths_meet(
                        #[trigger] ring_of(r, i),
                        #[trigger] ring_of(o, j),
                    );
                lemma_boundary_by_ring(r, ring_of(o, j));
                assert(is_ring_of(r, i) && paths_meet(ring_of(r, i), ring_of(o, j)));
            }
        },
        Figure::Bounds(b) => {
            let o = b.region();
            lemma_regions_meet_in_parts(r, o);
            lemma_rings_meet_symmetric(r, o);
            if rings_meet(r, o) {
                let (i, j) = choose|i: int, j: int|
                    is_ring_of(r, i) && is_ring_of(o, j) && paths_meet(
                        #[trigger] ring_of(r, i),
                        #[trigger] ring_of(o, j),
                    );
                lemma_boundary_by_ring(r, ring_of(o, j));
                assert(is_ring_of(r, i) && paths_meet(ring_of(r, i), ring_of(o, j)));
            }
        },
        _ => {},
    }
}

} // verus!
