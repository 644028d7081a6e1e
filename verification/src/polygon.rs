//! Polygons against every kind of shape.
//!
//! A polygon meets a point that is not outside its exterior ring and not
//! strictly inside a hole. It meets a segment or a polyline that touches one
//! of its rings, or that has a vertex strictly inside it: the second
//! condition finds what lies wholly in the interior and touches no ring. Two
//! polygons are tested ring by ring, the rings of each read as polylines.

use vstd::prelude::*;
use crate::contains::{Contains, region_contains};
use crate::geometry::{Coordinate, Line, LineString, Point, Polygon, Rect};
use crate::intersects::Intersects;
use crate::kernel::Scalar;
use crate::model::{Pt, Region, Segment, path_meets_segment, paths_meet};
use crate::ring::{CoordPos, coord_pos_relative_to_ring, ring_position};

verus! {

/// `p` is a point of the region: not outside the exterior ring, and not
/// strictly inside a hole. The points of every ring belong to the region.
pub open spec fn region_meets_point(r: Region, p: Pt) -> bool {
    ring_position(p, r.exterior) != CoordPos::Outside && forall|h: int|
        0 <= h < r.holes.len() ==> ring_position(p, #[trigger] r.holes[h]) != CoordPos::Inside
}

/// The segment meets a ring of the region, each ring read as a polyline.
pub open spec fn boundary_meets_segment(r: Region, s: Segment) -> bool {
    path_meets_segment(r.exterior, s) || exists|h: int|
        0 <= h < r.holes.len() && path_meets_segment(#[trigger] r.holes[h], s)
}

/// The segment meets a ring of the region, or one of its ends lies strictly
/// inside the region.
pub open spec fn region_meets_segment(r: Region, s: Segment) -> bool {
    boundary_meets_segment(r, s) || region_contains(r, s.start) || region_contains(r, s.end)
}

/// The polyline meets a ring of the region, each ring read as a polyline.
pub open spec fn boundary_meets_path(r: Region, path: Seq<Pt>) -> bool {
    paths_meet(r.exterior, path) || exists|h: int|
        0 <= h < r.holes.len() && paths_meet(#[trigger] r.holes[h], path)
}

/// A vertex of the polyline lies strictly inside the region.
pub open spec fn has_vertex_inside(r: Region, path: Seq<Pt>) -> bool {
    exists|k: int| 0 <= k < path.len() && region_contains(r, #[trigger] path[k])
}

/// The polyline meets a ring of the region, or one of its vertices lies
/// strictly inside the region.
pub open spec fn region_meets_path(r: Region, path: Seq<Pt>) -> bool {
    boundary_meets_path(r, path) || has_vertex_inside(r, path)
}

/// A hole of `b`, read as a polyline, meets the region `a`.
pub open spec fn meets_a_hole_of(a: Region, b: Region) -> bool {
    exists|h: int| 0 <= h < b.holes.len() && region_meets_path(a, #[trigger] b.holes[h])
}

/// The two regions meet: the exterior ring or a hole of `b` meets `a`, or the
/// exterior ring of `a` meets `b`. The last condition finds an `a` that lies
/// wholly inside `b`.
pub open spec fn region_meets_region(a: Region, b: Region) -> bool {
    region_meets_path(a, b.exterior) || meets_a_hole_of(a, b) || region_meets_path(b, a.exterior)
}

impl<T: Scalar> Polygon<T> {
    /// Whether the segment meets a ring of the polygon.
    fn boundary_intersects_line(&self, line: &Line<T>) -> (r: bool)
        ensures
            r == boundary_meets_segment(self@, line@),
    {
        if self.exterior().intersects(line) {
            return true;
        }
        let holes: &Vec<LineString<T>> = self.interiors();
        let mut h: usize = 0;
        while h < holes.len()
            invariant
                h <= holes.len(),
                holes@.len() == self@.holes.len(),
                forall|k: int| 0 <= k < holes@.len() ==> (#[trigger] holes@[k])@ == self@.holes[k],
                forall|k: int|
                    0 <= k < h ==> !path_meets_segment(#[trigger] self@.holes[k], line@),
            decreases holes.len() - h,
        {
            if holes[h].intersects(line) {
                assert(path_meets_segment(self@.holes[h as int], line@));
                return true;
            }
            h += 1;
        }
        false
    }

    /// Whether the polyline meets a ring of the polygon.
    fn boundary_intersects_line_string(&self, path: &LineString<T>) -> (r: bool)
        ensures
            r == boundary_meets_path(self@, path@),
    {
        if self.exterior().intersects(path) {
            return true;
        }
        let holes: &Vec<LineString<T>> = self.interiors();
        let mut h: usize = 0;
        while h < holes.len()
            invariant
                h <= holes.len(),
                holes@.len() == self@.holes.len(),
                forall|k: int| 0 <= k < holes@.len() ==> (#[trigger] holes@[k])@ == self@.holes[k],
                forall|k: int| 0 <= k < h ==> !paths_meet(#[trigger] self@.holes[k], path@),
            decreases holes.len() - h,
        {
            if holes[h].intersects(path) {
                assert(paths_meet(self@.holes[h as int], path@));
                return true;
            }
            h += 1;
        }
        false
    }

    /// Whether a vertex of the polyline lies strictly inside the polygon.
    fn contains_a_vertex_of(&self, path: &LineString<T>) -> (r: bool)
        ensures
            r == has_vertex_inside(self@, path@),
    {
        let n: usize = path.0.len();
        assert(path@.len() == n);
        let mut k: usize = 0;
        while k < n
            invariant
                k <= n,
                path@.len() == n,
                n == path.0@.len(),
                forall|m: int| 0 <= m < k ==> !region_contains(self@, #[trigger] path@[m]),
            decreases n - k,
        {
            if self.contains(&path.0[k]) {
                assert(region_contains(self@, path@[k as int]));
                return true;
            }
            k += 1;
        }
        false
    }
}

impl<T: Scalar> Intersects<Coordinate<T>> for Polygon<T> {
    open spec fn meets(&self, rhs: &Coordinate<T>) -> bool {
        region_meets_point(self@, rhs@)
    }

    fn intersects(&self, p: &Coordinate<T>) -> (r: bool) {
        if coord_pos_relative_to_ring(*p, self.exterior()) == CoordPos::Outside {
            return false;
        }
        let holes: &Vec<LineString<T>> = self.interiors();
        let mut h: usize = 0;
        while h < holes.len()
            invariant
                h <= holes.len(),
                holes@.len() == self@.holes.len(),
                forall|k: int| 0 <= k < holes@.len() ==> (#[trigger] holes@[k])@ == self@.holes[k],
                forall|k: int|
                    0 <= k < h ==> ring_position(p@, #[trigger] self@.holes[k])
                        != CoordPos::Inside,
            decreases holes.len() - h,
        {
            if coord_pos_relative_to_ring(*p, &holes[h]) == CoordPos::Inside {
                assert(ring_position(p@, self@.holes[h as int]) == CoordPos::Inside);
                return false;
            }
            h += 1;
        }
        true
    }
}

impl<T: Scalar> Intersects<Point<T>> for Polygon<T> {
    open spec fn meets(&self, rhs: &Point<T>) -> bool {
        region_meets_point(self@, rhs@)
    }

    fn intersects(&self, p: &Point<T>) -> (r: bool) {
        self.intersects(&p.0)
    }
}

impl<T: Scalar> Intersects<Line<T>> for Polygon<T> {
    open spec fn meets(&self, rhs: &Line<T>) -> bool {
        region_meets_segment(self@, rhs@)
    }

    fn intersects(&self, p: &Line<T>) -> (r: bool) {
        self.boundary_intersects_line(p) || self.contains(&p.start) || self.contains(&p.end)
    }
}

impl<T: Scalar> Intersects<LineString<T>> for Polygon<T> {
    open spec fn meets(&self, rhs: &LineString<T>) -> bool {
        region_meets_path(self@, rhs@)
    }

    fn intersects(&self, linestring: &LineString<T>) -> (r: bool) {
        if self.boundary_intersects_line_string(linestring) {
            true
        } else {
            self.contains_a_vertex_of(linestring)
        }
    }
}

impl<T: Scalar> Intersects<Rect<T>> for Polygon<T> {
    open spec fn meets(&self, rhs: &Rect<T>) -> bool {
        region_meets_region(self@, rhs@.region())
    }

    fn intersects(&self, rect: &Rect<T>) -> (r: bool) {
        let p: Polygon<T> = rect.to_polygon();
        self.intersects(&p)
    }
}

impl<T: Scalar> Intersects<Polygon<T>> for Polygon<T> {
    open spec fn meets(&self, rhs: &Polygon<T>) -> bool {
        region_meets_region(self@, rhs@)
    }

    fn intersects(&self, polygon: &Polygon<T>) -> (r: bool) {
        if self.intersects(polygon.exterior()) {
            return true;
        }
        let holes: &Vec<LineString<T>> = polygon.interiors();
        let mut h: usize = 0;
        while h < holes.len()
            invariant
                h <= holes.len(),
                holes@.len() == polygon@.holes.len(),
                forall|k: int|
                    0 <= k < holes@.len() ==> (#[trigger] holes@[k])@ == polygon@.holes[k],
                forall|k: int|
                    0 <= k < h ==> !region_meets_path(self@, #[trigger] polygon@.holes[k]),
            decreases holes.len() - h,
        {
            if self.intersects(&holes[h]) {
                assert(region_meets_path(self@, polygon@.holes[h as int]));
                return true;
            }
            h += 1;
        }
        polygon.intersects(self.exterior())
    }
}

} // verus!
