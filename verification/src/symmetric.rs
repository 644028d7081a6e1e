//! The pairs of shapes in their other order. A shape named first answers as
//! it does when it is named second: each of these asks the other shape.

use vstd::prelude::*;
use crate::geometry::{Coordinate, Line, LineString, Point, Polygon, Rect};
use crate::intersects::Intersects;
use crate::kernel::Scalar;
use crate::model::{on_segment, path_meets_point, path_meets_segment};
use crate::polygon::{region_meets_path, region_meets_point, region_meets_segment};

verus! {

impl<T: Scalar> Intersects<Point<T>> for Coordinate<T> {
    open spec fn meets(&self, rhs: &Point<T>) -> bool {
        self@ == rhs@
    }

    fn intersects(&self, rhs: &Point<T>) -> (r: bool) {
        self.same_as(&rhs.0)
    }
}

impl<T: Scalar> Intersects<Coordinate<T>> for Point<T> {
    open spec fn meets(&self, rhs: &Coordinate<T>) -> bool {
        self@ == rhs@
    }

    fn intersects(&self, rhs: &Coordinate<T>) -> (r: bool) {
        self.0.same_as(rhs)
    }
}

impl<T: Scalar> Intersects<Line<T>> for Coordinate<T> {
    open spec fn meets(&self, rhs: &Line<T>) -> bool {
        on_segment(self@, rhs@)
    }

    fn intersects(&self, rhs: &Line<T>) -> (r: bool) {
        rhs.intersects(self)
    }
}

impl<T: Scalar> Intersects<Line<T>> for Point<T> {
    open spec fn meets(&self, rhs: &Line<T>) -> bool {
        on_segment(self@, rhs@)
    }

    fn intersects(&self, rhs: &Line<T>) -> (r: bool) {
        rhs.intersects(self)
    }
}

impl<T: Scalar> Intersects<LineString<T>> for Coordinate<T> {
    open spec fn meets(&self, rhs: &LineString<T>) -> bool {
        path_meets_point(rhs@, self@)
    }

    fn intersects(&self, rhs: &LineString<T>) -> (r: bool) {
        rhs.intersects(self)
    }
}

impl<T: Scalar> Intersects<LineString<T>> for Point<T> {
    open spec fn meets(&self, rhs: &LineString<T>) -> bool {
        path_meets_point(rhs@, self@)
    }

    fn intersects(&self, rhs: &LineString<T>) -> (r: bool) {
        rhs.intersects(self)
    }
}

impl<T: Scalar> Intersects<Polygon<T>> for Coordinate<T> {
    open spec fn meets(&self, rhs: &Polygon<T>) -> bool {
        region_meets_point(rhs@, self@)
    }

    fn intersects(&self, rhs: &Polygon<T>) -> (r: bool) {
        rhs.intersects(self)
    }
}

impl<T: Scalar> Intersects<Polygon<T>> for Point<T> {
    open spec fn meets(&self, rhs: &Polygon<T>) -> bool {
        region_meets_point(rhs@, self@)
    }

    fn intersects(&self, rhs: &Polygon<T>) -> (r: bool) {
        rhs.intersects(self)
    }
}

impl<T: Scalar> Intersects<Rect<T>> for Coordinate<T> {
    open spec fn meets(&self, rhs: &Rect<T>) -> bool {
        region_meets_point(rhs@.region(), self@)
    }

    fn intersects(&self, rhs: &Rect<T>) -> (r: bool) {
        rhs.intersects(self)
    }
}

impl<T: Scalar> Intersects<Rect<T>> for Point<T> {
    open spec fn meets(&self, rhs: &Rect<T>) -> bool {
        region_meets_point(rhs@.region(), self@)
    }

    fn intersects(&self, rhs: &Rect<T>) -> (r: bool) {
        rhs.intersects(self)
    }
}

impl<T: Scalar> Intersects<LineString<T>> for Line<T> {
    open spec fn meets(&self, rhs: &LineString<T>) -> bool {
        path_meets_segment(rhs@, self@)
    }

    fn intersects(&self, rhs: &LineString<T>) -> (r: bool) {
        rhs.intersects(self)
    }
}

impl<T: Scalar> Intersects<Polygon<T>> for Line<T> {
    open spec fn meets(&self, rhs: &Polygon<T>) -> bool {
        region_meets_segment(rhs@, self@)
    }

    fn intersects(&self, rhs: &Polygon<T>) -> (r: bool) {
        rhs.intersects(self)
    }
}

impl<T: Scalar> Intersects<Rect<T>> for Line<T> {
    open spec fn meets(&self, rhs: &Rect<T>) -> bool {
        region_meets_segment(rhs@.region(), self@)
    }

    fn intersects(&self, rhs: &Rect<T>) -> (r: bool) {
        rhs.intersects(self)
    }
}

impl<T: Scalar> Intersects<Polygon<T>> for LineString<T> {
    open spec fn meets(&self, rhs: &Polygon<T>) -> bool {
        region_meets_path(rhs@, self@)
    }

    fn intersects(&self, rhs: &Polygon<T>) -> (r: bool) {
        rhs.intersects(self)
    }
}

impl<T: Scalar> Intersects<Rect<T>> for LineString<T> {
    open spec fn meets(&self, rhs: &Rect<T>) -> bool {
        region_meets_path(rhs@.region(), self@)
    }

    fn intersects(&self, rhs: &Rect<T>) -> (r: bool) {
        rhs.intersects(self)
    }
}

} // verus!
