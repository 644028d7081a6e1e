//! Rectangles against every kind of shape. A rectangle is the polygon of its
//! four corners, and is tested as that polygon.

use vstd::prelude::*;
use crate::geometry::{Coordinate, Line, LineString, Point, Polygon, Rect};
use crate::intersects::Intersects;
use crate::kernel::Scalar;
use crate::polygon::{
    region_meets_path,
    region_meets_point,
    region_meets_region,
    region_meets_segment,
};

verus! {

impl<T: Scalar> Intersects<Coordinate<T>> for Rect<T> {
    open spec fn meets(&self, rhs: &Coordinate<T>) -> bool {
        region_meets_point(self@.region(), rhs@)
    }

    fn intersects(&self, rhs: &Coordinate<T>) -> (r: bool) {
        self.to_polygon().intersects(rhs)
    }
}

impl<T: Scalar> Intersects<Point<T>> for Rect<T> {
    open spec fn meets(&self, rhs: &Point<T>) -> bool {
        region_meets_point(self@.region(), rhs@)
    }

    fn intersects(&self, rhs: &Point<T>) -> (r: bool) {
        self.to_polygon().intersects(rhs)
    }
}

impl<T: Scalar> Intersects<Line<T>> for Rect<T> {
    open spec fn meets(&self, rhs: &Line<T>) -> bool {
        region_meets_segment(self@.region(), rhs@)
    }

    fn intersects(&self, rhs: &Line<T>) -> (r: bool) {
        self.to_polygon().intersects(rhs)
    }
}

impl<T: Scalar> Intersects<LineString<T>> for Rect<T> {
    open spec fn meets(&self, rhs: &LineString<T>) -> bool {
        region_meets_path(self@.region(), rhs@)
    }

    fn intersects(&self, rhs: &LineString<T>) -> (r: bool) {
        self.to_polygon().intersects(rhs)
    }
}

impl<T: Scalar> Intersects<Polygon<T>> for Rect<T> {
    open spec fn meets(&self, rhs: &Polygon<T>) -> bool {
        region_meets_region(rhs@, self@.region())
    }

    fn intersects(&self, rhs: &Polygon<T>) -> (r: bool) {
        rhs.intersects(self)
    }
}

impl<T: Scalar> Intersects<Rect<T>> for Rect<T> {
    open spec fn meets(&self, rhs: &Rect<T>) -> bool {
        region_meets_region(self@.region(), rhs@.region())
    }

    fn intersects(&self, rhs: &Rect<T>) -> (r: bool) {
        self.to_polygon().intersects(rhs)
    }
}

/// A polygon answers a rectangle as it answers the polygon of the four
/// corners of the rectangle, which [`Rect::to_polygon`] builds.
pub proof fn lemma_rect_as_polygon<T: Scalar>(
    polygon: &Polygon<T>,
    rect: &Rect<T>,
    corners: &Polygon<T>,
)
    requires
        corners@ == rect@.region(),
    ensures
        polygon.meets(rect) == polygon.meets(corners),
{
}

} // verus!
