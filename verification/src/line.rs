//! Segments against coordinates, points and segments.

use vstd::prelude::*;
use crate::geometry::{Coordinate, Line, Point};
use crate::intersects::Intersects;
use crate::kernel::{Orientation, Scalar, is_between, orientation};
use crate::model::{on_segment, segments_meet, spans_overlap};

verus! {

fn overlap<T: Scalar>(a1: T, a2: T, b1: T, b2: T) -> (r: bool)
    ensures
        r == spans_overlap(a1.value(), a2.value(), b1.value(), b2.value()),
{
    (!b1.less_than(a1) || !b2.less_than(a1) || !b1.less_than(a2) || !b2.less_than(a2)) && (
    !a1.less_than(b1) || !a2.less_than(b1) || !a1.less_than(b2) || !a2.less_than(b2))
}

impl<T: Scalar> Intersects<Coordinate<T>> for Line<T> {
    open spec fn meets(&self, rhs: &Coordinate<T>) -> bool {
        on_segment(rhs@, self@)
    }

    fn intersects(&self, rhs: &Coordinate<T>) -> (r: bool) {
        is_between(&self.start, &self.end, rhs)
    }
}

impl<T: Scalar> Intersects<Point<T>> for Line<T> {
    open spec fn meets(&self, rhs: &Point<T>) -> bool {
        on_segment(rhs@, self@)
    }

    fn intersects(&self, rhs: &Point<T>) -> (r: bool) {
        self.intersects(&rhs.0)
    }
}

impl<T: Scalar> Intersects<Line<T>> for Line<T> {
    open spec fn meets(&self, rhs: &Line<T>) -> bool {
        segments_meet(self@, rhs@)
    }

    fn intersects(&self, rhs: &Line<T>) -> (r: bool) {
        let o1: Orientation = orientation(&self.start, &self.end, &rhs.start);
        let o2: Orientation = orientation(&self.start, &self.end, &rhs.end);
        if o1 == o2 && o1 != Orientation::Collinear {
            return false;
        }
        let o3: Orientation = orientation(&rhs.start, &rhs.end, &self.start);
        let o4: Orientation = orientation(&rhs.start, &rhs.end, &self.end);
        if o3 == o4 && o3 != Orientation::Collinear {
            return false;
        }
        overlap(self.start.x, self.end.x, rhs.start.x, rhs.end.x) && overlap(
            self.start.y,
            self.end.y,
            rhs.start.y,
            rhs.end.y,
        )
    }
}

} // verus!
