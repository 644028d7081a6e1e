//! Coordinates and points against each other.

use vstd::prelude::*;
use crate::geometry::{Coordinate, Point};
use crate::intersects::Intersects;
use crate::kernel::Scalar;

verus! {

impl<T: Scalar> Intersects<Coordinate<T>> for Coordinate<T> {
    open spec fn meets(&self, rhs: &Coordinate<T>) -> bool {
        self@ == rhs@
    }

    fn intersects(&self, rhs: &Coordinate<T>) -> (r: bool) {
        self.same_as(rhs)
    }
}

impl<T: Scalar> Intersects<Point<T>> for Point<T> {
    open spec fn meets(&self, rhs: &Point<T>) -> bool {
        self@ == rhs@
    }

    fn intersects(&self, rhs: &Point<T>) -> (r: bool) {
        self.0.same_as(&rhs.0)
    }
}

} // verus!
