//! Strict containment: whether a point lies in the interior of a polygon.

use vstd::prelude::*;
use crate::geometry::{Coordinate, LineString, Point, Polygon};
use crate::kernel::Scalar;
use crate::model::{Pt, Region};
use crate::ring::{CoordPos, coord_pos_relative_to_ring, ring_position};

verus! {

/// `p` lies strictly inside the region: inside its exterior ring, and outside
/// every hole. A point on any ring is not contained.
pub open spec fn region_contains(r: Region, p: Pt) -> bool {
    ring_position(p, r.exterior) == CoordPos::Inside && forall|h: int|
        0 <= h < r.holes.len() ==> ring_position(p, #[trigger] r.holes[h]) == CoordPos::Outside
}

/// Shapes of this type can be asked whether they strictly contain a shape of
/// type `Rhs`.
pub trait Contains<Rhs> {
    /// What it means, in the model, that the shape strictly contains `rhs`.
    spec fn holds(&self, rhs: &Rhs) -> bool;

    /// Whether `rhs` lies strictly inside the shape.
    fn contains(&self, rhs: &Rhs) -> (r: bool)
        ensures
            r == self.holds(rhs),
    ;
}

impl<T: Scalar> Contains<Coordinate<T>> for Polygon<T> {
    open spec fn holds(&self, rhs: &Coordinate<T>) -> bool {
        region_contains(self@, rhs@)
    }

    fn contains(&self, rhs: &Coordinate<T>) -> (r: bool) {
        if coord_pos_relative_to_ring(*rhs, self.exterior()) != CoordPos::Inside {
            return false;
        }
        let holes: &Vec<LineString<T>> = self.interiors();
        let mut h: usize = 0;
        while h < holes.len()
            invariant
                h <= holes.len(),
                holes@.len() == self@.holes.len(),
                forall|k: int| 0 <= k < holes@.len() ==> (#[trigger] holes@[k])@ == self@.holes[k],
                forall|k: int|
                    0 <= k < h ==> ring_position(rhs@, #[trigger] self@.holes[k])
                        == CoordPos::Outside,
            decreases holes.len() - h,
        {
            if coord_pos_relative_to_ring(*rhs, &holes[h]) != CoordPos::Outside {
                assert(ring_position(rhs@, self@.holes[h as int]) != CoordPos::Outside);
                return false;
            }
            h += 1;
        }
        true
    }
}

impl<T: Scalar> Contains<Point<T>> for Polygon<T> {
    open spec fn holds(&self, rhs: &Point<T>) -> bool {
        region_contains(self@, rhs@)
    }

    fn contains(&self, rhs: &Point<T>) -> (r: bool) {
        self.contains(&rhs.0)
    }
}

} // verus!
