//! The predicate that every pair of shapes answers.

use vstd::prelude::*;

verus! {

/// Shapes of this type can be tested against shapes of type `Rhs`.
pub trait Intersects<Rhs> {
    /// What it means, in the model, that the two shapes share a point.
    spec fn meets(&self, rhs: &Rhs) -> bool;

    /// Whether the two shapes share at least one point.
    fn intersects(&self, rhs: &Rhs) -> (r: bool)
        ensures
            r == self.meets(rhs),
    ;
}

} // verus!
