//! Where a point lies relative to a ring: inside, outside or on its boundary.
//!
//! A ring is read as a closed loop: after its last vertex comes its first
//! one. The position is decided by a horizontal ray from the point towards
//! larger `x`: the point is inside when the ray crosses the ring an odd number
//! of times. A point on an edge is on the boundary, whatever the ray crosses.

use vstd::prelude::*;
use crate::arith::{lemma_distribute, lemma_swap};
use crate::geometry::{Coordinate, LineString};
use crate::kernel::{Orientation, Scalar, is_between, orientation};
use crate::model::{Pt, Segment, cross, on_segment};

verus! {

/// The position of a point relative to a ring.
#[derive(Clone, Copy, Debug, PartialEq, Eq, Structural)]
pub enum CoordPos {
    OnBoundary,
    Inside,
    Outside,
}

/// The `i`-th edge of a ring: from its `i`-th vertex to the next one, and
/// from the last vertex back to the first.
pub open spec fn ring_edge(ring: Seq<Pt>, i: int) -> Segment {
    Segment { start: ring[i], end: if i + 1 == ring.len() { ring[0] } else { ring[i + 1] } }
}

/// `p` lies on an edge of the ring.
pub open spec fn on_ring(p: Pt, ring: Seq<Pt>) -> bool {
    exists|i: int| 0 <= i < ring.len() && on_segment(p, #[trigger] ring_edge(ring, i))
}

/// One end of the edge lies strictly above the horizontal line through `p`,
/// the other on it or below.
pub open spec fn straddles(p: Pt, e: Segment) -> bool {
    (e.start.y > p.y) != (e.end.y > p.y)
}

/// The line through the ends of `e` meets the horizontal line through `p`
/// strictly to the right of `p`. With `rise` and `run` the differences of the
/// ends in `y` and in `x`, the two lines meet at
/// `x = e.start.x + (p.y - e.start.y) * run / rise`; the comparison of that
/// quotient with `p.x` is stated here multiplied by `rise`. Meaningful where
/// the edge is not horizontal, as is every edge that straddles.
pub open spec fn crossing_beyond(p: Pt, e: Segment) -> bool {
    let rise = e.end.y - e.start.y;
    let run = e.end.x - e.start.x;
    let scaled_gap = (e.start.x - p.x) * rise + (p.y - e.start.y) * run;
    if rise > 0 {
        scaled_gap > 0
    } else {
        scaled_gap < 0
    }
}

/// The ray from `p` towards larger `x` crosses the edge.
pub open spec fn ray_crosses(p: Pt, e: Segment) -> bool {
    straddles(p, e) && crossing_beyond(p, e)
}

/// How many of the first `n` edges of the ring the ray from `p` crosses.
pub open spec fn crossings(p: Pt, ring: Seq<Pt>, n: nat) -> nat
    decreases n,
{
    if n == 0 {
        0
    } else {
        crossings(p, ring, (n - 1) as nat) + if ray_crosses(p, ring_edge(ring, n - 1)) {
            1nat
        } else {
            0nat
        }
    }
}

/// The ring has three vertices of which no two coincide. A ring without them
/// encloses nothing.
pub open spec fn has_three_distinct(ring: Seq<Pt>) -> bool {
    exists|i: int, j: int, k: int|
        0 <= i < ring.len() && 0 <= j < ring.len() && 0 <= k < ring.len() && ring[i] != ring[j]
            && ring[j] != ring[k] && ring[i] != ring[k]
}

/// The position of `p` relative to the ring. Every point is outside a ring
/// without three distinct vertices. Of any other ring, the points of its
/// edges are on the boundary, and a point off the edges is inside exactly
/// when the ray from it crosses an odd number of edges.
pub open spec fn ring_position(p: Pt, ring: Seq<Pt>) -> CoordPos {
    if !has_three_distinct(ring) {
        CoordPos::Outside
    } else if on_ring(p, ring) {
        CoordPos::OnBoundary
    } else if crossings(p, ring, ring.len()) % 2 == 1 {
        CoordPos::Inside
    } else {
        CoordPos::Outside
    }
}

/// The scaled gap of [`crossing_beyond`] is the signed area that tells the
/// turning direction of the edge's ends and `p`.
pub proof fn lemma_gap_is_cross(p: Pt, e: Segment)
    ensures
        (e.start.x - p.x) * (e.end.y - e.start.y) + (p.y - e.start.y) * (e.end.x - e.start.x)
            == cross(e.start, e.end, p),
{
    let rise = e.end.y - e.start.y;
    let run = e.end.x - e.start.x;
    assert(e.start.x - p.x == 0 - (p.x - e.start.x));
    lemma_distribute(0, p.x - e.start.x, rise);
    lemma_swap(p.x - e.start.x, rise);
    lemma_swap(p.y - e.start.y, run);
}

/// Whether the ray from `p` towards larger `x` crosses the edge from `a` to
/// `b`.
fn crosses_ray<T: Scalar>(p: &Coordinate<T>, a: &Coordinate<T>, b: &Coordinate<T>) -> (r: bool)
    ensures
        r == ray_crosses(p@, Segment { start: a@, end: b@ }),
{
    let a_above: bool = p.y.less_than(a.y);
    let b_above: bool = p.y.less_than(b.y);
    if a_above == b_above {
        return false;
    }
    proof {
        lemma_gap_is_cross(p@, Segment { start: a@, end: b@ });
    }
    let o: Orientation = orientation(a, b, p);
    if b_above {
        o == Orientation::CounterClockwise
    } else {
        o == Orientation::Clockwise
    }
}

/// Whether the ring has three vertices of which no two coincide.
fn three_distinct<T: Scalar>(ring: &LineString<T>) -> (r: bool)
    ensures
        r == has_three_distinct(ring@),
{
    let n: usize = ring.0.len();
    assert(ring@.len() == n);
    if n == 0 {
        return false;
    }
    let first: Coordinate<T> = ring.0[0];
    let mut second: Option<Coordinate<T>> = None;
    let ghost mut at: int = 0;
    let mut i: usize = 1;
    while i < n
        invariant
            1 <= i <= n,
            ring@.len() == n,
            n == ring.0@.len(),
            first@ == ring@[0],
            match second {
                None => forall|m: int| 0 <= m < i ==> ring@[m] == first@,
                Some(s) => 0 <= at < i && ring@[at] == s@ && s@ != first@ && forall|m: int|
                    0 <= m < i ==> ring@[m] == first@ || ring@[m] == s@,
            },
        decreases n - i,
    {
        let c: Coordinate<T> = ring.0[i];
        assert(c@ == ring@[i as int]);
        match second {
            None => {
                if !c.same_as(&first) {
                    second = Some(c);
                    proof {
                        at = i as int;
                    }
                }
            },
            Some(s) => {
                if !c.same_as(&first) && !c.same_as(&s) {
                    assert(ring@[0] != ring@[at] && ring@[at] != ring@[i as int] && ring@[0]
                        != ring@[i as int]);
                    return true;
                }
            },
        }
        i += 1;
    }
    false
}

/// The position of the coordinate relative to the ring.
pub fn coord_pos_relative_to_ring<T: Scalar>(coord: Coordinate<T>, ring: &LineString<T>) -> (pos:
    CoordPos)
    ensures
        pos == ring_position(coord@, ring@),
{
    if !three_distinct(ring) {
        return CoordPos::Outside;
    }
    let n: usize = ring.0.len();
    assert(ring@.len() == n);
    let mut inside: bool = false;
    let mut i: usize = 0;
    while i < n
        invariant
            i <= n,
            ring@.len() == n,
            n == ring.0@.len(),
            has_three_distinct(ring@),
            forall|k: int| 0 <= k < i ==> !on_ring_edge(coord@, ring@, k),
            inside == (crossings(coord@, ring@, i as nat) % 2 == 1),
        decreases n - i,
    {
        let a: Coordinate<T> = ring.0[i];
        let b: Coordinate<T> = if i + 1 == n {
            ring.0[0]
        } else {
            ring.0[i + 1]
        };
        assert(Segment { start: a@, end: b@ } == ring_edge(ring@, i as int));
        if is_between(&a, &b, &coord) {
            assert(0 <= i < ring@.len() && on_ring_edge(coord@, ring@, i as int));
            return CoordPos::OnBoundary;
        }
        if crosses_ray(&coord, &a, &b) {
            inside = !inside;
        }
        i += 1;
    }
    assert forall|k: int| 0 <= k < ring@.len() implies !on_segment(
        coord@,
        #[trigger] ring_edge(ring@, k),
    ) by {
        assert(!on_ring_edge(coord@, ring@, k));
    }
    if inside {
        CoordPos::Inside
    } else {
        CoordPos::Outside
    }
}

/// `p` lies on the `k`-th edge of the ring.
spec fn on_ring_edge(p: Pt, ring: Seq<Pt>, k: int) -> bool {
    on_segment(p, ring_edge(ring, k))
}

} // verus!
