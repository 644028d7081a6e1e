//! Open polylines against coordinates, points, segments and polylines.

use vstd::prelude::*;
use crate::geometry::{Coordinate, Line, LineString, Point};
use crate::intersects::Intersects;
use crate::kernel::Scalar;
use crate::model::{
    Pt,
    Segment,
    is_path_edge,
    on_segment,
    path_edge,
    path_meets_point,
    path_meets_segment,
    paths_meet,
    segments_meet,
};

verus! {

/// Two segments meet whichever of them is named first.
pub proof fn lemma_segments_meet_symmetric(s: Segment, t: Segment)
    ensures
        segments_meet(s, t) == segments_meet(t, s),
{
}

/// Two polylines meet whichever of them is named first.
pub proof fn lemma_paths_meet_symmetric(p: Seq<Pt>, q: Seq<Pt>)
    ensures
        paths_meet(p, q) == paths_meet(q, p),
{
    if paths_meet(p, q) {
        let (i, j) = choose|i: int, j: int|
            is_path_edge(p, i) && is_path_edge(q, j) && segments_meet(
                #[trigger] path_edge(p, i),
                #[trigger] path_edge(q, j),
            );
        lemma_segments_meet_symmetric(path_edge(p, i), path_edge(q, j));
        assert(is_path_edge(q, j) && is_path_edge(p, i) && segments_meet(
            path_edge(q, j),
            path_edge(p, i),
        ));
    }
    if paths_meet(q, p) {
        let (j, i) = choose|j: int, i: int|
            is_path_edge(q, j) && is_path_edge(p, i) && segments_meet(
                #[trigger] path_edge(q, j),
                #[trigger] path_edge(p, i),
            );
        lemma_segments_meet_symmetric(path_edge(q, j), path_edge(p, i));
        assert(is_path_edge(p, i) && is_path_edge(q, j) && segments_meet(
            path_edge(p, i),
            path_edge(q, j),
        ));
    }
}

/// Two polylines meet exactly when an edge of the second meets the first.
pub proof fn lemma_paths_meet_by_edge(p: Seq<Pt>, q: Seq<Pt>)
    ensures
        paths_meet(p, q) <==> exists|j: int|
            is_path_edge(q, j) && path_meets_segment(p, #[trigger] path_edge(q, j)),
{
    if paths_meet(p, q) {
        let (i, j) = choose|i: int, j: int|
            is_path_edge(p, i) && is_path_edge(q, j) && segments_meet(
                #[trigger] path_edge(p, i),
                #[trigger] path_edge(q, j),
            );
        assert(is_path_edge(p, i) && segments_meet(path_edge(p, i), path_edge(q, j)));
        assert(is_path_edge(q, j) && path_meets_segment(p, path_edge(q, j)));
    }
    if exists|j: int| is_path_edge(q, j) && path_meets_segment(p, #[trigger] path_edge(q, j)) {
        let j = choose|j: int|
            is_path_edge(q, j) && path_meets_segment(p, #[trigger] path_edge(q, j));
        let i = choose|i: int|
            is_path_edge(p, i) && segments_meet(#[trigger] path_edge(p, i), path_edge(q, j));
        assert(is_path_edge(p, i) && is_path_edge(q, j) && segments_meet(
            path_edge(p, i),
            path_edge(q, j),
        ));
    }
}

impl<T: Scalar> LineString<T> {
    /// The number of edges of the polyline.
    pub fn edge_count(&self) -> (n: usize)
        ensures
            forall|i: int| is_path_edge(self@, i) <==> 0 <= i < n,
    {
        if self.0.len() == 0 {
            0
        } else {
            self.0.len() - 1
        }
    }

    /// The `i`-th edge of the polyline.
    pub fn edge(&self, i: usize) -> (e: Line<T>)
        requires
            is_path_edge(self@, i as int),
        ensures
            e@ == path_edge(self@, i as int),
    {
        let n: usize = self.0.len();
        assert(self@.len() == n);
        Line { start: self.0[i], end: self.0[i + 1] }
    }
}

impl<T: Scalar> Intersects<Coordinate<T>> for LineString<T> {
    open spec fn meets(&self, rhs: &Coordinate<T>) -> bool {
        path_meets_point(self@, rhs@)
    }

    fn intersects(&self, rhs: &Coordinate<T>) -> (r: bool) {
        let n: usize = self.edge_count();
        let mut i: usize = 0;
        while i < n
            invariant
                i <= n,
                forall|k: int| is_path_edge(self@, k) <==> 0 <= k < n,
                forall|k: int| 0 <= k < i ==> !on_edge(rhs@, self@, k),
            decreases n - i,
        {
            if self.edge(i).intersects(rhs) {
                assert(is_path_edge(self@, i as int) && on_edge(rhs@, self@, i as int));
                return true;
            }
            i += 1;
        }
        assert forall|k: int| is_path_edge(self@, k) implies !on_segment(
            rhs@,
            #[trigger] path_edge(self@, k),
        ) by {
            assert(!on_edge(rhs@, self@, k));
        }
        false
    }
}

impl<T: Scalar> Intersects<Point<T>> for LineString<T> {
    open spec fn meets(&self, rhs: &Point<T>) -> bool {
        path_meets_point(self@, rhs@)
    }

    fn intersects(&self, rhs: &Point<T>) -> (r: bool) {
        self.intersects(&rhs.0)
    }
}

impl<T: Scalar> Intersects<Line<T>> for LineString<T> {
    open spec fn meets(&self, rhs: &Line<T>) -> bool {
        path_meets_segment(self@, rhs@)
    }

    fn intersects(&self, rhs: &Line<T>) -> (r: bool) {
        let n: usize = self.edge_count();
        let mut i: usize = 0;
        while i < n
            invariant
                i <= n,
                forall|k: int| is_path_edge(self@, k) <==> 0 <= k < n,
                forall|k: int| 0 <= k < i ==> !edge_meets(self@, k, rhs@),
            decreases n - i,
        {
            if self.edge(i).intersects(rhs) {
                assert(is_path_edge(self@, i as int) && edge_meets(self@, i as int, rhs@));
                return true;
            }
            i += 1;
        }
        assert forall|k: int| is_path_edge(self@, k) implies !segments_meet(
            #[trigger] path_edge(self@, k),
            rhs@,
        ) by {
            assert(!edge_meets(self@, k, rhs@));
        }
        false
    }
}

impl<T: Scalar> Intersects<LineString<T>> for LineString<T> {
    open spec fn meets(&self, rhs: &LineString<T>) -> bool {
        paths_meet(self@, rhs@)
    }

    fn intersects(&self, rhs: &LineString<T>) -> (r: bool) {
        let n: usize = rhs.edge_count();
        let mut j: usize = 0;
        proof {
            lemma_paths_meet_by_edge(self@, rhs@);
        }
        while j < n
            invariant
                j <= n,
                forall|k: int| is_path_edge(rhs@, k) <==> 0 <= k < n,
                forall|k: int| 0 <= k < j ==> !path_meets_edge(self@, rhs@, k),
            decreases n - j,
        {
            let e: Line<T> = rhs.edge(j);
            if self.intersects(&e) {
                assert(is_path_edge(rhs@, j as int) && path_meets_edge(self@, rhs@, j as int));
                return true;
            }
            j += 1;
        }
        assert forall|k: int| is_path_edge(rhs@, k) implies !path_meets_segment(
            self@,
            #[trigger] path_edge(rhs@, k),
        ) by {
            assert(!path_meets_edge(self@, rhs@, k));
        }
        false
    }
}

/// `p` lies on the `k`-th edge of the polyline.
spec fn on_edge(p: Pt, path: Seq<Pt>, k: int) -> bool {
    on_segment(p, path_edge(path, k))
}

/// The `k`-th edge of the polyline meets the segment.
spec fn edge_meets(path: Seq<Pt>, k: int, s: Segment) -> bool {
    segments_meet(path_edge(path, k), s)
}

/// The polyline `p` meets the `k`-th edge of the polyline `q`.
spec fn path_meets_edge(p: Seq<Pt>, q: Seq<Pt>, k: int) -> bool {
    path_meets_segment(p, path_edge(q, k))
}

} // verus!
