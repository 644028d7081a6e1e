//! The mathematical model: points of the integer plane and what is built from
//! them. Contracts of the executable functions speak of these values only.

use vstd::prelude::*;

verus! {

/// A point of the integer plane.
pub struct Pt {
    pub x: int,
    pub y: int,
}

/// A closed straight segment between two points. The segment is degenerate
/// when both ends coincide; it then consists of that single point.
pub struct Segment {
    pub start: Pt,
    pub end: Pt,
}

/// A polygon with holes: one exterior ring and any number of interior rings.
/// Each ring is a sequence of vertices; a well-formed ring repeats its first
/// vertex at the end, and the holes of a well-formed region lie inside its
/// exterior and apart from each other. Nothing here checks that.
pub struct Region {
    pub exterior: Seq<Pt>,
    pub holes: Seq<Seq<Pt>>,
}

/// An axis-aligned rectangle, given by its lower left and upper right corner.
pub struct Bounds {
    pub min: Pt,
    pub max: Pt,
}

impl Bounds {
    /// The lower left corner is nowhere beyond the upper right one.
    pub open spec fn ordered(self) -> bool {
        self.min.x <= self.max.x && self.min.y <= self.max.y
    }

    /// The rectangle as a polygon without holes: its four corners, from the
    /// lower left one through the upper left, upper right and lower right
    /// ones back to the lower left one.
    pub open spec fn region(self) -> Region {
        Region {
            exterior: seq![
                Pt { x: self.min.x, y: self.min.y },
                Pt { x: self.min.x, y: self.max.y },
                Pt { x: self.max.x, y: self.max.y },
                Pt { x: self.max.x, y: self.min.y },
                Pt { x: self.min.x, y: self.min.y },
            ],
            holes: Seq::empty(),
        }
    }
}

/// Twice the signed area of the triangle `a`, `b`, `c`: positive when the
/// three points turn counter-clockwise, negative when they turn clockwise,
/// zero when they lie on one line.
pub open spec fn cross(a: Pt, b: Pt, c: Pt) -> int {
    (b.x - a.x) * (c.y - a.y) - (b.y - a.y) * (c.x - a.x)
}

/// `v` lies between `a` and `b`, whichever of them is the smaller.
pub open spec fn in_span(v: int, a: int, b: int) -> bool {
    (a <= v <= b) || (b <= v <= a)
}

/// `p` lies in the smallest axis-aligned box that holds the segment.
pub open spec fn in_box(p: Pt, s: Segment) -> bool {
    in_span(p.x, s.start.x, s.end.x) && in_span(p.y, s.start.y, s.end.y)
}

/// `p` is a point of the segment: on the line through its ends and between
/// them. Of a degenerate segment only its single point qualifies.
pub open spec fn on_segment(p: Pt, s: Segment) -> bool {
    cross(s.start, s.end, p) == 0 && in_box(p, s)
}

/// Both ends of `t` lie strictly on the same side of the line through the
/// ends of `s`. Never so when `s` is degenerate.
pub open spec fn apart(s: Segment, t: Segment) -> bool {
    let c1 = cross(s.start, s.end, t.start);
    let c2 = cross(s.start, s.end, t.end);
    (c1 > 0 && c2 > 0) || (c1 < 0 && c2 < 0)
}

/// The smaller of two integers.
pub open spec fn lower(a: int, b: int) -> int {
    if a <= b {
        a
    } else {
        b
    }
}

/// The larger of two integers.
pub open spec fn upper(a: int, b: int) -> int {
    if a <= b {
        b
    } else {
        a
    }
}

/// The intervals spanned by `a1`, `a2` and by `b1`, `b2` share a number.
pub open spec fn spans_overlap(a1: int, a2: int, b1: int, b2: int) -> bool {
    lower(a1, a2) <= upper(b1, b2) && lower(b1, b2) <= upper(a1, a2)
}

/// The smallest axis-aligned boxes that hold `s` and `t` share a point.
pub open spec fn boxes_overlap(s: Segment, t: Segment) -> bool {
    spans_overlap(s.start.x, s.end.x, t.start.x, t.end.x) && spans_overlap(
        s.start.y,
        s.end.y,
        t.start.y,
        t.end.y,
    )
}

/// The two segments meet: neither lies strictly on one side of the line
/// through the other, and their boxes overlap. The last condition decides
/// where all four ends lie on one line; a degenerate segment meets another
/// exactly when its single point is on it. That segments meet exactly when
/// they have a point in common is proved in [`crate::common_point`].
pub open spec fn segments_meet(s: Segment, t: Segment) -> bool {
    !apart(s, t) && !apart(t, s) && boxes_overlap(s, t)
}

/// The `i`-th edge of an open polyline: from its `i`-th vertex to the next.
pub open spec fn path_edge(path: Seq<Pt>, i: int) -> Segment {
    Segment { start: path[i], end: path[i + 1] }
}

/// `i` numbers an edge of the polyline. One of fewer than two vertices has
/// no edge.
pub open spec fn is_path_edge(path: Seq<Pt>, i: int) -> bool {
    0 <= i && i + 1 < path.len()
}

/// `p` lies on an edge of the polyline.
pub open spec fn path_meets_point(path: Seq<Pt>, p: Pt) -> bool {
    exists|i: int| is_path_edge(path, i) && on_segment(p, #[trigger] path_edge(path, i))
}

/// An edge of the polyline meets the segment.
pub open spec fn path_meets_segment(path: Seq<Pt>, s: Segment) -> bool {
    exists|i: int| is_path_edge(path, i) && segments_meet(#[trigger] path_edge(path, i), s)
}

/// An edge of one polyline meets an edge of the other.
pub open spec fn paths_meet(p: Seq<Pt>, q: Seq<Pt>) -> bool {
    exists|i: int, j: int|
        is_path_edge(p, i) && is_path_edge(q, j) && segments_meet(
            #[trigger] path_edge(p, i),
            #[trigger] path_edge(q, j),
        )
}

} // verus!
