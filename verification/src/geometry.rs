//! The shapes that callers build, and the model value that each stands for.

use vstd::prelude::*;
use crate::kernel::{Scalar, pt};
use crate::model::{Bounds, Pt, Region, Segment, lower, upper};

verus! {

/// A pair of coordinates.
#[derive(Debug)]
pub struct Coordinate<T> {
    pub x: T,
    pub y: T,
}

impl<T: Copy> Clone for Coordinate<T> {
    fn clone(&self) -> (c: Self)
        ensures
            c == *self,
    {
        *self
    }
}

impl<T: Copy> Copy for Coordinate<T> {

}

impl<T: Scalar> View for Coordinate<T> {
    type V = Pt;

    open spec fn view(&self) -> Pt {
        pt(self.x.value(), self.y.value())
    }
}

impl<T: Scalar> Coordinate<T> {
    pub fn new(x: T, y: T) -> (c: Self)
        ensures
            c.x == x,
            c.y == y,
    {
        Coordinate { x, y }
    }

    /// Whether two coordinates denote the same point.
    pub fn same_as(&self, other: &Coordinate<T>) -> (r: bool)
        ensures
            r == (self@ == other@),
    {
        self.x.same(other.x) && self.y.same(other.y)
    }
}

/// A single point.
#[derive(Debug)]
pub struct Point<T>(pub Coordinate<T>);

impl<T: Copy> Clone for Point<T> {
    fn clone(&self) -> (c: Self)
        ensures
            c == *self,
    {
        *self
    }
}

impl<T: Copy> Copy for Point<T> {

}

impl<T: Scalar> View for Point<T> {
    type V = Pt;

    open spec fn view(&self) -> Pt {
        self.0@
    }
}

impl<T: Scalar> Point<T> {
    pub fn new(x: T, y: T) -> (p: Self)
        ensures
            p.0.x == x,
            p.0.y == y,
    {
        Point(Coordinate { x, y })
    }
}

/// A straight segment between two coordinates, which may coincide.
#[derive(Debug)]
pub struct Line<T> {
    pub start: Coordinate<T>,
    pub end: Coordinate<T>,
}

impl<T: Copy> Clone for Line<T> {
    fn clone(&self) -> (c: Self)
        ensures
            c == *self,
    {
        *self
    }
}

impl<T: Copy> Copy for Line<T> {

}

impl<T: Scalar> View for Line<T> {
    type V = Segment;

    open spec fn view(&self) -> Segment {
        Segment { start: self.start@, end: self.end@ }
    }
}

impl<T: Scalar> Line<T> {
    pub fn new(start: Coordinate<T>, end: Coordinate<T>) -> (l: Self)
        ensures
            l.start == start,
            l.end == end,
    {
        Line { start, end }
    }
}

/// An ordered sequence of coordinates: an open polyline, or, where it is the
/// boundary of a polygon, a ring.
#[derive(Debug)]
pub struct LineString<T>(pub Vec<Coordinate<T>>);

impl<T: Scalar> Clone for LineString<T> {
    fn clone(&self) -> (l: Self)
        ensures
            l@ == self@,
    {
        let mut coords: Vec<Coordinate<T>> = Vec::new();
        let mut i: usize = 0;
        while i < self.0.len()
            invariant
                i <= self.0.len(),
                coords.len() == i,
                forall|j: int| 0 <= j < i ==> coords@[j] == self.0@[j],
            decreases self.0.len() - i,
        {
            coords.push(self.0[i]);
            i += 1;
        }
        let l: LineString<T> = LineString(coords);
        assert(l@ =~= self@);
        l
    }
}

impl<T: Scalar> View for LineString<T> {
    type V = Seq<Pt>;

    open spec fn view(&self) -> Seq<Pt> {
        Seq::new(self.0@.len(), |i: int| self.0@[i]@)
    }
}

impl<T: Scalar> LineString<T> {
    pub fn new(coords: Vec<Coordinate<T>>) -> (l: Self)
        ensures
            l.0 == coords,
    {
        LineString(coords)
    }

    /// The polyline through the given `(x, y)` pairs, in their order.
    pub fn from_pairs(pairs: Vec<(T, T)>) -> (l: Self)
        ensures
            l@.len() == pairs@.len(),
            forall|i: int|
                0 <= i < pairs@.len() ==> l@[i] == pt(
                    (#[trigger] pairs@[i]).0.value(),
                    pairs@[i].1.value(),
                ),
    {
        let mut coords: Vec<Coordinate<T>> = Vec::new();
        let mut i: usize = 0;
        while i < pairs.len()
            invariant
                i <= pairs.len(),
                coords.len() == i,
                forall|j: int|
                    0 <= j < i ==> (#[trigger] coords@[j])@ == pt(
                        pairs@[j].0.value(),
                        pairs@[j].1.value(),
                    ),
            decreases pairs.len() - i,
        {
            let pair: (T, T) = pairs[i];
            coords.push(Coordinate { x: pair.0, y: pair.1 });
            i += 1;
        }
        LineString(coords)
    }
}

/// A polygon: an exterior ring and the rings of its holes.
#[derive(Debug)]
pub struct Polygon<T> {
    exterior: LineString<T>,
    interiors: Vec<LineString<T>>,
}

impl<T: Scalar> Clone for Polygon<T> {
    fn clone(&self) -> (p: Self)
        ensures
            p@ == self@,
    {
        let mut interiors: Vec<LineString<T>> = Vec::new();
        let mut i: usize = 0;
        while i < self.interiors.len()
            invariant
                i <= self.interiors.len(),
                interiors.len() == i,
                forall|j: int| 0 <= j < i ==> interiors@[j]@ == self.interiors@[j]@,
            decreases self.interiors.len() - i,
        {
            interiors.push(self.interiors[i].clone());
            i += 1;
        }
        let p: Polygon<T> = Polygon { exterior: self.exterior.clone(), interiors };
        assert(p@.holes =~= self@.holes);
        p
    }
}

impl<T: Scalar> View for Polygon<T> {
    type V = Region;

    closed spec fn view(&self) -> Region {
        Region {
            exterior: self.exterior@,
            holes: Seq::new(self.interiors@.len(), |i: int| self.interiors@[i]@),
        }
    }
}

impl<T: Scalar> Polygon<T> {
    /// The polygon with the given rings, taken as they are.
    pub fn new(exterior: LineString<T>, interiors: Vec<LineString<T>>) -> (p: Self)
        ensures
            p@.exterior == exterior@,
            p@.holes.len() == interiors@.len(),
            forall|i: int| 0 <= i < interiors@.len() ==> p@.holes[i] == (#[trigger] interiors@[i])@,
    {
        Polygon { exterior, interiors }
    }

    pub fn exterior(&self) -> (ring: &LineString<T>)
        ensures
            ring@ == self@.exterior,
    {
        &self.exterior
    }

    pub fn interiors(&self) -> (rings: &Vec<LineString<T>>)
        ensures
            rings@.len() == self@.holes.len(),
            forall|i: int| 0 <= i < rings@.len() ==> (#[trigger] rings@[i])@ == self@.holes[i],
    {
        &self.interiors
    }
}

/// An axis-aligned rectangle.
#[derive(Debug)]
pub struct Rect<T: Scalar> {
    min: Coordinate<T>,
    max: Coordinate<T>,
}

impl<T: Scalar> Clone for Rect<T> {
    fn clone(&self) -> (r: Self)
        ensures
            r == *self,
    {
        *self
    }
}

impl<T: Scalar> Copy for Rect<T> {

}

impl<T: Scalar> View for Rect<T> {
    type V = Bounds;

    closed spec fn view(&self) -> Bounds {
        Bounds { min: self.min@, max: self.max@ }
    }
}

impl<T: Scalar> Rect<T> {
    #[verifier::type_invariant]
    spec fn corners_ordered(self) -> bool {
        self@.ordered()
    }

    /// The smallest rectangle that holds the two coordinates, which may be
    /// any two opposite corners of it.
    pub fn new(c1: Coordinate<T>, c2: Coordinate<T>) -> (r: Self)
        ensures
            r@.ordered(),
            r@.min == pt(lower(c1@.x, c2@.x), lower(c1@.y, c2@.y)),
            r@.max == pt(upper(c1@.x, c2@.x), upper(c1@.y, c2@.y)),
    {
        let (min_x, max_x): (T, T) = if c2.x.less_than(c1.x) {
            (c2.x, c1.x)
        } else {
            (c1.x, c2.x)
        };
        let (min_y, max_y): (T, T) = if c2.y.less_than(c1.y) {
            (c2.y, c1.y)
        } else {
            (c1.y, c2.y)
        };
        Rect { min: Coordinate { x: min_x, y: min_y }, max: Coordinate { x: max_x, y: max_y } }
    }

    /// The lower left corner.
    pub fn min(&self) -> (c: Coordinate<T>)
        ensures
            c@ == self@.min,
            self@.ordered(),
    {
        proof {
            use_type_invariant(self);
        }
        self.min
    }

    /// The upper right corner.
    pub fn max(&self) -> (c: Coordinate<T>)
        ensures
            c@ == self@.max,
            self@.ordered(),
    {
        proof {
            use_type_invariant(self);
        }
        self.max
    }

    /// The rectangle as a polygon without holes.
    pub fn to_polygon(&self) -> (p: Polygon<T>)
        ensures
            p@ == self@.region(),
    {
        let mut ring: Vec<Coordinate<T>> = Vec::new();
        ring.push(Coordinate { x: self.min.x, y: self.min.y });
        ring.push(Coordinate { x: self.min.x, y: self.max.y });
        ring.push(Coordinate { x: self.max.x, y: self.max.y });
        ring.push(Coordinate { x: self.max.x, y: self.min.y });
        ring.push(Coordinate { x: self.min.x, y: self.min.y });
        let exterior: LineString<T> = LineString(ring);
        let p: Polygon<T> = Polygon::new(exterior, Vec::new());
        proof {
            assert(p@.exterior =~= self@.region().exterior);
            assert(p@.holes =~= self@.region().holes);
        }
        p
    }
}

} // verus!
