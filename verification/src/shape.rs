//! Any shape against any shape: the closed set of shape kinds, and the one
//! predicate that is decided by the kinds of the two shapes.

use vstd::prelude::*;
use crate::geometry::{Line, LineString, Point, Polygon, Rect};
use crate::intersects::Intersects;
use crate::kernel::Scalar;
use crate::model::{
    Bounds,
    Pt,
    Region,
    Segment,
    on_segment,
    path_meets_point,
    path_meets_segment,
    paths_meet,
    segments_meet,
};
use crate::polygon::{
    region_meets_path,
    region_meets_point,
    region_meets_region,
    region_meets_segment,
};

verus! {

/// A shape of any of the five kinds.
#[derive(Debug)]
pub enum Shape<T: Scalar> {
    Point(Point<T>),
    Line(Line<T>),
    LineString(LineString<T>),
    Polygon(Polygon<T>),
    Rect(Rect<T>),
}

/// What a [`Shape`] stands for.
pub enum Figure {
    Point(Pt),
    Segment(Segment),
    Path(Seq<Pt>),
    Region(Region),
    Bounds(Bounds),
}

impl<T: Scalar> View for Shape<T> {
    type V = Figure;

    open spec fn view(&self) -> Figure {
        match self {
            Shape::Point(p) => Figure::Point(p@),
            Shape::Line(l) => Figure::Segment(l@),
            Shape::LineString(l) => Figure::Path(l@),
            Shape::Polygon(p) => Figure::Region(p@),
            Shape::Rect(r) => Figure::Bounds(r@),
        }
    }
}

/// Whether a point and a figure share a point.
pub open spec fn point_meets_figure(p: Pt, f: Figure) -> bool {
    match f {
        Figure::Point(q) => p == q,
        Figure::Segment(s) => on_segment(p, s),
        Figure::Path(l) => path_meets_point(l, p),
        Figure::Region(r) => region_meets_point(r, p),
        Figure::Bounds(b) => region_meets_point(b.region(), p),
    }
}

/// Whether a segment and a figure share a point.
pub open spec fn segment_meets_figure(s: Segment, f: Figure) -> bool {
    match f {
        Figure::Point(q) => on_segment(q, s),
        Figure::Segment(t) => segments_meet(s, t),
        Figure::Path(l) => path_meets_segment(l, s),
        Figure::Region(r) => region_meets_segment(r, s),
        Figure::Bounds(b) => region_meets_segment(b.region(), s),
    }
}

/// Whether a polyline and a figure share a point.
pub open spec fn path_meets_figure(l: Seq<Pt>, f: Figure) -> bool {
    match f {
        Figure::Point(q) => path_meets_point(l, q),
        Figure::Segment(t) => path_meets_segment(l, t),
        Figure::Path(m) => paths_meet(l, m),
        Figure::Region(r) => region_meets_path(r, l),
        Figure::Bounds(b) => region_meets_path(b.region(), l),
    }
}

/// Whether a region and a figure share a point.
pub open spec fn region_meets_figure(r: Region, f: Figure) -> bool {
    match f {
        Figure::Point(q) => region_meets_point(r, q),
        Figure::Segment(t) => region_meets_segment(r, t),
        Figure::Path(m) => region_meets_path(r, m),
        Figure::Region(o) => region_meets_region(r, o),
        Figure::Bounds(b) => region_meets_region(r, b.region()),
    }
}

/// Whether a rectangle and a figure share a point. Against a region the
/// rectangle is the second of the two, as it is when the region is asked.
pub open spec fn bounds_meets_figure(b: Bounds, f: Figure) -> bool {
    match f {
        Figure::Region(o) => region_meets_region(o, b.region()),
        _ => region_meets_figure(b.region(), f),
    }
}

/// Whether two figures share a point.
pub open spec fn figures_meet(a: Figure, b: Figure) -> bool {
    match a {
        Figure::Point(p) => point_meets_figure(p, b),
        Figure::Segment(s) => segment_meets_figure(s, b),
        Figure::Path(l) => path_meets_figure(l, b),
        Figure::Region(r) => region_meets_figure(r, b),
        Figure::Bounds(r) => bounds_meets_figure(r, b),
    }
}

impl<T: Scalar> Intersects<Shape<T>> for Point<T> {
    open spec fn meets(&self, rhs: &Shape<T>) -> bool {
        point_meets_figure(self@, rhs@)
    }

    fn intersects(&self, rhs: &Shape<T>) -> (r: bool) {
        match rhs {
            Shape::Point(q) => self.intersects(q),
            Shape::Line(l) => self.intersects(l),
            Shape::LineString(l) => self.intersects(l),
            Shape::Polygon(p) => self.intersects(p),
            Shape::Rect(b) => self.intersects(b),
        }
    }
}

impl<T: Scalar> Intersects<Shape<T>> for Line<T> {
    open spec fn meets(&self, rhs: &Shape<T>) -> bool {
        segment_meets_figure(self@, rhs@)
    }

    fn intersects(&self, rhs: &Shape<T>) -> (r: bool) {
        match rhs {
            Shape::Point(q) => self.intersects(q),
            Shape::Line(l) => self.intersects(l),
            Shape::LineString(l) => self.intersects(l),
            Shape::Polygon(p) => self.intersects(p),
            Shape::Rect(b) => self.intersects(b),
        }
    }
}

impl<T: Scalar> Intersects<Shape<T>> for LineString<T> {
    open spec fn meets(&self, rhs: &Shape<T>) -> bool {
        path_meets_figure(self@, rhs@)
    }

    fn intersects(&self, rhs: &Shape<T>) -> (r: bool) {
        match rhs {
            Shape::Point(q) => self.intersects(q),
            Shape::Line(l) => self.intersects(l),
            Shape::LineString(l) => self.intersects(l),
            Shape::Polygon(p) => self.intersects(p),
            Shape::Rect(b) => self.intersects(b),
        }
    }
}

impl<T: Scalar> Intersects<Shape<T>> for Polygon<T> {
    open spec fn meets(&self, rhs: &Shape<T>) -> bool {
        region_meets_figure(self@, rhs@)
    }

    fn intersects(&self, rhs: &Shape<T>) -> (r: bool) {
        match rhs {
            Shape::Point(q) => self.intersects(q),
            Shape::Line(l) => self.intersects(l),
            Shape::LineString(l) => self.intersects(l),
            Shape::Polygon(p) => self.intersects(p),
            Shape::Rect(b) => self.intersects(b),
        }
    }
}

impl<T: Scalar> Intersects<Shape<T>> for Rect<T> {
    open spec fn meets(&self, rhs: &Shape<T>) -> bool {
        bounds_meets_figure(self@, rhs@)
    }

    fn intersects(&self, rhs: &Shape<T>) -> (r: bool) {
        match rhs {
            Shape::Point(q) => self.intersects(q),
            Shape::Line(l) => self.intersects(l),
            Shape::LineString(l) => self.intersects(l),
            Shape::Polygon(p) => self.intersects(p),
            Shape::Rect(b) => self.intersects(b),
        }
    }
}

impl<T: Scalar> Intersects<Shape<T>> for Shape<T> {
    open spec fn meets(&self, rhs: &Shape<T>) -> bool {
        figures_meet(self@, rhs@)
    }

    fn intersects(&self, rhs: &Shape<T>) -> (r: bool) {
        match self {
            Shape::Point(p) => p.intersects(rhs),
            Shape::Line(l) => l.intersects(rhs),
            Shape::LineString(l) => l.intersects(rhs),
            Shape::Polygon(p) => p.intersects(rhs),
            Shape::Rect(b) => b.intersects(rhs),
        }
    }
}

} // verus!
