//! The orientation kernel: the exact turning direction of three points, and
//! the coordinate types that supply it.
//!
//! All arithmetic is exact. The turning direction of three points with 64-bit
//! coordinates needs the sign of a difference of two products of 65-bit
//! numbers, which no machine integer holds; the kernel compares the two
//! products by sign and magnitude instead of subtracting them.

use vstd::prelude::*;
use crate::geometry::Coordinate;
use crate::model::{Pt, Segment, cross, in_span, on_segment};

verus! {

/// The turning direction of an ordered triple of points.
#[derive(Clone, Copy, Debug, PartialEq, Eq, Structural)]
pub enum Orientation {
    CounterClockwise,
    Clockwise,
    Collinear,
}

/// The turning direction of `a`, `b`, `c`, read off the sign of [`cross`].
pub open spec fn turn(a: Pt, b: Pt, c: Pt) -> Orientation {
    let d = cross(a, b, c);
    if d > 0 {
        Orientation::CounterClockwise
    } else if d < 0 {
        Orientation::Clockwise
    } else {
        Orientation::Collinear
    }
}

/// The point with the given coordinates.
pub open spec fn pt(x: int, y: int) -> Pt {
    Pt { x, y }
}

/// A coordinate type: a number that denotes an integer, can be compared, and
/// for which the turning direction of three points can be decided exactly.
pub trait Scalar: Copy {
    /// The integer that this number denotes.
    spec fn value(self) -> int;

    /// Strict order of the denoted integers.
    fn less_than(self, other: Self) -> (r: bool)
        ensures
            r == (self.value() < other.value()),
    ;

    /// Equality of the denoted integers.
    fn same(self, other: Self) -> (r: bool)
        ensures
            r == (self.value() == other.value()),
    ;

    /// The turning direction of the points `(ax, ay)`, `(bx, by)`, `(cx, cy)`.
    fn orient2d(ax: Self, ay: Self, bx: Self, by: Self, cx: Self, cy: Self) -> (o: Orientation)
        ensures
            o == turn(
                pt(ax.value(), ay.value()),
                pt(bx.value(), by.value()),
                pt(cx.value(), cy.value()),
            ),
    ;
}

/// The turning direction of three coordinates.
pub fn orientation<T: Scalar>(a: &Coordinate<T>, b: &Coordinate<T>, c: &Coordinate<T>) -> (o:
    Orientation)
    ensures
        o == turn(a@, b@, c@),
{
    T::orient2d(a.x, a.y, b.x, b.y, c.x, c.y)
}

/// Whether `v` lies between `a` and `b`, whichever of them is the smaller.
pub fn spans<T: Scalar>(a: T, b: T, v: T) -> (r: bool)
    ensures
        r == in_span(v.value(), a.value(), b.value()),
{
    (!v.less_than(a) && !b.less_than(v)) || (!v.less_than(b) && !a.less_than(v))
}

/// Whether `c` lies on the segment from `a` to `b`: on one line with them
/// and between them.
pub fn is_between<T: Scalar>(a: &Coordinate<T>, b: &Coordinate<T>, c: &Coordinate<T>) -> (r: bool)
    ensures
        r == on_segment(c@, Segment { start: a@, end: b@ }),
{
    spans(a.x, b.x, c.x) && spans(a.y, b.y, c.y) && orientation(a, b, c) == Orientation::Collinear
}

/// The range of a difference of two 64-bit numbers.
spec fn is_difference(d: int) -> bool {
    -0x1_0000_0000_0000_0000 < d < 0x1_0000_0000_0000_0000
}

/// A product kept as sign and magnitude.
struct SignedProduct {
    negative: bool,
    magnitude: u128,
}

impl SignedProduct {
    spec fn value(self) -> int {
        if self.negative {
            -(self.magnitude as int)
        } else {
            self.magnitude as int
        }
    }
}

proof fn lemma_product_magnitude(a: int, b: int, ma: int, mb: int)
    by (nonlinear_arith)
    requires
        ma == if a < 0 { -a } else { a },
        mb == if b < 0 { -b } else { b },
        ma < 0x1_0000_0000_0000_0000,
        mb < 0x1_0000_0000_0000_0000,
    ensures
        0 <= ma * mb < 0x1_0000_0000_0000_0000_0000_0000_0000_0000,
        ((a < 0) != (b < 0)) ==> a * b == -(ma * mb),
        ((a < 0) == (b < 0)) ==> a * b == ma * mb,
{
}

fn magnitude(d: i128) -> (m: u128)
    requires
        is_difference(d as int),
    ensures
        m as int == if d < 0 { -d } else { d as int },
{
    if d < 0 {
        (-d) as u128
    } else {
        d as u128
    }
}

fn signed_product(a: i128, b: i128) -> (r: SignedProduct)
    requires
        is_difference(a as int),
        is_difference(b as int),
    ensures
        r.value() == a * b,
        r.negative ==> r.magnitude > 0,
{
    let ma: u128 = magnitude(a);
    let mb: u128 = magnitude(b);
    proof {
        lemma_product_magnitude(a as int, b as int, ma as int, mb as int);
    }
    let m: u128 = ma * mb;
    SignedProduct { negative: ((a < 0) != (b < 0)) && m != 0, magnitude: m }
}

/// The turning direction of three points with 64-bit coordinates.
pub fn orient_i64(ax: i64, ay: i64, bx: i64, by: i64, cx: i64, cy: i64) -> (o: Orientation)
    ensures
        o == turn(pt(ax as int, ay as int), pt(bx as int, by as int), pt(cx as int, cy as int)),
{
    let left: SignedProduct = signed_product(bx as i128 - ax as i128, cy as i128 - ay as i128);
    let right: SignedProduct = signed_product(by as i128 - ay as i128, cx as i128 - ax as i128);
    if left.negative == right.negative {
        if left.magnitude == right.magnitude {
            Orientation::Collinear
        } else if (left.magnitude > right.magnitude) != left.negative {
            Orientation::CounterClockwise
        } else {
            Orientation::Clockwise
        }
    } else if right.negative {
        Orientation::CounterClockwise
    } else {
        Orientation::Clockwise
    }
}

impl Scalar for i64 {
    open spec fn value(self) -> int {
        self as int
    }

    fn less_than(self, other: i64) -> (r: bool) {
        self < other
    }

    fn same(self, other: i64) -> (r: bool) {
        self == other
    }

    fn orient2d(ax: i64, ay: i64, bx: i64, by: i64, cx: i64, cy: i64) -> (o: Orientation) {
        orient_i64(ax, ay, bx, by, cx, cy)
    }
}

impl Scalar for i32 {
    open spec fn value(self) -> int {
        self as int
    }

    fn less_than(self, other: i32) -> (r: bool) {
        self < other
    }

    fn same(self, other: i32) -> (r: bool) {
        self == other
    }

    fn orient2d(ax: i32, ay: i32, bx: i32, by: i32, cx: i32, cy: i32) -> (o: Orientation) {
        orient_i64(ax as i64, ay as i64, bx as i64, by as i64, cx as i64, cy as i64)
    }
}

} // verus!
