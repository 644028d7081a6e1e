//! Intersection predicates for planar shapes with integer coordinates.
//!
//! The crate answers one question: do two shapes share at least one point?
//! Shapes are points, segments, open polylines, polygons with holes and
//! axis-aligned rectangles. Every predicate is a pure function, and every
//! contract is stated over a mathematical model of the shapes in the integer
//! plane (see [`model`]).
//!
//! The shapes and the numbers they are made of are in [`geometry`] and
//! [`kernel`]. The position of a point relative to a ring is decided in
//! [`ring`], strict containment in [`contains`]. The predicate itself is the
//! trait [`Intersects`], implemented for every ordered pair of shape kinds in
//! [`point`], [`line`], [`line_string`], [`polygon`], [`rect`] and
//! [`symmetric`], and for shapes of any kind in [`shape`].
//!
//! What holds of the predicates in general is proved in [`laws`]. Three
//! modules tie the model to plain geometry: [`common_point`] proves that two
//! segments meet exactly when they have a point in common, [`triangle_laws`]
//! that a point lies inside a triangle exactly when the ray from it says so,
//! and [`rect_laws`] that a rectangle meets exactly the points, segments and
//! polylines that reach its bounds. [`ring_laws`] proves that the position
//! of a point does not depend on how a ring is written down; [`arith`] holds
//! the facts about products that these proofs rest on.

pub mod model;
pub mod kernel;
pub mod geometry;
pub mod ring;
pub mod contains;
pub mod intersects;
pub mod point;
pub mod line;
pub mod line_string;
pub mod polygon;
pub mod rect;
pub mod symmetric;
pub mod shape;
pub mod arith;
pub mod laws;
pub mod common_point;
pub mod ring_laws;
pub mod triangle_laws;
pub mod rect_laws;

pub use crate::contains::Contains;
pub use crate::geometry::{Coordinate, Line, LineString, Point, Polygon, Rect};
pub use crate::intersects::Intersects;
pub use crate::kernel::{Orientation, Scalar, is_between, orientation};
pub use crate::ring::{CoordPos, coord_pos_relative_to_ring};
pub use crate::shape::Shape;
