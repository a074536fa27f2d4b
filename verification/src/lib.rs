//! The verified core of a shadow-mapped renderer: the geometric algebra of
//! its transforms, the convex geometry of its shadow fit and the decisions
//! of its frame loop.
//!
//! The library computes with scalars of any type. It never adds,
//! multiplies or compares two of them itself: it asks oracles that its
//! caller hands in, and decides which question to ask next and what to do
//! with the answer. Every function states what it returns under every
//! model that the oracles answer by, and the laws of the library are proved
//! for the model that computes with whole numbers exactly. A caller that
//! hands in the arithmetic of a machine gets the same operations in the
//! same order, and the laws up to rounding.
//!
//! The scalars and the kernel:
//! - `scalar`: the operations on scalars, their oracles and their models.
//! - `math`: vectors, bivectors, rotors and affine maps.
//! - `algebra`: the laws of the kernel under exact arithmetic.
//! - `rect`: bounding rectangles and their overlap.
//! - `scene`: the maps of a camera, a light and the things drawn.
//!
//! The convex geometry:
//! - `pivot`: the lowest point, around which the hull is scanned.
//! - `hull`: the stack scan of Graham's convex hull algorithm, over an
//!   oracle for the orientation of three points.
//! - `enclosure`: the scan yields the convex hull when the oracle obeys the
//!   laws of orientation.
//! - `plane`: points with exact coordinates obey those laws.
//! - `intersect`: the edge walk of O'Rourke's convex polygon intersection,
//!   over an oracle for the position of two edges.
//! - `sort`: the sort of the points by angle, by the standard library.
//! - `polygon`: the oracles of hull and intersection for polygons of
//!   points, and the intersection as points.
//! - `fit`: the footprint of a view volume behind a plane and the fit of a
//!   light to it.
//!
//! The frame loop:
//! - `input`: the keys held in this frame and the last, one bit per key.

pub mod algebra;
pub mod enclosure;
pub mod fit;
pub mod hull;
pub mod input;
pub mod intersect;
pub mod math;
pub mod pivot;
pub mod plane;
pub mod polygon;
pub mod rect;
pub mod scalar;
pub mod scene;
pub mod sort;
