//! Combinatorial core of a parametric solid-modelling toolkit.
//!
//! The crate builds indexed meshes: it triangulates polygons by ear clipping
//! and stitches rings of vertices into closed polyhedra.  Coordinates never
//! enter the crate.  A point is a value of a type the caller chooses, and
//! every geometric question (which way three points turn, whether a point
//! lies in a triangle, where a lifted vertex sits) is put to a function that
//! the caller supplies.  What is proved here is the bookkeeping: which
//! indices are emitted, in which order, and that every face refers to
//! vertices that exist.
//!
//! Conventions: profiles and faces are listed clockwise, indices are
//! zero-based.

pub mod area;
pub mod curve;
pub mod indices;
pub mod polyhedron;
pub mod profile;
pub mod projection;
pub mod rng;
pub mod text;
pub mod thread;
pub mod triangulate;

pub use curve::{CubicBezier, CubicBezierChain};
pub use indices::{Faces, Indices, Paths};
pub use polyhedron::{ExtrudeError, Polyhedron};
pub use projection::{choose_projection, triangulate3d, triangulate3d_rev, Axis, Projection};
pub use rng::MersenneTwister;
pub use thread::{nearest_size, threaded_shell, Taper};
pub use triangulate::{triangulate, triangulate_rev, TriangulateError};
