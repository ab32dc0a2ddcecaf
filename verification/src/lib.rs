//! Goldberg polyhedra built from an icosahedron whose faces are subdivided
//! into a triangular lattice.
//!
//! Each of the twenty faces of the icosahedron is cut into `n * n` small
//! triangles. The corners of the polyhedron are these small triangles, and
//! its faces are the pentagons and hexagons around the lattice points: twelve
//! pentagons around the corners of the icosahedron, hexagons everywhere else.
//!
//! The executable part is in [`subdivided_triangle`], [`packed_index`],
//! [`seed`], [`face`] and [`hexglobe`]. What it computes is stated over the
//! models in [`lattice_math`], [`lattice_model`] and [`polyhedron`]. The
//! modules [`incidence`], [`consistency`], [`sides`] and [`counting`] prove
//! what the numbering of the faces means: which triangles meet at a point,
//! that the face of a point is made of the triangles around it, that
//! neighbouring faces have exactly a side in common, and how many pairs of
//! neighbours there are.

pub mod consistency;
pub mod counting;
pub mod denominator;
pub mod error;
pub mod face;
pub mod fixed;
pub mod hexglobe;
pub mod incidence;
pub mod lattice_math;
pub mod lattice_model;
pub mod lattice_vertex;
pub mod packed_index;
pub mod polyhedron;
pub mod seed;
pub mod sequences;
pub mod sides;
pub mod subdivided_triangle;
pub mod triangle;

pub use error::GlobeError;
pub use face::{ExactFace, MeshFace};
pub use hexglobe::HexGlobe;
pub use lattice_vertex::LatticeVertex;
pub use packed_index::PackedIndex;
pub use seed::Seed;
pub use subdivided_triangle::SubdividedTriangle;
pub use triangle::Triangle;
