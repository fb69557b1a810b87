//! Loads Wavefront-style OBJ text into an indexed triangle mesh: parallel
//! welded attribute arrays plus a list of triangle index triples.
//!
//! The pass is single-threaded and single-pass: attribute records (`v`, `vt`,
//! `vn`) accumulate raw pools, face records (`f`) resolve per-corner
//! references against those pools, weld distinct corner-attribute
//! combinations into a minimal vertex set, and fan-triangulate quads.
//! The first error aborts the whole load; no partial mesh is ever returned.

pub mod err;
pub mod geom;
pub mod loader;
pub mod num;
pub mod tok;

pub use err::ObjError;
pub use loader::{load_bytes, Face, MeshData, ObjLoader, VertexKey};
