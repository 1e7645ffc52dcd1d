//! Conway-style polyhedron operators: `join`, `kis` and their composition
//! `meta`.
//!
//! A mesh holds vertex positions on an integer grid (each coordinate within
//! `geometry::COORD_MAX`), faces as loops of vertex indices in winding order,
//! and a provenance name. Operator parameters (`ratio`, `height`) are given
//! in thousandths of one, so `geometry::UNIT` stands for 1.0. Every operator
//! builds a new mesh and preserves well-formedness (`Polyhedron::wf`).
pub mod geometry;
pub mod mesh;
pub mod join;
pub mod kis;
pub mod meta;
