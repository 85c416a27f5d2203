//! Verified topology of a structured triangular mesh for a finite-volume
//! shallow-water solver.
//!
//! A rectangular domain is discretized as an `nx` by `ny` lattice of nodes;
//! every grid cell is split into two counter-clockwise triangles. This crate
//! builds and verifies the discrete structure: triangle-to-node connectivity,
//! shared-edge neighbor adjacency, and the deduplicated edge list with
//! left/right triangle references. Floating-point geometry (coordinates,
//! areas, normals, the flow solver itself) is computed by the surrounding
//! application on top of this verified topology.

pub mod edges;
pub mod grid;
pub mod manifold;
pub mod mesh;
pub mod neighbors;

