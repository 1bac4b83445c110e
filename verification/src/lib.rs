//! A queryable and mutable half-edge representation of a two-dimensional
//! triangulated surface.
//!
//! The central type is [`simplicial2::Simplicial2`], a purely combinatorial
//! simplicial 2-complex: arenas of half-edges and triangles connected by
//! integer indices, an opposite-halfedge pairing, and an optional per-node
//! adjacency index.  It is built either empty (then grown one triangle at a
//! time) or in bulk from an unordered triangle list, and is navigated
//! through lightweight handle types that carry a reference to the container
//! plus an index.

pub mod errors;
pub mod iterators;
pub mod simplicial2;
