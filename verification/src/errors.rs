use vstd::prelude::*;

verus! {

/// Raised when an insertion would break the 2-manifold / orientation
/// invariants of a [`crate::simplicial2::Simplicial2`].  The offending
/// insertion is rejected atomically and the container is left untouched.
#[derive(Clone, Copy, PartialEq, Eq, Structural, Debug)]
pub enum TopologyError {
    /// The requested triangle repeats a node value, so it has no three
    /// pairwise distinct corners.  The payload carries the three values
    /// as they were requested.
    DegenerateTriangle(usize, usize, usize),
    /// The requested triangle would create a second half-edge with the
    /// same ordered endpoint pair.  The payload carries the directed
    /// edge (origin, destination) that is already present.
    ///
    /// This also covers the over-connected (non-2-manifold) case: once an
    /// edge is shared by two consistently wound triangles, both of its
    /// directions are taken, so a third triangle on that edge must repeat
    /// one of them.
    DuplicateHalfEdge(usize, usize),
}

/// Raised by the bounds-checked accessors when the requested half-edge or
/// triangle index is not currently allocated.
#[derive(Clone, Copy, PartialEq, Eq, Structural, Debug)]
pub struct IndexOutOfRangeError {
    /// The index that was requested.
    pub index: usize,
}

/// Raised when navigation asks for the opposite of a boundary half-edge,
/// which has no pairing.  This is distinct from [`IndexOutOfRangeError`]:
/// the half-edge exists, but the requested relation does not.
#[derive(Clone, Copy, PartialEq, Eq, Structural, Debug)]
pub struct UnboundHalfEdgeError {
    /// The index of the boundary half-edge.
    pub halfedge: usize,
}

} // verus!
