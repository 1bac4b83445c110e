use vstd::prelude::*;

use crate::errors::TopologyError;

verus! {

/// One directed traversal of an edge: the atomic navigation unit.
///
/// A half-edge is owned by exactly one triangle, knows the half-edge that
/// follows it around that triangle, and is optionally paired with the
/// reverse-oriented half-edge of the neighbouring triangle.  All relations
/// are stored as indices into the owning container's arenas, never as
/// references.
#[derive(Clone, Copy, Debug)]
pub struct HalfEdge {
    /// Node value at the origin of this half-edge.
    pub first_node: usize,
    /// Index of the next half-edge around the same triangle.
    pub next: usize,
    /// Index of the reverse-oriented half-edge on the adjacent triangle,
    /// or `None` for a boundary half-edge.
    pub opposite: Option<usize>,
    /// Index of the triangle this half-edge bounds.
    pub triangle: usize,
}

/// A face: an ordered triple of half-edges in cyclic order.
#[derive(Clone, Copy, Debug)]
pub struct Triangle {
    /// Indices of the three bounding half-edges, in cyclic order.
    pub halfedges: [usize; 3],
}

/// Per-node adjacency record: one node value together with the half-edges
/// whose origin is that value, in insertion order.
#[derive(Clone, Debug)]
pub struct NodeHalfEdges {
    /// The node value this record belongs to.
    pub node: usize,
    /// Indices of all half-edges whose origin is `node`, in increasing
    /// index order (which is insertion order, since nothing is removed).
    pub halfedges: Vec<usize>,
}

/// A half-edge based simplicial 2-complex: arenas of half-edges and
/// triangles, an opposite-halfedge pairing, and an optional per-node
/// adjacency index.
///
/// The structure may have boundary (half-edges without an opposite) but is
/// always an orientable 2-manifold patch: no two half-edges share the same
/// ordered endpoint pair, so each undirected edge is shared by at most two
/// triangles with consistent winding.
///
/// Triangles and half-edges are only ever added, never removed, so arena
/// indices are stable for the life of the container.
#[derive(Clone)]
pub struct Simplicial2 {
    /// Half-edge arena.  Triangle `t` owns exactly the half-edges
    /// `3*t`, `3*t + 1` and `3*t + 2`.
    pub halfedges: Vec<HalfEdge>,
    /// Triangle arena.
    pub triangles: Vec<Triangle>,
    /// Whether the per-node adjacency index is maintained.  Chosen at
    /// construction time, for the container's whole life.
    pub register_node_halfedges: bool,
    /// The per-node adjacency index; empty unless
    /// `register_node_halfedges` is set.
    pub node_halfedges: Vec<NodeHalfEdges>,
}

/// True when the three node values cannot form a triangle because two of
/// them coincide.
pub open spec fn degenerate_triple(node0: usize, node1: usize, node2: usize) -> bool {
    node0 == node1 || node1 == node2 || node2 == node0
}

impl Simplicial2 {
    /// The half-edge record stored at index `h`.
    pub open spec fn halfedge(self, h: int) -> HalfEdge {
        self.halfedges@[h]
    }

    /// Whether `h` is a currently allocated half-edge index.
    pub open spec fn valid_halfedge_index(self, h: int) -> bool {
        0 <= h < self.halfedges@.len()
    }

    /// Whether `t` is a currently allocated triangle index.
    pub open spec fn valid_triangle_index(self, t: int) -> bool {
        0 <= t < self.triangles@.len()
    }

    /// Node value at the origin of half-edge `h`.
    pub open spec fn first_node_of(self, h: int) -> usize {
        self.halfedge(h).first_node
    }

    /// Index of the half-edge following `h` around its triangle.
    pub open spec fn next_of(self, h: int) -> usize {
        self.halfedge(h).next
    }

    /// Node value at the destination of half-edge `h`: the origin of the
    /// half-edge that follows it.
    pub open spec fn last_node_of(self, h: int) -> usize {
        self.first_node_of(self.next_of(h) as int)
    }

    /// The ordered endpoint pair (origin, destination) of half-edge `h`.
    pub open spec fn halfedge_nodes(self, h: int) -> (usize, usize) {
        (self.first_node_of(h), self.last_node_of(h))
    }

    /// Whether some half-edge runs from `node0` to `node1`.
    pub open spec fn has_halfedge(self, node0: usize, node1: usize) -> bool {
        exists|h: int|
            self.valid_halfedge_index(h) && #[trigger] self.halfedge_nodes(h) == (node0, node1)
    }

    /// The three origin node values of triangle `t`, in stored cyclic order.
    pub open spec fn triangle_nodes(self, t: int) -> (usize, usize, usize) {
        (
            self.first_node_of(3 * t),
            self.first_node_of(3 * t + 1),
            self.first_node_of(3 * t + 2),
        )
    }

    /// Local shape of triangle `t`: it owns exactly the half-edges
    /// `3*t .. 3*t + 2`, whose `next` pointers form the 3-cycle, which all
    /// point back at `t`, and whose origin nodes are pairwise distinct.
    pub open spec fn triangle_wf(self, t: int) -> bool {
        let b = 3 * t;
        &&& self.triangles@[t].halfedges@[0] == b as usize
        &&& self.triangles@[t].halfedges@[1] == (b + 1) as usize
        &&& self.triangles@[t].halfedges@[2] == (b + 2) as usize
        &&& self.halfedge(b).next == (b + 1) as usize
        &&& self.halfedge(b + 1).next == (b + 2) as usize
        &&& self.halfedge(b + 2).next == b as usize
        &&& self.halfedge(b).triangle == t as usize
        &&& self.halfedge(b + 1).triangle == t as usize
        &&& self.halfedge(b + 2).triangle == t as usize
        &&& self.halfedge(b).first_node != self.halfedge(b + 1).first_node
        &&& self.halfedge(b + 1).first_node != self.halfedge(b + 2).first_node
        &&& self.halfedge(b + 2).first_node != self.halfedge(b).first_node
    }

    /// Local shape of half-edge `h`: its stored indices are in range, three
    /// `next` steps lead back to it without leaving its triangle, and its
    /// opposite, when present, is the mutual reverse-oriented pairing —
    /// when absent, no reverse-oriented half-edge exists anywhere.
    pub open spec fn halfedge_wf(self, h: int) -> bool {
        let e = self.halfedges@[h];
        &&& e.next < self.halfedges@.len()
        &&& e.triangle < self.triangles@.len()
        &&& self.halfedge(e.next as int).triangle == e.triangle
        &&& self.next_of(self.next_of(e.next as int) as int) == h
        &&& match e.opposite {
            Some(o) => {
                &&& o < self.halfedges@.len()
                &&& o != h
                &&& self.halfedge(o as int).opposite == Some(h as usize)
                &&& self.first_node_of(o as int) == self.last_node_of(h)
                &&& self.last_node_of(o as int) == self.first_node_of(h)
            },
            None => !self.has_halfedge(self.last_node_of(h), self.first_node_of(h)),
        }
    }

    /// No two half-edges share the same ordered endpoint pair (the
    /// 2-manifold, consistent-orientation constraint).
    pub open spec fn halfedges_distinct(self) -> bool {
        forall|h1: int, h2: int|
            #![trigger self.halfedge_nodes(h1), self.halfedge_nodes(h2)]
            self.valid_halfedge_index(h1) && self.valid_halfedge_index(h2) && h1 != h2
                ==> self.halfedge_nodes(h1) != self.halfedge_nodes(h2)
    }

    /// Local shape of record `i` of the per-node index: a non-empty list of
    /// valid half-edges originating at that record's node value, in strictly
    /// increasing index order.
    pub open spec fn node_record_wf(self, i: int) -> bool {
        let en = self.node_halfedges@[i];
        &&& en.halfedges@.len() > 0
        &&& forall|k: int|
            0 <= k < en.halfedges@.len() ==> self.valid_halfedge_index(
                #[trigger] en.halfedges@[k] as int,
            ) && self.first_node_of(en.halfedges@[k] as int) == en.node
        &&& forall|k1: int, k2: int|
            #![trigger en.halfedges@[k1], en.halfedges@[k2]]
            0 <= k1 < k2 < en.halfedges@.len() ==> en.halfedges@[k1] < en.halfedges@[k2]
    }

    /// Half-edge `h` appears in the per-node index, under its own origin
    /// node value.
    pub open spec fn node_indexed(self, h: int) -> bool {
        exists|i: int|
            0 <= i < self.node_halfedges@.len() && (#[trigger] self.node_halfedges@[i]).node
                == self.first_node_of(h) && self.node_halfedges@[i].halfedges@.contains(h as usize)
    }

    /// The per-node adjacency index is sound and complete: every record is
    /// well shaped, node values are not repeated across records, and every
    /// half-edge is indexed under its origin node.
    pub open spec fn node_index_wf(self) -> bool {
        &&& forall|i: int|
            0 <= i < self.node_halfedges@.len() ==> #[trigger] self.node_record_wf(i)
        &&& forall|i1: int, i2: int|
            #![trigger self.node_halfedges@[i1].node, self.node_halfedges@[i2].node]
            0 <= i1 < i2 < self.node_halfedges@.len() ==> self.node_halfedges@[i1].node
                != self.node_halfedges@[i2].node
        &&& forall|h: int| self.valid_halfedge_index(h) ==> #[trigger] self.node_indexed(h)
    }

    /// Well-formedness of the whole container.  Established by the
    /// constructors and preserved by every mutation; every public operation
    /// requires it.
    pub open spec fn wf(self) -> bool {
        &&& self.halfedges@.len() == 3 * self.triangles@.len()
        &&& forall|t: int| 0 <= t < self.triangles@.len() ==> #[trigger] self.triangle_wf(t)
        &&& forall|h: int| 0 <= h < self.halfedges@.len() ==> #[trigger] self.halfedge_wf(h)
        &&& self.halfedges_distinct()
        &&& if self.register_node_halfedges {
            self.node_index_wf()
        } else {
            self.node_halfedges@.len() == 0
        }
    }

    /// Returns an empty container with no half-edges and no triangles.
    ///
    /// `register_node_halfedges` decides, for the container's whole life,
    /// whether the per-node adjacency index is maintained, trading memory
    /// and insertion cost for fast node-centric queries.
    pub fn new(register_node_halfedges: bool) -> (s: Simplicial2)
        ensures
            s.wf(),
            s.halfedges@.len() == 0,
            s.triangles@.len() == 0,
            s.register_node_halfedges == register_node_halfedges,
    {
        Simplicial2 {
            halfedges: Vec::new(),
            triangles: Vec::new(),
            register_node_halfedges,
            node_halfedges: Vec::new(),
        }
    }

    /// Current size of the half-edge arena.  Since nothing is ever removed,
    /// this equals the total number of half-edges ever inserted.
    pub fn get_nb_halfedges(&self) -> (r: usize)
        ensures
            r == self.halfedges@.len(),
    {
        self.halfedges.len()
    }

    /// Current size of the triangle arena.  Since nothing is ever removed,
    /// this equals the total number of triangles ever inserted.
    pub fn get_nb_triangles(&self) -> (r: usize)
        ensures
            r == self.triangles@.len(),
    {
        self.triangles.len()
    }

    /// Whether the per-node adjacency index is maintained, which changes
    /// the cost (though not the answers) of the node-centric queries.
    pub fn node_halfedges_registered(&self) -> (r: bool)
        ensures
            r == self.register_node_halfedges,
    {
        self.register_node_halfedges
    }

    /// Index of the half-edge whose directed endpoints are exactly
    /// `(node0, node1)`, if one exists.  By well-formedness there is at
    /// most one.
    pub fn find_halfedge_index(&self, node0: usize, node1: usize) -> (r: Option<usize>)
        requires
            self.wf(),
        ensures
            r is Some <==> self.has_halfedge(node0, node1),
            r matches Some(h) ==> self.valid_halfedge_index(h as int) && self.halfedge_nodes(
                h as int,
            ) == (node0, node1),
    {
        let nb: usize = self.halfedges.len();
        let mut h: usize = 0;
        while h < nb
            invariant
                self.wf(),
                nb == self.halfedges@.len(),
                h <= nb,
                forall|j: int| 0 <= j < h ==> #[trigger] self.halfedge_nodes(j) != (node0, node1),
            decreases nb - h,
        {
            let e = self.halfedges[h];
            assert(self.halfedge_wf(h as int));
            if e.first_node == node0 && self.halfedges[e.next].first_node == node1 {
                assert(self.halfedge_nodes(h as int) == (node0, node1));
                return Some(h);
            }
            assert(self.halfedge_nodes(h as int) != (node0, node1));
            h = h + 1;
        }
        None
    }

    /// The outcome `insert_triangle` owes: the first violated topology
    /// rule, checked in this order, or the index of the new triangle.
    pub open spec fn spec_insert_result(self, node0: usize, node1: usize, node2: usize) -> Result<
        usize,
        TopologyError,
    > {
        if degenerate_triple(node0, node1, node2) {
            Err(TopologyError::DegenerateTriangle(node0, node1, node2))
        } else if self.has_halfedge(node0, node1) {
            Err(TopologyError::DuplicateHalfEdge(node0, node1))
        } else if self.has_halfedge(node1, node2) {
            Err(TopologyError::DuplicateHalfEdge(node1, node2))
        } else if self.has_halfedge(node2, node0) {
            Err(TopologyError::DuplicateHalfEdge(node2, node0))
        } else {
            Ok(self.triangles@.len() as usize)
        }
    }
}

/// A half-edge whose directed endpoints run against an absent directed edge
/// cannot be paired: its opposite would be a half-edge along that absent
/// edge.
proof fn lemma_reverse_unpaired(s: Simplicial2, o: int, node0: usize, node1: usize)
    requires
        s.wf(),
        s.valid_halfedge_index(o),
        s.halfedge_nodes(o) == (node1, node0),
        !s.has_halfedge(node0, node1),
    ensures
        s.halfedge(o).opposite is None,
{
    assert(s.halfedge_wf(o));
    match s.halfedge(o).opposite {
        Some(p) => {
            assert(s.halfedge_nodes(p as int) == (node0, node1));
            assert(s.has_halfedge(node0, node1));
            assert(false);
        },
        None => {},
    }
}

/// Directed endpoint pairs identify half-edges uniquely in a well-formed
/// container: two half-edges with the same ordered endpoints are the same
/// half-edge.
pub proof fn lemma_halfedge_nodes_unique(s: Simplicial2, h1: int, h2: int)
    requires
        s.wf(),
        s.valid_halfedge_index(h1),
        s.valid_halfedge_index(h2),
        s.halfedge_nodes(h1) == s.halfedge_nodes(h2),
    ensures
        h1 == h2,
{
    assert(s.halfedge_nodes(h1) == s.halfedge_nodes(h2));
}

impl Simplicial2 {
    /// Appends `h` to the adjacency record of `node` in the per-node index,
    /// opening a new record when `node` has none yet.
    #[verifier::loop_isolation(false)]
    fn register_node_halfedge(&mut self, node: usize, h: usize)
        requires
            old(self).valid_halfedge_index(h as int),
            old(self).first_node_of(h as int) == node,
            forall|i: int|
                0 <= i < old(self).node_halfedges@.len() ==> #[trigger] old(self).node_record_wf(i),
            forall|i1: int, i2: int|
                #![trigger old(self).node_halfedges@[i1].node, old(self).node_halfedges@[i2].node]
                0 <= i1 < i2 < old(self).node_halfedges@.len() ==> old(
                    self,
                ).node_halfedges@[i1].node != old(self).node_halfedges@[i2].node,
            forall|i: int, k: int|
                #![trigger old(self).node_halfedges@[i].halfedges@[k]]
                0 <= i < old(self).node_halfedges@.len() && 0 <= k < old(
                    self,
                ).node_halfedges@[i].halfedges@.len() ==> old(self).node_halfedges@[i].halfedges@[k]
                    < h,
        ensures
            final(self).halfedges@ == old(self).halfedges@,
            final(self).triangles@ == old(self).triangles@,
            final(self).register_node_halfedges == old(self).register_node_halfedges,
            forall|i: int|
                0 <= i < final(self).node_halfedges@.len() ==> #[trigger] final(self).node_record_wf(i),
            forall|i1: int, i2: int|
                #![trigger final(self).node_halfedges@[i1].node, final(self).node_halfedges@[i2].node]
                0 <= i1 < i2 < final(self).node_halfedges@.len() ==> final(self).node_halfedges@[i1].node
                    != final(self).node_halfedges@[i2].node,
            forall|i: int, k: int|
                #![trigger final(self).node_halfedges@[i].halfedges@[k]]
                0 <= i < final(self).node_halfedges@.len() && 0 <= k
                    < final(self).node_halfedges@[i].halfedges@.len()
                    ==> final(self).node_halfedges@[i].halfedges@[k] <= h,
            forall|j: int| old(self).node_indexed(j) ==> #[trigger] final(self).node_indexed(j),
            final(self).node_indexed(h as int),
    {
        let nb: usize = self.node_halfedges.len();
        let mut i: usize = 0;
        while i < nb
            invariant
                *self == *old(self),
                nb == self.node_halfedges@.len(),
                i <= nb,
                forall|j: int| 0 <= j < i ==> self.node_halfedges@[j].node != node,
            decreases nb - i,
        {
            if self.node_halfedges[i].node == node {
                let ghost before = self.node_halfedges@;
                self.node_halfedges[i].halfedges.push(h);
                proof {
                    let en = before[i as int];
                    assert(self.node_halfedges@[i as int].halfedges@ == en.halfedges@.push(h));
                    assert(self.node_halfedges@ == before.update(
                        i as int,
                        self.node_halfedges@[i as int],
                    ));
                    assert forall|ii: int|
                        0 <= ii < self.node_halfedges@.len() implies #[trigger] self.node_record_wf(
                        ii,
                    ) by {
                        assert(old(self).node_record_wf(ii));
                        if ii == i {
                            let lst = self.node_halfedges@[ii].halfedges@;
                            assert forall|k: int|
                                0 <= k < lst.len() implies self.valid_halfedge_index(
                                #[trigger] lst[k] as int,
                            ) && self.first_node_of(lst[k] as int)
                                == self.node_halfedges@[ii].node by {
                                if k < lst.len() - 1 {
                                    assert(lst[k] == en.halfedges@[k]);
                                } else {
                                    assert(lst[k] == h);
                                }
                            }
                        }
                    }
                    assert forall|j: int| old(self).node_indexed(j) implies #[trigger] self.node_indexed(
                        j,
                    ) by {
                        let ii = choose|ii: int|
                            0 <= ii < before.len() && (#[trigger] before[ii]).node == old(
                                self,
                            ).first_node_of(j) && before[ii].halfedges@.contains(j as usize);
                        if ii == i {
                            let k = choose|k: int|
                                0 <= k < en.halfedges@.len() && en.halfedges@[k] == j as usize;
                            assert(self.node_halfedges@[i as int].halfedges@[k] == j as usize);
                            assert(self.node_halfedges@[i as int].halfedges@.contains(j as usize));
                        } else {
                            assert(self.node_halfedges@[ii] == before[ii]);
                        }
                    }
                    assert(self.node_halfedges@[i as int].halfedges@[en.halfedges@.len() as int]
                        == h);
                    assert(self.node_halfedges@[i as int].halfedges@.contains(h));
                    assert(self.node_indexed(h as int));
                }
                return ;
            }
            i = i + 1;
        }
        let mut list: Vec<usize> = Vec::new();
        list.push(h);
        let ghost before = self.node_halfedges@;
        self.node_halfedges.push(NodeHalfEdges { node, halfedges: list });
        proof {
            let n = before.len() as int;
            assert(self.node_halfedges@ == before.push(self.node_halfedges@[n]));
            assert forall|ii: int|
                0 <= ii < self.node_halfedges@.len() implies #[trigger] self.node_record_wf(ii) by {
                if ii < n {
                    assert(old(self).node_record_wf(ii));
                    assert(self.node_halfedges@[ii] == before[ii]);
                } else {
                    assert(self.node_halfedges@[ii].halfedges@ == seq![h]);
                }
            }
            assert forall|j: int| old(self).node_indexed(j) implies #[trigger] self.node_indexed(
                j,
            ) by {
                let ii = choose|ii: int|
                    0 <= ii < before.len() && (#[trigger] before[ii]).node == old(
                        self,
                    ).first_node_of(j) && before[ii].halfedges@.contains(j as usize);
                assert(self.node_halfedges@[ii] == before[ii]);
            }
            assert(self.node_halfedges@[n].halfedges@[0] == h);
            assert(self.node_halfedges@[n].halfedges@.contains(h));
            assert(self.node_indexed(h as int));
        }
    }

    /// Inserts one triangle with the given node values, pairing each new
    /// half-edge with the reverse-oriented half-edge of an earlier triangle
    /// when one exists, and returns the index of the new triangle.
    ///
    /// The new triangle owes its three half-edges the indices
    /// `3*t`, `3*t + 1` and `3*t + 2`, where `t` is the returned index,
    /// with origins `node0`, `node1` and `node2` in that order.
    ///
    /// Fails, in this order of checks, when the triangle is degenerate or
    /// when one of its three directed edges is already present; a failed
    /// call leaves the container exactly as it was (validate, then commit).
    pub fn insert_triangle(&mut self, node0: usize, node1: usize, node2: usize) -> (r: Result<
        usize,
        TopologyError,
    >)
        requires
            old(self).wf(),
            old(self).halfedges@.len() + 3 <= usize::MAX,
        ensures
            final(self).wf(),
            r == old(self).spec_insert_result(node0, node1, node2),
            final(self).register_node_halfedges == old(self).register_node_halfedges,
            r is Err ==> *final(self) == *old(self),
            r is Ok ==> ({
                let t = old(self).triangles@.len() as int;
                &&& final(self).triangles@.len() == t + 1
                &&& final(self).halfedges@.len() == 3 * t + 3
                &&& forall|j: int|
                    0 <= j < t ==> final(self).triangles@[j] == old(self).triangles@[j]
                &&& final(self).triangle_nodes(t) == (node0, node1, node2)
                &&& forall|j: int|
                    0 <= j < 3 * t ==> ((#[trigger] final(self).halfedges@[j]).first_node == old(
                        self,
                    ).halfedges@[j].first_node && final(self).halfedges@[j].next == old(
                        self,
                    ).halfedges@[j].next && final(self).halfedges@[j].triangle == old(
                        self,
                    ).halfedges@[j].triangle)
                &&& forall|j: int|
                    0 <= j < 3 * t ==> (#[trigger] final(self).halfedges@[j]).opposite
                        == inserted_opposite(*old(self), node0, node1, node2, j)
                &&& (final(self).halfedge(3 * t).opposite is Some <==> old(self).has_halfedge(
                    node1,
                    node0,
                ))
                &&& (final(self).halfedge(3 * t + 1).opposite is Some <==> old(self).has_halfedge(
                    node2,
                    node1,
                ))
                &&& (final(self).halfedge(3 * t + 2).opposite is Some <==> old(self).has_halfedge(
                    node0,
                    node2,
                ))
                &&& (final(self).halfedge(3 * t).opposite matches Some(o) ==> o < 3 * t && old(
                    self,
                ).halfedge_nodes(o as int) == (node1, node0))
                &&& (final(self).halfedge(3 * t + 1).opposite matches Some(o) ==> o < 3 * t && old(
                    self,
                ).halfedge_nodes(o as int) == (node2, node1))
                &&& (final(self).halfedge(3 * t + 2).opposite matches Some(o) ==> o < 3 * t && old(
                    self,
                ).halfedge_nodes(o as int) == (node0, node2))
            }),
            r is Ok ==> forall|a: usize, b: usize|
                #![trigger final(self).has_halfedge(a, b)]
                #![trigger old(self).has_halfedge(a, b)]
                final(self).has_halfedge(a, b) <==> (old(self).has_halfedge(a, b) || (a == node0
                    && b == node1) || (a == node1 && b == node2) || (a == node2 && b == node0)),
    {
        if node0 == node1 || node1 == node2 || node2 == node0 {
            return Err(TopologyError::DegenerateTriangle(node0, node1, node2));
        }
        match self.find_halfedge_index(node0, node1) {
            Some(_) => {
                return Err(TopologyError::DuplicateHalfEdge(node0, node1));
            },
            None => {},
        }
        match self.find_halfedge_index(node1, node2) {
            Some(_) => {
                return Err(TopologyError::DuplicateHalfEdge(node1, node2));
            },
            None => {},
        }
        match self.find_halfedge_index(node2, node0) {
            Some(_) => {
                return Err(TopologyError::DuplicateHalfEdge(node2, node0));
            },
            None => {},
        }
        let opp0 = self.find_halfedge_index(node1, node0);
        let opp1 = self.find_halfedge_index(node2, node1);
        let opp2 = self.find_halfedge_index(node0, node2);
        let t: usize = self.triangles.len();
        let h0: usize = self.halfedges.len();
        let h1: usize = h0 + 1;
        let h2: usize = h0 + 2;
        let ghost o = *self;
        self.halfedges.push(HalfEdge { first_node: node0, next: h1, opposite: opp0, triangle: t });
        self.halfedges.push(HalfEdge { first_node: node1, next: h2, opposite: opp1, triangle: t });
        self.halfedges.push(HalfEdge { first_node: node2, next: h0, opposite: opp2, triangle: t });
        if let Some(oi) = opp0 {
            self.halfedges[oi].opposite = Some(h0);
        }
        if let Some(oi) = opp1 {
            self.halfedges[oi].opposite = Some(h1);
        }
        if let Some(oi) = opp2 {
            self.halfedges[oi].opposite = Some(h2);
        }
        self.triangles.push(Triangle { halfedges: [h0, h1, h2] });
        proof {
            assert(insert_committed(o, *self, node0, node1, node2, opp0, opp1, opp2));
        }
        if self.register_node_halfedges {
            let ghost mid = *self;
            proof {
                lemma_insert_commit(o, mid, node0, node1, node2, opp0, opp1, opp2);
                assert forall|i: int|
                    0 <= i < self.node_halfedges@.len() implies #[trigger] self.node_record_wf(
                    i,
                ) by {
                    assert(o.node_record_wf(i));
                    let en = o.node_halfedges@[i];
                    assert forall|k: int|
                        0 <= k < en.halfedges@.len() implies self.valid_halfedge_index(
                        #[trigger] en.halfedges@[k] as int,
                    ) && self.first_node_of(en.halfedges@[k] as int) == en.node by {
                        assert(o.valid_halfedge_index(en.halfedges@[k] as int));
                        assert(mid.halfedges@[en.halfedges@[k] as int].first_node
                            == o.halfedges@[en.halfedges@[k] as int].first_node);
                    }
                }
                assert forall|i: int, k: int|
                    #![trigger self.node_halfedges@[i].halfedges@[k]]
                    0 <= i < self.node_halfedges@.len() && 0 <= k
                        < self.node_halfedges@[i].halfedges@.len() implies self.node_halfedges@[i].halfedges@[k]
                    < h0 by {
                    assert(o.node_record_wf(i));
                    assert(o.valid_halfedge_index(o.node_halfedges@[i].halfedges@[k] as int));
                }
            }
            self.register_node_halfedge(node0, h0);
            self.register_node_halfedge(node1, h1);
            self.register_node_halfedge(node2, h2);
            proof {
                assert forall|j: int|
                    self.valid_halfedge_index(j) implies #[trigger] self.node_indexed(j) by {
                    if j < h0 {
                        assert(o.node_indexed(j));
                        let i = choose|i: int|
                            0 <= i < o.node_halfedges@.len() && (#[trigger] o.node_halfedges@[i]).node
                                == o.first_node_of(j) && o.node_halfedges@[i].halfedges@.contains(
                                j as usize,
                            );
                        assert(mid.node_halfedges@[i].node == mid.first_node_of(j));
                        assert(mid.node_indexed(j));
                    }
                }
                assert(self.node_index_wf());
            }
        }
        proof {
            lemma_insert_commit(o, *self, node0, node1, node2, opp0, opp1, opp2);
            assert(self.wf());
        }
        Ok(t)
    }
}

/// The pairing that half-edge `j` holds after a triangle with nodes
/// `(node0, node1, node2)` is inserted into `o`: when `j` runs against one
/// of the three new directed edges it is paired with the matching new
/// half-edge, otherwise its pairing is unchanged.
pub open spec fn inserted_opposite(
    o: Simplicial2,
    node0: usize,
    node1: usize,
    node2: usize,
    j: int,
) -> Option<usize> {
    let b = o.halfedges@.len() as int;
    if o.halfedge_nodes(j) == (node1, node0) {
        Some(b as usize)
    } else if o.halfedge_nodes(j) == (node2, node1) {
        Some((b + 1) as usize)
    } else if o.halfedge_nodes(j) == (node0, node2) {
        Some((b + 2) as usize)
    } else {
        o.halfedges@[j].opposite
    }
}

/// Shape of the arenas right after the commit phase of a triangle
/// insertion, before the per-node index is updated: the three new
/// half-edges are in place and the paired old half-edges point back at
/// them.
spec fn insert_committed(
    o: Simplicial2,
    s: Simplicial2,
    node0: usize,
    node1: usize,
    node2: usize,
    opp0: Option<usize>,
    opp1: Option<usize>,
    opp2: Option<usize>,
) -> bool {
    let b = o.halfedges@.len() as int;
    let e0 = HalfEdge {
        first_node: node0,
        next: (b + 1) as usize,
        opposite: opp0,
        triangle: o.triangles@.len() as usize,
    };
    let e1 = HalfEdge {
        first_node: node1,
        next: (b + 2) as usize,
        opposite: opp1,
        triangle: o.triangles@.len() as usize,
    };
    let e2 = HalfEdge {
        first_node: node2,
        next: b as usize,
        opposite: opp2,
        triangle: o.triangles@.len() as usize,
    };
    let pushed = o.halfedges@.push(e0).push(e1).push(e2);
    let with0 = match opp0 {
        Some(oi) => pushed.update(oi as int, set_opposite(pushed[oi as int], b as usize)),
        None => pushed,
    };
    let with1 = match opp1 {
        Some(oi) => with0.update(oi as int, set_opposite(with0[oi as int], (b + 1) as usize)),
        None => with0,
    };
    let with2 = match opp2 {
        Some(oi) => with1.update(oi as int, set_opposite(with1[oi as int], (b + 2) as usize)),
        None => with1,
    };
    &&& s.halfedges@ == with2
    &&& s.triangles@ == o.triangles@.push(
        Triangle {
            halfedges: [b as usize, (b + 1) as usize, (b + 2) as usize],
        },
    )
    &&& s.register_node_halfedges == o.register_node_halfedges
}

/// Whether the triple `tri` carries the directed edge `(a, c)` as one of
/// its three sides.
pub open spec fn triple_has_edge(tri: [usize; 3], a: usize, c: usize) -> bool {
    (tri[0] == a && tri[1] == c) || (tri[1] == a && tri[2] == c) || (tri[2] == a && tri[0] == c)
}

/// Whether one of the first `k` triples of `tris` carries the directed
/// edge `(a, c)`.
pub open spec fn prefix_has_edge(tris: Seq<[usize; 3]>, k: int, a: usize, c: usize) -> bool {
    exists|i: int| 0 <= i < k && #[trigger] triple_has_edge(tris[i], a, c)
}

/// The topology rule, if any, that triple `i` of `tris` breaks when the
/// triples are inserted in input order: rules are checked in the same
/// order as in `Simplicial2::insert_triangle`.
pub open spec fn triple_error(tris: Seq<[usize; 3]>, i: int) -> Option<TopologyError> {
    let tri = tris[i];
    if degenerate_triple(tri[0], tri[1], tri[2]) {
        Some(TopologyError::DegenerateTriangle(tri[0], tri[1], tri[2]))
    } else if prefix_has_edge(tris, i, tri[0], tri[1]) {
        Some(TopologyError::DuplicateHalfEdge(tri[0], tri[1]))
    } else if prefix_has_edge(tris, i, tri[1], tri[2]) {
        Some(TopologyError::DuplicateHalfEdge(tri[1], tri[2]))
    } else if prefix_has_edge(tris, i, tri[2], tri[0]) {
        Some(TopologyError::DuplicateHalfEdge(tri[2], tri[0]))
    } else {
        None
    }
}

/// Builds a container in bulk from an unordered triangle list, processing
/// the triples in input order under the same pairing and rejection rules
/// as `Simplicial2::insert_triangle`.
///
/// Construction is all-or-nothing: the first triple that breaks a
/// topology rule has its error returned and no container is handed out.
#[verifier::loop_isolation(false)]
pub fn build_from_triangle_list(
    triangles: Vec<[usize; 3]>,
    register_node_halfedges: bool,
) -> (r: Result<Simplicial2, TopologyError>)
    requires
        3 * triangles@.len() <= usize::MAX,
    ensures
        r is Ok <==> (forall|i: int|
            0 <= i < triangles@.len() ==> #[trigger] triple_error(triangles@, i) is None),
        r matches Ok(s) ==> ({
            &&& s.wf()
            &&& s.register_node_halfedges == register_node_halfedges
            &&& s.triangles@.len() == triangles@.len()
            &&& s.halfedges@.len() == 3 * triangles@.len()
            &&& forall|i: int|
                0 <= i < triangles@.len() ==> #[trigger] s.triangle_nodes(i) == (
                    triangles@[i][0],
                    triangles@[i][1],
                    triangles@[i][2],
                )
            &&& forall|a: usize, c: usize|
                #![trigger s.has_halfedge(a, c)]
                s.has_halfedge(a, c) <==> prefix_has_edge(
                    triangles@,
                    triangles@.len() as int,
                    a,
                    c,
                )
        }),
        r matches Err(e) ==> (exists|i: int|
            0 <= i < triangles@.len() && #[trigger] triple_error(triangles@, i) == Some(e) && (
            forall|j: int| 0 <= j < i ==> triple_error(triangles@, j) is None)),
{
    let mut s = Simplicial2::new(register_node_halfedges);
    let n: usize = triangles.len();
    let mut i: usize = 0;
    while i < n
        invariant
            s.wf(),
            s.register_node_halfedges == register_node_halfedges,
            i <= n,
            s.triangles@.len() == i,
            s.halfedges@.len() == 3 * i,
            forall|j: int| 0 <= j < i ==> #[trigger] triple_error(triangles@, j) is None,
            forall|j: int|
                0 <= j < i ==> #[trigger] s.triangle_nodes(j) == (
                    triangles@[j][0],
                    triangles@[j][1],
                    triangles@[j][2],
                ),
            forall|a: usize, c: usize|
                #![trigger s.has_halfedge(a, c)]
                s.has_halfedge(a, c) <==> prefix_has_edge(triangles@, i as int, a, c),
        decreases n - i,
    {
        let tri = triangles[i];
        let ghost prev = s;
        match s.insert_triangle(tri[0], tri[1], tri[2]) {
            Ok(_) => {},
            Err(e) => {
                proof {
                    assert(prev.has_halfedge(tri[0], tri[1]) == prefix_has_edge(
                        triangles@,
                        i as int,
                        tri[0],
                        tri[1],
                    ));
                    assert(prev.has_halfedge(tri[1], tri[2]) == prefix_has_edge(
                        triangles@,
                        i as int,
                        tri[1],
                        tri[2],
                    ));
                    assert(prev.has_halfedge(tri[2], tri[0]) == prefix_has_edge(
                        triangles@,
                        i as int,
                        tri[2],
                        tri[0],
                    ));
                    assert(triple_error(triangles@, i as int) == Some(e));
                }
                return Err(e);
            },
        }
        proof {
            assert(prev.has_halfedge(tri[0], tri[1]) == prefix_has_edge(
                triangles@,
                i as int,
                tri[0],
                tri[1],
            ));
            assert(prev.has_halfedge(tri[1], tri[2]) == prefix_has_edge(
                triangles@,
                i as int,
                tri[1],
                tri[2],
            ));
            assert(prev.has_halfedge(tri[2], tri[0]) == prefix_has_edge(
                triangles@,
                i as int,
                tri[2],
                tri[0],
            ));
            assert(triple_error(triangles@, i as int) is None);
            assert forall|j: int|
                0 <= j < i + 1 implies #[trigger] s.triangle_nodes(j) == (
                triangles@[j][0],
                triangles@[j][1],
                triangles@[j][2],
            ) by {
                if j < i {
                    assert(s.halfedges@[3 * j].first_node == prev.halfedges@[3 * j].first_node);
                    assert(s.halfedges@[3 * j + 1].first_node == prev.halfedges@[3 * j
                        + 1].first_node);
                    assert(s.halfedges@[3 * j + 2].first_node == prev.halfedges@[3 * j
                        + 2].first_node);
                    assert(prev.triangle_nodes(j) == (
                        triangles@[j][0],
                        triangles@[j][1],
                        triangles@[j][2],
                    ));
                }
            }
            assert forall|a: usize, c: usize| #![trigger s.has_halfedge(a, c)] s.has_halfedge(
                a,
                c,
            ) <==> prefix_has_edge(triangles@, i + 1, a, c) by {
                if s.has_halfedge(a, c) {
                    if prev.has_halfedge(a, c) {
                        let ii = choose|ii: int|
                            0 <= ii < i && #[trigger] triple_has_edge(triangles@[ii], a, c);
                        assert(triple_has_edge(triangles@[ii], a, c));
                    } else {
                        assert(triple_has_edge(triangles@[i as int], a, c));
                    }
                }
                if prefix_has_edge(triangles@, i + 1, a, c) {
                    let ii = choose|ii: int|
                        0 <= ii < i + 1 && #[trigger] triple_has_edge(triangles@[ii], a, c);
                    if ii < i {
                        assert(prefix_has_edge(triangles@, i as int, a, c));
                        assert(prev.has_halfedge(a, c));
                    }
                }
            }
        }
        i = i + 1;
    }
    Ok(s)
}

/// The half-edge record `e` with its pairing replaced by `opp`.
pub open spec fn set_opposite(e: HalfEdge, opp: usize) -> HalfEdge {
    HalfEdge { first_node: e.first_node, next: e.next, opposite: Some(opp), triangle: e.triangle }
}

/// After the commit phase of a valid triangle insertion the arenas are
/// again well formed and relate to their prior state exactly as
/// `insert_triangle` promises.  The per-node index is not covered here.
proof fn lemma_insert_commit(
    o: Simplicial2,
    s: Simplicial2,
    node0: usize,
    node1: usize,
    node2: usize,
    opp0: Option<usize>,
    opp1: Option<usize>,
    opp2: Option<usize>,
)
    requires
        o.wf(),
        o.halfedges@.len() + 3 <= usize::MAX,
        !degenerate_triple(node0, node1, node2),
        !o.has_halfedge(node0, node1),
        !o.has_halfedge(node1, node2),
        !o.has_halfedge(node2, node0),
        opp0 is Some <==> o.has_halfedge(node1, node0),
        opp1 is Some <==> o.has_halfedge(node2, node1),
        opp2 is Some <==> o.has_halfedge(node0, node2),
        opp0 matches Some(oi) ==> o.valid_halfedge_index(oi as int) && o.halfedge_nodes(oi as int)
            == (node1, node0),
        opp1 matches Some(oi) ==> o.valid_halfedge_index(oi as int) && o.halfedge_nodes(oi as int)
            == (node2, node1),
        opp2 matches Some(oi) ==> o.valid_halfedge_index(oi as int) && o.halfedge_nodes(oi as int)
            == (node0, node2),
        insert_committed(o, s, node0, node1, node2, opp0, opp1, opp2),
    ensures
        s.halfedges@.len() == o.halfedges@.len() + 3,
        s.triangles@.len() == o.triangles@.len() + 1,
        s.halfedges@.len() == 3 * s.triangles@.len(),
        forall|tt: int| 0 <= tt < s.triangles@.len() ==> #[trigger] s.triangle_wf(tt),
        forall|h: int| 0 <= h < s.halfedges@.len() ==> #[trigger] s.halfedge_wf(h),
        s.halfedges_distinct(),
        forall|j: int| 0 <= j < o.triangles@.len() ==> s.triangles@[j] == o.triangles@[j],
        s.triangle_nodes(o.triangles@.len() as int) == (node0, node1, node2),
        forall|j: int|
            0 <= j < o.halfedges@.len() ==> ((#[trigger] s.halfedges@[j]).first_node
                == o.halfedges@[j].first_node && s.halfedges@[j].next == o.halfedges@[j].next
                && s.halfedges@[j].triangle == o.halfedges@[j].triangle),
        forall|j: int|
            0 <= j < o.halfedges@.len() ==> (#[trigger] s.halfedges@[j]).opposite
                == inserted_opposite(o, node0, node1, node2, j),
        s.halfedge(o.halfedges@.len() as int).opposite == opp0,
        s.halfedge(o.halfedges@.len() as int + 1).opposite == opp1,
        s.halfedge(o.halfedges@.len() as int + 2).opposite == opp2,
        forall|a: usize, c: usize|
            #![trigger s.has_halfedge(a, c)]
            #![trigger o.has_halfedge(a, c)]
            s.has_halfedge(a, c) <==> (o.has_halfedge(a, c) || (a == node0 && c == node1) || (a
                == node1 && c == node2) || (a == node2 && c == node0)),
{
    let b = o.halfedges@.len() as int;
    let nt = o.triangles@.len() as int;
    match opp0 {
        Some(oi) => {
            lemma_reverse_unpaired(o, oi as int, node0, node1);
        },
        None => {},
    }
    match opp1 {
        Some(oi) => {
            lemma_reverse_unpaired(o, oi as int, node1, node2);
        },
        None => {},
    }
    match opp2 {
        Some(oi) => {
            lemma_reverse_unpaired(o, oi as int, node2, node0);
        },
        None => {},
    }
    // Shape of the new arena, record by record.
    assert(s.halfedges@.len() == b + 3);
    assert(s.halfedges@[b] == HalfEdge {
        first_node: node0,
        next: (b + 1) as usize,
        opposite: opp0,
        triangle: nt as usize,
    });
    assert(s.halfedges@[b + 1] == HalfEdge {
        first_node: node1,
        next: (b + 2) as usize,
        opposite: opp1,
        triangle: nt as usize,
    });
    assert(s.halfedges@[b + 2] == HalfEdge {
        first_node: node2,
        next: b as usize,
        opposite: opp2,
        triangle: nt as usize,
    });
    assert forall|j: int|
        0 <= j < b implies ((#[trigger] s.halfedges@[j]).first_node == o.halfedges@[j].first_node
        && s.halfedges@[j].next == o.halfedges@[j].next && s.halfedges@[j].triangle
        == o.halfedges@[j].triangle) by {}
    // Directed endpoints of the old half-edges are untouched.
    assert forall|j: int| 0 <= j < b implies #[trigger] s.halfedge_nodes(j) == o.halfedge_nodes(
        j,
    ) by {
        assert(o.halfedge_wf(j));
    }
    assert(s.halfedge_nodes(b) == (node0, node1));
    assert(s.halfedge_nodes(b + 1) == (node1, node2));
    assert(s.halfedge_nodes(b + 2) == (node2, node0));
    // Pairing of the old half-edges follows the insertion rule.
    assert forall|j: int|
        0 <= j < b implies (#[trigger] s.halfedges@[j]).opposite == inserted_opposite(
        o,
        node0,
        node1,
        node2,
        j,
    ) by {
        if o.halfedge_nodes(j) == (node1, node0) {
            assert(o.has_halfedge(node1, node0));
            match opp0 {
                Some(oi) => {
                    lemma_halfedge_nodes_unique(o, j, oi as int);
                },
                None => {
                    assert(false);
                },
            }
        } else if o.halfedge_nodes(j) == (node2, node1) {
            assert(o.has_halfedge(node2, node1));
            match opp1 {
                Some(oi) => {
                    lemma_halfedge_nodes_unique(o, j, oi as int);
                },
                None => {
                    assert(false);
                },
            }
        } else if o.halfedge_nodes(j) == (node0, node2) {
            assert(o.has_halfedge(node0, node2));
            match opp2 {
                Some(oi) => {
                    lemma_halfedge_nodes_unique(o, j, oi as int);
                },
                None => {
                    assert(false);
                },
            }
        } else {
            match opp0 {
                Some(oi) => {
                    if oi as int == j {
                        assert(o.halfedge_nodes(j) == (node1, node0));
                        assert(false);
                    }
                },
                None => {},
            }
            match opp1 {
                Some(oi) => {
                    if oi as int == j {
                        assert(o.halfedge_nodes(j) == (node2, node1));
                        assert(false);
                    }
                },
                None => {},
            }
            match opp2 {
                Some(oi) => {
                    if oi as int == j {
                        assert(o.halfedge_nodes(j) == (node0, node2));
                        assert(false);
                    }
                },
                None => {},
            }
        }
    }
    // Which directed edges exist, before and after.
    assert forall|a: usize, c: usize|
        #![trigger s.has_halfedge(a, c)]
        #![trigger o.has_halfedge(a, c)]
        s.has_halfedge(a, c) <==> (o.has_halfedge(a, c) || (a == node0 && c == node1) || (a
        == node1 && c == node2) || (a == node2 && c == node0)) by {
        if s.has_halfedge(a, c) {
            let h = choose|h: int|
                s.valid_halfedge_index(h) && #[trigger] s.halfedge_nodes(h) == (a, c);
            if h < b {
                assert(o.halfedge_nodes(h) == (a, c));
                assert(o.has_halfedge(a, c));
            }
        }
        if o.has_halfedge(a, c) {
            let h = choose|h: int|
                o.valid_halfedge_index(h) && #[trigger] o.halfedge_nodes(h) == (a, c);
            assert(s.halfedge_nodes(h) == (a, c));
            assert(s.has_halfedge(a, c));
        }
        if a == node0 && c == node1 {
            assert(s.halfedge_nodes(b) == (a, c));
            assert(s.has_halfedge(a, c));
        }
        if a == node1 && c == node2 {
            assert(s.halfedge_nodes(b + 1) == (a, c));
            assert(s.has_halfedge(a, c));
        }
        if a == node2 && c == node0 {
            assert(s.halfedge_nodes(b + 2) == (a, c));
            assert(s.has_halfedge(a, c));
        }
    }
    // Every triangle, old and new, keeps its local shape.
    assert forall|tt: int| 0 <= tt < nt + 1 implies #[trigger] s.triangle_wf(tt) by {
        if tt < nt {
            assert(o.triangle_wf(tt));
            assert(s.triangles@[tt] == o.triangles@[tt]);
        } else {
            assert(s.triangles@[nt].halfedges@[0] == b as usize);
            assert(s.triangles@[nt].halfedges@[1] == (b + 1) as usize);
            assert(s.triangles@[nt].halfedges@[2] == (b + 2) as usize);
        }
    }
    // Every half-edge, old and new, keeps or gains a lawful pairing.
    assert forall|h: int| 0 <= h < b + 3 implies #[trigger] s.halfedge_wf(h) by {
        if h < b {
            assert(o.halfedge_wf(h));
            let n1 = o.halfedges@[h].next as int;
            assert(o.halfedge_wf(n1));
            let n2 = o.halfedges@[n1].next as int;
            assert(o.halfedge_wf(n2));
            match o.halfedges@[h].opposite {
                Some(p) => {
                    assert(o.halfedge_wf(p as int));
                    // h runs with none of the three new edges reversed:
                    // its old pairing would witness the duplicate.
                    if o.halfedge_nodes(h) == (node1, node0) {
                        match opp0 {
                            Some(oi) => {
                                lemma_halfedge_nodes_unique(o, h, oi as int);
                                assert(false);
                            },
                            None => {
                                assert(o.has_halfedge(node1, node0));
                                assert(false);
                            },
                        }
                    }
                    if o.halfedge_nodes(h) == (node2, node1) {
                        match opp1 {
                            Some(oi) => {
                                lemma_halfedge_nodes_unique(o, h, oi as int);
                                assert(false);
                            },
                            None => {
                                assert(o.has_halfedge(node2, node1));
                                assert(false);
                            },
                        }
                    }
                    if o.halfedge_nodes(h) == (node0, node2) {
                        match opp2 {
                            Some(oi) => {
                                lemma_halfedge_nodes_unique(o, h, oi as int);
                                assert(false);
                            },
                            None => {
                                assert(o.has_halfedge(node0, node2));
                                assert(false);
                            },
                        }
                    }
                    assert(s.halfedges@[h].opposite == Some(p));
                    // p is still paired with h: p itself was not rewired.
                    if o.halfedge_nodes(p as int) == (node1, node0) {
                        match opp0 {
                            Some(oi) => {
                                lemma_halfedge_nodes_unique(o, p as int, oi as int);
                                assert(false);
                            },
                            None => {
                                assert(o.has_halfedge(node1, node0));
                                assert(false);
                            },
                        }
                    }
                    if o.halfedge_nodes(p as int) == (node2, node1) {
                        match opp1 {
                            Some(oi) => {
                                lemma_halfedge_nodes_unique(o, p as int, oi as int);
                                assert(false);
                            },
                            None => {
                                assert(o.has_halfedge(node2, node1));
                                assert(false);
                            },
                        }
                    }
                    if o.halfedge_nodes(p as int) == (node0, node2) {
                        match opp2 {
                            Some(oi) => {
                                lemma_halfedge_nodes_unique(o, p as int, oi as int);
                                assert(false);
                            },
                            None => {
                                assert(o.has_halfedge(node0, node2));
                                assert(false);
                            },
                        }
                    }
                    assert(s.halfedges@[p as int].opposite == Some(h as usize));
                },
                None => {
                    if o.halfedge_nodes(h) == (node1, node0) {
                        match opp0 {
                            Some(oi) => {
                                lemma_halfedge_nodes_unique(o, h, oi as int);
                                assert(s.halfedges@[h].opposite == Some(b as usize));
                                assert(s.halfedges@[b].opposite == Some(h as usize));
                            },
                            None => {
                                assert(o.has_halfedge(node1, node0));
                                assert(false);
                            },
                        }
                    } else if o.halfedge_nodes(h) == (node2, node1) {
                        match opp1 {
                            Some(oi) => {
                                lemma_halfedge_nodes_unique(o, h, oi as int);
                                assert(s.halfedges@[h].opposite == Some((b + 1) as usize));
                                assert(s.halfedges@[b + 1].opposite == Some(h as usize));
                            },
                            None => {
                                assert(o.has_halfedge(node2, node1));
                                assert(false);
                            },
                        }
                    } else if o.halfedge_nodes(h) == (node0, node2) {
                        match opp2 {
                            Some(oi) => {
                                lemma_halfedge_nodes_unique(o, h, oi as int);
                                assert(s.halfedges@[h].opposite == Some((b + 2) as usize));
                                assert(s.halfedges@[b + 2].opposite == Some(h as usize));
                            },
                            None => {
                                assert(o.has_halfedge(node0, node2));
                                assert(false);
                            },
                        }
                    } else {
                        assert(s.halfedges@[h].opposite is None);
                        let la = o.last_node_of(h);
                        let fi = o.first_node_of(h);
                        assert(!o.has_halfedge(la, fi));
                        if la == node0 && fi == node1 {
                            assert(o.halfedge_nodes(h) == (node1, node0));
                            assert(false);
                        }
                        if la == node1 && fi == node2 {
                            assert(o.halfedge_nodes(h) == (node2, node1));
                            assert(false);
                        }
                        if la == node2 && fi == node0 {
                            assert(o.halfedge_nodes(h) == (node0, node2));
                            assert(false);
                        }
                        assert(!s.has_halfedge(la, fi));
                        assert(s.last_node_of(h) == la && s.first_node_of(h) == fi);
                    }
                },
            }
        } else {
            // One of the three new half-edges.
            if h == b {
                match opp0 {
                    Some(oi) => {
                        assert(o.halfedge_nodes(oi as int) == (node1, node0));
                        assert(s.halfedges@[oi as int].opposite == Some(b as usize));
                        assert(s.first_node_of(oi as int) == node1);
                        assert(s.last_node_of(oi as int) == node0);
                    },
                    None => {
                        assert(!o.has_halfedge(node1, node0));
                        assert(!s.has_halfedge(node1, node0));
                    },
                }
            } else if h == b + 1 {
                match opp1 {
                    Some(oi) => {
                        assert(o.halfedge_nodes(oi as int) == (node2, node1));
                        assert(s.halfedges@[oi as int].opposite == Some((b + 1) as usize));
                        assert(s.first_node_of(oi as int) == node2);
                        assert(s.last_node_of(oi as int) == node1);
                    },
                    None => {
                        assert(!o.has_halfedge(node2, node1));
                        assert(!s.has_halfedge(node2, node1));
                    },
                }
            } else {
                match opp2 {
                    Some(oi) => {
                        assert(o.halfedge_nodes(oi as int) == (node0, node2));
                        assert(s.halfedges@[oi as int].opposite == Some((b + 2) as usize));
                        assert(s.first_node_of(oi as int) == node0);
                        assert(s.last_node_of(oi as int) == node2);
                    },
                    None => {
                        assert(!o.has_halfedge(node0, node2));
                        assert(!s.has_halfedge(node0, node2));
                    },
                }
            }
        }
    }
    // No ordered endpoint pair is repeated.
    assert forall|x: int, y: int|
        #![trigger s.halfedge_nodes(x), s.halfedge_nodes(y)]
        s.valid_halfedge_index(x) && s.valid_halfedge_index(y) && x != y implies s.halfedge_nodes(
        x,
    ) != s.halfedge_nodes(y) by {
        if x < b && y < b {
            assert(o.halfedge_nodes(x) != o.halfedge_nodes(y));
        } else if x < b && b <= y {
            if s.halfedge_nodes(x) == s.halfedge_nodes(y) {
                assert(o.has_halfedge(s.halfedge_nodes(y).0, s.halfedge_nodes(y).1));
                assert(false);
            }
        } else if b <= x && y < b {
            if s.halfedge_nodes(x) == s.halfedge_nodes(y) {
                assert(o.has_halfedge(s.halfedge_nodes(x).0, s.halfedge_nodes(x).1));
                assert(false);
            }
        }
    }
}

/// Every half-edge returns to itself after exactly three `next` steps:
/// triangle cycles have length exactly three.
pub proof fn lemma_next_cycle(s: Simplicial2, h: int)
    requires
        s.wf(),
        s.valid_halfedge_index(h),
    ensures
        s.valid_halfedge_index(s.next_of(h) as int),
        s.valid_halfedge_index(s.next_of(s.next_of(h) as int) as int),
        s.next_of(s.next_of(s.next_of(h) as int) as int) == h,
{
    assert(s.halfedge_wf(h));
    assert(s.halfedge_wf(s.next_of(h) as int));
}

/// Pairing is a mutual involution that reverses direction: the opposite of
/// a paired half-edge points back at it, its origin is the half-edge's
/// destination, and its destination is the half-edge's origin.
pub proof fn lemma_opposite_involution(s: Simplicial2, h: int)
    requires
        s.wf(),
        s.valid_halfedge_index(h),
        s.halfedge(h).opposite is Some,
    ensures
        s.halfedge(h).opposite matches Some(o) ==> ({
            &&& s.valid_halfedge_index(o as int)
            &&& s.halfedge(o as int).opposite == Some(h as usize)
            &&& s.first_node_of(o as int) == s.last_node_of(h)
            &&& s.last_node_of(o as int) == s.first_node_of(h)
        }),
{
    assert(s.halfedge_wf(h));
}

/// A half-edge is boundary exactly when no half-edge anywhere runs its
/// shared edge in the reverse direction.
pub proof fn lemma_boundary_means_no_reverse(s: Simplicial2, h: int)
    requires
        s.wf(),
        s.valid_halfedge_index(h),
    ensures
        s.halfedge(h).opposite is None <==> !s.has_halfedge(
            s.last_node_of(h),
            s.first_node_of(h),
        ),
{
    assert(s.halfedge_wf(h));
    match s.halfedge(h).opposite {
        Some(o) => {
            assert(s.halfedge_nodes(o as int) == (s.last_node_of(h), s.first_node_of(h)));
            assert(s.has_halfedge(s.last_node_of(h), s.first_node_of(h)));
        },
        None => {},
    }
}

/// Each undirected edge is shared by at most two half-edges, and so by at
/// most two triangles: one half-edge per direction.  Any half-edge along
/// the endpoint pair of two distinct half-edges is one of the two.
pub proof fn lemma_edge_shared_at_most_twice(
    s: Simplicial2,
    h1: int,
    h2: int,
    h3: int,
    node0: usize,
    node1: usize,
)
    requires
        s.wf(),
        s.valid_halfedge_index(h1),
        s.valid_halfedge_index(h2),
        s.valid_halfedge_index(h3),
        h1 != h2,
        s.halfedge_nodes(h1) == (node0, node1) || s.halfedge_nodes(h1) == (node1, node0),
        s.halfedge_nodes(h2) == (node0, node1) || s.halfedge_nodes(h2) == (node1, node0),
        s.halfedge_nodes(h3) == (node0, node1) || s.halfedge_nodes(h3) == (node1, node0),
    ensures
        h3 == h1 || h3 == h2,
{
    if h3 != h1 && h3 != h2 {
        if s.halfedge_nodes(h1) == s.halfedge_nodes(h2) {
            lemma_halfedge_nodes_unique(s, h1, h2);
        } else if s.halfedge_nodes(h1) == s.halfedge_nodes(h3) {
            lemma_halfedge_nodes_unique(s, h1, h3);
        } else {
            lemma_halfedge_nodes_unique(s, h2, h3);
        }
    }
}

} // verus!
