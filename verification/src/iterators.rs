use vstd::prelude::*;

use crate::errors::IndexOutOfRangeError;
use crate::errors::UnboundHalfEdgeError;
use crate::simplicial2::Simplicial2;

verus! {

/// Handle to a node of the complex: a reference to the container plus the
/// index of one half-edge originating at the node.  Handles are
/// re-derivable views, not owners: they are created on demand from a
/// stored index and become stale if the container is mutated.
#[derive(Clone, Copy)]
pub struct IterNode2<'a> {
    /// The container the handle reads from.
    pub simplicial: &'a Simplicial2,
    /// Index of one half-edge whose origin is this node.
    pub ind_halfedge: usize,
}

/// Handle to one half-edge: a reference to the container plus the
/// half-edge's arena index.
#[derive(Clone, Copy)]
pub struct IterHalfEdge2<'a> {
    /// The container the handle reads from.
    pub simplicial: &'a Simplicial2,
    /// Arena index of the half-edge.
    pub index: usize,
}

/// Handle to one triangle: a reference to the container plus the
/// triangle's arena index.
#[derive(Clone, Copy)]
pub struct IterTriangle2<'a> {
    /// The container the handle reads from.
    pub simplicial: &'a Simplicial2,
    /// Arena index of the triangle.
    pub ind_triangle: usize,
}

impl<'a> IterNode2<'a> {
    /// A node handle is usable while its container is well formed and its
    /// representative half-edge index is allocated.
    pub open spec fn wf(self) -> bool {
        self.simplicial.wf() && (self.ind_halfedge as int) < self.simplicial.halfedges@.len()
    }

    /// The node value this handle stands for.
    pub open spec fn value_spec(self) -> usize {
        self.simplicial.first_node_of(self.ind_halfedge as int)
    }

    /// The integer value of this node.
    pub fn value(&self) -> (r: usize)
        requires
            self.wf(),
        ensures
            r == self.value_spec(),
    {
        self.simplicial.halfedges[self.ind_halfedge].first_node
    }

    /// All half-edges whose origin is this node, in increasing index order
    /// (insertion order): exactly those whose `first_node` equals this
    /// node's value, as a linear scan would find them.
    ///
    /// Answered from the per-node index when the container maintains one,
    /// by exhaustive scan otherwise; either way the same half-edges come
    /// back, in the same order.
    pub fn halfedges(&self) -> (r: Vec<IterHalfEdge2<'a>>)
        requires
            self.wf(),
        ensures
            forall|k: int|
                0 <= k < r@.len() ==> ((#[trigger] r@[k]).simplicial == self.simplicial && r@[k].wf()
                    && self.simplicial.first_node_of(r@[k].index as int) == self.value_spec()),
            forall|k1: int, k2: int|
                #![trigger r@[k1].index, r@[k2].index]
                0 <= k1 < k2 < r@.len() ==> r@[k1].index < r@[k2].index,
            forall|h: int|
                self.simplicial.valid_halfedge_index(h) && self.simplicial.first_node_of(h)
                    == self.value_spec() ==> exists|k: int|
                    0 <= k < r@.len() && (#[trigger] r@[k]).index == h,
            r@.len() > 0,
    {
        let value: usize = self.value();
        if self.simplicial.node_halfedges_registered() {
            let nb_records: usize = self.simplicial.node_halfedges.len();
            let mut i: usize = 0;
            while i < nb_records
                invariant
                    self.wf(),
                    self.simplicial.register_node_halfedges,
                    value == self.value_spec(),
                    nb_records == self.simplicial.node_halfedges@.len(),
                    i <= nb_records,
                    forall|j: int| 0 <= j < i ==> self.simplicial.node_halfedges@[j].node != value,
                decreases nb_records - i,
            {
                if self.simplicial.node_halfedges[i].node == value {
                    proof {
                        assert(self.simplicial.node_record_wf(i as int));
                    }
                    let list = &self.simplicial.node_halfedges[i].halfedges;
                    let n: usize = list.len();
                    let mut r: Vec<IterHalfEdge2<'a>> = Vec::new();
                    let mut k: usize = 0;
                    while k < n
                        invariant
                            self.wf(),
                            self.simplicial.node_record_wf(i as int),
                            i < self.simplicial.node_halfedges@.len(),
                            list == &self.simplicial.node_halfedges@[i as int].halfedges,
                            value == self.simplicial.node_halfedges@[i as int].node,
                            n == list@.len(),
                            k <= n,
                            r@.len() == k,
                            forall|kk: int|
                                0 <= kk < k ==> ((#[trigger] r@[kk]).simplicial == self.simplicial
                                    && r@[kk].index == list@[kk]),
                        decreases n - k,
                    {
                        r.push(IterHalfEdge2 { simplicial: self.simplicial, index: list[k] });
                        k = k + 1;
                    }
                    proof {
                        assert forall|h: int|
                            self.simplicial.valid_halfedge_index(h)
                                && self.simplicial.first_node_of(h) == value implies exists|
                            kk: int,
                        |
                            0 <= kk < r@.len() && (#[trigger] r@[kk]).index == h by {
                            assert(self.simplicial.node_indexed(h));
                            let ii = choose|ii: int|
                                0 <= ii < self.simplicial.node_halfedges@.len() && (
                                #[trigger] self.simplicial.node_halfedges@[ii]).node
                                    == self.simplicial.first_node_of(h)
                                    && self.simplicial.node_halfedges@[ii].halfedges@.contains(
                                    h as usize,
                                );
                            assert(self.simplicial.node_halfedges@[ii].node
                                == self.simplicial.node_halfedges@[i as int].node);
                            assert(ii == i);
                            let kk = choose|kk: int|
                                0 <= kk < list@.len() && list@[kk] == h as usize;
                            assert(self.simplicial.halfedges.len()
                                == self.simplicial.halfedges@.len());
                            assert(r@[kk].index == list@[kk]);
                            assert(r@[kk].index == h);
                        }
                        assert(self.simplicial.first_node_of(self.ind_halfedge as int) == value);
                    }
                    return r;
                }
                i = i + 1;
            }
            proof {
                assert(self.simplicial.node_indexed(self.ind_halfedge as int));
                let ii = choose|ii: int|
                    0 <= ii < self.simplicial.node_halfedges@.len() && (
                    #[trigger] self.simplicial.node_halfedges@[ii]).node
                        == self.simplicial.first_node_of(self.ind_halfedge as int)
                        && self.simplicial.node_halfedges@[ii].halfedges@.contains(
                        self.ind_halfedge,
                    );
                assert(self.simplicial.node_halfedges@[ii].node == value);
                assert(false);
            }
        }
        let mut r: Vec<IterHalfEdge2<'a>> = Vec::new();
        let nb: usize = self.simplicial.halfedges.len();
        let mut h: usize = 0;
        while h < nb
            invariant
                self.wf(),
                value == self.value_spec(),
                nb == self.simplicial.halfedges@.len(),
                h <= nb,
                forall|k: int|
                    0 <= k < r@.len() ==> ((#[trigger] r@[k]).simplicial == self.simplicial
                        && r@[k].wf() && (r@[k].index as int) < h
                        && self.simplicial.first_node_of(r@[k].index as int) == value),
                forall|k1: int, k2: int|
                    #![trigger r@[k1].index, r@[k2].index]
                    0 <= k1 < k2 < r@.len() ==> r@[k1].index < r@[k2].index,
                forall|hh: int|
                    0 <= hh < h && self.simplicial.first_node_of(hh) == value ==> exists|k: int|
                        0 <= k < r@.len() && (#[trigger] r@[k]).index == hh,
            decreases nb - h,
        {
            let ghost before = r@;
            if self.simplicial.halfedges[h].first_node == value {
                r.push(IterHalfEdge2 { simplicial: self.simplicial, index: h });
            }
            proof {
                assert forall|hh: int|
                    0 <= hh < h + 1 && self.simplicial.first_node_of(hh) == value implies exists|
                    k: int,
                |
                    0 <= k < r@.len() && (#[trigger] r@[k]).index == hh by {
                    if hh < h {
                        let k = choose|k: int|
                            0 <= k < before.len() && (#[trigger] before[k]).index == hh;
                        assert(r@[k].index == hh);
                    } else {
                        assert(r@[r@.len() - 1].index == hh);
                    }
                }
            }
            h = h + 1;
        }
        proof {
            assert(self.simplicial.first_node_of(self.ind_halfedge as int) == value);
        }
        r
    }

    /// Textual rendering of the node, for display only; the text carries
    /// no contract.
    pub fn to_string(&self) -> (r: String)
        requires
            self.wf(),
    {
        format_node_text(self.value())
    }
}

impl<'a> IterHalfEdge2<'a> {
    /// A half-edge handle is usable while its container is well formed and
    /// its index is allocated.
    pub open spec fn wf(self) -> bool {
        self.simplicial.wf() && (self.index as int) < self.simplicial.halfedges@.len()
    }

    /// The arena index of this half-edge.  Stable while the container is
    /// not mutated; a mutation may invalidate it.
    pub fn index(&self) -> (r: usize)
        ensures
            r == self.index,
    {
        self.index
    }

    /// The node at this half-edge's origin.
    pub fn first_node(&self) -> (r: IterNode2<'a>)
        requires
            self.wf(),
        ensures
            r.wf(),
            r.simplicial == self.simplicial,
            r.ind_halfedge == self.index,
            r.value_spec() == self.simplicial.first_node_of(self.index as int),
    {
        IterNode2 { simplicial: self.simplicial, ind_halfedge: self.index }
    }

    /// The node at this half-edge's destination.
    pub fn last_node(&self) -> (r: IterNode2<'a>)
        requires
            self.wf(),
        ensures
            r.wf(),
            r.simplicial == self.simplicial,
            r.value_spec() == self.simplicial.last_node_of(self.index as int),
    {
        self.next().first_node()
    }

    /// The half-edge following this one around the same triangle: three
    /// applications return this half-edge.
    pub fn next(&self) -> (r: IterHalfEdge2<'a>)
        requires
            self.wf(),
        ensures
            r.wf(),
            r.simplicial == self.simplicial,
            r.index == self.simplicial.next_of(self.index as int),
    {
        proof {
            assert(self.simplicial.halfedge_wf(self.index as int));
        }
        IterHalfEdge2 {
            simplicial: self.simplicial,
            index: self.simplicial.halfedges[self.index].next,
        }
    }

    /// The half-edge preceding this one around the same triangle: the
    /// unique half-edge whose `next` is this one, reached as two `next`
    /// steps since the cycle has length three.
    pub fn previous(&self) -> (r: IterHalfEdge2<'a>)
        requires
            self.wf(),
        ensures
            r.wf(),
            r.simplicial == self.simplicial,
            r.index == self.simplicial.next_of(self.simplicial.next_of(self.index as int) as int),
            self.simplicial.next_of(r.index as int) == self.index,
    {
        proof {
            assert(self.simplicial.halfedge_wf(self.index as int));
        }
        self.next().next()
    }

    /// The reverse-oriented half-edge on the neighbouring triangle.
    ///
    /// A boundary half-edge has no pairing: the call then fails with an
    /// [`UnboundHalfEdgeError`] naming this half-edge, which is distinct
    /// from requesting an unallocated index.
    pub fn opposite(&self) -> (r: Result<IterHalfEdge2<'a>, UnboundHalfEdgeError>)
        requires
            self.wf(),
        ensures
            r is Ok <==> self.simplicial.halfedge(self.index as int).opposite is Some,
            r matches Ok(op) ==> (op.wf() && op.simplicial == self.simplicial && Some(op.index)
                == self.simplicial.halfedge(self.index as int).opposite),
            r matches Err(e) ==> e == (UnboundHalfEdgeError { halfedge: self.index }),
    {
        proof {
            assert(self.simplicial.halfedge_wf(self.index as int));
        }
        match self.simplicial.halfedges[self.index].opposite {
            Some(o) => Ok(IterHalfEdge2 { simplicial: self.simplicial, index: o }),
            None => Err(UnboundHalfEdgeError { halfedge: self.index }),
        }
    }

    /// The triangle this half-edge bounds.
    pub fn triangle(&self) -> (r: IterTriangle2<'a>)
        requires
            self.wf(),
        ensures
            r.wf(),
            r.simplicial == self.simplicial,
            r.ind_triangle == self.simplicial.halfedge(self.index as int).triangle,
    {
        proof {
            assert(self.simplicial.halfedge_wf(self.index as int));
        }
        IterTriangle2 {
            simplicial: self.simplicial,
            ind_triangle: self.simplicial.halfedges[self.index].triangle,
        }
    }

    /// Textual rendering of the half-edge as its two endpoint values, for
    /// display only; the text carries no contract.
    pub fn to_string(&self) -> (r: String)
        requires
            self.wf(),
    {
        let first = self.first_node().value();
        let last = self.last_node().value();
        format_halfedge_text(first, last)
    }
}

impl<'a> IterTriangle2<'a> {
    /// A triangle handle is usable while its container is well formed and
    /// its index is allocated.
    pub open spec fn wf(self) -> bool {
        self.simplicial.wf() && (self.ind_triangle as int) < self.simplicial.triangles@.len()
    }

    /// The arena index of this triangle.  Stable while the container is
    /// not mutated; a mutation may invalidate it.
    pub fn index(&self) -> (r: usize)
        ensures
            r == self.ind_triangle,
    {
        self.ind_triangle
    }

    /// The three bounding half-edges, in stored cyclic order.
    pub fn halfedges(&self) -> (r: [IterHalfEdge2<'a>; 3])
        requires
            self.wf(),
        ensures
            r@[0].simplicial == self.simplicial && r@[0].wf() && r@[0].index == 3
                * self.ind_triangle,
            r@[1].simplicial == self.simplicial && r@[1].wf() && r@[1].index == 3
                * self.ind_triangle + 1,
            r@[2].simplicial == self.simplicial && r@[2].wf() && r@[2].index == 3
                * self.ind_triangle + 2,
    {
        proof {
            assert(self.simplicial.halfedges.len() == self.simplicial.halfedges@.len());
            assert(self.simplicial.triangle_wf(self.ind_triangle as int));
        }
        let tr = self.simplicial.triangles[self.ind_triangle];
        let r = [
            IterHalfEdge2 { simplicial: self.simplicial, index: tr.halfedges[0] },
            IterHalfEdge2 { simplicial: self.simplicial, index: tr.halfedges[1] },
            IterHalfEdge2 { simplicial: self.simplicial, index: tr.halfedges[2] },
        ];
        r
    }

    /// The three origin node values, in stored cyclic order.
    pub fn node_values(&self) -> (r: [usize; 3])
        requires
            self.wf(),
        ensures
            (r@[0], r@[1], r@[2]) == self.simplicial.triangle_nodes(self.ind_triangle as int),
    {
        proof {
            assert(self.simplicial.halfedges.len() == self.simplicial.halfedges@.len());
            assert(self.simplicial.triangle_wf(self.ind_triangle as int));
        }
        let tr = self.simplicial.triangles[self.ind_triangle];
        let r = [
            self.simplicial.halfedges[tr.halfedges[0]].first_node,
            self.simplicial.halfedges[tr.halfedges[1]].first_node,
            self.simplicial.halfedges[tr.halfedges[2]].first_node,
        ];
        proof {
            assert(r@[0] == self.simplicial.first_node_of(3 * self.ind_triangle));
            assert(r@[1] == self.simplicial.first_node_of(3 * self.ind_triangle + 1));
            assert(r@[2] == self.simplicial.first_node_of(3 * self.ind_triangle + 2));
        }
        r
    }

    /// Node handles for the three corners, in stored cyclic order.
    pub fn nodes(&self) -> (r: [IterNode2<'a>; 3])
        requires
            self.wf(),
        ensures
            r@[0].simplicial == self.simplicial && r@[0].wf() && r@[0].ind_halfedge == 3
                * self.ind_triangle,
            r@[1].simplicial == self.simplicial && r@[1].wf() && r@[1].ind_halfedge == 3
                * self.ind_triangle + 1,
            r@[2].simplicial == self.simplicial && r@[2].wf() && r@[2].ind_halfedge == 3
                * self.ind_triangle + 2,
            (r@[0].value_spec(), r@[1].value_spec(), r@[2].value_spec())
                == self.simplicial.triangle_nodes(self.ind_triangle as int),
    {
        let hes = self.halfedges();
        proof {
            assert(self.simplicial.halfedges.len() == self.simplicial.halfedges@.len());
            assert(self.simplicial.triangle_wf(self.ind_triangle as int));
        }
        let r = [hes[0].first_node(), hes[1].first_node(), hes[2].first_node()];
        r
    }

    /// Textual rendering of the triangle as its three corner values, for
    /// display only; the text carries no contract.
    pub fn to_string(&self) -> (r: String)
        requires
            self.wf(),
    {
        let values = self.node_values();
        format_triangle_text(values[0], values[1], values[2])
    }
}

/// Relies on the std `format!` macro to render the node value in decimal.
#[verifier::external_body]
fn format_node_text(value: usize) -> (r: String) {
    format!("Node {}", value)
}

/// Relies on the std `format!` macro to render two node values in decimal.
#[verifier::external_body]
fn format_halfedge_text(first: usize, last: usize) -> (r: String) {
    format!("{} -> {}", first, last)
}

/// Relies on the std `format!` macro to render three node values in
/// decimal.
#[verifier::external_body]
fn format_triangle_text(node0: usize, node1: usize, node2: usize) -> (r: String) {
    format!("{} -> {} -> {}", node0, node1, node2)
}

/// Whether the ordered triple `tn` is a cyclic rotation of
/// `(node0, node1, node2)`.  Rotation-invariant but orientation-sensitive:
/// the reversed winding names a different face.
pub open spec fn cyclic_triple_match(
    tn: (usize, usize, usize),
    node0: usize,
    node1: usize,
    node2: usize,
) -> bool {
    tn == (node0, node1, node2) || tn == (node1, node2, node0) || tn == (node2, node0, node1)
}

/// Triangle lookup is rotation invariant: rotating the requested corner
/// values matches exactly the same ordered triples.
pub proof fn lemma_cyclic_match_rotation(
    tn: (usize, usize, usize),
    node0: usize,
    node1: usize,
    node2: usize,
)
    ensures
        cyclic_triple_match(tn, node0, node1, node2) == cyclic_triple_match(
            tn,
            node1,
            node2,
            node0,
        ),
{
}

impl Simplicial2 {
    /// Whether some half-edge originates at node value `node0`, that is,
    /// whether the node is present in the complex.
    pub open spec fn has_node(self, node0: usize) -> bool {
        exists|h: int|
            self.valid_halfedge_index(h) && #[trigger] self.first_node_of(h) == node0
    }

    /// Bounds-checked half-edge accessor: a handle to the half-edge stored
    /// at `ind_halfedge`, or an [`IndexOutOfRangeError`] when no such
    /// half-edge is currently allocated.
    pub fn get_halfedge_from_index<'a>(&'a self, ind_halfedge: usize) -> (r: Result<
        IterHalfEdge2<'a>,
        IndexOutOfRangeError,
    >)
        requires
            self.wf(),
        ensures
            r is Ok <==> (ind_halfedge as int) < self.halfedges@.len(),
            r matches Ok(it) ==> (it.wf() && it.simplicial == self && it.index == ind_halfedge),
            r matches Err(e) ==> e == (IndexOutOfRangeError { index: ind_halfedge }),
    {
        if ind_halfedge < self.halfedges.len() {
            Ok(IterHalfEdge2 { simplicial: self, index: ind_halfedge })
        } else {
            Err(IndexOutOfRangeError { index: ind_halfedge })
        }
    }

    /// Bounds-checked triangle accessor: a handle to the triangle stored
    /// at `ind_triangle`, or an [`IndexOutOfRangeError`] when no such
    /// triangle is currently allocated.
    pub fn get_triangle_from_index<'a>(&'a self, ind_triangle: usize) -> (r: Result<
        IterTriangle2<'a>,
        IndexOutOfRangeError,
    >)
        requires
            self.wf(),
        ensures
            r is Ok <==> (ind_triangle as int) < self.triangles@.len(),
            r matches Ok(it) ==> (it.wf() && it.simplicial == self && it.ind_triangle
                == ind_triangle),
            r matches Err(e) ==> e == (IndexOutOfRangeError { index: ind_triangle }),
    {
        if ind_triangle < self.triangles.len() {
            Ok(IterTriangle2 { simplicial: self, ind_triangle })
        } else {
            Err(IndexOutOfRangeError { index: ind_triangle })
        }
    }

    /// A handle to the node with value `node0`, if any half-edge
    /// originates there.  Answered from the per-node index when one is
    /// maintained, by exhaustive scan otherwise.
    pub fn find_node<'a>(&'a self, node0: usize) -> (r: Option<IterNode2<'a>>)
        requires
            self.wf(),
        ensures
            r is Some <==> self.has_node(node0),
            r matches Some(it) ==> (it.wf() && it.simplicial == self && it.value_spec() == node0),
    {
        if self.register_node_halfedges {
            let nb: usize = self.node_halfedges.len();
            let mut i: usize = 0;
            while i < nb
                invariant
                    self.wf(),
                    self.register_node_halfedges,
                    nb == self.node_halfedges@.len(),
                    i <= nb,
                    forall|j: int| 0 <= j < i ==> self.node_halfedges@[j].node != node0,
                decreases nb - i,
            {
                if self.node_halfedges[i].node == node0 {
                    proof {
                        assert(self.node_record_wf(i as int));
                        assert(self.first_node_of(
                            self.node_halfedges@[i as int].halfedges@[0] as int,
                        ) == node0);
                    }
                    let list = &self.node_halfedges[i].halfedges;
                    return Some(IterNode2 { simplicial: self, ind_halfedge: list[0] });
                }
                i = i + 1;
            }
            proof {
                if self.has_node(node0) {
                    let h = choose|h: int|
                        self.valid_halfedge_index(h) && #[trigger] self.first_node_of(h) == node0;
                    assert(self.node_indexed(h));
                    let j = choose|j: int|
                        0 <= j < self.node_halfedges@.len() && (#[trigger] self.node_halfedges@[j]).node
                            == self.first_node_of(h) && self.node_halfedges@[j].halfedges@.contains(
                            h as usize,
                        );
                    assert(self.node_halfedges@[j].node == node0);
                    assert(false);
                }
            }
            None
        } else {
            let nb: usize = self.halfedges.len();
            let mut h: usize = 0;
            while h < nb
                invariant
                    self.wf(),
                    nb == self.halfedges@.len(),
                    h <= nb,
                    forall|j: int| 0 <= j < h ==> #[trigger] self.first_node_of(j) != node0,
                decreases nb - h,
            {
                if self.halfedges[h].first_node == node0 {
                    proof {
                        assert(self.first_node_of(h as int) == node0);
                    }
                    return Some(IterNode2 { simplicial: self, ind_halfedge: h });
                }
                h = h + 1;
            }
            None
        }
    }

    /// A handle to the half-edge whose directed endpoints are exactly
    /// `(node0, node1)`, if present.
    pub fn find_halfedge<'a>(&'a self, node0: usize, node1: usize) -> (r: Option<
        IterHalfEdge2<'a>,
    >)
        requires
            self.wf(),
        ensures
            r is Some <==> self.has_halfedge(node0, node1),
            r matches Some(it) ==> (it.wf() && it.simplicial == self && self.halfedge_nodes(
                it.index as int,
            ) == (node0, node1)),
    {
        match self.find_halfedge_index(node0, node1) {
            Some(h) => Some(IterHalfEdge2 { simplicial: self, index: h }),
            None => None,
        }
    }

    /// A handle to the triangle whose three node values are, in some
    /// cyclic rotation, exactly `(node0, node1, node2)`, if present.
    /// The match is rotation-invariant but orientation-sensitive.
    pub fn find_triangle<'a>(&'a self, node0: usize, node1: usize, node2: usize) -> (r: Option<
        IterTriangle2<'a>,
    >)
        requires
            self.wf(),
        ensures
            r is Some <==> (exists|t: int|
                self.valid_triangle_index(t) && cyclic_triple_match(
                    #[trigger] self.triangle_nodes(t),
                    node0,
                    node1,
                    node2,
                )),
            r matches Some(it) ==> (it.wf() && it.simplicial == self && cyclic_triple_match(
                self.triangle_nodes(it.ind_triangle as int),
                node0,
                node1,
                node2,
            )),
    {
        let nb: usize = self.triangles.len();
        let mut t: usize = 0;
        while t < nb
            invariant
                self.wf(),
                nb == self.triangles@.len(),
                t <= nb,
                forall|tt: int|
                    0 <= tt < t ==> !cyclic_triple_match(
                        #[trigger] self.triangle_nodes(tt),
                        node0,
                        node1,
                        node2,
                    ),
            decreases nb - t,
        {
            proof {
                assert(self.halfedges.len() == self.halfedges@.len());
                assert(self.triangle_wf(t as int));
            }
            let tr = self.triangles[t];
            let a = self.halfedges[tr.halfedges[0]].first_node;
            let b = self.halfedges[tr.halfedges[1]].first_node;
            let c = self.halfedges[tr.halfedges[2]].first_node;
            proof {
                assert(self.triangle_nodes(t as int) == (a, b, c));
            }
            if (a == node0 && b == node1 && c == node2) || (a == node1 && b == node2 && c == node0)
                || (a == node2 && b == node0 && c == node1) {
                return Some(IterTriangle2 { simplicial: self, ind_triangle: t });
            }
            t = t + 1;
        }
        None
    }
}

} // verus!
