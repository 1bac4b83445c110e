use simplicial2::errors::{IndexOutOfRangeError, TopologyError, UnboundHalfEdgeError};
use simplicial2::simplicial2::{build_from_triangle_list, Simplicial2};

#[test]
fn empty_container() {
    let s = Simplicial2::new(false);
    assert_eq!(s.get_nb_halfedges(), 0);
    assert_eq!(s.get_nb_triangles(), 0);
    assert!(!s.node_halfedges_registered());
    let s2 = Simplicial2::new(true);
    assert!(s2.node_halfedges_registered());
}

#[test]
fn single_closed_triangle_is_all_boundary() {
    let s = build_from_triangle_list(vec![[0, 1, 2]], false).unwrap();
    assert_eq!(s.get_nb_halfedges(), 3);
    assert_eq!(s.get_nb_triangles(), 1);
    for i in 0..3 {
        let he = s.get_halfedge_from_index(i).unwrap();
        assert_eq!(
            he.opposite().err(),
            Some(UnboundHalfEdgeError { halfedge: i })
        );
    }
}

#[test]
fn next_cycles_after_three_steps() {
    let s = build_from_triangle_list(vec![[0, 1, 2], [1, 0, 3], [10, 11, 12]], false).unwrap();
    for i in 0..s.get_nb_halfedges() {
        let he = s.get_halfedge_from_index(i).unwrap();
        assert_eq!(he.next().next().next().index(), i);
        assert_eq!(he.previous().next().index(), i);
    }
}

#[test]
fn opposite_is_a_mutual_reversal() {
    let s = build_from_triangle_list(vec![[0, 1, 2], [1, 0, 3]], false).unwrap();
    for i in 0..s.get_nb_halfedges() {
        let he = s.get_halfedge_from_index(i).unwrap();
        if let Ok(op) = he.opposite() {
            assert_eq!(op.opposite().unwrap().index(), i);
            assert_eq!(op.first_node().value(), he.last_node().value());
            assert_eq!(op.last_node().value(), he.first_node().value());
        }
    }
}

#[test]
fn shared_edge_pairs_exactly_one_couple() {
    let s = build_from_triangle_list(vec![[0, 1, 2], [1, 0, 3]], false).unwrap();
    assert_eq!(s.get_nb_halfedges(), 6);
    assert_eq!(s.get_nb_triangles(), 2);
    let mut paired = Vec::new();
    for i in 0..s.get_nb_halfedges() {
        let he = s.get_halfedge_from_index(i).unwrap();
        if he.opposite().is_ok() {
            paired.push(i);
        }
    }
    assert_eq!(paired.len(), 2);
    let a = s.get_halfedge_from_index(paired[0]).unwrap();
    assert_eq!(a.opposite().unwrap().index(), paired[1]);
    let fwd = s.find_halfedge(0, 1).expect("directed edge (0, 1) is present");
    let rev = s.find_halfedge(1, 0).expect("directed edge (1, 0) is present");
    assert_eq!(fwd.opposite().unwrap().index(), rev.index());
    assert_eq!(rev.opposite().unwrap().index(), fwd.index());
    assert_eq!(fwd.first_node().value(), 0);
    assert_eq!(fwd.last_node().value(), 1);
}

#[test]
fn duplicate_directed_edge_is_rejected_atomically() {
    let mut s = Simplicial2::new(false);
    assert_eq!(s.insert_triangle(0, 1, 2), Ok(0));
    let nb_he = s.get_nb_halfedges();
    let nb_tri = s.get_nb_triangles();
    assert_eq!(
        s.insert_triangle(0, 1, 3),
        Err(TopologyError::DuplicateHalfEdge(0, 1))
    );
    assert_eq!(s.get_nb_halfedges(), nb_he);
    assert_eq!(s.get_nb_triangles(), nb_tri);
}

#[test]
fn degenerate_triangle_is_rejected() {
    let mut s = Simplicial2::new(true);
    assert_eq!(
        s.insert_triangle(4, 4, 5),
        Err(TopologyError::DegenerateTriangle(4, 4, 5))
    );
    assert_eq!(s.get_nb_halfedges(), 0);
    assert!(build_from_triangle_list(vec![[0, 1, 2], [3, 3, 4]], false).is_err());
}

#[test]
fn bulk_build_reports_first_offending_triple() {
    let r = build_from_triangle_list(vec![[0, 1, 2], [1, 2, 3], [7, 7, 7]], false);
    assert_eq!(r.err(), Some(TopologyError::DuplicateHalfEdge(1, 2)));
    let r2 = build_from_triangle_list(vec![[0, 1, 2], [9, 9, 9], [0, 1, 3]], false);
    assert_eq!(r2.err(), Some(TopologyError::DegenerateTriangle(9, 9, 9)));
}

#[test]
fn find_triangle_matches_rotations_not_reversal() {
    let s = build_from_triangle_list(vec![[0, 1, 2], [1, 0, 3]], false).unwrap();
    assert_eq!(s.find_triangle(0, 1, 2).unwrap().index(), 0);
    assert_eq!(s.find_triangle(1, 2, 0).unwrap().index(), 0);
    assert_eq!(s.find_triangle(2, 0, 1).unwrap().index(), 0);
    assert!(s.find_triangle(0, 2, 1).is_none());
    assert!(s.find_triangle(2, 1, 0).is_none());
    assert_eq!(s.find_triangle(1, 0, 3).unwrap().index(), 1);
    assert!(s.find_triangle(4, 5, 6).is_none());
}

#[test]
fn triangle_handles_expose_corners_in_cyclic_order() {
    let s = build_from_triangle_list(vec![[5, 9, 7]], false).unwrap();
    let tri = s.get_triangle_from_index(0).unwrap();
    assert_eq!(tri.index(), 0);
    assert_eq!(tri.node_values(), [5, 9, 7]);
    let hes = tri.halfedges();
    assert_eq!(hes[0].index(), 0);
    assert_eq!(hes[1].index(), 1);
    assert_eq!(hes[2].index(), 2);
    let nodes = tri.nodes();
    assert_eq!(nodes[0].value(), 5);
    assert_eq!(nodes[1].value(), 9);
    assert_eq!(nodes[2].value(), 7);
    for k in 0..3 {
        assert_eq!(hes[k].triangle().index(), 0);
    }
}

#[test]
fn node_halfedges_match_a_linear_scan() {
    let triangles = vec![[0, 1, 2], [1, 0, 3], [2, 1, 4]];
    let indexed = build_from_triangle_list(triangles.clone(), true).unwrap();
    let scanned = build_from_triangle_list(triangles, false).unwrap();
    for node in 0..5 {
        let from_index: Vec<usize> = indexed
            .find_node(node)
            .expect("node is present")
            .halfedges()
            .iter()
            .map(|he| he.index())
            .collect();
        let from_scan: Vec<usize> = scanned
            .find_node(node)
            .expect("node is present")
            .halfedges()
            .iter()
            .map(|he| he.index())
            .collect();
        assert_eq!(from_index, from_scan);
        let mut oracle = Vec::new();
        for i in 0..indexed.get_nb_halfedges() {
            let he = indexed.get_halfedge_from_index(i).unwrap();
            if he.first_node().value() == node {
                oracle.push(i);
            }
        }
        assert_eq!(from_index, oracle);
        assert!(!oracle.is_empty());
    }
}

#[test]
fn find_node_distinguishes_present_from_absent() {
    let s = build_from_triangle_list(vec![[0, 1, 2]], true).unwrap();
    let n = s.find_node(1).expect("node 1 is present");
    assert_eq!(n.value(), 1);
    assert!(s.find_node(42).is_none());
    let s2 = build_from_triangle_list(vec![[0, 1, 2]], false).unwrap();
    assert_eq!(s2.find_node(2).expect("node 2 is present").value(), 2);
    assert!(s2.find_node(42).is_none());
}

#[test]
fn accessors_reject_unallocated_indices() {
    let s = build_from_triangle_list(vec![[0, 1, 2]], false).unwrap();
    assert!(s.get_halfedge_from_index(2).is_ok());
    assert_eq!(
        s.get_halfedge_from_index(3).err(),
        Some(IndexOutOfRangeError { index: 3 })
    );
    assert!(s.get_triangle_from_index(0).is_ok());
    assert_eq!(
        s.get_triangle_from_index(1).err(),
        Some(IndexOutOfRangeError { index: 1 })
    );
}

#[test]
fn repeated_reads_return_identical_results() {
    let s = build_from_triangle_list(vec![[0, 1, 2], [1, 0, 3]], true).unwrap();
    for i in 0..s.get_nb_halfedges() {
        let he1 = s.get_halfedge_from_index(i).unwrap();
        let he2 = s.get_halfedge_from_index(i).unwrap();
        assert_eq!(he1.next().index(), he2.next().index());
        assert_eq!(he1.previous().index(), he2.previous().index());
        assert_eq!(he1.first_node().value(), he2.first_node().value());
        assert_eq!(he1.last_node().value(), he2.last_node().value());
        assert_eq!(
            he1.opposite().map(|o| o.index()),
            he2.opposite().map(|o| o.index())
        );
        assert_eq!(he1.triangle().index(), he2.triangle().index());
    }
    assert_eq!(
        s.find_triangle(0, 1, 2).map(|t| t.index()),
        s.find_triangle(0, 1, 2).map(|t| t.index())
    );
}

#[test]
fn incremental_and_bulk_agree() {
    let mut incremental = Simplicial2::new(true);
    assert_eq!(incremental.insert_triangle(0, 1, 2), Ok(0));
    assert_eq!(incremental.insert_triangle(1, 0, 3), Ok(1));
    let bulk = build_from_triangle_list(vec![[0, 1, 2], [1, 0, 3]], true).unwrap();
    assert_eq!(incremental.get_nb_halfedges(), bulk.get_nb_halfedges());
    assert_eq!(incremental.get_nb_triangles(), bulk.get_nb_triangles());
    for i in 0..bulk.get_nb_halfedges() {
        let a = incremental.get_halfedge_from_index(i).unwrap();
        let b = bulk.get_halfedge_from_index(i).unwrap();
        assert_eq!(a.first_node().value(), b.first_node().value());
        assert_eq!(a.next().index(), b.next().index());
        assert_eq!(
            a.opposite().map(|o| o.index()),
            b.opposite().map(|o| o.index())
        );
    }
}

#[test]
fn textual_renderings_name_the_values() {
    let s = build_from_triangle_list(vec![[5, 9, 7]], false).unwrap();
    let he = s.get_halfedge_from_index(0).unwrap();
    assert_eq!(he.first_node().to_string(), "Node 5");
    assert_eq!(he.to_string(), "5 -> 9");
    assert_eq!(s.get_triangle_from_index(0).unwrap().to_string(), "5 -> 9 -> 7");
}

#[test]
fn insertion_works_after_bulk_construction() {
    let mut s = build_from_triangle_list(vec![[0, 1, 2]], true).unwrap();
    assert_eq!(s.insert_triangle(1, 0, 3), Ok(1));
    assert_eq!(s.get_nb_triangles(), 2);
    assert_eq!(s.get_nb_halfedges(), 6);
    let fwd = s.find_halfedge(0, 1).expect("directed edge (0, 1) is present");
    assert_eq!(fwd.opposite().unwrap().first_node().value(), 1);
}
