use shallow_water::grid::{build_triangles, Triangle};
use shallow_water::neighbors::{count_shared_nodes, find_edge_index, set_neighbor, tri_contains};

fn tri(id: usize, nodes: [usize; 3]) -> Triangle {
    Triangle {
        id,
        nodes,
        neighbors: [None, None, None],
    }
}

#[test]
fn shared_node_counting() {
    let a = tri(0, [0, 1, 2]);
    let b = tri(1, [1, 3, 2]);
    let c = tri(2, [4, 5, 6]);
    let d = tri(3, [2, 7, 8]);

    assert_eq!(count_shared_nodes(&a, &b), 2);
    assert_eq!(count_shared_nodes(&b, &a), 2);
    assert_eq!(count_shared_nodes(&a, &c), 0);
    assert_eq!(count_shared_nodes(&a, &d), 1);
    assert_eq!(count_shared_nodes(&a, &a), 3);
}

#[test]
fn edge_index_of_shared_pair() {
    let a = tri(0, [0, 1, 2]);
    let b = tri(1, [1, 3, 2]);

    // a shares its local edge 1 (nodes 1 -> 2) with b.
    assert_eq!(find_edge_index(&a, &b), 1);
    // b shares its local edge 2 (nodes 2 -> 1) with a.
    assert_eq!(find_edge_index(&b, &a), 2);
    // No shared edge yields the default slot 0.
    let c = tri(2, [4, 5, 6]);
    assert_eq!(find_edge_index(&a, &c), 0);
}

#[test]
fn node_membership() {
    let a = tri(0, [3, 9, 5]);
    assert!(tri_contains(&a, 3));
    assert!(tri_contains(&a, 9));
    assert!(tri_contains(&a, 5));
    assert!(!tri_contains(&a, 4));
}

#[test]
fn neighbor_slot_update() {
    let a = tri(7, [0, 1, 2]);
    let b = set_neighbor(a, 1, Some(12));
    assert_eq!(b.id, 7);
    assert_eq!(b.nodes, [0, 1, 2]);
    assert_eq!(b.neighbors, [None, Some(12), None]);
}

#[test]
fn triangle_layout_row_major() {
    // A 3x2 lattice has two cells side by side, four triangles.
    let tris = build_triangles(3, 2);
    assert_eq!(tris.len(), 4);
    assert_eq!(tris[0].nodes, [0, 1, 3]);
    assert_eq!(tris[1].nodes, [1, 4, 3]);
    assert_eq!(tris[2].nodes, [1, 2, 4]);
    assert_eq!(tris[3].nodes, [2, 5, 4]);
    for (t, tri) in tris.iter().enumerate() {
        assert_eq!(tri.id, t);
        assert_eq!(tri.neighbors, [None, None, None]);
    }
}

#[test]
fn neighbor_detection_records_reciprocally() {
    let mut tris = vec![tri(0, [0, 1, 2]), tri(1, [1, 3, 2])];
    let r = shallow_water::neighbors::build_neighbors(&mut tris);
    assert!(r.is_ok());
    assert_eq!(tris[0].neighbors, [None, Some(1), None]);
    assert_eq!(tris[1].neighbors, [None, None, Some(0)]);
}

#[test]
fn non_manifold_input_is_rejected() {
    // Three triangles all sharing the node pair (0, 1): the local edge is
    // claimed twice, which must be reported, not silently overwritten.
    let mut tris = vec![tri(0, [0, 1, 2]), tri(1, [0, 1, 3]), tri(2, [0, 1, 4])];
    let r = shallow_water::neighbors::build_neighbors(&mut tris);
    assert!(matches!(
        r,
        Err(shallow_water::mesh::MeshError::MalformedTopology)
    ));
}
