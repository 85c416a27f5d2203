use shallow_water::mesh::{MeshError, TriangularMesh};

fn build(nx: usize, ny: usize) -> TriangularMesh {
    match TriangularMesh::new_rectangular(nx, ny) {
        Ok(m) => m,
        Err(_) => panic!("mesh construction failed"),
    }
}

#[test]
fn test_mesh_creation_basic() {
    let mesh = build(3, 3);

    // Should have 3x3 = 9 nodes
    assert_eq!(mesh.node_count(), 9);

    // Should have 2 triangles per cell = 2*(3-1)*(3-1) = 8 triangles
    assert_eq!(mesh.triangle_count(), 8);
}

#[test]
fn test_mesh_consistency() {
    let mesh = build(5, 5);

    // Total number of nodes should match grid size
    let nx = 5;
    let ny = 5;
    assert_eq!(mesh.node_count(), nx * ny);

    // Number of triangles = 2 * (nx-1) * (ny-1)
    let expected_triangles = 2 * (nx - 1) * (ny - 1);
    assert_eq!(mesh.triangle_count(), expected_triangles);
}

#[test]
fn test_neighbor_connectivity() {
    let mesh = build(4, 4);

    // Check that neighbor references are valid
    for tri in &mesh.triangles {
        for neighbor_id in &tri.neighbors {
            if let Some(id) = neighbor_id {
                assert!(*id < mesh.triangles.len(), "Neighbor ID should be valid");
            }
        }
    }
}

#[test]
fn test_edges_generation() {
    let mesh = build(4, 4);

    // Should have edges (Euler formula for planar graphs)
    assert!(mesh.edges.len() > 0);

    // A 4x4 grid has 12 horizontal, 12 vertical and 9 diagonal edges.
    assert_eq!(mesh.edge_count(), 33);
}

#[test]
fn invalid_resolution_rejected() {
    assert!(matches!(
        TriangularMesh::new_rectangular(1, 5),
        Err(MeshError::InvalidResolution)
    ));
    assert!(matches!(
        TriangularMesh::new_rectangular(5, 1),
        Err(MeshError::InvalidResolution)
    ));
    assert!(matches!(
        TriangularMesh::new_rectangular(0, 0),
        Err(MeshError::InvalidResolution)
    ));
    assert!(TriangularMesh::new_rectangular(2, 2).is_ok());
}

#[test]
fn smallest_mesh_exact_topology() {
    let mesh = build(2, 2);

    assert_eq!(mesh.node_count(), 4);
    assert_eq!(mesh.triangle_count(), 2);
    assert_eq!(mesh.edge_count(), 5);

    // Lower triangle of the single cell.
    assert_eq!(mesh.triangles[0].id, 0);
    assert_eq!(mesh.triangles[0].nodes, [0, 1, 2]);
    assert_eq!(mesh.triangles[0].neighbors, [None, Some(1), None]);

    // Upper triangle of the single cell.
    assert_eq!(mesh.triangles[1].id, 1);
    assert_eq!(mesh.triangles[1].nodes, [1, 3, 2]);
    assert_eq!(mesh.triangles[1].neighbors, [None, None, Some(0)]);

    // The five edges, in emission order, with left/right references.
    let e = &mesh.edges;
    assert_eq!((e[0].node_a, e[0].node_b), (0, 1));
    assert_eq!((e[0].left_triangle, e[0].right_triangle), (0, None));
    assert_eq!((e[1].node_a, e[1].node_b), (1, 2));
    assert_eq!((e[1].left_triangle, e[1].right_triangle), (0, Some(1)));
    assert_eq!((e[2].node_a, e[2].node_b), (2, 0));
    assert_eq!((e[2].left_triangle, e[2].right_triangle), (0, None));
    assert_eq!((e[3].node_a, e[3].node_b), (1, 3));
    assert_eq!((e[3].left_triangle, e[3].right_triangle), (1, None));
    assert_eq!((e[4].node_a, e[4].node_b), (3, 2));
    assert_eq!((e[4].left_triangle, e[4].right_triangle), (1, None));
}

#[test]
fn neighbor_relation_is_symmetric() {
    let mesh = build(5, 4);

    for (t, tri) in mesh.triangles.iter().enumerate() {
        for neighbor_id in &tri.neighbors {
            if let Some(b) = neighbor_id {
                let back = &mesh.triangles[*b];
                let reciprocal = back
                    .neighbors
                    .iter()
                    .any(|slot| *slot == Some(t));
                assert!(reciprocal, "neighbor relation must be symmetric");
            }
        }
    }
}

#[test]
fn interior_triangle_has_three_neighbors() {
    let mesh = build(4, 4);

    // Every triangle of a grid has at least one neighbor (the other half
    // of its cell), and none lists itself.
    for (t, tri) in mesh.triangles.iter().enumerate() {
        let count = tri.neighbors.iter().filter(|slot| slot.is_some()).count();
        assert!(count >= 1);
        for slot in &tri.neighbors {
            assert_ne!(*slot, Some(t));
        }
    }

    // Boundary edges are exactly the perimeter: 2*(nx-1) + 2*(ny-1).
    let boundary = mesh
        .edges
        .iter()
        .filter(|e| e.right_triangle.is_none())
        .count();
    assert_eq!(boundary, 12);
}

#[test]
fn edge_references_are_ordered_and_in_range() {
    let mesh = build(6, 3);

    for edge in &mesh.edges {
        assert!(edge.left_triangle < mesh.triangle_count());
        assert!(edge.node_a < mesh.node_count());
        assert!(edge.node_b < mesh.node_count());
        assert_ne!(edge.node_a, edge.node_b);
        if let Some(right) = edge.right_triangle {
            assert!(right < mesh.triangle_count());
            assert!(right > edge.left_triangle);
        }
    }
}

#[test]
fn rectangular_mesh_counts() {
    // Non-square grids.
    let mesh = build(11, 6);
    assert_eq!(mesh.node_count(), 66);
    assert_eq!(mesh.triangle_count(), 2 * 10 * 5);
    // 10*6 horizontal + 11*5 vertical + 10*5 diagonal edges.
    assert_eq!(mesh.edge_count(), 60 + 55 + 50);
}

#[test]
fn edge_list_covers_each_local_edge_once() {
    let mesh = build(5, 4);

    // Each unordered node pair is stored at most once.
    let mut pairs: Vec<(usize, usize)> = mesh
        .edges
        .iter()
        .map(|e| {
            if e.node_a < e.node_b {
                (e.node_a, e.node_b)
            } else {
                (e.node_b, e.node_a)
            }
        })
        .collect();
    pairs.sort();
    for w in pairs.windows(2) {
        assert_ne!(w[0], w[1], "edge pair stored twice");
    }

    // Every local edge of every triangle is covered by some stored pair.
    for tri in &mesh.triangles {
        for k in 0..3 {
            let a = tri.nodes[k];
            let b = tri.nodes[(k + 1) % 3];
            let key = if a < b { (a, b) } else { (b, a) };
            assert!(pairs.binary_search(&key).is_ok());
        }
    }
}
