use ufbx::geometry::{compute_topology, generate_indices, topo_next_vertex_edge, topo_prev_vertex_edge, VertexStream};
use ufbx::types::{Edge, Face};

#[test]
fn test_topology_triangle() {
    let faces = vec![Face { index_begin: 0, num_indices: 3 }];
    let vertex_indices = vec![0, 1, 2];
    let topo = compute_topology(&faces, &vertex_indices, &[]);
    assert_eq!(topo.len(), 3);
    assert_eq!(topo[0].face, 0);
    assert_eq!(topo[0].next, 1);
    assert_eq!(topo[0].prev, 2);
}

#[test]
fn topology_two_triangles_share_an_edge() {
    // Triangles (0,1,2) and (2,1,3) share the edge between vertices 1 and 2.
    let faces = vec![Face { index_begin: 0, num_indices: 3 }, Face { index_begin: 3, num_indices: 3 }];
    let vertex_indices = vec![0, 1, 2, 2, 1, 3];
    let edges = vec![Edge { a: 1, b: 2 }, Edge { a: 0, b: 1 }];
    let topo = compute_topology(&faces, &vertex_indices, &edges);
    assert_eq!(topo.len(), 6);
    assert_eq!(topo[1].twin, Some(3));
    assert_eq!(topo[3].twin, Some(1));
    assert_eq!(topo[0].twin, None);
    assert_eq!(topo[4].face, 1);
    assert_eq!(topo[1].edge, Some(0));
    assert_eq!(topo[3].edge, Some(0));
    assert_eq!(topo[0].edge, Some(1));
    assert_eq!(topo[2].edge, None);
    assert!(!topo[1].flags.non_manifold);
    assert_eq!(topo_next_vertex_edge(&topo, 1), Some(topo[3].next));
    assert_eq!(topo_next_vertex_edge(&topo, 0), None);
    assert_eq!(topo_prev_vertex_edge(&topo, 4), topo[3].twin);
}

#[test]
fn topology_non_manifold_edge() {
    let faces = vec![
        Face { index_begin: 0, num_indices: 3 },
        Face { index_begin: 3, num_indices: 3 },
        Face { index_begin: 6, num_indices: 3 },
    ];
    let vertex_indices = vec![0, 1, 2, 1, 0, 3, 0, 1, 4];
    let topo = compute_topology(&faces, &vertex_indices, &[]);
    assert!(topo[0].flags.non_manifold);
    assert!(topo[3].flags.non_manifold);
    assert!(topo[6].flags.non_manifold);
    assert_eq!(topo[0].twin, None);
}

#[test]
fn index_generation_merges_equal_vertices() {
    let positions = [1u8, 1, 2, 2, 1, 1, 3, 3];
    let colors = [9u8, 8, 9, 9];
    let streams = vec![
        VertexStream { data: &positions, vertex_size: 2 },
        VertexStream { data: &colors, vertex_size: 1 },
    ];
    let (unique, indices) = generate_indices(&streams, 4).unwrap();
    assert_eq!(indices, vec![0, 1, 0, 2]);
    assert_eq!(unique[0], vec![vec![1, 1], vec![2, 2], vec![3, 3]]);
    assert_eq!(unique[1], vec![vec![9], vec![8], vec![9]]);
    for (i, &k) in indices.iter().enumerate() {
        assert_eq!(unique[0][k as usize], positions[i * 2..i * 2 + 2].to_vec());
    }
}

#[test]
fn index_generation_errors() {
    let err = generate_indices(&[], 3).unwrap_err();
    assert_eq!(err.to_string(), "Unknown error: No vertex streams provided");
    let data = [1u8, 2];
    let streams = vec![VertexStream { data: &data, vertex_size: 2 }];
    let err = generate_indices(&streams, 2).unwrap_err();
    assert_eq!(err.to_string(), "Unknown error: Truncated vertex stream");
}
