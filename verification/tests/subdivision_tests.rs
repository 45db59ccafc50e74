use ufbx::subdivision::{SubdivisionEvaluator, TopoEdge, NO_INDEX};
use ufbx::types::Face;

fn cube_faces() -> Vec<Face> {
    (0..6).map(|f| Face { index_begin: f * 4, num_indices: 4 }).collect()
}

fn cube_indices() -> Vec<u32> {
    vec![
        0, 1, 2, 3, // -Z
        4, 7, 6, 5, // +Z
        0, 4, 5, 1, // -Y
        3, 2, 6, 7, // +Y
        0, 3, 7, 4, // -X
        1, 5, 6, 2, // +X
    ]
}

fn cube_topology() -> Vec<TopoEdge> {
    SubdivisionEvaluator::build_topology(&cube_faces(), 24, &cube_indices()).unwrap()
}

#[test]
fn test_topology_building() {
    let topo = cube_topology();

    assert_eq!(topo.len(), 24);

    for edge in &topo {
        assert!(edge.next < 24);
        assert!(edge.prev < 24);
    }

    let mut twin_count = 0;
    for edge in &topo {
        if edge.twin != NO_INDEX {
            twin_count += 1;
        }
    }

    assert_eq!(twin_count, 24);
}

#[test]
fn topology_links_within_faces_and_twins() {
    let topo = cube_topology();
    assert_eq!(topo[0], TopoEdge { next: 1, prev: 3, twin: topo[0].twin, face: 0 });
    assert_eq!(topo[7].next, 4);
    assert_eq!(topo[7].prev, 6);
    assert_eq!(topo[21].face, 5);
    let idx = cube_indices();
    for (i, e) in topo.iter().enumerate() {
        let t = e.twin as usize;
        assert_eq!(topo[t].twin as usize, i);
        // the twin runs the other way
        assert_eq!(idx[t], idx[e.next as usize]);
        assert_eq!(idx[topo[t].next as usize], idx[i]);
    }
    assert!(SubdivisionEvaluator::topology_is_linked(&topo));
}

#[test]
fn topology_of_a_single_triangle_has_borders() {
    let faces = vec![Face { index_begin: 0, num_indices: 3 }];
    let topo = SubdivisionEvaluator::build_topology(&faces, 3, &[0, 1, 2]).unwrap();
    assert!(topo.iter().all(|e| e.twin == NO_INDEX));
    assert_eq!(topo[2].next, 0);
    assert_eq!(topo[0].prev, 2);
}

#[test]
fn layout_of_the_cube() {
    let topo = cube_topology();
    let idx = cube_indices();
    assert!(SubdivisionEvaluator::rings_close(&topo, &idx, 8));
    let layout = SubdivisionEvaluator::subdivision_layout(&idx, 8, 6, &topo);
    assert_eq!(layout.edge_corners.len(), 12);
    assert_eq!(layout.vertex_points.len(), 8);
    assert_eq!(layout.face_start, 1);
    assert_eq!(layout.edge_start, 7);
    assert_eq!(layout.vert_start, 19);
    assert_eq!(layout.indices.len(), 24 * 4);
    for ring in &layout.vertex_points {
        assert_eq!(ring.corners.len(), 3);
        assert!(!ring.boundary);
    }
    // corner 0: vertex point of value 0, its edge point, face 0, the edge
    // point of corner 3
    assert_eq!(layout.indices[0], 19 + layout.vertex_point_indices[0]);
    assert_eq!(layout.indices[1], 7 + layout.edge_indices[0]);
    assert_eq!(layout.indices[2], 1);
    assert_eq!(layout.indices[3], 7 + layout.edge_indices[3]);
    assert_eq!(layout.vertex_point_indices[0], 0);
    assert_eq!(layout.vertex_point_indices[4], 4);
    assert_eq!(layout.vertex_point_indices[5], 7);
    let top = *layout.indices.iter().max().unwrap();
    assert!(top < 19 + 8);
}

#[test]
fn layout_of_a_triangle_keeps_its_corners() {
    let faces = vec![Face { index_begin: 0, num_indices: 3 }];
    let idx = [0u32, 1, 2];
    let topo = SubdivisionEvaluator::build_topology(&faces, 3, &idx).unwrap();
    assert!(SubdivisionEvaluator::rings_close(&topo, &idx, 4));
    let layout = SubdivisionEvaluator::subdivision_layout(&idx, 4, 1, &topo);
    assert_eq!(layout.edge_corners, vec![0, 1, 2]);
    assert_eq!(layout.vertex_points.len(), 3);
    assert!(layout.vertex_points.iter().all(|r| r.boundary && r.corners.len() == 1));
    assert_eq!(layout.vertex_point_indices, vec![0, 1, 2]);
    assert_eq!(layout.indices[..4], [5, 2, 1, 4]);
}

#[test]
fn subdivided_faces_are_quads() {
    let faces = SubdivisionEvaluator::subdivided_faces(24);
    assert_eq!(faces.len(), 24);
    for (i, f) in faces.iter().enumerate() {
        assert_eq!(f.num_indices, 4);
        assert_eq!(f.index_begin as usize, i * 4);
    }
}

#[test]
fn per_face_entries_spread_over_corners() {
    let faces = vec![Face { index_begin: 0, num_indices: 2 }, Face { index_begin: 2, num_indices: 3 }];
    let mats = vec![7u32, 8, 9];
    assert_eq!(SubdivisionEvaluator::spread_per_face(&faces, &mats), vec![7, 7, 9, 9, 9]);
    let none: Vec<bool> = Vec::new();
    assert!(SubdivisionEvaluator::spread_per_face(&faces, &none).is_empty());
}
