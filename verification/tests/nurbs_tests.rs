use ufbx::error::Error;
use ufbx::nurbs::NurbsEvaluator;
use ufbx::types::Face;

fn reason(e: Error) -> String {
    match e {
        Error::BadNurbs { reason } => reason,
        other => panic!("unexpected error {:?}", other),
    }
}

#[test]
fn surface_grid_layout() {
    let g = NurbsEvaluator::surface_grid(true, true, 4, 4, 3, 3, 2, 2).unwrap();
    assert_eq!((g.sub_u, g.spans_u, g.indices_u, g.faces_u), (2, 2, 3, 2));
    assert_eq!(g.num_indices, 9);
    assert_eq!(g.num_faces, 4);
    assert_eq!(g.faces.len(), 4);
    assert_eq!(g.faces[3], Face { index_begin: 12, num_indices: 4 });
    assert_eq!(g.vertex_indices[..8], [0, 1, 4, 3, 1, 2, 5, 4]);
    assert_eq!(g.vertex_indices.len(), 16);
    assert_eq!(g.samples_u, vec![(0, 0, 2), (0, 1, 2), (1, 0, 2), (1, 1, 2), (2, 0, 1)]);
}

#[test]
fn surface_grid_defaults_and_errors() {
    let g = NurbsEvaluator::surface_grid(true, true, 2, 2, 2, 3, 0, 0).unwrap();
    assert_eq!(g.sub_u, 4);
    assert_eq!(g.faces_u, 0);
    assert_eq!(g.faces_v, 4);
    assert_eq!(g.num_faces, 0);
    assert_eq!(g.samples_u.len(), 5);
    let e = NurbsEvaluator::surface_grid(false, true, 2, 2, 2, 2, 1, 1).unwrap_err();
    assert_eq!(reason(e), "Invalid NURBS surface basis");
    let e = NurbsEvaluator::surface_grid(true, true, 0, 2, 2, 2, 1, 1).unwrap_err();
    assert_eq!(reason(e), "NURBS surface has no control points");
    let e = NurbsEvaluator::surface_grid(true, true, 2, 2, 1, 2, 1, 1).unwrap_err();
    assert_eq!(reason(e), "NURBS surface has no spans");
}

#[test]
fn curve_sample_layout() {
    let open = NurbsEvaluator::curve_samples(true, 3, 3, true, 2).unwrap();
    assert_eq!(open, vec![(0, 0), (0, 1), (1, 0)]);
    let closed = NurbsEvaluator::curve_samples(true, 3, 3, false, 2).unwrap();
    assert_eq!(closed, vec![(0, 0), (0, 1)]);
    let one_span = NurbsEvaluator::curve_samples(true, 2, 2, true, 4).unwrap();
    assert_eq!(one_span, vec![(0, 0)]);
    let default = NurbsEvaluator::curve_samples(true, 5, 4, true, 0).unwrap();
    assert_eq!(default.len(), 9);
    assert_eq!(default[5], (1, 1));
    let e = NurbsEvaluator::curve_samples(true, 0, 3, true, 2).unwrap_err();
    assert_eq!(reason(e), "Invalid NURBS curve basis or empty control points");
    let e = NurbsEvaluator::curve_samples(true, 2, 1, true, 2).unwrap_err();
    assert_eq!(reason(e), "NURBS curve has no spans");
}
