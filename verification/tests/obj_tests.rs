use ufbx::obj::{parse_i64_text, resolve_obj_index, FaceVertex};

#[test]
fn test_resolve_positive_index() {
    assert_eq!(resolve_obj_index(1, 10), Some(0));
    assert_eq!(resolve_obj_index(5, 10), Some(4));
    assert_eq!(resolve_obj_index(10, 10), Some(9));
    assert_eq!(resolve_obj_index(11, 10), None);
}

#[test]
fn test_resolve_negative_index() {
    assert_eq!(resolve_obj_index(-1, 10), Some(9));
    assert_eq!(resolve_obj_index(-2, 10), Some(8));
    assert_eq!(resolve_obj_index(-10, 10), Some(0));
    assert_eq!(resolve_obj_index(-11, 10), None);
}

#[test]
fn test_resolve_zero_index() {
    assert_eq!(resolve_obj_index(0, 10), None);
}

#[test]
fn test_face_vertex_parse() {
    let fv = FaceVertex::parse("1/2/3", 10, 10, 10).unwrap();
    assert_eq!(fv.position, Some(0));
    assert_eq!(fv.uv, Some(1));
    assert_eq!(fv.normal, Some(2));

    let fv = FaceVertex::parse("1//3", 10, 10, 10).unwrap();
    assert_eq!(fv.position, Some(0));
    assert_eq!(fv.uv, None);
    assert_eq!(fv.normal, Some(2));

    let fv = FaceVertex::parse("1/2", 10, 10, 10).unwrap();
    assert_eq!(fv.position, Some(0));
    assert_eq!(fv.uv, Some(1));
    assert_eq!(fv.normal, None);

    let fv = FaceVertex::parse("1", 10, 10, 10).unwrap();
    assert_eq!(fv.position, Some(0));
    assert_eq!(fv.uv, None);
    assert_eq!(fv.normal, None);
}

#[test]
fn obj_resolve_extremes() {
    assert_eq!(resolve_obj_index(i64::MIN, 10), None);
    assert_eq!(resolve_obj_index(i64::MAX, 10), None);
    assert_eq!(resolve_obj_index(-1, 0), None);
}

#[test]
fn obj_face_vertex_negative_and_errors() {
    let fv = FaceVertex::parse("-1/-2/-3", 5, 6, 7).unwrap();
    assert_eq!(fv.position, Some(4));
    assert_eq!(fv.uv, Some(4));
    assert_eq!(fv.normal, Some(4));

    let err = FaceVertex::parse("x/1", 5, 5, 5).unwrap_err();
    assert_eq!(err.to_string(), "Unknown error: Invalid position index: x");
    let err = FaceVertex::parse("1/y", 5, 5, 5).unwrap_err();
    assert_eq!(err.to_string(), "Unknown error: Invalid UV index: y");
    let err = FaceVertex::parse("1/2/+", 5, 5, 5).unwrap_err();
    assert_eq!(err.to_string(), "Unknown error: Invalid normal index: +");

    let fv = FaceVertex::parse("2/3/4/junk", 5, 5, 5).unwrap();
    assert_eq!(fv.normal, Some(3));
}

#[test]
fn obj_integer_text() {
    let t = b"-9223372036854775808";
    assert_eq!(parse_i64_text(t, 0, t.len()), Some(i64::MIN));
    let t = b"9223372036854775808";
    assert_eq!(parse_i64_text(t, 0, t.len()), None);
    let t = b"+12x";
    assert_eq!(parse_i64_text(t, 0, 3), Some(12));
    assert_eq!(parse_i64_text(t, 0, 4), None);
}
