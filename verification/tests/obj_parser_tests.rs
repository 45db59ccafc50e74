use ufbx::error::Error;
use ufbx::obj::material::Material;
use ufbx::obj::parser::ObjParser;

fn description(e: Error) -> String {
    match e {
        Error::Unknown { description, .. } => description,
        other => panic!("unexpected error {:?}", other),
    }
}

fn material<'a>(parser: &'a ObjParser, name: &str) -> Option<&'a Material> {
    parser.materials.iter().find(|m| m.name == name)
}

fn as_real(text: &str) -> f64 {
    text.parse::<f64>().unwrap()
}

#[test]
fn test_negative_indices() {
    let obj_content = "\nv 0.0 0.0 0.0\nv 1.0 0.0 0.0\nv 1.0 1.0 0.0\nf -3 -2 -1\n";
    let mut parser = ObjParser::new();
    parser.parse_obj(obj_content).unwrap();
    let mesh = parser.geometry.into_mesh().unwrap();
    assert_eq!(mesh.num_vertices, 3);
    assert_eq!(mesh.num_faces, 1);
    assert_eq!(mesh.vertex_indices, vec![0, 1, 2]);
}

#[test]
fn test_parse_simple_mtl() {
    let mtl_content = "\nnewmtl TestMaterial\nKa 0.1 0.1 0.1\nKd 0.8 0.0 0.0\nKs 1.0 1.0 1.0\nNs 100.0\nd 1.0\nmap_Kd texture.png\n";
    let mut parser = ObjParser::new();
    parser.parse_mtl(mtl_content).unwrap();
    assert_eq!(parser.materials.len(), 1);
    let mat = material(&parser, "TestMaterial").unwrap();
    assert_eq!(as_real(&mat.diffuse[0]), 0.8);
    assert_eq!(as_real(&mat.diffuse[1]), 0.0);
    assert_eq!(as_real(&mat.diffuse[2]), 0.0);
    assert_eq!(as_real(&mat.specular_exponent), 100.0);
    assert_eq!(mat.map_diffuse, Some("texture.png".to_string()));
}

#[test]
fn obj_simple_cube_layout() {
    let obj_content = "\n# Simple cube\nv 0.0 0.0 0.0\nv 1.0 0.0 0.0\nv 1.0 1.0 0.0\nv 0.0 1.0 0.0\nvt 0.0 0.0\nvt 1.0 0.0\nvt 1.0 1.0\nvt 0.0 1.0\nvn 0.0 0.0 1.0\nf 1/1/1 2/2/1 3/3/1 4/4/1\n";
    let mut parser = ObjParser::new();
    parser.parse_obj(obj_content).unwrap();
    assert_eq!(parser.line_number, 12);
    let g = &parser.geometry;
    assert_eq!(g.positions.len(), 4);
    assert_eq!(g.positions[2], vec!["1.0".to_string(), "1.0".to_string(), "0.0".to_string()]);
    assert_eq!(g.uvs.len(), 4);
    assert_eq!(g.normals.len(), 1);
    let mesh = g.into_mesh().unwrap();
    assert_eq!(mesh.num_vertices, 4);
    assert_eq!(mesh.num_faces, 1);
    assert_eq!(mesh.num_indices, 4);
    assert_eq!(mesh.faces[0].index_begin, 0);
    assert_eq!(mesh.faces[0].num_indices, 4);
    assert_eq!(mesh.num_triangles, 2);
    assert_eq!(mesh.max_face_triangles, 2);
    assert_eq!(mesh.vertex_indices, vec![0, 1, 2, 3]);
    assert_eq!(mesh.uv_indices, vec![0, 1, 2, 3]);
    assert_eq!(mesh.normal_indices, vec![0, 0, 0, 0]);
    assert_eq!(mesh.face_material, vec![0]);
    assert_eq!(mesh.face_smoothing, vec![true]);
}

#[test]
fn obj_face_runs_and_counts() {
    let text = "v 0 0 0\nv 1 0 0\nv 1 1 0\nv 0 1 0\nf 1 2 3\nf 1 2 3 4\nf 1 3 4 2 1\n";
    let mut parser = ObjParser::new();
    parser.parse_obj(text).unwrap();
    let mesh = parser.geometry.into_mesh().unwrap();
    assert_eq!(mesh.num_faces, 3);
    assert_eq!(mesh.num_indices, 12);
    assert_eq!(mesh.faces[1].index_begin, 3);
    assert_eq!(mesh.faces[2].index_begin, 7);
    assert_eq!(mesh.faces[2].num_indices, 5);
    assert_eq!(mesh.num_triangles, 1 + 2 + 3);
    assert_eq!(mesh.max_face_triangles, 3);
    assert_eq!(mesh.num_empty_faces, 0);
    assert!(mesh.uv_indices.is_empty());
    assert!(mesh.normal_indices.is_empty());
}

#[test]
fn obj_arity_errors_name_the_line() {
    let mut parser = ObjParser::new();
    let e = parser.parse_obj("# header\nv 1 2\n").unwrap_err();
    assert_eq!(description(e), "Line 2: 'v' requires at least 3 values (x y z)");
    let mut parser = ObjParser::new();
    let e = parser.parse_obj("vt 1\n").unwrap_err();
    assert_eq!(description(e), "Line 1: 'vt' requires at least 2 values (u v)");
    let mut parser = ObjParser::new();
    let e = parser.parse_obj("\n\n\nvn 1 2\n").unwrap_err();
    assert_eq!(description(e), "Line 4: 'vn' requires 3 values (x y z)");
    let mut parser = ObjParser::new();
    let e = parser.parse_obj("v 0 0 0\nf 1 1\n").unwrap_err();
    assert_eq!(description(e), "Line 2: 'f' requires at least 3 vertices");
}

#[test]
fn obj_invalid_numbers() {
    let mut parser = ObjParser::new();
    let e = parser.parse_obj("v 1 x 3\n").unwrap_err();
    assert_eq!(description(e), "Line 1: Invalid number 'x'");
    let mut parser = ObjParser::new();
    let e = parser.parse_obj("v 1 2 3 4 5 six\n").unwrap_err();
    assert_eq!(description(e), "Line 1: Invalid number 'six'");
    // the position is kept before the colour is read
    assert_eq!(parser.geometry.positions.len(), 1);
    assert_eq!(parser.geometry.colors.len(), 0);
    let mut parser = ObjParser::new();
    let e = parser.parse_obj("v 1 2 3 w\n").unwrap_err();
    assert_eq!(description(e), "Line 1: Invalid number 'w'");
    // only the first three values of a vn line are read
    let mut parser = ObjParser::new();
    parser.parse_obj("vn 1 2 3 junk\n").unwrap();
    assert_eq!(parser.geometry.normals.len(), 1);
}

#[test]
fn obj_number_forms() {
    let mut parser = ObjParser::new();
    parser.parse_obj("v 1e3 -.5 +2.\nv inf -NaN Infinity\nv 1E-2 0 5\n").unwrap();
    assert_eq!(parser.geometry.positions.len(), 3);
    for bad in ["1e", ".", "+", "1.2.3", "0x10", "infinit", "e5"] {
        let mut parser = ObjParser::new();
        let line = format!("v 0 0 {}\n", bad);
        let e = parser.parse_obj(&line).unwrap_err();
        assert_eq!(description(e), format!("Line 1: Invalid number '{}'", bad));
        assert!(bad.parse::<f64>().is_err());
    }
}

#[test]
fn obj_vertex_colours() {
    let mut parser = ObjParser::new();
    parser.parse_obj("v 0 0 0 1 0.5 0.25\nv 0 0 0 1 0.5 0.25 0.75\nv 0 0 0 1\n").unwrap();
    let g = &parser.geometry;
    assert_eq!(g.positions.len(), 3);
    assert_eq!(g.colors.len(), 2);
    assert_eq!(g.colors[0], vec!["1".to_string(), "0.5".to_string(), "0.25".to_string()]);
    assert_eq!(g.colors[1].len(), 4);
}

#[test]
fn obj_face_index_errors() {
    let mut parser = ObjParser::new();
    let e = parser.parse_obj("v 0 0 0\nf 1 a 1\n").unwrap_err();
    assert_eq!(description(e), "Invalid position index: a");
    let mut parser = ObjParser::new();
    let e = parser.parse_obj("v 0 0 0\nf 1/x 1 1\n").unwrap_err();
    assert_eq!(description(e), "Invalid UV index: x");
    assert!(parser.geometry.faces.is_empty());
}

#[test]
fn obj_missing_position_is_a_mesh_error() {
    let mut parser = ObjParser::new();
    parser.parse_obj("v 0 0 0\nf 1 2 1\n").unwrap();
    assert_eq!(parser.geometry.faces[0][1].position, None);
    let e = parser.geometry.into_mesh().unwrap_err();
    assert_eq!(description(e), "Face vertex missing position index");
}

#[test]
fn obj_objects_groups_and_smoothing() {
    let text = "o Box  One\ng side\no Other\ng side\no Box One\ns off\n";
    let mut parser = ObjParser::new();
    parser.parse_obj(text).unwrap();
    let g = &parser.geometry;
    assert_eq!(g.objects, vec!["Box One".to_string(), "Other".to_string()]);
    assert_eq!(g.current_object, Some(0));
    assert_eq!(g.groups, vec!["side".to_string()]);
    assert_eq!(g.current_group, Some(0));
    assert!(!parser.smoothing_enabled);
    parser.parse_obj("s 1\n").unwrap();
    assert!(parser.smoothing_enabled);
    parser.parse_obj("s 0\n").unwrap();
    assert!(!parser.smoothing_enabled);
}

#[test]
fn obj_comments_continuations_and_crlf() {
    let text = "# comment\r\n   \r\nv 1 2 3 \\\\\r\n\tv 4 5 6\r\nv 7 8 9";
    let mut parser = ObjParser::new();
    parser.parse_obj(text).unwrap();
    assert_eq!(parser.line_number, 5);
    assert_eq!(parser.geometry.positions.len(), 3);
    assert_eq!(parser.geometry.positions[0][2], "3");
}

#[test]
fn obj_usemtl_selects_material() {
    let mut parser = ObjParser::new();
    parser.parse_mtl("newmtl red\nnewmtl blue\n").unwrap();
    parser.parse_obj("usemtl blue\nv 0 0 0\nf 1 1 1\nusemtl unknown\nf 1 1 1\n").unwrap();
    assert_eq!(parser.current_material, Some("unknown".to_string()));
    assert_eq!(parser.geometry.face_materials, vec![Some(1), Some(0)]);
    let mesh = parser.geometry.into_mesh().unwrap();
    assert_eq!(mesh.face_material, vec![1, 0]);
}

#[test]
fn mtl_defaults_and_fields() {
    let text = "newmtl a\nTr 0.25\nNi 1.5\nillum 4\nmap_bump  bump map.png\nnorm n.png\ndisp d.png\nmap_d o.png\nmap_Ka ka.png\nmap_Ke ke.png\nmap_Ks ks.png\nnewmtl b\nillum x\nd 0.5\nKe 1 2 3\n";
    let mut parser = ObjParser::new();
    parser.parse_mtl(text).unwrap();
    assert_eq!(parser.materials.len(), 2);
    let a = material(&parser, "a").unwrap();
    assert_eq!(a.opacity, "0.25");
    assert!(a.opacity_inverted);
    assert_eq!(a.refractive_index, "1.5");
    assert_eq!(a.illum_model, 4);
    assert_eq!(a.map_bump, Some("bump map.png".to_string()));
    assert_eq!(a.map_normal, Some("n.png".to_string()));
    assert_eq!(a.map_displacement, Some("d.png".to_string()));
    assert_eq!(a.map_opacity, Some("o.png".to_string()));
    assert_eq!(a.map_ambient, Some("ka.png".to_string()));
    assert_eq!(a.map_emissive, Some("ke.png".to_string()));
    assert_eq!(a.map_specular, Some("ks.png".to_string()));
    assert_eq!(a.ambient, vec!["0.2".to_string(); 3]);
    let b = material(&parser, "b").unwrap();
    assert_eq!(b.illum_model, 2);
    assert_eq!(b.opacity, "0.5");
    assert!(!b.opacity_inverted);
    assert_eq!(b.emissive, vec!["1".to_string(), "2".to_string(), "3".to_string()]);
    assert_eq!(b.diffuse, vec!["0.8".to_string(); 3]);
    assert_eq!(parser.line_number, 15);
}

#[test]
fn mtl_replaces_by_name_and_stops_at_errors() {
    let mut parser = ObjParser::new();
    parser.parse_mtl("newmtl m\nNs 5\nnewmtl m\nNs 7\n").unwrap();
    assert_eq!(parser.materials.len(), 1);
    assert_eq!(parser.materials[0].specular_exponent, "7");
    let e = parser.parse_mtl("newmtl x\nnewmtl y\nKd 1 2\nnewmtl z\n").unwrap_err();
    assert_eq!(description(e), "Line 3: Expected 3 values for Vec3");
    assert_eq!(parser.line_number, 3);
    assert!(material(&parser, "x").is_some());
    assert!(material(&parser, "y").is_none());
    assert!(material(&parser, "z").is_none());
    let e = parser.parse_mtl("newmtl w\nNs big\n").unwrap_err();
    assert_eq!(description(e), "Line 2: Invalid number 'big'");
    // lines before any newmtl change nothing, even when they would fail
    parser.parse_mtl("Kd 1\nnewmtl\nKd 1\n").unwrap();
    assert_eq!(parser.materials.len(), 2);
}

#[test]
fn obj_extract_mtl_references() {
    let parser = ObjParser::new();
    let refs = parser.extract_mtl_references("mtllib  a.mtl  \n  mtllib b c.mtl\nmtllib\nmtllibx.mtl\n# mtllib no\n");
    assert_eq!(refs, vec!["a.mtl".to_string(), "b c.mtl".to_string()]);
}

#[test]
fn material_default_values() {
    let m = Material::default();
    assert_eq!(m.name, "default");
    assert_eq!(m.diffuse, vec!["0.8".to_string(); 3]);
    assert_eq!(m.specular, vec!["0.0".to_string(); 3]);
    assert_eq!(m.opacity, "1.0");
    assert_eq!(m.refractive_index, "1.0");
    assert_eq!(m.illum_model, 2);
    assert_eq!(m.map_diffuse, None);
}
