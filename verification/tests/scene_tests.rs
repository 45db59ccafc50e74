use ufbx::binary::{ArrayData, FbxNode, StoredNumber, Value, ValueArray};
use ufbx::error::Error;
use ufbx::scene::elements::{
    create_element_from_binary, name_to_element_type, parse_connection_binary,
    parse_property_binary, process_binary_nodes, read_properties_binary, resolve_connections,
    split_object_name, PropValue,
};
use ufbx::scene::geometry::{
    build_faces, extract_mesh_geometry, read_polygon_indices, read_vertex_colors,
    read_vertex_positions, StoredReal,
};
use ufbx::types::{ElementType, FbxString, Face};

fn text(s: &str) -> Value {
    Value::String(FbxString::new(s))
}

fn num(i: i64) -> Value {
    Value::Number { i, f: StoredNumber::Integer(i) }
}

fn double(x: f64) -> Value {
    Value::Number { i: x as i64, f: StoredNumber::Double(x.to_bits()) }
}

fn node(name: &str, values: Vec<Value>, children: Vec<FbxNode>) -> FbxNode {
    let mut n = FbxNode::new(name.to_string());
    n.values = values;
    n.children = children;
    n
}

fn array_node(name: &str, data: ArrayData) -> FbxNode {
    let mut n = FbxNode::new(name.to_string());
    n.array = Some(ValueArray { data, array_type: 'd' });
    n
}

fn description(e: Error) -> String {
    match e {
        Error::Unknown { description, .. } => description,
        other => panic!("unexpected error {:?}", other),
    }
}

#[test]
fn test_element_type_mapping() {
    assert_eq!(name_to_element_type("Model", "Mesh"), ElementType::Node);
    assert_eq!(name_to_element_type("Model", "Null"), ElementType::Node);
    assert_eq!(name_to_element_type("Geometry", ""), ElementType::Mesh);
    assert_eq!(name_to_element_type("NodeAttribute", "Light"), ElementType::Light);
    assert_eq!(name_to_element_type("NodeAttribute", "Camera"), ElementType::Camera);
}

#[test]
fn scene_test_property_parsing() {
    let mut n = FbxNode::new("P".to_string());
    n.values.push(text("TestProp"));
    n.values.push(text("double"));
    n.values.push(text("Number"));
    n.values.push(text(""));
    n.values.push(Value::Number { i: 0, f: StoredNumber::Double(42.5f64.to_bits()) });

    let prop = parse_property_binary(&n).unwrap();
    assert_eq!(prop.name.as_str(), "TestProp");
    match prop.value {
        PropValue::Number(Some(StoredNumber::Double(bits))) => {
            assert!((f64::from_bits(bits) - 42.5).abs() < 1e-10)
        }
        _ => panic!("Expected number property"),
    }
}

#[test]
fn element_types_of_deformers_and_animation() {
    assert_eq!(name_to_element_type("Deformer", "Skin"), ElementType::SkinDeformer);
    assert_eq!(name_to_element_type("Deformer", "Cluster"), ElementType::SkinCluster);
    assert_eq!(name_to_element_type("Deformer", "BlendShape"), ElementType::BlendDeformer);
    assert_eq!(name_to_element_type("Deformer", "BlendShapeChannel"), ElementType::BlendChannel);
    assert_eq!(name_to_element_type("Deformer", "Other"), ElementType::Unknown);
    assert_eq!(name_to_element_type("AnimationCurve", ""), ElementType::AnimCurve);
    assert_eq!(name_to_element_type("AnimationCurveNode", ""), ElementType::AnimValue);
    assert_eq!(name_to_element_type("Material", ""), ElementType::Material);
    assert_eq!(name_to_element_type("Pose", ""), ElementType::Unknown);
}

#[test]
fn object_names_split() {
    assert_eq!(split_object_name("Cube\u{0}\u{1}Model"), ("Cube".to_string(), "Model".to_string()));
    assert_eq!(split_object_name("Cube::Model"), ("Cube".to_string(), "Model".to_string()));
    assert_eq!(split_object_name("a::b\u{0}\u{1}c"), ("a::b".to_string(), "c".to_string()));
    assert_eq!(split_object_name("plain"), ("plain".to_string(), String::new()));
    assert_eq!(split_object_name("x:y"), ("x:y".to_string(), String::new()));
}

#[test]
fn property_values_by_type() {
    let p = parse_property_binary(&node(
        "P",
        vec![text("Lcl Translation"), text("Lcl Translation"), text(""), text("A"), double(1.0), num(2)],
        vec![],
    ))
    .unwrap();
    match p.value {
        PropValue::Vec3(Some(StoredNumber::Double(a)), Some(StoredNumber::Integer(2)), None) => {
            assert_eq!(f64::from_bits(a), 1.0)
        }
        other => panic!("unexpected {:?}", other),
    }
    let p = parse_property_binary(&node("P", vec![text("B"), text("bool"), text(""), text(""), num(3)], vec![])).unwrap();
    assert!(matches!(p.value, PropValue::Bool(true)));
    let p = parse_property_binary(&node("P", vec![text("K"), text("KString"), text(""), text(""), num(3)], vec![])).unwrap();
    assert!(matches!(p.value, PropValue::String(ref s) if s.is_empty()));
    let p = parse_property_binary(&node("P", vec![text("U"), text("Unheard"), text(""), text(""), text("v")], vec![])).unwrap();
    assert!(matches!(p.value, PropValue::String(ref s) if s == "v"));
    let p = parse_property_binary(&node("P", vec![text("S"), num(7), text(""), text("")], vec![])).unwrap();
    assert!(matches!(p.value, PropValue::Integer(0)));
    let e = parse_property_binary(&node("P", vec![text("S"), text("int"), text("")], vec![])).unwrap_err();
    assert_eq!(description(e), "Property node has too few values");
    let e = parse_property_binary(&node("P", vec![num(1), text("int"), text(""), text("")], vec![])).unwrap_err();
    assert_eq!(description(e), "Property name is not a string");
}

#[test]
fn properties_are_sorted_stably() {
    let p = |name: &str, v: i64| node("P", vec![text(name), text("int"), text(""), text(""), num(v)], vec![]);
    let p70 = node("Properties70", vec![], vec![p("b", 1), p("a", 2), node("Q", vec![], vec![]), p("b", 3), p("A", 4)]);
    let obj = node("Model", vec![num(5)], vec![node("Other", vec![], vec![]), p70]);
    let props = read_properties_binary(&obj).unwrap();
    let names: Vec<&str> = props.iter().map(|p| p.name.as_str()).collect();
    assert_eq!(names, vec!["A", "a", "b", "b"]);
    assert!(matches!(props[2].value, PropValue::Integer(1)));
    assert!(matches!(props[3].value, PropValue::Integer(3)));
    let none = node("Model", vec![num(5)], vec![]);
    assert!(read_properties_binary(&none).unwrap().is_empty());
}

#[test]
fn elements_and_connections_of_a_document() {
    let objects = node(
        "Objects",
        vec![],
        vec![
            node("Model", vec![num(10), text("Cube\u{0}\u{1}Model"), text("Mesh")], vec![]),
            node("Geometry", vec![num(20), text("Cube::Geometry"), text("Mesh")], vec![]),
            node("NodeAttribute", vec![num(30), text("Lamp"), text("Light")], vec![]),
        ],
    );
    let connections = node(
        "Connections",
        vec![],
        vec![
            node("C", vec![text("OO"), num(20), num(10)], vec![]),
            node("C", vec![text("OO"), num(10), num(0)], vec![]),
            node("C", vec![text("OP"), num(30), num(10), text("Prop")], vec![]),
            node("C", vec![text("OO"), num(10), num(10)], vec![]),
        ],
    );
    let top = vec![node("Header", vec![], vec![]), objects, connections];
    let (elements, temp) = process_binary_nodes(&top).unwrap();
    assert_eq!(elements.len(), 3);
    assert_eq!(elements[0].fbx_id, 10);
    assert_eq!(elements[0].name, "Cube");
    assert_eq!(elements[0].sub_type, "Mesh");
    assert_eq!(elements[0].class_name, "Model");
    assert_eq!(elements[0].element_type, ElementType::Node);
    assert_eq!(elements[1].element_type, ElementType::Mesh);
    assert_eq!(elements[2].element_type, ElementType::Light);
    assert_eq!((elements[2].group, elements[2].index), (1, 2));
    assert_eq!(temp.len(), 4);
    assert_eq!(temp[2].src_prop, Some("Prop".to_string()));
    assert_eq!(temp[2].dst_prop, None);

    let resolved = resolve_connections(&elements, &temp, false).unwrap();
    // the connection to ID 0 names no element and is dropped; the rest are
    // sorted by source, then destination
    let pairs: Vec<(usize, usize)> = resolved.iter().map(|c| (c.src, c.dst)).collect();
    assert_eq!(pairs, vec![(0, 0), (1, 0), (2, 0)]);
    let e = resolve_connections(&elements, &temp, true).unwrap_err();
    assert_eq!(description(e), "Connection references non-existent element");
}

#[test]
fn element_and_connection_errors() {
    let e = create_element_from_binary(&node("Model", vec![], vec![]), 0, 0).unwrap_err();
    assert_eq!(description(e), "Object node missing FBX ID");
    let e = create_element_from_binary(&node("Model", vec![text("x")], vec![]), 0, 0).unwrap_err();
    assert_eq!(description(e), "FBX ID is not a number");
    let e = parse_connection_binary(&node("C", vec![text("OO"), num(1)], vec![])).unwrap_err();
    assert_eq!(description(e), "Connection node has too few properties");
    let e = parse_connection_binary(&node("C", vec![text("OO"), text("a"), num(1)], vec![])).unwrap_err();
    assert_eq!(description(e), "Connection source ID is not a number");
    let e = parse_connection_binary(&node("C", vec![text("OO"), num(1), text("b")], vec![])).unwrap_err();
    assert_eq!(description(e), "Connection destination ID is not a number");
    let c = parse_connection_binary(&node("C", vec![text("OO"), num(-1), num(2)], vec![])).unwrap();
    assert_eq!(c.src_fbx_id, u64::MAX);
    let top = vec![node("Objects", vec![], vec![node("Model", vec![num(1)], vec![]), node("Model", vec![], vec![])])];
    let e = process_binary_nodes(&top).unwrap_err();
    assert_eq!(description(e), "Object node missing FBX ID");
}

#[test]
fn test_build_faces() {
    let (faces, indices) = build_faces(&[0, 1, -3, 3, 4, 5, -7, 8]);
    assert_eq!(faces, vec![Face { index_begin: 0, num_indices: 3 }, Face { index_begin: 3, num_indices: 4 }]);
    assert_eq!(indices, vec![0, 1, 2, 3, 4, 5, 6, 8]);
    let (faces, indices) = build_faces(&[]);
    assert!(faces.is_empty() && indices.is_empty());
}

#[test]
fn mesh_geometry_of_a_node() {
    let mesh = node(
        "Geometry",
        vec![num(1)],
        vec![
            array_node("Vertices", ArrayData::F64(vec![0f64.to_bits(), 1f64.to_bits(), 2f64.to_bits(), 3f64.to_bits()])),
            array_node("PolygonVertexIndex", ArrayData::I64(vec![0, 1, -1, 0x1_0000_0005])),
            node(
                "LayerElementColor",
                vec![],
                vec![array_node("Colors", ArrayData::F32(vec![1, 2, 3, 4, 5, 6, 7]))],
            ),
        ],
    );
    let g = extract_mesh_geometry(&mesh).unwrap();
    assert_eq!(g.vertices.len(), 1);
    assert_eq!(g.vertices[0].z, StoredReal::Double(2f64.to_bits()));
    assert_eq!(g.polygon_vertex_indices, vec![0, 1, -1, 5]);
    assert_eq!(g.faces, vec![Face { index_begin: 0, num_indices: 3 }]);
    assert_eq!(g.vertex_indices, vec![0, 1, 0, 5]);
    assert!(g.normals.is_empty() && g.uvs.is_empty());
    assert_eq!(g.colors.len(), 2);
    assert_eq!(g.colors[1].x, StoredReal::Single(5));
    assert_eq!(g.colors[1].w, StoredReal::Double(1f64.to_bits()));
    let colors = read_vertex_colors(&mesh).unwrap();
    assert_eq!(colors.len(), 2);
}

#[test]
fn mesh_geometry_errors() {
    let bad = node("Geometry", vec![], vec![array_node("Vertices", ArrayData::I32(vec![1, 2, 3]))]);
    assert_eq!(description(read_vertex_positions(&bad).unwrap_err()), "Vertices array has wrong type");
    assert_eq!(description(extract_mesh_geometry(&bad).unwrap_err()), "Vertices array has wrong type");
    let bad = node("Geometry", vec![], vec![array_node("PolygonVertexIndex", ArrayData::F64(vec![]))]);
    assert_eq!(description(read_polygon_indices(&bad).unwrap_err()), "PolygonVertexIndex array has wrong type");
    // a child of the right name without an array is passed over
    let later = node(
        "Geometry",
        vec![],
        vec![node("Vertices", vec![], vec![]), array_node("Vertices", ArrayData::F32(vec![7, 8, 9]))],
    );
    let v = read_vertex_positions(&later).unwrap();
    assert_eq!(v[0].x, StoredReal::Single(7));
}
