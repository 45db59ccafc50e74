use ufbx::binary::{ArrayData, FbxNode, StoredNumber, Value, ValueArray};
use ufbx::geometry::{
    compute_topology, is_edge_smooth, topo_next_vertex_edge, topo_prev_vertex_edge, triangulate_face,
    SmoothingFlags,
};
use ufbx::scene::elements::{ElementData, Prop, PropValue, Props};
use ufbx::scene::geometry::StoredReal;
use ufbx::scene::hierarchy::{
    attach_attributes, build_node_hierarchy, create_node, ensure_root_node, Attached,
};
use ufbx::scene::mesh::create_mesh;
use ufbx::scene::assembly::build_scene_records;
use ufbx::types::{Connection, ElementType, Face, FbxString, PropFlags};

fn node(name: &str, values: Vec<Value>, children: Vec<FbxNode>) -> FbxNode {
    let mut n = FbxNode::new(name.to_string());
    n.values = values;
    n.children = children;
    n
}

fn array_node(name: &str, data: ArrayData) -> FbxNode {
    let mut n = FbxNode::new(name.to_string());
    n.array = Some(ValueArray { data, array_type: 'd' });
    n
}

fn element(name: &str, fbx_id: u64, element_type: ElementType, group: usize, index: usize) -> ElementData {
    ElementData {
        fbx_id,
        element_type,
        class_name: String::new(),
        sub_type: String::new(),
        name: name.to_string(),
        props: vec![Prop { name: "Visibility".to_string(), value: PropValue::Bool(true), flags: PropFlags::default() }],
        group,
        index,
    }
}

fn link(src: usize, dst: usize) -> Connection {
    Connection { src, dst, src_prop: None, dst_prop: None }
}

#[test]
fn mesh_record_of_an_element() {
    let geometry = node(
        "Geometry",
        vec![Value::Number { i: 1, f: StoredNumber::Integer(1) }],
        vec![
            array_node(
                "Vertices",
                ArrayData::F64(vec![0f64.to_bits(), 0f64.to_bits(), 0f64.to_bits(), 1f64.to_bits(), 0f64.to_bits(), 0f64.to_bits(), 0f64.to_bits(), 1f64.to_bits(), 0f64.to_bits()]),
            ),
            array_node("PolygonVertexIndex", ArrayData::I32(vec![0, 1, -3])),
        ],
    );
    let top = vec![node("Objects", vec![], vec![geometry])];
    let data = element("Tri", 7, ElementType::Mesh, 0, 0);
    let m = create_mesh(&top, &data, 2).unwrap();
    assert_eq!(m.num_vertices, 3);
    assert_eq!(m.num_indices, 3);
    assert_eq!(m.num_faces, 1);
    assert_eq!(m.faces, vec![Face { index_begin: 0, num_indices: 3 }]);
    assert_eq!(m.vertex_indices, vec![0, 1, 2]);
    assert!(m.vertex_position.exists);
    assert_eq!(m.vertex_position.indices, vec![0, 1, 2]);
    assert_eq!(m.vertex_position.value_reals, 3);
    assert_eq!(m.vertex_position.values[1].x, StoredReal::Double(1f64.to_bits()));
    assert!(!m.vertex_normal.exists && m.vertex_normal.indices.is_empty());
    assert!(!m.vertex_uv.exists && !m.vertex_color.exists);
    assert_eq!((m.element_id, m.typed_id), (2, 2));
    assert_eq!(m.name, "Tri");
    assert_eq!(m.props.len(), 1);

    let bad = vec![node("Objects", vec![], vec![node("Geometry", vec![], vec![array_node("Vertices", ArrayData::I32(vec![1]))])])];
    assert!(create_mesh(&bad, &data, 0).is_err());
}

#[test]
fn nodes_and_root() {
    let data = element("Cube", 5, ElementType::Node, 0, 0);
    let n = create_node(&data, 3);
    assert_eq!((n.element_id, n.typed_id), (3, 3));
    assert_eq!(n.name, "Cube");
    assert!(!n.is_root);

    let mut nodes = vec![n];
    let root = ensure_root_node(&vec![data.clone()], &mut nodes);
    assert_eq!(root, Some(1));
    assert_eq!(nodes.len(), 2);
    assert!(nodes[1].is_root);
    assert_eq!(nodes[1].name, "RootNode");

    let with_zero = vec![element("Root", 0, ElementType::Node, 0, 0)];
    assert_eq!(ensure_root_node(&with_zero, &mut nodes), None);
    assert_eq!(nodes.len(), 2);
}

#[test]
fn node_hierarchy_from_connections() {
    // Nodes with element ids 10, 11, 12, 13; node 0 is the root.
    let ids = vec![10u32, 11, 12, 13];
    let mut parents = vec![None; 4];
    let mut children = vec![Vec::new(); 4];
    let mut prop_link = link(12, 11);
    prop_link.dst_prop = Some(FbxString::new("Lcl Translation"));
    let connections = vec![
        link(12, 11),
        link(12, 13), // 12 already has a parent
        link(11, 11), // a node cannot be its own parent
        prop_link,
        link(99, 10), // not a node
    ];
    build_node_hierarchy(&ids, &mut parents, &mut children, &connections, 0);
    assert_eq!(parents, vec![None, Some(0), Some(1), Some(0)]);
    assert_eq!(children[0], vec![1, 3]);
    assert_eq!(children[1], vec![2]);
    assert!(children[2].is_empty() && children[3].is_empty());
}

#[test]
fn attributes_attach_to_nodes() {
    let node_ids = vec![0u32, 1];
    let mesh_ids = vec![5u32];
    let light_ids = vec![6u32];
    let camera_ids = vec![7u32];
    let empty = Attached { mesh: None, light: None, camera: None, attrib: None, attrib_type: ElementType::Unknown };
    let mut atts = vec![empty; 2];
    let mut meshes = vec![Vec::new()];
    let mut lights = vec![Vec::new()];
    let mut cameras = vec![Vec::new()];
    let connections = vec![link(5, 1), link(5, 1), link(6, 0), link(7, 1), link(5, 0)];
    attach_attributes(&node_ids, &mesh_ids, &light_ids, &camera_ids, &connections, &mut atts, &mut meshes, &mut lights, &mut cameras);
    assert_eq!(atts[1].mesh, Some(0));
    assert_eq!(atts[1].camera, Some(0));
    assert_eq!(atts[1].attrib, Some(7));
    assert_eq!(atts[1].attrib_type, ElementType::Camera);
    assert_eq!(atts[0].light, Some(0));
    assert_eq!(atts[0].mesh, Some(0));
    assert_eq!(atts[0].attrib_type, ElementType::Mesh);
    assert_eq!(meshes[0], vec![1, 0]);
    assert_eq!(lights[0], vec![0]);
    assert_eq!(cameras[0], vec![1]);
}

#[test]
fn props_find_the_first_by_name() {
    let mut props = Props::new();
    assert!(props.find("A").is_none());
    props.props.push(Prop { name: "A".to_string(), value: PropValue::Integer(1), flags: PropFlags::default() });
    props.props.push(Prop { name: "B".to_string(), value: PropValue::Integer(2), flags: PropFlags::default() });
    props.props.push(Prop { name: "A".to_string(), value: PropValue::Integer(3), flags: PropFlags::default() });
    assert!(matches!(props.find("A").unwrap().value, PropValue::Integer(1)));
    assert!(matches!(props.find("B").unwrap().value, PropValue::Integer(2)));
    assert!(props.find("C").is_none());
}

#[test]
fn triangles_and_quads() {
    let mut out = vec![0u32; 6];
    assert_eq!(triangulate_face(Face { index_begin: 4, num_indices: 3 }, &mut out), 1);
    assert_eq!(&out[..3], &[4, 5, 6]);
    assert_eq!(triangulate_face(Face { index_begin: 10, num_indices: 4 }, &mut out), 2);
    assert_eq!(out, vec![10, 11, 12, 10, 12, 13]);
    assert_eq!(triangulate_face(Face { index_begin: 0, num_indices: 2 }, &mut out), 0);
    assert_eq!(out, vec![10, 11, 12, 10, 12, 13]);
}

#[test]
fn edge_smoothing_flags() {
    let faces = vec![Face { index_begin: 0, num_indices: 3 }, Face { index_begin: 3, num_indices: 3 }];
    let vertex_indices = vec![0, 1, 2, 2, 1, 3];
    let topo = compute_topology(&faces, &vertex_indices, &[]);
    let none = SmoothingFlags { edge_smoothing: vec![], face_smoothing: vec![] };
    assert_eq!(is_edge_smooth(&none, &topo, 1), None);
    let faces_flags = SmoothingFlags { edge_smoothing: vec![], face_smoothing: vec![false, true] };
    assert_eq!(is_edge_smooth(&faces_flags, &topo, 1), Some(true));
    assert_eq!(is_edge_smooth(&faces_flags, &topo, 0), Some(false));
    let edge_flags = SmoothingFlags { edge_smoothing: vec![true], face_smoothing: vec![] };
    assert_eq!(is_edge_smooth(&edge_flags, &topo, 0), Some(false));
}

#[test]
fn stepping_around_a_vertex_comes_back() {
    let faces = vec![Face { index_begin: 0, num_indices: 3 }, Face { index_begin: 3, num_indices: 3 }];
    let vertex_indices = vec![0, 1, 2, 2, 1, 3];
    let topo = compute_topology(&faces, &vertex_indices, &[]);
    for i in [1u32, 3] {
        let e = topo_next_vertex_edge(&topo, i).unwrap();
        assert_eq!(topo_prev_vertex_edge(&topo, e), Some(i));
    }
}

#[test]
fn scene_records_of_a_document() {
    let geometry = node(
        "Geometry",
        vec![],
        vec![
            array_node("Vertices", ArrayData::F64(vec![0, 0, 0, 0, 0, 0, 0, 0, 0])),
            array_node("PolygonVertexIndex", ArrayData::I32(vec![0, 1, -3])),
        ],
    );
    let top = vec![node("Objects", vec![], vec![node("Model", vec![], vec![]), geometry, node("Model", vec![], vec![])])];
    let elements = vec![
        element("A", 1, ElementType::Node, 0, 0),
        element("M", 2, ElementType::Mesh, 0, 1),
        element("B", 3, ElementType::Node, 0, 2),
        element("T", 4, ElementType::Texture, 0, 2),
    ];
    // Elements by place: node A is element 0, the mesh 1, node B 2. Nodes
    // have element ids equal to their places: root 0, A 1, B 2.
    let connections = vec![link(2, 1)];
    let sc = build_scene_records(&top, &elements, &connections, false).unwrap();
    assert_eq!(sc.nodes.len(), 3);
    assert!(sc.nodes[0].is_root);
    assert_eq!(sc.nodes[1].name, "A");
    assert_eq!(sc.nodes[2].name, "B");
    assert_eq!(sc.node_parents, vec![None, Some(0), Some(1)]);
    assert_eq!(sc.node_children[0], vec![1]);
    assert_eq!(sc.node_children[1], vec![2]);
    assert_eq!(sc.meshes.len(), 1);
    assert_eq!(sc.meshes[0].num_faces, 1);
    assert_eq!(sc.node_attached[2].mesh, None);
    let e = build_scene_records(&top, &elements, &connections, true).unwrap_err();
    match e {
        ufbx::error::Error::Unknown { description, .. } => assert_eq!(description, "Unknown element type: Texture"),
        other => panic!("unexpected error {:?}", other),
    }
}
