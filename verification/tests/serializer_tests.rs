use ufbx::binary::{FbxNode, Value};
use ufbx::writer::{MeshLinks, SaveOpts, SceneLinks, SceneSerializer, FIRST_FBX_ID};

fn small_scene() -> SceneLinks {
    SceneLinks {
        root_node: 0,
        node_parents: vec![None, None, Some(1)],
        meshes: vec![MeshLinks { instances: vec![2, 0], first_material: Some(1) }],
        num_materials: 2,
    }
}

fn link(c: &FbxNode) -> (i64, i64) {
    assert_eq!(c.name, "C");
    assert_eq!(c.values.len(), 3);
    match &c.values[0] {
        Value::String(s) => assert_eq!(s.data, "OO"),
        _ => panic!("link kind is not a string"),
    }
    let a = match &c.values[1] {
        Value::Int64(v) => *v,
        _ => panic!("child is not an Int64"),
    };
    let b = match &c.values[2] {
        Value::Int64(v) => *v,
        _ => panic!("parent is not an Int64"),
    };
    (a, b)
}

#[test]
fn ids_follow_nodes_meshes_materials() {
    let scene = small_scene();
    let mut ser = SceneSerializer::new(SaveOpts::default());
    ser.assign_fbx_ids(&scene);
    assert_eq!(ser.get_fbx_id(1), FIRST_FBX_ID);
    assert_eq!(ser.get_fbx_id(2), FIRST_FBX_ID + 1);
    assert_eq!(ser.get_fbx_id(1000000), FIRST_FBX_ID + 2);
    assert_eq!(ser.get_fbx_id(2000000), FIRST_FBX_ID + 3);
    assert_eq!(ser.get_fbx_id(2000001), FIRST_FBX_ID + 4);
    // A key asked for again keeps its identifier; a new one gets the next.
    assert_eq!(ser.get_fbx_id(1), FIRST_FBX_ID);
    assert_eq!(ser.get_fbx_id(7), FIRST_FBX_ID + 5);
}

#[test]
fn connections_of_a_small_scene() {
    let scene = small_scene();
    let mut ser = SceneSerializer::new(SaveOpts::default());
    ser.assign_fbx_ids(&scene);
    let conns = ser.build_connections(&scene);
    assert_eq!(conns.name, "Connections");
    assert!(conns.values.is_empty());
    let links: Vec<(i64, i64)> = conns.children.iter().map(link).collect();
    let first = FIRST_FBX_ID as i64;
    assert_eq!(
        links,
        vec![
            (first, 0),
            (first + 1, first),
            (first + 2, first + 1),
            (first + 4, first + 2),
        ]
    );
}

#[test]
fn connections_without_meshes() {
    let scene = SceneLinks { root_node: 1, node_parents: vec![Some(1), None], meshes: vec![], num_materials: 0 };
    let mut ser = SceneSerializer::new(SaveOpts::default());
    ser.assign_fbx_ids(&scene);
    let conns = ser.build_connections(&scene);
    let links: Vec<(i64, i64)> = conns.children.iter().map(link).collect();
    assert_eq!(links, vec![(FIRST_FBX_ID as i64, 0)]);
}

#[test]
fn takes_hold_an_empty_current_take() {
    let ser = SceneSerializer::new(SaveOpts::default());
    let takes = ser.build_takes();
    assert_eq!(takes.name, "Takes");
    assert_eq!(takes.children.len(), 1);
    assert_eq!(takes.children[0].name, "Current");
    match &takes.children[0].values[0] {
        Value::String(s) => assert_eq!(s.data, ""),
        _ => panic!("current take is not a string"),
    }
}
