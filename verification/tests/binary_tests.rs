use ufbx::binary::{is_binary_fbx, parse_binary, BinaryParser, Value, MAX_NODE_DEPTH};

const BINARY_MAGIC: &[u8; 22] = b"Kaydara FBX Binary  \x00\x1a";

#[test]
fn test_magic_detection() {
    let valid = b"Kaydara FBX Binary  \x00\x1a";
    assert!(is_binary_fbx(valid));

    let invalid = b"Not FBX binary";
    assert!(!is_binary_fbx(invalid));
}

#[test]
fn test_binary_header() {
    let mut data = Vec::new();
    data.extend_from_slice(BINARY_MAGIC);
    data.push(0);
    data.extend_from_slice(&7500u32.to_le_bytes());

    let mut parser = BinaryParser::new(data);
    let version = parser.read_header().unwrap();
    assert_eq!(version, 7500);
    assert!(!parser.file_big_endian);
}

#[test]
fn test_node_end_sentinel() {
    let mut data = Vec::new();
    data.extend_from_slice(BINARY_MAGIC);
    data.push(0);
    data.extend_from_slice(&7500u32.to_le_bytes());
    data.extend_from_slice(&[0u8; 25]);

    let mut parser = BinaryParser::new(data);
    parser.read_header().unwrap();
    let node = parser.read_node(0).unwrap();
    assert!(node.is_none());
}

#[test]
fn binary_test_property_parsing() {
    let mut data = Vec::new();
    data.push(b'I');
    data.extend_from_slice(&42i32.to_le_bytes());

    let mut parser = BinaryParser::new(data);
    parser.file_big_endian = false;
    let prop = parser.read_property().unwrap().unwrap();
    match prop {
        Value::Number { i, .. } => assert_eq!(i, 42),
        _ => panic!("Expected number"),
    }
}

#[test]
fn test_string_property() {
    let mut data = Vec::new();
    let test_str = "Hello";
    data.push(b'S');
    data.extend_from_slice(&(test_str.len() as u32).to_le_bytes());
    data.extend_from_slice(test_str.as_bytes());

    let mut parser = BinaryParser::new(data);
    parser.file_big_endian = false;
    let prop = parser.read_property().unwrap().unwrap();
    match prop {
        Value::String(s) => assert_eq!(s.as_str(), "Hello"),
        _ => panic!("Expected string"),
    }
}

#[test]
fn test_depth_limit() {
    let mut parser = BinaryParser::new(Vec::new());
    let result = parser.read_node(MAX_NODE_DEPTH);
    assert!(result.is_err());
}

#[test]
fn binary_rejects_truncated_header() {
    let data = BINARY_MAGIC[..10].to_vec();
    assert!(parse_binary(&data).is_err());
}

#[test]
fn binary_reads_node_with_values() {
    // One node "A" with an i16 property 7 and an array of two i32 values,
    // followed by the end marker, in version 7400 (32-bit node headers).
    let mut data = Vec::new();
    data.extend_from_slice(BINARY_MAGIC);
    data.push(0);
    data.extend_from_slice(&7400u32.to_le_bytes());
    let mut props = Vec::new();
    props.push(b'Y');
    props.extend_from_slice(&7i16.to_le_bytes());
    props.push(b'i');
    props.extend_from_slice(&2u32.to_le_bytes());
    props.extend_from_slice(&0u32.to_le_bytes());
    props.extend_from_slice(&8u32.to_le_bytes());
    props.extend_from_slice(&5i32.to_le_bytes());
    props.extend_from_slice(&(-6i32).to_le_bytes());
    let start = data.len();
    let end = start + 13 + 1 + props.len();
    data.extend_from_slice(&(end as u32).to_le_bytes());
    data.extend_from_slice(&2u32.to_le_bytes());
    data.extend_from_slice(&(props.len() as u32).to_le_bytes());
    data.push(1);
    data.push(b'A');
    data.extend_from_slice(&props);
    data.extend_from_slice(&[0u8; 13]);

    let doc = parse_binary(&data).unwrap();
    assert_eq!(doc.version, 7400);
    assert_eq!(doc.root.children.len(), 1);
    let node = &doc.root.children[0];
    assert_eq!(node.name, "A");
    assert_eq!(node.values.len(), 1);
    match &node.values[0] {
        Value::Number { i, .. } => assert_eq!(*i, 7),
        _ => panic!("Expected number"),
    }
    let array = node.array.as_ref().unwrap();
    assert_eq!(array.array_type, 'i');
    match &array.data {
        ufbx::binary::ArrayData::I32(v) => assert_eq!(v, &vec![5, -6]),
        _ => panic!("Expected i32 array"),
    }
}
