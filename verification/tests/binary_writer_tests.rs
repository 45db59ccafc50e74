use ufbx::binary::{parse_binary, BinaryParser, FbxDocument, FbxNode, Value};
use ufbx::binary_writer::{write_binary, BinaryWriter};
use ufbx::writer::SaveOpts;

const BINARY_MAGIC: &[u8; 22] = b"Kaydara FBX Binary  \x00\x1a";

#[test]
fn test_write_header() {
    let mut writer = BinaryWriter::new(Vec::new(), 7400, false);
    writer.write_header().unwrap();
    let buf = &writer.writer;
    assert_eq!(&buf[0..22], &BINARY_MAGIC[..]);
    assert_eq!(buf[22], 0);
    assert_eq!(buf.len(), 27);
}

#[test]
fn test_write_simple_property() {
    let mut buf = Vec::new();
    let writer = BinaryWriter::new(Vec::new(), 7400, false);
    let value = Value::Int32(42);
    writer.write_property_to_buffer(&mut buf, &value).unwrap();
    assert_eq!(buf[0], b'I');
    assert_eq!(buf.len(), 5);
}

#[test]
fn test_write_node_simple() {
    let mut writer = BinaryWriter::new(Vec::new(), 7400, false);
    let mut node = FbxNode::new("Test".to_string());
    node.values.push(Value::Int32(123));
    writer.write_node(&node, 0).unwrap();
    assert!(writer.writer.len() > 0);
}

#[test]
fn written_property_reads_back() {
    let writer = BinaryWriter::new(Vec::new(), 7400, false);
    let mut buf = Vec::new();
    writer.write_property_to_buffer(&mut buf, &Value::Int64(-5)).unwrap();
    let mut parser = BinaryParser::new(buf);
    match parser.read_property().unwrap().unwrap() {
        Value::Number { i, .. } => assert_eq!(i, -5),
        _ => panic!("Expected number"),
    }
}

#[test]
fn written_header_reads_back() {
    let mut writer = BinaryWriter::new(Vec::new(), 7500, false);
    writer.write_header().unwrap();
    let mut parser = BinaryParser::new(writer.writer.clone());
    assert_eq!(parser.read_header().unwrap(), 7500);
}

#[test]
fn empty_document_round_trip() {
    let doc = FbxDocument { version: 7400, big_endian: false, root: FbxNode::new(String::new()) };
    let bytes = write_binary(&doc, &SaveOpts::default()).unwrap();
    let back = parse_binary(&bytes).unwrap();
    assert_eq!(back.version, 7400);
    assert_eq!(back.root.children.len(), 0);
}
