use ufbx::ascii_writer::{write_ascii, AsciiWriter};
use ufbx::binary::{FbxDocument, FbxNode, Value};
use ufbx::types::FbxString;
use ufbx::writer::SaveOpts;

#[test]
fn test_write_comment() {
    let mut writer = AsciiWriter::new(String::new(), 7400, "  ".to_string());
    writer.write_comment("Test comment").unwrap();
    let output = writer.writer.clone();
    assert_eq!(output, "; Test comment\n");
}

#[test]
fn test_write_simple_node() {
    let mut writer = AsciiWriter::new(String::new(), 7400, "  ".to_string());
    let mut node = FbxNode::new("TestNode".to_string());
    node.values.push(Value::Int32(42));
    node.values.push(Value::String("hello".into()));
    writer.write_node(&node).unwrap();
    let output = writer.writer.clone();
    assert!(output.contains("TestNode:"));
    assert!(output.contains("42"));
    assert!(output.contains("\"hello\""));
}

#[test]
fn test_write_nested_nodes() {
    let mut writer = AsciiWriter::new(String::new(), 7400, "    ".to_string());
    let mut root = FbxNode::new("Root".to_string());
    let mut child = FbxNode::new("Child".to_string());
    child.values.push(Value::Int32(123));
    root.children.push(child);
    writer.write_node(&root).unwrap();
    let output = writer.writer.clone();
    assert!(output.contains("Root {"));
    assert!(output.contains("Child:"));
    assert!(output.contains("}"));
}

#[test]
fn ascii_node_text_exact() {
    let mut writer = AsciiWriter::new(String::new(), 7400, "  ".to_string());
    let mut root = FbxNode::new("Root".to_string());
    root.values.push(Value::Bool(true));
    root.values.push(Value::String(FbxString::new("a\"b")));
    let mut child = FbxNode::new("Child".to_string());
    child.values.push(Value::Int16(-3));
    root.children.push(child);
    writer.write_node(&root).unwrap();
    assert_eq!(writer.writer, "Root: 1, \"a\\\"b\" {\n  Child: -3\n}\n");
}

#[test]
fn ascii_document_text_exact() {
    let mut root = FbxNode::new(String::new());
    root.children.push(FbxNode::new("A".to_string()));
    let doc = FbxDocument { version: 7400, big_endian: false, root };
    let bytes = write_ascii(&doc, &SaveOpts::default()).unwrap();
    let text = String::from_utf8(bytes).unwrap();
    assert_eq!(text, "; FBX 7.4.0 project file\n; Created by ufbx-rust\n\nA\n\n");
}
