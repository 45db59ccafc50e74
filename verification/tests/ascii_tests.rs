use ufbx::ascii::{comment_version, parse_ascii, AsciiParser, AsciiValue};

#[test]
fn test_version_parsing() {
    let input = "; FBX 7.4.0 project file\nNodeName: 42 {}";
    let parser = AsciiParser::new(input);
    let nodes = parser.parse().unwrap();
    assert_eq!(nodes.len(), 1);
}

#[test]
fn test_simple_node() {
    let input = "TestNode: 42, 3.14, \"hello\" {}";
    let nodes = parse_ascii(input).unwrap();
    assert_eq!(nodes.len(), 1);
    assert_eq!(nodes[0].name, "TestNode");
    assert_eq!(nodes[0].values.len(), 3);
}

#[test]
fn test_nested_nodes() {
    let input = r#"
        Parent: {
            Child1: 1 {}
            Child2: 2 {}
        }
    "#;
    let nodes = parse_ascii(input).unwrap();
    assert_eq!(nodes.len(), 1);
    assert_eq!(nodes[0].children.len(), 2);
}

#[test]
fn test_array_syntax() {
    let input = "ArrayNode: *3 { a: 1, 2, 3 }";
    let nodes = parse_ascii(input).unwrap();
    assert_eq!(nodes.len(), 1);
    assert_eq!(nodes[0].values.len(), 1);
    match &nodes[0].values[0] {
        AsciiValue::Array(arr) => assert_eq!(arr.len(), 3),
        _ => panic!("Expected array"),
    }
}

#[test]
fn test_string_escapes() {
    let input = r#"StringNode: "test&quot;quote&cr;&lf;" {}"#;
    let nodes = parse_ascii(input).unwrap();
    assert_eq!(nodes.len(), 1);
    match &nodes[0].values[0] {
        AsciiValue::String(s) => {
            assert!(s.contains('"'));
            assert!(s.contains('\r'));
            assert!(s.contains('\n'));
        }
        _ => panic!("Expected string"),
    }
}

#[test]
fn test_comments() {
    let input = r#"
        ; This is a comment
        Node1: 1 {} ; inline comment
        ; Another comment
        Node2: 2 {}
    "#;
    let nodes = parse_ascii(input).unwrap();
    assert_eq!(nodes.len(), 2);
}

#[test]
fn test_negative_zero() {
    let input = "Node: -0 {}";
    let nodes = parse_ascii(input).unwrap();
    assert_eq!(nodes.len(), 1);
    match &nodes[0].values[0] {
        AsciiValue::Int(v) => assert_eq!(*v, 0),
        _ => panic!("Expected integer"),
    }
}

#[test]
fn test_special_floats() {
    let input = "Node: 1.#INF, -1.#INF, 1.#IND {}";
    let nodes = parse_ascii(input).unwrap();
    assert_eq!(nodes.len(), 1);
    assert_eq!(nodes[0].values.len(), 3);
    match &nodes[0].values[1] {
        AsciiValue::Float(t) => assert_eq!(t, "-1.#INF"),
        _ => panic!("Expected float"),
    }
}

#[test]
fn ascii_values_exact() {
    let input = "N: 7, -12, 2.5e3, \"s\", Yes, *2 { a: 4, x } { C: \"a&b;\" }";
    let nodes = parse_ascii(input).unwrap();
    let n = &nodes[0];
    assert_eq!(n.name, "N");
    assert_eq!(n.values.len(), 6);
    assert!(matches!(n.values[0], AsciiValue::Int(7)));
    assert!(matches!(n.values[1], AsciiValue::Int(-12)));
    match &n.values[2] {
        AsciiValue::Float(t) => assert_eq!(t, "2.5e3"),
        _ => panic!("Expected float"),
    }
    match &n.values[3] {
        AsciiValue::String(t) => assert_eq!(t, "s"),
        _ => panic!("Expected string"),
    }
    assert!(matches!(n.values[4], AsciiValue::Int(89)));
    match &n.values[5] {
        AsciiValue::Array(items) => {
            assert_eq!(items.len(), 2);
            assert!(matches!(items[0], AsciiValue::Int(4)));
            assert!(matches!(items[1], AsciiValue::Int(120)));
        }
        _ => panic!("Expected array"),
    }
    assert_eq!(n.children.len(), 1);
    match &n.children[0].values[0] {
        AsciiValue::String(t) => assert_eq!(t, "a&"),
        _ => panic!("Expected string"),
    }
}

#[test]
fn ascii_errors() {
    let err = parse_ascii("N: 99999999999999999999").unwrap_err();
    assert_eq!(err.to_string(), "Unknown error: Invalid integer: 99999999999999999999");
    let err = parse_ascii("N: {").unwrap_err();
    assert_eq!(err.to_error_code(), 8);
    let err = parse_ascii("42").unwrap_err();
    assert!(err.to_string().contains("Expected Name"));
    let deep = "A: {".repeat(130);
    let err = parse_ascii(&deep).unwrap_err();
    assert!(err.to_string().contains("128"));
}

#[test]
fn ascii_version_comment() {
    let text: Vec<char> = "; FBX 7.5.0 project file".chars().collect();
    assert_eq!(comment_version(&text, 0), Some(7500));
    let text: Vec<char> = ";FBX 7.x".chars().collect();
    assert_eq!(comment_version(&text, 0), None);
}
