use flate2::read::ZlibDecoder;
use std::cmp::Ordering;
use std::io::Read;
use ufbx::allocator::{GlobalAllocator, GrowableArray};
use ufbx::binary::{ArrayData, FbxDocument, FbxNode, ValueArray};
use ufbx::binary_writer::write_binary;
use ufbx::geometry::triangulate_faces;
use ufbx::types::Face;
use ufbx::strings::{str_cmp, str_equal, str_less};
use ufbx::writer::SaveOpts;

fn document_with_array(n: i32) -> FbxDocument {
    let mut node = FbxNode::new("Vertices".to_string());
    node.array = Some(ValueArray { data: ArrayData::I32((0..n).collect()), array_type: 'i' });
    let mut root = FbxNode::new(String::new());
    root.children.push(node);
    FbxDocument { version: 7400, big_endian: false, root }
}

#[test]
fn compressed_array_is_written_with_default_options() {
    let opts = SaveOpts::default();
    assert!(opts.compress_arrays);
    let doc = document_with_array(500);
    let bytes = write_binary(&doc, &opts).unwrap();
    // File header (27 bytes), node header with the name length (13), name (8): the array starts at 48.
    let p = 48;
    assert_eq!(bytes[p], b'i');
    assert_eq!(u32::from_le_bytes([bytes[p + 1], bytes[p + 2], bytes[p + 3], bytes[p + 4]]), 500);
    assert_eq!(u32::from_le_bytes([bytes[p + 5], bytes[p + 6], bytes[p + 7], bytes[p + 8]]), 1);
    let clen = u32::from_le_bytes([bytes[p + 9], bytes[p + 10], bytes[p + 11], bytes[p + 12]]) as usize;
    let mut raw = Vec::new();
    ZlibDecoder::new(&bytes[p + 13..p + 13 + clen]).read_to_end(&mut raw).unwrap();
    let expected: Vec<u8> = (0..500i32).flat_map(|v| v.to_le_bytes()).collect();
    assert_eq!(raw, expected);
}

#[test]
fn small_array_with_compression_on_is_stored_raw() {
    let opts = SaveOpts::default();
    let doc = document_with_array(10);
    let bytes = write_binary(&doc, &opts).unwrap();
    let mut plain = SaveOpts::default();
    plain.compress_arrays = false;
    assert_eq!(bytes, write_binary(&doc, &plain).unwrap());
}

#[test]
fn string_order_follows_bytes() {
    assert_eq!(str_cmp("test", "test"), Ordering::Equal);
    assert!(str_less("abc", "xyz"));
    assert!(!str_equal("hello", "world"));
    // 'é' (U+00E9, bytes C3 A9) comes after 'z' (7A) by characters and by bytes.
    assert_eq!(str_cmp("é", "z"), Ordering::Greater);
    assert_eq!("é".as_bytes().cmp("z".as_bytes()), Ordering::Greater);
    assert_eq!(str_cmp("z", "é"), Ordering::Less);
    assert_eq!(str_cmp("ab", "abc"), Ordering::Less);
    assert_eq!(str_cmp("abc", "ab"), Ordering::Greater);
}

#[test]
fn growing_zero_sized_elements() {
    let mut allocator = GlobalAllocator::new_default();
    let mut array: GrowableArray<()> = GrowableArray::new();
    array.grow(&mut allocator, 10).unwrap();
    assert_eq!(array.capacity(), 20);
    assert_eq!(array.len(), 0);
}

#[test]
fn faces_replaced_by_their_triangles() {
    let faces = vec![
        Face { index_begin: 0, num_indices: 4 },
        Face { index_begin: 4, num_indices: 3 },
        Face { index_begin: 7, num_indices: 5 },
        Face { index_begin: 12, num_indices: 2 },
    ];
    let triangles = vec![vec![0, 1, 2, 0, 2, 3], vec![], vec![7, 8, 9, 7, 9, 10, 7, 10, 11], vec![]];
    let r = triangulate_faces(&faces, &triangles);
    assert_eq!(
        r.faces,
        vec![
            Face { index_begin: 0, num_indices: 3 },
            Face { index_begin: 3, num_indices: 3 },
            Face { index_begin: 4, num_indices: 3 },
            Face { index_begin: 6, num_indices: 3 },
            Face { index_begin: 9, num_indices: 3 },
            Face { index_begin: 12, num_indices: 3 },
            Face { index_begin: 12, num_indices: 2 },
        ]
    );
    assert_eq!(r.indices, vec![0, 1, 2, 0, 2, 3, 7, 8, 9, 7, 9, 10, 7, 10, 11]);
    assert_eq!(r.num_faces, 7);
    assert_eq!(r.num_triangles, 6);
}
