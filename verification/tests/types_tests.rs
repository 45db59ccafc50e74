use ufbx::types::{Blob, FbxString};

#[test]
fn test_fbx_string() {
    let s = FbxString::new("test");
    assert_eq!(s.as_str(), "test");

    let s2: FbxString = "hello".into();
    assert_eq!(s2.as_str(), "hello");
}

#[test]
fn test_blob() {
    let data = vec![1, 2, 3, 4];
    let blob = Blob::new(data.clone());
    assert_eq!(blob.len(), 4);
    assert!(!blob.is_empty());
    assert_eq!(blob.as_slice(), &data[..]);
}
