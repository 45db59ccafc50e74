use ufbx::utils::math::{clamp, copy_16_bytes, copy_4_bytes, copy_8_bytes, copy_bytes, move_bytes, FastUint};

#[test]
fn test_copy_16_bytes() {
    let src = [1u8, 2, 3, 4, 5, 6, 7, 8, 9, 10, 11, 12, 13, 14, 15, 16];
    let mut dst = [0u8; 16];
    copy_16_bytes(&mut dst, &src);
    assert_eq!(dst, src);
}

#[test]
fn test_copy_8_bytes() {
    let src = [1u8, 2, 3, 4, 5, 6, 7, 8];
    let mut dst = [0u8; 8];
    copy_8_bytes(&mut dst, &src);
    assert_eq!(dst, src);
}

#[test]
fn test_copy_4_bytes() {
    let src = [1u8, 2, 3, 4];
    let mut dst = [0u8; 4];
    copy_4_bytes(&mut dst, &src);
    assert_eq!(dst, src);
}

#[test]
fn test_copy_bytes() {
    let src = [1u8, 2, 3, 4, 5];
    let mut dst = [0u8; 10];
    copy_bytes(&mut dst, &src, 5);
    assert_eq!(&dst[..5], &src[..]);
    assert_eq!(&dst[5..], &[0, 0, 0, 0, 0]);
}

#[test]
fn test_move_bytes_overlapping() {
    let mut data = [1u8, 2, 3, 4, 5, 6, 7, 8];
    let (src, dst) = data.split_at_mut(2);
    move_bytes(dst, src, 2);
    assert_eq!(data, [1, 2, 1, 2, 5, 6, 7, 8]);
}

#[test]
fn test_clamp() {
    assert_eq!(clamp(5, 0, 10), 5);
    assert_eq!(clamp(-1, 0, 10), 0);
    assert_eq!(clamp(15, 0, 10), 10);
    assert_eq!(clamp(3.5f32, 0.0, 5.0), 3.5);
}

#[test]
fn test_fast_uint_size() {
    let _x: FastUint = 42;
    assert!(std::mem::size_of::<FastUint>() >= 4);
}
