use ufbx::utils::bits::{
    alignment_of, is_aligned, is_aligned_mask, lzcnt32, lzcnt64, read_i16, read_i8, read_u16, read_u32,
    read_u64, read_u8, tzcnt32, tzcnt64, wrap_shl32, wrap_shl64, wrap_shr32, wrap_shr64,
};

#[test]
fn test_read_integers() {
    let data = [0x12, 0x34, 0x56, 0x78, 0x9A, 0xBC, 0xDE, 0xF0];
    assert_eq!(read_u8(&data), 0x12);
    assert_eq!(read_u16(&data), 0x3412);
    assert_eq!(read_u32(&data), 0x78563412);
    assert_eq!(read_u64(&data), 0xF0DEBC9A78563412);
    assert_eq!(read_i8(&data), 0x12);
    assert_eq!(read_i16(&data), 0x3412u16 as i16);
}

#[test]
fn test_lzcnt() {
    assert_eq!(lzcnt32(0), 32);
    assert_eq!(lzcnt32(1), 31);
    assert_eq!(lzcnt32(0x80000000), 0);
    assert_eq!(lzcnt32(0x00000001), 31);
    assert_eq!(lzcnt64(0), 64);
    assert_eq!(lzcnt64(1), 63);
    assert_eq!(lzcnt64(0x8000000000000000), 0);
}

#[test]
fn test_tzcnt() {
    assert_eq!(tzcnt32(0), 32);
    assert_eq!(tzcnt32(1), 0);
    assert_eq!(tzcnt32(2), 1);
    assert_eq!(tzcnt32(4), 2);
    assert_eq!(tzcnt32(0x80000000), 31);
    assert_eq!(tzcnt64(0), 64);
    assert_eq!(tzcnt64(1), 0);
    assert_eq!(tzcnt64(0x8000000000000000), 63);
}

#[test]
fn test_alignment() {
    let x = 0x1000usize;
    assert!(is_aligned(x, 16));
    assert!(is_aligned(x, 8));
    assert!(is_aligned(x, 4));
    assert!(!is_aligned(x + 1, 2));
    assert!(is_aligned_mask(x, 15));
    assert!(!is_aligned_mask(x + 8, 15));
}

#[test]
fn test_alignment_of() {
    let x = 0x1000usize;
    assert!(alignment_of(x) >= 16);
    let y = 0x1008usize;
    assert_eq!(alignment_of(y), 8);
    let z = 0x1001usize;
    assert_eq!(alignment_of(z), 1);
}

#[test]
fn test_wrapping_shift() {
    assert_eq!(wrap_shr64(0xFF, 4), 0x0F);
    assert_eq!(wrap_shr64(0xFF, 64), 0xFF);
    assert_eq!(wrap_shr64(0xFF, 65), 0x7F);
    assert_eq!(wrap_shr32(0xFF, 4), 0x0F);
    assert_eq!(wrap_shr32(0xFF, 32), 0xFF);
    assert_eq!(wrap_shl64(0xFF, 4), 0xFF0);
    assert_eq!(wrap_shl32(0xFF, 4), 0xFF0);
}

#[test]
fn test_read_boundary() {
    let data = [1, 2, 3, 4, 5, 6, 7, 8, 9, 10];
    assert_eq!(read_u16(&data[0..]), 0x0201);
    assert_eq!(read_u16(&data[1..]), 0x0302);
    assert_eq!(read_u32(&data[2..]), 0x06050403);
}
