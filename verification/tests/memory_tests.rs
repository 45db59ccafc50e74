use ufbx::memory::{align_to_mask, does_overflow, size_align_mask, zero_size_buffer};

#[test]
fn mod_test_size_align_mask() {
    assert_eq!(size_align_mask(1), 0);
    assert_eq!(size_align_mask(2), 1);
    assert_eq!(size_align_mask(4), 3);
    assert_eq!(size_align_mask(8), 7);
    assert_eq!(size_align_mask(16), 15);
    assert_eq!(size_align_mask(32), 15);
}

#[test]
fn mod_test_align_to_mask() {
    assert_eq!(align_to_mask(0, 7), 0);
    assert_eq!(align_to_mask(1, 7), 8);
    assert_eq!(align_to_mask(8, 7), 8);
    assert_eq!(align_to_mask(9, 7), 16);
}

#[test]
fn test_does_overflow() {
    assert!(!does_overflow(10, 2, 5));
    assert!(does_overflow(10, 100, 100));
    assert!(!does_overflow(0, 0, 5));
}

#[test]
fn test_zero_size_buffer() {
    let buffer = zero_size_buffer();
    assert!(!buffer.as_ptr().is_null());
}
