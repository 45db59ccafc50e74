use ufbx::allocator::{Allocator, GlobalAllocator, GrowableArray};
use ufbx::error_info::ErrorType;

#[test]
fn realloc_without_an_old_block_allocates() {
    let mut allocator = GlobalAllocator::new_default();
    let mut old = None;
    let block = allocator.realloc_block(&mut old, 8, 16);
    assert!(block.is_some());
    assert!(old.is_none());
}

#[test]
fn realloc_to_nothing_frees() {
    let mut allocator = GlobalAllocator::new_default();
    let mut old = Some(allocator.alloc_block(32).unwrap());
    assert!(allocator.realloc_block(&mut old, 32, 0).is_none());
    assert!(old.is_none());
}

#[test]
fn resizing_keeps_the_accounting() {
    let mut allocator = GlobalAllocator::new_default();
    let mut block = Some(allocator.alloc_checked(16, 4).unwrap());
    assert_eq!(allocator.stats().current_size, 64);
    let grown = allocator.realloc_checked(&mut block, 16, 4, 8, 16).unwrap();
    assert!(grown.is_some());
    assert!(block.is_none());
    let stats = allocator.stats();
    assert_eq!(stats.current_size, 128);
    assert_eq!(stats.num_allocs, 2);
    assert_eq!(stats.num_frees, 1);
    assert_eq!(stats.peak_size, 128);
    assert_eq!(allocator.state.num_allocs, 2);

    let mut block = grown;
    assert!(allocator.realloc_checked(&mut block, 16, 8, 0, 16).unwrap().is_none());
    assert!(block.is_none());
    assert_eq!(allocator.stats().current_size, 0);
    assert_eq!(allocator.stats().num_frees, 2);
    assert_eq!(allocator.stats().peak_size, 128);
}

#[test]
fn resizing_past_the_limit_is_refused() {
    let mut opts = ufbx::allocator::AllocatorOpts::default();
    opts.memory_limit = 100;
    let mut allocator = GlobalAllocator::new(opts);
    let mut block = Some(allocator.alloc_checked(10, 5).unwrap());
    let e = allocator.realloc_checked(&mut block, 10, 5, 20, 10).unwrap_err();
    assert_eq!(e.error_type, ErrorType::MemoryLimit);
    assert!(block.is_some());
    assert_eq!(allocator.stats().current_size, 50);
    assert_eq!(allocator.stats().num_frees, 0);
}

#[test]
fn growing_an_array() {
    let mut allocator = GlobalAllocator::new_default();
    let mut array: GrowableArray<u32> = GrowableArray::new();
    array.grow(&mut allocator, 3).unwrap();
    assert_eq!(array.capacity(), 8);
    array.grow(&mut allocator, 5).unwrap();
    assert_eq!(array.capacity(), 8);
    array.grow(&mut allocator, 9).unwrap();
    assert_eq!(array.capacity(), 18);
    assert_eq!(array.len(), 0);
}
