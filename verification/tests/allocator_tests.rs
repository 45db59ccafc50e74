use ufbx::allocator::{align_to_mask, size_align_mask, Allocator, AllocatorOpts, GlobalAllocator};

#[test]
fn test_size_align_mask() {
    assert_eq!(size_align_mask(1), 0);
    assert_eq!(size_align_mask(2), 1);
    assert_eq!(size_align_mask(4), 3);
    assert_eq!(size_align_mask(8), 7);
    assert_eq!(size_align_mask(16), 15);
}

#[test]
fn test_align_to_mask() {
    assert_eq!(align_to_mask(0, 7), 0);
    assert_eq!(align_to_mask(1, 7), 8);
    assert_eq!(align_to_mask(8, 7), 8);
    assert_eq!(align_to_mask(9, 7), 16);
}

#[test]
fn test_global_allocator_basic() {
    let mut allocator = GlobalAllocator::new_default();
    let block = allocator.alloc_block(1024).unwrap();
    assert!(!block.as_ptr().is_null());
    allocator.free_block(block, 1024);
}

#[test]
fn test_global_allocator_checked() {
    let mut allocator = GlobalAllocator::new_default();
    let block = allocator.alloc_checked(256, 4).unwrap();
    assert!(!block.as_ptr().is_null());
    allocator.free_block(block, 1024);
}

#[test]
fn test_global_allocator_realloc() {
    let mut allocator = GlobalAllocator::new_default();
    let block1 = allocator.alloc_block(512).unwrap();
    let block2 = allocator.realloc_block(&mut Some(block1), 512, 1024).unwrap();
    assert!(!block2.as_ptr().is_null());
    allocator.free_block(block2, 1024);
}

#[test]
fn test_memory_limit() {
    let opts = AllocatorOpts { memory_limit: 1024, ..Default::default() };
    let mut allocator = GlobalAllocator::new(opts);
    let block1 = allocator.alloc_checked(512, 1).unwrap();
    let result = allocator.alloc_checked(1024, 1);
    assert!(result.is_err());
    allocator.free_block(block1, 512);
}

#[test]
fn test_allocation_limit() {
    let opts = AllocatorOpts { allocation_limit: 2, ..Default::default() };
    let mut allocator = GlobalAllocator::new(opts);
    let _block1 = allocator.alloc_checked(64, 1).unwrap();
    let _block2 = allocator.alloc_checked(64, 1).unwrap();
    let result = allocator.alloc_checked(64, 1);
    assert!(result.is_err());
}

#[test]
fn test_zero_size_allocation() {
    let mut allocator = GlobalAllocator::new_default();
    let block = allocator.alloc_checked(128, 0).unwrap();
    assert!(!block.as_ptr().is_null());
}

#[test]
fn test_allocator_stats() {
    let mut allocator = GlobalAllocator::new_default();
    let block = allocator.alloc_checked(1024, 1).unwrap();
    let stats = allocator.stats();
    assert_eq!(stats.num_allocs, 1);
    assert_eq!(stats.current_size, 1024);

    allocator.free_block(block, 1024);
    allocator.state.record_free(1024);

    let stats = allocator.stats();
    assert_eq!(stats.num_frees, 1);
    assert_eq!(stats.current_size, 0);
    assert_eq!(stats.peak_size, 1024);
}
