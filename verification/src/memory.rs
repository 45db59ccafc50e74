//! Alignment arithmetic, overflow checks and the settings of the default
//! allocator of memory buffers.
use vstd::prelude::*;

verus! {

/// Largest alignment handed out: 16 bytes.
pub const MAX_ALIGN: usize = 16;

/// The alignment a size allows: its lowest set bit, capped at 16 (16 for zero).
pub open spec fn size_alignment(size: usize) -> usize {
    if size % 16 == 0 {
        16
    } else if size % 8 == 0 {
        8
    } else if size % 4 == 0 {
        4
    } else if size % 2 == 0 {
        2
    } else {
        1
    }
}

/// The amount that brings `value` up to the next boundary given by `mask`:
/// the low bits of `-value` kept by the mask.
pub open spec fn align_gap(value: usize, mask: usize) -> usize {
    (if value == 0 {
        0usize
    } else {
        (!value + 1) as usize
    }) & mask
}

/// Whether `mask` is one less than a power of two.
pub open spec fn is_low_mask(mask: usize) -> bool {
    mask != !0usize && mask & (mask + 1) as usize == 0
}

/// A buffer of zero bytes handed out for allocations of no size.
pub fn zero_size_buffer() -> (r: &'static [u8])
    ensures
        r@.len() == 64,
        forall|i: int| 0 <= i < 64 ==> r@[i] == 0,
{
    let b: &'static [u8] = &[
        0u8, 0, 0, 0, 0, 0, 0, 0, 0, 0, 0, 0, 0, 0, 0, 0, 0, 0, 0, 0, 0, 0, 0, 0, 0, 0, 0, 0, 0, 0, 0,
        0, 0, 0, 0, 0, 0, 0, 0, 0, 0, 0, 0, 0, 0, 0, 0, 0, 0, 0, 0, 0, 0, 0, 0, 0, 0, 0, 0, 0, 0, 0,
        0, 0,
    ];
    b
}

/// The alignment mask for a size: all bits below its lowest set bit, up to
/// the maximum alignment.
pub fn size_align_mask(size: usize) -> (r: usize)
    ensures
        r == size_alignment(size) - 1,
{
    let below: usize = if size == 0 {
        !0usize
    } else {
        size - 1
    };
    let r = ((size ^ below) >> 1) & (MAX_ALIGN - 1);
    assert(r == size_alignment(size) - 1) by (bit_vector)
        requires
            below == (if size == 0 {
                !0usize
            } else {
                (size - 1) as usize
            }),
            r == ((size ^ below) >> 1) & 15,
    ;
    r
}

/// `value` moved up to the next boundary given by `mask`, wrapping around at
/// the end of the `usize` range. For a mask one less than a power of two
/// the result is on a boundary; when nothing wraps it is the first boundary
/// at or after `value`.
pub fn align_to_mask(value: usize, align_mask: usize) -> (r: usize)
    ensures
        r == (value + align_gap(value, align_mask)) as usize,
        is_low_mask(align_mask) ==> r & align_mask == 0,
        align_gap(value, align_mask) <= align_mask,
        value + align_gap(value, align_mask) <= usize::MAX ==> r == value + align_gap(
            value,
            align_mask,
        ),
{
    assert(value != 0 ==> !value < !0usize) by (bit_vector);
    let neg: usize = if value == 0 {
        0
    } else {
        !value + 1
    };
    let gap = neg & align_mask;
    assert(gap <= align_mask) by (bit_vector)
        requires
            gap == neg & align_mask,
    ;
    assert(gap <= !0usize && value <= !0usize) by (bit_vector);
    let fits = value <= !0usize - gap;
    let r = if fits {
        value + gap
    } else {
        gap - (!0usize - value) - 1
    };
    assert(r == (value + gap) as usize && (is_low_mask(align_mask) ==> r & align_mask == 0)) by (bit_vector)
        requires
            neg == (if value == 0 {
                0usize
            } else {
                (!value + 1) as usize
            }),
            gap == neg & align_mask,
            fits == (value <= !0usize - gap),
            r == (if fits {
                (value + gap) as usize
            } else {
                (gap - (!0usize - value) - 1) as usize
            }),
    ;
    r
}

/// Whether `value` lies on the boundary given by `align_mask`.
pub fn is_aligned_mask(value: usize, align_mask: usize) -> (r: bool)
    ensures
        r == (value & align_mask == 0),
{
    (value & align_mask) == 0
}

/// Whether `total` fails to be the product `a * b`, as it does when the
/// product overflows.
pub fn does_overflow(total: usize, a: usize, b: usize) -> (r: bool)
    ensures
        r == (a != 0 && total / a != b),
        a != 0 && total == a * b ==> !r,
{
    proof {
        if a != 0 && total == a * b {
            vstd::arithmetic::div_mod::lemma_div_multiples_vanish(b as int, a as int);
            assert(total / a == b) by (nonlinear_arith)
                requires
                    a != 0,
                    total == a * b,
                    (a * b) / (a as int) == b,
            ;
        }
    }
    if a != 0 && total / a != b {
        return true;
    }
    false
}

/// Interface of allocators for memory buffers. Blocks are vectors whose
/// capacity holds the requested bytes.
pub trait Allocator {
    /// A block of `size` bytes, or `None` when none can be had.
    fn alloc_block(&mut self, size: usize) -> Option<Vec<u8>>;

    /// Gives a block back.
    fn free_block(&mut self, block: Vec<u8>, size: usize);

    /// A block of `new_size` bytes replacing `block`; the same block when the
    /// size does not change. The old block is taken when the call succeeds
    /// and stays where it is when it fails.
    fn realloc_block(&mut self, block: &mut Vec<u8>, old_size: usize, new_size: usize) -> (r: Option<Vec<u8>>)
        ensures
            old_size == new_size ==> r == Some(*old(block)),
            r is None ==> *final(block) == *old(block),
    {
        if old_size == new_size {
            let mut same: Vec<u8> = Vec::new();
            std::mem::swap(&mut same, block);
            return Some(same);
        }
        let new_block = self.alloc_block(new_size);
        match new_block {
            Some(nb) => {
                let mut old: Vec<u8> = Vec::new();
                std::mem::swap(&mut old, block);
                self.free_block(old, old_size);
                Some(nb)
            },
            None => None,
        }
    }

    /// Size from which allocations are made individually.
    fn huge_size(&self) -> usize;

    /// Largest chunk holding several allocations.
    fn chunk_max(&self) -> usize;
}

/// Allocator backed by the standard allocator.
pub struct GlobalAllocator {
    huge_size: usize,
    chunk_max: usize,
}

impl GlobalAllocator {
    /// Settings of 1 MiB for individual allocations and 16 MiB chunks.
    pub fn new() -> (r: Self)
        ensures
            r.huge_size() == 1024 * 1024,
            r.chunk_max() == 16 * 1024 * 1024,
    {
        GlobalAllocator { huge_size: 1024 * 1024, chunk_max: 16 * 1024 * 1024 }
    }

    /// Custom settings.
    pub fn with_settings(huge_size: usize, chunk_max: usize) -> (r: Self)
        ensures
            r.huge_size() == huge_size,
            r.chunk_max() == chunk_max,
    {
        GlobalAllocator { huge_size, chunk_max }
    }

    /// Size from which allocations are made individually.
    pub closed spec fn huge_size(&self) -> usize {
        self.huge_size
    }

    /// Largest chunk holding several allocations.
    pub closed spec fn chunk_max(&self) -> usize {
        self.chunk_max
    }
}

impl Default for GlobalAllocator {
    fn default() -> (r: Self)
        ensures
            r.huge_size() == 1024 * 1024,
            r.chunk_max() == 16 * 1024 * 1024,
    {
        GlobalAllocator::new()
    }
}

/// `Vec::try_reserve_exact` on a new vector: a block with room for `size`
/// bytes and no contents, or `None` when the allocation fails.
#[verifier::external_body]
fn reserve_block(size: usize) -> (r: Option<Vec<u8>>)
    ensures
        r matches Some(v) ==> v@.len() == 0,
{
    let mut v: Vec<u8> = Vec::new();
    match v.try_reserve_exact(size) {
        Ok(()) => Some(v),
        Err(_) => None,
    }
}

impl Allocator for GlobalAllocator {
    fn alloc_block(&mut self, size: usize) -> (r: Option<Vec<u8>>)
        ensures
            *final(self) == *old(self),
            size == 0 ==> r is Some,
            r matches Some(v) ==> v@.len() == 0,
    {
        if size == 0 {
            return Some(Vec::new());
        }
        reserve_block(size)
    }

    fn free_block(&mut self, block: Vec<u8>, size: usize) {
    }

    fn huge_size(&self) -> (r: usize)
        ensures
            r == GlobalAllocator::huge_size(self),
    {
        self.huge_size
    }

    fn chunk_max(&self) -> (r: usize)
        ensures
            r == GlobalAllocator::chunk_max(self),
    {
        self.chunk_max
    }
}

} // verus!
