//! Copying bytes and clamping values.
use vstd::prelude::*;
use vstd::std_specs::cmp::PartialOrdSpec;
use std::cmp::Ordering;

verus! {

/// Copies the first 16 bytes of `src` over the first 16 bytes of `dst`.
pub fn copy_16_bytes(dst: &mut [u8], src: &[u8])
    requires
        16 <= old(dst)@.len(),
        16 <= src@.len(),
    ensures
        final(dst)@ == src@.subrange(0, 16) + old(dst)@.subrange(16, old(dst)@.len() as int),
{
    copy_bytes(dst, src, 16);
    assert(dst@ =~= src@.subrange(0, 16) + old(dst)@.subrange(16, old(dst)@.len() as int));
}

/// Copies the first 8 bytes of `src` over the first 8 bytes of `dst`.
pub fn copy_8_bytes(dst: &mut [u8], src: &[u8])
    requires
        8 <= old(dst)@.len(),
        8 <= src@.len(),
    ensures
        final(dst)@ == src@.subrange(0, 8) + old(dst)@.subrange(8, old(dst)@.len() as int),
{
    copy_bytes(dst, src, 8);
    assert(dst@ =~= src@.subrange(0, 8) + old(dst)@.subrange(8, old(dst)@.len() as int));
}

/// Copies the first 4 bytes of `src` over the first 4 bytes of `dst`.
pub fn copy_4_bytes(dst: &mut [u8], src: &[u8])
    requires
        4 <= old(dst)@.len(),
        4 <= src@.len(),
    ensures
        final(dst)@ == src@.subrange(0, 4) + old(dst)@.subrange(4, old(dst)@.len() as int),
{
    copy_bytes(dst, src, 4);
    assert(dst@ =~= src@.subrange(0, 4) + old(dst)@.subrange(4, old(dst)@.len() as int));
}

/// Copies the first `count` bytes of `src` over the first `count` bytes of
/// `dst`. The two are distinct borrows and cannot overlap, so the copy
/// is a plain one.
pub fn move_bytes(dst: &mut [u8], src: &[u8], count: usize)
    requires
        count <= old(dst)@.len(),
        count <= src@.len(),
    ensures
        final(dst)@ == src@.subrange(0, count as int) + old(dst)@.subrange(
            count as int,
            old(dst)@.len() as int,
        ),
{
    copy_bytes(dst, src, count);
    assert(dst@ =~= src@.subrange(0, count as int) + old(dst)@.subrange(
        count as int,
        old(dst)@.len() as int,
    ));
}

/// Copies the first `count` bytes of `src` over the first `count` bytes of `dst`.
pub fn copy_bytes(dst: &mut [u8], src: &[u8], count: usize)
    requires
        count <= old(dst)@.len(),
        count <= src@.len(),
    ensures
        final(dst)@.len() == old(dst)@.len(),
        final(dst)@.subrange(0, count as int) == src@.subrange(0, count as int),
        final(dst)@.subrange(count as int, old(dst)@.len() as int) == old(dst)@.subrange(
            count as int,
            old(dst)@.len() as int,
        ),
{
    let mut i: usize = 0;
    while i < count
        invariant
            i <= count,
            count <= dst@.len(),
            count <= src@.len(),
            dst@.len() == old(dst)@.len(),
            forall|j: int| 0 <= j < i ==> dst@[j] == src@[j],
            forall|j: int| count <= j < dst@.len() ==> dst@[j] == old(dst)@[j],
        decreases count - i,
    {
        dst[i] = src[i];
        i = i + 1;
    }
    assert(dst@.subrange(0, count as int) =~= src@.subrange(0, count as int));
    assert(dst@.subrange(count as int, old(dst)@.len() as int) =~= old(dst)@.subrange(
        count as int,
        old(dst)@.len() as int,
    ));
}

/// The unsigned integer type used for fast counters.
pub type FastUint = usize;

/// `value` limited to the range from `min` to `max`: `min` when it compares
/// below `min`, otherwise `max` when it compares above `max`.
pub fn clamp<T: PartialOrd>(value: T, min: T, max: T) -> (r: T)
    ensures
        T::obeys_partial_cmp_spec() ==> r == (if value.partial_cmp_spec(&min) == Some(Ordering::Less) {
            min
        } else if value.partial_cmp_spec(&max) == Some(Ordering::Greater) {
            max
        } else {
            value
        }),
{
    if value < min {
        min
    } else if value > max {
        max
    } else {
        value
    }
}

} // verus!
