//! Little-endian reads, bit counts, alignment of addresses and shifts whose
//! amount wraps around the word size.
use vstd::prelude::*;
use vstd::std_specs::bits::{u32_leading_zeros, u32_trailing_zeros, u64_leading_zeros, u64_trailing_zeros};
use crate::wire::{read_u16_at, read_u32_at, read_u64_at, u16_le, u32_le, u64_le};

verus! {

/// The first byte.
pub fn read_u8(ptr: &[u8]) -> (r: u8)
    requires
        ptr@.len() >= 1,
    ensures
        r == ptr@[0],
{
    ptr[0]
}

/// The little-endian value of the first two bytes.
pub fn read_u16(ptr: &[u8]) -> (r: u16)
    requires
        ptr@.len() >= 2,
    ensures
        r == u16_le(ptr@.subrange(0, 2)),
{
    read_u16_at(ptr, 0, false)
}

/// The little-endian value of the first four bytes.
pub fn read_u32(ptr: &[u8]) -> (r: u32)
    requires
        ptr@.len() >= 4,
    ensures
        r == u32_le(ptr@.subrange(0, 4)),
{
    read_u32_at(ptr, 0, false)
}

/// The little-endian value of the first eight bytes.
pub fn read_u64(ptr: &[u8]) -> (r: u64)
    requires
        ptr@.len() >= 8,
    ensures
        r == u64_le(ptr@.subrange(0, 8)),
{
    read_u64_at(ptr, 0, false)
}

/// The first byte as a signed number.
pub fn read_i8(ptr: &[u8]) -> (r: i8)
    requires
        ptr@.len() >= 1,
    ensures
        r == ptr@[0] as i8,
{
    read_u8(ptr) as i8
}

/// The little-endian two's complement value of the first two bytes.
pub fn read_i16(ptr: &[u8]) -> (r: i16)
    requires
        ptr@.len() >= 2,
    ensures
        r == u16_le(ptr@.subrange(0, 2)) as i16,
{
    read_u16(ptr) as i16
}

/// The little-endian two's complement value of the first four bytes.
pub fn read_i32(ptr: &[u8]) -> (r: i32)
    requires
        ptr@.len() >= 4,
    ensures
        r == u32_le(ptr@.subrange(0, 4)) as i32,
{
    read_u32(ptr) as i32
}

/// The little-endian two's complement value of the first eight bytes.
pub fn read_i64(ptr: &[u8]) -> (r: i64)
    requires
        ptr@.len() >= 8,
    ensures
        r == u64_le(ptr@.subrange(0, 8)) as i64,
{
    read_u64(ptr) as i64
}

/// Number of leading zero bits of a 32-bit value; 32 for zero.
pub fn lzcnt32(v: u32) -> (r: u32)
    ensures
        r == u32_leading_zeros(v),
        v == 0 <==> r == 32,
{
    proof {
        vstd::std_specs::bits::axiom_u32_leading_zeros(v);
    }
    if v == 0 {
        32
    } else {
        v.leading_zeros()
    }
}

/// Number of leading zero bits of a 64-bit value; 64 for zero.
pub fn lzcnt64(v: u64) -> (r: u32)
    ensures
        r == u64_leading_zeros(v),
        v == 0 <==> r == 64,
{
    proof {
        vstd::std_specs::bits::axiom_u64_leading_zeros(v);
    }
    if v == 0 {
        64
    } else {
        v.leading_zeros()
    }
}

/// Number of trailing zero bits of a 32-bit value; 32 for zero.
pub fn tzcnt32(v: u32) -> (r: u32)
    ensures
        r == u32_trailing_zeros(v),
        v == 0 <==> r == 32,
{
    proof {
        vstd::std_specs::bits::axiom_u32_trailing_zeros(v);
    }
    if v == 0 {
        32
    } else {
        v.trailing_zeros()
    }
}

/// Number of trailing zero bits of a 64-bit value; 64 for zero.
pub fn tzcnt64(v: u64) -> (r: u32)
    ensures
        r == u64_trailing_zeros(v),
        v == 0 <==> r == 64,
{
    proof {
        vstd::std_specs::bits::axiom_u64_trailing_zeros(v);
    }
    if v == 0 {
        64
    } else {
        v.trailing_zeros()
    }
}

/// Whether the address `addr` is a multiple of `align`, a power of two: no
/// bit below `align` is set.
pub fn is_aligned(addr: usize, align: usize) -> (r: bool)
    requires
        align != 0,
        align & ((align - 1) as usize) == 0,
    ensures
        r == (addr & ((align - 1) as usize) == 0),
{
    addr & (align - 1) == 0
}

/// Whether the address `addr` has no bit of `mask` set.
pub fn is_aligned_mask(addr: usize, mask: usize) -> (r: bool)
    ensures
        r == (addr & mask == 0),
{
    addr & mask == 0
}

/// The lowest set bit of the address `addr`: the largest power of two it is
/// a multiple of; all bits set for the null address.
pub fn alignment_of(addr: usize) -> (r: usize)
    ensures
        addr == 0 ==> r == usize::MAX,
        addr != 0 ==> r != 0 && r & ((r - 1) as usize) == 0 && addr & r == r && addr & ((r - 1) as usize)
            == 0,
{
    if addr == 0 {
        return usize::MAX;
    }
    assert(!addr < !0usize) by (bit_vector)
        requires
            addr != 0,
    ;
    let neg = !addr + 1;
    let r = addr & neg;
    assert(r != 0 && r & ((r - 1) as usize) == 0 && addr & r == r && addr & ((r - 1) as usize) == 0) by (bit_vector)
        requires
            addr != 0,
            neg == (!addr + 1) as usize,
            r == addr & neg,
    ;
    r
}

/// `a` shifted right by `b` modulo 64.
pub fn wrap_shr64(a: u64, b: u32) -> (r: u64)
    ensures
        r == a >> (b % 64),
{
    a >> (b % 64)
}

/// `a` shifted right by `b` modulo 32.
pub fn wrap_shr32(a: u32, b: u32) -> (r: u32)
    ensures
        r == a >> (b % 32),
{
    a >> (b % 32)
}

/// `a` shifted left by `b` modulo 64.
pub fn wrap_shl64(a: u64, b: u32) -> (r: u64)
    ensures
        r == a << (b % 64),
{
    a << (b % 64)
}

/// `a` shifted left by `b` modulo 32.
pub fn wrap_shl32(a: u32, b: u32) -> (r: u32)
    ensures
        r == a << (b % 32),
{
    a << (b % 32)
}

} // verus!
