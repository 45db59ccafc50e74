//! Fixed-width integers as they are laid out in FBX files.
//!
//! The byte-level reads and writes go through `byteorder`; this module states
//! what each of them computes as arithmetic over the bytes, and proves that
//! writing a value and reading it back gives the value again.
use vstd::prelude::*;
use byteorder::{BigEndian, ByteOrder, LittleEndian};
use vstd::slice::slice_subrange;

verus! {

/// Little-endian value of the first two bytes of `b`.
#[verifier::opaque]
pub open spec fn u16_le(b: Seq<u8>) -> u16 {
    (b[0] as int + b[1] as int * 0x100) as u16
}

/// Big-endian value of the first two bytes of `b`.
#[verifier::opaque]
pub open spec fn u16_be(b: Seq<u8>) -> u16 {
    (b[1] as int + b[0] as int * 0x100) as u16
}

/// Little-endian value of the first four bytes of `b`.
#[verifier::opaque]
pub open spec fn u32_le(b: Seq<u8>) -> u32 {
    (b[0] as int + b[1] as int * 0x100 + b[2] as int * 0x10000 + b[3] as int * 0x1000000) as u32
}

/// Big-endian value of the first four bytes of `b`.
#[verifier::opaque]
pub open spec fn u32_be(b: Seq<u8>) -> u32 {
    (b[3] as int + b[2] as int * 0x100 + b[1] as int * 0x10000 + b[0] as int * 0x1000000) as u32
}

/// Little-endian value of the first eight bytes of `b`.
#[verifier::opaque]
pub open spec fn u64_le(b: Seq<u8>) -> u64 {
    (u32_le(b) as int + u32_le(b.subrange(4, 8)) as int * 0x1_0000_0000) as u64
}

/// Big-endian value of the first eight bytes of `b`.
#[verifier::opaque]
pub open spec fn u64_be(b: Seq<u8>) -> u64 {
    (u32_be(b.subrange(4, 8)) as int + u32_be(b) as int * 0x1_0000_0000) as u64
}

/// Value of a 16-bit field in the given byte order.
pub open spec fn u16_in(b: Seq<u8>, big_endian: bool) -> u16 {
    if big_endian { u16_be(b) } else { u16_le(b) }
}

/// Value of a 32-bit field in the given byte order.
pub open spec fn u32_in(b: Seq<u8>, big_endian: bool) -> u32 {
    if big_endian { u32_be(b) } else { u32_le(b) }
}

/// Value of a 64-bit field in the given byte order.
pub open spec fn u64_in(b: Seq<u8>, big_endian: bool) -> u64 {
    if big_endian { u64_be(b) } else { u64_le(b) }
}

/// The two little-endian bytes of `n`.
#[verifier::opaque]
pub open spec fn u16_le_bytes(n: u16) -> Seq<u8> {
    seq![(n % 0x100) as u8, (n / 0x100) as u8]
}

/// The four little-endian bytes of `n`.
#[verifier::opaque]
pub open spec fn u32_le_bytes(n: u32) -> Seq<u8> {
    seq![
        (n % 0x100) as u8,
        ((n / 0x100) % 0x100) as u8,
        ((n / 0x10000) % 0x100) as u8,
        (n / 0x1000000) as u8,
    ]
}

/// The eight little-endian bytes of `n`.
#[verifier::opaque]
pub open spec fn u64_le_bytes(n: u64) -> Seq<u8> {
    u32_le_bytes((n % 0x1_0000_0000) as u32) + u32_le_bytes((n / 0x1_0000_0000) as u32)
}

/// Reading back the two bytes written for `n` gives `n`.
pub proof fn lemma_u16_le_roundtrip(n: u16)
    ensures
        u16_le_bytes(n).len() == 2,
        u16_le(u16_le_bytes(n)) == n,
{
    reveal(u16_le);
    reveal(u16_le_bytes);
}

/// Reading back the four bytes written for `n` gives `n`.
pub proof fn lemma_u32_le_roundtrip(n: u32)
    ensures
        u32_le_bytes(n).len() == 4,
        u32_le(u32_le_bytes(n)) == n,
{
    reveal(u32_le);
    reveal(u32_le_bytes);
}

/// Reading back the eight bytes written for `n` gives `n`.
pub proof fn lemma_u64_le_roundtrip(n: u64)
    ensures
        u64_le_bytes(n).len() == 8,
        u64_le(u64_le_bytes(n)) == n,
{
    reveal(u64_le);
    reveal(u64_le_bytes);
    let lo = (n % 0x1_0000_0000) as u32;
    let hi = (n / 0x1_0000_0000) as u32;
    lemma_u32_le_roundtrip(lo);
    lemma_u32_le_roundtrip(hi);
    let b = u64_le_bytes(n);
    assert(b.subrange(4, 8) =~= u32_le_bytes(hi));
    reveal(u32_le);
    assert(u32_le(b) == u32_le(u32_le_bytes(lo)));
}

/// Fields of zero bytes read as zero in either byte order.
pub proof fn lemma_zero_fields()
    ensures
        u32_le(Seq::new(4, |i: int| 0u8)) == 0,
        u32_be(Seq::new(4, |i: int| 0u8)) == 0,
        u64_le(Seq::new(8, |i: int| 0u8)) == 0,
        u64_be(Seq::new(8, |i: int| 0u8)) == 0,
{
    reveal(u32_le);
    reveal(u32_be);
    reveal(u64_le);
    reveal(u64_be);
    let z8 = Seq::new(8, |i: int| 0u8);
    assert(z8.subrange(4, 8) =~= Seq::new(4, |i: int| 0u8));
    assert(u32_le(z8) == 0);
    assert(u32_be(z8) == 0);
}

/// `byteorder::LittleEndian::read_u16`: the little-endian value of `buf[0..2]`.
#[verifier::external_body]
pub(crate) fn le_read_u16(buf: &[u8]) -> (r: u16)
    requires
        buf@.len() >= 2,
    ensures
        r == u16_le(buf@),
{
    LittleEndian::read_u16(buf)
}

/// `byteorder::BigEndian::read_u16`: the big-endian value of `buf[0..2]`.
#[verifier::external_body]
pub(crate) fn be_read_u16(buf: &[u8]) -> (r: u16)
    requires
        buf@.len() >= 2,
    ensures
        r == u16_be(buf@),
{
    BigEndian::read_u16(buf)
}

/// `byteorder::LittleEndian::read_u32`: the little-endian value of `buf[0..4]`.
#[verifier::external_body]
pub(crate) fn le_read_u32(buf: &[u8]) -> (r: u32)
    requires
        buf@.len() >= 4,
    ensures
        r == u32_le(buf@),
{
    LittleEndian::read_u32(buf)
}

/// `byteorder::BigEndian::read_u32`: the big-endian value of `buf[0..4]`.
#[verifier::external_body]
pub(crate) fn be_read_u32(buf: &[u8]) -> (r: u32)
    requires
        buf@.len() >= 4,
    ensures
        r == u32_be(buf@),
{
    BigEndian::read_u32(buf)
}

/// `byteorder::LittleEndian::read_u64`: the little-endian value of `buf[0..8]`.
#[verifier::external_body]
pub(crate) fn le_read_u64(buf: &[u8]) -> (r: u64)
    requires
        buf@.len() >= 8,
    ensures
        r == u64_le(buf@),
{
    LittleEndian::read_u64(buf)
}

/// `byteorder::BigEndian::read_u64`: the big-endian value of `buf[0..8]`.
#[verifier::external_body]
pub(crate) fn be_read_u64(buf: &[u8]) -> (r: u64)
    requires
        buf@.len() >= 8,
    ensures
        r == u64_be(buf@),
{
    BigEndian::read_u64(buf)
}

/// `byteorder::LittleEndian::write_u16` into a fresh two-byte buffer:
/// the buffer holds the little-endian bytes of `n`.
#[verifier::external_body]
pub(crate) fn le_write_u16(n: u16) -> (r: [u8; 2])
    ensures
        r@ == u16_le_bytes(n),
{
    let mut b = [0u8; 2];
    LittleEndian::write_u16(&mut b, n);
    b
}

/// `byteorder::LittleEndian::write_u32` into a fresh four-byte buffer:
/// the buffer holds the little-endian bytes of `n`.
#[verifier::external_body]
pub(crate) fn le_write_u32(n: u32) -> (r: [u8; 4])
    ensures
        r@ == u32_le_bytes(n),
{
    let mut b = [0u8; 4];
    LittleEndian::write_u32(&mut b, n);
    b
}

/// `byteorder::LittleEndian::write_u64` into a fresh eight-byte buffer:
/// the buffer holds the little-endian bytes of `n`.
#[verifier::external_body]
pub(crate) fn le_write_u64(n: u64) -> (r: [u8; 8])
    ensures
        r@ == u64_le_bytes(n),
{
    let mut b = [0u8; 8];
    LittleEndian::write_u64(&mut b, n);
    b
}

/// Reads a 16-bit field of `data` at `pos` in the given byte order.
pub fn read_u16_at(data: &[u8], pos: usize, big_endian: bool) -> (r: u16)
    requires
        pos + 2 <= data@.len(),
    ensures
        r == u16_in(data@.subrange(pos as int, pos + 2), big_endian),
{
    let len = data.len();
    assert(pos + 2 <= len);
    let b = slice_subrange(data, pos, pos + 2);
    if big_endian { be_read_u16(b) } else { le_read_u16(b) }
}

/// Reads a 32-bit field of `data` at `pos` in the given byte order.
pub fn read_u32_at(data: &[u8], pos: usize, big_endian: bool) -> (r: u32)
    requires
        pos + 4 <= data@.len(),
    ensures
        r == u32_in(data@.subrange(pos as int, pos + 4), big_endian),
{
    let len = data.len();
    assert(pos + 4 <= len);
    let b = slice_subrange(data, pos, pos + 4);
    if big_endian { be_read_u32(b) } else { le_read_u32(b) }
}

/// Reads a 64-bit field of `data` at `pos` in the given byte order.
pub fn read_u64_at(data: &[u8], pos: usize, big_endian: bool) -> (r: u64)
    requires
        pos + 8 <= data@.len(),
    ensures
        r == u64_in(data@.subrange(pos as int, pos + 8), big_endian),
{
    let len = data.len();
    assert(pos + 8 <= len);
    let b = slice_subrange(data, pos, pos + 8);
    if big_endian { be_read_u64(b) } else { le_read_u64(b) }
}

/// Appends the little-endian bytes of `n` to `out`.
pub fn push_u16_le(out: &mut Vec<u8>, n: u16)
    ensures
        final(out)@ == old(out)@ + u16_le_bytes(n),
{
    let b = le_write_u16(n);
    out.push(b[0]);
    out.push(b[1]);
    assert(final(out)@ =~= old(out)@ + u16_le_bytes(n));
}

/// Appends the little-endian bytes of `n` to `out`.
pub fn push_u32_le(out: &mut Vec<u8>, n: u32)
    ensures
        final(out)@ == old(out)@ + u32_le_bytes(n),
{
    let b = le_write_u32(n);
    out.push(b[0]);
    out.push(b[1]);
    out.push(b[2]);
    out.push(b[3]);
    assert(final(out)@ =~= old(out)@ + u32_le_bytes(n));
}

/// Appends the little-endian bytes of `n` to `out`.
pub fn push_u64_le(out: &mut Vec<u8>, n: u64)
    ensures
        final(out)@ == old(out)@ + u64_le_bytes(n),
{
    let b = le_write_u64(n);
    let mut i: usize = 0;
    while i < 8
        invariant
            0 <= i <= 8,
            b@ == u64_le_bytes(n),
            out@ == old(out)@ + b@.subrange(0, i as int),
        decreases 8 - i,
    {
        out.push(b[i]);
        assert(b@.subrange(0, i + 1) =~= b@.subrange(0, i as int).push(b@[i as int]));
        i = i + 1;
    }
    assert(b@.subrange(0, 8) =~= b@);
}

/// Appends all of `bytes` to `out`.
pub fn push_bytes(out: &mut Vec<u8>, bytes: &[u8])
    ensures
        final(out)@ == old(out)@ + bytes@,
{
    let mut i: usize = 0;
    while i < bytes.len()
        invariant
            0 <= i <= bytes@.len(),
            out@ == old(out)@ + bytes@.subrange(0, i as int),
        decreases bytes@.len() - i,
    {
        out.push(bytes[i]);
        assert(bytes@.subrange(0, i + 1) =~= bytes@.subrange(0, i as int).push(bytes@[i as int]));
        i = i + 1;
    }
    assert(bytes@.subrange(0, bytes@.len() as int) =~= bytes@);
}

} // verus!
