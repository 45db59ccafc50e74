//! Platform facts and version numbers.
use vstd::prelude::*;
use crate::text::{decimal, push_decimal, push_str};

pub mod atomics;
pub mod config;

verus! {

/// Largest alignment of fundamental types on the supported platforms.
pub const MAXIMUM_ALIGNMENT: usize = 8;

/// Size in bytes of a pointer-sized integer.
pub const UINTPTR_SIZE: usize = (usize::BITS / 8) as usize;

/// Bit pattern of the double-precision positive infinity.
pub const INFINITY_BITS: u64 = 0x7FF0_0000_0000_0000;

/// Bit pattern of the double-precision quiet NaN.
pub const NAN_BITS: u64 = 0x7FF8_0000_0000_0000;

/// Bit pattern of the single-precision machine epsilon, 2^-23.
pub const FLT_EPSILON_BITS: u32 = 0x3400_0000;

/// The version number of this release: `pack_version(0, 21, 2)`.
pub const SOURCE_VERSION: u32 = 21002;

/// A version packed into one number: major × 1000000 + minor × 1000 + patch.
pub open spec fn packed(major: u32, minor: u32, patch: u32) -> int {
    major * 1000000 + minor * 1000 + patch
}

/// Packs a version into one number.
pub fn pack_version(major: u32, minor: u32, patch: u32) -> (r: u32)
    requires
        packed(major, minor, patch) <= u32::MAX,
    ensures
        r == packed(major, minor, patch),
{
    major * 1000000 + minor * 1000 + patch
}

/// Unpacks a version number into major, minor and patch.
pub fn unpack_version(version: u32) -> (r: (u32, u32, u32))
    ensures
        r == (version / 1000000, (version / 1000) % 1000, version % 1000),
{
    (version / 1000000, (version / 1000) % 1000, version % 1000)
}

/// Unpacking a packed version gives its parts back, when minor and patch
/// have at most three digits.
pub proof fn lemma_unpack_pack(major: u32, minor: u32, patch: u32)
    requires
        minor < 1000,
        patch < 1000,
        packed(major, minor, patch) <= u32::MAX,
    ensures
        ({
            let v = packed(major, minor, patch) as u32;
            (v / 1000000, (v / 1000) % 1000, v % 1000) == (major, minor, patch)
        }),
{
    let v = packed(major, minor, patch);
    assert(v / 1000000 == major) by (nonlinear_arith)
        requires
            v == major * 1000000 + minor * 1000 + patch,
            minor < 1000,
            patch < 1000,
    ;
    assert(v / 1000 == major * 1000 + minor) by (nonlinear_arith)
        requires
            v == major * 1000000 + minor * 1000 + patch,
            patch < 1000,
    ;
    assert((major * 1000 + minor) % 1000 == minor) by (nonlinear_arith)
        requires
            minor < 1000,
    ;
    assert(v % 1000 == patch) by (nonlinear_arith)
        requires
            v == major * 1000000 + minor * 1000 + patch,
            patch < 1000,
    ;
}

/// The version of this release as `major.minor.patch`.
pub fn version_string() -> (r: String)
    ensures
        r@ == decimal(0) + "."@ + decimal(21) + "."@ + decimal(2),
{
    let (major, minor, patch) = unpack_version(SOURCE_VERSION);
    let mut s = String::new();
    push_decimal(&mut s, major as u64);
    push_str(&mut s, ".");
    push_decimal(&mut s, minor as u64);
    push_str(&mut s, ".");
    push_decimal(&mut s, patch as u64);
    assert(s@ =~= decimal(0) + "."@ + decimal(21) + "."@ + decimal(2));
    s
}

/// Marks a condition expected to be false; gives it back.
pub fn unlikely(b: bool) -> (r: bool)
    ensures
        r == b,
{
    b
}

/// Marks a condition expected to be true; gives it back.
pub fn likely(b: bool) -> (r: bool)
    ensures
        r == b,
{
    b
}

/// `u32::to_ne_bytes`: the bytes of `v` in the machine's byte order.
/// Which order that is, is not stated.
#[verifier::external_body]
fn native_bytes(v: u32) -> [u8; 4] {
    v.to_ne_bytes()
}

/// Whether the machine stores the least significant byte first.
pub fn is_little_endian() -> bool {
    let b = native_bytes(0x12345678);
    b[0] == 0x78
}

/// `std::path::MAIN_SEPARATOR`: the separator of path components on this
/// platform, `/` or `\`.
#[verifier::external_body]
pub fn path_separator() -> (r: char)
    ensures
        r == '/' || r == '\\',
{
    std::path::MAIN_SEPARATOR
}

} // verus!
