//! Reading and writing FBX scene files, with the byte-level formats verified.
use vstd::prelude::*;

pub mod allocator;
pub mod animation;
pub mod ascii;
pub mod ascii_writer;
pub mod binary;
pub mod binary_writer;
pub mod error;
pub mod error_info;
pub mod float_bits;
pub mod geometry;
pub mod memory;
pub mod nurbs;
pub mod obj;
pub mod platform;
pub mod scene;
pub mod strings;
pub mod subdivision;
pub mod text;
pub mod types;
pub mod utils;
pub mod wire;
pub mod writer;

verus! {

/// The library's version as text.
pub fn version() -> (r: &'static str)
    ensures
        r@ == "0.21.2"@,
{
    "0.21.2"
}

} // verus!
