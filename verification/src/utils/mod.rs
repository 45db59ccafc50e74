//! Byte reads, bit counts, alignment and number parsing helpers.

pub mod bits;
pub mod decimal;
pub mod float_parse;
pub mod math;
pub mod rounding;
