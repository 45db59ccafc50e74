//! Integer parts of IEEE-754 binary floating-point values given by their bits.
//!
//! A number read from a file as a 32-bit or 64-bit float is also offered as a
//! 64-bit integer: its value truncated toward zero, saturated at the ends of
//! the `i64` range, with NaN giving zero.
use vstd::prelude::*;
use vstd::arithmetic::power2::{pow2, lemma_pow2_unfold, lemma_pow2_pos, lemma2_to64};

verus! {

/// `v` clamped to the range of `i64`.
pub open spec fn saturate_i64(v: int) -> i64 {
    if v > i64::MAX {
        i64::MAX
    } else if v < i64::MIN {
        i64::MIN
    } else {
        v as i64
    }
}

/// Integer part of the magnitude of a finite float with biased exponent `e`
/// and fraction `m`, whose value is `(2^frac_bits + m) * 2^(e - base)` for
/// `e > 0` (`base` is the bias plus the fraction width), and below one for `e == 0`.
pub open spec fn magnitude_floor(e: nat, m: nat, frac_bits: nat, base: nat) -> nat {
    if e == 0 {
        0
    } else if e >= base {
        (pow2(frac_bits) + m) * pow2((e - base) as nat)
    } else {
        (pow2(frac_bits) + m) / pow2((base - e) as nat)
    }
}

/// The value of a 64-bit float, given by its bits, truncated toward zero and
/// saturated into `i64`; NaN gives zero.
pub open spec fn f64_to_i64(bits: u64) -> i64 {
    let neg = bits >= 0x8000_0000_0000_0000u64;
    let e = ((bits as nat) / 0x10_0000_0000_0000) % 0x800;
    let m = (bits as nat) % 0x10_0000_0000_0000;
    if e == 0x7ff {
        if m != 0 {
            0
        } else if neg {
            i64::MIN
        } else {
            i64::MAX
        }
    } else {
        let mag = magnitude_floor(e, m, 52, 1075) as int;
        saturate_i64(if neg { -mag } else { mag })
    }
}

/// The value of a 32-bit float, given by its bits, truncated toward zero and
/// saturated into `i64`; NaN gives zero.
pub open spec fn f32_to_i64(bits: u32) -> i64 {
    let neg = bits >= 0x8000_0000u32;
    let e = ((bits as nat) / 0x80_0000) % 0x100;
    let m = (bits as nat) % 0x80_0000;
    if e == 0xff {
        if m != 0 {
            0
        } else if neg {
            i64::MIN
        } else {
            i64::MAX
        }
    } else {
        let mag = magnitude_floor(e, m, 23, 150) as int;
        saturate_i64(if neg { -mag } else { mag })
    }
}

/// Powers of two grow with the exponent.
proof fn lemma_pow2_le(a: nat, b: nat)
    requires
        a <= b,
    ensures
        pow2(a) <= pow2(b),
{
    if a < b {
        vstd::arithmetic::power2::lemma_pow2_strictly_increases(a, b);
    }
}

/// `2^k` for `k < 64`.
fn pow2_u128(k: u64) -> (r: u128)
    requires
        k < 64,
    ensures
        r == pow2(k as nat),
        r <= 0x8000_0000_0000_0000u128,
{
    let mut p: u128 = 1;
    let mut i: u64 = 0;
    proof {
        lemma2_to64();
        vstd::arithmetic::power2::lemma2_to64_rest();
    }
    while i < k
        invariant
            i <= k < 64,
            p == pow2(i as nat),
            pow2(63) == 0x8000_0000_0000_0000u128,
        decreases k - i,
    {
        proof {
            lemma_pow2_unfold((i + 1) as nat);
            lemma_pow2_le((i + 1) as nat, 63);
        }
        p = p * 2;
        i = i + 1;
    }
    proof {
        lemma_pow2_le(i as nat, 63);
    }
    p
}

/// `sig * 2^sh` (`up`) or `sig / 2^sh` (not `up`), with the sign applied,
/// saturated into `i64`.
fn scaled_to_i64(neg: bool, sig: u64, up: bool, sh: u64) -> (r: i64)
    requires
        1 <= sig < 0x20_0000_0000_0000u64,
    ensures
        ({
            let mag: int = if up {
                sig * pow2(sh as nat)
            } else {
                sig as int / pow2(sh as nat) as int
            };
            r == saturate_i64(if neg { -mag } else { mag })
        }),
{
    proof {
        lemma2_to64();
        lemma_pow2_pos(sh as nat);
    }
    if up {
        if sh >= 63 {
            proof {
                vstd::arithmetic::power2::lemma2_to64_rest();
                lemma_pow2_le(63, sh as nat);
                assert(sig * pow2(sh as nat) >= pow2(sh as nat)) by (nonlinear_arith)
                    requires
                        sig >= 1,
                ;
            }
            if neg {
                i64::MIN
            } else {
                i64::MAX
            }
        } else {
            let p = pow2_u128(sh);
            assert(sig as u128 * p <= 0x20_0000_0000_0000u128 * 0x8000_0000_0000_0000u128)
                by (nonlinear_arith)
                requires
                    sig < 0x20_0000_0000_0000u64,
                    p <= 0x8000_0000_0000_0000u128,
            ;
            let mag: u128 = sig as u128 * p;
            if mag >= 0x8000_0000_0000_0000u128 {
                if neg {
                    i64::MIN
                } else {
                    i64::MAX
                }
            } else {
                let m = mag as i64;
                if neg {
                    -m
                } else {
                    m
                }
            }
        }
    } else {
        if sh >= 64 {
            proof {
                vstd::arithmetic::power2::lemma2_to64_rest();
                lemma_pow2_le(53, sh as nat);
                assert(sig < pow2(53));
                vstd::arithmetic::div_mod::lemma_basic_div(sig as int, pow2(sh as nat) as int);
            }
            0
        } else {
            let p = pow2_u128(sh);
            let mag: u128 = (sig as u128) / p;
            assert(mag <= sig) by (nonlinear_arith)
                requires
                    mag == (sig as u128) / p,
                    p >= 1,
            ;
            let m = mag as i64;
            if neg {
                -m
            } else {
                m
            }
        }
    }
}

/// Truncates the 64-bit float with the given bits toward zero into an `i64`.
pub fn f64_bits_to_i64(bits: u64) -> (r: i64)
    ensures
        r == f64_to_i64(bits),
{
    let neg = bits >= 0x8000_0000_0000_0000u64;
    let e: u64 = (bits / 0x10_0000_0000_0000) % 0x800;
    let m: u64 = bits % 0x10_0000_0000_0000;
    if e == 0x7ff {
        if m != 0 {
            0
        } else if neg {
            i64::MIN
        } else {
            i64::MAX
        }
    } else if e == 0 {
        0
    } else {
        proof {
            lemma2_to64();
            vstd::arithmetic::power2::lemma2_to64_rest();
        }
        let sig: u64 = 0x10_0000_0000_0000 + m;
        if e >= 1075 {
            scaled_to_i64(neg, sig, true, e - 1075)
        } else {
            scaled_to_i64(neg, sig, false, 1075 - e)
        }
    }
}

/// Truncates the 32-bit float with the given bits toward zero into an `i64`.
pub fn f32_bits_to_i64(bits: u32) -> (r: i64)
    ensures
        r == f32_to_i64(bits),
{
    let neg = bits >= 0x8000_0000u32;
    let e: u32 = (bits / 0x80_0000) % 0x100;
    let m: u32 = bits % 0x80_0000;
    if e == 0xff {
        if m != 0 {
            0
        } else if neg {
            i64::MIN
        } else {
            i64::MAX
        }
    } else if e == 0 {
        0
    } else {
        proof {
            lemma2_to64();
        }
        let sig: u64 = 0x80_0000 + m as u64;
        if e >= 150 {
            scaled_to_i64(neg, sig, true, (e - 150) as u64)
        } else {
            scaled_to_i64(neg, sig, false, (150 - e) as u64)
        }
    }
}

} // verus!
