//! Parsing numbers from text: signed 64-bit integers, unsigned 32-bit
//! integers in base 10 or 16, and the parts of decimal float parsing that
//! are integer arithmetic.
use vstd::prelude::*;
use vstd::arithmetic::power2::{pow2, lemma_pow2_adds, lemma_pow2_strictly_increases, lemma2_to64};
use vstd::arithmetic::power::{pow, lemma_pow_adds, lemma_pow_positive};

verus! {

/// Whether `c` is an ASCII decimal digit.
pub open spec fn is_digit(c: u8) -> bool {
    0x30 <= c <= 0x39
}

/// Number of decimal digits at the start of `s`, counting at most `cap`.
pub open spec fn digit_run(s: Seq<u8>, cap: nat) -> nat
    decreases s.len(),
{
    if s.len() == 0 || cap == 0 || !is_digit(s[0]) {
        0
    } else {
        1 + digit_run(s.drop_first(), (cap - 1) as nat)
    }
}

/// The decimal value of the digits `s` (all digits).
pub open spec fn decimal_value(s: Seq<u8>) -> nat
    decreases s.len(),
{
    if s.len() == 0 {
        0
    } else {
        decimal_value(s.drop_last()) * 10 + (s.last() - 0x30) as nat
    }
}

/// The first character of a number is a sign.
pub open spec fn has_sign(s: Seq<u8>) -> bool {
    s.len() > 0 && (s[0] == 0x2D || s[0] == 0x2B)
}

/// The digits of a signed integer in `s`: those after the sign, at most 30.
pub open spec fn int_digits(s: Seq<u8>) -> Seq<u8> {
    let start: int = if has_sign(s) { 1 } else { 0 };
    s.subrange(start, start + digit_run(s.skip(start), 30))
}

/// The signed integer at the start of `s` and its length in bytes: an
/// optional sign and one to 29 digits. Values beyond the `i64` range wrap
/// around.
pub open spec fn int_prefix(s: Seq<u8>) -> Option<(i64, nat)> {
    let start: int = if has_sign(s) { 1 } else { 0 };
    let n = digit_run(s.skip(start), 30);
    if s.len() == 0 || (has_sign(s) && s.len() == 1) || n == 0 || n == 30 {
        None
    } else {
        let abs = decimal_value(int_digits(s));
        Some(((if s[0] == 0x2D { -abs } else { abs as int }) as i64, (start + n) as nat))
    }
}

/// What a run of digits is made of: digits up to its end, then a non-digit
/// unless the cap or the end of the text stopped it.
proof fn lemma_digit_prefix(s: Seq<u8>, cap: nat)
    ensures
        digit_run(s, cap) <= cap,
        digit_run(s, cap) <= s.len(),
        forall|k: int| 0 <= k < digit_run(s, cap) ==> is_digit(s[k]),
        digit_run(s, cap) < cap && digit_run(s, cap) < s.len() ==> !is_digit(s[digit_run(s, cap) as int]),
    decreases s.len(),
{
    if s.len() > 0 && cap > 0 && is_digit(s[0]) {
        lemma_digit_prefix(s.drop_first(), (cap - 1) as nat);
        assert forall|k: int| 0 <= k < digit_run(s, cap) implies is_digit(s[k]) by {
            if k > 0 {
                assert(s[k] == s.drop_first()[k - 1]);
            }
        }
    }
}

/// The value of a first part of some digits is at most the value of all of them.
proof fn lemma_decimal_value_prefix(t: Seq<u8>, k: nat)
    requires
        k <= t.len(),
        forall|i: int| 0 <= i < t.len() ==> is_digit(t[i]),
    ensures
        decimal_value(t.subrange(0, k as int)) <= decimal_value(t),
    decreases t.len() - k,
{
    if k < t.len() {
        assert(t.drop_last().subrange(0, k as int) =~= t.subrange(0, k as int));
        lemma_decimal_value_prefix(t.drop_last(), k);
    } else {
        assert(t.subrange(0, k as int) =~= t);
    }
}

/// Parses a signed 64-bit integer at the start of `str`; gives the value
/// and the number of bytes read.
pub fn parse_i64(str: &[u8]) -> (r: Option<(i64, usize)>)
    requires
        decimal_value(int_digits(str@)) <= u64::MAX,
    ensures
        r matches Some((v, n)) ==> int_prefix(str@) == Some((v, n as nat)),
        r is None ==> int_prefix(str@) is None,
{
    let len = str.len();
    if len == 0 {
        return None;
    }
    let negative = str[0] == 0x2D;
    let positive = str[0] == 0x2B;
    let mut pos: usize = 0;
    if negative || positive {
        pos = 1;
        if pos >= len {
            return None;
        }
    }
    let start = pos;
    let ghost s = str@.skip(start as int);
    let mut abs_val: u64 = 0;
    proof {
        lemma_digit_prefix(s, 30);
        assert(str@.subrange(start as int, start as int) =~= Seq::<u8>::empty());
    }
    while pos < len && pos - start < 30 && str[pos] >= 0x30 && str[pos] <= 0x39
        invariant
            start <= pos <= len,
            len == str@.len(),
            s == str@.skip(start as int),
            s.len() == len - start,
            digit_run(s, 30) <= s.len(),
            pos - start <= digit_run(s, 30),
            digit_run(s, 30) <= 30,
            decimal_value(str@.subrange(start as int, start + digit_run(s, 30))) <= u64::MAX,
            abs_val == decimal_value(str@.subrange(start as int, pos as int)),
            forall|k: int| 0 <= k < digit_run(s, 30) ==> is_digit(s[k]),
            digit_run(s, 30) < 30 && digit_run(s, 30) < s.len() ==> !is_digit(s[digit_run(s, 30) as int]),
        decreases len - pos,
    {
        let c = str[pos];
        {
            proof {
                let run = digit_run(s, 30);
                if pos - start >= run {
                    assert(s[run as int] == str@[pos as int]);
                }
                let full = str@.subrange(start as int, start + run);
                assert forall|i: int| 0 <= i < full.len() implies is_digit(full[i]) by {
                    assert(full[i] == s[i]);
                }
                assert(str@.subrange(start as int, pos + 1).drop_last() =~= str@.subrange(start as int, pos as int));
                lemma_decimal_value_prefix(full, (pos + 1 - start) as nat);
                assert(full.subrange(0, pos + 1 - start) =~= str@.subrange(start as int, pos + 1));
            }
            abs_val = 10 * abs_val + (c - 0x30) as u64;
            pos = pos + 1;
        }
    }
    proof {
        if pos - start < digit_run(s, 30) {
            assert(s[pos - start] == str@[pos as int]);
        }
    }
    assert(pos - start == digit_run(s, 30));
    if pos == start || pos - start == 30 {
        return None;
    }
    assert(abs_val != 0 ==> !abs_val < 0xffff_ffff_ffff_ffffu64) by (bit_vector);
    let v: u64 = if negative {
        if abs_val == 0 {
            0
        } else {
            !abs_val + 1
        }
    } else {
        abs_val
    };
    let value = v as i64;
    proof {
        assert(str@.subrange(start as int, pos as int) =~= int_digits(str@));
    }
    assert(value == (if negative { -(abs_val as int) } else { abs_val as int }) as i64) by (bit_vector)
        requires
            v == (if negative {
                if abs_val == 0 {
                    0u64
                } else {
                    (!abs_val + 1) as u64
                }
            } else {
                abs_val
            }),
            value == v as i64,
    ;
    Some((value, pos))
}


/// The value of a digit character in base `radix`: decimal digits in any
/// base, and `a`-`f` or `A`-`F` in base 16.
pub open spec fn radix_digit(c: u8, radix: u32) -> Option<u32> {
    if 0x30 <= c <= 0x39 {
        Some((c - 0x30) as u32)
    } else if radix == 16 && 0x61 <= c <= 0x66 {
        Some((c - 0x61 + 10) as u32)
    } else if radix == 16 && 0x41 <= c <= 0x46 {
        Some((c - 0x41 + 10) as u32)
    } else {
        None
    }
}

/// Number of digit characters at the start of `s` in base `radix`.
pub open spec fn radix_run(s: Seq<u8>, radix: u32) -> nat
    decreases s.len(),
{
    if s.len() == 0 || radix_digit(s[0], radix) is None {
        0
    } else {
        1 + radix_run(s.drop_first(), radix)
    }
}

/// The value of the first `n` characters of `s`, digits in base `radix`.
pub open spec fn radix_value(s: Seq<u8>, n: nat, radix: u32) -> nat
    decreases n,
{
    if n == 0 {
        0
    } else {
        (radix_value(s, (n - 1) as nat, radix) * radix + radix_digit(s[n - 1], radix)->0) as nat
    }
}

/// Parses the unsigned integer in base `radix` (10 or 16) at the start of
/// `str`, up to the first character that is not a digit.
pub fn parse_u32_radix(str: &[u8], radix: u32) -> (r: u32)
    requires
        forall|k: nat| k <= radix_run(str@, radix) ==> #[trigger] radix_value(str@, k, radix) <= u32::MAX,
    ensures
        r == radix_value(str@, radix_run(str@, radix), radix),
{
    let len = str.len();
    let mut value: u32 = 0;
    let mut i: usize = 0;
    proof {
        lemma_radix_run(str@, radix);
    }
    while i < len
        invariant
            i <= len,
            len == str@.len(),
            i <= radix_run(str@, radix),
            radix_run(str@, radix) <= str@.len(),
            forall|k: int| 0 <= k < radix_run(str@, radix) ==> radix_digit(#[trigger] str@[k], radix) is Some,
            radix_run(str@, radix) < str@.len() ==> radix_digit(str@[radix_run(str@, radix) as int], radix) is None,
            forall|k: nat| k <= radix_run(str@, radix) ==> #[trigger] radix_value(str@, k, radix) <= u32::MAX,
            value == radix_value(str@, i as nat, radix),
        ensures
            value == radix_value(str@, radix_run(str@, radix), radix),
        decreases len - i,
    {
        let c = str[i];
        let d: u32 = if c >= 0x30 && c <= 0x39 {
            (c - 0x30) as u32
        } else if radix == 16 && c >= 0x61 && c <= 0x66 {
            (c - 0x61 + 10) as u32
        } else if radix == 16 && c >= 0x41 && c <= 0x46 {
            (c - 0x41 + 10) as u32
        } else {
            proof {
                if i < radix_run(str@, radix) {
                    assert(radix_digit(str@[i as int], radix) is Some);
                }
            }
            break;
        };
        proof {
            if i >= radix_run(str@, radix) {
                assert(i == radix_run(str@, radix));
            }
            assert(radix_value(str@, (i + 1) as nat, radix) <= u32::MAX);
        }
        value = value * radix + d;
        i = i + 1;
    }
    value
}

/// What a run of base-`radix` digits is made of.
proof fn lemma_radix_run(s: Seq<u8>, radix: u32)
    ensures
        radix_run(s, radix) <= s.len(),
        forall|k: int| 0 <= k < radix_run(s, radix) ==> radix_digit(#[trigger] s[k], radix) is Some,
        radix_run(s, radix) < s.len() ==> radix_digit(s[radix_run(s, radix) as int], radix) is None,
    decreases s.len(),
{
    if s.len() > 0 && radix_digit(s[0], radix) is Some {
        lemma_radix_run(s.drop_first(), radix);
        assert forall|k: int| 0 <= k < radix_run(s, radix) implies radix_digit(#[trigger] s[k], radix) is Some by {
            if k > 0 {
                assert(s[k] == s.drop_first()[k - 1]);
            }
        }
    }
}

/// Options of decimal float parsing.
#[derive(Clone, Copy)]
pub struct ParseFlags {
    /// Whether simple values may take the fast path of native arithmetic.
    pub allow_fast_path: bool,
    /// Whether to round to 32-bit instead of 64-bit floats.
    pub as_binary32: bool,
}

impl Default for ParseFlags {
    /// The fast path is allowed (native arithmetic rounds to nearest) and
    /// results are 64-bit.
    fn default() -> (r: Self)
        ensures
            r.allow_fast_path,
            !r.as_binary32,
    {
        ParseFlags { allow_fast_path: true, as_binary32: false }
    }
}

/// Whether `p` starts with `fmt` ignoring ASCII case (`fmt` in lower case).
pub fn scan_ignorecase(p: &[u8], fmt: &[u8]) -> (r: bool)
    ensures
        r == (p@.len() >= fmt@.len() && forall|i: int| 0 <= i < fmt@.len() ==> #[trigger] (p@[i] | 0x20) == fmt@[i]),
{
    if p.len() < fmt.len() {
        return false;
    }
    let mut i: usize = 0;
    while i < fmt.len()
        invariant
            i <= fmt@.len(),
            fmt@.len() <= p@.len(),
            forall|j: int| 0 <= j < i ==> #[trigger] (p@[j] | 0x20) == fmt@[j],
        decreases fmt@.len() - i,
    {
        if (p[i] | 0x20) != fmt[i] {
            return false;
        }
        i = i + 1;
    }
    true
}


/// The value of the first `n` limbs of `s`, least significant first, in
/// base 2^32.
pub open spec fn limbs_value(s: Seq<u32>, n: nat) -> nat
    decreases n,
{
    if n == 0 {
        0
    } else {
        limbs_value(s, (n - 1) as nat) + (s[n - 1] as nat) * pow2(32 * (n - 1) as nat)
    }
}

/// The value of limbs depends on those limbs alone.
pub proof fn lemma_limbs_value_same(a: Seq<u32>, b: Seq<u32>, n: nat)
    requires
        n <= a.len(),
        n <= b.len(),
        forall|k: int| 0 <= k < n ==> a[k] == b[k],
    ensures
        limbs_value(a, n) == limbs_value(b, n),
    decreases n,
{
    if n > 0 {
        lemma_limbs_value_same(a, b, (n - 1) as nat);
    }
}

/// `n` limbs hold less than 2^(32 n).
pub proof fn lemma_limbs_value_bound(s: Seq<u32>, n: nat)
    ensures
        limbs_value(s, n) < pow2(32 * n),
    decreases n,
{
    if n > 0 {
        lemma_limbs_value_bound(s, (n - 1) as nat);
        let p = pow2(32 * (n - 1) as nat);
        lemma_pow2_adds(32 * (n - 1) as nat, 32);
        lemma2_to64();
        assert(32 * n == 32 * (n - 1) as nat + 32);
        assert(pow2(32 * n) == p * 0x1_0000_0000);
        let v = limbs_value(s, (n - 1) as nat);
        let d = s[n - 1] as nat;
        assert(v + d * p < p * 0x1_0000_0000) by (nonlinear_arith)
            requires
                v < p,
                d < 0x1_0000_0000,
        ;
        assert(limbs_value(s, n) == v + d * p);
    } else {
        vstd::arithmetic::power2::lemma_pow2_pos(0);
    }
}

/// The top of `n >= 1` limbs is nonzero just when their value reaches
/// 2^(32 (n - 1)).
pub proof fn lemma_trimmed_value(s: Seq<u32>, n: nat)
    requires
        n >= 1,
        n <= s.len(),
    ensures
        (s[n - 1] != 0) <==> (limbs_value(s, n) >= pow2(32 * (n - 1) as nat)),
{
    lemma_limbs_value_bound(s, (n - 1) as nat);
    let p = pow2(32 * (n - 1) as nat);
    let v = limbs_value(s, (n - 1) as nat);
    let t = s[n - 1] as nat;
    assert(limbs_value(s, n) == v + t * p);
    assert((t != 0) <==> (v + t * p >= p)) by (nonlinear_arith)
        requires
            v < p,
            t >= 0,
    ;
}

/// A little-endian number in base 2^32 with room to grow: the first
/// `length` limbs are its value.
#[derive(Clone)]
pub struct BigInt {
    pub limbs: Vec<u32>,
    pub length: usize,
}

impl BigInt {
    /// The number the first `length` limbs spell.
    pub open spec fn value(&self) -> nat {
        limbs_value(self.limbs@, self.length as nat)
    }

    /// Whether the top limb in use is nonzero (or no limb is in use).
    pub open spec fn is_trimmed(&self) -> bool {
        self.length == 0 || self.limbs@[self.length - 1] != 0
    }

    /// Zero, with room for `capacity` limbs.
    pub fn new(capacity: usize) -> (r: BigInt)
        ensures
            r.limbs@ == Seq::new(capacity as nat, |i: int| 0u32),
            r.length == 0,
            r.value() == 0,
    {
        let mut limbs: Vec<u32> = Vec::new();
        let mut i: usize = 0;
        while i < capacity
            invariant
                i <= capacity,
                limbs@ == Seq::new(i as nat, |k: int| 0u32),
            decreases capacity - i,
        {
            limbs.push(0);
            i = i + 1;
        }
        BigInt { limbs, length: 0 }
    }

    /// Multiplies by `multiplicand` and adds `addend`, growing the number
    /// of limbs as the result needs. The new top limb, if any, is not zero.
    pub fn mad(&mut self, multiplicand: u64, addend: u64)
        requires
            old(self).length <= old(self).limbs@.len(),
            multiplicand < 0x8000_0000_0000_0000,
            addend < 0x8000_0000_0000_0000,
            (old(self).value() * multiplicand + addend) * 0x1_0000_0000 < pow2(32 * old(self).limbs@.len()),
        ensures
            final(self).limbs@.len() == old(self).limbs@.len(),
            old(self).length <= final(self).length <= final(self).limbs@.len(),
            final(self).length > old(self).length ==> final(self).length < final(self).limbs@.len(),
            final(self).value() == old(self).value() * multiplicand + addend,
            final(self).length > old(self).length ==> final(self).limbs@[final(self).length - 1] != 0,
            forall|k: int|
                final(self).length <= k < final(self).limbs@.len() ==> #[trigger] final(self).limbs@[k]
                    == old(self).limbs@[k],
            old(self).is_trimmed() && multiplicand >= 1 ==> final(self).is_trimmed(),
    {
        let ghost old_limbs = self.limbs@;
        let ghost total = self.value() * multiplicand + addend;
        let m_lo = (multiplicand & 0xFFFF_FFFF) as u64;
        let m_hi = multiplicand >> 32;
        assert(multiplicand == m_lo + m_hi * 0x1_0000_0000 && m_lo < 0x1_0000_0000 && m_hi < 0x8000_0000) by (bit_vector)
            requires
                multiplicand < 0x8000_0000_0000_0000,
                m_lo == multiplicand & 0xFFFF_FFFF,
                m_hi == multiplicand >> 32,
        ;
        let mut carry: u64 = addend;
        let len = self.length;
        let mut i: usize = 0;
        proof {
            lemma2_to64();
            assert(limbs_value(self.limbs@, 0) + carry * pow2(0) == limbs_value(old_limbs, 0)
                * multiplicand + addend) by (nonlinear_arith)
                requires
                    pow2(0) == 1,
                    limbs_value(self.limbs@, 0) == 0,
                    limbs_value(old_limbs, 0) == 0,
                    carry == addend,
            ;
        }
        while i < len
            invariant
                len == old(self).length,
                len <= self.limbs@.len(),
                self.limbs@.len() == old_limbs.len(),
                old_limbs == old(self).limbs@,
                self.length == len,
                i <= len,
                forall|k: int| i <= k < old_limbs.len() ==> #[trigger] self.limbs@[k] == old_limbs[k],
                multiplicand == m_lo + m_hi * 0x1_0000_0000,
                m_lo < 0x1_0000_0000,
                m_hi < 0x8000_0000,
                pow2(32) == 0x1_0000_0000,
                limbs_value(self.limbs@, i as nat) + carry * pow2(32 * i as nat) == limbs_value(
                    old_limbs,
                    i as nat,
                ) * multiplicand + addend,
            decreases len - i,
        {
            let limb = self.limbs[i] as u64;
            proof {
                assert(limb * m_lo <= 0xFFFF_FFFE_0000_0001) by (nonlinear_arith)
                    requires
                        limb < 0x1_0000_0000,
                        m_lo < 0x1_0000_0000,
                ;
                assert(carry & 0xFFFF_FFFF <= 0xFFFF_FFFF) by (bit_vector);
                assert(limb * m_hi <= 0x7FFF_FFFE_8000_0001) by (nonlinear_arith)
                    requires
                        limb < 0x1_0000_0000,
                        m_hi < 0x8000_0000,
                ;
                assert(carry >> 32 <= 0xFFFF_FFFF) by (bit_vector);
            }
            let lo = limb * m_lo + (carry & 0xFFFF_FFFF);
            assert(lo >> 32 <= 0xFFFF_FFFF) by (bit_vector);
            let hi = limb * m_hi;
            let new_limb = lo as u32;
            let next = (carry >> 32) + (lo >> 32) + hi;
            proof {
                assert(limb * m_lo <= 0xFFFF_FFFE_0000_0001) by (nonlinear_arith)
                    requires
                        limb < 0x1_0000_0000,
                        m_lo < 0x1_0000_0000,
                ;
                assert(hi <= 0x7FFF_FFFE_8000_0001) by (nonlinear_arith)
                    requires
                        hi == limb * m_hi,
                        limb < 0x1_0000_0000,
                        m_hi < 0x8000_0000,
                ;
                assert(carry & 0xFFFF_FFFF == carry % 0x1_0000_0000 && carry >> 32 == carry / 0x1_0000_0000)
                    by (bit_vector);
                assert(new_limb == lo % 0x1_0000_0000 && lo >> 32 == lo / 0x1_0000_0000) by (bit_vector)
                    requires
                        new_limb == lo as u32,
                ;
                assert(limb * multiplicand + carry == new_limb + 0x1_0000_0000 * next) by (nonlinear_arith)
                    requires
                        multiplicand == m_lo + m_hi * 0x1_0000_0000,
                        lo == limb * m_lo + carry % 0x1_0000_0000,
                        hi == limb * m_hi,
                        next == carry / 0x1_0000_0000 + lo / 0x1_0000_0000 + hi,
                        new_limb == lo % 0x1_0000_0000,
                ;
            }
            let ghost before = self.limbs@;
            self.limbs.set(i, new_limb);
            proof {
                let p = pow2(32 * i as nat);
                lemma_pow2_adds(32 * i as nat, 32);
                assert(32 * (i + 1) as nat == 32 * i as nat + 32);
                lemma_limbs_value_same(self.limbs@, before, i as nat);
                assert(old_limbs[i as int] == limb);
                assert(limbs_value(self.limbs@, (i + 1) as nat) + next * pow2(32 * (i + 1) as nat)
                    == limbs_value(old_limbs, (i + 1) as nat) * multiplicand + addend) by (nonlinear_arith)
                    requires
                        limbs_value(self.limbs@, (i + 1) as nat) == limbs_value(before, i as nat) + new_limb * p,
                        limbs_value(old_limbs, (i + 1) as nat) == limbs_value(old_limbs, i as nat) + limb * p,
                        pow2(32 * (i + 1) as nat) == p * 0x1_0000_0000,
                        limbs_value(before, i as nat) + carry * p == limbs_value(old_limbs, i as nat)
                            * multiplicand + addend,
                        limb * multiplicand + carry == new_limb + 0x1_0000_0000 * next,
                ;
            }
            carry = next;
            i = i + 1;
        }
        proof {
            lemma_limbs_value_same(old_limbs, old(self).limbs@, len as nat);
        }
        let cap = self.limbs.len();
        while carry != 0
            invariant
                len == old(self).length,
                self.limbs@.len() == old_limbs.len(),
                cap == old_limbs.len(),
                old_limbs == old(self).limbs@,
                len <= self.length <= cap,
                self.length > len ==> self.length < cap,
                forall|k: int| self.length <= k < old_limbs.len() ==> #[trigger] self.limbs@[k] == old_limbs[k],
                pow2(32) == 0x1_0000_0000,
                total == old(self).value() * multiplicand + addend,
                total * 0x1_0000_0000 < pow2(32 * cap as nat),
                limbs_value(self.limbs@, self.length as nat) + carry * pow2(32 * self.length as nat)
                    == total,
                carry == 0 && self.length > len ==> self.limbs@[self.length - 1] != 0,
            decreases carry,
        {
            let l = self.length;
            proof {
                let p = pow2(32 * l as nat);
                assert(p <= total) by (nonlinear_arith)
                    requires
                        carry >= 1,
                        limbs_value(self.limbs@, l as nat) + carry * p == total,
                ;
                lemma_pow2_adds(32 * l as nat, 32);
                assert(32 * (l + 1) as nat == 32 * l as nat + 32);
                assert(pow2(32 * (l + 1) as nat) <= total * 0x1_0000_0000) by (nonlinear_arith)
                    requires
                        p <= total,
                        pow2(32 * (l + 1) as nat) == p * 0x1_0000_0000,
                ;
                if l + 1 >= cap {
                    if 32 * (l + 1) as nat > 32 * cap as nat {
                        lemma_pow2_strictly_increases(32 * cap as nat, 32 * (l + 1) as nat);
                    }
                    assert(false);
                }
            }
            let low = carry as u32;
            let next = carry >> 32;
            assert(low == carry % 0x1_0000_0000 && next == carry / 0x1_0000_0000) by (bit_vector)
                requires
                    low == carry as u32,
                    next == carry >> 32,
            ;
            let ghost before = self.limbs@;
            self.limbs.set(l, low);
            self.length = l + 1;
            proof {
                let p = pow2(32 * l as nat);
                lemma_pow2_adds(32 * l as nat, 32);
                assert(32 * (l + 1) as nat == 32 * l as nat + 32);
                lemma_limbs_value_same(self.limbs@, before, l as nat);
                assert(limbs_value(self.limbs@, (l + 1) as nat) + next * pow2(32 * (l + 1) as nat)
                    == total) by (nonlinear_arith)
                    requires
                        limbs_value(self.limbs@, (l + 1) as nat) == limbs_value(before, l as nat) + low * p,
                        pow2(32 * (l + 1) as nat) == p * 0x1_0000_0000,
                        limbs_value(before, l as nat) + carry * p == total,
                        carry == low + 0x1_0000_0000 * next,
                ;
                assert(next < carry) by (bit_vector)
                    requires
                        next == carry >> 32,
                        carry != 0,
                ;
                assert(next == 0 ==> low == carry);
            }
            carry = next;
        }
        proof {
            if old(self).is_trimmed() && multiplicand >= 1 && self.length == len && len > 0 {
                let ov = old(self).value();
                lemma_trimmed_value(old(self).limbs@, len as nat);
                assert(total >= ov) by (nonlinear_arith)
                    requires
                        total == ov * multiplicand + addend,
                        multiplicand >= 1,
                ;
                lemma_trimmed_value(self.limbs@, len as nat);
            }
        }
    }
}


/// The low limb of `x * 2^b`.
pub open spec fn shifted_low(x: u32, b: nat) -> nat {
    ((x as nat) * pow2(b)) % 0x1_0000_0000nat
}

/// The limb that `x * 2^b` carries over into the next limb.
pub open spec fn shifted_high(x: u32, b: nat) -> nat {
    ((x as nat) * pow2(b)) / 0x1_0000_0000nat
}

/// Limb `j` of the limbs `x` shifted left by `b < 32` bits.
pub open spec fn shifted_limb(x: Seq<u32>, b: nat, j: int) -> nat {
    if j == 0 {
        shifted_low(x[0], b)
    } else {
        shifted_low(x[j], b) + shifted_high(x[j - 1], b)
    }
}

/// `cur << bits` with the bits that `prev << bits` pushes out.
fn shift_pair(cur: u32, prev: u32, bits: u32) -> (r: u32)
    requires
        bits < 32,
    ensures
        r == shifted_low(cur, bits as nat) + shifted_high(prev, bits as nat),
{
    let bits_down = 31 - bits;
    let lo = cur << bits;
    let hi = prev >> 1 >> bits_down;
    proof {
        lemma_shift_parts(cur, bits);
        lemma_shift_parts(prev, bits);
    }
    assert(lo | hi == lo + hi) by (bit_vector)
        requires
            lo == cur << bits,
            hi == prev >> 1 >> bits_down,
            bits_down == 31 - bits,
            bits < 32,
    ;
    lo | hi
}

/// What the shifts of a limb are in numbers.
proof fn lemma_shift_parts(x: u32, b: u32)
    requires
        b < 32,
    ensures
        (x << b) as nat == shifted_low(x, b as nat),
        (x >> 1 >> (31 - b) as u32) as nat == shifted_high(x, b as nat),
{
    let xx = x as u64;
    let bb = b as u64;
    vstd::bits::lemma_u64_pow2_no_overflow(b as nat);
    vstd::arithmetic::power2::lemma_pow2_strictly_increases(b as nat, 32);
    lemma2_to64();
    assert(x * pow2(b as nat) <= u64::MAX) by (nonlinear_arith)
        requires
            x < 0x1_0000_0000,
            pow2(b as nat) < 0x1_0000_0000,
    ;
    vstd::bits::lemma_u64_shl_is_mul(xx, bb);
    let bd = (31 - b) as u32;
    assert((x << b) == ((xx << bb) % 0x1_0000_0000) as u32 && (x >> 1 >> bd) == ((xx << bb)
        / 0x1_0000_0000) as u32) by (bit_vector)
        requires
            xx == x as u64,
            bb == b as u64,
            bd == 31 - b,
            b < 32,
    ;
}

/// Limbs that are all zero spell zero.
proof fn lemma_limbs_zero(y: Seq<u32>, w: nat)
    requires
        forall|k: int| 0 <= k < w ==> y[k] == 0,
    ensures
        limbs_value(y, w) == 0,
    decreases w,
{
    if w > 0 {
        lemma_limbs_zero(y, (w - 1) as nat);
    }
}

/// Limbs that spell `x` shifted left by `32 w + b` bits, for the first `n`
/// limbs of `x`, with what carries out of the last one.
proof fn lemma_shifted_value(y: Seq<u32>, x: Seq<u32>, w: nat, b: nat, n: nat)
    requires
        1 <= n <= x.len(),
        b < 32,
        w + n <= y.len(),
        forall|k: int| 0 <= k < w ==> y[k] == 0,
        forall|j: int| 0 <= j < n ==> #[trigger] shifted_limb(x, b, j) == y[w + j] as nat,
    ensures
        limbs_value(y, w + n) + shifted_high(x[n - 1], b) * pow2(32 * (w + n)) == pow2(32 * w)
            * pow2(b) * limbs_value(x, n),
    decreases n,
{
    lemma2_to64();
    let pb = pow2(b);
    let bw = pow2(32 * w);
    if n == 1 {
        lemma_limbs_zero(y, w);
        lemma_pow2_adds(32 * w, 32);
        assert(32 * (w + 1) == 32 * w + 32);
        assert(shifted_limb(x, b, 0) == y[w + 0int] as nat);
        assert(limbs_value(y, w + 1) == y[w as int] * bw);
        assert(limbs_value(x, 0) == 0);
        assert(limbs_value(x, 1) == x[0] as nat * pow2(0));
        let v = x[0] * pb;
        assert(v == shifted_low(x[0], b) + 0x1_0000_0000 * shifted_high(x[0], b)) by (nonlinear_arith)
            requires
                v >= 0,
                shifted_low(x[0], b) == v % 0x1_0000_0000,
                shifted_high(x[0], b) == v / 0x1_0000_0000,
        ;
        assert(limbs_value(y, w + 1) + shifted_high(x[0], b) * pow2(32 * (w + 1)) == bw * pb
            * limbs_value(x, 1)) by (nonlinear_arith)
            requires
                limbs_value(y, w + 1) == shifted_low(x[0], b) * bw,
                pow2(32 * (w + 1)) == bw * 0x1_0000_0000,
                limbs_value(x, 1) == x[0] as nat,
                x[0] * pb == shifted_low(x[0], b) + 0x1_0000_0000 * shifted_high(x[0], b),
        ;
    } else {
        let m = (n - 1) as nat;
        lemma_shifted_value(y, x, w, b, m);
        let pm = pow2(32 * (w + m));
        lemma_pow2_adds(32 * (w + m), 32);
        assert(32 * (w + n) == 32 * (w + m) + 32);
        lemma_pow2_adds(32 * w, 32 * m);
        assert(32 * (w + m) == 32 * w + 32 * m);
        assert(shifted_limb(x, b, m as int) == y[w + m as int] as nat);
        let v = x[m as int] * pb;
        assert(v == shifted_low(x[m as int], b) + 0x1_0000_0000 * shifted_high(x[m as int], b))
            by (nonlinear_arith)
            requires
                v >= 0,
                shifted_low(x[m as int], b) == v % 0x1_0000_0000,
                shifted_high(x[m as int], b) == v / 0x1_0000_0000,
        ;
        assert(limbs_value(y, w + n) == limbs_value(y, w + m) + y[(w + m) as int] as nat * pm);
        assert(limbs_value(x, n) == limbs_value(x, m) + x[m as int] as nat * pow2(32 * m));
        let aa = limbs_value(y, w + m);
        let h0 = shifted_high(x[m - 1], b);
        let lo = shifted_low(x[m as int], b);
        let h1 = shifted_high(x[m as int], b);
        let vv = limbs_value(x, m);
        let xm = x[m as int] as nat;
        let pp = pow2(32 * m);
        let big = pow2(32 * (w + n));
        let yy = limbs_value(y, w + n);
        assert(yy == aa + (lo + h0) * pm);
        assert(yy + h1 * big == aa + h0 * pm + pm * (lo + 0x1_0000_0000 * h1)) by (nonlinear_arith)
            requires
                yy == aa + (lo + h0) * pm,
                big == pm * 0x1_0000_0000,
        ;
        assert(pm * (lo + 0x1_0000_0000 * h1) == bw * pb * (xm * pp)) by (nonlinear_arith)
            requires
                xm * pb == lo + 0x1_0000_0000 * h1,
                pm == bw * pp,
        ;
        assert(bw * pb * vv + bw * pb * (xm * pp) == bw * pb * (vv + xm * pp)) by (nonlinear_arith);
        assert(limbs_value(x, n) == vv + xm * pp);
    }
}

impl BigInt {
    /// Shifts left by `amount` bits: the value is multiplied by 2^amount.
    /// The length grows by whole limbs, and by one more when the top limb
    /// carries bits out.
    pub fn shift_left(&mut self, amount: u32)
        requires
            1 <= old(self).length,
            old(self).length + amount / 32 + 1 < old(self).limbs@.len(),
            old(self).length <= 3 && amount / 32 <= 3 ==> amount / 32 + 3 < old(self).limbs@.len(),
        ensures
            final(self).limbs@.len() == old(self).limbs@.len(),
            final(self).length == old(self).length + amount / 32 + (if shifted_high(
                old(self).limbs@[old(self).length - 1],
                (amount % 32) as nat,
            ) != 0 {
                1int
            } else {
                0
            }),
            final(self).value() == old(self).value() * pow2(amount as nat),
    {
        let cap = self.limbs.len();
        let words = (amount / 32) as usize;
        let bits = amount % 32;
        let len = self.length;
        let top = self.limbs[len - 1];
        let bits_down = 31 - bits;
        let needs_extra = (top >> 1 >> bits_down) != 0;
        proof {
            lemma_shift_parts(top, bits);
        }
        let new_length = len + words + if needs_extra { 1 } else { 0 };
        self.limbs.set(len, 0);
        let ghost x = self.limbs@;
        let mut i = len;
        while i >= 1
            invariant
                1 <= len,
                len + words + 1 < x.len(),
                cap == x.len(),
                self.limbs@.len() == x.len(),
                bits < 32,
                i <= len,
                forall|k: int| 0 <= k <= i ==> #[trigger] self.limbs@[k] == x[k],
                forall|j: int| i < j <= len ==> #[trigger] self.limbs@[j + words] as nat == shifted_limb(x, bits as nat, j),
            decreases i,
        {
            let v = shift_pair(self.limbs[i], self.limbs[i - 1], bits);
            self.limbs.set(i + words, v);
            i = i - 1;
        }
        let l0 = self.limbs[0] << bits;
        proof {
            lemma_shift_parts(x[0], bits);
        }
        self.limbs.set(words, l0);
        let mut k: usize = 0;
        while k < words
            invariant
                k <= words,
                len + words + 1 < x.len(),
                self.limbs@.len() == x.len(),
                self.limbs@[words as int] as nat == shifted_limb(x, bits as nat, 0),
                forall|j: int| 0 < j <= len ==> #[trigger] self.limbs@[j + words] as nat == shifted_limb(x, bits as nat, j),
                forall|q: int| 0 <= q < k ==> self.limbs@[q] == 0,
            decreases words - k,
        {
            self.limbs.set(k, 0);
            k = k + 1;
        }
        self.length = new_length;
        proof {
            let y = self.limbs@;
            let b = bits as nat;
            let w = words as nat;
            assert forall|j: int| 0 <= j < len + 1 implies #[trigger] shifted_limb(x, b, j) == y[w + j] as nat by {
                if j == 0 {
                    assert(y[w + j] == y[words as int]);
                } else {
                    assert(y[j + words] as nat == shifted_limb(x, b, j));
                    assert(y[w + j] == y[j + words]);
                }
            }
            lemma_shifted_value(y, x, w, b, (len + 1) as nat);
            assert(x[len as int] == 0);
            lemma2_to64();
            assert(shifted_high(0u32, b) == 0) by (nonlinear_arith)
                requires
                    shifted_high(0u32, b) == (0 * pow2(b)) / 0x1_0000_0000,
            ;
            assert(x[len as int] as nat * pow2(32 * len as nat) == 0);
            assert(limbs_value(x, (len + 1) as nat) == limbs_value(x, len as nat));
            lemma_limbs_value_same(x, old(self).limbs@, len as nat);
            lemma_pow2_adds(32 * w, b);
            assert(amount as nat == 32 * w + b);
            let full = limbs_value(y, (w + len + 1) as nat);
            let ov = old(self).value();
            assert(full == ov * pow2(amount as nat)) by (nonlinear_arith)
                requires
                    full + 0 * pow2((32 * (w + len + 1)) as nat) == pow2(32 * w) * pow2(b) * limbs_value(x, (len + 1) as nat),
                    limbs_value(x, (len + 1) as nat) == ov,
                    pow2(amount as nat) == pow2(32 * w) * pow2(b),
            ;
            assert(y[w + len] as nat == shifted_limb(x, b, len as int));
            assert(x[len - 1] == old(self).limbs@[len - 1]);
            assert(shifted_low(0u32, b) == 0) by (nonlinear_arith)
                requires
                    shifted_low(0u32, b) == (0 * pow2(b)) % 0x1_0000_0000,
            ;
            if !needs_extra {
                assert(full == limbs_value(y, (w + len) as nat) + y[w + len] as nat * pow2((32 * (w + len)) as nat));
                assert(y[w + len] == 0);
                let t = y[w + len] as nat;
                let pt = pow2((32 * (w + len)) as nat);
                assert(t * pt == 0) by (nonlinear_arith)
                    requires
                        t == 0,
                ;
                assert(limbs_value(y, (w + len) as nat) == full);
            }
        }
    }
}


impl BigInt {
    /// Limb `index` counted from the top of the value; zero past its bottom.
    pub fn top_limb(&self, index: usize) -> (r: u32)
        requires
            self.length <= self.limbs@.len(),
        ensures
            r == (if index < self.length {
                self.limbs@[self.length - 1 - index]
            } else {
                0u32
            }),
    {
        if index < self.length {
            self.limbs[self.length - 1 - index]
        } else {
            0
        }
    }

    /// Multiplies by 5^power, by factors of at most 5^27.
    pub fn mul_pow5(&mut self, power: u32)
        requires
            old(self).length <= old(self).limbs@.len(),
            old(self).value() * pow(5, power as nat) * 0x1_0000_0000 < pow2(32 * old(self).limbs@.len()),
        ensures
            final(self).limbs@.len() == old(self).limbs@.len(),
            final(self).length <= final(self).limbs@.len(),
            final(self).value() == old(self).value() * pow(5, power as nat),
            old(self).is_trimmed() ==> final(self).is_trimmed(),
    {
        let ghost target = self.value() * pow(5, power as nat);
        let ghost cap = self.limbs@.len();
        let mut left = power;
        let big = pow5_u64(27);
        let ghost trimmed = self.is_trimmed();
        proof {
            lemma_pow_positive(5, 27);
        }
        while left > 27
            invariant
                big >= 1,
                trimmed ==> self.is_trimmed(),
                self.length <= self.limbs@.len(),
                self.limbs@.len() == cap,
                big == pow(5, 27),
                big < 0x8000_0000_0000_0000,
                self.value() * pow(5, left as nat) == target,
                target * 0x1_0000_0000 < pow2(32 * cap),
            decreases left,
        {
            let ghost a = self.value();
            let ghost b = pow(5, (left - 27) as nat);
            proof {
                lemma_pow_adds(5, 27, (left - 27) as nat);
                assert(27 + (left - 27) as nat == left as nat);
                lemma_pow_positive(5, (left - 27) as nat);
                assert(a * big <= a * big * b) by (nonlinear_arith)
                    requires
                        b >= 1,
                        a >= 0,
                        big >= 0,
                ;
                assert(a * pow(5, left as nat) == a * big * b) by (nonlinear_arith)
                    requires
                        pow(5, left as nat) == big * b,
                ;
                assert((a * big + 0) * 0x1_0000_0000 <= target * 0x1_0000_0000) by (nonlinear_arith)
                    requires
                        a * big <= target,
                ;
            }
            self.mad(big, 0);
            proof {
                assert(self.value() * b == target) by (nonlinear_arith)
                    requires
                        self.value() == a * big,
                        a * big * b == target,
                ;
            }
            left = left - 27;
        }
        let m = pow5_u64(left);
        proof {
            lemma_pow_positive(5, left as nat);
            assert(self.value() * m + 0 == target);
        }
        self.mad(m, 0);
    }
}

/// 5^k, for k up to 27.
pub fn pow5_u64(k: u32) -> (r: u64)
    requires
        k <= 27,
    ensures
        r == pow(5, k as nat),
        r < 0x8000_0000_0000_0000,
{
    let mut p: u64 = 1;
    let mut i: u32 = 0;
    proof {
        vstd::arithmetic::power::lemma_pow0(5);
        reveal_with_fuel(pow, 28);
        assert(pow(5, 27) == 0x6765c793fa10079d);
    }
    while i < k
        invariant
            i <= k <= 27,
            p == pow(5, i as nat),
            pow(5, 27) == 0x6765c793fa10079d,
        decreases k - i,
    {
        proof {
            lemma_pow_adds(5, i as nat, 1);
            vstd::arithmetic::power::lemma_pow1(5);
            vstd::arithmetic::power::lemma_pow_increases(5, (i + 1) as nat, 27);
        }
        p = p * 5;
        i = i + 1;
    }
    proof {
        vstd::arithmetic::power::lemma_pow_increases(5, k as nat, 27);
    }
    p
}


/// `value / 2^shift` rounded to nearest with ties to even, where `tail`
/// says that nonzero bits lie below `value`; a shift past 64 gives zero.
pub open spec fn rounded_shift(value: u64, shift: u32, tail: bool) -> int {
    if shift == 0 {
        value as int
    } else if shift > 64 {
        0
    } else {
        let q = value as nat / pow2(shift as nat);
        let r = value as nat % pow2(shift as nat);
        let h = pow2((shift - 1) as nat);
        q + if r >= h && (q % 2 == 1 || tail || r > h) {
            1int
        } else {
            0int
        }
    }
}

/// Shifts right by `shift` bits, rounding to nearest with ties to even.
#[verifier::spinoff_prover]
pub fn shift_right_round(value: u64, shift: u32, tail: bool) -> (r: u64)
    ensures
        r == rounded_shift(value, shift, tail),
{
    if shift == 0 {
        return value;
    }
    if shift > 64 {
        return 0;
    }
    let s1 = shift - 1;
    proof {
        vstd::bits::lemma_u64_pow2_no_overflow(s1 as nat);
        vstd::arithmetic::power2::lemma_pow2_pos(s1 as nat);
        vstd::bits::lemma_u64_shl_is_mul(1, s1 as u64);
        vstd::bits::lemma_u64_shr_is_div(value, s1 as u64);
        vstd::bits::lemma_u64_low_bits_mask_is_mod(value, s1 as nat);
    }
    let result = value >> (s1 as u64);
    let tail_mask = (1u64 << (s1 as u64)) - 1;
    proof {
        assert(tail_mask == vstd::bits::low_bits_mask(s1 as nat) as u64);
    }
    let low = value & tail_mask;
    let r_odd = (result & 2) != 0;
    let r_round = (result & 1) != 0;
    let r_tail = tail || low != 0;
    let round_bit: u64 = if r_round && (r_odd || r_tail) {
        1
    } else {
        0
    };
    assert(r_odd == ((result / 2) % 2 == 1) && r_round == (result % 2 == 1) && result >> 1 == result / 2
        && result >> 1 < 0x8000_0000_0000_0000) by (bit_vector)
        requires
            r_odd == ((result & 2) != 0),
            r_round == ((result & 1) != 0),
    ;
    proof {
        let p1 = pow2(s1 as nat);
        lemma_pow2_adds(s1 as nat, 1);
        lemma2_to64();
        assert(shift as nat == s1 as nat + 1);
        vstd::arithmetic::div_mod::lemma_div_denominator(value as int, p1 as int, 2);
        vstd::arithmetic::div_mod::lemma_breakdown(value as int, p1 as int, 2);
        vstd::arithmetic::div_mod::lemma_mod_pos_bound(value as int, p1 as int);
        assert(low == value as nat % p1);
        let pw = pow2(shift as nat);
        assert(pw == p1 * 2);
        assert(result == value as nat / p1);
        let q = value as nat / pw;
        assert(q == result / 2);
        let rr = value as nat % pw;
        assert(rr == p1 * (result % 2) + low);
        assert(pow2((shift - 1) as nat) == p1);
        if result % 2 == 1 {
            assert(p1 * (result % 2) == p1) by (nonlinear_arith)
                requires
                    result % 2 == 1,
            ;
            assert(rr >= p1);
            assert(rr > p1 <==> low > 0);
        } else {
            assert(p1 * (result % 2) == 0) by (nonlinear_arith)
                requires
                    result % 2 == 0,
            ;
            assert(rr < p1);
        }
        assert((result >> 1) + round_bit == rounded_shift(value, shift, tail));
    }
    (result >> 1) + round_bit
}


/// Whether `s` holds `fmt` at `p`, ignoring ASCII case (`fmt` in lower case).
pub open spec fn ignorecase_at(s: Seq<u8>, p: int, fmt: Seq<u8>) -> bool {
    0 <= p && p + fmt.len() <= s.len() && forall|i: int| 0 <= i < fmt.len() ==> (#[trigger] s[p + i] | 0x20) == fmt[i]
}

/// Whether `s` holds `fmt` at `p`, ignoring ASCII case.
fn ignorecase_at_exec(s: &[u8], p: usize, fmt: &[u8]) -> (r: bool)
    requires
        p <= s@.len(),
    ensures
        r == ignorecase_at(s@, p as int, fmt@),
{
    let rest = vstd::slice::slice_subrange(s, p, s.len());
    let r = scan_ignorecase(rest, fmt);
    proof {
        if r {
            assert forall|i: int| 0 <= i < fmt@.len() implies (#[trigger] s@[p + i] | 0x20) == fmt@[i] by {
                assert(rest@[i] == s@[p + i]);
            }
        } else if ignorecase_at(s@, p as int, fmt@) {
            assert forall|i: int| 0 <= i < fmt@.len() implies #[trigger] (rest@[i] | 0x20) == fmt@[i] by {
                assert(rest@[i] == s@[p + i]);
            }
        }
    }
    r
}

/// Where the run of digits from `p` ends.
pub open spec fn digits_end(s: Seq<u8>, p: int) -> int
    decreases s.len() - p,
{
    if 0 <= p < s.len() && is_digit(s[p]) {
        digits_end(s, p + 1)
    } else {
        p
    }
}

/// An ASCII letter or digit.
pub open spec fn is_alnum(c: u8) -> bool {
    is_digit(c) || (0x61 <= c <= 0x7A) || (0x41 <= c <= 0x5A)
}

/// Where the run of letters and digits from `p` ends.
pub open spec fn alnum_end(s: Seq<u8>, p: int) -> int
    decreases s.len() - p,
{
    if 0 <= p < s.len() && is_alnum(s[p]) {
        alnum_end(s, p + 1)
    } else {
        p
    }
}

/// The infinity or NaN that `s` starts with: the top 16 bits of the
/// double (sign and exponent, and the quiet bit of a NaN) and its length.
/// Accepted: an optional sign, then `inf`, `infinity`, `nan`,
/// `nan(letters or digits)`, or a digit, `.#` and `inf`, `nan` or `ind`
/// followed by digits (any case).
pub open spec fn inf_nan_prefix(s: Seq<u8>) -> Option<(u16, int)> {
    if s.len() == 0 {
        None
    } else {
        let signed = s[0] == 0x2B || s[0] == 0x2D;
        let sign: u16 = if s[0] == 0x2D { 0x8000 } else { 0 };
        let pos: int = if signed { 1 } else { 0 };
        if s.len() - pos >= 3 && is_digit(s[pos]) && s[pos + 1] == 0x2E && s[pos + 2] == 0x23 {
            let p = pos + 3;
            if ignorecase_at(s, p, seq![0x69u8, 0x6E, 0x66]) {
                Some((0x7ff0u16 | sign, digits_end(s, p + 3)))
            } else if ignorecase_at(s, p, seq![0x6Eu8, 0x61, 0x6E]) || ignorecase_at(s, p, seq![0x69u8, 0x6E, 0x64]) {
                Some((0x7ff8u16 | sign, digits_end(s, p + 3)))
            } else {
                None
            }
        } else if ignorecase_at(s, pos, seq![0x6Eu8, 0x61, 0x6E]) {
            let p = pos + 3;
            if p < s.len() && s[p] == 0x28 {
                let q = alnum_end(s, p + 1);
                if q >= s.len() || s[q] != 0x29 {
                    None
                } else {
                    Some((0x7ff8u16 | sign, q + 1))
                }
            } else {
                Some((0x7ff8u16 | sign, p))
            }
        } else if ignorecase_at(s, pos, seq![0x69u8, 0x6E, 0x66]) {
            if ignorecase_at(s, pos, seq![0x69u8, 0x6E, 0x66, 0x69, 0x6E, 0x69, 0x74, 0x79]) {
                Some((0x7ff0u16 | sign, pos + 8))
            } else {
                Some((0x7ff0u16 | sign, pos + 3))
            }
        } else {
            None
        }
    }
}

/// Where the run of digits from `p` ends.
fn digits_end_at(s: &[u8], p: usize) -> (r: usize)
    requires
        p <= s@.len(),
    ensures
        r == digits_end(s@, p as int),
        p <= r <= s@.len(),
{
    let mut q = p;
    while q < s.len() && s[q] >= 0x30 && s[q] <= 0x39
        invariant
            p <= q <= s@.len(),
            digits_end(s@, q as int) == digits_end(s@, p as int),
        decreases s@.len() - q,
    {
        q = q + 1;
    }
    q
}

/// Where the run of letters and digits from `p` ends.
fn alnum_end_at(s: &[u8], p: usize) -> (r: usize)
    requires
        p <= s@.len(),
    ensures
        r == alnum_end(s@, p as int),
        p <= r <= s@.len(),
{
    let mut q = p;
    while q < s.len() && ((s[q] >= 0x30 && s[q] <= 0x39) || (s[q] >= 0x61 && s[q] <= 0x7A) || (s[q] >= 0x41 && s[q] <= 0x5A))
        invariant
            p <= q <= s@.len(),
            alnum_end(s@, q as int) == alnum_end(s@, p as int),
        decreases s@.len() - q,
    {
        q = q + 1;
    }
    q
}

/// Reads an infinity or NaN at the start of `s`, as [`inf_nan_prefix`]
/// states: the top 16 bits of the double and the length read.
pub fn parse_inf_nan(s: &[u8]) -> (r: Option<(u16, usize)>)
    ensures
        match inf_nan_prefix(s@) {
            Some((top, n)) => r == Some((top, n as usize)),
            None => r is None,
        },
{
    let len = s.len();
    if len == 0 {
        return None;
    }
    let signed = s[0] == 0x2B || s[0] == 0x2D;
    let sign: u16 = if s[0] == 0x2D { 0x8000 } else { 0 };
    let pos: usize = if signed { 1 } else { 0 };
    let inf: [u8; 3] = [0x69, 0x6E, 0x66];
    let nan: [u8; 3] = [0x6E, 0x61, 0x6E];
    let ind: [u8; 3] = [0x69, 0x6E, 0x64];
    let infinity: [u8; 8] = [0x69, 0x6E, 0x66, 0x69, 0x6E, 0x69, 0x74, 0x79];
    proof {
        assert(inf@ =~= seq![0x69u8, 0x6E, 0x66]);
        assert(nan@ =~= seq![0x6Eu8, 0x61, 0x6E]);
        assert(ind@ =~= seq![0x69u8, 0x6E, 0x64]);
        assert(infinity@ =~= seq![0x69u8, 0x6E, 0x66, 0x69, 0x6E, 0x69, 0x74, 0x79]);
    }
    if len - pos >= 3 && s[pos] >= 0x30 && s[pos] <= 0x39 && s[pos + 1] == 0x2E && s[pos + 2] == 0x23 {
        let p = pos + 3;
        if ignorecase_at_exec(s, p, &inf) {
            if p + 3 > len {
                return None;
            }
            Some((0x7ff0u16 | sign, digits_end_at(s, p + 3)))
        } else if ignorecase_at_exec(s, p, &nan) || ignorecase_at_exec(s, p, &ind) {
            if p + 3 > len {
                return None;
            }
            Some((0x7ff8u16 | sign, digits_end_at(s, p + 3)))
        } else {
            None
        }
    } else if ignorecase_at_exec(s, pos, &nan) {
        let p = pos + 3;
        if p < len && s[p] == 0x28 {
            let q = alnum_end_at(s, p + 1);
            if q >= len || s[q] != 0x29 {
                None
            } else {
                Some((0x7ff8u16 | sign, q + 1))
            }
        } else {
            Some((0x7ff8u16 | sign, p))
        }
    } else if ignorecase_at_exec(s, pos, &inf) {
        if ignorecase_at_exec(s, pos, &infinity) {
            Some((0x7ff0u16 | sign, pos + 8))
        } else {
            Some((0x7ff0u16 | sign, pos + 3))
        }
    } else {
        None
    }
}


/// Where the mantissa from `p` ends: digits with at most one `.`.
pub open spec fn mantissa_end(s: Seq<u8>, p: int, has_dot: bool) -> int
    decreases s.len() - p,
{
    if 0 <= p < s.len() && is_digit(s[p]) {
        mantissa_end(s, p + 1, has_dot)
    } else if 0 <= p < s.len() && s[p] == 0x2E && !has_dot {
        mantissa_end(s, p + 1, true)
    } else {
        p
    }
}

/// Where the exponent digits from `p` end, with `exp` read so far: reading
/// stops after the digit that brings the exponent to 10000 or more.
pub open spec fn exponent_end(s: Seq<u8>, p: int, exp: int) -> int
    decreases s.len() - p,
{
    if 0 <= p < s.len() && is_digit(s[p]) {
        let e2 = exp * 10 + (s[p] - 0x30);
        if e2 >= 10000 {
            p + 1
        } else {
            exponent_end(s, p + 1, e2)
        }
    } else {
        p
    }
}

/// What the start of some text is as a decimal number.
pub enum NumberScan {
    /// A finite number: sign, where its digits start (after the sign), its
    /// length, and whether its mantissa holds a digit (without one it is 0).
    Finite { negative: bool, start: usize, end: usize, any_digit: bool },
    /// An infinity or NaN: the top 16 bits of the double and its length.
    Special { top_bits: u16, end: usize },
}

/// The decimal number at the start of `s`: an optional sign, a mantissa
/// of digits with at most one `.`, and an optional exponent (`e` or `E`,
/// an optional sign and at least one digit). A letter `i`, `n` or `#`
/// right after makes the text an infinity or NaN instead.
pub open spec fn number_prefix(s: Seq<u8>) -> Option<(bool, int, int, bool, Option<u16>)> {
    if s.len() == 0 {
        None
    } else {
        let signed = s[0] == 0x2B || s[0] == 0x2D;
        let start: int = if signed { 1 } else { 0 };
        if signed && s.len() == 1 {
            None
        } else {
            let m = mantissa_end(s, start, false);
            let any_digit = exists|k: int| start <= k < m && is_digit(#[trigger] s[k]);
            let exp: Option<int> = if m < s.len() && (s[m] == 0x65 || s[m] == 0x45) {
                let q = m + 1;
                if q >= s.len() {
                    None
                } else {
                    let q2 = if s[q] == 0x2B || s[q] == 0x2D { q + 1 } else { q };
                    if q2 >= s.len() {
                        None
                    } else {
                        let e = exponent_end(s, q2, 0);
                        if e == q2 {
                            None
                        } else {
                            Some(e)
                        }
                    }
                }
            } else {
                Some(m)
            };
            match exp {
                None => None,
                Some(pos) => if pos < s.len() && (s[pos] == 0x23 || s[pos] == 0x69 || s[pos] == 0x49
                    || s[pos] == 0x6E || s[pos] == 0x4E) {
                    match inf_nan_prefix(s) {
                        Some((top, n)) => Some((false, 0, n, false, Some(top))),
                        None => None,
                    }
                } else if pos == start {
                    None
                } else {
                    Some((s[0] == 0x2D, start, pos, any_digit, None))
                },
            }
        }
    }
}


/// Where the mantissa from `p` ends, and whether it holds a digit.
fn mantissa_end_at(s: &[u8], p: usize) -> (r: (usize, bool))
    requires
        p <= s@.len(),
    ensures
        r.0 == mantissa_end(s@, p as int, false),
        p <= r.0 <= s@.len(),
        r.1 == exists|k: int| p <= k < r.0 && is_digit(#[trigger] s@[k]),
{
    let mut q = p;
    let mut has_dot = false;
    let mut any = false;
    loop
        invariant
            p <= q <= s@.len(),
            mantissa_end(s@, q as int, has_dot) == mantissa_end(s@, p as int, false),
            any == exists|k: int| p <= k < q && is_digit(#[trigger] s@[k]),
        ensures
            q == mantissa_end(s@, p as int, false),
            any == exists|k: int| p <= k < q && is_digit(#[trigger] s@[k]),
        decreases s@.len() - q,
    {
        if q < s.len() && s[q] >= 0x30 && s[q] <= 0x39 {
            proof {
                assert(is_digit(s@[q as int]));
            }
            any = true;
            q = q + 1;
        } else if q < s.len() && s[q] == 0x2E && !has_dot {
            proof {
                if !any {
                    assert forall|k: int| p <= k < q + 1 implies !is_digit(#[trigger] s@[k]) by {
                        if k < q {
                        } else {
                            assert(s@[k] == 0x2E);
                        }
                    }
                }
            }
            has_dot = true;
            q = q + 1;
        } else {
            break;
        }
    }
    (q, any)
}

/// Where the exponent digits from `p` end.
fn exponent_end_at(s: &[u8], p: usize) -> (r: usize)
    requires
        p <= s@.len(),
    ensures
        r == exponent_end(s@, p as int, 0),
        p <= r <= s@.len(),
{
    let mut q = p;
    let mut exp: u32 = 0;
    loop
        invariant_except_break
            exp < 10000,
            exponent_end(s@, q as int, exp as int) == exponent_end(s@, p as int, 0),
        invariant
            p <= q <= s@.len(),
        ensures
            q == exponent_end(s@, p as int, 0),
            p <= q <= s@.len(),
        decreases s@.len() - q,
    {
        if q < s.len() && s[q] >= 0x30 && s[q] <= 0x39 {
            let e2 = exp * 10 + (s[q] - 0x30) as u32;
            q = q + 1;
            if e2 >= 10000 {
                break;
            }
            exp = e2;
        } else {
            break;
        }
    }
    q
}

/// Reads the decimal number, infinity or NaN at the start of `s`, as
/// [`number_prefix`] states.
pub fn scan_number(s: &[u8]) -> (r: Option<NumberScan>)
    ensures
        match number_prefix(s@) {
            None => r is None,
            Some((negative, start, end, any_digit, special)) => match special {
                Some(top) => r == Some(NumberScan::Special { top_bits: top, end: end as usize }),
                None => r == Some(NumberScan::Finite { negative, start: start as usize, end: end as usize, any_digit }),
            },
        },
{
    let len = s.len();
    if len == 0 {
        return None;
    }
    let signed = s[0] == 0x2B || s[0] == 0x2D;
    let start: usize = if signed { 1 } else { 0 };
    if signed && len == 1 {
        return None;
    }
    let (m, any_digit) = mantissa_end_at(s, start);
    let mut pos = m;
    if m < len && (s[m] == 0x65 || s[m] == 0x45) {
        let q = m + 1;
        if q >= len {
            return None;
        }
        let q2 = if s[q] == 0x2B || s[q] == 0x2D { q + 1 } else { q };
        if q2 >= len {
            return None;
        }
        let e = exponent_end_at(s, q2);
        if e == q2 {
            return None;
        }
        pos = e;
    }
    if pos < len && (s[pos] == 0x23 || s[pos] == 0x69 || s[pos] == 0x49 || s[pos] == 0x6E || s[pos] == 0x4E) {
        return match parse_inf_nan(s) {
            Some((top, n)) => Some(NumberScan::Special { top_bits: top, end: n }),
            None => None,
        };
    }
    if pos == start {
        return None;
    }
    Some(NumberScan::Finite { negative: s[0] == 0x2D, start, end: pos, any_digit })
}

} // verus!
