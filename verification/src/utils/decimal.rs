//! Exact conversion of decimal text to binary floating point: long
//! division of big numbers, the top bits of a big number, and the parser
//! that rounds the digits it reads to the nearest float.
use vstd::prelude::*;
use vstd::arithmetic::power2::{pow2, lemma_pow2_adds, lemma_pow2_pos, lemma_pow2_strictly_increases, lemma2_to64};
use vstd::arithmetic::div_mod::lemma_fundamental_div_mod_converse;
use crate::utils::float_parse::{BigInt, limbs_value, lemma_limbs_value_same, lemma_limbs_value_bound};
use crate::utils::rounding::{
    bitlen, quot, inexact, lemma_quot_shift, lemma_bitlen_unique, nearest_bits, inf_bits, is_format, rne,
    lemma_encode, lemma_quot_exact_up, lemma_rounded_shift_rne,
};
use crate::utils::float_parse::{shift_right_round, pow5_u64, is_digit, mantissa_end, number_prefix, scan_number, NumberScan};
use vstd::arithmetic::power::{pow, lemma_pow_adds, lemma_pow_positive, lemma_pow1, lemma_pow0};

verus! {

/// The first `n` limbs are all zero just when their value is zero.
pub proof fn lemma_limbs_zero(s: Seq<u32>, n: nat)
    requires
        n <= s.len(),
    ensures
        (limbs_value(s, n) == 0) <==> (forall|k: int| 0 <= k < n ==> s[k] == 0),
    decreases n,
{
    if n > 0 {
        lemma_limbs_zero(s, (n - 1) as nat);
        lemma_pow2_pos(32 * (n - 1) as nat);
        let p = pow2(32 * (n - 1) as nat);
        let v = limbs_value(s, (n - 1) as nat);
        let x = s[n - 1] as nat;
        assert(limbs_value(s, n) == v + x * p);
        assert((v + x * p == 0) <==> (v == 0 && x == 0)) by (nonlinear_arith)
            requires
                p > 0,
        ;
        if limbs_value(s, n) == 0 {
            assert forall|k: int| 0 <= k < n implies s[k] == 0 by {
                if k < n - 1 {
                } else {
                    assert(k == n - 1);
                }
            }
        }
    }
}

/// Zero limbs on top do not change the value.
pub proof fn lemma_limbs_trim(s: Seq<u32>, l: nat, n: nat)
    requires
        l <= n <= s.len(),
        forall|k: int| l <= k < n ==> s[k] == 0,
    ensures
        limbs_value(s, n) == limbs_value(s, l),
    decreases n,
{
    if n > l {
        lemma_limbs_trim(s, l, (n - 1) as nat);
        assert(s[n - 1] == 0);
        assert((s[n - 1] as nat) * pow2(32 * (n - 1) as nat) == 0);
    }
}

/// A limb put below a number multiplies it by 2^32 and adds the limb.
pub proof fn lemma_limbs_prepend(x: u32, t: Seq<u32>, n: nat)
    requires
        n <= t.len(),
    ensures
        limbs_value(seq![x] + t, n + 1) == x + 0x1_0000_0000 * limbs_value(t, n),
    decreases n,
{
    let s = seq![x] + t;
    lemma2_to64();
    if n == 0 {
        assert(limbs_value(s, 1) == limbs_value(s, 0) + (s[0] as nat) * pow2(0));
    } else {
        lemma_limbs_prepend(x, t, (n - 1) as nat);
        assert(s[n as int] == t[n - 1]);
        lemma_pow2_adds(32, 32 * (n - 1) as nat);
        assert(32 + 32 * (n - 1) as nat == 32 * n);
        let p = pow2(32 * (n - 1) as nat);
        assert(limbs_value(s, n + 1) == limbs_value(s, n) + (t[n - 1] as nat) * pow2(32 * n));
        assert(limbs_value(t, n) == limbs_value(t, (n - 1) as nat) + (t[n - 1] as nat) * p);
        assert(pow2(32 * n) == 0x1_0000_0000 * p);
        assert(limbs_value(s, n + 1) == x + 0x1_0000_0000 * limbs_value(t, n)) by (nonlinear_arith)
            requires
                limbs_value(s, n + 1) == limbs_value(s, n) + (t[n - 1] as nat) * pow2(32 * n),
                limbs_value(s, n) == x + 0x1_0000_0000 * limbs_value(t, (n - 1) as nat),
                limbs_value(t, n) == limbs_value(t, (n - 1) as nat) + (t[n - 1] as nat) * p,
                pow2(32 * n) == 0x1_0000_0000 * p,
        ;
    }
}

/// The value of limbs `j` up to `n` of `s`, limb `j` lowest.
pub open spec fn high_value(s: Seq<u32>, j: int, n: int) -> nat {
    limbs_value(s.subrange(j, n), (n - j) as nat)
}

/// The high part from `j` is limb `j` plus 2^32 times the high part above it.
pub proof fn lemma_high_step(s: Seq<u32>, j: int, n: int)
    requires
        0 <= j < n <= s.len(),
    ensures
        high_value(s, j, n) == s[j] + 0x1_0000_0000 * high_value(s, j + 1, n),
{
    let t = s.subrange(j + 1, n);
    assert(s.subrange(j, n) =~= seq![s[j]] + t);
    lemma_limbs_prepend(s[j], t, (n - j - 1) as nat);
    assert((n - j - 1) as nat + 1 == (n - j) as nat);
}

/// The high part from 0 is the value.
pub proof fn lemma_high_all(s: Seq<u32>, n: int)
    requires
        0 <= n <= s.len(),
    ensures
        high_value(s, 0, n) == limbs_value(s, n as nat),
{
    lemma_limbs_value_same(s.subrange(0, n), s, n as nat);
}

/// Doubles the number in `r` and adds `bit`, where the result still fits.
#[verifier::spinoff_prover]
fn double_add(r: &mut Vec<u32>, bit: u32)
    requires
        bit <= 1,
        limbs_value(old(r)@, old(r)@.len()) * 2 + bit < pow2(32 * old(r)@.len()),
    ensures
        final(r)@.len() == old(r)@.len(),
        limbs_value(final(r)@, final(r)@.len()) == 2 * limbs_value(old(r)@, old(r)@.len()) + bit,
{
    let n = r.len();
    let ghost o = r@;
    let mut carry: u32 = bit;
    let mut i: usize = 0;
    proof {
        lemma2_to64();
    }
    while i < n
        invariant
            n == o.len(),
            r@.len() == n,
            i <= n,
            carry <= 1,
            pow2(32) == 0x1_0000_0000,
            forall|k: int| i <= k < n ==> #[trigger] r@[k] == o[k],
            limbs_value(r@, i as nat) + carry * pow2(32 * i as nat) == 2 * limbs_value(o, i as nat) + bit,
        decreases n - i,
    {
        let x = r[i];
        let y: u64 = (x as u64) * 2 + (carry as u64);
        let low = y as u32;
        let high = (y >> 32) as u32;
        assert(low == y % 0x1_0000_0000 && high == y / 0x1_0000_0000 && high <= 1) by (bit_vector)
            requires
                low == y as u32,
                high == (y >> 32) as u32,
                y <= 0x1_FFFF_FFFF,
        ;
        let ghost before = r@;
        r.set(i, low);
        proof {
            let p = pow2(32 * i as nat);
            lemma_pow2_adds(32 * i as nat, 32);
            assert(32 * (i + 1) as nat == 32 * i as nat + 32);
            lemma_limbs_value_same(r@, before, i as nat);
            assert(o[i as int] == x);
            assert(limbs_value(r@, (i + 1) as nat) + high * pow2(32 * (i + 1) as nat) == 2 * limbs_value(
                o,
                (i + 1) as nat,
            ) + bit) by (nonlinear_arith)
                requires
                    limbs_value(r@, (i + 1) as nat) == limbs_value(before, i as nat) + low * p,
                    limbs_value(o, (i + 1) as nat) == limbs_value(o, i as nat) + x * p,
                    pow2(32 * (i + 1) as nat) == p * 0x1_0000_0000,
                    limbs_value(before, i as nat) + carry * p == 2 * limbs_value(o, i as nat) + bit,
                    y == x * 2 + carry,
                    y == low + 0x1_0000_0000 * high,
            ;
        }
        carry = high;
        i = i + 1;
    }
    proof {
        lemma_limbs_value_bound(r@, n as nat);
        if carry == 1 {
            assert(false);
        }
    }
}

/// Subtracts `d` (its first `dn` limbs) from `r` where that leaves no
/// negative number, and says whether it did.
#[verifier::spinoff_prover]
fn sub_if_ge(r: &mut Vec<u32>, d: &Vec<u32>, dn: usize) -> (ge: bool)
    requires
        old(r)@.len() == dn + 1,
        dn <= d@.len(),
    ensures
        final(r)@.len() == old(r)@.len(),
        ge == (limbs_value(old(r)@, old(r)@.len()) >= limbs_value(d@, dn as nat)),
        ge ==> limbs_value(final(r)@, final(r)@.len()) == limbs_value(old(r)@, old(r)@.len())
            - limbs_value(d@, dn as nat),
        !ge ==> final(r)@ == old(r)@,
{
    let n = r.len();
    let ghost dx = d@.subrange(0, dn as int).push(0u32);
    let mut t: Vec<u32> = Vec::new();
    let mut borrow: u32 = 0;
    let mut i: usize = 0;
    proof {
        lemma2_to64();
    }
    while i < n
        invariant
            n == dn + 1,
            r@.len() == n,
            r@ == old(r)@,
            dn <= d@.len(),
            dx == d@.subrange(0, dn as int).push(0u32),
            t@.len() == i,
            i <= n,
            borrow <= 1,
            pow2(32) == 0x1_0000_0000,
            limbs_value(t@, i as nat) + limbs_value(dx, i as nat) == limbs_value(r@, i as nat) + borrow
                * pow2(32 * i as nat),
        decreases n - i,
    {
        let a = r[i] as u64;
        let dv: u64 = if i < dn {
            d[i] as u64
        } else {
            0
        };
        assert(dx[i as int] == dv);
        let b = dv + borrow as u64;
        let digit: u32;
        let next: u32;
        if a >= b {
            digit = (a - b) as u32;
            next = 0;
        } else {
            digit = (a + 0x1_0000_0000 - b) as u32;
            next = 1;
        }
        proof {
            assert(digit + dv + borrow == a + next * 0x1_0000_0000);
        }
        let ghost before = t@;
        t.push(digit);
        proof {
            let p = pow2(32 * i as nat);
            lemma_pow2_adds(32 * i as nat, 32);
            assert(32 * (i + 1) as nat == 32 * i as nat + 32);
            lemma_limbs_value_same(t@, before, i as nat);
            assert(t@[i as int] == digit);
            assert(limbs_value(t@, (i + 1) as nat) + limbs_value(dx, (i + 1) as nat) == limbs_value(
                r@,
                (i + 1) as nat,
            ) + next * pow2(32 * (i + 1) as nat)) by (nonlinear_arith)
                requires
                    limbs_value(t@, (i + 1) as nat) == limbs_value(before, i as nat) + digit * p,
                    limbs_value(dx, (i + 1) as nat) == limbs_value(dx, i as nat) + dv * p,
                    limbs_value(r@, (i + 1) as nat) == limbs_value(r@, i as nat) + a * p,
                    pow2(32 * (i + 1) as nat) == p * 0x1_0000_0000,
                    limbs_value(before, i as nat) + limbs_value(dx, i as nat) == limbs_value(r@, i as nat)
                        + borrow * p,
                    digit + dv + borrow == a + next * 0x1_0000_0000,
            ;
        }
        borrow = next;
        i = i + 1;
    }
    proof {
        lemma_limbs_value_same(dx, d@, dn as nat);
        assert(dx[dn as int] == 0);
        assert(limbs_value(dx, n as nat) == limbs_value(dx, dn as nat) + 0 * pow2(32 * dn as nat));
        lemma_limbs_value_bound(t@, n as nat);
        lemma_limbs_value_bound(r@, n as nat);
    }
    proof {
        let tv = limbs_value(t@, n as nat);
        let rv = limbs_value(r@, n as nat);
        let dd = limbs_value(dx, n as nat);
        let big = pow2(32 * n as nat);
        assert(borrow == 0 ==> rv >= dd) by (nonlinear_arith)
            requires
                tv + dd == rv + borrow * big,
                tv >= 0,
        ;
        assert(borrow == 1 ==> rv < dd) by (nonlinear_arith)
            requires
                tv + dd == rv + borrow * big,
                tv < big,
        ;
        assert(dd == limbs_value(d@, dn as nat));
        assert(borrow == 0 ==> tv == rv - dd);
    }
    if borrow == 0 {
        *r = t;
        true
    } else {
        false
    }
}

impl BigInt {
    /// Divides by `divisor`, writing the quotient (trimmed) into
    /// `quotient`, and says whether a remainder is left.
    #[verifier::spinoff_prover]
    pub fn div(&self, divisor: &BigInt, quotient: &mut BigInt) -> (r: bool)
        requires
            self.length <= self.limbs@.len(),
            divisor.length <= divisor.limbs@.len(),
            divisor.value() > 0,
            divisor.length < usize::MAX,
            self.length <= old(quotient).limbs@.len(),
        ensures
            final(quotient).limbs@.len() == old(quotient).limbs@.len(),
            final(quotient).length <= self.length,
            final(quotient).is_trimmed(),
            final(quotient).value() == self.value() / divisor.value(),
            r == (self.value() % divisor.value() != 0),
    {
        let n = divisor.length;
        let len = self.length;
        let ghost v = self.limbs@;
        let ghost dv = divisor.value();
        let mut rem: Vec<u32> = Vec::new();
        let mut z: usize = 0;
        let n1 = n + 1;
        while z < n1
            invariant
                n1 == n + 1,
                z <= n + 1,
                rem@ == Seq::new(z as nat, |k: int| 0u32),
            decreases n1 - z,
        {
            rem.push(0);
            z = z + 1;
        }
        proof {
            lemma_limbs_zero(rem@, (n + 1) as nat);
            lemma_limbs_value_bound(divisor.limbs@, n as nat);
            lemma2_to64();
            lemma_pow2_adds(32 * n as nat, 32);
            assert(32 * (n + 1) as nat == 32 * n as nat + 32);
            assert(v.subrange(len as int, len as int) =~= Seq::<u32>::empty());
            assert(quotient.limbs@.subrange(len as int, len as int) =~= Seq::<u32>::empty());
            assert(limbs_value(Seq::<u32>::empty(), 0) == 0);
            assert(0nat / dv == 0 && 0nat % dv == 0) by (nonlinear_arith)
                requires
                    dv > 0,
            ;
        }
        let mut j = len;
        while j > 0
            invariant
                j <= len,
                len == self.length,
                len <= v.len(),
                v == self.limbs@,
                n == divisor.length,
                dv == divisor.value(),
                dv == limbs_value(divisor.limbs@, n as nat),
                dv > 0,
                dv < pow2(32 * n as nat),
                pow2(32) == 0x1_0000_0000,
                pow2(32 * (n + 1) as nat) == pow2(32 * n as nat) * 0x1_0000_0000,
                n <= divisor.limbs@.len(),
                rem@.len() == n + 1,
                quotient.limbs@.len() == old(quotient).limbs@.len(),
                len <= quotient.limbs@.len(),
                quotient.length == old(quotient).length,
                limbs_value(rem@, (n + 1) as nat) == high_value(v, j as int, len as int) % dv,
                high_value(quotient.limbs@, j as int, len as int) == high_value(v, j as int, len as int) / dv,
            decreases j,
        {
            j = j - 1;
            let w = self.limbs[j];
            let ghost rj = limbs_value(rem@, (n + 1) as nat);
            let ghost qj = high_value(quotient.limbs@, (j + 1) as int, len as int);
            let mut acc: u32 = 0;
            let mut b: u32 = 32;
            proof {
                lemma2_to64();
                assert(w >> 32u32 == 0) by (bit_vector);
                assert(rj * pow2(0) + 0 == dv * 0 + rj);
            }
            while b > 0
                invariant
                    b <= 32,
                    n == divisor.length,
                    dv == limbs_value(divisor.limbs@, n as nat),
                    dv > 0,
                    dv < pow2(32 * n as nat),
                    pow2(32) == 0x1_0000_0000,
                    pow2(32 * (n + 1) as nat) == pow2(32 * n as nat) * 0x1_0000_0000,
                    n <= divisor.limbs@.len(),
                    rem@.len() == n + 1,
                    rj < dv,
                    limbs_value(rem@, (n + 1) as nat) < dv,
                    acc < pow2((32 - b) as nat),
                    rj * pow2((32 - b) as nat) + (w >> b) == dv * acc + limbs_value(rem@, (n + 1) as nat),
                decreases b,
            {
                let ghost r0 = limbs_value(rem@, (n + 1) as nat);
                let ghost acc0 = acc;
                let ghost b0 = b;
                b = b - 1;
                let bit = (w >> b) & 1;
                assert(w >> b == 2 * (w >> b0) + bit && bit <= 1) by (bit_vector)
                    requires
                        bit == (w >> b) & 1,
                        b0 == b + 1,
                        b < 32,
                ;
                proof {
                    assert(r0 * 2 + bit < pow2(32 * (n + 1) as nat)) by (nonlinear_arith)
                        requires
                            r0 < dv,
                            dv < pow2(32 * n as nat),
                            pow2(32 * (n + 1) as nat) == pow2(32 * n as nat) * 0x1_0000_0000,
                            bit <= 1,
                    ;
                }
                double_add(&mut rem, bit);
                let ge = sub_if_ge(&mut rem, &divisor.limbs, n);
                let inc: u32 = if ge {
                    1
                } else {
                    0
                };
                proof {
                    lemma_pow2_pos((32 - b0) as nat);
                    lemma_pow2_adds((32 - b0) as nat, 1);
                    assert((32 - b) as nat == (32 - b0) as nat + 1);
                    assert(pow2(1) == 2) by {
                        lemma2_to64();
                    }
                    let pp = pow2((32 - b0) as nat);
                    assert(pp <= 0x8000_0000) by {
                        let ex = (32 - b0) as nat;
                        if ex < 31 {
                            lemma_pow2_strictly_increases(ex, 31);
                        }
                        lemma2_to64();
                    }
                }
                acc = acc * 2 + inc;
                proof {
                    let pp = pow2((32 - b0) as nat);
                    let r1 = 2 * r0 + bit;
                    let r2 = limbs_value(rem@, (n + 1) as nat);
                    assert(rj * pow2((32 - b) as nat) + (w >> b) == dv * acc + r2) by (nonlinear_arith)
                        requires
                            rj * pp + (w >> b0) == dv * acc0 + r0,
                            pow2((32 - b) as nat) == pp * 2,
                            w >> b == 2 * (w >> b0) + bit,
                            ge ==> r2 == r1 - dv,
                            !ge ==> r2 == r1,
                            ge == (r1 >= dv),
                            r1 == 2 * r0 + bit,
                            acc == acc0 * 2 + inc,
                            inc == (if ge { 1int } else { 0int }),
                    ;
                    assert(r2 < dv);
                    assert(acc < pow2((32 - b) as nat));
                }
            }
            proof {
                assert(w >> 0u32 == w) by (bit_vector);
                assert((32 - b) as nat == 32);
            }
            let ghost before = quotient.limbs@;
            quotient.limbs.set(j, acc);
            proof {
                let r2 = limbs_value(rem@, (n + 1) as nat);
                lemma_high_step(v, j as int, len as int);
                lemma_high_step(quotient.limbs@, j as int, len as int);
                assert(quotient.limbs@.subrange((j + 1) as int, len as int) =~= before.subrange(
                    (j + 1) as int,
                    len as int,
                ));
                let xj1 = high_value(v, (j + 1) as int, len as int);
                let xj = high_value(v, j as int, len as int);
                assert(xj == w + 0x1_0000_0000 * xj1);
                assert(xj1 == dv * qj + rj) by {
                    vstd::arithmetic::div_mod::lemma_fundamental_div_mod(xj1 as int, dv as int);
                }
                assert(xj == dv * (0x1_0000_0000 * qj + acc) + r2) by (nonlinear_arith)
                    requires
                        xj == w + 0x1_0000_0000 * xj1,
                        xj1 == dv * qj + rj,
                        rj * 0x1_0000_0000 + w == dv * acc + r2,
                ;
                lemma_fundamental_div_mod_converse(xj as int, dv as int, (0x1_0000_0000 * qj + acc) as int, r2 as int);
            }
        }
        proof {
            lemma_high_all(v, len as int);
            lemma_high_all(quotient.limbs@, len as int);
        }
        let mut ql = len;
        while ql > 0 && quotient.limbs[ql - 1] == 0
            invariant
                ql <= len,
                len <= quotient.limbs@.len(),
                forall|k: int| ql <= k < len ==> quotient.limbs@[k] == 0,
            decreases ql,
        {
            ql = ql - 1;
        }
        proof {
            lemma_limbs_trim(quotient.limbs@, ql as nat, len as nat);
        }
        quotient.length = ql;
        let mut i: usize = 0;
        let mut any = false;
        while i < n1
            invariant
                n1 == n + 1,
                i <= n + 1,
                rem@.len() == n + 1,
                any == exists|k: int| 0 <= k < i && rem@[k] != 0,
            decreases n1 - i,
        {
            if rem[i] != 0 {
                any = true;
            }
            i = i + 1;
        }
        proof {
            lemma_limbs_zero(rem@, (n + 1) as nat);
        }
        any
    }
}

/// The number of bits of `x`.
pub fn bit_length(x: u32) -> (r: u32)
    ensures
        r as nat == bitlen(x as nat),
        r <= 32,
{
    proof {
        if x > 0 {
            crate::utils::rounding::lemma_bitlen_bounds(x as nat);
            lemma2_to64();
            let b = bitlen(x as nat);
            if b > 32 {
                if 32 < (b - 1) as nat {
                    lemma_pow2_strictly_increases(32, (b - 1) as nat);
                }
                assert(false);
            }
        }
    }
    let mut y = x;
    let mut n: u32 = 0;
    while y > 0
        invariant
            bitlen(x as nat) == n + bitlen(y as nat),
            bitlen(x as nat) <= 32,
        decreases y,
    {
        assert(bitlen(y as nat) == 1 + bitlen((y / 2) as nat));
        y = y / 2;
        n = n + 1;
    }
    n
}

/// The first `n` limbs as their lowest `n - 3` and the top three.
proof fn lemma_top_three(l: Seq<u32>, n: nat)
    requires
        3 <= n <= l.len(),
    ensures
        limbs_value(l, n) == limbs_value(l, (n - 3) as nat) + pow2(32 * (n - 3) as nat) * (l[n - 3] as nat
            + 0x1_0000_0000 * (l[n - 2] as nat) + 0x1_0000_0000_0000_0000 * (l[n - 1] as nat)),
{
    let p = pow2(32 * (n - 3) as nat);
    lemma2_to64();
    lemma_pow2_adds(32 * (n - 3) as nat, 32);
    lemma_pow2_adds(32 * (n - 3) as nat, 64);
    assert(32 * (n - 3) as nat + 32 == 32 * (n - 2) as nat);
    assert(32 * (n - 3) as nat + 64 == 32 * (n - 1) as nat);
    assert(pow2(64) == 0x1_0000_0000_0000_0000) by {
        vstd::arithmetic::power2::lemma2_to64_rest();
    }
    let v3 = limbs_value(l, (n - 3) as nat);
    let v2 = limbs_value(l, (n - 2) as nat);
    let v1 = limbs_value(l, (n - 1) as nat);
    assert(v2 == v3 + (l[n - 3] as nat) * p);
    assert(v1 == v2 + (l[n - 2] as nat) * pow2(32 * (n - 2) as nat));
    assert(limbs_value(l, n) == v1 + (l[n - 1] as nat) * pow2(32 * (n - 1) as nat));
    assert(limbs_value(l, n) == v3 + p * (l[n - 3] as nat + 0x1_0000_0000 * (l[n - 2] as nat)
        + 0x1_0000_0000_0000_0000 * (l[n - 1] as nat))) by (nonlinear_arith)
        requires
            v2 == v3 + (l[n - 3] as nat) * p,
            v1 == v2 + (l[n - 2] as nat) * pow2(32 * (n - 2) as nat),
            limbs_value(l, n) == v1 + (l[n - 1] as nat) * pow2(32 * (n - 1) as nat),
            pow2(32 * (n - 2) as nat) == p * 0x1_0000_0000,
            pow2(32 * (n - 1) as nat) == p * 0x1_0000_0000_0000_0000,
    ;
}

impl BigInt {
    /// The top 64 bits of the number, shifted so that the highest is set;
    /// adds to `exponent` the number of bits less one, and records in
    /// `tail` whether bits below the 64 returned are set.
    #[verifier::spinoff_prover]
    #[verifier::rlimit(40)]
    pub fn extract_high(&self, exponent: &mut i32, tail: &mut bool) -> (r: u64)
        requires
            1 <= self.length <= self.limbs@.len(),
            self.limbs@[self.length - 1] != 0,
            self.length <= 0x100_0000,
            -0x4000_0000 <= *old(exponent) <= 0x4000_0000,
        ensures
            pow2(63) <= r < pow2(64),
            bitlen(self.value()) == 32 * (self.length - 1) + bitlen(self.limbs@[self.length - 1] as nat),
            r == quot(self.value(), 1, 64 - bitlen(self.value())),
            *final(tail) == (*old(tail) || inexact(self.value(), 1, 64 - bitlen(self.value()))),
            *final(exponent) == *old(exponent) + bitlen(self.value()) - 1,
    {
        let n = self.length;
        let ghost l = self.limbs@;
        let ghost v = self.value();
        let t0 = self.top_limb(0);
        let t1 = self.top_limb(1);
        let t2 = self.top_limb(2);
        let w: u128 = (t0 as u128) * 0x1_0000_0000_0000_0000 + (t1 as u128) * 0x1_0000_0000 + (t2 as u128);
        let bl = bit_length(t0);
        let mut p: u128 = 1;
        let mut i: u32 = 0;
        proof {
            lemma2_to64();
            vstd::arithmetic::power2::lemma2_to64_rest();
            crate::utils::rounding::lemma_bitlen_bounds(t0 as nat);
        }
        while i < bl
            invariant
                i <= bl <= 32,
                p == pow2(i as nat),
            decreases bl - i,
        {
            proof {
                vstd::arithmetic::power2::lemma_pow2_unfold((i + 1) as nat);
                if i < 32 {
                    lemma_pow2_strictly_increases(i as nat, 32);
                }
                lemma2_to64();
            }
            p = p * 2;
            i = i + 1;
        }
        let ghost k0: int = 32 * (3 - n);
        let ghost low_limbs: nat = if n >= 3 {
            limbs_value(l, (n - 3) as nat)
        } else {
            0
        };
        proof {
            lemma_pow2_pos(bl as nat);
            assert(limbs_value(l, 0) == 0);
            assert(pow2(0) == 1);
            if n == 1 {
                assert(v == limbs_value(l, 0) + (l[0] as nat) * pow2(0));
                assert(crate::utils::rounding::scale_num(v, k0) == v * pow2(64));
                assert(w == v * pow2(64));
                assert(quot(v, 1, k0) == (v * pow2(64)) / 1);
                assert((v * pow2(64)) / 1 == v * pow2(64) && (v * pow2(64)) % 1 == 0) by (nonlinear_arith);
            } else if n == 2 {
                assert(limbs_value(l, 1) == limbs_value(l, 0) + (l[0] as nat) * pow2(0));
                assert(v == limbs_value(l, 1) + (l[1] as nat) * pow2(32));
                assert(limbs_value(l, 1) == (l[0] as nat)) by (nonlinear_arith)
                    requires
                        limbs_value(l, 1) == limbs_value(l, 0) + (l[0] as nat) * pow2(0),
                        limbs_value(l, 0) == 0,
                        pow2(0) == 1,
                ;
                assert(pow2(32) == 0x1_0000_0000);
                assert(v == (l[0] as nat) + (l[1] as nat) * 0x1_0000_0000);
                assert(t0 == l[1] && t1 == l[0] && t2 == 0);
                assert(w == v * pow2(32)) by (nonlinear_arith)
                    requires
                        v == (l[0] as nat) + (l[1] as nat) * 0x1_0000_0000,
                        w == (t0 as nat) * 0x1_0000_0000_0000_0000 + (t1 as nat) * 0x1_0000_0000 + (t2 as nat),
                        t0 == l[1],
                        t1 == l[0],
                        t2 == 0,
                        pow2(32) == 0x1_0000_0000,
                ;
                assert(quot(v, 1, k0) == (v * pow2(32)) / 1);
                assert((v * pow2(32)) / 1 == v * pow2(32) && (v * pow2(32)) % 1 == 0) by (nonlinear_arith);
            } else {
                lemma_top_three(l, n as nat);
                let pp = pow2(32 * (n - 3) as nat);
                lemma_pow2_pos(32 * (n - 3) as nat);
                lemma_limbs_value_bound(l, (n - 3) as nat);
                assert(t0 == l[n - 1] && t1 == l[n - 2] && t2 == l[n - 3]);
                assert(v == low_limbs + pp * w);
                assert(v == w * pp + low_limbs) by (nonlinear_arith)
                    requires
                        v == low_limbs + pp * w,
                ;
                lemma_fundamental_div_mod_converse(v as int, pp as int, w as int, low_limbs as int);
                if n == 3 {
                    assert(pp == 1);
                    assert(quot(v, 1, k0) == (v * pow2(0)) / 1);
                    assert(v * 1 == v);
                } else {
                    assert(-k0 == 32 * (n - 3));
                    assert(quot(v, 1, k0) == v / (1 * pp));
                    assert(1 * pp == pp);
                }
            }
            assert(quot(v, 1, k0) == w);
            assert(inexact(v, 1, k0) == (low_limbs != 0));
            let b = bitlen(t0 as nat);
            let pb1 = pow2((b - 1) as nat);
            lemma_pow2_adds(64, (b - 1) as nat);
            lemma_pow2_adds(64, b);
            assert(pow2(64) * pb1 <= w < pow2(64) * pow2(b)) by (nonlinear_arith)
                requires
                    pb1 <= t0 < pow2(b),
                    w == t0 * 0x1_0000_0000_0000_0000 + t1 * 0x1_0000_0000 + t2,
                    t1 < 0x1_0000_0000,
                    t2 < 0x1_0000_0000,
                    pow2(64) == 0x1_0000_0000_0000_0000,
            ;
            lemma_quot_shift(v, 1, k0, bl as nat);
            let res = w / p;
            assert(res == quot(v, 1, k0 - bl));
            lemma_pow2_adds(63, b);
            assert(pow2(63) <= res < pow2(64)) by (nonlinear_arith)
                requires
                    pow2(64) * pb1 <= w < pow2(64) * pow2(b),
                    p == pow2(b),
                    pow2(b) == 2 * pb1,
                    pow2(64) == 2 * pow2(63),
                    res == w / p,
                    p > 0,
            ;
            // the length of the whole number
            let top = l[n - 1] as nat;
            assert(top == t0);
            let below = limbs_value(l, (n - 1) as nat);
            let pn = pow2(32 * (n - 1) as nat);
            lemma_limbs_value_bound(l, (n - 1) as nat);
            lemma_pow2_pos(32 * (n - 1) as nat);
            assert(v == below + top * pn);
            lemma_pow2_adds(32 * (n - 1) as nat, (b - 1) as nat);
            lemma_pow2_adds(32 * (n - 1) as nat, b);
            assert(pn * pb1 <= v < pn * pow2(b)) by (nonlinear_arith)
                requires
                    v == below + top * pn,
                    below < pn,
                    pb1 <= top,
                    top + 1 <= pow2(b),
            ;
            lemma_bitlen_unique(v, 32 * (n - 1) as nat + b);
        }
        let result = (w / p) as u64;
        let low = w % p;
        let mut t = *tail || low != 0;
        let rest: usize = if n > 3 {
            n - 3
        } else {
            0
        };
        let mut k: usize = 0;
        while k < rest
            invariant
                rest <= n,
                n == self.length,
                self.length <= self.limbs@.len(),
                l == self.limbs@,
                k <= rest,
                t == (*old(tail) || low != 0 || exists|q: int| 0 <= q < k && l[q] != 0),
            decreases rest - k,
        {
            if self.limbs[k] != 0 {
                t = true;
            }
            k = k + 1;
        }
        proof {
            if n >= 3 {
                lemma_limbs_zero(l, (n - 3) as nat);
                assert(rest == n - 3);
            }
            assert(k0 - bl == 64 - bitlen(v));
        }
        *tail = t;
        *exponent = *exponent + 32 * ((n - 1) as i32) + (bl as i32) - 1;
        result
    }
}

/// The bits of positive infinity with `mbits` significant bits: binary32
/// or binary64.
fn infinity_bits(mbits: u32) -> (r: u64)
    requires
        mbits == 24 || mbits == 53,
    ensures
        mbits == 24 ==> r == inf_bits(24, 127),
        mbits == 53 ==> r == inf_bits(53, 1023),
{
    proof {
        lemma2_to64();
        vstd::arithmetic::power2::lemma2_to64_rest();
    }
    assert(inf_bits(24, 127) == 255 * pow2(23));
    assert(inf_bits(53, 1023) == 2047 * pow2(52));
    assert(pow2(23) == 0x80_0000);
    assert(pow2(52) == 0x10_0000_0000_0000);
    if mbits == 24 {
        0x7F80_0000
    } else {
        0x7FF0_0000_0000_0000
    }
}

/// Rounds `a / b` to the nearest float, given its scaled quotient `q` at
/// binary scale `-ex` and whether that quotient is inexact; an inexact
/// quotient carries at least `mbits + 2` bits.
#[verifier::spinoff_prover]
fn round_quotient(
    q: &BigInt,
    ex: i32,
    tail: bool,
    mbits: u32,
    bias: u32,
    Ghost(a): Ghost<nat>,
    Ghost(b): Ghost<nat>,
) -> (r: u64)
    requires
        b > 0,
        is_format(mbits as nat, bias as nat),
        1 <= q.length <= q.limbs@.len(),
        q.length <= 0x1000,
        q.is_trimmed(),
        -0x100_0000 <= ex <= 0x100_0000,
        q.value() == quot(a, b, -ex),
        tail == inexact(a, b, -ex),
        tail ==> q.value() >= pow2((mbits + 1) as nat),
    ensures
        r == nearest_bits(a, b, mbits as nat, bias as nat),
{
    let ghost qv = q.value();
    let ghost k: int = -ex;
    let mut exponent = ex;
    let mut t = tail;
    proof {
        lemma2_to64();
        vstd::arithmetic::power2::lemma2_to64_rest();
    }
    let top = q.extract_high(&mut exponent, &mut t);
    let ghost l = bitlen(qv);
    proof {
        let b0 = bitlen(q.limbs@[q.length - 1] as nat);
        crate::utils::rounding::lemma_bitlen_bounds(q.limbs@[q.length - 1] as nat);
        assert(b0 <= 32) by {
            if b0 > 32 {
                if 32 < (b0 - 1) as nat {
                    lemma_pow2_strictly_increases(32, (b0 - 1) as nat);
                }
                assert(false);
            }
        }
        assert(l >= 1);
        assert(exponent == -k + l - 1);
        let e = -k + l - 1;
        if l >= 64 {
            let t2 = (l - 64) as nat;
            lemma_quot_shift(a, b, k, t2);
            lemma_quot_shift(qv, 1, 0, t2);
            assert(quot(qv, 1, 0) == (qv * pow2(0)) / 1);
            assert(pow2(0) == 1);
            assert((qv * 1) / 1 == qv && (qv * 1) % 1 == 0) by (nonlinear_arith);
            assert(0 - t2 == 64 - l);
            assert(quot(qv, 1, 64 - l) == qv / pow2(t2));
            assert(inexact(qv, 1, 64 - l) == (qv % pow2(t2) != 0));
            assert(63 - e - 0 == k - t2);
            lemma_encode(a, b, top as nat, 0, t, e, mbits as nat, bias as nat);
        } else {
            let j = (64 - l) as nat;
            assert(quot(qv, 1, 64 - l) == (qv * pow2(j)) / 1);
            assert((qv * pow2(j)) / 1 == qv * pow2(j) && (qv * pow2(j)) % 1 == 0) by (nonlinear_arith);
            assert(top == qv * pow2(j));
            assert(t == tail);
            if !tail {
                lemma_quot_exact_up(a, b, k, j);
                assert(63 - e - 0 == k + j);
                lemma_encode(a, b, top as nat, 0, t, e, mbits as nat, bias as nat);
            } else {
                crate::utils::rounding::lemma_bitlen_bounds(qv);
                if l < mbits + 2 {
                    lemma_pow2_strictly_increases(l, (mbits + 1) as nat);
                    assert(false);
                }
                lemma_pow2_adds(0, 0);
                assert(63 - e - j == k);
                assert((63 - j) as nat == (l - 1) as nat);
                assert((64 - j) as nat == l);
                lemma_encode(a, b, qv, j, t, e, mbits as nat, bias as nat);
                assert(pow2(0) == 1);
            }
        }
    }
    let inf = infinity_bits(mbits);
    let bias_i = bias as i32;
    if exponent > bias_i {
        return inf;
    }
    if exponent <= -bias_i {
        let extra = (1 - bias_i - exponent) as u32;
        let sh = 64 - mbits + extra;
        let m = shift_right_round(top, sh, t);
        proof {
            lemma_rounded_shift_rne(top, sh, t);
        }
        return m;
    }
    let sh = 64 - mbits;
    let m = shift_right_round(top, sh, t);
    proof {
        lemma_rounded_shift_rne(top, sh, t);
        assert(m <= pow2(mbits as nat)) by {
            let h = (top as nat) / pow2((63 - mbits) as nat);
            lemma_pow2_pos((63 - mbits) as nat);
            lemma_pow2_adds((mbits + 1) as nat, (63 - mbits) as nat);
            assert((mbits + 1) as nat + (63 - mbits) as nat == 64);
            assert(h < pow2((mbits + 1) as nat)) by (nonlinear_arith)
                requires
                    top < pow2(64),
                    pow2(64) == pow2((mbits + 1) as nat) * pow2((63 - mbits) as nat),
                    pow2((63 - mbits) as nat) > 0,
                    h == (top as nat) / pow2((63 - mbits) as nat),
            ;
            vstd::arithmetic::power2::lemma_pow2_unfold((mbits + 1) as nat);
        }
    }
    let unit: u64 = if mbits == 24 {
        0x80_0000
    } else {
        0x10_0000_0000_0000
    };
    proof {
        if mbits == 24 {
            assert(unit == pow2(23));
            assert(pow2(24) == 0x100_0000);
        } else {
            assert(unit == pow2(52));
            assert(pow2(53) == 0x20_0000_0000_0000);
        }
    }
    let scale = (exponent + bias_i - 1) as u64;
    m + scale * unit
}

/// 10^p is 5^p 2^p.
pub proof fn lemma_pow10(p: nat)
    ensures
        pow(10, p) == pow(5, p) * pow2(p),
    decreases p,
{
    if p == 0 {
        lemma_pow0(10);
        lemma_pow0(5);
        lemma2_to64();
    } else {
        lemma_pow10((p - 1) as nat);
        lemma_pow_adds(10, (p - 1) as nat, 1);
        lemma_pow_adds(5, (p - 1) as nat, 1);
        lemma_pow1(10);
        lemma_pow1(5);
        lemma_pow2_adds((p - 1) as nat, 1);
        lemma2_to64();
        assert((p - 1) as nat + 1 == p);
        assert(pow(10, p) == pow(5, p) * pow2(p)) by (nonlinear_arith)
            requires
                pow(10, p) == pow(10, (p - 1) as nat) * 10,
                pow(5, p) == pow(5, (p - 1) as nat) * 5,
                pow2(p) == pow2((p - 1) as nat) * 2,
                pow(10, (p - 1) as nat) == pow(5, (p - 1) as nat) * pow2((p - 1) as nat),
        ;
    }
}

/// 5^p is below 2^(3 p).
pub proof fn lemma_pow5_bound(p: nat)
    ensures
        pow(5, p) <= pow2(3 * p),
    decreases p,
{
    if p == 0 {
        lemma_pow0(5);
        lemma2_to64();
    } else {
        lemma_pow5_bound((p - 1) as nat);
        lemma_pow_adds(5, (p - 1) as nat, 1);
        lemma_pow1(5);
        lemma_pow2_adds(3 * (p - 1) as nat, 3);
        lemma2_to64();
        assert(3 * (p - 1) as nat + 3 == 3 * p);
        assert(pow(5, p) <= pow2(3 * p)) by (nonlinear_arith)
            requires
                pow(5, p) == pow(5, (p - 1) as nat) * 5,
                pow2(3 * p) == pow2(3 * (p - 1) as nat) * 8,
                pow(5, (p - 1) as nat) <= pow2(3 * (p - 1) as nat),
        ;
    }
}

/// A trimmed number of `n >= 1` limbs lies in `[2^(32 (n-1)), 2^(32 n))`.
pub proof fn lemma_trimmed_range(x: &BigInt)
    requires
        1 <= x.length <= x.limbs@.len(),
        x.is_trimmed(),
    ensures
        pow2(32 * (x.length - 1) as nat) <= x.value() < pow2(32 * x.length as nat),
{
    crate::utils::float_parse::lemma_trimmed_value(x.limbs@, x.length as nat);
    lemma_limbs_value_bound(x.limbs@, x.length as nat);
}

/// The number of bits of a trimmed number with its top limb of `b` bits.
pub proof fn lemma_trimmed_bitlen(x: &BigInt)
    requires
        1 <= x.length <= x.limbs@.len(),
        x.is_trimmed(),
    ensures
        bitlen(x.value()) == 32 * (x.length - 1) + bitlen(x.limbs@[x.length - 1] as nat),
        32 * (x.length - 1) < bitlen(x.value()) <= 32 * x.length,
{
    let n = x.length;
    let l = x.limbs@;
    let t = l[n - 1] as nat;
    let b = bitlen(t);
    crate::utils::rounding::lemma_bitlen_bounds(t);
    lemma2_to64();
    if b > 32 {
        if 32 < (b - 1) as nat {
            lemma_pow2_strictly_increases(32, (b - 1) as nat);
        }
        assert(false);
    }
    let below = limbs_value(l, (n - 1) as nat);
    let pn = pow2(32 * (n - 1) as nat);
    lemma_limbs_value_bound(l, (n - 1) as nat);
    lemma_pow2_pos(32 * (n - 1) as nat);
    let pb1 = pow2((b - 1) as nat);
    assert(x.value() == below + t * pn);
    lemma_pow2_adds(32 * (n - 1) as nat, (b - 1) as nat);
    lemma_pow2_adds(32 * (n - 1) as nat, b);
    assert(pn * pb1 <= x.value() < pn * pow2(b)) by (nonlinear_arith)
        requires
            x.value() == below + t * pn,
            below < pn,
            pb1 <= t,
            t + 1 <= pow2(b),
    ;
    lemma_bitlen_unique(x.value(), 32 * (n - 1) as nat + b);
}

/// A number shifted left by `s` bits has `s` more bits.
pub proof fn lemma_bitlen_shift(x: nat, s: nat)
    requires
        x > 0,
    ensures
        bitlen(x * pow2(s)) == bitlen(x) + s,
{
    let b = bitlen(x);
    crate::utils::rounding::lemma_bitlen_bounds(x);
    lemma_pow2_adds((b - 1) as nat, s);
    lemma_pow2_adds(b, s);
    lemma_pow2_pos(s);
    assert(pow2((b - 1) as nat) * pow2(s) <= x * pow2(s) < pow2(b) * pow2(s)) by (nonlinear_arith)
        requires
            pow2((b - 1) as nat) <= x < pow2(b),
            pow2(s) > 0,
    ;
    assert((b - 1) as nat + s == (b + s - 1) as nat);
    lemma_bitlen_unique(x * pow2(s), b + s);
}

/// The quotient of `n 2^ms` by `5^p 2^dz` is that of `n / 10^p` at binary
/// scale `p + ms - dz`; with the dividend `mbits + 2` bits longer than the
/// divisor's limbs, it has at least `mbits + 2` bits.
proof fn lemma_divided(n: nat, p: nat, ms: nat, dz: nat, db: nat, mbits: nat, a: nat, dd: nat)
    requires
        n > 0,
        a == n * pow2(ms),
        dd == (pow(5, p) as nat) * pow2(dz),
        pow(5, p) > 0,
        0 < dd < pow2(db),
        bitlen(a) >= db + mbits + 2,
    ensures
        a / dd == quot(n, pow(10, p) as nat, p + ms - dz),
        (a % dd != 0) == inexact(n, pow(10, p) as nat, p + ms - dz),
        a / dd >= pow2(mbits + 1),
{
    let k = p + ms - dz;
    let ten: nat = pow(10, p) as nat;
    let d5: nat = pow(5, p) as nat;
    lemma_pow10(p);
    lemma_pow_positive(10, p);
    crate::utils::rounding::lemma_quot_common(n, ten, k, dz);
    lemma_pow2_adds(ms, p);
    assert((k + dz) as nat == ms + p);
    let pp = pow2(p);
    lemma_pow2_pos(p);
    assert(n * pow2((k + dz) as nat) == a * pp) by (nonlinear_arith)
        requires
            pow2((k + dz) as nat) == pow2(ms) * pp,
            a == n * pow2(ms),
    ;
    assert(ten * pow2(dz) == dd * pp) by (nonlinear_arith)
        requires
            ten == d5 * pp,
            dd == d5 * pow2(dz),
    ;
    crate::utils::rounding::lemma_cancel(a, dd, pp);
    crate::utils::rounding::lemma_mul_nonzero(pp as int, (a % dd) as int);
    let qq = a / dd;
    lemma_pow2_pos(ms);
    assert(a > 0) by (nonlinear_arith)
        requires
            a == n * pow2(ms),
            n > 0,
            pow2(ms) > 0,
    ;
    crate::utils::rounding::lemma_bitlen_bounds(a);
    lemma_pow2_adds(mbits + 1, db);
    let ba = bitlen(a);
    let e1 = (db + mbits + 1) as nat;
    let e2 = (ba - 1) as nat;
    if e1 < e2 {
        lemma_pow2_strictly_increases(e1, e2);
    }
    assert(pow2(mbits + 1) * pow2(db) <= a);
    vstd::arithmetic::div_mod::lemma_fundamental_div_mod(a as int, dd as int);
    assert(qq >= pow2(mbits + 1)) by (nonlinear_arith)
        requires
            pow2(mbits + 1) * pow2(db) <= a,
            a == dd * qq + a % dd,
            a % dd < dd,
            dd <= pow2(db),
            dd > 0,
    ;
}

/// Scales `n` (in `mant`) and 5^p so that their quotient carries at least
/// `mbits + 2` bits, and divides: the quotient of `n / 10^p` at binary
/// scale `-ex`, and whether it is inexact.
#[verifier::spinoff_prover]
#[verifier::rlimit(60)]
fn divide_down(mant: BigInt, p: u32, mbits: u32, Ghost(n): Ghost<nat>) -> (r: (BigInt, i32, bool))
    requires
        mant.limbs@.len() == 80,
        1 <= mant.length <= 17,
        mant.is_trimmed(),
        mant.value() == n,
        1 <= p <= 500,
        mbits == 24 || mbits == 53,
    ensures
        r.0.limbs@.len() == 80,
        1 <= r.0.length <= 80,
        r.0.is_trimmed(),
        -0x10000 <= r.1 <= 0x10000,
        r.0.value() == quot(n, pow(10, p as nat) as nat, -r.1),
        r.2 == inexact(n, pow(10, p as nat) as nat, -r.1),
        r.0.value() >= pow2((mbits + 1) as nat),
{
    let mut mant = mant;
    let p0 = if p < 27 {
        p
    } else {
        27
    };
    let pv = pow5_u64(p0);
    let mut d = BigInt::new(80);
    d.limbs.set(0, #[verifier::truncate] (pv as u32));
    d.limbs.set(1, #[verifier::truncate] ((pv >> 32) as u32));
    d.length = if (pv >> 32) != 0 {
        2
    } else {
        1
    };
    proof {
        lemma2_to64();
        lemma_pow_positive(5, p0 as nat);
        let lo = #[verifier::truncate] (pv as u32);
        let hi = #[verifier::truncate] ((pv >> 32) as u32);
        assert(pv == lo + hi * 0x1_0000_0000 && hi < 0x8000_0000) by (bit_vector)
            requires
                lo == pv as u32,
                hi == (pv >> 32) as u32,
                pv < 0x8000_0000_0000_0000,
        ;
        assert(d.limbs@[0] == lo && d.limbs@[1] == hi);
        assert(limbs_value(d.limbs@, 1) == limbs_value(d.limbs@, 0) + (lo as nat) * pow2(0));
        assert(limbs_value(d.limbs@, 2) == limbs_value(d.limbs@, 1) + (hi as nat) * pow2(32));
        assert(limbs_value(d.limbs@, 0) == 0);
        if hi == 0 {
            assert(pv == lo);
        }
        assert(d.value() == pv);
        lemma_pow5_bound(p as nat);
        lemma_pow_adds(5, p0 as nat, (p - p0) as nat);
        lemma_pow_positive(5, (p - p0) as nat);
    }
    if p > p0 {
        proof {
            lemma_pow2_adds(3 * p as nat, 32);
            lemma_pow2_strictly_increases((3 * p + 32) as nat, 32 * 80);
            assert(d.value() * pow(5, (p - p0) as nat) == pow(5, p as nat));
            assert(pow(5, p as nat) * 0x1_0000_0000 < pow2(32 * 80)) by (nonlinear_arith)
                requires
                    pow(5, p as nat) <= pow2(3 * p as nat),
                    pow2((3 * p + 32) as nat) == pow2(3 * p as nat) * pow2(32),
                    pow2(32) == 0x1_0000_0000,
                    pow2((3 * p + 32) as nat) < pow2(32 * 80),
            ;
        }
        d.mul_pow5(p - p0);
    }
    let ghost d5: nat = pow(5, p as nat) as nat;
    proof {
        assert(d.value() == d5);
        assert(d.is_trimmed());
        assert(d.length >= 1) by {
            if d.length == 0 {
                assert(limbs_value(d.limbs@, 0) == 0);
                lemma_pow_positive(5, p as nat);
            }
        }
        lemma_trimmed_range(&d);
        // at most 47 limbs
        if d.length > 47 {
            lemma_pow2_strictly_increases(3 * p as nat, 32 * (d.length - 1) as nat);
            assert(false);
        }
    }
    let dtop = d.limbs[d.length - 1];
    let dbits = bit_length(dtop);
    let dz: u32 = if d.length == 1 {
        64 - dbits
    } else {
        32 - dbits
    };
    proof {
        crate::utils::rounding::lemma_bitlen_bounds(dtop as nat);
        assert(dbits >= 1);
    }
    d.shift_left(dz);
    let ghost dd: nat = d5 * pow2(dz as nat);
    assert(d.value() == dd);
    let dlen = d.length;
    proof {
        assert(dlen <= 49);
        lemma_limbs_value_bound(d.limbs@, dlen as nat);
        lemma_pow2_pos(dz as nat);
        lemma_pow_positive(5, p as nat);
        assert(dd > 0) by (nonlinear_arith)
            requires
                dd == d5 * pow2(dz as nat),
                d5 > 0,
                pow2(dz as nat) > 0,
        ;
    }
    let mtop = mant.limbs[mant.length - 1];
    let mz = 32 - bit_length(mtop);
    let mantissa_bits: u32 = (mant.length as u32) * 32 - mz;
    let min_bits: u32 = (dlen as u32) * 32 + mbits + 2;
    let mut ms: u32 = if mantissa_bits < min_bits {
        min_bits - mantissa_bits
    } else {
        0
    };
    if (ms + 32 - mz) % 32 == 0 {
        ms = ms + 1;
    }
    proof {
        lemma_trimmed_bitlen(&mant);
        assert(mantissa_bits == bitlen(n));
    }
    if ms > 0 {
        mant.shift_left(ms);
    }
    let ghost a = n * pow2(ms as nat);
    proof {
        if ms == 0 {
            assert(pow2(0) == 1);
            assert(n * pow2(0) == n) by (nonlinear_arith)
                requires
                    pow2(0) == 1,
            ;
        }
        assert(mant.value() == a);
        lemma_bitlen_shift(n, ms as nat);
        assert(bitlen(a) >= 32 * dlen + mbits + 2);
    }
    let mut q = BigInt::new(80);
    let tail = mant.div(&d, &mut q);
    let ex: i32 = (dz as i32) - (ms as i32) - (p as i32);
    proof {
        lemma_divided(n, p as nat, ms as nat, dz as nat, 32 * dlen as nat, mbits as nat, a, dd);
        assert(-ex == p + ms - dz);
        if q.length == 0 {
            assert(limbs_value(q.limbs@, 0) == 0);
            lemma_pow2_pos((mbits + 1) as nat);
        }
    }
    (q, ex, tail)
}

/// The number of 32-bit limbs that `n` takes.
pub open spec fn limb_count(n: nat) -> nat {
    (bitlen(n) + 31) / 32
}

/// The bits, without sign, of the float that the decimal `n * 10^e` reads
/// as in the format with `mbits` significant bits and bias `bias`: zero
/// for zero; zero where `e` alone puts it below half the least subnormal,
/// infinity where `e` alone puts it past the largest finite value (both
/// judged by the limbs `n` takes); otherwise the nearest float.
pub open spec fn decimal_magnitude(n: nat, e: int, mbits: nat, bias: nat) -> nat {
    if n == 0 {
        0
    } else if e < 0 && e + 10 * limb_count(n) <= -325 {
        0
    } else if e > 0 && e + 9 * (limb_count(n) - 1) >= 310 {
        inf_bits(mbits, bias)
    } else if e < 0 {
        nearest_bits(n, pow(10, (-e) as nat) as nat, mbits, bias)
    } else {
        nearest_bits(n * (pow(10, e as nat) as nat), 1, mbits, bias)
    }
}

/// Rounds the decimal `mant * 10^dexp` to the float format with `mbits`
/// significant bits and bias `bias`, as [`decimal_magnitude`] states.
#[verifier::spinoff_prover]
#[verifier::rlimit(40)]
fn round_decimal(mant: BigInt, dexp: i32, mbits: u32, bias: u32) -> (r: u64)
    requires
        mant.limbs@.len() == 80,
        mant.length <= 17,
        mant.is_trimmed(),
        -0x7FF2_0000 <= dexp <= 0x7FF2_0000,
        is_format(mbits as nat, bias as nat),
    ensures
        r == decimal_magnitude(mant.value(), dexp as int, mbits as nat, bias as nat),
{
    let ghost n = mant.value();
    let len = mant.length;
    if len == 0 {
        assert(n == 0);
        return 0;
    }
    proof {
        lemma_trimmed_bitlen(&mant);
        assert(limb_count(n) == len);
        lemma_trimmed_range(&mant);
        lemma2_to64();
    }
    let l = len as i32;
    if dexp < 0 {
        if dexp + l * 10 <= -325 {
            return 0;
        }
        let p = (0 - dexp) as u32;
        let (q, ex, tail) = divide_down(mant, p, mbits, Ghost(n));
        proof {
            lemma_pow_positive(10, p as nat);
            assert((-dexp) as nat == p as nat);
        }
        round_quotient(&q, ex, tail, mbits, bias, Ghost(n), Ghost(pow(10, p as nat) as nat))
    } else if dexp > 0 {
        if dexp + (l - 1) * 9 >= 310 {
            return infinity_bits(mbits);
        }
        let e = dexp as u32;
        let mut m = mant;
        let ghost five: nat = pow(5, e as nat) as nat;
        proof {
            lemma_pow5_bound(e as nat);
            lemma_pow_positive(5, e as nat);
            lemma_pow2_adds(32 * len as nat, 3 * e as nat);
            lemma_pow2_adds((32 * len + 3 * e) as nat, 32);
            lemma_pow2_strictly_increases((32 * len + 3 * e + 32) as nat, 32 * 80);
            assert(n * five * 0x1_0000_0000 < pow2(32 * 80)) by (nonlinear_arith)
                requires
                    n < pow2(32 * len as nat),
                    five <= pow2(3 * e as nat),
                    pow2((32 * len + 3 * e) as nat) == pow2(32 * len as nat) * pow2(3 * e as nat),
                    pow2((32 * len + 3 * e + 32) as nat) == pow2((32 * len + 3 * e) as nat) * pow2(32),
                    pow2(32) == 0x1_0000_0000,
                    pow2((32 * len + 3 * e + 32) as nat) < pow2(32 * 80),
            ;
        }
        m.mul_pow5(e);
        let ghost x: nat = n * five;
        let ghost ten: nat = pow(10, e as nat) as nat;
        proof {
            assert(m.value() == x);
            lemma_pow10(e as nat);
            lemma_pow2_pos(e as nat);
            assert(n * ten == x * pow2(e as nat)) by (nonlinear_arith)
                requires
                    ten == five * pow2(e as nat),
                    x == n * five,
            ;
            crate::utils::rounding::lemma_cancel(x, 1, pow2(e as nat));
            assert(x / 1 == x && x % 1 == 0) by (nonlinear_arith);
            assert(1 * pow2(e as nat) == pow2(e as nat));
            assert(quot(n * ten, 1, -(e as int)) == x);
            assert(!inexact(n * ten, 1, -(e as int)));
            assert(x >= 1) by (nonlinear_arith)
                requires
                    x == n * five,
                    n >= 1,
                    five >= 1,
            ;
            if m.length == 0 {
                assert(limbs_value(m.limbs@, 0) == 0);
            }
            lemma_limbs_value_bound(m.limbs@, 0);
            if m.length > 80 {
                assert(false);
            }
        }
        round_quotient(&m, dexp, false, mbits, bias, Ghost(n * (pow(10, e as nat) as nat)), Ghost(1))
    } else {
        proof {
            assert(quot(n, 1, 0) == (n * pow2(0)) / 1);
            assert((n * 1) / 1 == n && (n * 1) % 1 == 0) by (nonlinear_arith);
            lemma_pow0(10);
            assert(n * (pow(10, 0) as nat) == n);
        }
        round_quotient(&mant, 0, false, mbits, bias, Ghost(n), Ghost(1))
    }
}

/// What reading mantissa characters `start .. p` gathers: the number read
/// in full groups of eighteen digits, the digits since and their count, the
/// decimal exponent, and whether a `.` was read. Digits count while the
/// number in full groups stays below 2^416 (thirteen limbs); past that,
/// digits before the `.` raise the exponent and those after it are dropped.
pub open spec fn digits_read(s: Seq<u8>, start: int, p: int) -> (nat, nat, nat, int, bool)
    decreases p - start,
{
    if p <= start {
        (0, 0, 0, 0, false)
    } else {
        let (big, d, c, e, dot) = digits_read(s, start, p - 1);
        let ch = s[p - 1];
        if is_digit(ch) {
            if big < pow2(416) {
                let d1 = d * 10 + (ch - 0x30) as nat;
                let e1 = if dot {
                    e - 1
                } else {
                    e
                };
                if c + 1 >= 18 {
                    (big * 1_000_000_000_000_000_000 + d1, 0, 0, e1, dot)
                } else {
                    (big, d1, c + 1, e1, dot)
                }
            } else {
                (big, d, c, if dot {
                    e
                } else {
                    e + 1
                }, dot)
            }
        } else {
            (big, d, c, e, true)
        }
    }
}

/// 10^k, for k up to 18.
fn pow10_u64(k: u32) -> (r: u64)
    requires
        k <= 18,
    ensures
        r == pow(10, k as nat),
        r <= 1_000_000_000_000_000_000,
{
    let mut p: u64 = 1;
    let mut i: u32 = 0;
    proof {
        lemma_pow0(10);
        reveal_with_fuel(pow, 19);
        assert(pow(10, 18) == 1_000_000_000_000_000_000);
    }
    while i < k
        invariant
            i <= k <= 18,
            p == pow(10, i as nat),
            p <= pow(10, 18),
            pow(10, 18) == 1_000_000_000_000_000_000,
        decreases k - i,
    {
        proof {
            lemma_pow_adds(10, i as nat, 1);
            lemma_pow1(10);
            vstd::arithmetic::power::lemma_pow_increases(10, (i + 1) as nat, 18);
        }
        p = p * 10;
        i = i + 1;
    }
    p
}

/// Room for the mantissa in 80 limbs.
proof fn lemma_mantissa_room()
    ensures
        pow2(416) < pow2(476),
        pow2(476) == pow2(416) * 0x1000_0000_0000_0000,
        pow2(416) * 0x1000_0000_0000_0000 * 0x1_0000_0000 <= pow2(32 * 80),
        pow2(476) * 0x1000_0000_0000_0000 * 0x1000_0000_0000_0000 <= pow2(32 * 80),
        pow2(544) >= pow2(476) * 0x1000_0000_0000_0000 * 2,
{
    lemma2_to64();
    vstd::arithmetic::power2::lemma2_to64_rest();
    lemma_pow2_strictly_increases(416, 476);
    lemma_pow2_adds(416, 60);
    lemma_pow2_adds(476, 32);
    lemma_pow2_strictly_increases(508, 2560);
    lemma_pow2_adds(476, 60);
    lemma_pow2_adds(536, 60);
    lemma_pow2_strictly_increases(596, 2560);
    lemma_pow2_adds(476, 61);
    lemma_pow2_strictly_increases(537, 544);
    assert(pow2(61) == 0x1000_0000_0000_0000 * 2);
    assert(pow2(416) * 0x1000_0000_0000_0000 * 0x1_0000_0000 == pow2(508)) by (nonlinear_arith)
        requires
            pow2(476) == pow2(416) * pow2(60),
            pow2(508) == pow2(476) * pow2(32),
            pow2(60) == 0x1000_0000_0000_0000,
            pow2(32) == 0x1_0000_0000,
    ;
    assert(pow2(476) * 0x1000_0000_0000_0000 * 0x1000_0000_0000_0000 == pow2(596)) by (nonlinear_arith)
        requires
            pow2(536) == pow2(476) * pow2(60),
            pow2(596) == pow2(536) * pow2(60),
            pow2(60) == 0x1000_0000_0000_0000,
    ;
    assert(32 * 80 == 2560);
}

/// Reads the mantissa from `start`: the number its kept digits spell (in
/// `r.0`), its decimal exponent, and where it ends.
#[verifier::spinoff_prover]
#[verifier::rlimit(60)]
fn read_mantissa(s: &[u8], start: usize) -> (r: (BigInt, i32, usize))
    requires
        start <= s@.len() <= 0x7FF0_0000,
    ensures
        r.2 == mantissa_end(s@, start as int, false),
        r.2 <= s@.len(),
        r.0.limbs@.len() == 80,
        r.0.length <= 17,
        r.0.is_trimmed(),
        ({
            let (big, d, c, e, dot) = digits_read(s@, start as int, r.2 as int);
            r.0.value() == big * (pow(10, c) as nat) + d && r.1 == e
        }),
        -0x7FF0_0000 <= r.1 <= 0x7FF0_0000,
{
    let len = s.len();
    let mut big = BigInt::new(80);
    let mut digits: u64 = 0;
    let mut count: u32 = 0;
    let mut dexp: i32 = 0;
    let mut has_dot = false;
    let mut pos = start;
    proof {
        lemma2_to64();
        reveal_with_fuel(pow, 19);
        assert(pow(10, 18) == 1_000_000_000_000_000_000);
        lemma_pow0(10);
        lemma_mantissa_room();
    }
    loop
        invariant
            len == s@.len(),
            len <= 0x7FF0_0000,
            start <= pos <= len,
            digits_read(s@, start as int, pos as int) == (big.value(), digits as nat, count as nat, dexp as int, has_dot),
            mantissa_end(s@, pos as int, has_dot) == mantissa_end(s@, start as int, false),
            big.limbs@.len() == 80,
            big.length <= big.limbs@.len(),
            big.is_trimmed(),
            big.value() < pow2(476),
            count < 18,
            digits < pow(10, count as nat),
            pow(10, 18) == 1_000_000_000_000_000_000,
            pow2(32) == 0x1_0000_0000,
            pow2(416) < pow2(476),
            pow2(476) == pow2(416) * 0x1000_0000_0000_0000,
            pow2(416) * 0x1000_0000_0000_0000 * 0x1_0000_0000 <= pow2(32 * 80),
            pow2(476) * 0x1000_0000_0000_0000 * 0x1000_0000_0000_0000 <= pow2(32 * 80),
            pow2(544) >= pow2(476) * 0x1000_0000_0000_0000 * 2,
            -(pos - start) <= dexp <= pos - start,
        ensures
            pos == mantissa_end(s@, start as int, false),
            digits_read(s@, start as int, pos as int) == (big.value(), digits as nat, count as nat, dexp as int, has_dot),
            big.limbs@.len() == 80,
            big.length <= big.limbs@.len(),
            big.is_trimmed(),
            big.value() < pow2(476),
            count < 18,
            digits < pow(10, count as nat),
            start <= pos <= len,
            -(pos - start) <= dexp <= pos - start,
            pow2(476) * 0x1000_0000_0000_0000 * 0x1000_0000_0000_0000 <= pow2(32 * 80),
            pow2(544) >= pow2(476) * 0x1000_0000_0000_0000 * 2,
        decreases len - pos,
    {
        if pos < len && s[pos] >= 0x30 && s[pos] <= 0x39 {
            let ch = s[pos];
            proof {
                assert(is_digit(s@[pos as int]));
                if big.length >= 1 {
                    lemma_trimmed_range(&big);
                }
                if big.length >= 14 {
                    let e1 = 32 * (big.length - 1) as nat;
                    if 416 < e1 {
                        lemma_pow2_strictly_increases(416, e1);
                    }
                }
                if big.length <= 13 {
                    lemma_limbs_value_bound(big.limbs@, big.length as nat);
                    if 32 * big.length < 416 {
                        lemma_pow2_strictly_increases(32 * big.length as nat, 416);
                    }
                }
                assert((big.length < 14) == (big.value() < pow2(416)));
            }
            if big.length < 14 {
                proof {
                    lemma_pow_adds(10, count as nat, 1);
                    lemma_pow1(10);
                    vstd::arithmetic::power::lemma_pow_increases(10, (count + 1) as nat, 18);
                    assert(digits * 10 + (ch - 0x30) < pow(10, (count + 1) as nat)) by (nonlinear_arith)
                        requires
                            digits < pow(10, count as nat),
                            pow(10, (count + 1) as nat) == pow(10, count as nat) * 10,
                            ch - 0x30 < 10,
                    ;
                }
                let d1 = digits * 10 + (ch - 0x30) as u64;
                let c1 = count + 1;
                if c1 >= 18 {
                    let ghost bv = big.value();
                    proof {
                        assert((bv * 1_000_000_000_000_000_000 + d1) * 0x1_0000_0000 < pow2(32 * 80)) by (nonlinear_arith)
                            requires
                                bv < pow2(416),
                                d1 <= 1_000_000_000_000_000_000,
                                pow2(416) * 0x1000_0000_0000_0000 * 0x1_0000_0000 <= pow2(32 * 80),
                        ;
                    }
                    big.mad(1_000_000_000_000_000_000, d1);
                    proof {
                        assert(big.value() < pow2(476)) by (nonlinear_arith)
                            requires
                                big.value() == bv * 1_000_000_000_000_000_000 + d1,
                                bv < pow2(416),
                                d1 <= 1_000_000_000_000_000_000,
                                pow2(476) == pow2(416) * 0x1000_0000_0000_0000,
                        ;
                    }
                    digits = 0;
                    count = 0;
                    proof {
                        lemma_pow0(10);
                    }
                } else {
                    digits = d1;
                    count = c1;
                }
                if has_dot {
                    dexp = dexp - 1;
                }
            } else {
                if !has_dot {
                    dexp = dexp + 1;
                }
            }
            pos = pos + 1;
        } else if pos < len && s[pos] == 0x2E && !has_dot {
            has_dot = true;
            pos = pos + 1;
        } else {
            break;
        }
    }
    let mut mant = big;
    if mant.length == 0 {
        let lo = #[verifier::truncate] (digits as u32);
        let hi = #[verifier::truncate] ((digits >> 32) as u32);
        mant.limbs.set(0, lo);
        mant.limbs.set(1, hi);
        mant.length = if hi != 0 {
            2
        } else if lo != 0 {
            1
        } else {
            0
        };
        proof {
            assert(digits == lo + hi * 0x1_0000_0000 && (hi == 0 ==> digits == lo)) by (bit_vector)
                requires
                    lo == digits as u32,
                    hi == (digits >> 32) as u32,
            ;
            assert(limbs_value(mant.limbs@, 0) == 0);
            assert(limbs_value(mant.limbs@, 1) == limbs_value(mant.limbs@, 0) + (lo as nat) * pow2(0));
            assert(limbs_value(mant.limbs@, 2) == limbs_value(mant.limbs@, 1) + (hi as nat) * pow2(32));
            assert(big.value() == 0);
            assert(mant.value() == digits);
            assert(0 * (pow(10, count as nat) as nat) + digits == digits);
        }
    } else {
        let m10 = pow10_u64(count);
        let ghost bv = mant.value();
        proof {
            lemma_pow_positive(10, count as nat);
            assert((bv * m10 + digits) * 0x1_0000_0000 < pow2(32 * 80)) by (nonlinear_arith)
                requires
                    bv < pow2(476),
                    m10 <= 1_000_000_000_000_000_000,
                    digits < 1_000_000_000_000_000_000,
                    pow2(476) * 0x1000_0000_0000_0000 * 0x1000_0000_0000_0000 <= pow2(32 * 80),
            ;
        }
        mant.mad(m10, digits);
        proof {
            assert(mant.value() < pow2(544)) by (nonlinear_arith)
                requires
                    mant.value() == bv * m10 + digits,
                    bv < pow2(476),
                    m10 <= 1_000_000_000_000_000_000,
                    digits < 1_000_000_000_000_000_000,
                    pow2(544) >= pow2(476) * 0x1000_0000_0000_0000 * 2,
            ;
            lemma_trimmed_range(&mant);
            if mant.length > 17 {
                lemma_pow2_strictly_increases(544, 32 * (mant.length - 1) as nat);
            }
        }
    }
    (mant, dexp, pos)
}

/// The value of the exponent digits from `p`, with `acc` read so far:
/// reading stops after the digit that brings it to 10000 or more.
pub open spec fn exponent_value(s: Seq<u8>, p: int, acc: int) -> int
    decreases s.len() - p,
{
    if 0 <= p < s.len() && is_digit(s[p]) {
        let e2 = acc * 10 + (s[p] - 0x30);
        if e2 >= 10000 {
            e2
        } else {
            exponent_value(s, p + 1, e2)
        }
    } else {
        acc
    }
}

/// The signed exponent written after the mantissa ending at `m`, or zero.
pub open spec fn exponent_part(s: Seq<u8>, m: int) -> int {
    if 0 <= m && m + 1 < s.len() && (s[m] == 0x65 || s[m] == 0x45) {
        let q = m + 1;
        let q2 = if s[q] == 0x2B || s[q] == 0x2D {
            q + 1
        } else {
            q
        };
        let v = exponent_value(s, q2, 0);
        if s[q] == 0x2D {
            -v
        } else {
            v
        }
    } else {
        0
    }
}

/// The decimal a finite number whose digits start at `start` spells, as
/// the number its kept mantissa digits make and its decimal exponent.
pub open spec fn decimal_of(s: Seq<u8>, start: int) -> (nat, int) {
    let m = mantissa_end(s, start, false);
    let (big, d, c, e, dot) = digits_read(s, start, m);
    (big * (pow(10, c) as nat) + d, e + exponent_part(s, m))
}

/// Reads the exponent written after the mantissa ending at `m`.
fn read_exponent(s: &[u8], m: usize) -> (r: i32)
    requires
        m <= s@.len() <= 0x7FF0_0000,
    ensures
        r == exponent_part(s@, m as int),
        -100000 < r < 100000,
{
    let len = s.len();
    if !(m + 1 < len && (s[m] == 0x65 || s[m] == 0x45)) {
        return 0;
    }
    let q = m + 1;
    let neg = s[q] == 0x2D;
    let mut p = if s[q] == 0x2B || s[q] == 0x2D {
        q + 1
    } else {
        q
    };
    let ghost p0 = p;
    let mut exp: i32 = 0;
    loop
        invariant_except_break
            0 <= exp < 10000,
            exponent_value(s@, p as int, exp as int) == exponent_value(s@, p0 as int, 0),
        invariant
            len == s@.len(),
            p <= len + 1,
        ensures
            exp == exponent_value(s@, p0 as int, 0),
            0 <= exp < 100000,
        decreases len + 1 - p,
    {
        if p < len && s[p] >= 0x30 && s[p] <= 0x39 {
            let e2 = exp * 10 + (s[p] - 0x30) as i32;
            p = p + 1;
            if e2 >= 10000 {
                exp = e2;
                break;
            }
            exp = e2;
        } else {
            break;
        }
    }
    if neg {
        -exp
    } else {
        exp
    }
}

/// A float's bits: binary32 or binary64.
#[derive(Debug, Clone, Copy, PartialEq, Eq)]
pub enum FloatBits {
    Single(u32),
    Double(u64),
}

/// The bits with the sign set for a negative number, in binary32 or
/// binary64.
pub open spec fn signed_bits(negative: bool, magnitude: nat, as_binary32: bool) -> FloatBits {
    if as_binary32 {
        FloatBits::Single((magnitude + if negative {
            0x8000_0000nat
        } else {
            0nat
        }) as u32)
    } else {
        FloatBits::Double((magnitude + if negative {
            0x8000_0000_0000_0000nat
        } else {
            0nat
        }) as u64)
    }
}

/// The bits of the float that the decimal `n * 10^e` reads as: binary32
/// or binary64.
pub open spec fn decimal_bits(negative: bool, n: nat, e: int, as_binary32: bool) -> FloatBits {
    if as_binary32 {
        signed_bits(negative, decimal_magnitude(n, e, 24, 127), true)
    } else {
        signed_bits(negative, decimal_magnitude(n, e, 53, 1023), false)
    }
}

/// A float's magnitude never passes infinity.
proof fn lemma_magnitude_bound(n: nat, e: int, mbits: nat, bias: nat)
    ensures
        decimal_magnitude(n, e, mbits, bias) <= inf_bits(mbits, bias),
{
}

/// Parses the decimal number, infinity or NaN at the start of `s` to the
/// bits of a float, rounding the digits read to the nearest binary32 or
/// binary64 value (ties to even) with exact arithmetic. Infinities and NaNs
/// come as binary64 bits. Returns the bits and the length of the number.
pub fn parse_double_bits(s: &[u8], as_binary32: bool) -> (r: Option<(FloatBits, usize)>)
    requires
        s@.len() <= 0x7FF0_0000,
    ensures
        match number_prefix(s@) {
            None => r is None,
            Some((negative, start, end, any_digit, special)) => match special {
                Some(top) => r == Some((FloatBits::Double((top as u64) << 48u64), end as usize)),
                None => r == Some(
                    (
                        decimal_bits(negative, decimal_of(s@, start).0, decimal_of(s@, start).1, as_binary32),
                        end as usize,
                    ),
                ),
            },
        },
{
    match scan_number(s) {
        None => None,
        Some(NumberScan::Special { top_bits, end }) => Some((FloatBits::Double((top_bits as u64) << 48u64), end)),
        Some(NumberScan::Finite { negative, start, end, any_digit }) => {
            let (mant, dexp, m) = read_mantissa(s, start);
            let x = read_exponent(s, m);
            let e = dexp + x;
            if as_binary32 {
                let mag = round_decimal(mant, e, 24, 127);
                proof {
                    lemma_magnitude_bound(mant.value(), e as int, 24, 127);
                    lemma2_to64();
                    assert(inf_bits(24, 127) == 255 * pow2(23));
                    assert(pow2(23) == 0x80_0000);
                    assert(mag <= 0x7F80_0000);
                }
                let bits: u32 = if negative {
                    (mag + 0x8000_0000) as u32
                } else {
                    mag as u32
                };
                Some((FloatBits::Single(bits), end))
            } else {
                let mag = round_decimal(mant, e, 53, 1023);
                proof {
                    lemma_magnitude_bound(mant.value(), e as int, 53, 1023);
                    lemma2_to64();
                    vstd::arithmetic::power2::lemma2_to64_rest();
                    assert(inf_bits(53, 1023) == 2047 * pow2(52));
                    assert(pow2(52) == 0x10_0000_0000_0000);
                    assert(mag <= 0x7FF0_0000_0000_0000);
                }
                let bits: u64 = if negative {
                    mag + 0x8000_0000_0000_0000
                } else {
                    mag
                };
                Some((FloatBits::Double(bits), end))
            }
        },
    }
}

/// If 10^c reaches 2^d, then 10^(c k) reaches 2^(d k).
proof fn lemma_ten_over_two(c: nat, d: nat, k: nat)
    requires
        pow(10, c) >= pow2(d),
    ensures
        pow(10, c * k) >= pow2(d * k),
    decreases k,
{
    if k == 0 {
        lemma_pow0(10);
        assert(c * 0 == 0 && d * 0 == 0);
        lemma2_to64();
    } else {
        lemma_ten_over_two(c, d, (k - 1) as nat);
        lemma_pow_adds(10, c * (k - 1) as nat, c);
        lemma_pow2_adds(d * (k - 1) as nat, d);
        assert(c * (k - 1) as nat + c == c * k) by (nonlinear_arith)
            requires
                k >= 1,
        ;
        assert(d * (k - 1) as nat + d == d * k) by (nonlinear_arith)
            requires
                k >= 1,
        ;
        lemma_pow2_pos(d);
        lemma_pow2_pos(d * (k - 1) as nat);
        assert(pow(10, c * k) >= pow2(d * k)) by (nonlinear_arith)
            requires
                pow(10, c * k) == pow(10, c * (k - 1) as nat) * pow(10, c),
                pow2(d * k) == pow2(d * (k - 1) as nat) * pow2(d),
                pow(10, c * (k - 1) as nat) >= pow2(d * (k - 1) as nat),
                pow(10, c) >= pow2(d),
                pow2(d) > 0,
                pow2(d * (k - 1) as nat) > 0,
        ;
    }
}

/// If 2^d reaches 10^c, then 2^(d k) reaches 10^(c k).
proof fn lemma_two_over_ten(c: nat, d: nat, k: nat)
    requires
        pow2(d) >= pow(10, c),
    ensures
        pow2(d * k) >= pow(10, c * k),
    decreases k,
{
    if k == 0 {
        lemma_pow0(10);
        assert(c * 0 == 0 && d * 0 == 0);
        lemma2_to64();
    } else {
        lemma_two_over_ten(c, d, (k - 1) as nat);
        lemma_pow_adds(10, c * (k - 1) as nat, c);
        lemma_pow2_adds(d * (k - 1) as nat, d);
        assert(c * (k - 1) as nat + c == c * k) by (nonlinear_arith)
            requires
                k >= 1,
        ;
        assert(d * (k - 1) as nat + d == d * k) by (nonlinear_arith)
            requires
                k >= 1,
        ;
        lemma_pow_positive(10, c);
        lemma_pow_positive(10, c * (k - 1) as nat);
        assert(pow2(d * k) >= pow(10, c * k)) by (nonlinear_arith)
            requires
                pow(10, c * k) == pow(10, c * (k - 1) as nat) * pow(10, c),
                pow2(d * k) == pow2(d * (k - 1) as nat) * pow2(d),
                pow2(d * (k - 1) as nat) >= pow(10, c * (k - 1) as nat),
                pow2(d) >= pow(10, c),
                pow(10, c) > 0,
                pow(10, c * (k - 1) as nat) > 0,
        ;
    }
}

/// Powers of ten against powers of two at the edges of the binary64 range.
proof fn lemma_ten_edges()
    ensures
        pow(10, 325) >= pow2(1079),
        pow(10, 310) >= pow2(1029),
        pow(10, 10) >= pow2(32),
        pow2(32) >= pow(10, 9),
{
    lemma2_to64();
    vstd::arithmetic::power2::lemma2_to64_rest();
    reveal_with_fuel(pow, 29);
    assert(pow(10, 28) == 10_000_000_000_000_000_000_000_000_000);
    assert(pow(10, 17) == 100_000_000_000_000_000);
    assert(pow(10, 10) == 10_000_000_000);
    assert(pow(10, 9) == 1_000_000_000);
    assert(pow(10, 2) == 100);
    lemma_pow2_adds(64, 29);
    assert(pow2(93) == pow2(64) * pow2(29));
    assert(pow(10, 28) >= pow2(93));
    lemma_ten_over_two(28, 93, 11);
    assert(28 * 11 == 308nat && 93 * 11 == 1023nat);
    lemma_pow_adds(10, 308, 17);
    lemma_pow_adds(10, 308, 2);
    lemma_pow2_adds(1023, 56);
    lemma_pow2_adds(1023, 6);
    lemma_pow2_pos(1023);
    assert(pow(10, 325) >= pow2(1079)) by (nonlinear_arith)
        requires
            pow(10, 325) == pow(10, 308) * pow(10, 17),
            pow2(1079) == pow2(1023) * pow2(56),
            pow(10, 308) >= pow2(1023),
            pow(10, 17) >= pow2(56),
            pow2(1023) > 0,
    ;
    assert(pow(10, 310) >= pow2(1029)) by (nonlinear_arith)
        requires
            pow(10, 310) == pow(10, 308) * pow(10, 2),
            pow2(1029) == pow2(1023) * pow2(6),
            pow(10, 308) >= pow2(1023),
            pow(10, 2) >= pow2(6),
            pow2(1023) > 0,
    ;
}

/// The top 64 bits of `a / b`: a scale `k` at which the quotient has
/// exactly 64 bits.
proof fn lemma_top_scale(a: nat, b: nat) -> (k: int)
    requires
        a > 0,
        b > 0,
    ensures
        pow2(63) <= quot(a, b, k) < pow2(64),
{
    let kk = 64 + bitlen(b);
    crate::utils::rounding::lemma_bitlen_bounds(b);
    lemma_pow2_adds(64, bitlen(b));
    lemma_pow2_pos(64);
    let x = quot(a, b, kk as int);
    assert(x == (a * pow2(kk)) / b);
    assert(x >= pow2(64)) by {
        vstd::arithmetic::div_mod::lemma_fundamental_div_mod((a * pow2(kk)) as int, b as int);
        assert(a * pow2(kk) >= pow2(kk)) by (nonlinear_arith)
            requires
                a >= 1,
        ;
        assert(x >= pow2(64)) by (nonlinear_arith)
            requires
                a * pow2(kk) == b * x + (a * pow2(kk)) % b,
                (a * pow2(kk)) % b < b,
                a * pow2(kk) >= pow2(kk),
                pow2(kk) == pow2(64) * pow2(bitlen(b)),
                b < pow2(bitlen(b)),
                b > 0,
        ;
    }
    crate::utils::rounding::lemma_bitlen_bounds(x);
    let lx = bitlen(x);
    if lx < 65 {
        lemma_pow2_strictly_increases(lx, 64);
        assert(false);
    }
    let t = (lx - 64) as nat;
    lemma_quot_shift(a, b, kk as int, t);
    let q = x / pow2(t);
    lemma_pow2_adds(63, t);
    lemma_pow2_adds(64, t);
    lemma_pow2_pos(t);
    assert((lx - 1) as nat == 63 + t);
    assert(pow2(63) <= q < pow2(64)) by (nonlinear_arith)
        requires
            pow2(63 + t) <= x < pow2(64 + t),
            pow2(63 + t) == pow2(63) * pow2(t),
            pow2(64 + t) == pow2(64) * pow2(t),
            q == x / pow2(t),
            pow2(t) > 0,
    ;
    kk - t
}

/// A number below 2^-1078 rounds to zero.
proof fn lemma_tiny(a: nat, b: nat, mbits: nat, bias: nat)
    requires
        a > 0,
        b > a * pow2(1078),
        is_format(mbits, bias),
    ensures
        nearest_bits(a, b, mbits, bias) == 0,
{
    let k = lemma_top_scale(a, b);
    let q = quot(a, b, k);
    let e0 = 63 - k;
    lemma_pow2_pos(1078);
    if k < 0 {
        lemma_pow2_pos((-k) as nat);
        assert(q == a / (b * pow2((-k) as nat)));
        assert(a < b * pow2((-k) as nat)) by (nonlinear_arith)
            requires
                b > a * pow2(1078),
                pow2(1078) > 0,
                pow2((-k) as nat) > 0,
        ;
        assert(q == 0) by (nonlinear_arith)
            requires
                q == a / (b * pow2((-k) as nat)),
                a < b * pow2((-k) as nat),
        ;
        lemma_pow2_pos(63);
        assert(false);
    }
    let kn = k as nat;
    assert(q == (a * pow2(kn)) / b);
    vstd::arithmetic::div_mod::lemma_fundamental_div_mod((a * pow2(kn)) as int, b as int);
    if kn <= 1141 {
        if kn < 1141 {
            lemma_pow2_strictly_increases(kn, 1141);
        }
        lemma_pow2_adds(63, 1078);
        lemma_pow2_pos(63);
        let x = a * pow2(kn);
        assert(x >= b * q);
        assert(b * q >= b * pow2(63)) by (nonlinear_arith)
            requires
                q >= pow2(63),
        ;
        assert(b * pow2(63) > a * pow2(1078) * pow2(63)) by (nonlinear_arith)
            requires
                b > a * pow2(1078),
                pow2(63) > 0,
        ;
        assert(a * pow2(1078) * pow2(63) == a * pow2(1141)) by (nonlinear_arith)
            requires
                pow2(1141) == pow2(63) * pow2(1078),
        ;
        assert(a * pow2(1141) >= x) by (nonlinear_arith)
            requires
                x == a * pow2(kn),
                pow2(kn) <= pow2(1141),
        ;
        assert(false);
    }
    lemma_encode(a, b, q, 0, inexact(a, b, k), e0, mbits, bias);
    let s = (64 - mbits + 1 - bias - e0) as nat;
    assert(pow2(0) == 1) by {
        lemma2_to64();
    }
    assert(q * pow2(0) == q) by (nonlinear_arith)
        requires
            pow2(0) == 1,
    ;
    if 64 < (s - 1) as nat {
        lemma_pow2_strictly_increases(64, (s - 1) as nat);
    }
    assert(q / pow2((s - 1) as nat) == 0) by (nonlinear_arith)
        requires
            q < pow2(64),
            pow2(64) <= pow2((s - 1) as nat),
    ;
}

/// A whole number of at least 2^1025 rounds to infinity.
proof fn lemma_huge(a: nat, mbits: nat, bias: nat)
    requires
        a >= pow2(1025),
        is_format(mbits, bias),
    ensures
        nearest_bits(a, 1, mbits, bias) == inf_bits(mbits, bias),
{
    lemma_pow2_pos(1025);
    let k = lemma_top_scale(a, 1);
    let q = quot(a, 1, k);
    let e0 = 63 - k;
    if k >= -961 {
        // then the quotient would pass 2^64
        let kk: int = k + 1025;
        assert(kk >= 64);
        lemma_quot_shift(a, 1, kk, 1025);
        assert(quot(a, 1, kk) == (a * pow2(kk as nat)) / 1);
        assert((a * pow2(kk as nat)) / 1 == a * pow2(kk as nat)) by (nonlinear_arith);
        lemma_pow2_adds(kk as nat, 1025);
        lemma_pow2_pos(kk as nat);
        if 63 < kk {
            lemma_pow2_strictly_increases(63, kk as nat);
        }
        assert(a * pow2(kk as nat) >= pow2(kk as nat) * pow2(1025)) by (nonlinear_arith)
            requires
                a >= pow2(1025),
                pow2(kk as nat) > 0,
        ;
        assert(quot(a, 1, k) == (a * pow2(kk as nat)) / pow2(1025));
        assert(q >= pow2(kk as nat)) by (nonlinear_arith)
            requires
                q == (a * pow2(kk as nat)) / pow2(1025),
                a * pow2(kk as nat) >= pow2(kk as nat) * pow2(1025),
                pow2(1025) > 0,
        ;
        if kk > 64 {
            lemma_pow2_strictly_increases(64, kk as nat);
        }
        assert(false);
    }
    lemma_encode(a, 1, q, 0, inexact(a, 1, k), e0, mbits, bias);
    assert(pow2(0) == 1) by {
        lemma2_to64();
    }
    assert(q * pow2(0) == q) by (nonlinear_arith)
        requires
            pow2(0) == 1,
    ;
}

/// Reading a decimal rounds it to the nearest float: where the exponent
/// alone sends the reader straight to zero or to infinity, rounding the
/// decimal gives those same bits.
pub proof fn lemma_decimal_is_nearest(n: nat, e: int, mbits: nat, bias: nat)
    requires
        n > 0,
        is_format(mbits, bias),
    ensures
        decimal_magnitude(n, e, mbits, bias) == (if e < 0 {
            nearest_bits(n, pow(10, (-e) as nat) as nat, mbits, bias)
        } else {
            nearest_bits(n * (pow(10, e as nat) as nat), 1, mbits, bias)
        }),
{
    let l = limb_count(n);
    let b = bitlen(n);
    crate::utils::rounding::lemma_bitlen_bounds(n);
    assert(b <= 32 * l && 32 * (l - 1) <= b - 1);
    assert(l >= 1);
    if b < 32 * l {
        lemma_pow2_strictly_increases(b, 32 * l);
    }
    if 32 * (l - 1) < b - 1 {
        lemma_pow2_strictly_increases(32 * (l - 1) as nat, (b - 1) as nat);
    }
    assert(n < pow2(32 * l));
    assert(n >= pow2(32 * (l - 1) as nat));
    lemma_ten_edges();
    if e < 0 && e + 10 * l <= -325 {
        let p = (-e) as nat;
        let r = (p - 325 - 10 * l) as nat;
        lemma_ten_over_two(10, 32, l);
        lemma_pow_adds(10, 325, 10 * l);
        lemma_pow_adds(10, 325 + 10 * l, r);
        assert(325 + 10 * l + r == p);
        lemma_pow_positive(10, r);
        lemma_pow_positive(10, 10 * l);
        lemma_pow2_adds(1078, 32 * l);
        lemma_pow2_adds(1078, 1);
        lemma2_to64();
        lemma_pow2_pos(1078);
        lemma_pow2_pos(32 * l);
        let big: int = pow(10, p);
        assert(big >= pow2(1079) * pow2(32 * l)) by (nonlinear_arith)
            requires
                big == pow(10, 325) * pow(10, 10 * l) * pow(10, r),
                pow(10, 325) >= pow2(1079),
                pow(10, 10 * l) >= pow2(32 * l),
                pow(10, r) >= 1,
                pow2(32 * l) > 0,
        ;
        assert(big > n * pow2(1078)) by (nonlinear_arith)
            requires
                big >= pow2(1079) * pow2(32 * l),
                pow2(1079) == pow2(1078) * 2,
                n < pow2(32 * l),
                pow2(1078) > 0,
        ;
        lemma_tiny(n, big as nat, mbits, bias);
    } else if e > 0 && e + 9 * (l - 1) >= 310 {
        let k = (9 * (l - 1) + e) as nat;
        let r = (k - 310) as nat;
        lemma_two_over_ten(9, 32, (l - 1) as nat);
        lemma_pow_adds(10, 9 * (l - 1) as nat, e as nat);
        lemma_pow_adds(10, 310, r);
        lemma_pow_positive(10, r);
        lemma_pow_positive(10, e as nat);
        lemma_pow_positive(10, 9 * (l - 1) as nat);
        lemma_pow2_strictly_increases(1025, 1029);
        let ten: int = pow(10, e as nat);
        let a = n * (ten as nat);
        assert(a >= pow(10, 9 * (l - 1) as nat) * ten) by (nonlinear_arith)
            requires
                a == n * ten,
                n >= pow2(32 * (l - 1) as nat),
                pow2(32 * (l - 1) as nat) >= pow(10, 9 * (l - 1) as nat),
                ten > 0,
        ;
        assert(pow(10, 9 * (l - 1) as nat) * ten >= pow(10, 310)) by (nonlinear_arith)
            requires
                pow(10, 9 * (l - 1) as nat) * ten == pow(10, k),
                pow(10, k) == pow(10, 310) * pow(10, r),
                pow(10, r) >= 1,
                pow(10, 310) > 0,
        ;
        lemma_huge(a, mbits, bias);
    }
}

} // verus!
