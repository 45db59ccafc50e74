//! Rounding a positive rational `a / b` to a binary floating-point number,
//! to nearest with ties to even, and the facts about scaled quotients that
//! the exact decimal parser rests on.
use vstd::prelude::*;
use vstd::arithmetic::power2::{pow2, lemma_pow2_adds, lemma_pow2_pos, lemma_pow2_strictly_increases};
use vstd::arithmetic::div_mod::{
    lemma_div_denominator, lemma_breakdown, lemma_fundamental_div_mod_converse,
    lemma_div_multiples_vanish, lemma_mod_multiples_basic,
};

verus! {

/// The number of bits of `n` (zero for zero).
pub open spec fn bitlen(n: nat) -> nat
    decreases n,
{
    if n == 0 {
        0
    } else {
        1 + bitlen(n / 2)
    }
}

/// A positive number lies between the powers of two its length names.
pub proof fn lemma_bitlen_bounds(n: nat)
    requires
        n > 0,
    ensures
        bitlen(n) >= 1,
        pow2((bitlen(n) - 1) as nat) <= n < pow2(bitlen(n)),
    decreases n,
{
    if n / 2 == 0 {
        assert(n == 1);
        assert(bitlen(0) == 0);
        assert(bitlen(1) == 1);
        vstd::arithmetic::power2::lemma2_to64();
    } else {
        lemma_bitlen_bounds(n / 2);
        let b = bitlen(n / 2);
        assert(bitlen(n) == 1 + b);
        if b >= 2 {
            assert(pow2((b - 1) as nat) == 2 * pow2((b - 2) as nat)) by {
                vstd::arithmetic::power2::lemma_pow2_unfold((b - 1) as nat);
            }
        }
        assert(pow2(b) == 2 * pow2((b - 1) as nat)) by {
            vstd::arithmetic::power2::lemma_pow2_unfold(b);
        }
        assert(pow2(b + 1) == 2 * pow2(b)) by {
            vstd::arithmetic::power2::lemma_pow2_unfold(b + 1);
        }
        assert((1 + b) - 1 == b);
    }
}

/// The length of a number between `2^(k-1)` and `2^k` is `k`.
pub proof fn lemma_bitlen_unique(n: nat, k: nat)
    requires
        k >= 1,
        pow2((k - 1) as nat) <= n < pow2(k),
    ensures
        bitlen(n) == k,
{
    lemma_pow2_pos((k - 1) as nat);
    lemma_bitlen_bounds(n);
    let b = bitlen(n);
    if b < k {
        if b < (k - 1) as nat {
            lemma_pow2_strictly_increases(b, (k - 1) as nat);
        }
        assert(false);
    } else if b > k {
        if k < (b - 1) as nat {
            lemma_pow2_strictly_increases(k, (b - 1) as nat);
        }
        assert(false);
    }
}

/// The numerator of `a * 2^k / b` written over whole numbers.
pub open spec fn scale_num(a: nat, k: int) -> nat {
    if k >= 0 {
        a * pow2(k as nat)
    } else {
        a
    }
}

/// The denominator of `a * 2^k / b` written over whole numbers.
pub open spec fn scale_den(b: nat, k: int) -> nat {
    if k >= 0 {
        b
    } else {
        b * pow2((-k) as nat)
    }
}

/// `a * 2^k / b` rounded down.
pub open spec fn quot(a: nat, b: nat, k: int) -> nat {
    scale_num(a, k) / scale_den(b, k)
}

/// Whether `a * 2^k / b` is not a whole number.
pub open spec fn inexact(a: nat, b: nat, k: int) -> bool {
    scale_num(a, k) % scale_den(b, k) != 0
}

/// A product with a positive factor is zero just when the other is.
pub proof fn lemma_mul_nonzero(m: int, x: int)
    requires
        m > 0,
    ensures
        (m * x == 0) <==> (x == 0),
{
    if x != 0 {
        assert(m * x != 0) by (nonlinear_arith)
            requires
                m > 0,
                x != 0,
        ;
    }
}

/// A common factor cancels from a quotient, and scales the remainder.
pub proof fn lemma_cancel(x: nat, y: nat, m: nat)
    requires
        y > 0,
        m > 0,
    ensures
        (x * m) / (y * m) == x / y,
        (x * m) % (y * m) == m * (x % y),
{
    assert((x * m) / m == x) by {
        lemma_div_multiples_vanish(x as int, m as int);
        assert(m * x == x * m) by (nonlinear_arith);
    }
    assert((x * m) % m == 0) by {
        lemma_mod_multiples_basic(x as int, m as int);
    }
    lemma_div_denominator((x * m) as int, m as int, y as int);
    assert(m * y == y * m) by (nonlinear_arith);
    lemma_breakdown((x * m) as int, m as int, y as int);
}

/// `a * 2^k / b` over a common power of two in the denominator.
pub proof fn lemma_quot_common(a: nat, b: nat, k: int, c: nat)
    requires
        b > 0,
        k + c >= 0,
    ensures
        quot(a, b, k) == (a * pow2((k + c) as nat)) / (b * pow2(c)),
        inexact(a, b, k) == ((a * pow2((k + c) as nat)) % (b * pow2(c)) != 0),
{
    lemma_pow2_pos(c);
    if k >= 0 {
        let x = a * pow2(k as nat);
        lemma_pow2_adds(k as nat, c);
        assert(a * pow2((k + c) as nat) == x * pow2(c)) by (nonlinear_arith)
            requires
                pow2((k + c) as nat) == pow2(k as nat) * pow2(c),
                x == a * pow2(k as nat),
        ;
        lemma_cancel(x, b, pow2(c));
        lemma_mul_nonzero(pow2(c) as int, (x % b) as int);
    } else {
        let j = (k + c) as nat;
        let y = b * pow2((-k) as nat);
        lemma_pow2_pos((-k) as nat);
        lemma_pow2_pos(j);
        lemma_pow2_adds((-k) as nat, j);
        assert((-k) as nat + j == c);
        assert(b * pow2(c) == y * pow2(j)) by (nonlinear_arith)
            requires
                pow2(c) == pow2((-k) as nat) * pow2(j),
                y == b * pow2((-k) as nat),
        ;
        assert(y > 0) by (nonlinear_arith)
            requires
                b > 0,
                pow2((-k) as nat) > 0,
                y == b * pow2((-k) as nat),
        ;
        lemma_cancel(a, y, pow2(j));
        lemma_mul_nonzero(pow2(j) as int, (a % y) as int);
    }
}

/// Dropping `t` low bits of a scaled quotient scales by `2^-t`, and what
/// is dropped joins the inexactness.
pub proof fn lemma_quot_shift(a: nat, b: nat, k: int, t: nat)
    requires
        b > 0,
    ensures
        quot(a, b, k - t) == quot(a, b, k) / pow2(t),
        inexact(a, b, k - t) == (inexact(a, b, k) || quot(a, b, k) % pow2(t) != 0),
{
    let c: nat = if k - t >= 0 {
        0
    } else {
        (t - k) as nat
    };
    lemma_quot_common(a, b, k - t, c);
    lemma_quot_common(a, b, k, c);
    let x = a * pow2((k - t + c) as nat);
    let y = b * pow2(c);
    lemma_pow2_pos(c);
    lemma_pow2_pos(t);
    assert(y > 0) by (nonlinear_arith)
        requires
            b > 0,
            pow2(c) > 0,
            y == b * pow2(c),
    ;
    lemma_pow2_adds((k - t + c) as nat, t);
    assert((k - t + c) as nat + t == (k + c) as nat);
    assert(a * pow2((k + c) as nat) == x * pow2(t)) by (nonlinear_arith)
        requires
            pow2((k + c) as nat) == pow2((k - t + c) as nat) * pow2(t),
            x == a * pow2((k - t + c) as nat),
    ;
    let q = (x * pow2(t)) / y;
    lemma_div_denominator((x * pow2(t)) as int, y as int, pow2(t) as int);
    lemma_cancel(x, y, pow2(t));
    assert(q / pow2(t) == x / y);
    lemma_breakdown((x * pow2(t)) as int, y as int, pow2(t) as int);
    assert((x * pow2(t)) % (y * pow2(t)) == y * (q % pow2(t)) + (x * pow2(t)) % y);
    assert((x % y == 0) <==> (q % pow2(t) == 0 && (x * pow2(t)) % y == 0)) by (nonlinear_arith)
        requires
            pow2(t) * (x % y) == y * (q % pow2(t)) + (x * pow2(t)) % y,
            y > 0,
            pow2(t) > 0,
            q % pow2(t) >= 0,
            (x * pow2(t)) % y >= 0,
            x % y >= 0,
    ;
}

/// The binary exponent of `a / b`: the `e` with `2^e <= a / b < 2^(e+1)`.
pub open spec fn ilog(a: nat, b: nat) -> int {
    choose|e: int| #[trigger] quot(a, b, -e) == 1
}

/// A number between `2^(n-1)` and `2^n` has `1` as its quotient by `2^(n-1)`.
pub proof fn lemma_top_bit(q: nat, n: nat)
    requires
        n >= 1,
        pow2((n - 1) as nat) <= q < pow2(n),
    ensures
        q / pow2((n - 1) as nat) == 1,
{
    let p = pow2((n - 1) as nat);
    vstd::arithmetic::power2::lemma_pow2_unfold(n);
    lemma_pow2_pos((n - 1) as nat);
    lemma_fundamental_div_mod_converse(q as int, p as int, 1, q - p);
}

/// If the scaled quotient at `k` has `n` bits, `a / b` lies in
/// `[2^(n-1-k), 2^(n-k))`.
pub proof fn lemma_ilog(a: nat, b: nat, k: int, n: nat)
    requires
        b > 0,
        n >= 1,
        pow2((n - 1) as nat) <= quot(a, b, k) < pow2(n),
    ensures
        ilog(a, b) == n - 1 - k,
{
    let e0 = n - 1 - k;
    lemma_quot_shift(a, b, k, (n - 1) as nat);
    lemma_top_bit(quot(a, b, k), n);
    assert(k - (n - 1) as nat == -e0);
    assert(quot(a, b, -e0) == 1);
    let e = ilog(a, b);
    assert(quot(a, b, -e) == 1);
    if e < e0 {
        let t = (e0 - e) as nat;
        lemma_quot_shift(a, b, -e, t);
        assert(-e - t == -e0);
        lemma_pow2_strictly_increases(0, t);
        vstd::arithmetic::power2::lemma2_to64();
        assert(1nat / pow2(t) == 0) by (nonlinear_arith)
            requires
                pow2(t) > 1,
        ;
    } else if e > e0 {
        let t = (e - e0) as nat;
        lemma_quot_shift(a, b, -e0, t);
        assert(-e0 - t == -e);
        lemma_pow2_strictly_increases(0, t);
        vstd::arithmetic::power2::lemma2_to64();
        assert(1nat / pow2(t) == 0) by (nonlinear_arith)
            requires
                pow2(t) > 1,
        ;
    }
}

/// Rounds `h / 2` to nearest with ties to even, where the low bit of `h`
/// is the half and `sticky` says that something lies below it.
pub open spec fn round_step(h: nat, sticky: bool) -> nat {
    h / 2 + if h % 2 == 1 && (sticky || (h / 2) % 2 == 1) {
        1nat
    } else {
        0nat
    }
}

/// `v / 2^s` rounded to nearest with ties to even, where `tail` says that
/// something lies below `v`.
pub open spec fn rne(v: nat, s: nat, tail: bool) -> nat {
    if s == 0 {
        v
    } else {
        round_step(v / pow2((s - 1) as nat), tail || v % pow2((s - 1) as nat) != 0)
    }
}

/// Rounding a scaled quotient is rounding the number it was taken of.
pub proof fn lemma_rne_quot(a: nat, b: nat, k: int, s: nat)
    requires
        b > 0,
        s >= 1,
    ensures
        rne(quot(a, b, k), s, inexact(a, b, k)) == round_step(
            quot(a, b, k - (s - 1)),
            inexact(a, b, k - (s - 1)),
        ),
{
    lemma_quot_shift(a, b, k, (s - 1) as nat);
}

/// Zeros appended below a number do not change how it rounds.
pub proof fn lemma_rne_padded(q: nat, j: nat, s: nat, tail: bool)
    requires
        j < s,
    ensures
        rne(q * pow2(j), s, tail) == rne(q, (s - j) as nat, tail),
{
    let u = (s - 1 - j) as nat;
    lemma_pow2_pos(j);
    lemma_pow2_pos(u);
    lemma_pow2_adds(u, j);
    assert(u + j == (s - 1) as nat);
    assert(((s - j) as nat - 1) as nat == u);
    lemma_cancel(q, pow2(u), pow2(j));
    lemma_mul_nonzero(pow2(j) as int, (q % pow2(u)) as int);
}

/// A 64-bit shift with rounding is [`rne`].
pub proof fn lemma_rounded_shift_rne(v: u64, s: u32, tail: bool)
    ensures
        crate::utils::float_parse::rounded_shift(v, s, tail) == rne(v as nat, s as nat, tail),
{
    if s == 0 {
    } else if s > 64 {
        vstd::arithmetic::power2::lemma2_to64();
        if 64 < (s - 1) as nat {
            lemma_pow2_strictly_increases(64, (s - 1) as nat);
        }
        assert(v < pow2((s - 1) as nat));
        assert((v as nat) / pow2((s - 1) as nat) == 0) by (nonlinear_arith)
            requires
                v < pow2((s - 1) as nat),
        ;
    } else {
        let h = pow2((s - 1) as nat);
        lemma_pow2_pos((s - 1) as nat);
        vstd::arithmetic::power2::lemma_pow2_unfold(s as nat);
        assert(pow2(s as nat) == h * 2);
        let hh = (v as nat) / h;
        let lo = (v as nat) % h;
        lemma_div_denominator(v as int, h as int, 2);
        lemma_breakdown(v as int, h as int, 2);
        let q = (v as nat) / pow2(s as nat);
        let r = (v as nat) % pow2(s as nat);
        assert(q == hh / 2);
        assert(r == h * (hh % 2) + lo);
        assert(lo < h);
        assert((r >= h) <==> (hh % 2 == 1)) by (nonlinear_arith)
            requires
                r == h * (hh % 2) + lo,
                lo < h,
                0 <= hh % 2 < 2,
        ;
        assert((r > h) <==> (hh % 2 == 1 && lo != 0)) by (nonlinear_arith)
            requires
                r == h * (hh % 2) + lo,
                lo < h,
                0 <= hh % 2 < 2,
        ;
    }
}

/// The lowest binary exponent of a format with `mbits` significant bits
/// and exponent bias `bias`: that of its least subnormal.
pub open spec fn min_exp(mbits: nat, bias: nat) -> int {
    2 - bias - mbits
}

/// The bits of positive infinity in such a format.
pub open spec fn inf_bits(mbits: nat, bias: nat) -> nat {
    (2 * bias + 1) * pow2((mbits - 1) as nat)
}

/// The formats this crate rounds to: binary64 and binary32.
pub open spec fn is_format(mbits: nat, bias: nat) -> bool {
    (mbits == 53 && bias == 1023) || (mbits == 24 && bias == 127)
}

/// The bits of the positive float nearest to `a / b` (ties to even), with
/// subnormals, and infinity where it rounds past the largest finite value.
pub open spec fn nearest_bits(a: nat, b: nat, mbits: nat, bias: nat) -> nat {
    let e = ilog(a, b);
    let lo = min_exp(mbits, bias);
    let ee = if e - (mbits - 1) >= lo {
        e - (mbits - 1)
    } else {
        lo
    };
    let m = round_step(quot(a, b, 1 - ee), inexact(a, b, 1 - ee));
    let raw = m + ((ee - lo) as nat) * pow2((mbits - 1) as nat);
    if raw >= inf_bits(mbits, bias) {
        inf_bits(mbits, bias)
    } else {
        raw
    }
}

/// An exact quotient scales up exactly.
pub proof fn lemma_quot_exact_up(a: nat, b: nat, k: int, j: nat)
    requires
        b > 0,
        !inexact(a, b, k),
    ensures
        quot(a, b, k + j) == quot(a, b, k) * pow2(j),
        !inexact(a, b, k + j),
{
    lemma_quot_shift(a, b, k + j, j);
    assert(k + j - j == k);
    let q = quot(a, b, k + j);
    lemma_pow2_pos(j);
    vstd::arithmetic::div_mod::lemma_fundamental_div_mod(q as int, pow2(j) as int);
    assert(q == pow2(j) * (q / pow2(j)));
    assert(q == quot(a, b, k) * pow2(j)) by (nonlinear_arith)
        requires
            q == pow2(j) * (q / pow2(j)),
            q / pow2(j) == quot(a, b, k),
    ;
}

/// The last step of rounding: from the top bits of `a / b`, held as `q`
/// followed by `j` zero bits, scaled so that the top of 64 bits is set, and
/// whether anything lies below `q`, to the bits of the nearest float. `e`
/// is the binary exponent of `a / b`.
pub proof fn lemma_encode(
    a: nat,
    b: nat,
    q: nat,
    j: nat,
    tail: bool,
    e: int,
    mbits: nat,
    bias: nat,
)
    requires
        b > 0,
        is_format(mbits, bias),
        j + mbits <= 63,
        q == quot(a, b, 63 - e - j),
        tail == inexact(a, b, 63 - e - j),
        pow2((63 - j) as nat) <= q < pow2((64 - j) as nat),
    ensures
        ilog(a, b) == e,
        e > bias ==> nearest_bits(a, b, mbits, bias) == inf_bits(mbits, bias),
        e <= -(bias as int) ==> nearest_bits(a, b, mbits, bias) == rne(
            q * pow2(j),
            (64 - mbits + 1 - bias - e) as nat,
            tail,
        ),
        -(bias as int) < e <= bias ==> nearest_bits(a, b, mbits, bias) == rne(
            q * pow2(j),
            (64 - mbits) as nat,
            tail,
        ) + ((e + bias - 1) as nat) * pow2((mbits - 1) as nat),
{
    let k = 63 - e - j;
    lemma_ilog(a, b, k, (64 - j) as nat);
    assert((64 - j) as nat - 1 - k == e);
    let p = pow2((mbits - 1) as nat);
    let lo = min_exp(mbits, bias);
    lemma_pow2_pos((mbits - 1) as nat);
    assert(inf_bits(mbits, bias) == (2 * bias + 1) * p);
    let pm = pow2(mbits);
    vstd::arithmetic::power2::lemma_pow2_unfold(mbits);
    assert(pm == 2 * p);
    if e > -(bias as int) {
        let s = (64 - mbits) as nat;
        let t = (63 - mbits - j) as nat;
        let d = pow2(t);
        lemma_rne_padded(q, j, s, tail);
        lemma_rne_quot(a, b, k, (s - j) as nat);
        assert(k - ((s - j) as nat - 1) == mbits - e);
        lemma_quot_shift(a, b, k, t);
        assert(k - t == mbits - e);
        let h = quot(a, b, mbits - e);
        assert(h == q / d);
        lemma_pow2_pos(t);
        lemma_pow2_adds(mbits, t);
        lemma_pow2_adds(mbits + 1, t);
        assert(mbits + t == (63 - j) as nat);
        assert(mbits + 1 + t == (64 - j) as nat);
        vstd::arithmetic::power2::lemma_pow2_unfold(mbits + 1);
        assert(pow2(mbits + 1) == 2 * pm);
        assert(pow2((63 - j) as nat) == pm * d);
        assert(pow2((64 - j) as nat) == 2 * pm * d);
        assert(pm <= h < 2 * pm) by (nonlinear_arith)
            requires
                pm * d <= q < 2 * pm * d,
                d > 0,
                h == q / d,
        ;
        let m = round_step(h, inexact(a, b, mbits - e));
        assert(p <= m <= 2 * p);
        let ee = e - (mbits - 1);
        assert(ee >= lo);
        assert(1 - ee == mbits - e);
        assert((ee - lo) as nat == (e + bias - 1) as nat);
        let raw = m + ((e + bias - 1) as nat) * p;
        if e > bias {
            assert(raw >= (2 * bias + 1) * p) by (nonlinear_arith)
                requires
                    raw == m + ((e + bias - 1) as nat) * p,
                    m >= p,
                    e > bias,
                    p > 0,
            ;
        } else {
            assert(raw <= (2 * bias + 1) * p) by (nonlinear_arith)
                requires
                    raw == m + ((e + bias - 1) as nat) * p,
                    m <= 2 * p,
                    e <= bias,
                    e + bias - 1 >= 0,
                    p > 0,
            ;
        }
    } else {
        let s = (64 - mbits + 1 - bias - e) as nat;
        let t = (s - 1 - j) as nat;
        let d = pow2(t);
        lemma_rne_padded(q, j, s, tail);
        lemma_rne_quot(a, b, k, (s - j) as nat);
        assert(k - ((s - j) as nat - 1) == mbits + bias - 1);
        assert(1 - lo == mbits + bias - 1);
        lemma_quot_shift(a, b, k, t);
        assert(k - t == mbits + bias - 1);
        let h = quot(a, b, mbits + bias - 1);
        assert(h == q / d);
        lemma_pow2_pos(t);
        let w0 = (64 - mbits - j) as nat;
        lemma_pow2_adds(mbits, w0);
        assert(mbits + w0 == (64 - j) as nat);
        if w0 < t {
            lemma_pow2_strictly_increases(w0, t);
        }
        let d0 = pow2(w0);
        assert(q < pm * d) by (nonlinear_arith)
            requires
                q < pm * d0,
                d0 <= d,
                pm > 0,
        ;
        assert(h < pm) by (nonlinear_arith)
            requires
                q < pm * d,
                d > 0,
                h == q / d,
        ;
        let m = round_step(h, inexact(a, b, mbits + bias - 1));
        assert(m <= p);
        assert(m < (2 * bias + 1) * p) by (nonlinear_arith)
            requires
                m <= p,
                p > 0,
                bias >= 1,
        ;
        assert(e - (mbits - 1) < lo);
        let z = (lo - lo) as nat;
        assert(z == 0);
        assert(z * p == 0) by (nonlinear_arith)
            requires
                z == 0,
        ;
        assert(rne(q * pow2(j), s, tail) == m);
        assert(nearest_bits(a, b, mbits, bias) == m);
    }
}

} // verus!
