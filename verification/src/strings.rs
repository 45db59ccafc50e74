//! Comparing strings and taking prefixes and suffixes off them.
use vstd::prelude::*;
use vstd::string::StrSliceExecFns;
use std::cmp::Ordering;
use vstd::utf8::{
    encode_scalar, encode_utf8, has_width_1_encoding, has_width_2_encoding, has_width_3_encoding,
    has_width_4_encoding, is_scalar, last_continuation_byte, leading_byte_width_1, leading_byte_width_2,
    leading_byte_width_3, leading_byte_width_4, second_last_continuation_byte, third_last_continuation_byte,
};

verus! {

/// Whether `a` comes before `b` in lexicographic order of characters.
pub open spec fn chars_less(a: Seq<char>, b: Seq<char>) -> bool
    decreases a.len(),
{
    if b.len() == 0 {
        false
    } else if a.len() == 0 {
        true
    } else if a[0] != b[0] {
        a[0] < b[0]
    } else {
        chars_less(a.drop_first(), b.drop_first())
    }
}

/// Whether `p` is a prefix of `s`.
pub open spec fn has_prefix(s: Seq<char>, p: Seq<char>) -> bool {
    p.len() <= s.len() && s.subrange(0, p.len() as int) == p
}

/// Whether `x` is a suffix of `s`.
pub open spec fn has_suffix(s: Seq<char>, x: Seq<char>) -> bool {
    x.len() <= s.len() && s.subrange(s.len() - x.len(), s.len() as int) == x
}

/// Whether the characters of `a` and `b` agree on `a[from..from + n]` and
/// `b[to..to + n]`.
fn chars_match(a: &str, from: usize, b: &str, to: usize, n: usize) -> (r: bool)
    requires
        from + n <= a@.len(),
        to + n <= b@.len(),
    ensures
        r == (a@.subrange(from as int, from + n) == b@.subrange(to as int, to + n)),
{
    let la = a.unicode_len();
    let lb = b.unicode_len();
    let mut k: usize = 0;
    while k < n
        invariant
            k <= n,
            la == a@.len(),
            lb == b@.len(),
            from + n <= a@.len(),
            to + n <= b@.len(),
            a@.subrange(from as int, from + k) == b@.subrange(to as int, to + k),
        decreases n - k,
    {
        if a.get_char(from + k) != b.get_char(to + k) {
            assert(a@.subrange(from as int, from + n)[k as int] != b@.subrange(to as int, to + n)[k as int]);
            return false;
        }
        assert(a@.subrange(from as int, from + k + 1) =~= a@.subrange(from as int, from + k).push(a@[from + k]));
        assert(b@.subrange(to as int, to + k + 1) =~= b@.subrange(to as int, to + k).push(b@[to + k]));
        k = k + 1;
    }
    true
}

/// Whether two strings hold the same text.
pub fn str_equal(a: &str, b: &str) -> (r: bool)
    ensures
        r == (a@ == b@),
{
    let n = a.unicode_len();
    if n != b.unicode_len() {
        return false;
    }
    let r = chars_match(a, 0, b, 0, n);
    assert(a@.subrange(0, n as int) =~= a@);
    assert(b@.subrange(0, n as int) =~= b@);
    r
}

/// Whether `a` comes before `b` in lexicographic order.
pub fn str_less(a: &str, b: &str) -> (r: bool)
    ensures
        r == chars_less(a@, b@),
{
    let na = a.unicode_len();
    let nb = b.unicode_len();
    let mut k: usize = 0;
    assert(a@.skip(0) =~= a@);
    assert(b@.skip(0) =~= b@);
    while k < na && k < nb
        invariant
            k <= na,
            k <= nb,
            na == a@.len(),
            nb == b@.len(),
            chars_less(a@, b@) == chars_less(a@.skip(k as int), b@.skip(k as int)),
        decreases na - k,
    {
        let ca = a.get_char(k);
        let cb = b.get_char(k);
        if ca != cb {
            return ca < cb;
        }
        assert(a@.skip(k as int).drop_first() =~= a@.skip(k + 1));
        assert(b@.skip(k as int).drop_first() =~= b@.skip(k + 1));
        k = k + 1;
    }
    k < nb
}

/// The order of two texts: lexicographic by characters.
pub open spec fn text_order(a: Seq<char>, b: Seq<char>) -> Ordering {
    if chars_less(a, b) {
        Ordering::Less
    } else if a == b {
        Ordering::Equal
    } else {
        Ordering::Greater
    }
}

/// The opposite order.
pub open spec fn reverse_order(o: Ordering) -> Ordering {
    match o {
        Ordering::Less => Ordering::Greater,
        Ordering::Equal => Ordering::Equal,
        Ordering::Greater => Ordering::Less,
    }
}

/// Three-way comparison of two strings in lexicographic order.
pub fn str_cmp(a: &str, b: &str) -> (r: Ordering)
    ensures
        r == text_order(a@, b@),
        (r == Ordering::Less) == bytes_less(encode_utf8(a@), encode_utf8(b@)),
        (r == Ordering::Greater) == bytes_less(encode_utf8(b@), encode_utf8(a@)),
        (r == Ordering::Less) == chars_less(a@, b@),
        (r == Ordering::Equal) == (a@ == b@),
        (r == Ordering::Greater) == chars_less(b@, a@),
{
    proof {
        lemma_chars_less_total(a@, b@);
        lemma_chars_less_utf8(a@, b@);
        lemma_chars_less_utf8(b@, a@);
    }
    if str_less(a, b) {
        Ordering::Less
    } else if str_equal(a, b) {
        Ordering::Equal
    } else {
        Ordering::Greater
    }
}

/// Lexicographic order is a strict total order.
pub proof fn lemma_chars_less_total(a: Seq<char>, b: Seq<char>)
    ensures
        !(chars_less(a, b) && chars_less(b, a)),
        a == b ==> !chars_less(a, b),
        a != b ==> chars_less(a, b) || chars_less(b, a),
    decreases a.len(),
{
    if a.len() == 0 && b.len() == 0 {
        assert(a =~= b);
    }
    if a.len() > 0 && b.len() > 0 && a[0] == b[0] {
        lemma_chars_less_total(a.drop_first(), b.drop_first());
        if a.drop_first() == b.drop_first() {
            assert(a =~= seq![a[0]] + a.drop_first());
            assert(b =~= seq![b[0]] + b.drop_first());
        }
    }
}

/// Swapping two texts reverses their order, and they are equal exactly when
/// neither comes first.
pub proof fn lemma_text_order_reverse(a: Seq<char>, b: Seq<char>)
    ensures
        text_order(b, a) == reverse_order(text_order(a, b)),
        (text_order(a, b) == Ordering::Equal) == (a == b),
        (text_order(a, b) == Ordering::Less) == chars_less(a, b),
{
    lemma_chars_less_total(a, b);
    lemma_chars_less_total(b, a);
}

/// Whether `a` comes before `b` in lexicographic order of bytes.
pub open spec fn bytes_less(a: Seq<u8>, b: Seq<u8>) -> bool
    decreases a.len(),
{
    if b.len() == 0 {
        false
    } else if a.len() == 0 {
        true
    } else if a[0] != b[0] {
        a[0] < b[0]
    } else {
        bytes_less(a.drop_first(), b.drop_first())
    }
}

/// Byte order of two sequences that agree up to `k` and differ there.
proof fn lemma_bytes_less_diff(u: Seq<u8>, v: Seq<u8>, k: int)
    requires
        0 <= k < u.len(),
        k < v.len(),
        forall|i: int| 0 <= i < k ==> u[i] == v[i],
        u[k] != v[k],
    ensures
        bytes_less(u, v) == (u[k] < v[k]),
    decreases k,
{
    if k > 0 {
        assert forall|i: int| 0 <= i < k - 1 implies u.drop_first()[i] == v.drop_first()[i] by {
            assert(u[i + 1] == v[i + 1]);
        }
        lemma_bytes_less_diff(u.drop_first(), v.drop_first(), k - 1);
    }
}

/// A common first part does not change byte order.
proof fn lemma_bytes_less_common(e: Seq<u8>, r1: Seq<u8>, r2: Seq<u8>)
    ensures
        bytes_less(e + r1, e + r2) == bytes_less(r1, r2),
    decreases e.len(),
{
    if e.len() > 0 {
        assert((e + r1).drop_first() =~= e.drop_first() + r1);
        assert((e + r2).drop_first() =~= e.drop_first() + r2);
        lemma_bytes_less_common(e.drop_first(), r1, r2);
    } else {
        assert(e + r1 =~= r1);
        assert(e + r2 =~= r2);
    }
}

/// The leading byte of each width of encoding lies in its own range, the
/// ranges rising with the width.
proof fn lemma_leading_ranges(v: u32)
    by (bit_vector)
    ensures
        has_width_1_encoding(v) ==> leading_byte_width_1(v) <= 0x7F,
        has_width_2_encoding(v) ==> 0xC0 <= leading_byte_width_2(v) <= 0xDF,
        has_width_3_encoding(v) ==> 0xE0 <= leading_byte_width_3(v) <= 0xEF,
        has_width_4_encoding(v) ==> 0xF0 <= leading_byte_width_4(v) <= 0xF7,
        has_width_1_encoding(v) ==> leading_byte_width_1(v) == v,
{
}

/// Two-byte encodings are ordered as their values.
proof fn lemma_width_2_order(x: u32, y: u32)
    by (bit_vector)
    requires
        has_width_2_encoding(x),
        has_width_2_encoding(y),
        x < y,
    ensures
        leading_byte_width_2(x) < leading_byte_width_2(y) || (leading_byte_width_2(x) == leading_byte_width_2(y)
            && last_continuation_byte(x) < last_continuation_byte(y)),
{
}

/// Three-byte encodings are ordered as their values.
proof fn lemma_width_3_order(x: u32, y: u32)
    by (bit_vector)
    requires
        has_width_3_encoding(x),
        has_width_3_encoding(y),
        x < y,
    ensures
        leading_byte_width_3(x) < leading_byte_width_3(y) || (leading_byte_width_3(x) == leading_byte_width_3(y)
            && second_last_continuation_byte(x) < second_last_continuation_byte(y)) || (leading_byte_width_3(x)
            == leading_byte_width_3(y) && second_last_continuation_byte(x) == second_last_continuation_byte(y)
            && last_continuation_byte(x) < last_continuation_byte(y)),
{
}

/// Four-byte encodings are ordered as their values.
proof fn lemma_width_4_order(x: u32, y: u32)
    by (bit_vector)
    requires
        has_width_4_encoding(x),
        has_width_4_encoding(y),
        x < y,
    ensures
        leading_byte_width_4(x) < leading_byte_width_4(y) || (leading_byte_width_4(x) == leading_byte_width_4(y)
            && third_last_continuation_byte(x) < third_last_continuation_byte(y)) || (leading_byte_width_4(x)
            == leading_byte_width_4(y) && third_last_continuation_byte(x) == third_last_continuation_byte(y)
            && second_last_continuation_byte(x) < second_last_continuation_byte(y)) || (leading_byte_width_4(x)
            == leading_byte_width_4(y) && third_last_continuation_byte(x) == third_last_continuation_byte(y)
            && second_last_continuation_byte(x) == second_last_continuation_byte(y) && last_continuation_byte(x)
            < last_continuation_byte(y)),
{
}

/// The encoding of a smaller scalar first differs from that of a larger one
/// at a byte that is smaller; neither is a first part of the other.
proof fn lemma_scalar_order(x: u32, y: u32) -> (k: int)
    requires
        is_scalar(x),
        is_scalar(y),
        x < y,
    ensures
        0 <= k < encode_scalar(x).len(),
        k < encode_scalar(y).len(),
        forall|i: int| 0 <= i < k ==> encode_scalar(x)[i] == encode_scalar(y)[i],
        encode_scalar(x)[k] < encode_scalar(y)[k],
{
    lemma_leading_ranges(x);
    lemma_leading_ranges(y);
    let ex = encode_scalar(x);
    let ey = encode_scalar(y);
    if has_width_2_encoding(x) && has_width_2_encoding(y) {
        lemma_width_2_order(x, y);
        if ex[0] < ey[0] {
            0
        } else {
            1
        }
    } else if has_width_3_encoding(x) && has_width_3_encoding(y) {
        lemma_width_3_order(x, y);
        if ex[0] < ey[0] {
            0
        } else if ex[1] < ey[1] {
            1
        } else {
            2
        }
    } else if has_width_4_encoding(x) && has_width_4_encoding(y) {
        lemma_width_4_order(x, y);
        if ex[0] < ey[0] {
            0
        } else if ex[1] < ey[1] {
            1
        } else if ex[2] < ey[2] {
            2
        } else {
            3
        }
    } else {
        0
    }
}

/// Texts are in the same order by characters as by the bytes of their UTF-8
/// encodings.
pub proof fn lemma_chars_less_utf8(a: Seq<char>, b: Seq<char>)
    ensures
        chars_less(a, b) == bytes_less(encode_utf8(a), encode_utf8(b)),
    decreases a.len(),
{
    if b.len() == 0 {
    } else if a.len() == 0 {
        vstd::utf8::char_is_scalar(b[0]);
        assert(encode_utf8(b).len() > 0);
    } else {
        let x = a[0] as u32;
        let y = b[0] as u32;
        vstd::utf8::char_is_scalar(a[0]);
        vstd::utf8::char_is_scalar(b[0]);
        let ea = encode_utf8(a);
        let eb = encode_utf8(b);
        assert(ea == encode_scalar(x) + encode_utf8(a.drop_first()));
        assert(eb == encode_scalar(y) + encode_utf8(b.drop_first()));
        if a[0] == b[0] {
            lemma_chars_less_utf8(a.drop_first(), b.drop_first());
            lemma_bytes_less_common(encode_scalar(x), encode_utf8(a.drop_first()), encode_utf8(b.drop_first()));
            assert(chars_less(a, b) == chars_less(a.drop_first(), b.drop_first()));
        } else if x < y {
            vstd::utf8::char_u32_cast(a[0], x);
            vstd::utf8::char_u32_cast(b[0], y);
            let k = lemma_scalar_order(x, y);
            assert forall|i: int| 0 <= i < k implies ea[i] == eb[i] by {
                assert(ea[i] == encode_scalar(x)[i]);
                assert(eb[i] == encode_scalar(y)[i]);
            }
            assert(ea[k] == encode_scalar(x)[k]);
            assert(eb[k] == encode_scalar(y)[k]);
            lemma_bytes_less_diff(ea, eb, k);
            assert(bytes_less(ea, eb));
            assert(a[0] < b[0]);
        } else {
            vstd::utf8::char_u32_cast(a[0], x);
            vstd::utf8::char_u32_cast(b[0], y);
            let k = lemma_scalar_order(y, x);
            assert forall|i: int| 0 <= i < k implies eb[i] == ea[i] by {
                assert(ea[i] == encode_scalar(x)[i]);
                assert(eb[i] == encode_scalar(y)[i]);
            }
            assert(ea[k] == encode_scalar(x)[k]);
            assert(eb[k] == encode_scalar(y)[k]);
            lemma_bytes_less_diff(ea, eb, k);
            assert(!bytes_less(ea, eb));
            assert(!(a[0] < b[0]));
        }
    }
}

/// Lexicographic order is transitive.
pub proof fn lemma_chars_less_trans(a: Seq<char>, b: Seq<char>, c: Seq<char>)
    requires
        chars_less(a, b),
        chars_less(b, c),
    ensures
        chars_less(a, c),
    decreases a.len(),
{
    if a.len() > 0 && a[0] == b[0] && b[0] == c[0] {
        lemma_chars_less_trans(a.drop_first(), b.drop_first(), c.drop_first());
    }
}

/// Whether `s` starts with `prefix`.
pub fn starts_with(s: &str, prefix: &str) -> (r: bool)
    ensures
        r == has_prefix(s@, prefix@),
{
    let n = s.unicode_len();
    let m = prefix.unicode_len();
    if m > n {
        return false;
    }
    let r = chars_match(s, 0, prefix, 0, m);
    assert(prefix@.subrange(0, m as int) =~= prefix@);
    r
}

/// Whether `s` ends with `suffix`.
pub fn ends_with(s: &str, suffix: &str) -> (r: bool)
    ensures
        r == has_suffix(s@, suffix@),
{
    let n = s.unicode_len();
    let m = suffix.unicode_len();
    if m > n {
        return false;
    }
    let r = chars_match(s, n - m, suffix, 0, m);
    assert(suffix@.subrange(0, m as int) =~= suffix@);
    r
}

/// `s` without `prefix`, when it starts with it.
pub fn remove_prefix<'a>(s: &'a str, prefix: &str) -> (r: Option<&'a str>)
    ensures
        has_prefix(s@, prefix@) ==> (r matches Some(t) && t@ == s@.skip(prefix@.len() as int)),
        !has_prefix(s@, prefix@) ==> r is None,
{
    if starts_with(s, prefix) {
        let n = s.unicode_len();
        let m = prefix.unicode_len();
        let t = s.substring_char(m, n);
        assert(t@ =~= s@.skip(prefix@.len() as int));
        Some(t)
    } else {
        None
    }
}

/// `s` without `suffix`, when it ends with it.
pub fn remove_suffix<'a>(s: &'a str, suffix: &str) -> (r: Option<&'a str>)
    ensures
        has_suffix(s@, suffix@) ==> (r matches Some(t) && t@ == s@.subrange(0, s@.len() - suffix@.len())),
        !has_suffix(s@, suffix@) ==> r is None,
{
    if ends_with(s, suffix) {
        let n = s.unicode_len();
        let m = suffix.unicode_len();
        let t = s.substring_char(0, n - m);
        Some(t)
    } else {
        None
    }
}

} // verus!
