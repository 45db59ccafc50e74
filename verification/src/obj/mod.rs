//! Index handling of Wavefront OBJ faces: resolving one-based and negative
//! indices, and reading `v/vt/vn` face corners.
pub mod lines;
pub mod mesh;
pub mod material;
pub mod mtl;
pub mod parser;

use vstd::prelude::*;
use vstd::string::StringSliceAdditionalSpecFns;
use crate::binary::{lossy_text, text_of};
use crate::error::Error;
use crate::text::push_str;
use crate::utils::float_parse::{decimal_value, is_digit};

verus! {

/// The zero-based index that the OBJ index `index` names among `count`
/// elements: `1` is the first and `count` the last, `-1` the last and
/// `-count` the first; `0` and anything beyond names nothing.
pub open spec fn obj_index(index: i64, count: nat) -> Option<nat> {
    if 0 < index <= count {
        Some((index - 1) as nat)
    } else if index < 0 && -index <= count {
        Some((count + index) as nat)
    } else {
        None
    }
}

/// Resolves an OBJ index to a zero-based index among `count` elements.
pub fn resolve_obj_index(index: i64, count: usize) -> (r: Option<usize>)
    ensures
        r matches Some(i) ==> obj_index(index, count as nat) == Some(i as nat),
        r is None ==> obj_index(index, count as nat) is None,
{
    if index == 0 {
        None
    } else if index > 0 {
        let idx = (index - 1) as u64;
        if idx < count as u64 {
            Some(idx as usize)
        } else {
            None
        }
    } else {
        let back = (-(index + 1)) as u64 + 1;
        if back <= count as u64 {
            Some((count as u64 - back) as usize)
        } else {
            None
        }
    }
}

/// Whether every byte of `s` is a decimal digit.
pub open spec fn all_digits(s: Seq<u8>) -> bool {
    forall|i: int| 0 <= i < s.len() ==> is_digit(#[trigger] s[i])
}

/// The signed decimal integer that the whole of `s` spells: an optional `+`
/// or `-`, then one or more digits; `None` for anything else.
pub open spec fn signed_decimal_text(s: Seq<u8>) -> Option<int> {
    let start: int = if s.len() > 0 && (s[0] == 0x2B || s[0] == 0x2D) { 1 } else { 0 };
    let digits = s.subrange(start, s.len() as int);
    if digits.len() == 0 || !all_digits(digits) {
        None
    } else if start == 1 && s[0] == 0x2D {
        Some(-decimal_value(digits))
    } else {
        Some(decimal_value(digits) as int)
    }
}

/// What parsing all of `s` as an `i64` gives: the integer it spells when
/// that lies in the `i64` range.
pub open spec fn i64_text(s: Seq<u8>) -> Option<i64> {
    match signed_decimal_text(s) {
        Some(v) => if i64::MIN <= v <= i64::MAX {
            Some(v as i64)
        } else {
            None
        },
        None => None,
    }
}

/// The value of the digits before a position grows by a digit at a time.
proof fn lemma_decimal_value_step(s: Seq<u8>, i: int)
    requires
        0 <= i < s.len(),
        is_digit(s[i]),
    ensures
        decimal_value(s.subrange(0, i + 1)) == decimal_value(s.subrange(0, i)) * 10 + (s[i] - 0x30),
{
    assert(s.subrange(0, i + 1).drop_last() =~= s.subrange(0, i));
}

/// The value of all digits is at least that of a first part of them.
proof fn lemma_decimal_value_grows(s: Seq<u8>, i: int)
    requires
        0 <= i <= s.len(),
        all_digits(s),
    ensures
        decimal_value(s.subrange(0, i)) <= decimal_value(s),
    decreases s.len() - i,
{
    if i < s.len() {
        lemma_decimal_value_grows(s, i + 1);
        lemma_decimal_value_step(s, i);
        assert(is_digit(s[i]));
    } else {
        assert(s.subrange(0, i) =~= s);
    }
}

/// Parses all of `text[start..end]` as an `i64`, as `str::parse::<i64>`
/// does: an optional sign, then digits only.
pub fn parse_i64_text(text: &[u8], start: usize, end: usize) -> (r: Option<i64>)
    requires
        start <= end <= text@.len(),
    ensures
        r == i64_text(text@.subrange(start as int, end as int)),
{
    let ghost s = text@.subrange(start as int, end as int);
    if start == end {
        return None;
    }
    let negative = text[start] == 0x2D;
    let signed = negative || text[start] == 0x2B;
    let first: usize = if signed { start + 1 } else { start };
    let ghost digits = s.subrange(first - start, s.len() as int);
    assert(s[0] == text@[start as int]);
    if first == end {
        return None;
    }
    let limit: u128 = if negative { 0x8000_0000_0000_0000 } else { 0x7FFF_FFFF_FFFF_FFFF };
    let mut acc: u128 = 0;
    let mut i: usize = first;
    while i < end
        invariant
            start <= first < end <= text@.len(),
            first <= i <= end,
            s == text@.subrange(start as int, end as int),
            s[0] == text@[start as int],
            negative == (text@[start as int] == 0x2D),
            signed == (negative || text@[start as int] == 0x2B),
            first == (if signed { start + 1 } else { start as int }),
            digits == s.subrange(first - start, s.len() as int),
            digits.len() == end - first,
            forall|k: int| 0 <= k < i - first ==> is_digit(#[trigger] digits[k]),
            acc == decimal_value(digits.subrange(0, i - first)),
            acc <= limit,
            limit == (if negative { 0x8000_0000_0000_0000u128 } else { 0x7FFF_FFFF_FFFF_FFFFu128 }),
        decreases end - i,
    {
        let c = text[i];
        assert(digits[i - first] == c);
        if c < 0x30 || c > 0x39 {
            assert(!all_digits(digits)) by {
                assert(!is_digit(digits[i - first]));
            }
            return None;
        }
        proof {
            lemma_decimal_value_step(digits, i - first);
        }
        acc = acc * 10 + (c - 0x30) as u128;
        if acc > limit {
            proof {
                if all_digits(digits) {
                    lemma_decimal_value_grows(digits, i + 1 - first);
                }
            }
            return None;
        }
        i = i + 1;
    }
    proof {
        assert(digits.subrange(0, i - first) =~= digits);
        assert(all_digits(digits));
    }
    if negative {
        if acc == 0x8000_0000_0000_0000 {
            Some(i64::MIN)
        } else {
            Some(-(acc as i64))
        }
    } else {
        Some(acc as i64)
    }
}

/// Number of bytes before the first `/` of `s`, or all of them.
pub open spec fn slash_at(s: Seq<u8>) -> nat
    decreases s.len(),
{
    if s.len() == 0 || s[0] == 0x2F {
        0
    } else {
        1 + slash_at(s.drop_first())
    }
}

/// Where the first `/` of `s` stands, and that none comes before it.
pub proof fn lemma_slash_at(s: Seq<u8>)
    ensures
        slash_at(s) <= s.len(),
        slash_at(s) < s.len() ==> s[slash_at(s) as int] == 0x2F,
        forall|k: int| 0 <= k < slash_at(s) ==> s[k] != 0x2F,
    decreases s.len(),
{
    if s.len() > 0 && s[0] != 0x2F {
        lemma_slash_at(s.drop_first());
        assert forall|k: int| 0 <= k < slash_at(s) implies s[k] != 0x2F by {
            if k > 0 {
                assert(s[k] == s.drop_first()[k - 1]);
            }
        }
    }
}

/// Field `k` of `s` split at each `/`, when `s` has that many.
pub open spec fn slash_field(s: Seq<u8>, k: nat) -> Option<Seq<u8>>
    decreases s.len(), k,
{
    let n = slash_at(s);
    if k == 0 {
        Some(s.subrange(0, n as int))
    } else if n >= s.len() {
        None
    } else {
        proof {
            lemma_slash_at(s);
        }
        slash_field(s.subrange(n + 1int, s.len() as int), (k - 1) as nat)
    }
}

/// Index of the first `/` in `text` from `from`, or the length.
fn find_slash(text: &[u8], from: usize) -> (r: usize)
    requires
        from <= text@.len(),
    ensures
        r == from + slash_at(text@.subrange(from as int, text@.len() as int)),
{
    let mut i = from;
    let ghost t = text@.subrange(from as int, text@.len() as int);
    proof {
        lemma_slash_at(t);
    }
    while i < text.len() && text[i] != 0x2F
        invariant
            from <= i <= text@.len(),
            t == text@.subrange(from as int, text@.len() as int),
            i - from <= slash_at(t),
            slash_at(t) <= t.len(),
            slash_at(t) < t.len() ==> t[slash_at(t) as int] == 0x2F,
            forall|k: int| 0 <= k < slash_at(t) ==> t[k] != 0x2F,
        decreases text@.len() - i,
    {
        assert(t[i - from] == text@[i as int]);
        i = i + 1;
    }
    proof {
        if i - from < slash_at(t) {
            if i < text@.len() {
                assert(t[i - from] == text@[i as int]);
            }
        }
    }
    i
}

/// What the corner field `part` gives: nothing when it is empty, the
/// resolved index when it spells an `i64`, and a failure otherwise.
pub open spec fn corner_field(part: Option<Seq<u8>>, count: nat) -> Option<Option<Option<nat>>> {
    match part {
        None => Some(None),
        Some(p) => if p.len() == 0 {
            Some(None)
        } else {
            match i64_text(p) {
                Some(v) => Some(Some(obj_index(v, count))),
                None => None,
            }
        },
    }
}

/// A corner of an OBJ face: the zero-based indices of its position, texture
/// coordinate and normal, each absent or out of range as `None`.
#[derive(Debug, Clone, Copy, Default)]
pub struct FaceVertex {
    pub position: Option<usize>,
    pub uv: Option<usize>,
    pub normal: Option<usize>,
}

/// The index that a resolved corner field holds.
pub open spec fn field_index(f: Option<Option<Option<nat>>>) -> Option<nat> {
    match f {
        Some(Some(i)) => i,
        _ => None,
    }
}

/// Whether `got` holds the index `want`.
pub open spec fn same_index(got: Option<usize>, want: Option<nat>) -> bool {
    match (got, want) {
        (Some(a), Some(b)) => a as nat == b,
        (None, None) => true,
        _ => false,
    }
}

/// The index `i` holds, as a `usize`.
pub open spec fn index_usize(i: Option<nat>) -> Option<usize> {
    match i {
        Some(k) => Some(k as usize),
        None => None,
    }
}

/// The face corner that the text `b` spells, such as `1/2/3`, `1//3`, `1/2`
/// or `1`, against the numbers of positions, texture coordinates and
/// normals so far; or the error it gives, which quotes the first field
/// that is not an integer. Fields past the third are ignored and an empty
/// field gives no index.
pub open spec fn face_corner(b: Seq<u8>, pos_count: nat, uv_count: nat, norm_count: nat) -> Result<
    FaceVertex,
    Seq<char>,
> {
    let p = corner_field(slash_field(b, 0), pos_count);
    let u = corner_field(slash_field(b, 1), uv_count);
    let n = corner_field(slash_field(b, 2), norm_count);
    if p is None {
        Err("Invalid position index: "@ + text_of(slash_field(b, 0)->0))
    } else if u is None {
        Err("Invalid UV index: "@ + text_of(slash_field(b, 1)->0))
    } else if n is None {
        Err("Invalid normal index: "@ + text_of(slash_field(b, 2)->0))
    } else {
        Ok(
            FaceVertex {
                position: index_usize(field_index(p)),
                uv: index_usize(field_index(u)),
                normal: index_usize(field_index(n)),
            },
        )
    }
}

/// The bytes of `text[start..end]`.
fn copy_range(text: &[u8], start: usize, end: usize) -> (r: Vec<u8>)
    requires
        start <= end <= text@.len(),
    ensures
        r@ == text@.subrange(start as int, end as int),
{
    let mut out: Vec<u8> = Vec::new();
    let mut i = start;
    while i < end
        invariant
            start <= i <= end <= text@.len(),
            out@ == text@.subrange(start as int, i as int),
        decreases end - i,
    {
        out.push(text[i]);
        i = i + 1;
    }
    out
}

/// Reads one corner field `text[start..end]` as an index among `count`
/// elements; on bad text, the error names `what` and the field.
fn parse_corner_field(text: &[u8], start: usize, end: usize, count: usize, what: &str) -> (r: Result<Option<usize>, Error>)
    requires
        start <= end <= text@.len(),
    ensures
        ({
            let part = text@.subrange(start as int, end as int);
            match r {
                Ok(i) => corner_field(Some(part), count as nat) is Some && same_index(
                    i,
                    field_index(corner_field(Some(part), count as nat)),
                ),
                Err(e) => corner_field(Some(part), count as nat) is None && (e matches Error::Unknown {
                    description,
                    stack,
                } && stack is None && description@ == what@ + text_of(part)),
            }
        }),
{
    if start == end {
        return Ok(None);
    }
    match parse_i64_text(text, start, end) {
        Some(v) => {
            let i = resolve_obj_index(v, count);
            Ok(i)
        },
        None => {
            let mut description = String::new();
            push_str(&mut description, what);
            let part = copy_range(text, start, end);
            let shown = lossy_text(part.as_slice());
            push_str(&mut description, shown.as_str());
            Err(Error::Unknown { description, stack: None })
        },
    }
}

impl FaceVertex {
    /// Reads a face corner such as `1/2/3`, `1//3`, `1/2` or `1` against
    /// the numbers of positions, texture coordinates and normals so far.
    /// Fields past the third are ignored; an empty field gives `None`, a
    /// field that is not an integer gives an error that quotes it.
    pub fn parse(s: &str, pos_count: usize, uv_count: usize, norm_count: usize) -> (r: Result<
        FaceVertex,
        Error,
    >)
        ensures
            match r {
                Ok(fv) => face_corner(s.spec_bytes(), pos_count as nat, uv_count as nat, norm_count as nat)
                    == Ok::<FaceVertex, Seq<char>>(fv),
                Err(e) => e matches Error::Unknown { description, stack } && stack is None
                    && face_corner(s.spec_bytes(), pos_count as nat, uv_count as nat, norm_count as nat)
                    == Err::<FaceVertex, Seq<char>>(description@),
            },
    {
        let b = s.as_bytes();
        let len = b.len();
        let ghost bs = b@;
        let e0 = find_slash(b, 0);
        proof {
            assert(bs.subrange(0, bs.len() as int) =~= bs);
            lemma_slash_at(bs);
        }
        let position = parse_corner_field(b, 0, e0, pos_count, "Invalid position index: ")?;
        let mut uv: Option<usize> = None;
        let mut normal: Option<usize> = None;
        if e0 < len {
            let ghost rest1 = bs.subrange(e0 + 1, bs.len() as int);
            let e1 = find_slash(b, e0 + 1);
            proof {
                lemma_slash_at(rest1);
                assert(slash_field(bs, 1) == slash_field(rest1, 0));
                assert(rest1.subrange(0, e1 - e0 - 1) =~= bs.subrange(e0 + 1, e1 as int));
            }
            uv = parse_corner_field(b, e0 + 1, e1, uv_count, "Invalid UV index: ")?;
            if e1 < len {
                let ghost rest2 = bs.subrange(e1 + 1, bs.len() as int);
                let e2 = find_slash(b, e1 + 1);
                proof {
                    assert(rest1.subrange(e1 - e0, rest1.len() as int) =~= rest2);
                    assert(slash_field(rest1, 1) == slash_field(rest2, 0));
                    assert(slash_field(bs, 2) == slash_field(rest1, 1));
                    lemma_slash_at(rest2);
                    assert(rest2.subrange(0, e2 - e1 - 1) =~= bs.subrange(e1 + 1, e2 as int));
                }
                normal = parse_corner_field(b, e1 + 1, e2, norm_count, "Invalid normal index: ")?;
            } else {
                assert(slash_field(rest1, 1) is None);
                assert(slash_field(bs, 2) == slash_field(rest1, 1));
            }
        } else {
            assert(slash_field(bs, 1) is None);
            assert(slash_field(bs, 2) is None);
        }
        Ok(FaceVertex { position, uv, normal })
    }
}

} // verus!
