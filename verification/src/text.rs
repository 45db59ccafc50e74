//! Building human-readable text: appending characters and decimal numbers.
use vstd::prelude::*;
use vstd::string::{StrSliceExecFns, StringExecFns};
use crate::utils::float_parse::{decimal_value, is_digit};

verus! {

/// The character of a decimal digit `d` (`d < 10`).
pub open spec fn digit_char(d: nat) -> char {
    ((48 + d) as u8) as char
}

/// The decimal digits of `n`, most significant first, without leading zeros.
pub open spec fn decimal(n: nat) -> Seq<char>
    decreases n,
{
    if n < 10 {
        seq![digit_char(n)]
    } else {
        decimal(n / 10).push(digit_char(n % 10))
    }
}

/// The decimal text of a signed number: a minus sign before negative numbers.
pub open spec fn signed_decimal(n: int) -> Seq<char> {
    if n < 0 {
        seq!['-'] + decimal((-n) as nat)
    } else {
        decimal(n as nat)
    }
}

/// The bytes of characters that are ASCII.
pub open spec fn char_bytes(t: Seq<char>) -> Seq<u8> {
    Seq::new(t.len(), |k: int| t[k] as u8)
}

/// The digits of `n` are decimal digit bytes that spell `n`.
pub proof fn lemma_decimal_spells(n: nat)
    ensures
        decimal(n).len() > 0,
        forall|k: int| 0 <= k < decimal(n).len() ==> is_digit(#[trigger] char_bytes(decimal(n))[k]),
        decimal_value(char_bytes(decimal(n))) == n,
    decreases n,
{
    let d = (n % 10) as nat;
    assert(digit_char(d) as u8 == 48 + d) by {
        assert(d < 10);
    }
    if n < 10 {
        assert(char_bytes(decimal(n)).drop_last() =~= Seq::<u8>::empty());
        assert(decimal_value(Seq::<u8>::empty()) == 0);
        assert(char_bytes(decimal(n)).last() == digit_char(d) as u8);
    } else {
        lemma_decimal_spells(n / 10);
        let s = decimal(n / 10);
        assert(char_bytes(s.push(digit_char(d))) =~= char_bytes(s).push(digit_char(d) as u8));
        assert(char_bytes(s.push(digit_char(d))).drop_last() =~= char_bytes(s));
        assert(char_bytes(decimal(n)).last() == digit_char(d) as u8);
        assert(n == (n / 10) * 10 + d);
        assert forall|k: int| 0 <= k < decimal(n).len() implies is_digit(#[trigger] char_bytes(decimal(n))[k]) by {
            if k < s.len() {
                assert(char_bytes(decimal(n))[k] == char_bytes(s)[k]);
            }
        }
    }
}

/// `String::push`: appends one character to the end of `s`.
#[verifier::external_body]
pub(crate) fn push_char(s: &mut String, c: char)
    ensures
        final(s)@ == old(s)@.push(c),
{
    s.push(c)
}

/// Appends the text of `t` to `s`.
pub fn push_str(s: &mut String, t: &str)
    ensures
        final(s)@ == old(s)@ + t@,
{
    s.append(t);
}

/// A new string holding the text of `t`.
pub fn string_of(t: &str) -> (r: String)
    ensures
        r@ == t@,
{
    String::from_str(t)
}

/// Appends the decimal digits of `n` to `s`.
pub fn push_decimal(s: &mut String, n: u64)
    ensures
        final(s)@ == old(s)@ + decimal(n as nat),
    decreases n,
{
    if n >= 10 {
        push_decimal(s, n / 10);
    }
    let d: u8 = (n % 10) as u8;
    let c = (48u8 + d) as char;
    push_char(s, c);
    proof {
        if n >= 10 {
            assert(decimal(n as nat) == decimal((n / 10) as nat).push(digit_char((n % 10) as nat)));
        } else {
            assert(decimal(n as nat) == seq![digit_char(n as nat)]);
        }
        assert(final(s)@ =~= old(s)@ + decimal(n as nat));
    }
}

/// Appends the decimal text of the signed number `n` to `s`.
pub fn push_signed_decimal(s: &mut String, n: i64)
    ensures
        final(s)@ == old(s)@ + signed_decimal(n as int),
{
    if n < 0 {
        push_char(s, '-');
        let m: u64 = ((-(n + 1)) as u64) + 1;
        push_decimal(s, m);
        assert(final(s)@ =~= old(s)@ + signed_decimal(n as int));
    } else {
        push_decimal(s, n as u64);
    }
}

/// Appends the decimal digits of a `usize` to `s`.
pub fn push_usize(s: &mut String, n: usize)
    ensures
        final(s)@ == old(s)@ + decimal(n as nat),
{
    push_decimal(s, n as u64);
}

} // verus!

verus! {

/// Number of bytes in the UTF-8 encoding of `c`.
pub open spec fn char_utf8_len(c: char) -> nat {
    if (c as u32) < 0x80 {
        1
    } else if (c as u32) < 0x800 {
        2
    } else if (c as u32) < 0x10000 {
        3
    } else {
        4
    }
}

/// Whether `c` is an ASCII control character.
pub open spec fn is_ascii_control(c: char) -> bool {
    (c as u32) < 0x20 || (c as u32) == 0x7f
}

/// The text kept by [`clean_utf8`]: characters are taken in order while their
/// encoded size fits in `budget` bytes, and control characters other than
/// newline and tab are each replaced by `?`.
pub open spec fn cleaned(cs: Seq<char>, budget: nat) -> Seq<char>
    decreases cs.len(),
{
    if cs.len() == 0 {
        Seq::empty()
    } else {
        let c = cs[0];
        if char_utf8_len(c) > budget {
            Seq::empty()
        } else if is_ascii_control(c) && c != '\n' && c != '\t' {
            seq!['?'] + cleaned(cs.drop_first(), (budget - 1) as nat)
        } else {
            seq![c] + cleaned(cs.drop_first(), (budget - char_utf8_len(c)) as nat)
        }
    }
}

/// Encoded size of `c` in bytes.
pub fn char_len_utf8(c: char) -> (r: usize)
    ensures
        r == char_utf8_len(c),
{
    let v = c as u32;
    if v < 0x80 {
        1
    } else if v < 0x800 {
        2
    } else if v < 0x10000 {
        3
    } else {
        4
    }
}

/// Copies `s` keeping at most `max_len` bytes of encoded text, with control
/// characters other than newline and tab replaced by `?`.
pub fn clean_utf8(s: &str, max_len: usize) -> (r: String)
    ensures
        r@ == cleaned(s@, max_len as nat),
{
    let n = s.unicode_len();
    let mut result = String::new();
    let mut used: usize = 0;
    let mut i: usize = 0;
    assert(s@.skip(0) =~= s@);
    assert(result@ + cleaned(s@, max_len as nat) =~= cleaned(s@, max_len as nat));
    while i < n
        invariant
            n == s@.len(),
            0 <= i <= n,
            used <= max_len,
            result@ + cleaned(s@.skip(i as int), (max_len - used) as nat) == cleaned(s@, max_len as nat),
        decreases n - i,
    {
        let ch = s.get_char(i);
        let ghost rest = s@.skip(i as int);
        assert(rest[0] == ch);
        assert(rest.drop_first() =~= s@.skip(i + 1));
        let clen = char_len_utf8(ch);
        if clen > max_len - used {
            assert(cleaned(rest, (max_len - used) as nat) == Seq::<char>::empty());
            assert(result@ + Seq::<char>::empty() =~= result@);
            return result;
        }
        let v = ch as u32;
        let ghost prev = result@;
        let ghost ob = (max_len - used) as nat;
        if (v < 0x20 || v == 0x7f) && ch != '\n' && ch != '\t' {
            push_char(&mut result, '?');
            used = used + 1;
            proof {
                assert(cleaned(rest, ob) == seq!['?'] + cleaned(s@.skip(i + 1), (max_len - used) as nat));
                assert(result@ + cleaned(s@.skip(i + 1), (max_len - used) as nat)
                    =~= prev + cleaned(rest, ob));
            }
        } else {
            push_char(&mut result, ch);
            used = used + clen;
            proof {
                assert(cleaned(rest, ob) == seq![ch] + cleaned(s@.skip(i + 1), (max_len - used) as nat));
                assert(result@ + cleaned(s@.skip(i + 1), (max_len - used) as nat)
                    =~= prev + cleaned(rest, ob));
            }
        }
        i = i + 1;
    }
    assert(s@.skip(n as int) =~= Seq::<char>::empty());
    assert(result@ + Seq::<char>::empty() =~= result@);
    result
}

} // verus!
