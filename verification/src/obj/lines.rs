//! Splitting text into lines and words as `str::lines`, `str::trim` and
//! `str::split_whitespace` do, and recognising the decimal literals that
//! `str::parse::<f64>` accepts.
use vstd::prelude::*;
use crate::ascii::chars_of;
use crate::text::push_char;

verus! {

/// Whether `c` has the Unicode `White_Space` property, which is what
/// `char::is_whitespace` tests.
pub open spec fn is_ws(c: char) -> bool {
    let u = c as u32;
    ||| 0x09 <= u <= 0x0D
    ||| u == 0x20
    ||| u == 0x85
    ||| u == 0xA0
    ||| u == 0x1680
    ||| 0x2000 <= u <= 0x200A
    ||| u == 0x2028
    ||| u == 0x2029
    ||| u == 0x202F
    ||| u == 0x205F
    ||| u == 0x3000
}

/// Whether `c` is white space in the sense of [`is_ws`].
pub fn is_whitespace(c: char) -> (r: bool)
    ensures
        r == is_ws(c),
{
    let u = c as u32;
    (0x09 <= u && u <= 0x0D) || u == 0x20 || u == 0x85 || u == 0xA0 || u == 0x1680 || (0x2000 <= u
        && u <= 0x200A) || u == 0x2028 || u == 0x2029 || u == 0x202F || u == 0x205F || u == 0x3000
}

/// Number of white-space characters at the start of `s`.
pub open spec fn lead_ws(s: Seq<char>) -> nat
    decreases s.len(),
{
    if s.len() > 0 && is_ws(s[0]) {
        1 + lead_ws(s.drop_first())
    } else {
        0
    }
}

/// Number of white-space characters at the end of `s`.
pub open spec fn trail_ws(s: Seq<char>) -> nat
    decreases s.len(),
{
    if s.len() > 0 && is_ws(s.last()) {
        1 + trail_ws(s.drop_last())
    } else {
        0
    }
}

/// Number of backslashes at the end of `s`.
pub open spec fn trail_bs(s: Seq<char>) -> nat
    decreases s.len(),
{
    if s.len() > 0 && s.last() == '\\' {
        1 + trail_bs(s.drop_last())
    } else {
        0
    }
}

/// Number of characters at the start of `s` before the first white space.
pub open spec fn word_len(s: Seq<char>) -> nat
    decreases s.len(),
{
    if s.len() > 0 && !is_ws(s[0]) {
        1 + word_len(s.drop_first())
    } else {
        0
    }
}

/// The leading white space of `s` is part of it.
pub proof fn lemma_lead_ws(s: Seq<char>)
    ensures
        lead_ws(s) <= s.len(),
        lead_ws(s) < s.len() ==> !is_ws(s[lead_ws(s) as int]),
    decreases s.len(),
{
    if s.len() > 0 && is_ws(s[0]) {
        lemma_lead_ws(s.drop_first());
    }
}

/// The trailing white space of `s` is part of it.
pub proof fn lemma_trail_ws(s: Seq<char>)
    ensures
        trail_ws(s) <= s.len(),
    decreases s.len(),
{
    if s.len() > 0 && is_ws(s.last()) {
        lemma_trail_ws(s.drop_last());
    }
}

/// The trailing backslashes of `s` are part of it.
pub proof fn lemma_trail_bs(s: Seq<char>)
    ensures
        trail_bs(s) <= s.len(),
    decreases s.len(),
{
    if s.len() > 0 && s.last() == '\\' {
        lemma_trail_bs(s.drop_last());
    }
}

/// A word is part of the text it starts, and a text that starts with
/// something else than white space starts with a word.
pub proof fn lemma_word_len(s: Seq<char>)
    ensures
        word_len(s) <= s.len(),
        s.len() > 0 && !is_ws(s[0]) ==> word_len(s) >= 1,
    decreases s.len(),
{
    if s.len() > 0 && !is_ws(s[0]) {
        lemma_word_len(s.drop_first());
    }
}

/// `s` without white space at either end, as `str::trim` gives it.
pub open spec fn trim(s: Seq<char>) -> Seq<char> {
    let t = s.skip(lead_ws(s) as int);
    t.take(t.len() - trail_ws(t))
}

/// `s` without the backslashes at its end, as `str::trim_end_matches('\\')`
/// gives it.
pub open spec fn strip_backslashes(s: Seq<char>) -> Seq<char> {
    s.take(s.len() - trail_bs(s))
}

/// The words of `s`: its longest runs of characters other than white space,
/// in order, as `str::split_whitespace` gives them.
pub open spec fn words(s: Seq<char>) -> Seq<Seq<char>>
    decreases s.len(),
{
    let t = s.skip(lead_ws(s) as int);
    if lead_ws(s) >= s.len() {
        seq![]
    } else {
        proof {
            lemma_lead_ws(s);
            lemma_word_len(t);
        }
        let w = word_len(t);
        seq![t.take(w as int)] + words(t.skip(w as int))
    }
}

/// Position of the first line feed in `s`, or its length.
pub open spec fn newline_at(s: Seq<char>) -> nat
    decreases s.len(),
{
    if s.len() == 0 || s[0] == '\n' {
        0
    } else {
        1 + newline_at(s.drop_first())
    }
}

/// The first line feed of `s` stands where [`newline_at`] says.
pub proof fn lemma_newline_at(s: Seq<char>)
    ensures
        newline_at(s) <= s.len(),
        newline_at(s) < s.len() ==> s[newline_at(s) as int] == '\n',
    decreases s.len(),
{
    if s.len() > 0 && s[0] != '\n' {
        lemma_newline_at(s.drop_first());
    }
}

/// A line without the carriage return that ends it, if one does.
pub open spec fn strip_cr(l: Seq<char>) -> Seq<char> {
    if l.len() > 0 && l.last() == '\r' {
        l.drop_last()
    } else {
        l
    }
}

/// The lines of `s` as `str::lines` gives them: split at each line feed, a
/// carriage return before a line feed dropped, and no empty line after a
/// final line feed.
pub open spec fn lines_of(s: Seq<char>) -> Seq<Seq<char>>
    decreases s.len(),
{
    if s.len() == 0 {
        seq![]
    } else {
        let k = newline_at(s);
        if k >= s.len() {
            seq![s]
        } else {
            proof {
                lemma_newline_at(s);
            }
            seq![strip_cr(s.take(k as int))] + lines_of(s.skip(k + 1int))
        }
    }
}

/// The words of `ws` joined with single spaces, as `[&str]::join(" ")` does.
pub open spec fn join_words(ws: Seq<Seq<char>>) -> Seq<char>
    decreases ws.len(),
{
    if ws.len() == 0 {
        seq![]
    } else if ws.len() == 1 {
        ws[0]
    } else {
        join_words(ws.drop_last()) + seq![' '] + ws.last()
    }
}

/// Position in `cs` of the first character at or after `a` and before `b`
/// that is not white space, or `b`.
pub fn skip_ws(cs: &Vec<char>, a: usize, b: usize) -> (r: usize)
    requires
        a <= b <= cs@.len(),
    ensures
        r == a + lead_ws(cs@.subrange(a as int, b as int)),
        r <= b,
{
    let mut i = a;
    while i < b && is_whitespace(cs[i])
        invariant
            a <= i <= b <= cs@.len(),
            lead_ws(cs@.subrange(a as int, b as int)) == (i - a) + lead_ws(
                cs@.subrange(i as int, b as int),
            ),
        decreases b - i,
    {
        assert(cs@.subrange(i as int, b as int).drop_first() =~= cs@.subrange(i + 1, b as int));
        i = i + 1;
    }
    proof {
        if i < b {
            assert(cs@.subrange(i as int, b as int)[0] == cs@[i as int]);
        }
    }
    i
}

/// Position in `cs` after the last character at or after `a` and before
/// `b` that is not white space, or `a`.
pub fn trim_end_at(cs: &Vec<char>, a: usize, b: usize) -> (r: usize)
    requires
        a <= b <= cs@.len(),
    ensures
        r == b - trail_ws(cs@.subrange(a as int, b as int)),
        a <= r,
{
    let mut j = b;
    while j > a && is_whitespace(cs[j - 1])
        invariant
            a <= j <= b <= cs@.len(),
            trail_ws(cs@.subrange(a as int, b as int)) == (b - j) + trail_ws(
                cs@.subrange(a as int, j as int),
            ),
        decreases j - a,
    {
        assert(cs@.subrange(a as int, j as int).drop_last() =~= cs@.subrange(a as int, j - 1));
        j = j - 1;
    }
    proof {
        if j > a {
            assert(cs@.subrange(a as int, j as int).last() == cs@[j - 1]);
        }
    }
    j
}

/// Position in `cs` after the last character at or after `a` and before
/// `b` that is not a backslash, or `a`.
pub fn strip_backslashes_at(cs: &Vec<char>, a: usize, b: usize) -> (r: usize)
    requires
        a <= b <= cs@.len(),
    ensures
        r == b - trail_bs(cs@.subrange(a as int, b as int)),
        a <= r,
{
    let mut j = b;
    while j > a && cs[j - 1] == '\\'
        invariant
            a <= j <= b <= cs@.len(),
            trail_bs(cs@.subrange(a as int, b as int)) == (b - j) + trail_bs(
                cs@.subrange(a as int, j as int),
            ),
        decreases j - a,
    {
        assert(cs@.subrange(a as int, j as int).drop_last() =~= cs@.subrange(a as int, j - 1));
        j = j - 1;
    }
    proof {
        if j > a {
            assert(cs@.subrange(a as int, j as int).last() == cs@[j - 1]);
        }
    }
    j
}

/// Position in `cs` of the first white space at or after `a` and before
/// `b`, or `b`.
pub fn word_end(cs: &Vec<char>, a: usize, b: usize) -> (r: usize)
    requires
        a <= b <= cs@.len(),
    ensures
        r == a + word_len(cs@.subrange(a as int, b as int)),
        r <= b,
{
    let mut i = a;
    while i < b && !is_whitespace(cs[i])
        invariant
            a <= i <= b <= cs@.len(),
            word_len(cs@.subrange(a as int, b as int)) == (i - a) + word_len(
                cs@.subrange(i as int, b as int),
            ),
        decreases b - i,
    {
        assert(cs@.subrange(i as int, b as int).drop_first() =~= cs@.subrange(i + 1, b as int));
        i = i + 1;
    }
    proof {
        if i < b {
            assert(cs@.subrange(i as int, b as int)[0] == cs@[i as int]);
        }
    }
    i
}

/// The characters `cs[a..b]`.
pub fn copy_chars(cs: &Vec<char>, a: usize, b: usize) -> (r: Vec<char>)
    requires
        a <= b <= cs@.len(),
    ensures
        r@ == cs@.subrange(a as int, b as int),
{
    let mut out: Vec<char> = Vec::new();
    let mut i = a;
    while i < b
        invariant
            a <= i <= b <= cs@.len(),
            out@ == cs@.subrange(a as int, i as int),
        decreases b - i,
    {
        out.push(cs[i]);
        i = i + 1;
        assert(out@ =~= cs@.subrange(a as int, i as int));
    }
    out
}

/// The words of `cs[a..b]`, as [`words`] gives them.
pub fn split_words(cs: &Vec<char>, a: usize, b: usize) -> (r: Vec<Vec<char>>)
    requires
        a <= b <= cs@.len(),
    ensures
        r.deep_view() == words(cs@.subrange(a as int, b as int)),
{
    let mut out: Vec<Vec<char>> = Vec::new();
    let mut pos = a;
    assert(out.deep_view() + words(cs@.subrange(a as int, b as int)) =~= words(
        cs@.subrange(a as int, b as int),
    ));
    while pos < b
        invariant
            a <= pos <= b <= cs@.len(),
            words(cs@.subrange(a as int, b as int)) == out.deep_view() + words(
                cs@.subrange(pos as int, b as int),
            ),
        decreases b - pos,
    {
        let ghost s = cs@.subrange(pos as int, b as int);
        let p2 = skip_ws(cs, pos, b);
        proof {
            lemma_lead_ws(s);
        }
        if p2 == b {
            assert(words(s) =~= Seq::<Seq<char>>::empty());
            assert(words(cs@.subrange(b as int, b as int)) =~= Seq::<Seq<char>>::empty());
            pos = b;
        } else {
            let q = word_end(cs, p2, b);
            let ghost t = s.skip(lead_ws(s) as int);
            assert(t =~= cs@.subrange(p2 as int, b as int));
            proof {
                lemma_word_len(t);
            }
            let tok = copy_chars(cs, p2, q);
            assert(t.take(word_len(t) as int) =~= cs@.subrange(p2 as int, q as int));
            assert(t.skip(word_len(t) as int) =~= cs@.subrange(q as int, b as int));
            assert(words(s) == seq![tok@] + words(cs@.subrange(q as int, b as int)));
            let ghost before = out.deep_view();
            assert(tok.deep_view() =~= tok@);
            out.push(tok);
            assert(out.deep_view() =~= before.push(tok@));
            assert(words(cs@.subrange(a as int, b as int)) =~= out.deep_view() + words(
                cs@.subrange(q as int, b as int),
            ));
            pos = q;
        }
    }
    assert(words(cs@.subrange(b as int, b as int)) =~= Seq::<Seq<char>>::empty());
    assert(out.deep_view() + Seq::<Seq<char>>::empty() =~= out.deep_view());
    out
}

/// Position in `cs` of the first line feed at or after `a`, or the length.
pub fn newline_from(cs: &Vec<char>, a: usize) -> (r: usize)
    requires
        a <= cs@.len(),
    ensures
        r == a + newline_at(cs@.skip(a as int)),
        r <= cs@.len(),
{
    let mut i = a;
    while i < cs.len() && cs[i] != '\n'
        invariant
            a <= i <= cs@.len(),
            newline_at(cs@.skip(a as int)) == (i - a) + newline_at(cs@.skip(i as int)),
        decreases cs@.len() - i,
    {
        assert(cs@.skip(i as int).drop_first() =~= cs@.skip(i + 1));
        i = i + 1;
    }
    proof {
        if i < cs@.len() {
            assert(cs@.skip(i as int)[0] == cs@[i as int]);
        }
    }
    i
}

/// Appends the characters of `t` to `s`.
pub fn push_chars(s: &mut String, t: &Vec<char>)
    ensures
        final(s)@ == old(s)@ + t@,
{
    let mut i: usize = 0;
    while i < t.len()
        invariant
            0 <= i <= t@.len(),
            s@ == old(s)@ + t@.take(i as int),
        decreases t@.len() - i,
    {
        push_char(s, t[i]);
        i = i + 1;
        assert(s@ =~= old(s)@ + t@.take(i as int));
    }
    assert(t@.take(i as int) =~= t@);
}

/// A string holding the characters of `t`.
pub fn string_of_chars(t: &Vec<char>) -> (r: String)
    ensures
        r@ == t@,
{
    let mut s = String::new();
    push_chars(&mut s, t);
    assert(s@ =~= t@);
    s
}

/// The words `ws[from..]` joined with single spaces.
pub fn join_from(ws: &Vec<Vec<char>>, from: usize) -> (r: String)
    requires
        from <= ws@.len(),
    ensures
        r@ == join_words(ws.deep_view().skip(from as int)),
{
    let ghost dv = ws.deep_view();
    let mut s = String::new();
    let mut i = from;
    assert(s@ =~= join_words(dv.subrange(from as int, from as int)));
    while i < ws.len()
        invariant
            from <= i <= ws@.len(),
            dv == ws.deep_view(),
            s@ == join_words(dv.subrange(from as int, i as int)),
        decreases ws@.len() - i,
    {
        let ghost prev = s@;
        if i > from {
            push_char(&mut s, ' ');
        }
        push_chars(&mut s, &ws[i]);
        let ghost part = dv.subrange(from as int, i + 1);
        assert(part.drop_last() =~= dv.subrange(from as int, i as int));
        assert(part.last() == ws@[i as int]@);
        if i > from {
            assert(s@ =~= prev + seq![' '] + ws@[i as int]@);
        } else {
            assert(part.len() == 1);
            assert(s@ =~= ws@[i as int]@);
        }
        i = i + 1;
    }
    assert(dv.subrange(from as int, ws@.len() as int) =~= dv.skip(from as int));
    s
}

/// Whether `c` is a decimal digit.
pub open spec fn is_digit_char(c: char) -> bool {
    '0' <= c <= '9'
}

/// Number of decimal digits in `s` from position `i` on.
pub open spec fn digit_run(s: Seq<char>, i: nat) -> nat
    decreases s.len() - i,
{
    if i < s.len() && is_digit_char(s[i as int]) {
        1 + digit_run(s, i + 1)
    } else {
        0
    }
}

/// Whether `c` is the lower-case letter `l` in either case.
pub open spec fn same_letter(c: char, l: char) -> bool {
    c == l || (c as u32) + 32 == (l as u32)
}

/// Whether `s` spells the lower-case `word`, ignoring case.
pub open spec fn spells(s: Seq<char>, word: Seq<char>) -> bool {
    s.len() == word.len() && forall|i: int| 0 <= i < s.len() ==> same_letter(s[i], word[i])
}

/// Whether `s[i..]` is an exponent's digits: an optional sign, then digits.
pub open spec fn exponent_digits(s: Seq<char>, i: nat) -> bool {
    let st: nat = if i < s.len() && (s[i as int] == '+' || s[i as int] == '-') {
        i + 1
    } else {
        i
    };
    digit_run(s, st) >= 1 && st + digit_run(s, st) == s.len()
}

/// Whether `s[i..]` is a decimal number: digits with at most one point and
/// at least one digit, then perhaps `e` and an exponent.
pub open spec fn decimal_number(s: Seq<char>, i: nat) -> bool {
    let a = digit_run(s, i);
    let dot = i + a < s.len() && s[(i + a) as int] == '.';
    let b: nat = if dot {
        digit_run(s, i + a + 1)
    } else {
        0
    };
    let end: nat = if dot {
        i + a + 1 + b
    } else {
        i + a
    };
    a + b >= 1 && (end == s.len() || (same_letter(s[end as int], 'e') && exponent_digits(
        s,
        end + 1,
    )))
}

/// Whether `str::parse::<f64>` accepts `s`: an optional sign, then `inf`,
/// `infinity`, `nan` in any case, or a decimal number.
pub open spec fn real_text(s: Seq<char>) -> bool {
    let st: nat = if s.len() > 0 && (s[0] == '+' || s[0] == '-') {
        1
    } else {
        0
    };
    ||| spells(s.skip(st as int), "inf"@)
    ||| spells(s.skip(st as int), "infinity"@)
    ||| spells(s.skip(st as int), "nan"@)
    ||| decimal_number(s, st)
}

/// Number of decimal digits in `t` from position `i` on.
fn digit_run_at(t: &Vec<char>, i: usize) -> (r: usize)
    requires
        i <= t@.len(),
    ensures
        r == digit_run(t@, i as nat),
        i + r <= t@.len(),
{
    let mut j = i;
    while j < t.len() && '0' <= t[j] && t[j] <= '9'
        invariant
            i <= j <= t@.len(),
            digit_run(t@, i as nat) == (j - i) + digit_run(t@, j as nat),
        decreases t@.len() - j,
    {
        j = j + 1;
    }
    j - i
}

/// Whether `c` is the lower-case letter `l` in either case.
fn is_letter(c: char, l: char) -> (r: bool)
    ensures
        r == same_letter(c, l),
{
    c == l || (c as u32) + 32 == (l as u32)
}

/// Whether `t[from..]` spells the lower-case `word`, ignoring case.
fn spells_from(t: &Vec<char>, from: usize, word: &str) -> (r: bool)
    requires
        from <= t@.len(),
    ensures
        r == spells(t@.skip(from as int), word@),
{
    let w = chars_of(word);
    let tl = t.len();
    if tl - from != w.len() {
        return false;
    }
    let mut i: usize = 0;
    while i < w.len()
        invariant
            tl == t@.len(),
            from <= t@.len(),
            t@.len() - from == w@.len(),
            from + w@.len() == t@.len(),
            w@ == word@,
            0 <= i <= w@.len(),
            forall|k: int| 0 <= k < i ==> same_letter(t@.skip(from as int)[k], w@[k]),
        decreases w@.len() - i,
    {
        if !is_letter(t[from + i], w[i]) {
            assert(t@.skip(from as int)[i as int] == t@[from + i]);
            return false;
        }
        i = i + 1;
    }
    true
}

/// Whether `str::parse::<f64>` accepts the characters of `t`.
pub fn is_real(t: &Vec<char>) -> (r: bool)
    ensures
        r == real_text(t@),
{
    let st: usize = if t.len() > 0 && (t[0] == '+' || t[0] == '-') {
        1
    } else {
        0
    };
    if spells_from(t, st, "inf") || spells_from(t, st, "infinity") || spells_from(t, st, "nan") {
        return true;
    }
    let a = digit_run_at(t, st);
    let dot = st + a < t.len() && t[st + a] == '.';
    let b: usize = if dot {
        digit_run_at(t, st + a + 1)
    } else {
        0
    };
    let end: usize = if dot {
        st + a + 1 + b
    } else {
        st + a
    };
    if a + b < 1 {
        return false;
    }
    if end == t.len() {
        return true;
    }
    if !is_letter(t[end], 'e') {
        return false;
    }
    let e1 = end + 1;
    let est: usize = if e1 < t.len() && (t[e1] == '+' || t[e1] == '-') {
        e1 + 1
    } else {
        e1
    };
    if est > t.len() {
        return false;
    }
    let d = digit_run_at(t, est);
    d >= 1 && est + d == t.len()
}

/// Index of the first entry of `s` equal to `x`.
pub open spec fn position_of(s: Seq<Seq<char>>, x: Seq<char>) -> Option<nat>
    decreases s.len(),
{
    if s.len() == 0 {
        None
    } else if s[0] == x {
        Some(0)
    } else {
        match position_of(s.drop_first(), x) {
            Some(i) => Some(i + 1),
            None => None,
        }
    }
}

/// `p` moved on by `k`.
pub open spec fn shifted(p: Option<nat>, k: nat) -> Option<nat> {
    match p {
        Some(i) => Some(i + k),
        None => None,
    }
}

/// The index `o` holds, as a natural number.
pub open spec fn nat_of(o: Option<usize>) -> Option<nat> {
    match o {
        Some(i) => Some(i as nat),
        None => None,
    }
}

/// Whether the characters of `t` are those of `u`.
pub fn same_chars(t: &Vec<char>, u: &Vec<char>) -> (r: bool)
    ensures
        r == (t@ == u@),
{
    if t.len() != u.len() {
        return false;
    }
    let mut i: usize = 0;
    while i < t.len()
        invariant
            t@.len() == u@.len(),
            0 <= i <= t@.len(),
            forall|k: int| 0 <= k < i ==> t@[k] == u@[k],
        decreases t@.len() - i,
    {
        if t[i] != u[i] {
            return false;
        }
        i = i + 1;
    }
    assert(t@ =~= u@);
    true
}

/// Whether the characters of `t` are those of the text `u`.
pub fn chars_are(t: &Vec<char>, u: &str) -> (r: bool)
    ensures
        r == (t@ == u@),
{
    let w = chars_of(u);
    same_chars(t, &w)
}

/// Whether the text `t` is the text `u`.
pub fn same_text(t: &String, u: &String) -> (r: bool)
    ensures
        r == (t@ == u@),
{
    let a = chars_of(t.as_str());
    let b = chars_of(u.as_str());
    same_chars(&a, &b)
}

/// Index of the first entry of `s` whose text is `x`.
pub fn find_text(s: &Vec<String>, x: &String) -> (r: Option<usize>)
    ensures
        nat_of(r) == position_of(s.deep_view(), x@),
{
    let ghost dv = s.deep_view();
    let mut i: usize = 0;
    assert(dv.skip(0) =~= dv);
    assert(position_of(dv, x@) == shifted(position_of(dv.skip(0), x@), 0));
    while i < s.len()
        invariant
            dv == s.deep_view(),
            0 <= i <= s@.len(),
            position_of(dv, x@) == shifted(position_of(dv.skip(i as int), x@), i as nat),
        decreases s@.len() - i,
    {
        let ghost rest = dv.skip(i as int);
        assert(rest[0] == s@[i as int]@);
        if same_text(&s[i], x) {
            return Some(i);
        }
        assert(rest.drop_first() =~= dv.skip(i + 1));
        i = i + 1;
    }
    assert(dv.skip(i as int) =~= Seq::<Seq<char>>::empty());
    None
}

/// Whether every character of `s` is a decimal digit.
pub open spec fn all_digit_chars(s: Seq<char>) -> bool {
    forall|i: int| 0 <= i < s.len() ==> is_digit_char(#[trigger] s[i])
}

/// The value of the decimal digits `s`.
pub open spec fn digits_value(s: Seq<char>) -> nat
    decreases s.len(),
{
    if s.len() == 0 {
        0
    } else {
        digits_value(s.drop_last()) * 10 + ((s.last() as u32) - 48) as nat
    }
}

/// What `str::parse::<u32>` gives for `s`: an optional `+`, then one or
/// more digits whose value fits in a `u32`.
pub open spec fn u32_text(s: Seq<char>) -> Option<u32> {
    let d = if s.len() > 0 && s[0] == '+' {
        s.drop_first()
    } else {
        s
    };
    if d.len() == 0 || !all_digit_chars(d) || digits_value(d) > u32::MAX {
        None
    } else {
        Some(digits_value(d) as u32)
    }
}

/// The value of some first digits is at most that of all of them.
proof fn lemma_digits_value_prefix(s: Seq<char>, k: int)
    requires
        0 <= k <= s.len(),
        all_digit_chars(s),
    ensures
        digits_value(s.take(k)) <= digits_value(s),
    decreases s.len() - k,
{
    if k < s.len() {
        lemma_digits_value_prefix(s, k + 1);
        assert(s.take(k + 1).drop_last() =~= s.take(k));
        assert(is_digit_char(s[k]));
    } else {
        assert(s.take(k) =~= s);
    }
}

/// Parses the characters of `t` as a `u32`, as `str::parse::<u32>` does.
pub fn parse_u32_chars(t: &Vec<char>) -> (r: Option<u32>)
    ensures
        r == u32_text(t@),
{
    let st: usize = if t.len() > 0 && t[0] == '+' {
        1
    } else {
        0
    };
    let ghost d = t@.skip(st as int);
    let ghost d0 = if t@.len() > 0 && t@[0] == '+' {
        t@.drop_first()
    } else {
        t@
    };
    assert(d =~= d0);
    assert(u32_text(t@) == (if d.len() == 0 || !all_digit_chars(d) || digits_value(d) > u32::MAX {
        None
    } else {
        Some(digits_value(d) as u32)
    }));
    if st == t.len() {
        return None;
    }
    let mut acc: u64 = 0;
    let mut i = st;
    while i < t.len()
        invariant
            st <= i <= t@.len(),
            d == t@.skip(st as int),
            u32_text(t@) == (if d.len() == 0 || !all_digit_chars(d) || digits_value(d) > u32::MAX {
                None
            } else {
                Some(digits_value(d) as u32)
            }),
            acc == digits_value(d.take(i - st)),
            acc <= u32::MAX,
            all_digit_chars(d.take(i - st)),
        decreases t@.len() - i,
    {
        let c = t[i];
        let ghost k = i - st;
        assert(d[k] == c);
        if !('0' <= c && c <= '9') {
            assert(!is_digit_char(d[k]));
            assert(!all_digit_chars(d));
            return None;
        }
        assert(d.take(k + 1).drop_last() =~= d.take(k));
        assert(d.take(k + 1).last() == c);
        assert(digits_value(d.take(k + 1)) == digits_value(d.take(k)) * 10 + ((c as u32) - 48) as nat);
        acc = acc * 10 + ((c as u32) - 48) as u64;
        i = i + 1;
        assert(all_digit_chars(d.take(i - st)));
        assert(acc == digits_value(d.take(i - st)));
        if acc > 0xFFFF_FFFF {
            proof {
                if all_digit_chars(d) {
                    lemma_digits_value_prefix(d, i - st);
                }
            }
            return None;
        }
    }
    assert(d.take(i - st) =~= d);
    Some(acc as u32)
}

/// Where the line of `cs` that starts at `pos` ends, without its line
/// break, and where the next one starts.
pub fn next_line(cs: &Vec<char>, pos: usize) -> (r: (usize, usize))
    requires
        pos < cs@.len(),
    ensures
        pos <= r.0 <= r.1 <= cs@.len(),
        pos < r.1,
        lines_of(cs@.skip(pos as int)) == seq![cs@.subrange(pos as int, r.0 as int)] + lines_of(
            cs@.skip(r.1 as int),
        ),
{
    let ghost rest = cs@.skip(pos as int);
    let nl = newline_from(cs, pos);
    let mut end = nl;
    if nl < cs.len() && end > pos && cs[end - 1] == '\r' {
        end = end - 1;
    }
    let next = if nl < cs.len() {
        nl + 1
    } else {
        nl
    };
    proof {
        lemma_newline_at(rest);
        let k = newline_at(rest);
        let line = cs@.subrange(pos as int, end as int);
        if k < rest.len() {
            assert(rest.take(k as int) =~= cs@.subrange(pos as int, nl as int));
            assert(strip_cr(rest.take(k as int)) =~= line);
            assert(rest.skip(k + 1int) =~= cs@.skip(next as int));
        } else {
            assert(rest =~= line);
            assert(cs@.skip(next as int) =~= Seq::<char>::empty());
            assert(lines_of(cs@.skip(next as int)) =~= Seq::<Seq<char>>::empty());
            assert(seq![line] =~= seq![line] + lines_of(cs@.skip(next as int)));
        }
    }
    (end, next)
}

/// A text with no white space first has words.
pub proof fn lemma_words_nonempty(t: Seq<char>)
    requires
        t.len() > 0,
        !is_ws(t[0]),
    ensures
        words(t).len() >= 1,
{
    assert(lead_ws(t) == 0);
}

/// Where the first entry equal to `x` stands.
pub proof fn lemma_position_of(s: Seq<Seq<char>>, x: Seq<char>)
    ensures
        position_of(s, x) matches Some(i) ==> i < s.len() && s[i as int] == x,
    decreases s.len(),
{
    if s.len() > 0 && s[0] != x {
        lemma_position_of(s.drop_first(), x);
    }
}

/// Whether `cs[a..b]` starts with the text `u`.
pub fn starts_with_at(cs: &Vec<char>, a: usize, b: usize, u: &str) -> (r: bool)
    requires
        a <= b <= cs@.len(),
    ensures
        r == (u@.len() <= b - a && cs@.subrange(a as int, a + u@.len()) == u@),
{
    let w = chars_of(u);
    if w.len() > b - a {
        return false;
    }
    let mut i: usize = 0;
    while i < w.len()
        invariant
            w@ == u@,
            w@.len() <= b - a,
            a <= b <= cs@.len(),
            0 <= i <= w@.len(),
            forall|k: int| 0 <= k < i ==> cs@[a + k] == w@[k],
        decreases w@.len() - i,
    {
        if cs[a + i] != w[i] {
            assert(cs@.subrange(a as int, a + u@.len())[i as int] == cs@[a + i]);
            return false;
        }
        i = i + 1;
    }
    assert(cs@.subrange(a as int, a + u@.len()) =~= u@);
    true
}

} // verus!
