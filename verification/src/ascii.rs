//! The ASCII FBX format: tokens and the parser of the node tree.
//!
//! A node is a name followed by a colon, values separated by commas and an
//! optional block of children in braces. Values are integers, floats,
//! quoted strings (with `&quot;`, `&cr;` and `&lf;` escapes), bare words
//! (read as the code of their first character) and arrays written
//! `*count { a: values }`. A semicolon starts a comment up to the end of
//! the line; the first comment may name the format version, as in
//! `; FBX 7.4.0 project file`.
//!
//! Float values are kept as the text of the number; turning that text into
//! a floating-point value is left to the caller.
use vstd::prelude::*;
use vstd::std_specs::iter::IteratorSpec;
use vstd::string::StrSliceExecFns;
use crate::error::Error;
use crate::obj::{i64_text, parse_i64_text};
use crate::text::{char_len_utf8, char_utf8_len, push_char, push_str};

verus! {

/// The kind of a token of the ASCII format.
#[derive(Debug, Clone, Copy, PartialEq, Eq, Structural)]
pub enum TokenType {
    /// End of the input.
    End,
    /// A node name followed by a colon, such as `NodeName:`.
    Name,
    /// A bare word without a colon.
    BareWord,
    /// An integer number.
    Int,
    /// A floating-point number.
    Float,
    /// A quoted string.
    String,
    /// A single punctuation character: `{`, `}`, `,`, `*` or `:`.
    Char(char),
}

// ---------------------------------------------------------------------------
// Characters
// ---------------------------------------------------------------------------

/// Space or tab.
pub open spec fn is_blank(c: char) -> bool {
    c == ' ' || c == '\t'
}

/// Whitespace between tokens.
pub open spec fn is_space(c: char) -> bool {
    c == ' ' || c == '\t' || c == '\r' || c == '\n'
}

/// An ASCII decimal digit.
pub open spec fn is_digit_char(c: char) -> bool {
    '0' <= c <= '9'
}

/// An ASCII letter.
pub open spec fn is_alpha(c: char) -> bool {
    ('a' <= c <= 'z') || ('A' <= c <= 'Z')
}

/// A character of an identifier.
pub open spec fn is_ident_char(c: char) -> bool {
    is_alpha(c) || is_digit_char(c) || c == '_' || c == '-' || c == '(' || c == ')'
}

/// A character of the numeric part of a number.
pub open spec fn is_number_char(c: char) -> bool {
    is_digit_char(c) || c == '-' || c == '+' || c == '.' || c == 'e' || c == 'E'
}

/// A character of the word that may follow a number, as in `1.#INF`.
pub open spec fn is_tail_char(c: char) -> bool {
    is_alpha(c) || is_digit_char(c) || c == '#' || c == '(' || c == ')'
}

/// Where the run of blanks from `p` ends.
pub open spec fn blank_end(s: Seq<char>, p: int) -> int
    decreases s.len() - p,
{
    if 0 <= p < s.len() && is_blank(s[p]) {
        blank_end(s, p + 1)
    } else {
        p
    }
}

/// Where the run of identifier characters from `p` ends.
pub open spec fn ident_end(s: Seq<char>, p: int) -> int
    decreases s.len() - p,
{
    if 0 <= p < s.len() && is_ident_char(s[p]) {
        ident_end(s, p + 1)
    } else {
        p
    }
}

/// Where the run of numeric characters from `p` ends.
pub open spec fn number_end(s: Seq<char>, p: int) -> int
    decreases s.len() - p,
{
    if 0 <= p < s.len() && is_number_char(s[p]) {
        number_end(s, p + 1)
    } else {
        p
    }
}

/// Where the word after a number, from `p`, ends.
pub open spec fn tail_end(s: Seq<char>, p: int) -> int
    decreases s.len() - p,
{
    if 0 <= p < s.len() && is_tail_char(s[p]) {
        tail_end(s, p + 1)
    } else {
        p
    }
}

/// Just after the first line end at or after `p`, or the end of the input.
pub open spec fn line_end(s: Seq<char>, p: int) -> int
    decreases s.len() - p,
{
    if p >= s.len() {
        s.len() as int
    } else if s[p] == '\n' {
        p + 1
    } else {
        line_end(s, p + 1)
    }
}

/// The value of a digit character.
pub open spec fn digit_value(c: char) -> int {
    (c as int) - ('0' as int)
}

/// The version that a comment at `p` names: `;`, blanks, `FBX`, blanks,
/// then `X.Y.Z` with single digits, as the number `XYZ0`.
pub open spec fn version_at(s: Seq<char>, p: int) -> Option<u32> {
    let q = blank_end(s, p + 1);
    if q + 3 <= s.len() && s[q] == 'F' && s[q + 1] == 'B' && s[q + 2] == 'X' {
        let r = blank_end(s, q + 3);
        if r + 5 <= s.len() && is_digit_char(s[r]) && s[r + 1] == '.' && is_digit_char(s[r + 2])
            && s[r + 3] == '.' && is_digit_char(s[r + 4]) {
            Some(
                (digit_value(s[r]) * 1000 + digit_value(s[r + 2]) * 100 + digit_value(s[r + 4])
                    * 10) as u32,
            )
        } else {
            None
        }
    } else {
        None
    }
}

/// What the lexer knows besides the text: its position, whether a comment
/// was seen, and the version the first comment named.
pub type LexState = (int, bool, Option<u32>);

/// Skips whitespace and comments from `st`.
pub open spec fn skip_space(s: Seq<char>, st: LexState) -> LexState
    decreases s.len() - st.0,
{
    let p = st.0;
    if 0 <= p < s.len() && is_space(s[p]) {
        skip_space(s, (p + 1, st.1, st.2))
    } else if 0 <= p < s.len() && s[p] == ';' {
        let version = if !st.1 {
            match version_at(s, p) {
                Some(v) => Some(v),
                None => st.2,
            }
        } else {
            st.2
        };
        proof {
            lemma_line_end(s, p + 1);
        }
        skip_space(s, (line_end(s, p + 1), true, version))
    } else {
        st
    }
}

/// Where a line end is.
pub proof fn lemma_line_end(s: Seq<char>, p: int)
    requires
        0 <= p,
    ensures
        p <= s.len() ==> p <= line_end(s, p) <= s.len(),
        p > s.len() ==> line_end(s, p) == s.len(),
    decreases s.len() - p,
{
    if p < s.len() && s[p] != '\n' {
        lemma_line_end(s, p + 1);
    }
}


/// Number of UTF-8 bytes of some characters.
pub open spec fn utf8_len(t: Seq<char>) -> nat
    decreases t.len(),
{
    if t.len() == 0 {
        0
    } else {
        utf8_len(t.drop_last()) + char_utf8_len(t.last())
    }
}

/// Reads an `&` entity from `q`, the entity text so far being `ent`: up to
/// and with a `;`, or until it is more than ten bytes long, or the input
/// ends. Gives where reading stopped and the entity text.
pub open spec fn entity_scan(s: Seq<char>, q: int, ent: Seq<char>) -> (int, Seq<char>)
    decreases s.len() - q,
{
    if q < 0 || q >= s.len() {
        (q, ent)
    } else {
        let ent2 = ent.push(s[q]);
        if s[q] == ';' || utf8_len(ent2) > 10 {
            (q + 1, ent2)
        } else {
            entity_scan(s, q + 1, ent2)
        }
    }
}

/// The character an entity stands for; unknown entities become `&`.
pub open spec fn entity_char(ent: Seq<char>) -> char {
    if ent == "&quot;"@ {
        '"'
    } else if ent == "&cr;"@ {
        '\r'
    } else if ent == "&lf;"@ {
        '\n'
    } else {
        '&'
    }
}

/// Reading past an entity moves forward.
pub proof fn lemma_entity_scan(s: Seq<char>, q: int, ent: Seq<char>)
    requires
        0 <= q <= s.len(),
    ensures
        q <= entity_scan(s, q, ent).0 <= s.len(),
        q < s.len() ==> q < entity_scan(s, q, ent).0,
    decreases s.len() - q,
{
    if q < s.len() {
        let ent2 = ent.push(s[q]);
        if !(s[q] == ';' || utf8_len(ent2) > 10) {
            lemma_entity_scan(s, q + 1, ent2);
        }
    }
}

/// The text of a quoted string whose body starts at `p`, and where
/// reading stopped: after the closing quote, or at the end of the input.
pub open spec fn read_str(s: Seq<char>, p: int) -> (Seq<char>, int)
    decreases s.len() - p,
{
    if p < 0 || p >= s.len() {
        (Seq::empty(), p)
    } else if s[p] == '"' {
        (Seq::empty(), p + 1)
    } else if s[p] == '&' {
        proof {
            lemma_entity_scan(s, p + 1, seq!['&']);
        }
        let (q, ent) = entity_scan(s, p + 1, seq!['&']);
        let (rest, e) = read_str(s, q);
        (seq![entity_char(ent)] + rest, e)
    } else {
        let (rest, e) = read_str(s, p + 1);
        (seq![s[p]] + rest, e)
    }
}

/// Whether the numeric part of a number marks a float.
pub open spec fn has_float_mark(t: Seq<char>) -> bool {
    exists|k: int| 0 <= k < t.len() && (t[k] == '.' || t[k] == 'e' || t[k] == 'E')
}

/// ASCII characters as bytes.
pub open spec fn ascii_bytes(t: Seq<char>) -> Seq<u8> {
    Seq::new(t.len(), |k: int| t[k] as u8)
}

/// A token as the lexer reads it: its kind, its text (the name, word,
/// number or string), its integer value and whether it began with `-`.
pub struct TokModel {
    pub kind: TokenType,
    pub text: Seq<char>,
    pub int_value: i64,
    pub negative: bool,
}

/// A token with only a kind.
pub open spec fn bare_token(kind: TokenType) -> TokModel {
    TokModel { kind, text: Seq::empty(), int_value: 0, negative: false }
}

/// What reading a token gives: the token and the state after it, or an
/// integer that does not fit.
pub enum LexOutcome {
    Token(TokModel, LexState),
    BadInt(Seq<char>),
}

/// Reads the token after `st`.
pub open spec fn next_tok(s: Seq<char>, st: LexState) -> LexOutcome {
    let st1 = skip_space(s, st);
    let p = st1.0;
    if p < 0 || p >= s.len() {
        LexOutcome::Token(bare_token(TokenType::End), st1)
    } else {
        let c = s[p];
        if is_alpha(c) || c == '_' {
            let e = ident_end(s, p);
            let st2 = skip_space(s, (e, st1.1, st1.2));
            let text = s.subrange(p, e);
            if 0 <= st2.0 < s.len() && s[st2.0] == ':' {
                LexOutcome::Token(
                    TokModel { kind: TokenType::Name, text, int_value: 0, negative: false },
                    (st2.0 + 1, st2.1, st2.2),
                )
            } else {
                LexOutcome::Token(
                    TokModel { kind: TokenType::BareWord, text, int_value: 0, negative: false },
                    st2,
                )
            }
        } else if is_digit_char(c) || c == '-' || c == '+' || c == '.' {
            let e1 = number_end(s, p);
            let e2 = tail_end(s, e1);
            let text = s.subrange(p, e2);
            let negative = c == '-';
            if has_float_mark(s.subrange(p, e1)) || e2 > e1 {
                LexOutcome::Token(
                    TokModel { kind: TokenType::Float, text, int_value: 0, negative },
                    (e2, st1.1, st1.2),
                )
            } else {
                match i64_text(ascii_bytes(text)) {
                    Some(v) => LexOutcome::Token(
                        TokModel { kind: TokenType::Int, text, int_value: v, negative },
                        (e2, st1.1, st1.2),
                    ),
                    None => LexOutcome::BadInt(text),
                }
            }
        } else if c == '"' {
            let (body, e) = read_str(s, p + 1);
            LexOutcome::Token(
                TokModel { kind: TokenType::String, text: body, int_value: 0, negative: false },
                (e, st1.1, st1.2),
            )
        } else {
            LexOutcome::Token(bare_token(TokenType::Char(c)), (p + 1, st1.1, st1.2))
        }
    }
}


// ---------------------------------------------------------------------------
// Lexer
// ---------------------------------------------------------------------------

/// The characters of `input`, in order.
pub(crate) fn chars_of(input: &str) -> (r: Vec<char>)
    ensures
        r@ == input@,
{
    broadcast use vstd::string::axiom_spec_iter, vstd::string::next_postcondition;

    let mut out: Vec<char> = Vec::new();
    let mut it = input.chars();
    loop
        invariant
            out@ + it.remaining() == input@,
            it.obeys_prophetic_iter_laws(),
            it.decrease() is Some,
        ensures
            out@ == input@,
        decreases it.decrease()->0,
    {
        match it.next() {
            Some(c) => {
                out.push(c);
                assert(out@ + it.remaining() =~= input@);
            },
            None => {
                assert(out@ =~= input@);
                break;
            },
        }
    }
    out
}

/// A token read from the input.
#[derive(Debug, Clone)]
pub struct Token {
    /// Kind of token.
    pub token_type: TokenType,
    /// Text of a name, bare word, number or string.
    pub string_value: String,
    /// Value of an integer token.
    pub int_value: i64,
    /// Number of bytes of a name.
    pub name_len: usize,
    /// Whether a number began with `-`.
    pub negative: bool,
    /// Line where the token starts, from 1.
    pub line: usize,
    /// Column where the token starts, from 1.
    pub col: usize,
}

/// What a token holds, without its position.
pub open spec fn tok_model(t: Token) -> TokModel {
    TokModel { kind: t.token_type, text: t.string_value@, int_value: t.int_value, negative: t.negative }
}

impl Token {
    /// A token with only a kind and a position.
    pub fn new(token_type: TokenType, line: usize, col: usize) -> (r: Token)
        ensures
            tok_model(r) == bare_token(token_type),
            r.name_len == 0,
            r.line == line,
            r.col == col,
    {
        let t = Token {
            token_type,
            string_value: String::new(),
            int_value: 0,
            name_len: 0,
            negative: false,
            line,
            col,
        };
        assert(t.string_value@ =~= Seq::<char>::empty());
        t
    }

    /// A punctuation token.
    pub fn with_char(c: char, line: usize, col: usize) -> (r: Token)
        ensures
            tok_model(r) == bare_token(TokenType::Char(c)),
            r.line == line,
            r.col == col,
    {
        Token::new(TokenType::Char(c), line, col)
    }
}

/// Whether `c` is a blank.
fn blank(c: char) -> (r: bool)
    ensures
        r == is_blank(c),
{
    c == ' ' || c == '\t'
}

/// Whether `c` is whitespace between tokens.
fn space(c: char) -> (r: bool)
    ensures
        r == is_space(c),
{
    c == ' ' || c == '\t' || c == '\r' || c == '\n'
}

/// Whether `c` is an ASCII digit.
fn digit(c: char) -> (r: bool)
    ensures
        r == is_digit_char(c),
{
    '0' <= c && c <= '9'
}

/// Whether `c` is an ASCII letter.
fn alpha(c: char) -> (r: bool)
    ensures
        r == is_alpha(c),
{
    ('a' <= c && c <= 'z') || ('A' <= c && c <= 'Z')
}

/// The position after the blanks from `p`.
fn skip_blanks_at(s: &Vec<char>, p: usize) -> (r: usize)
    requires
        p <= s@.len(),
    ensures
        r == blank_end(s@, p as int),
        p <= r <= s@.len(),
{
    let mut q = p;
    while q < s.len() && blank(s[q])
        invariant
            p <= q <= s@.len(),
            blank_end(s@, q as int) == blank_end(s@, p as int),
        decreases s@.len() - q,
    {
        q = q + 1;
    }
    q
}

/// The version that a comment at `p` names, as [`version_at`] states.
pub fn comment_version(s: &Vec<char>, p: usize) -> (r: Option<u32>)
    requires
        p < s@.len(),
    ensures
        r == version_at(s@, p as int),
{
    let n = s.len();
    let q = skip_blanks_at(s, p + 1);
    if n >= 3 && q <= n - 3 && s[q] == 'F' && s[q + 1] == 'B' && s[q + 2] == 'X' {
        let r = skip_blanks_at(s, q + 3);
        if n >= 5 && r <= n - 5 && digit(s[r]) && s[r + 1] == '.' && digit(s[r + 2]) && s[r + 3] == '.'
            && digit(s[r + 4]) {
            let d0 = (s[r] as u32) - 48;
            let d1 = (s[r + 2] as u32) - 48;
            let d2 = (s[r + 4] as u32) - 48;
            Some(d0 * 1000 + d1 * 100 + d2 * 10)
        } else {
            None
        }
    } else {
        None
    }
}



/// Where the line end from `q` is.
fn line_end_at(s: &Vec<char>, q: usize) -> (r: usize)
    requires
        q <= s@.len(),
    ensures
        r == line_end(s@, q as int),
        q <= r <= s@.len(),
{
    let mut i = q;
    while i < s.len() && s[i] != '\n'
        invariant
            q <= i <= s@.len(),
            line_end(s@, i as int) == line_end(s@, q as int),
        decreases s@.len() - i,
    {
        i = i + 1;
    }
    if i < s.len() {
        i + 1
    } else {
        i
    }
}

/// Where the identifier from `p` ends.
fn ident_end_at(s: &Vec<char>, p: usize) -> (r: usize)
    requires
        p <= s@.len(),
    ensures
        r == ident_end(s@, p as int),
        p <= r <= s@.len(),
        forall|k: int| p <= k < r ==> is_ident_char(#[trigger] s@[k]),
{
    let mut q = p;
    while q < s.len() && (alpha(s[q]) || digit(s[q]) || s[q] == '_' || s[q] == '-' || s[q] == '(' || s[q] == ')')
        invariant
            p <= q <= s@.len(),
            ident_end(s@, q as int) == ident_end(s@, p as int),
            forall|k: int| p <= k < q ==> is_ident_char(#[trigger] s@[k]),
        decreases s@.len() - q,
    {
        q = q + 1;
    }
    q
}

/// Where the numeric part from `p` ends, and whether it holds a float mark.
fn number_end_at(s: &Vec<char>, p: usize) -> (r: (usize, bool))
    requires
        p <= s@.len(),
    ensures
        r.0 == number_end(s@, p as int),
        p <= r.0 <= s@.len(),
        r.1 == has_float_mark(s@.subrange(p as int, r.0 as int)),
        forall|k: int| p <= k < r.0 ==> is_number_char(#[trigger] s@[k]),
{
    let mut q = p;
    let mut mark = false;
    while q < s.len() && (digit(s[q]) || s[q] == '-' || s[q] == '+' || s[q] == '.' || s[q] == 'e' || s[q] == 'E')
        invariant
            p <= q <= s@.len(),
            number_end(s@, q as int) == number_end(s@, p as int),
            forall|k: int| p <= k < q ==> is_number_char(#[trigger] s@[k]),
            mark == has_float_mark(s@.subrange(p as int, q as int)),
        decreases s@.len() - q,
    {
        let c = s[q];
        proof {
            let t = s@.subrange(p as int, q as int);
            let t2 = s@.subrange(p as int, q + 1);
            assert(t2 =~= t.push(c));
            if has_float_mark(t) {
                let k = choose|k: int| 0 <= k < t.len() && (t[k] == '.' || t[k] == 'e' || t[k] == 'E');
                assert(t2[k] == t[k]);
            }
            if c == '.' || c == 'e' || c == 'E' {
                assert(t2[t.len() as int] == c);
            }
            if has_float_mark(t2) && !(c == '.' || c == 'e' || c == 'E') {
                let k = choose|k: int| 0 <= k < t2.len() && (t2[k] == '.' || t2[k] == 'e' || t2[k] == 'E');
                assert(k < t.len());
                assert(t[k] == t2[k]);
            }
        }
        if c == '.' || c == 'e' || c == 'E' {
            mark = true;
        }
        q = q + 1;
    }
    (q, mark)
}

/// Where the word after a number, from `p`, ends.
fn tail_end_at(s: &Vec<char>, p: usize) -> (r: usize)
    requires
        p <= s@.len(),
    ensures
        r == tail_end(s@, p as int),
        p <= r <= s@.len(),
        forall|k: int| p <= k < r ==> is_tail_char(#[trigger] s@[k]),
{
    let mut q = p;
    while q < s.len() && (alpha(s[q]) || digit(s[q]) || s[q] == '#' || s[q] == '(' || s[q] == ')')
        invariant
            p <= q <= s@.len(),
            tail_end(s@, q as int) == tail_end(s@, p as int),
            forall|k: int| p <= k < q ==> is_tail_char(#[trigger] s@[k]),
        decreases s@.len() - q,
    {
        q = q + 1;
    }
    q
}

/// The characters `s[p..e]` as a string.
fn text_of_range(s: &Vec<char>, p: usize, e: usize) -> (r: String)
    requires
        p <= e <= s@.len(),
    ensures
        r@ == s@.subrange(p as int, e as int),
{
    let mut out = String::new();
    let mut i = p;
    while i < e
        invariant
            p <= i <= e <= s@.len(),
            out@ == s@.subrange(p as int, i as int),
        decreases e - i,
    {
        push_char(&mut out, s[i]);
        i = i + 1;
        assert(out@ =~= s@.subrange(p as int, i as int));
    }
    out
}

/// The characters `s[p..e]`, ASCII, as bytes.
fn bytes_of_range(s: &Vec<char>, p: usize, e: usize) -> (r: Vec<u8>)
    requires
        p <= e <= s@.len(),
    ensures
        r@ == ascii_bytes(s@.subrange(p as int, e as int)),
{
    let mut out: Vec<u8> = Vec::new();
    let mut i = p;
    while i < e
        invariant
            p <= i <= e <= s@.len(),
            out@ == ascii_bytes(s@.subrange(p as int, i as int)),
        decreases e - i,
    {
        out.push(s[i] as u8);
        i = i + 1;
        assert(out@ =~= ascii_bytes(s@.subrange(p as int, i as int)));
    }
    out
}

/// Reads an entity from `q` (the `&` already read): gives where reading
/// stopped and the character it stands for.
fn scan_entity(s: &Vec<char>, q: usize) -> (r: (usize, char))
    requires
        q <= s@.len(),
    ensures
        r.0 == entity_scan(s@, q as int, seq!['&']).0,
        r.1 == entity_char(entity_scan(s@, q as int, seq!['&']).1),
{
    let mut ent: Vec<char> = Vec::new();
    ent.push('&');
    let mut bytes: usize = 1;
    let mut i = q;
    proof {
        let e0 = seq!['&'];
        assert(e0.drop_last() =~= Seq::<char>::empty());
        assert(e0.last() == '&');
        assert(char_utf8_len('&') == 1);
        assert(utf8_len(Seq::<char>::empty()) == 0);
        assert(utf8_len(e0) == utf8_len(e0.drop_last()) + char_utf8_len(e0.last()));
        assert(ent@ =~= e0);
        assert(utf8_len(e0) == 1);
    }
    loop
        invariant_except_break
            bytes <= 10,
            entity_scan(s@, i as int, ent@) == entity_scan(s@, q as int, seq!['&']),
        invariant
            q <= i <= s@.len(),
            bytes == utf8_len(ent@),
        ensures
            entity_scan(s@, q as int, seq!['&']) == (i as int, ent@),
        decreases s@.len() - i,
    {
        if i >= s.len() {
            break;
        }
        let c = s[i];
        let ghost before = ent@;
        ent.push(c);
        bytes = bytes + char_len_utf8(c);
        assert(ent@.drop_last() =~= before);
        i = i + 1;
        if c == ';' || bytes > 10 {
            break;
        }
    }
    let ghost ent_final = ent@;
    proof {
        reveal_strlit("&quot;");
        reveal_strlit("&cr;");
        reveal_strlit("&lf;");
    }
    let ch = if ent.len() == 6 && ent[0] == '&' && ent[1] == 'q' && ent[2] == 'u' && ent[3] == 'o' && ent[4] == 't' && ent[5] == ';' {
        assert(ent@ =~= "&quot;"@);
        '"'
    } else if ent.len() == 4 && ent[0] == '&' && ent[1] == 'c' && ent[2] == 'r' && ent[3] == ';' {
        assert(ent@ =~= "&cr;"@);
        '\r'
    } else if ent.len() == 4 && ent[0] == '&' && ent[1] == 'l' && ent[2] == 'f' && ent[3] == ';' {
        assert(ent@ =~= "&lf;"@);
        '\n'
    } else {
        proof {
            if ent@ == "&quot;"@ {
                assert(ent@[1] == 'q');
            }
            if ent@ == "&cr;"@ {
                assert(ent@[1] == 'c');
            }
            if ent@ == "&lf;"@ {
                assert(ent@[1] == 'l');
            }
        }
        '&'
    };
    (i, ch)
}


/// Reads the body of a quoted string from `p`, as [`read_str`] states.
fn read_string_body(s: &Vec<char>, p: usize) -> (r: (String, usize))
    requires
        p <= s@.len(),
    ensures
        (r.0@, r.1 as int) == read_str(s@, p as int),
{
    let mut out = String::new();
    let mut q = p;
    loop
        invariant_except_break
            read_str(s@, p as int) == (out@ + read_str(s@, q as int).0, read_str(s@, q as int).1),
        invariant
            p <= q <= s@.len(),
        ensures
            read_str(s@, p as int) == (out@, q as int),
        decreases s@.len() - q,
    {
        if q >= s.len() {
            assert(out@ + Seq::<char>::empty() =~= out@);
            break;
        }
        let c = s[q];
        if c == '"' {
            assert(out@ + Seq::<char>::empty() =~= out@);
            q = q + 1;
            break;
        }
        let ghost before = out@;
        if c == '&' {
            let (next, ch) = scan_entity(s, q + 1);
            proof {
                lemma_entity_scan(s@, q + 1, seq!['&']);
            }
            push_char(&mut out, ch);
            proof {
                assert(before + (seq![ch] + read_str(s@, next as int).0) =~= out@ + read_str(s@, next as int).0);
            }
            q = next;
        } else {
            push_char(&mut out, c);
            proof {
                assert(before + (seq![c] + read_str(s@, q + 1).0) =~= out@ + read_str(s@, q + 1).0);
            }
            q = q + 1;
        }
    }
    (out, q)
}

/// Parser of the ASCII format over the characters of its input.
pub struct AsciiParser {
    chars: Vec<char>,
    byte_len: usize,
    pos: usize,
    line: usize,
    col: usize,
    current_token: Token,
    /// The version named by the first comment, if it names one.
    pub version: Option<u32>,
    read_first_comment: bool,
}

impl AsciiParser {
    /// The lexer state.
    closed spec fn lex(&self) -> LexState {
        (self.pos as int, self.read_first_comment, self.version)
    }

    /// Moves one character forward, keeping the line and column.
    fn advance_char(&mut self)
        requires
            old(self).pos < old(self).chars@.len(),
        ensures
            final(self).pos == old(self).pos + 1,
            final(self).chars == old(self).chars,
            final(self).byte_len == old(self).byte_len,
            final(self).version == old(self).version,
            final(self).read_first_comment == old(self).read_first_comment,
            final(self).current_token == old(self).current_token,
    {
        let n = self.chars.len();
        let c = self.chars[self.pos];
        self.pos = self.pos + 1;
        if c == '\n' {
            if self.line < usize::MAX {
                self.line = self.line + 1;
            }
            self.col = 1;
        } else if self.col < usize::MAX {
            self.col = self.col + 1;
        }
    }

    /// Moves forward to `target`.
    fn advance_to(&mut self, target: usize)
        requires
            old(self).pos <= target <= old(self).chars@.len(),
        ensures
            final(self).pos == target,
            final(self).chars == old(self).chars,
            final(self).byte_len == old(self).byte_len,
            final(self).version == old(self).version,
            final(self).read_first_comment == old(self).read_first_comment,
            final(self).current_token == old(self).current_token,
    {
        while self.pos < target
            invariant
                self.pos <= target <= self.chars@.len(),
                self.chars == old(self).chars,
                self.byte_len == old(self).byte_len,
                self.version == old(self).version,
                self.read_first_comment == old(self).read_first_comment,
                self.current_token == old(self).current_token,
            decreases target - self.pos,
        {
            self.advance_char();
        }
    }

    /// Skips whitespace and comments; the first comment may name the version.
    fn skip_space(&mut self)
        requires
            old(self).pos <= old(self).chars@.len(),
        ensures
            final(self).lex() == skip_space(old(self).chars@, old(self).lex()),
            final(self).pos <= final(self).chars@.len(),
            final(self).chars == old(self).chars,
            final(self).byte_len == old(self).byte_len,
            final(self).current_token == old(self).current_token,
    {
        let ghost target = skip_space(self.chars@, self.lex());
        loop
            invariant
                self.pos <= self.chars@.len(),
                self.chars == old(self).chars,
                self.byte_len == old(self).byte_len,
                self.current_token == old(self).current_token,
                skip_space(self.chars@, self.lex()) == target,
            ensures
                self.lex() == target,
            decreases self.chars@.len() - self.pos,
        {
            if self.pos >= self.chars.len() {
                break;
            }
            let c = self.chars[self.pos];
            if space(c) {
                self.advance_char();
            } else if c == ';' {
                if !self.read_first_comment {
                    self.read_first_comment = true;
                    match comment_version(&self.chars, self.pos) {
                        Some(v) => {
                            self.version = Some(v);
                        },
                        None => {},
                    }
                }
                let e = line_end_at(&self.chars, self.pos + 1);
                self.advance_to(e);
            } else {
                break;
            }
        }
    }
}


/// The error for an integer token that does not fit an `i64`.
pub open spec fn bad_int_error(e: Error, text: Seq<char>) -> bool {
    e matches Error::Unknown { description, stack } && stack is None && description@
        == "Invalid integer: "@ + text
}

impl AsciiParser {
    /// Reads the next token into `current_token`.
    fn next_token(&mut self) -> (r: Result<(), Error>)
        requires
            old(self).pos <= old(self).chars@.len(),
        ensures
            final(self).chars == old(self).chars,
            final(self).byte_len == old(self).byte_len,
            final(self).pos <= final(self).chars@.len(),
            match next_tok(old(self).chars@, old(self).lex()) {
                LexOutcome::Token(t, st) => r is Ok && tok_model(final(self).current_token) == t
                    && final(self).lex() == st,
                LexOutcome::BadInt(text) => r matches Err(e) && bad_int_error(e, text),
            },
            r is Ok ==> (final(self).current_token.token_type == TokenType::End ==> final(self).pos
                == final(self).chars@.len() && final(self).current_token.string_value@.len() == 0),
    {
        proof {
            lemma_next_tok(self.chars@, self.lex());
        }
        self.skip_space();
        let line = self.line;
        let col = self.col;
        let n = self.chars.len();
        let p = self.pos;
        if p >= n {
            self.current_token = Token::new(TokenType::End, line, col);
            return Ok(());
        }
        let c = self.chars[p];
        if alpha(c) || c == '_' {
            let e = ident_end_at(&self.chars, p);
            let value = text_of_range(&self.chars, p, e);
            self.advance_to(e);
            self.skip_space();
            let is_name = self.pos < n && self.chars[self.pos] == ':';
            if is_name {
                self.advance_char();
            }
            let name_len = value.as_str().len();
            let mut token = Token::new(
                if is_name {
                    TokenType::Name
                } else {
                    TokenType::BareWord
                },
                line,
                col,
            );
            token.string_value = value;
            token.name_len = name_len;
            self.current_token = token;
            Ok(())
        } else if digit(c) || c == '-' || c == '+' || c == '.' {
            let (e1, mark) = number_end_at(&self.chars, p);
            let e2 = tail_end_at(&self.chars, e1);
            let value = text_of_range(&self.chars, p, e2);
            let negative = c == '-';
            self.advance_to(e2);
            if mark || e2 > e1 {
                let mut token = Token::new(TokenType::Float, line, col);
                token.string_value = value;
                token.negative = negative;
                self.current_token = token;
                Ok(())
            } else {
                let bytes = bytes_of_range(&self.chars, p, e2);
                match parse_i64_text(bytes.as_slice(), 0, bytes.len()) {
                    Some(v) => {
                        proof {
                            assert(bytes@.subrange(0, bytes@.len() as int) =~= bytes@);
                        }
                        let mut token = Token::new(TokenType::Int, line, col);
                        token.string_value = value;
                        token.int_value = v;
                        token.negative = negative;
                        self.current_token = token;
                        Ok(())
                    },
                    None => {
                        proof {
                            assert(bytes@.subrange(0, bytes@.len() as int) =~= bytes@);
                        }
                        let mut description = String::new();
                        push_str(&mut description, "Invalid integer: ");
                        push_str(&mut description, value.as_str());
                        Err(Error::Unknown { description, stack: None })
                    },
                }
            }
        } else if c == '"' {
            let (body, e) = read_string_body(&self.chars, p + 1);
            proof {
                lemma_read_str_end(self.chars@, p + 1);
            }
            self.advance_to(e);
            let mut token = Token::new(TokenType::String, line, col);
            token.string_value = body;
            self.current_token = token;
            Ok(())
        } else {
            self.advance_char();
            self.current_token = Token::with_char(c, line, col);
            Ok(())
        }
    }
}

/// Reading a string moves forward, to at most the end of the input.
pub proof fn lemma_read_str_end(s: Seq<char>, p: int)
    requires
        0 <= p <= s.len(),
    ensures
        p <= read_str(s, p).1 <= s.len(),
    decreases s.len() - p,
{
    if p < s.len() && s[p] != '"' {
        if s[p] == '&' {
            lemma_entity_scan(s, p + 1, seq!['&']);
            lemma_read_str_end(s, entity_scan(s, p + 1, seq!['&']).0);
        } else {
            lemma_read_str_end(s, p + 1);
        }
    }
}


// ---------------------------------------------------------------------------
// Parser
// ---------------------------------------------------------------------------

/// A parsed value.
#[derive(Debug)]
pub enum AsciiValue {
    /// An integer number.
    Int(i64),
    /// A floating-point number, as its text.
    Float(String),
    /// A string.
    String(String),
    /// The values of an array.
    Array(Vec<AsciiValue>),
}

/// A parsed node: its name, values and children.
#[derive(Debug)]
pub struct AsciiNode {
    pub name: String,
    pub values: Vec<AsciiValue>,
    pub children: Vec<AsciiNode>,
}

/// What a parsed value holds.
pub enum ValModel {
    Int(i64),
    Float(Seq<char>),
    Str(Seq<char>),
    Array(Seq<ValModel>),
}

/// What a parsed node holds.
pub struct NodeText {
    pub name: Seq<char>,
    pub values: Seq<ValModel>,
    pub children: Seq<NodeText>,
}

/// View of a value.
pub open spec fn val_model(v: AsciiValue) -> ValModel
    decreases v,
{
    match v {
        AsciiValue::Int(i) => ValModel::Int(i),
        AsciiValue::Float(t) => ValModel::Float(t@),
        AsciiValue::String(t) => ValModel::Str(t@),
        AsciiValue::Array(a) => ValModel::Array(vals_model(a@)),
    }
}

/// Views of values.
pub open spec fn vals_model(s: Seq<AsciiValue>) -> Seq<ValModel>
    decreases s,
{
    if s.len() == 0 {
        Seq::empty()
    } else {
        vals_model(s.drop_last()).push(val_model(s.last()))
    }
}

/// View of a node.
pub open spec fn anode_model(n: AsciiNode) -> NodeText
    decreases n,
{
    NodeText { name: n.name@, values: vals_model(n.values@), children: anodes_model(n.children@) }
}

/// Views of nodes.
pub open spec fn anodes_model(s: Seq<AsciiNode>) -> Seq<NodeText>
    decreases s,
{
    if s.len() == 0 {
        Seq::empty()
    } else {
        anodes_model(s.drop_last()).push(anode_model(s.last()))
    }
}

/// Ways parsing fails.
pub enum ParseFault {
    /// An integer that does not fit an `i64`.
    BadInt(Seq<char>),
    /// A token other than the one the grammar asks for.
    Unexpected,
    /// Nodes nested as deep as the limit.
    DepthLimit(int),
    /// The input ended inside a block of children.
    Truncated,
}

/// The current token and the lexer state after it.
pub type PState = (TokModel, LexState);

/// Progress measure: input left, and whether a token is still to be taken.
pub open spec fn measure(s: Seq<char>, ps: PState) -> int {
    2 * (s.len() - ps.1.0) + if ps.0.kind == TokenType::End {
        0int
    } else {
        1int
    }
}

/// Takes the current token and reads the next.
pub open spec fn advance(s: Seq<char>, ps: PState) -> Result<PState, ParseFault> {
    match next_tok(s, ps.1) {
        LexOutcome::Token(t, st) => Ok((t, st)),
        LexOutcome::BadInt(x) => Err(ParseFault::BadInt(x)),
    }
}

/// Takes a comma if it is the current token.
pub open spec fn accept_comma(s: Seq<char>, ps: PState) -> Result<PState, ParseFault> {
    if ps.0.kind == TokenType::Char(',') {
        advance(s, ps)
    } else {
        Ok(ps)
    }
}

/// The value a bare word stands for: the code of its first character.
pub open spec fn word_value(t: Seq<char>) -> i64 {
    if t.len() > 0 {
        (t[0] as u32) as i64
    } else {
        0
    }
}

/// The step from `ps` to `next` makes progress.
pub open spec fn progress(s: Seq<char>, next: PState, ps: PState) -> bool {
    0 <= measure(s, next) < measure(s, ps)
}

/// The value an array element token stands for, if any.
pub open spec fn element_value(t: TokModel) -> Option<ValModel> {
    match t.kind {
        TokenType::Int => Some(ValModel::Int(t.int_value)),
        TokenType::Float => Some(ValModel::Float(t.text)),
        TokenType::String => Some(ValModel::Str(t.text)),
        _ => if t.text.len() > 0 {
            Some(ValModel::Int(word_value(t.text)))
        } else {
            None
        },
    }
}

/// The elements of an array up to its closing brace, after `acc`.
pub open spec fn array_items(s: Seq<char>, ps: PState, acc: Seq<ValModel>) -> Result<
    (Seq<ValModel>, PState),
    ParseFault,
>
    decreases measure(s, ps),
{
    if ps.0.kind == TokenType::Char('}') {
        match advance(s, ps) {
            Ok(ps2) => Ok((acc, ps2)),
            Err(f) => Err(f),
        }
    } else {
        match advance(s, ps) {
            Err(f) => Err(f),
            Ok(ps2) => match element_value(ps.0) {
                None => Ok((acc, ps2)),
                Some(v) => match accept_comma(s, ps2) {
                    Err(f) => Err(f),
                    Ok(ps3) => if progress(s, ps3, ps) {
                        array_items(s, ps3, acc.push(v))
                    } else {
                        Err(ParseFault::Unexpected)
                    },
                },
            },
        }
    }
}

/// An array after its `*`: the count, `{`, a name such as `a:`, then the
/// elements up to `}`.
pub open spec fn array_value(s: Seq<char>, ps: PState) -> Result<(Seq<ValModel>, PState), ParseFault> {
    if ps.0.kind != TokenType::Int {
        Err(ParseFault::Unexpected)
    } else {
        match advance(s, ps) {
            Err(f) => Err(f),
            Ok(ps1) => if ps1.0.kind != TokenType::Char('{') {
                Err(ParseFault::Unexpected)
            } else {
                match advance(s, ps1) {
                    Err(f) => Err(f),
                    Ok(ps2) => if ps2.0.kind != TokenType::Name {
                        Err(ParseFault::Unexpected)
                    } else {
                        match advance(s, ps2) {
                            Err(f) => Err(f),
                            Ok(ps3) => array_items(s, ps3, Seq::empty()),
                        }
                    },
                }
            },
        }
    }
}

/// The value a node value token stands for, if any.
pub open spec fn node_value(t: TokModel) -> Option<ValModel> {
    match t.kind {
        TokenType::String => Some(ValModel::Str(t.text)),
        TokenType::Int => Some(ValModel::Int(t.int_value)),
        TokenType::Float => Some(ValModel::Float(t.text)),
        TokenType::BareWord => Some(ValModel::Int(word_value(t.text))),
        _ => None,
    }
}

/// The values of a node after `acc`: values separated by commas, ending
/// at the first token that is no value, or with an array.
pub open spec fn node_values(s: Seq<char>, ps: PState, acc: Seq<ValModel>) -> Result<
    (Seq<ValModel>, PState),
    ParseFault,
>
    decreases measure(s, ps),
{
    match node_value(ps.0) {
        Some(v) => match advance(s, ps) {
            Err(f) => Err(f),
            Ok(ps2) => if ps2.0.kind == TokenType::Char(',') {
                match advance(s, ps2) {
                    Err(f) => Err(f),
                    Ok(ps3) => if progress(s, ps3, ps) {
                        node_values(s, ps3, acc.push(v))
                    } else {
                        Err(ParseFault::Unexpected)
                    },
                }
            } else {
                Ok((acc.push(v), ps2))
            },
        },
        None => if ps.0.kind == TokenType::Char('*') {
            match advance(s, ps) {
                Err(f) => Err(f),
                Ok(ps2) => match array_value(s, ps2) {
                    Err(f) => Err(f),
                    Ok((items, ps3)) => Ok((acc.push(ValModel::Array(items)), ps3)),
                },
            }
        } else {
            Ok((acc, ps))
        },
    }
}

/// Deepest nesting of nodes accepted.
pub const MAX_ASCII_DEPTH: usize = 128;

/// A node at nesting `depth`: its name, an optional comma, its values and
/// an optional block of children.
pub open spec fn parse_node_at(s: Seq<char>, ps: PState, depth: int) -> Result<(NodeText, PState), ParseFault>
    decreases measure(s, ps), 0int,
{
    if depth >= MAX_ASCII_DEPTH {
        Err(ParseFault::DepthLimit(depth))
    } else if ps.0.kind != TokenType::Name {
        Err(ParseFault::Unexpected)
    } else {
        match advance(s, ps) {
            Err(f) => Err(f),
            Ok(ps1) => match accept_comma(s, ps1) {
                Err(f) => Err(f),
                Ok(ps2) => match node_values(s, ps2, Seq::empty()) {
                    Err(f) => Err(f),
                    Ok((values, ps3)) => if ps3.0.kind == TokenType::Char('{') {
                        match advance(s, ps3) {
                            Err(f) => Err(f),
                            Ok(ps4) => if progress(s, ps4, ps) {
                                match parse_children_at(s, ps4, depth, Seq::empty()) {
                                    Err(f) => Err(f),
                                    Ok((children, ps5)) => Ok(
                                        (NodeText { name: ps.0.text, values, children }, ps5),
                                    ),
                                }
                            } else {
                                Err(ParseFault::Unexpected)
                            },
                        }
                    } else {
                        Ok((NodeText { name: ps.0.text, values, children: Seq::empty() }, ps3))
                    },
                },
            },
        }
    }
}

/// The children of a node at `depth` after `acc`, up to the closing brace.
pub open spec fn parse_children_at(s: Seq<char>, ps: PState, depth: int, acc: Seq<NodeText>) -> Result<
    (Seq<NodeText>, PState),
    ParseFault,
>
    decreases measure(s, ps), 1int,
{
    if ps.0.kind == TokenType::Char('}') {
        match advance(s, ps) {
            Err(f) => Err(f),
            Ok(ps1) => Ok((acc, ps1)),
        }
    } else if ps.0.kind == TokenType::End {
        Err(ParseFault::Truncated)
    } else if measure(s, ps) < 0 {
        Err(ParseFault::Unexpected)
    } else {
        match parse_node_at(s, ps, depth + 1) {
            Err(f) => Err(f),
            Ok((node, ps1)) => if progress(s, ps1, ps) {
                parse_children_at(s, ps1, depth, acc.push(node))
            } else {
                Err(ParseFault::Unexpected)
            },
        }
    }
}

/// The top-level nodes after `acc`, up to the end of the input.
pub open spec fn parse_document_at(s: Seq<char>, ps: PState, acc: Seq<NodeText>) -> Result<Seq<NodeText>, ParseFault>
    decreases measure(s, ps),
{
    if ps.0.kind == TokenType::End {
        Ok(acc)
    } else {
        match parse_node_at(s, ps, 0) {
            Err(f) => Err(f),
            Ok((node, ps1)) => if progress(s, ps1, ps) {
                parse_document_at(s, ps1, acc.push(node))
            } else {
                Err(ParseFault::Unexpected)
            },
        }
    }
}

/// What parsing the whole text `s` gives.
pub open spec fn parse_text(s: Seq<char>) -> Result<Seq<NodeText>, ParseFault> {
    match next_tok(s, (0, false, None)) {
        LexOutcome::BadInt(x) => Err(ParseFault::BadInt(x)),
        LexOutcome::Token(t, st) => parse_document_at(s, (t, st), Seq::empty()),
    }
}


/// A parser state within the input, at its end once the end is reached.
pub open spec fn valid(s: Seq<char>, ps: PState) -> bool {
    &&& 0 <= ps.1.0 <= s.len()
    &&& ps.0.kind == TokenType::End ==> ps.1.0 == s.len() && ps.0.text.len() == 0
}

/// Skipping space moves forward within the input.
pub proof fn lemma_skip_space(s: Seq<char>, st: LexState)
    requires
        0 <= st.0 <= s.len(),
    ensures
        st.0 <= skip_space(s, st).0 <= s.len(),
    decreases s.len() - st.0,
{
    let p = st.0;
    if 0 <= p < s.len() && is_space(s[p]) {
        lemma_skip_space(s, (p + 1, st.1, st.2));
    } else if 0 <= p < s.len() && s[p] == ';' {
        lemma_line_end(s, p + 1);
        let version = if !st.1 {
            match version_at(s, p) {
                Some(v) => Some(v),
                None => st.2,
            }
        } else {
            st.2
        };
        lemma_skip_space(s, (line_end(s, p + 1), true, version));
    }
}

/// Runs of identifier characters end within the input.
proof fn lemma_ident_end(s: Seq<char>, p: int)
    requires
        0 <= p <= s.len(),
    ensures
        p <= ident_end(s, p) <= s.len(),
    decreases s.len() - p,
{
    if p < s.len() && is_ident_char(s[p]) {
        lemma_ident_end(s, p + 1);
    }
}

/// Runs of numeric characters end within the input.
proof fn lemma_number_end(s: Seq<char>, p: int)
    requires
        0 <= p <= s.len(),
    ensures
        p <= number_end(s, p) <= s.len(),
    decreases s.len() - p,
{
    if p < s.len() && is_number_char(s[p]) {
        lemma_number_end(s, p + 1);
    }
}

/// Words after numbers end within the input.
proof fn lemma_tail_end(s: Seq<char>, p: int)
    requires
        0 <= p <= s.len(),
    ensures
        p <= tail_end(s, p) <= s.len(),
    decreases s.len() - p,
{
    if p < s.len() && is_tail_char(s[p]) {
        lemma_tail_end(s, p + 1);
    }
}

/// Reading a token moves forward within the input: past the token unless
/// the input ended, and to its end when it did.
pub proof fn lemma_next_tok(s: Seq<char>, st: LexState)
    requires
        0 <= st.0 <= s.len(),
    ensures
        next_tok(s, st) matches LexOutcome::Token(t, st2) ==> {
            &&& st.0 <= st2.0 <= s.len()
            &&& t.kind == TokenType::End ==> st2.0 == s.len() && t.text.len() == 0
            &&& t.kind != TokenType::End ==> st.0 < st2.0
        },
{
    lemma_skip_space(s, st);
    let st1 = skip_space(s, st);
    let p = st1.0;
    if p < s.len() {
        let c = s[p];
        if is_alpha(c) || c == '_' {
            lemma_ident_end(s, p + 1);
            let e = ident_end(s, p);
            assert(e == ident_end(s, p + 1));
            lemma_skip_space(s, (e, st1.1, st1.2));
        } else if is_digit_char(c) || c == '-' || c == '+' || c == '.' {
            lemma_number_end(s, p + 1);
            let e1 = number_end(s, p);
            assert(e1 == number_end(s, p + 1));
            lemma_tail_end(s, e1);
        } else if c == '"' {
            lemma_read_str_end(s, p + 1);
        }
    }
}

/// Taking a token keeps the state valid, never goes back, and goes forward
/// from any token but the end.
pub proof fn lemma_advance(s: Seq<char>, ps: PState)
    requires
        valid(s, ps),
    ensures
        advance(s, ps) matches Ok(ps2) ==> valid(s, ps2) && measure(s, ps2) <= measure(s, ps) && (
        ps.0.kind != TokenType::End ==> progress(s, ps2, ps)),
{
    lemma_next_tok(s, ps.1);
    if ps.0.kind == TokenType::End {
        lemma_skip_space(s, ps.1);
    }
}

/// Taking an optional comma keeps the state valid and never goes back.
pub proof fn lemma_accept_comma(s: Seq<char>, ps: PState)
    requires
        valid(s, ps),
    ensures
        accept_comma(s, ps) matches Ok(ps2) ==> valid(s, ps2) && measure(s, ps2) <= measure(s, ps),
{
    lemma_advance(s, ps);
}

/// Reading array elements keeps the state valid and never goes back.
pub proof fn lemma_array_items(s: Seq<char>, ps: PState, acc: Seq<ValModel>)
    requires
        valid(s, ps),
    ensures
        array_items(s, ps, acc) matches Ok((items, ps2)) ==> valid(s, ps2) && measure(s, ps2)
            <= measure(s, ps),
    decreases measure(s, ps),
{
    lemma_advance(s, ps);
    if ps.0.kind != TokenType::Char('}') {
        if let Ok(ps2) = advance(s, ps) {
            if let Some(v) = element_value(ps.0) {
                lemma_accept_comma(s, ps2);
                if let Ok(ps3) = accept_comma(s, ps2) {
                    if progress(s, ps3, ps) {
                        lemma_array_items(s, ps3, acc.push(v));
                    }
                }
            }
        }
    }
}

/// Reading an array keeps the state valid and never goes back.
pub proof fn lemma_array_value(s: Seq<char>, ps: PState)
    requires
        valid(s, ps),
    ensures
        array_value(s, ps) matches Ok((items, ps2)) ==> valid(s, ps2) && measure(s, ps2) <= measure(s, ps),
{
    lemma_advance(s, ps);
    if let Ok(ps1) = advance(s, ps) {
        lemma_advance(s, ps1);
        if let Ok(ps2) = advance(s, ps1) {
            lemma_advance(s, ps2);
            if let Ok(ps3) = advance(s, ps2) {
                lemma_array_items(s, ps3, Seq::empty());
            }
        }
    }
}

/// Reading node values keeps the state valid and never goes back.
pub proof fn lemma_node_values(s: Seq<char>, ps: PState, acc: Seq<ValModel>)
    requires
        valid(s, ps),
    ensures
        node_values(s, ps, acc) matches Ok((values, ps2)) ==> valid(s, ps2) && measure(s, ps2)
            <= measure(s, ps),
    decreases measure(s, ps),
{
    lemma_advance(s, ps);
    match node_value(ps.0) {
        Some(v) => {
            if let Ok(ps2) = advance(s, ps) {
                lemma_advance(s, ps2);
                if ps2.0.kind == TokenType::Char(',') {
                    if let Ok(ps3) = advance(s, ps2) {
                        if progress(s, ps3, ps) {
                            lemma_node_values(s, ps3, acc.push(v));
                        }
                    }
                }
            }
        },
        None => {
            if ps.0.kind == TokenType::Char('*') {
                if let Ok(ps2) = advance(s, ps) {
                    lemma_array_value(s, ps2);
                }
            }
        },
    }
}

/// A node read from a valid state leaves a valid state further on; its
/// children leave a valid state no further back.
pub proof fn lemma_parse_node(s: Seq<char>, ps: PState, depth: int)
    requires
        valid(s, ps),
    ensures
        parse_node_at(s, ps, depth) matches Ok((node, ps2)) ==> valid(s, ps2) && progress(s, ps2, ps),
    decreases measure(s, ps), 0int,
{
    if depth < MAX_ASCII_DEPTH && ps.0.kind == TokenType::Name {
        lemma_advance(s, ps);
        if let Ok(ps1) = advance(s, ps) {
            lemma_accept_comma(s, ps1);
            if let Ok(ps2) = accept_comma(s, ps1) {
                lemma_node_values(s, ps2, Seq::empty());
                if let Ok((values, ps3)) = node_values(s, ps2, Seq::empty()) {
                    if ps3.0.kind == TokenType::Char('{') {
                        lemma_advance(s, ps3);
                        if let Ok(ps4) = advance(s, ps3) {
                            if progress(s, ps4, ps) {
                                lemma_parse_children(s, ps4, depth, Seq::empty());
                            }
                        }
                    }
                }
            }
        }
    }
}

/// Children read from a valid state leave a valid state no further back.
pub proof fn lemma_parse_children(s: Seq<char>, ps: PState, depth: int, acc: Seq<NodeText>)
    requires
        valid(s, ps),
    ensures
        parse_children_at(s, ps, depth, acc) matches Ok((nodes, ps2)) ==> valid(s, ps2) && measure(
            s,
            ps2,
        ) <= measure(s, ps),
    decreases measure(s, ps), 1int,
{
    lemma_advance(s, ps);
    if ps.0.kind != TokenType::Char('}') && ps.0.kind != TokenType::End && measure(s, ps) >= 0 {
        lemma_parse_node(s, ps, depth + 1);
        if let Ok((node, ps1)) = parse_node_at(s, ps, depth + 1) {
            if progress(s, ps1, ps) {
                lemma_parse_children(s, ps1, depth, acc.push(node));
            }
        }
    }
}

/// The error that a parse fault becomes; `byte_len` is the input's size in
/// bytes, the offset of a truncation.
pub open spec fn fault_error(f: ParseFault, e: Error, byte_len: usize) -> bool {
    match f {
        ParseFault::BadInt(t) => bad_int_error(e, t),
        ParseFault::Unexpected => e is Unknown,
        ParseFault::DepthLimit(d) => e matches Error::NodeDepthLimit { depth, limit } && depth == d
            && limit == MAX_ASCII_DEPTH,
        ParseFault::Truncated => e matches Error::TruncatedFile { offset } && offset == byte_len as u64,
    }
}

/// Views of values, one more.
proof fn lemma_vals_push(s: Seq<AsciiValue>, v: AsciiValue)
    ensures
        vals_model(s.push(v)) == vals_model(s).push(val_model(v)),
{
    assert(s.push(v).drop_last() =~= s);
}

/// Views of nodes, one more.
proof fn lemma_anodes_push(s: Seq<AsciiNode>, n: AsciiNode)
    ensures
        anodes_model(s.push(n)) == anodes_model(s).push(anode_model(n)),
{
    assert(s.push(n).drop_last() =~= s);
}

/// A character as it reads between quotes in messages: newline, carriage
/// return, tab, backslash and quote escaped with a backslash.
pub open spec fn char_escaped(c: char) -> Seq<char> {
    if c == '\n' {
        seq!['\\', 'n']
    } else if c == '\r' {
        seq!['\\', 'r']
    } else if c == '\t' {
        seq!['\\', 't']
    } else if c == '\\' {
        seq!['\\', '\\']
    } else if c == '\'' {
        seq!['\\', '\'']
    } else {
        seq![c]
    }
}

/// How a token kind reads in messages: its name, and a character kind as
/// `Char('c')`.
pub open spec fn kind_text(k: TokenType) -> Seq<char> {
    match k {
        TokenType::End => seq!['E', 'n', 'd'],
        TokenType::Name => seq!['N', 'a', 'm', 'e'],
        TokenType::BareWord => seq!['B', 'a', 'r', 'e', 'W', 'o', 'r', 'd'],
        TokenType::Int => seq!['I', 'n', 't'],
        TokenType::Float => seq!['F', 'l', 'o', 'a', 't'],
        TokenType::String => seq!['S', 't', 'r', 'i', 'n', 'g'],
        TokenType::Char(c) => seq!['C', 'h', 'a', 'r', '(', '\''] + char_escaped(c) + seq!['\'', ')'],
    }
}

/// Appends the name of a token kind, as in messages.
fn push_kind(out: &mut String, k: TokenType)
    ensures
        final(out)@ == old(out)@ + kind_text(k),
{
    match k {
        TokenType::End => {
            proof {
                reveal_strlit("End");
            }
            push_str(out, "End");
        },
        TokenType::Name => {
            proof {
                reveal_strlit("Name");
            }
            push_str(out, "Name");
        },
        TokenType::BareWord => {
            proof {
                reveal_strlit("BareWord");
            }
            push_str(out, "BareWord");
        },
        TokenType::Int => {
            proof {
                reveal_strlit("Int");
            }
            push_str(out, "Int");
        },
        TokenType::Float => {
            proof {
                reveal_strlit("Float");
            }
            push_str(out, "Float");
        },
        TokenType::String => {
            proof {
                reveal_strlit("String");
            }
            push_str(out, "String");
        },
        TokenType::Char(c) => {
            let ghost start = out@;
            proof {
                reveal_strlit("Char('");
                reveal_strlit("')");
                reveal_strlit("\\n");
                reveal_strlit("\\r");
                reveal_strlit("\\t");
                reveal_strlit("\\\\");
                reveal_strlit("\\'");
            }
            push_str(out, "Char('");
            let ghost mid = out@;
            if c == '\n' {
                push_str(out, "\\n");
            } else if c == '\r' {
                push_str(out, "\\r");
            } else if c == '\t' {
                push_str(out, "\\t");
            } else if c == '\\' {
                push_str(out, "\\\\");
            } else if c == '\'' {
                push_str(out, "\\'");
            } else {
                push_char(out, c);
            }
            proof {
                assert(out@ == mid + char_escaped(c));
            }
            push_str(out, "')");
            proof {
                assert(out@ =~= start + kind_text(k));
            }
        },
    }
}

impl AsciiParser {
    /// The parser's state as the grammar sees it.
    closed spec fn ps(&self) -> PState {
        (tok_model(self.current_token), self.lex())
    }

    /// The parser is within its input.
    closed spec fn wf(&self) -> bool {
        &&& self.pos <= self.chars@.len()
        &&& valid(self.chars@, self.ps())
    }

    /// The error for a current token other than the expected one.
    fn unexpected(&self, expected: &str) -> (e: Error)
        ensures
            e is Unknown,
    {
        let mut description = String::new();
        push_str(&mut description, "Expected ");
        push_str(&mut description, expected);
        push_str(&mut description, ", got ");
        push_kind(&mut description, self.current_token.token_type);
        push_str(&mut description, " at line ");
        crate::text::push_usize(&mut description, self.current_token.line);
        push_str(&mut description, ", col ");
        crate::text::push_usize(&mut description, self.current_token.col);
        Error::Unknown { description, stack: None }
    }

    /// Takes the current token and reads the next, as [`advance`] states.
    fn advance_token(&mut self) -> (r: Result<(), Error>)
        requires
            old(self).wf(),
        ensures
            r is Ok ==> final(self).wf(),
            final(self).chars == old(self).chars,
            final(self).byte_len == old(self).byte_len,
            match advance(old(self).chars@, old(self).ps()) {
                Ok(ps2) => r is Ok && final(self).ps() == ps2,
                Err(f) => r matches Err(e) && fault_error(f, e, old(self).byte_len),
            },
    {
        self.next_token()
    }

    /// Takes a comma if it is the current token.
    fn accept_comma(&mut self) -> (r: Result<(), Error>)
        requires
            old(self).wf(),
        ensures
            r is Ok ==> final(self).wf(),
            final(self).chars == old(self).chars,
            final(self).byte_len == old(self).byte_len,
            match accept_comma(old(self).chars@, old(self).ps()) {
                Ok(ps2) => r is Ok && final(self).ps() == ps2,
                Err(f) => r matches Err(e) && fault_error(f, e, old(self).byte_len),
            },
    {
        if self.current_token.token_type == TokenType::Char(',') {
            self.advance_token()
        } else {
            Ok(())
        }
    }

    /// The value an array element token stands for, if any.
    fn element_value_of(&self) -> (r: Option<AsciiValue>)
        ensures
            match element_value(tok_model(self.current_token)) {
                Some(v) => r matches Some(x) && val_model(x) == v,
                None => r is None,
            },
    {
        let t = &self.current_token;
        match t.token_type {
            TokenType::Int => Some(AsciiValue::Int(t.int_value)),
            TokenType::Float => Some(AsciiValue::Float(t.string_value.clone())),
            TokenType::String => Some(AsciiValue::String(t.string_value.clone())),
            _ => {
                let n = t.string_value.as_str().unicode_len();
                if n > 0 {
                    let c = t.string_value.as_str().get_char(0);
                    Some(AsciiValue::Int((c as u32) as i64))
                } else {
                    None
                }
            },
        }
    }

    /// The value a node value token stands for, if any.
    fn node_value_of(&self) -> (r: Option<AsciiValue>)
        ensures
            match node_value(tok_model(self.current_token)) {
                Some(v) => r matches Some(x) && val_model(x) == v,
                None => r is None,
            },
    {
        let t = &self.current_token;
        match t.token_type {
            TokenType::String => Some(AsciiValue::String(t.string_value.clone())),
            TokenType::Int => Some(AsciiValue::Int(t.int_value)),
            TokenType::Float => Some(AsciiValue::Float(t.string_value.clone())),
            TokenType::BareWord => {
                let n = t.string_value.as_str().unicode_len();
                if n > 0 {
                    let c = t.string_value.as_str().get_char(0);
                    Some(AsciiValue::Int((c as u32) as i64))
                } else {
                    Some(AsciiValue::Int(0))
                }
            },
            _ => None,
        }
    }
}


impl AsciiParser {
    /// Reads array elements up to the closing brace.
    fn parse_array_items(&mut self) -> (r: Result<Vec<AsciiValue>, Error>)
        requires
            old(self).wf(),
        ensures
            r is Ok ==> final(self).wf(),
            final(self).chars == old(self).chars,
            final(self).byte_len == old(self).byte_len,
            match array_items(old(self).chars@, old(self).ps(), Seq::empty()) {
                Ok((items, ps2)) => r matches Ok(v) && vals_model(v@) == items && final(self).ps() == ps2,
                Err(f) => r matches Err(e) && fault_error(f, e, old(self).byte_len),
            },
    {
        let ghost target = array_items(self.chars@, self.ps(), Seq::empty());
        let mut acc: Vec<AsciiValue> = Vec::new();
        loop
            invariant
                self.wf(),
                self.chars == old(self).chars,
                self.byte_len == old(self).byte_len,
                array_items(self.chars@, self.ps(), vals_model(acc@)) == target,
                target == array_items(old(self).chars@, old(self).ps(), Seq::empty()),
            decreases measure(self.chars@, self.ps()),
        {
            let ghost ps = self.ps();
            proof {
                lemma_advance(self.chars@, ps);
            }
            if self.current_token.token_type == TokenType::Char('}') {
                match self.advance_token() {
                    Err(e) => {
                        return Err(e);
                    },
                    Ok(()) => {
                        return Ok(acc);
                    },
                }
            }
            let value = self.element_value_of();
            match self.advance_token() {
                Err(e) => {
                    return Err(e);
                },
                Ok(()) => {},
            }
            match value {
                None => {
                    return Ok(acc);
                },
                Some(v) => {
                    proof {
                        lemma_accept_comma(self.chars@, self.ps());
                    }
                    match self.accept_comma() {
                        Err(e) => {
                            return Err(e);
                        },
                        Ok(()) => {},
                    }
                    let ghost pre = acc@;
                    acc.push(v);
                    proof {
                        lemma_vals_push(pre, v);
                    }
                    assert(progress(self.chars@, self.ps(), ps));
                },
            }
        }
    }
}


impl AsciiParser {
    /// Reads an array after its `*`.
    fn parse_array(&mut self) -> (r: Result<Vec<AsciiValue>, Error>)
        requires
            old(self).wf(),
        ensures
            r is Ok ==> final(self).wf(),
            final(self).chars == old(self).chars,
            final(self).byte_len == old(self).byte_len,
            match array_value(old(self).chars@, old(self).ps()) {
                Ok((items, ps2)) => r matches Ok(v) && vals_model(v@) == items && final(self).ps() == ps2,
                Err(f) => r matches Err(e) && fault_error(f, e, old(self).byte_len),
            },
    {
        if self.current_token.token_type != TokenType::Int {
            return Err(self.unexpected("Int"));
        }
        match self.advance_token() {
            Err(e) => {
                return Err(e);
            },
            Ok(()) => {},
        }
        if self.current_token.token_type != TokenType::Char('{') {
            return Err(self.unexpected("'{'"));
        }
        match self.advance_token() {
            Err(e) => {
                return Err(e);
            },
            Ok(()) => {},
        }
        if self.current_token.token_type != TokenType::Name {
            return Err(self.unexpected("Name"));
        }
        match self.advance_token() {
            Err(e) => {
                return Err(e);
            },
            Ok(()) => {},
        }
        self.parse_array_items()
    }

    /// Reads the values of a node.
    fn parse_values(&mut self) -> (r: Result<Vec<AsciiValue>, Error>)
        requires
            old(self).wf(),
        ensures
            r is Ok ==> final(self).wf(),
            final(self).chars == old(self).chars,
            final(self).byte_len == old(self).byte_len,
            match node_values(old(self).chars@, old(self).ps(), Seq::empty()) {
                Ok((values, ps2)) => r matches Ok(v) && vals_model(v@) == values && final(self).ps() == ps2,
                Err(f) => r matches Err(e) && fault_error(f, e, old(self).byte_len),
            },
    {
        let ghost target = node_values(self.chars@, self.ps(), Seq::empty());
        let mut acc: Vec<AsciiValue> = Vec::new();
        loop
            invariant
                self.wf(),
                self.chars == old(self).chars,
                self.byte_len == old(self).byte_len,
                node_values(self.chars@, self.ps(), vals_model(acc@)) == target,
                target == node_values(old(self).chars@, old(self).ps(), Seq::empty()),
            decreases measure(self.chars@, self.ps()),
        {
            let ghost ps = self.ps();
            proof {
                lemma_advance(self.chars@, ps);
            }
            match self.node_value_of() {
                Some(v) => {
                    match self.advance_token() {
                        Err(e) => {
                            return Err(e);
                        },
                        Ok(()) => {},
                    }
                    let ghost pre = acc@;
                    acc.push(v);
                    proof {
                        lemma_vals_push(pre, v);
                    }
                    if self.current_token.token_type == TokenType::Char(',') {
                        proof {
                            lemma_advance(self.chars@, self.ps());
                        }
                        match self.advance_token() {
                            Err(e) => {
                                return Err(e);
                            },
                            Ok(()) => {},
                        }
                        assert(progress(self.chars@, self.ps(), ps));
                    } else {
                        return Ok(acc);
                    }
                },
                None => {
                    if self.current_token.token_type == TokenType::Char('*') {
                        match self.advance_token() {
                            Err(e) => {
                                return Err(e);
                            },
                            Ok(()) => {},
                        }
                        match self.parse_array() {
                            Err(e) => {
                                return Err(e);
                            },
                            Ok(items) => {
                                let ghost pre = acc@;
                                let item = AsciiValue::Array(items);
                                acc.push(item);
                                proof {
                                    lemma_vals_push(pre, item);
                                }
                                return Ok(acc);
                            },
                        }
                    } else {
                        return Ok(acc);
                    }
                },
            }
        }
    }

    /// Reads a node at nesting `depth`.
    fn parse_node(&mut self, depth: usize) -> (r: Result<AsciiNode, Error>)
        requires
            old(self).wf(),
        ensures
            r is Ok ==> final(self).wf(),
            final(self).chars == old(self).chars,
            final(self).byte_len == old(self).byte_len,
            match parse_node_at(old(self).chars@, old(self).ps(), depth as int) {
                Ok((node, ps2)) => r matches Ok(n) && anode_model(n) == node && final(self).ps() == ps2,
                Err(f) => r matches Err(e) && fault_error(f, e, old(self).byte_len),
            },
        decreases MAX_ASCII_DEPTH - depth, 1int,
    {
        if depth >= MAX_ASCII_DEPTH {
            return Err(Error::NodeDepthLimit { depth, limit: MAX_ASCII_DEPTH });
        }
        if self.current_token.token_type != TokenType::Name {
            return Err(self.unexpected("Name"));
        }
        let ghost ps = self.ps();
        let name = self.current_token.string_value.clone();
        proof {
            lemma_advance(self.chars@, ps);
        }
        match self.advance_token() {
            Err(e) => {
                return Err(e);
            },
            Ok(()) => {},
        }
        proof {
            lemma_accept_comma(self.chars@, self.ps());
        }
        match self.accept_comma() {
            Err(e) => {
                return Err(e);
            },
            Ok(()) => {},
        }
        proof {
            lemma_node_values(self.chars@, self.ps(), Seq::empty());
        }
        let values = match self.parse_values() {
            Err(e) => {
                return Err(e);
            },
            Ok(v) => v,
        };
        let mut children: Vec<AsciiNode> = Vec::new();
        if self.current_token.token_type == TokenType::Char('{') {
            proof {
                lemma_advance(self.chars@, self.ps());
            }
            match self.advance_token() {
                Err(e) => {
                    return Err(e);
                },
                Ok(()) => {},
            }
            assert(progress(self.chars@, self.ps(), ps));
            children = match self.parse_children(depth) {
                Err(e) => {
                    return Err(e);
                },
                Ok(c) => c,
            };
        } else {
            assert(anodes_model(children@) =~= Seq::<NodeText>::empty());
        }
        Ok(AsciiNode { name, values, children })
    }

    /// Reads the children of a node at nesting `depth`, up to the closing brace.
    fn parse_children(&mut self, depth: usize) -> (r: Result<Vec<AsciiNode>, Error>)
        requires
            old(self).wf(),
            depth < MAX_ASCII_DEPTH,
        ensures
            r is Ok ==> final(self).wf(),
            final(self).chars == old(self).chars,
            final(self).byte_len == old(self).byte_len,
            match parse_children_at(old(self).chars@, old(self).ps(), depth as int, Seq::empty()) {
                Ok((nodes, ps2)) => r matches Ok(v) && anodes_model(v@) == nodes && final(self).ps() == ps2,
                Err(f) => r matches Err(e) && fault_error(f, e, old(self).byte_len),
            },
        decreases MAX_ASCII_DEPTH - depth, 0int,
    {
        let ghost target = parse_children_at(self.chars@, self.ps(), depth as int, Seq::empty());
        let mut acc: Vec<AsciiNode> = Vec::new();
        loop
            invariant
                self.wf(),
                depth < MAX_ASCII_DEPTH,
                self.chars == old(self).chars,
                self.byte_len == old(self).byte_len,
                parse_children_at(self.chars@, self.ps(), depth as int, anodes_model(acc@)) == target,
                target == parse_children_at(old(self).chars@, old(self).ps(), depth as int, Seq::empty()),
            decreases measure(self.chars@, self.ps()),
        {
            if self.current_token.token_type == TokenType::Char('}') {
                match self.advance_token() {
                    Err(e) => {
                        return Err(e);
                    },
                    Ok(()) => {
                        return Ok(acc);
                    },
                }
            }
            if self.current_token.token_type == TokenType::End {
                return Err(Error::TruncatedFile { offset: self.byte_len as u64 });
            }
            let ghost ps = self.ps();
            proof {
                lemma_parse_node(self.chars@, ps, depth + 1);
            }
            let node = match self.parse_node(depth + 1) {
                Err(e) => {
                    return Err(e);
                },
                Ok(n) => n,
            };
            let ghost pre = acc@;
            proof {
                lemma_anodes_push(pre, node);
            }
            acc.push(node);
            assert(progress(self.chars@, self.ps(), ps));
        }
    }
}


impl AsciiParser {
    /// The characters the parser reads.
    pub closed spec fn text(&self) -> Seq<char> {
        self.chars@
    }

    /// Size in bytes of the input.
    pub closed spec fn byte_size(&self) -> usize {
        self.byte_len
    }

    /// The parser has read nothing yet.
    pub closed spec fn fresh(&self) -> bool {
        &&& self.pos == 0
        &&& !self.read_first_comment
        &&& self.version is None
    }

    /// A parser over the text of `input`.
    pub fn new(input: &str) -> (r: AsciiParser)
        ensures
            r.text() == input@,
            r.byte_size() == input.len(),
            r.fresh(),
    {
        let chars = chars_of(input);
        AsciiParser {
            chars,
            byte_len: input.len(),
            pos: 0,
            line: 1,
            col: 1,
            current_token: Token::new(TokenType::End, 1, 1),
            version: None,
            read_first_comment: false,
        }
    }

    /// Parses the whole input into its top-level nodes.
    pub fn parse(self) -> (r: Result<Vec<AsciiNode>, Error>)
        requires
            self.fresh(),
        ensures
            match parse_text(self.text()) {
                Ok(nodes) => r matches Ok(v) && anodes_model(v@) == nodes,
                Err(f) => r matches Err(e) && fault_error(f, e, self.byte_size()),
            },
    {
        let mut parser = self;
        let ghost s = parser.chars@;
        match parser.next_token() {
            Err(e) => {
                return Err(e);
            },
            Ok(()) => {},
        }
        let ghost target = parse_text(s);
        let mut nodes: Vec<AsciiNode> = Vec::new();
        assert(anodes_model(nodes@) =~= Seq::<NodeText>::empty());
        loop
            invariant
                parser.wf(),
                parser.chars@ == s,
                parser.byte_len == self.byte_len,
                s == self.chars@,
                target == parse_text(s),
                parse_document_at(s, parser.ps(), anodes_model(nodes@)) == target,
            decreases measure(s, parser.ps()),
        {
            if parser.current_token.token_type == TokenType::End {
                return Ok(nodes);
            }
            let ghost ps = parser.ps();
            proof {
                lemma_parse_node(s, ps, 0);
            }
            let node = match parser.parse_node(0) {
                Err(e) => {
                    return Err(e);
                },
                Ok(n) => n,
            };
            let ghost pre = nodes@;
            proof {
                lemma_anodes_push(pre, node);
            }
            nodes.push(node);
            assert(progress(s, parser.ps(), ps));
        }
    }
}

/// Parses text in the ASCII format into its top-level nodes.
pub fn parse_ascii(input: &str) -> (r: Result<Vec<AsciiNode>, Error>)
    ensures
        match parse_text(input@) {
            Ok(nodes) => r matches Ok(v) && anodes_model(v@) == nodes,
            Err(f) => r matches Err(e) && fault_error(f, e, input.len()),
        },
{
    let parser = AsciiParser::new(input);
    parser.parse()
}

} // verus!
