//! The mathematical model of CSS tokenization.
//!
//! Everything here is specification code: pure functions over `Seq<char>`
//! that say which code points belong to which classes, what the bounded
//! lookahead predicates mean, and how each construct is decoded. The
//! executable tokenizer is proved to return exactly what these functions
//! describe.

use vstd::prelude::*;

verus! {

// ---------------------------------------------------------------------------
// Code point classes
// ---------------------------------------------------------------------------

/// An ASCII digit.
pub open spec fn spec_is_digit(c: char) -> bool {
    '0' <= c && c <= '9'
}

/// An ASCII hex digit.
pub open spec fn spec_is_hex_digit(c: char) -> bool {
    spec_is_digit(c) || ('a' <= c && c <= 'f') || ('A' <= c && c <= 'F')
}

/// The numeric value of an ASCII hex digit.
pub open spec fn spec_hex_digit_value(c: char) -> int {
    if spec_is_digit(c) {
        c as int - '0' as int
    } else if 'a' <= c && c <= 'f' {
        c as int - 'a' as int + 10
    } else {
        c as int - 'A' as int + 10
    }
}

/// A name-start code point: an ASCII letter, a code point above U+0080,
/// or a low line.
pub open spec fn spec_is_name_start(c: char) -> bool {
    ('a' <= c && c <= 'z') || ('A' <= c && c <= 'Z') || c as u32 > 0x80 || c == '_'
}

/// A name code point: a name-start code point, an ASCII digit, or a
/// hyphen-minus.
pub open spec fn spec_is_name_code_point(c: char) -> bool {
    spec_is_name_start(c) || spec_is_digit(c) || c == '-'
}

/// A surrogate code point value.
pub open spec fn spec_is_surrogate(n: int) -> bool {
    0xD800 <= n && n <= 0xDFFF
}

/// A nonprintable code point: U+0000 through U+0008, U+000B, U+000E through
/// U+001F, or U+007F.
pub open spec fn spec_is_nonprintable(c: char) -> bool {
    c as u32 <= 0x8 || c as u32 == 0xB || (0xE <= c as u32 && c as u32 <= 0x1F) || c as u32 == 0x7F
}

/// Whitespace: newline, tab, or space. The CSS Syntax specification counts
/// the tab character as whitespace, and this model follows it.
pub open spec fn spec_is_whitespace(c: char) -> bool {
    c == '\n' || c == '\t' || c == ' '
}

// ---------------------------------------------------------------------------
// Bounded lookahead predicates
// ---------------------------------------------------------------------------

/// Two code points are a valid escape: a reverse solidus followed by a code
/// point that exists and is not a newline.
pub open spec fn valid_escape_at(s: Seq<char>) -> bool {
    s.len() >= 2 && s[0] == '\\' && s[1] != '\n'
}

/// Three code points would start an identifier.
pub open spec fn starts_identifier(s: Seq<char>) -> bool {
    if s.len() == 0 {
        false
    } else if s[0] == '-' {
        s.len() >= 2 && (spec_is_name_start(s[1]) || s[1] == '-' || valid_escape_at(s.skip(1)))
    } else if spec_is_name_start(s[0]) {
        true
    } else if s[0] == '\\' {
        valid_escape_at(s)
    } else {
        false
    }
}

/// Three code points would start a number.
pub open spec fn starts_number(s: Seq<char>) -> bool {
    if s.len() == 0 {
        false
    } else if s[0] == '+' || s[0] == '-' {
        (s.len() >= 2 && spec_is_digit(s[1])) || (s.len() >= 3 && s[1] == '.' && spec_is_digit(
            s[2],
        ))
    } else if s[0] == '.' {
        s.len() >= 2 && spec_is_digit(s[1])
    } else {
        spec_is_digit(s[0])
    }
}

// ---------------------------------------------------------------------------
// Runs of code points
// ---------------------------------------------------------------------------

/// The length of the maximal leading run of ASCII digits.
pub open spec fn digit_run_len(s: Seq<char>) -> nat
    decreases s.len(),
{
    if s.len() > 0 && spec_is_digit(s[0]) {
        1 + digit_run_len(s.skip(1))
    } else {
        0
    }
}

/// The length of the maximal leading run of whitespace.
pub open spec fn ws_run_len(s: Seq<char>) -> nat
    decreases s.len(),
{
    if s.len() > 0 && spec_is_whitespace(s[0]) {
        1 + ws_run_len(s.skip(1))
    } else {
        0
    }
}

/// The length of the maximal leading run of hex digits, capped at `max`.
pub open spec fn hex_run_len(s: Seq<char>, max: nat) -> nat
    decreases s.len(),
{
    if max > 0 && s.len() > 0 && spec_is_hex_digit(s[0]) {
        1 + hex_run_len(s.skip(1), (max - 1) as nat)
    } else {
        0
    }
}

pub proof fn lemma_digit_run_le(s: Seq<char>)
    ensures
        digit_run_len(s) <= s.len(),
    decreases s.len(),
{
    if s.len() > 0 && spec_is_digit(s[0]) {
        lemma_digit_run_le(s.skip(1));
    }
}

pub proof fn lemma_ws_run_le(s: Seq<char>)
    ensures
        ws_run_len(s) <= s.len(),
    decreases s.len(),
{
    if s.len() > 0 && spec_is_whitespace(s[0]) {
        lemma_ws_run_le(s.skip(1));
    }
}

pub proof fn lemma_hex_run_le(s: Seq<char>, max: nat)
    ensures
        hex_run_len(s, max) <= s.len(),
        hex_run_len(s, max) <= max,
    decreases s.len(),
{
    if max > 0 && s.len() > 0 && spec_is_hex_digit(s[0]) {
        lemma_hex_run_le(s.skip(1), (max - 1) as nat);
    }
}

// ---------------------------------------------------------------------------
// Hex runs as numbers
// ---------------------------------------------------------------------------

/// The value of a sequence of hex digits, most significant first.
pub open spec fn hex_value(s: Seq<char>) -> int
    decreases s.len(),
{
    if s.len() == 0 {
        0
    } else {
        hex_value(s.drop_last()) * 16 + spec_hex_digit_value(s.last())
    }
}

/// Sixteen to the power `n`.
pub open spec fn pow16(n: nat) -> int
    decreases n,
{
    if n == 0 {
        1
    } else {
        16 * pow16((n - 1) as nat)
    }
}

pub proof fn lemma_hex_value_bound(s: Seq<char>)
    requires
        forall|i: int| 0 <= i < s.len() ==> spec_is_hex_digit(#[trigger] s[i]),
    ensures
        0 <= hex_value(s) < pow16(s.len()),
    decreases s.len(),
{
    if s.len() > 0 {
        lemma_hex_value_bound(s.drop_last());
        assert(0 <= spec_hex_digit_value(s.last()) < 16);
    }
}

// ---------------------------------------------------------------------------
// Small facts about sequences
// ---------------------------------------------------------------------------

pub proof fn lemma_skip_skip(s: Seq<char>, a: int, b: int)
    requires
        0 <= a,
        0 <= b,
        a + b <= s.len(),
    ensures
        s.skip(a).skip(b) == s.skip(a + b),
{
    assert(s.skip(a).skip(b) =~= s.skip(a + b));
}

pub proof fn lemma_concat_empty(s: Seq<char>)
    ensures
        s + Seq::<char>::empty() == s,
        Seq::<char>::empty() + s == s,
{
    assert(s + Seq::<char>::empty() =~= s);
    assert(Seq::<char>::empty() + s =~= s);
}

pub proof fn lemma_push_concat(s: Seq<char>, c: char)
    ensures
        s.push(c) == s + seq![c],
{
    assert(s.push(c) =~= s + seq![c]);
}

// ---------------------------------------------------------------------------
// Spec-level tokens
// ---------------------------------------------------------------------------

/// The decimal components of a numeric literal, at the specification level.
pub struct NumericValueSpec {
    pub negative: bool,
    pub integer: Seq<char>,
    pub fraction: Seq<char>,
    pub exp_negative: bool,
    pub exponent: Seq<char>,
}

/// A CSS token, at the specification level: names and values are sequences
/// of Unicode scalar values.
pub enum TokenSpec {
    Comment,
    Ident(Seq<char>),
    Function(Seq<char>),
    AtKeyword(Seq<char>),
    Hash(Seq<char>, crate::tokens::HashFlag),
    String(Seq<char>),
    BadString,
    URL(Seq<char>),
    BadURL,
    Delim(char),
    Number(NumericValueSpec, crate::tokens::NumericFlag),
    Percentage(NumericValueSpec),
    Dimension(NumericValueSpec, crate::tokens::NumericFlag, Seq<char>),
    Whitespace,
    CDO,
    CDC,
    Colon,
    Semicolon,
    Comma,
    LeftBracket,
    RightBracket,
    LeftParentheses,
    RightParentheses,
    LeftBrace,
    RightBrace,
    EOF,
}

/// A hard parse error, at the specification level. `left` is the number of
/// scalar values still unconsumed when the error was detected; the reported
/// position is the total length of the preprocessed stream minus `left`.
pub struct ErrorSpec {
    pub token: Option<TokenSpec>,
    pub text: Seq<char>,
    pub left: nat,
}

/// The outcome of one dispatch step.
pub enum TokenStep {
    Tok { taken: nat, token: TokenSpec },
    Fail { err: ErrorSpec },
    End,
}

// ---------------------------------------------------------------------------
// Escape decoding
// ---------------------------------------------------------------------------

/// What one escape decode consumes and yields. The input sequence starts at
/// the code point after the confirmed reverse solidus.
pub struct EscapeRead {
    pub taken: nat,
    pub decoded: char,
}

/// Decode one escaped code point from `t`, the stream right after the
/// reverse solidus. If the first code point is a hex digit, up to five more
/// hex digits are taken, then one optional trailing whitespace character;
/// a resulting value of zero, a surrogate, or a value above the maximum
/// code point decodes to U+FFFD. A non-hex first code point is returned
/// verbatim.
pub open spec fn escape_read(t: Seq<char>) -> EscapeRead
    recommends
        t.len() > 0,
{
    if t.len() == 0 {
        EscapeRead { taken: 0, decoded: '\u{FFFD}' }
    } else if spec_is_hex_digit(t[0]) {
        let hlen = 1 + hex_run_len(t.skip(1), 5);
        let v = hex_value(t.take(hlen as int));
        let ws: nat = if hlen < t.len() && spec_is_whitespace(t[hlen as int]) {
            1
        } else {
            0
        };
        EscapeRead {
            taken: hlen + ws,
            decoded: if v == 0 || spec_is_surrogate(v) || v > 0x10FFFF {
                '\u{FFFD}'
            } else {
                v as char
            },
        }
    } else {
        EscapeRead { taken: 1, decoded: t[0] }
    }
}

pub proof fn lemma_escape_taken(t: Seq<char>)
    requires
        t.len() > 0,
    ensures
        1 <= escape_read(t).taken <= t.len(),
{
    if spec_is_hex_digit(t[0]) {
        lemma_hex_run_le(t.skip(1), 5);
    }
}

// ---------------------------------------------------------------------------
// Name decoding
// ---------------------------------------------------------------------------

/// What one name decode consumes and yields.
pub struct NameRead {
    pub taken: nat,
    pub text: Seq<char>,
}

/// Decode a name: repeatedly take name code points verbatim and valid
/// escapes decoded, stopping at the first code point that is neither.
pub open spec fn name_read(s: Seq<char>) -> NameRead
    decreases s.len(),
    via name_read_decreases
{
    if s.len() == 0 {
        NameRead { taken: 0, text: Seq::empty() }
    } else if spec_is_name_code_point(s[0]) {
        let rest = name_read(s.skip(1));
        NameRead { taken: 1 + rest.taken, text: seq![s[0]] + rest.text }
    } else if valid_escape_at(s) {
        let er = escape_read(s.skip(1));
        let rest = name_read(s.skip(1 + er.taken as int));
        NameRead { taken: 1 + er.taken + rest.taken, text: seq![er.decoded] + rest.text }
    } else {
        NameRead { taken: 0, text: Seq::empty() }
    }
}

#[via_fn]
proof fn name_read_decreases(s: Seq<char>) {
    if s.len() > 0 && !spec_is_name_code_point(s[0]) && valid_escape_at(s) {
        lemma_escape_taken(s.skip(1));
    }
}

pub proof fn lemma_name_taken(s: Seq<char>)
    ensures
        name_read(s).taken <= s.len(),
        name_read(s).taken == 0 <==> !(s.len() > 0 && (spec_is_name_code_point(s[0])
            || valid_escape_at(s))),
    decreases s.len(),
{
    if s.len() > 0 {
        if spec_is_name_code_point(s[0]) {
            lemma_name_taken(s.skip(1));
        } else if valid_escape_at(s) {
            let er = escape_read(s.skip(1));
            lemma_escape_taken(s.skip(1));
            lemma_name_taken(s.skip(1 + er.taken as int));
        }
    }
}

// ---------------------------------------------------------------------------
// Number decoding
// ---------------------------------------------------------------------------

/// What one number decode consumes and captures: the optional sign, the
/// integer digit run, the fractional digit run (only if a `.` is directly
/// followed by a digit), and the exponent sign and digit run (only if an
/// `e`/`E` is followed, possibly after a sign, by a digit).
pub struct NumberRead {
    pub taken: nat,
    pub negative: bool,
    pub integer: Seq<char>,
    pub fraction: Seq<char>,
    pub exp_negative: bool,
    pub exponent: Seq<char>,
    pub flag: crate::tokens::NumericFlag,
}

/// Whether a fractional part begins at `s`: a full stop directly followed
/// by a digit.
pub open spec fn frac_begins(s: Seq<char>) -> bool {
    s.len() >= 2 && s[0] == '.' && spec_is_digit(s[1])
}

/// Whether an exponent part begins at `s`: `e` or `E`, then either a digit
/// or a sign followed by a digit.
pub open spec fn exp_begins(s: Seq<char>) -> bool {
    s.len() >= 2 && (s[0] == 'e' || s[0] == 'E') && (spec_is_digit(s[1]) || ((s[1] == '+' || s[1]
        == '-') && s.len() >= 3 && spec_is_digit(s[2])))
}

/// Decode a numeric literal at `s`.
pub open spec fn number_read(s: Seq<char>) -> NumberRead {
    let negative = s.len() > 0 && s[0] == '-';
    let sign_len: nat = if s.len() > 0 && (s[0] == '+' || s[0] == '-') {
        1
    } else {
        0
    };
    let s1 = s.skip(sign_len as int);
    let ilen = digit_run_len(s1);
    let s2 = s1.skip(ilen as int);
    let has_frac = frac_begins(s2);
    let flen: nat = if has_frac {
        digit_run_len(s2.skip(1))
    } else {
        0
    };
    let s3 = if has_frac {
        s2.skip(1 + flen as int)
    } else {
        s2
    };
    let has_exp = exp_begins(s3);
    let exp_negative = has_exp && s3[1] == '-';
    let esign_len: nat = if has_exp && (s3[1] == '+' || s3[1] == '-') {
        1
    } else {
        0
    };
    let elen: nat = if has_exp {
        digit_run_len(s3.skip(1 + esign_len as int))
    } else {
        0
    };
    NumberRead {
        taken: sign_len + ilen + (if has_frac {
            1 + flen
        } else {
            0
        }) + (if has_exp {
            1 + esign_len + elen
        } else {
            0
        }),
        negative,
        integer: s1.take(ilen as int),
        fraction: if has_frac {
            s2.skip(1).take(flen as int)
        } else {
            Seq::empty()
        },
        exp_negative,
        exponent: if has_exp {
            s3.skip(1 + esign_len as int).take(elen as int)
        } else {
            Seq::empty()
        },
        flag: if has_frac || has_exp {
            crate::tokens::NumericFlag::Number
        } else {
            crate::tokens::NumericFlag::Integer
        },
    }
}

pub proof fn lemma_number_taken(s: Seq<char>)
    ensures
        number_read(s).taken <= s.len(),
        starts_number(s) ==> number_read(s).taken >= 1,
{
    let sign_len: nat = if s.len() > 0 && (s[0] == '+' || s[0] == '-') {
        1
    } else {
        0
    };
    let s1 = s.skip(sign_len as int);
    let ilen = digit_run_len(s1);
    lemma_digit_run_le(s1);
    let s2 = s1.skip(ilen as int);
    let has_frac = frac_begins(s2);
    let flen: nat = if has_frac {
        digit_run_len(s2.skip(1))
    } else {
        0
    };
    if has_frac {
        lemma_digit_run_le(s2.skip(1));
    }
    let s3 = if has_frac {
        s2.skip(1 + flen as int)
    } else {
        s2
    };
    let has_exp = exp_begins(s3);
    let esign_len: nat = if has_exp && (s3[1] == '+' || s3[1] == '-') {
        1
    } else {
        0
    };
    if has_exp {
        lemma_digit_run_le(s3.skip(1 + esign_len as int));
    }
}

// ---------------------------------------------------------------------------
// String decoding
// ---------------------------------------------------------------------------

/// The outcome of decoding a string body, starting right after the opening
/// delimiter. `taken` counts from there. A `Bad` outcome stops at an
/// unescaped newline without consuming it; `Unterminated` means the input
/// ended before the closing delimiter.
pub enum StringRead {
    Closed { taken: nat, text: Seq<char> },
    Bad { taken: nat },
    Unterminated { taken: nat, text: Seq<char> },
}

/// Account for `extra` consumed code points and `head` decoded text in
/// front of an inner string outcome.
pub open spec fn string_read_step(inner: StringRead, extra: nat, head: Seq<char>) -> StringRead {
    match inner {
        StringRead::Closed { taken, text } => StringRead::Closed {
            taken: extra + taken,
            text: head + text,
        },
        StringRead::Bad { taken } => StringRead::Bad { taken: extra + taken },
        StringRead::Unterminated { taken, text } => StringRead::Unterminated {
            taken: extra + taken,
            text: head + text,
        },
    }
}

pub proof fn lemma_string_step_compose(
    inner: StringRead,
    e2: nat,
    h2: Seq<char>,
    e1: nat,
    h1: Seq<char>,
)
    ensures
        string_read_step(string_read_step(inner, e2, h2), e1, h1) == string_read_step(
            inner,
            (e1 + e2) as nat,
            h1 + h2,
        ),
{
    match inner {
        StringRead::Closed { taken, text } => {
            assert(h1 + (h2 + text) =~= (h1 + h2) + text);
        },
        StringRead::Bad { taken } => {},
        StringRead::Unterminated { taken, text } => {
            assert(h1 + (h2 + text) =~= (h1 + h2) + text);
        },
    }
}

/// Decode a string body delimited by `delimiter`, starting right after the
/// opening delimiter. An escaped newline is elided; any other escape is
/// decoded; an unescaped newline yields a bad string without being
/// consumed; the end of input before the closing delimiter is unterminated.
pub open spec fn string_read(s: Seq<char>, delimiter: char) -> StringRead
    decreases s.len(),
    via string_read_decreases
{
    if s.len() == 0 {
        StringRead::Unterminated { taken: 0, text: Seq::empty() }
    } else if s[0] == delimiter {
        StringRead::Closed { taken: 1, text: Seq::empty() }
    } else if s[0] == '\n' {
        StringRead::Bad { taken: 0 }
    } else if s[0] == '\\' {
        if s.len() == 1 {
            StringRead::Unterminated { taken: 1, text: Seq::empty() }
        } else if s[1] == '\n' {
            string_read_step(string_read(s.skip(2), delimiter), 2, Seq::empty())
        } else {
            let er = escape_read(s.skip(1));
            string_read_step(
                string_read(s.skip(1 + er.taken as int), delimiter),
                1 + er.taken,
                seq![er.decoded],
            )
        }
    } else {
        string_read_step(string_read(s.skip(1), delimiter), 1, seq![s[0]])
    }
}

#[via_fn]
proof fn string_read_decreases(s: Seq<char>, delimiter: char) {
    if s.len() > 1 && s[0] == '\\' && s[0] != delimiter && s[1] != '\n' {
        lemma_escape_taken(s.skip(1));
    }
}

pub proof fn lemma_string_taken(s: Seq<char>, delimiter: char)
    ensures
        match string_read(s, delimiter) {
            StringRead::Closed { taken, .. } => taken <= s.len(),
            StringRead::Bad { taken } => taken <= s.len(),
            StringRead::Unterminated { taken, .. } => taken <= s.len(),
        },
    decreases s.len(),
{
    if s.len() > 0 && s[0] != delimiter && s[0] != '\n' {
        if s[0] == '\\' {
            if s.len() == 1 {
            } else if s[1] == '\n' {
                lemma_string_taken(s.skip(2), delimiter);
            } else {
                lemma_escape_taken(s.skip(1));
                let er = escape_read(s.skip(1));
                lemma_string_taken(s.skip(1 + er.taken as int), delimiter);
            }
        } else {
            lemma_string_taken(s.skip(1), delimiter);
        }
    }
}

// ---------------------------------------------------------------------------
// Comment decoding
// ---------------------------------------------------------------------------

/// The index of the first `*/` in `s`, if any.
pub open spec fn comment_close_at(s: Seq<char>) -> Option<nat>
    decreases s.len(),
{
    if s.len() < 2 {
        None
    } else if s[0] == '*' && s[1] == '/' {
        Some(0)
    } else {
        match comment_close_at(s.skip(1)) {
            Some(i) => Some((1 + i) as nat),
            None => None,
        }
    }
}

pub proof fn lemma_comment_close_le(s: Seq<char>)
    ensures
        comment_close_at(s) matches Some(i) ==> i + 2 <= s.len(),
    decreases s.len(),
{
    if s.len() >= 2 && !(s[0] == '*' && s[1] == '/') {
        lemma_comment_close_le(s.skip(1));
    }
}

// ---------------------------------------------------------------------------
// URL decoding
// ---------------------------------------------------------------------------

/// The outcome of decoding a URL token body. `Bad` includes the remnants
/// consumed through the closing parenthesis or the end of input;
/// `Unterminated` means the input ended inside the URL.
pub enum UrlRead {
    Closed { taken: nat, text: Seq<char> },
    Bad { taken: nat },
    Unterminated { taken: nat, text: Seq<char> },
}

/// How many code points the remnants of a bad URL consume: each code point
/// through an unescaped closing parenthesis or the end of input, decoding
/// and discarding valid escapes along the way, so that an escaped closing
/// parenthesis does not end the remnants.
pub open spec fn bad_url_remnant_len(s: Seq<char>) -> nat
    decreases s.len(),
    via bad_url_remnant_decreases
{
    if s.len() == 0 {
        0
    } else if s[0] == ')' {
        1
    } else if valid_escape_at(s) {
        let er = escape_read(s.skip(1));
        1 + er.taken + bad_url_remnant_len(s.skip((1 + er.taken) as int))
    } else {
        1 + bad_url_remnant_len(s.skip(1))
    }
}

#[via_fn]
proof fn bad_url_remnant_decreases(s: Seq<char>) {
    if s.len() > 0 && s[0] != ')' && valid_escape_at(s) {
        lemma_escape_taken(s.skip(1));
    }
}

pub proof fn lemma_remnant_le(s: Seq<char>)
    ensures
        bad_url_remnant_len(s) <= s.len(),
    decreases s.len(),
{
    if s.len() > 0 && s[0] != ')' {
        if valid_escape_at(s) {
            lemma_escape_taken(s.skip(1));
            let er = escape_read(s.skip(1));
            lemma_remnant_le(s.skip((1 + er.taken) as int));
        } else {
            lemma_remnant_le(s.skip(1));
        }
    }
}

/// Account for `extra` consumed code points and `head` decoded text in
/// front of an inner URL outcome.
pub open spec fn url_read_step(inner: UrlRead, extra: nat, head: Seq<char>) -> UrlRead {
    match inner {
        UrlRead::Closed { taken, text } => UrlRead::Closed {
            taken: extra + taken,
            text: head + text,
        },
        UrlRead::Bad { taken } => UrlRead::Bad { taken: extra + taken },
        UrlRead::Unterminated { taken, text } => UrlRead::Unterminated {
            taken: extra + taken,
            text: head + text,
        },
    }
}

pub proof fn lemma_url_step_compose(inner: UrlRead, e2: nat, h2: Seq<char>, e1: nat, h1: Seq<char>)
    ensures
        url_read_step(url_read_step(inner, e2, h2), e1, h1) == url_read_step(
            inner,
            (e1 + e2) as nat,
            h1 + h2,
        ),
{
    match inner {
        UrlRead::Closed { taken, text } => {
            assert(h1 + (h2 + text) =~= (h1 + h2) + text);
        },
        UrlRead::Bad { taken } => {},
        UrlRead::Unterminated { taken, text } => {
            assert(h1 + (h2 + text) =~= (h1 + h2) + text);
        },
    }
}

/// Decode the body of a URL token. A closing parenthesis ends it; interior
/// whitespace must be followed by the closing parenthesis or the end of
/// input, anything else is a bad URL; a quote, an opening parenthesis, a
/// nonprintable code point, or a reverse solidus that does not start a
/// valid escape is a bad URL; a valid escape is decoded and appended; the
/// end of input is an error carrying the URL decoded so far.
pub open spec fn url_body_read(s: Seq<char>) -> UrlRead
    decreases s.len(),
    via url_body_read_decreases
{
    if s.len() == 0 {
        UrlRead::Unterminated { taken: 0, text: Seq::empty() }
    } else if s[0] == ')' {
        UrlRead::Closed { taken: 1, text: Seq::empty() }
    } else if spec_is_whitespace(s[0]) {
        let w = ws_run_len(s);
        let rest = s.skip(w as int);
        if rest.len() == 0 {
            UrlRead::Unterminated { taken: w, text: Seq::empty() }
        } else if rest[0] == ')' {
            UrlRead::Closed { taken: w + 1, text: Seq::empty() }
        } else {
            UrlRead::Bad { taken: w + bad_url_remnant_len(rest) }
        }
    } else if s[0] == '"' || s[0] == '\'' || s[0] == '(' || spec_is_nonprintable(s[0]) {
        UrlRead::Bad { taken: 1 + bad_url_remnant_len(s.skip(1)) }
    } else if s[0] == '\\' {
        if valid_escape_at(s) {
            let er = escape_read(s.skip(1));
            url_read_step(url_body_read(s.skip(1 + er.taken as int)), 1 + er.taken, seq![
                er.decoded,
            ])
        } else {
            UrlRead::Bad { taken: 1 + bad_url_remnant_len(s.skip(1)) }
        }
    } else {
        url_read_step(url_body_read(s.skip(1)), 1, seq![s[0]])
    }
}

#[via_fn]
proof fn url_body_read_decreases(s: Seq<char>) {
    if s.len() > 0 && s[0] != ')' && !spec_is_whitespace(s[0]) && s[0] == '\\' && valid_escape_at(
        s,
    ) {
        lemma_escape_taken(s.skip(1));
    }
    if s.len() > 0 && spec_is_whitespace(s[0]) {
        lemma_ws_run_le(s);
    }
}

/// Decode a URL token body after skipping leading whitespace.
pub open spec fn url_read(s: Seq<char>) -> UrlRead {
    url_read_step(url_body_read(s.skip(ws_run_len(s) as int)), ws_run_len(s), Seq::empty())
}

pub proof fn lemma_url_body_taken(s: Seq<char>)
    ensures
        match url_body_read(s) {
            UrlRead::Closed { taken, .. } => taken <= s.len(),
            UrlRead::Bad { taken } => taken <= s.len(),
            UrlRead::Unterminated { taken, .. } => taken == s.len(),
        },
    decreases s.len(),
{
    if s.len() > 0 && s[0] != ')' {
        if spec_is_whitespace(s[0]) {
            lemma_ws_run_le(s);
            lemma_remnant_le(s.skip(ws_run_len(s) as int));
        } else if s[0] == '"' || s[0] == '\'' || s[0] == '(' || spec_is_nonprintable(s[0]) {
            lemma_remnant_le(s.skip(1));
        } else if s[0] == '\\' {
            if valid_escape_at(s) {
                lemma_escape_taken(s.skip(1));
                let er = escape_read(s.skip(1));
                lemma_url_body_taken(s.skip(1 + er.taken as int));
            } else {
                lemma_remnant_le(s.skip(1));
            }
        } else {
            lemma_url_body_taken(s.skip(1));
        }
    }
}

pub proof fn lemma_url_taken(s: Seq<char>)
    ensures
        match url_read(s) {
            UrlRead::Closed { taken, .. } => taken <= s.len(),
            UrlRead::Bad { taken } => taken <= s.len(),
            UrlRead::Unterminated { taken, .. } => taken == s.len(),
        },
{
    lemma_ws_run_le(s);
    lemma_url_body_taken(s.skip(ws_run_len(s) as int));
}

// ---------------------------------------------------------------------------
// Ident-like tokens
// ---------------------------------------------------------------------------

/// Whether a decoded name is an ASCII case-insensitive match for `url`:
/// three code points, each the lower- or upper-case form of its letter.
pub open spec fn is_url_name(s: Seq<char>) -> bool {
    s.len() == 3 && (s[0] == 'u' || s[0] == 'U') && (s[1] == 'r' || s[1] == 'R') && (s[2] == 'l'
        || s[2] == 'L')
}

/// How many leading whitespace code points the `url(` prologue skips:
/// while the next two code points are both whitespace, one is consumed.
pub open spec fn url_ws_skip_len(s: Seq<char>) -> nat
    decreases s.len(),
{
    if s.len() >= 2 && spec_is_whitespace(s[0]) && spec_is_whitespace(s[1]) {
        1 + url_ws_skip_len(s.skip(1))
    } else {
        0
    }
}

pub proof fn lemma_url_ws_skip_le(s: Seq<char>)
    ensures
        url_ws_skip_len(s) <= s.len(),
    decreases s.len(),
{
    if s.len() >= 2 && spec_is_whitespace(s[0]) && spec_is_whitespace(s[1]) {
        lemma_url_ws_skip_le(s.skip(1));
    }
}

/// The error text of an unexpected end of input inside a construct.
pub open spec fn eof_text() -> Seq<char> {
    "Unexpected End Of File (EOF)"@
}

/// The error text of an unexpected end of input inside a URL token.
pub open spec fn url_eof_text() -> Seq<char> {
    "Unexpected End of File (EOF)"@
}

/// The error text of a reverse solidus that starts no valid escape.
pub open spec fn backslash_text() -> Seq<char> {
    "Unexpected token \\"@
}

/// Decode an ident-like token at `s`: a name, then possibly a function or
/// URL token. A name that matches `url` case-insensitively and is directly
/// followed by `(` defers to the string recognizer when a quote follows
/// (possibly after whitespace) and otherwise becomes a URL token.
pub open spec fn ident_like_read(s: Seq<char>) -> TokenStep {
    let nr = name_read(s);
    let rest = s.skip(nr.taken as int);
    if is_url_name(nr.text) && rest.len() > 0 && rest[0] == '(' {
        let after = rest.skip(1);
        let w = url_ws_skip_len(after);
        let rem = after.skip(w as int);
        if rem.len() > 0 && (rem[0] == '"' || rem[0] == '\'') {
            TokenStep::Tok { taken: nr.taken + 1 + w, token: TokenSpec::Function(nr.text) }
        } else if rem.len() >= 2 && spec_is_whitespace(rem[0]) && (rem[1] == '"' || rem[1] == '\'') {
            TokenStep::Tok { taken: nr.taken + 1 + w, token: TokenSpec::Function(nr.text) }
        } else {
            match url_read(rem) {
                UrlRead::Closed { taken, text } => TokenStep::Tok {
                    taken: nr.taken + 1 + w + taken,
                    token: TokenSpec::URL(text),
                },
                UrlRead::Bad { taken } => TokenStep::Tok {
                    taken: nr.taken + 1 + w + taken,
                    token: TokenSpec::BadURL,
                },
                UrlRead::Unterminated { taken, text } => TokenStep::Fail {
                    err: ErrorSpec { token: Some(TokenSpec::URL(text)), text: url_eof_text(), left: 0 },
                },
            }
        }
    } else if rest.len() > 0 && rest[0] == '(' {
        TokenStep::Tok { taken: nr.taken + 1, token: TokenSpec::Function(nr.text) }
    } else {
        TokenStep::Tok { taken: nr.taken, token: TokenSpec::Ident(nr.text) }
    }
}

/// Decode a hash token at `s`, whose first code point is `#`. If a name
/// code point or a valid escape follows, a hash token with a name; the
/// flag is `Id` when the three code points after `#` would start an
/// identifier. Otherwise the `#` itself is a delimiter.
pub open spec fn hash_read(s: Seq<char>) -> TokenStep {
    if s.len() >= 2 && (spec_is_name_code_point(s[1]) || valid_escape_at(s.skip(1))) {
        let flag = if starts_identifier(s.skip(1)) {
            crate::tokens::HashFlag::Id
        } else {
            crate::tokens::HashFlag::Unrestricted
        };
        let nr = name_read(s.skip(1));
        TokenStep::Tok { taken: 1 + nr.taken, token: TokenSpec::Hash(nr.text, flag) }
    } else {
        TokenStep::Tok { taken: 1, token: TokenSpec::Delim('#') }
    }
}

/// Decode a numeric token at `s`: a number, then a dimension if an
/// identifier would start, a percentage if `%` follows, else a plain
/// number token.
pub open spec fn numeric_read(s: Seq<char>) -> TokenStep {
    let nr = number_read(s);
    let rest = s.skip(nr.taken as int);
    let v = NumericValueSpec {
        negative: nr.negative,
        integer: nr.integer,
        fraction: nr.fraction,
        exp_negative: nr.exp_negative,
        exponent: nr.exponent,
    };
    if starts_identifier(rest) {
        let ur = name_read(rest);
        TokenStep::Tok {
            taken: nr.taken + ur.taken,
            token: TokenSpec::Dimension(v, nr.flag, ur.text),
        }
    } else if rest.len() > 0 && rest[0] == '%' {
        TokenStep::Tok { taken: nr.taken + 1, token: TokenSpec::Percentage(v) }
    } else {
        TokenStep::Tok { taken: nr.taken, token: TokenSpec::Number(v, nr.flag) }
    }
}

// ---------------------------------------------------------------------------
// The dispatcher
// ---------------------------------------------------------------------------

/// One dispatch step: try the recognizers in their fixed priority order at
/// the head of `s` and decode the first match.
pub open spec fn next_token_spec(s: Seq<char>) -> TokenStep {
    if s.len() == 0 {
        TokenStep::End
    } else {
        let c = s[0];
        if c == '/' && s.len() >= 2 && s[1] == '*' {
            match comment_close_at(s.skip(2)) {
                Some(i) => TokenStep::Tok { taken: 4 + i, token: TokenSpec::Comment },
                None => TokenStep::Fail {
                    err: ErrorSpec { token: Some(TokenSpec::Comment), text: eof_text(), left: 0 },
                },
            }
        } else if spec_is_whitespace(c) {
            TokenStep::Tok { taken: ws_run_len(s), token: TokenSpec::Whitespace }
        } else if c == '"' || c == '\'' {
            match string_read(s.skip(1), c) {
                StringRead::Closed { taken, text } => TokenStep::Tok {
                    taken: 1 + taken,
                    token: TokenSpec::String(text),
                },
                StringRead::Bad { taken } => TokenStep::Tok {
                    taken: 1 + taken,
                    token: TokenSpec::BadString,
                },
                StringRead::Unterminated { taken, text } => TokenStep::Fail {
                    err: ErrorSpec { token: Some(TokenSpec::String(text)), text: eof_text(), left: 0 },
                },
            }
        } else if c == '#' {
            hash_read(s)
        } else if c == '(' {
            TokenStep::Tok { taken: 1, token: TokenSpec::LeftParentheses }
        } else if c == ')' {
            TokenStep::Tok { taken: 1, token: TokenSpec::RightParentheses }
        } else if c == '+' {
            if starts_number(s) {
                numeric_read(s)
            } else {
                TokenStep::Tok { taken: 1, token: TokenSpec::Delim('+') }
            }
        } else if c == ',' {
            TokenStep::Tok { taken: 1, token: TokenSpec::Comma }
        } else if c == '-' {
            if starts_number(s) {
                numeric_read(s)
            } else if s.len() >= 3 && s[1] == '-' && s[2] == '>' {
                TokenStep::Tok { taken: 3, token: TokenSpec::CDC }
            } else if starts_identifier(s) {
                ident_like_read(s)
            } else {
                TokenStep::Tok { taken: 1, token: TokenSpec::Delim('-') }
            }
        } else if c == '.' {
            if starts_number(s) {
                numeric_read(s)
            } else {
                TokenStep::Tok { taken: 1, token: TokenSpec::Delim('.') }
            }
        } else if c == ':' {
            TokenStep::Tok { taken: 1, token: TokenSpec::Colon }
        } else if c == ';' {
            TokenStep::Tok { taken: 1, token: TokenSpec::Semicolon }
        } else if c == '<' {
            if s.len() >= 4 && s[1] == '!' && s[2] == '-' && s[3] == '-' {
                TokenStep::Tok { taken: 4, token: TokenSpec::CDO }
            } else {
                TokenStep::Tok { taken: 1, token: TokenSpec::Delim('<') }
            }
        } else if c == '@' {
            if starts_identifier(s.skip(1)) {
                let nr = name_read(s.skip(1));
                TokenStep::Tok { taken: 1 + nr.taken, token: TokenSpec::AtKeyword(nr.text) }
            } else {
                TokenStep::Tok { taken: 1, token: TokenSpec::Delim('@') }
            }
        } else if c == '[' {
            TokenStep::Tok { taken: 1, token: TokenSpec::LeftBracket }
        } else if c == '\\' {
            if valid_escape_at(s) {
                ident_like_read(s)
            } else {
                TokenStep::Fail {
                    err: ErrorSpec {
                        token: None,
                        text: backslash_text(),
                        left: (s.len() - 1) as nat,
                    },
                }
            }
        } else if c == ']' {
            TokenStep::Tok { taken: 1, token: TokenSpec::RightBracket }
        } else if c == '{' {
            TokenStep::Tok { taken: 1, token: TokenSpec::LeftBrace }
        } else if c == '}' {
            TokenStep::Tok { taken: 1, token: TokenSpec::RightBrace }
        } else if spec_is_digit(c) {
            numeric_read(s)
        } else if spec_is_name_start(c) {
            ident_like_read(s)
        } else {
            TokenStep::Tok { taken: 1, token: TokenSpec::Delim(c) }
        }
    }
}

pub proof fn lemma_ident_like_taken(s: Seq<char>)
    requires
        s.len() > 0,
        spec_is_name_code_point(s[0]) || valid_escape_at(s),
    ensures
        ident_like_read(s) matches TokenStep::Tok { taken, .. } ==> 1 <= taken <= s.len(),
{
    lemma_name_taken(s);
    let nr = name_read(s);
    let rest = s.skip(nr.taken as int);
    lemma_name_taken(rest);
    if is_url_name(nr.text) && rest.len() > 0 && rest[0] == '(' {
        let after = rest.skip(1);
        lemma_url_ws_skip_le(after);
        let w = url_ws_skip_len(after);
        let rem = after.skip(w as int);
        lemma_url_taken(rem);
    }
}

pub proof fn lemma_numeric_taken(s: Seq<char>)
    requires
        starts_number(s),
    ensures
        numeric_read(s) matches TokenStep::Tok { taken, .. } ==> 1 <= taken <= s.len(),
{
    lemma_number_taken(s);
    let nr = number_read(s);
    let rest = s.skip(nr.taken as int);
    lemma_name_taken(rest);
}

pub proof fn lemma_next_token_taken(s: Seq<char>)
    ensures
        next_token_spec(s) matches TokenStep::Tok { taken, .. } ==> 1 <= taken <= s.len(),
{
    if s.len() > 0 {
        let c = s[0];
        if c == '/' && s.len() >= 2 && s[1] == '*' {
            lemma_comment_close_le(s.skip(2));
        } else if spec_is_whitespace(c) {
            lemma_ws_run_le(s);
        } else if c == '"' || c == '\'' {
            lemma_string_taken(s.skip(1), c);
        } else if c == '#' {
            if s.len() >= 2 && (spec_is_name_code_point(s[1]) || valid_escape_at(s.skip(1))) {
                lemma_name_taken(s.skip(1));
            }
        } else if (c == '+' || c == '-' || c == '.') && starts_number(s) {
            lemma_numeric_taken(s);
        } else if c == '-' && starts_identifier(s) {
            lemma_ident_like_taken(s);
        } else if c == '@' {
            if starts_identifier(s.skip(1)) {
                lemma_name_taken(s.skip(1));
            }
        } else if c == '\\' && valid_escape_at(s) {
            lemma_ident_like_taken(s);
        } else if spec_is_digit(c) {
            lemma_numeric_taken(s);
        } else if spec_is_name_start(c) {
            lemma_ident_like_taken(s);
        }
    }
}

/// The end-of-file token is a sentinel: no dispatch step yields it as an
/// ordinary token.
pub proof fn lemma_next_token_not_eof(s: Seq<char>)
    ensures
        next_token_spec(s) matches TokenStep::Tok { token, .. } ==> token != TokenSpec::EOF,
{
    if s.len() > 0 {
        let c = s[0];
        if (c == '+' || c == '-' || c == '.') && starts_number(s) {
        } else if c == '-' && starts_identifier(s) {
        } else if c == '\\' && valid_escape_at(s) {
        } else if spec_is_digit(c) {
        } else if spec_is_name_start(c) {
        }
    }
}

/// Tokenize a whole preprocessed stream: the ordered token sequence, or
/// the first hard error.
pub open spec fn tokenize_spec(s: Seq<char>) -> Result<Seq<TokenSpec>, ErrorSpec>
    decreases s.len(),
    via tokenize_spec_decreases
{
    match next_token_spec(s) {
        TokenStep::End => Ok(Seq::empty()),
        TokenStep::Fail { err } => Err(err),
        TokenStep::Tok { taken, token } => match tokenize_spec(s.skip(taken as int)) {
            Ok(rest) => Ok(seq![token] + rest),
            Err(e) => Err(e),
        },
    }
}

#[via_fn]
proof fn tokenize_spec_decreases(s: Seq<char>) {
    lemma_next_token_taken(s);
}

// ---------------------------------------------------------------------------
// Stream preprocessing
// ---------------------------------------------------------------------------

/// Normalize the raw source: `\r\n` and a lone `\r` become `\n`, and NUL
/// becomes the replacement character U+FFFD.
pub open spec fn preprocess_seq(s: Seq<char>) -> Seq<char>
    decreases s.len(),
{
    if s.len() == 0 {
        Seq::empty()
    } else if s[0] == '\r' {
        if s.len() >= 2 && s[1] == '\n' {
            seq!['\n'] + preprocess_seq(s.skip(2))
        } else {
            seq!['\n'] + preprocess_seq(s.skip(1))
        }
    } else if s[0] == '\u{0}' {
        seq!['\u{FFFD}'] + preprocess_seq(s.skip(1))
    } else {
        seq![s[0]] + preprocess_seq(s.skip(1))
    }
}

// ---------------------------------------------------------------------------
// Serialization
// ---------------------------------------------------------------------------

/// Drop leading `0` digits.
pub open spec fn strip_leading_zeros(s: Seq<char>) -> Seq<char>
    decreases s.len(),
{
    if s.len() > 0 && s[0] == '0' {
        strip_leading_zeros(s.skip(1))
    } else {
        s
    }
}

/// Drop trailing `0` digits.
pub open spec fn strip_trailing_zeros(s: Seq<char>) -> Seq<char>
    decreases s.len(),
{
    if s.len() > 0 && s.last() == '0' {
        strip_trailing_zeros(s.drop_last())
    } else {
        s
    }
}

/// The canonical integer-part text: the sign, then the digits without
/// leading zeros, or `0` when no digit is left.
pub open spec fn fmt_int_part(negative: bool, digits: Seq<char>) -> Seq<char> {
    let d = strip_leading_zeros(digits);
    let dd = if d.len() == 0 {
        seq!['0']
    } else {
        d
    };
    if negative {
        seq!['-'] + dd
    } else {
        dd
    }
}

/// The canonical text of a numeric value. With the `Integer` flag the
/// fractional part is dropped; with the `Number` flag the fraction is kept
/// without trailing zeros and a nonzero exponent is kept without leading
/// zeros.
pub open spec fn fmt_number_value(v: NumericValueSpec, flag: crate::tokens::NumericFlag) -> Seq<
    char,
> {
    match flag {
        crate::tokens::NumericFlag::Integer => fmt_int_part(v.negative, v.integer),
        crate::tokens::NumericFlag::Number => {
            let frac = strip_trailing_zeros(v.fraction);
            let exp = strip_leading_zeros(v.exponent);
            fmt_int_part(v.negative, v.integer) + (if frac.len() > 0 {
                seq!['.'] + frac
            } else {
                Seq::empty()
            }) + (if exp.len() > 0 {
                seq!['e'] + (if v.exp_negative {
                    seq!['-']
                } else {
                    Seq::<char>::empty()
                }) + exp
            } else {
                Seq::empty()
            })
        },
    }
}

/// The canonical textual form of one token.
pub open spec fn serialize_token(t: TokenSpec) -> Seq<char> {
    match t {
        TokenSpec::Comment => Seq::empty(),
        TokenSpec::Ident(n) => n,
        TokenSpec::Function(n) => n + seq!['('],
        TokenSpec::AtKeyword(n) => seq!['@'] + n,
        TokenSpec::Hash(n, _) => seq!['#'] + n,
        TokenSpec::String(v) => v,
        TokenSpec::BadString => Seq::empty(),
        TokenSpec::URL(v) => seq!['u', 'r', 'l', '('] + v + seq![')'],
        TokenSpec::BadURL => Seq::empty(),
        TokenSpec::Delim(c) => seq![c],
        TokenSpec::Number(v, f) => fmt_number_value(v, f),
        TokenSpec::Percentage(v) => fmt_number_value(v, crate::tokens::NumericFlag::Number)
            + seq!['%'],
        TokenSpec::Dimension(v, f, u) => fmt_number_value(v, f) + u,
        TokenSpec::Whitespace => seq![' '],
        TokenSpec::CDO => Seq::empty(),
        TokenSpec::CDC => Seq::empty(),
        TokenSpec::Colon => seq![':'],
        TokenSpec::Semicolon => seq![';'],
        TokenSpec::Comma => seq![','],
        TokenSpec::LeftBracket => seq!['['],
        TokenSpec::RightBracket => seq![']'],
        TokenSpec::LeftParentheses => seq!['('],
        TokenSpec::RightParentheses => seq![')'],
        TokenSpec::LeftBrace => seq!['{'],
        TokenSpec::RightBrace => seq!['}'],
        TokenSpec::EOF => Seq::empty(),
    }
}

/// The concatenation of the canonical forms of a token sequence.
pub open spec fn serialize_tokens(ts: Seq<TokenSpec>) -> Seq<char>
    decreases ts.len(),
{
    if ts.len() == 0 {
        Seq::empty()
    } else {
        serialize_token(ts[0]) + serialize_tokens(ts.skip(1))
    }
}

} // verus!
