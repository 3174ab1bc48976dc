//! Round-trip stability of serialization, as far as it holds.
//!
//! Serializing a token and tokenizing the result does not in general give
//! the token back: a string token serializes without its quotes, bad
//! tokens and the CDO/CDC markers serialize to nothing, a number whose
//! exponent is zero re-reads with the `Integer` flag, and a name produced
//! by escapes can serialize to text that scans differently. For the
//! stable tokens — those written with plain name code points, URL-safe
//! text, canonical integer digits, or fixed punctuation — the round trip
//! is exact, token by token and for whole whitespace-separated sequences,
//! and the lemmas here prove it.

use vstd::prelude::*;

use crate::model::{digit_run_len, exp_begins, frac_begins, ident_like_read, name_read,
    next_token_spec, serialize_token, serialize_tokens, spec_is_digit, spec_is_name_code_point,
    spec_is_name_start, spec_is_nonprintable, spec_is_whitespace, starts_identifier,
    starts_number, tokenize_spec, url_body_read, url_read, url_read_step, url_ws_skip_len,
    ws_run_len, ErrorSpec, NumericValueSpec, TokenSpec, TokenStep, UrlRead};
use crate::tokens::{HashFlag, NumericFlag};

verus! {

// ---------------------------------------------------------------------------
// The stable tokens
// ---------------------------------------------------------------------------

/// A name written directly: nonempty, beginning with a name-start code
/// point, all of it name code points.
pub open spec fn plain_name(s: Seq<char>) -> bool {
    s.len() > 0 && spec_is_name_start(s[0]) && (forall|i: int|
        0 <= i < s.len() ==> spec_is_name_code_point(#[trigger] s[i]))
}

/// A code point that may stand in a bare URL token: not whitespace, not a
/// quote, parenthesis or reverse solidus, and not nonprintable.
pub open spec fn url_safe_char(c: char) -> bool {
    &&& !spec_is_whitespace(c)
    &&& c != '"'
    &&& c != '\''
    &&& c != '('
    &&& c != ')'
    &&& c != '\\'
    &&& !spec_is_nonprintable(c)
}

/// All of `s` is ASCII digits.
pub open spec fn all_digits(s: Seq<char>) -> bool {
    forall|i: int| 0 <= i < s.len() ==> spec_is_digit(#[trigger] s[i])
}

/// A numeric value held in canonical integer form: a nonempty digit run
/// with no leading zero unless the number is `0` itself, no fraction and
/// no exponent.
pub open spec fn canonical_integer(v: NumericValueSpec) -> bool {
    &&& v.integer.len() > 0
    &&& all_digits(v.integer)
    &&& (v.integer[0] != '0' || v.integer == seq!['0'])
    &&& v.fraction.len() == 0
    &&& !v.exp_negative
    &&& v.exponent.len() == 0
}

/// A delimiter character that heads no other recognizer.
pub open spec fn free_delim_char(c: char) -> bool {
    &&& !spec_is_whitespace(c)
    &&& !spec_is_digit(c)
    &&& !spec_is_name_start(c)
    &&& c != '/' && c != '"' && c != '\'' && c != '#' && c != '(' && c != ')' && c != '+' && c
        != ',' && c != '-' && c != '.' && c != ':' && c != ';' && c != '<' && c != '@' && c != '['
        && c != '\\' && c != ']' && c != '{' && c != '}'
}

/// The tokens whose canonical serialization scans back to exactly the
/// token: names written with plain name code points, URL-safe text,
/// canonical integers, free delimiters, and the fixed punctuation tokens.
pub open spec fn stable_token(t: TokenSpec) -> bool {
    match t {
        TokenSpec::Ident(n) => plain_name(n),
        TokenSpec::Function(n) => plain_name(n) && !crate::model::is_url_name(n),
        TokenSpec::AtKeyword(n) => plain_name(n),
        TokenSpec::Hash(n, flag) => plain_name(n) && flag == HashFlag::Id,
        TokenSpec::URL(v) => forall|i: int| 0 <= i < v.len() ==> url_safe_char(#[trigger] v[i]),
        TokenSpec::Number(v, flag) => canonical_integer(v) && flag == NumericFlag::Integer,
        TokenSpec::Percentage(v) => canonical_integer(v),
        TokenSpec::Dimension(v, flag, u) => canonical_integer(v) && flag == NumericFlag::Integer
            && plain_name(u) && !exp_begins(u),
        TokenSpec::Delim(c) => free_delim_char(c),
        TokenSpec::Colon => true,
        TokenSpec::Semicolon => true,
        TokenSpec::Comma => true,
        TokenSpec::LeftBracket => true,
        TokenSpec::RightBracket => true,
        TokenSpec::LeftParentheses => true,
        TokenSpec::RightParentheses => true,
        TokenSpec::LeftBrace => true,
        TokenSpec::RightBrace => true,
        _ => false,
    }
}

// ---------------------------------------------------------------------------
// How serialized pieces decode in front of further text
// ---------------------------------------------------------------------------

/// A plain name followed by anything that is neither a name code point
/// nor a reverse solidus decodes to exactly the name.
pub proof fn lemma_name_read_stops(name: Seq<char>, rest: Seq<char>)
    requires
        forall|i: int| 0 <= i < name.len() ==> spec_is_name_code_point(#[trigger] name[i]),
        rest.len() > 0 ==> !spec_is_name_code_point(rest[0]) && rest[0] != '\\',
    ensures
        name_read(name + rest) == (crate::model::NameRead { taken: name.len() as nat, text: name }),
    decreases name.len(),
{
    let s = name + rest;
    if name.len() == 0 {
        assert(s =~= rest);
        assert(name_read(s).text =~= name);
    } else {
        assert(s[0] == name[0]);
        assert(s.skip(1) =~= name.skip(1) + rest);
        lemma_name_read_stops(name.skip(1), rest);
        assert(seq![name[0]] + name.skip(1) =~= name);
    }
}

/// A run of digits followed by anything that is not a digit decodes
/// wholly as one digit run.
pub proof fn lemma_digit_run_stops(digits: Seq<char>, rest: Seq<char>)
    requires
        all_digits(digits),
        rest.len() > 0 ==> !spec_is_digit(rest[0]),
    ensures
        digit_run_len(digits + rest) == digits.len(),
    decreases digits.len(),
{
    let s = digits + rest;
    if digits.len() == 0 {
        assert(s =~= rest);
    } else {
        assert(s[0] == digits[0]);
        assert(s.skip(1) =~= digits.skip(1) + rest);
        lemma_digit_run_stops(digits.skip(1), rest);
    }
}

/// URL-safe text followed by the closing parenthesis decodes to exactly
/// that text, whatever follows the parenthesis.
pub proof fn lemma_url_body_plain(value: Seq<char>, rest: Seq<char>)
    requires
        forall|i: int| 0 <= i < value.len() ==> url_safe_char(#[trigger] value[i]),
    ensures
        url_body_read(value + seq![')'] + rest) == (UrlRead::Closed {
            taken: (value.len() + 1) as nat,
            text: value,
        }),
    decreases value.len(),
{
    let s = value + seq![')'] + rest;
    if value.len() == 0 {
        assert(s[0] == ')');
        assert(url_body_read(s) matches UrlRead::Closed { taken, text } && text =~= value);
    } else {
        assert(s[0] == value[0]);
        assert(s.skip(1) =~= value.skip(1) + seq![')'] + rest);
        lemma_url_body_plain(value.skip(1), rest);
        assert(seq![value[0]] + value.skip(1) =~= value);
    }
}

/// Canonical integer digits print as themselves behind the sign.
proof fn lemma_fmt_int_canonical(negative: bool, digits: Seq<char>)
    requires
        digits.len() > 0,
        all_digits(digits),
        digits[0] != '0' || digits == seq!['0'],
    ensures
        crate::model::fmt_int_part(negative, digits) == (if negative {
            seq!['-'] + digits
        } else {
            digits
        }),
{
    if digits[0] != '0' {
        assert(crate::model::strip_leading_zeros(digits) == digits);
    } else {
        assert(seq!['0'].skip(1) =~= Seq::<char>::empty());
        assert(crate::model::strip_leading_zeros(Seq::<char>::empty()) =~= Seq::<char>::empty());
        assert(crate::model::strip_leading_zeros(seq!['0']) =~= Seq::<char>::empty());
        assert(seq!['0'] =~= digits);
    }
    if !negative {
        assert(crate::model::fmt_int_part(negative, digits) =~= digits);
    }
}

/// The serialized text of a canonical integer value: the sign, then the
/// digits, under either numeric flag.
proof fn lemma_fmt_number_canonical(v: NumericValueSpec, flag: NumericFlag)
    requires
        canonical_integer(v),
    ensures
        crate::model::fmt_number_value(v, flag) == (if v.negative {
            seq!['-'] + v.integer
        } else {
            v.integer
        }),
{
    lemma_fmt_int_canonical(v.negative, v.integer);
    if flag == NumericFlag::Number {
        crate::model::lemma_concat_empty(crate::model::fmt_int_part(v.negative, v.integer));
    }
}

// ---------------------------------------------------------------------------
// Prefix stability, token kind by token kind
// ---------------------------------------------------------------------------

proof fn prefix_ident(name: Seq<char>, rest: Seq<char>)
    requires
        plain_name(name),
        rest.len() == 0 || rest[0] == ' ',
    ensures
        next_token_spec(name + rest) == (TokenStep::Tok {
            taken: name.len() as nat,
            token: TokenSpec::Ident(name),
        }),
{
    let s = name + rest;
    assert(s[0] == name[0]);
    lemma_name_read_stops(name, rest);
    assert(s.skip(name.len() as int) =~= rest);
}

proof fn prefix_function(name: Seq<char>, rest: Seq<char>)
    requires
        plain_name(name),
        !crate::model::is_url_name(name),
        rest.len() == 0 || rest[0] == ' ',
    ensures
        next_token_spec(name + seq!['('] + rest) == (TokenStep::Tok {
            taken: (name.len() + 1) as nat,
            token: TokenSpec::Function(name),
        }),
{
    let s = name + seq!['('] + rest;
    assert(s =~= name + (seq!['('] + rest));
    assert(s[0] == name[0]);
    lemma_name_read_stops(name, seq!['('] + rest);
    assert(s.skip(name.len() as int) =~= seq!['('] + rest);
}

proof fn prefix_at_keyword(name: Seq<char>, rest: Seq<char>)
    requires
        plain_name(name),
        rest.len() == 0 || rest[0] == ' ',
    ensures
        next_token_spec(seq!['@'] + name + rest) == (TokenStep::Tok {
            taken: (1 + name.len()) as nat,
            token: TokenSpec::AtKeyword(name),
        }),
{
    let s = seq!['@'] + name + rest;
    assert(s[0] == '@');
    assert(s.skip(1) =~= name + rest);
    assert((name + rest)[0] == name[0]);
    lemma_name_read_stops(name, rest);
}

proof fn prefix_hash(name: Seq<char>, rest: Seq<char>)
    requires
        plain_name(name),
        rest.len() == 0 || rest[0] == ' ',
    ensures
        next_token_spec(seq!['#'] + name + rest) == (TokenStep::Tok {
            taken: (1 + name.len()) as nat,
            token: TokenSpec::Hash(name, HashFlag::Id),
        }),
{
    let s = seq!['#'] + name + rest;
    assert(s[0] == '#');
    assert(s.skip(1) =~= name + rest);
    assert(s[1] == name[0]);
    assert((name + rest)[0] == name[0]);
    assert(starts_identifier(name + rest));
    lemma_name_read_stops(name, rest);
}

proof fn prefix_url(value: Seq<char>, rest: Seq<char>)
    requires
        forall|i: int| 0 <= i < value.len() ==> url_safe_char(#[trigger] value[i]),
        rest.len() == 0 || rest[0] == ' ',
    ensures
        next_token_spec(seq!['u', 'r', 'l', '('] + value + seq![')'] + rest) == (TokenStep::Tok {
            taken: (4 + value.len() + 1) as nat,
            token: TokenSpec::URL(value),
        }),
{
    let url = seq!['u', 'r', 'l'];
    let rest0 = seq!['('] + value + seq![')'] + rest;
    let s = seq!['u', 'r', 'l', '('] + value + seq![')'] + rest;
    assert(s =~= url + rest0);
    assert(s[0] == 'u');
    lemma_name_read_stops(url, rest0);
    assert(crate::model::is_url_name(url));
    assert((url + rest0).skip(3) =~= rest0);
    let after = rest0.skip(1);
    assert(after =~= value + seq![')'] + rest);
    assert(!spec_is_whitespace(after[0]));
    assert(url_ws_skip_len(after) == 0);
    assert(after.skip(0) =~= after);
    assert(ws_run_len(after) == 0);
    lemma_url_body_plain(value, rest);
    assert(url_read(after) == url_read_step(
        url_body_read(after),
        0nat,
        Seq::<char>::empty(),
    ));
    assert(Seq::<char>::empty() + value =~= value);
    assert(url_read(after) == (UrlRead::Closed { taken: (value.len() + 1) as nat, text: value }));
    assert(ident_like_read(s) == (TokenStep::Tok {
        taken: (3 + 1 + 0 + value.len() + 1) as nat,
        token: TokenSpec::URL(value),
    }));
}

proof fn prefix_number(v: NumericValueSpec, rest: Seq<char>)
    requires
        canonical_integer(v),
        rest.len() == 0 || rest[0] == ' ',
    ensures
        ({
            let body = if v.negative {
                seq!['-'] + v.integer
            } else {
                v.integer
            };
            next_token_spec(body + rest) == (TokenStep::Tok {
                taken: body.len() as nat,
                token: TokenSpec::Number(v, NumericFlag::Integer),
            })
        }),
{
    let digits = v.integer;
    let body = if v.negative {
        seq!['-'] + digits
    } else {
        digits
    };
    let s = body + rest;
    assert(v.fraction =~= Seq::<char>::empty());
    assert(v.exponent =~= Seq::<char>::empty());
    let sign_len: int = if v.negative {
        1
    } else {
        0
    };
    assert(s.skip(sign_len) =~= digits + rest);
    lemma_digit_run_stops(digits, rest);
    assert((digits + rest).skip(digits.len() as int) =~= rest);
    assert((digits + rest).take(digits.len() as int) =~= digits);
    assert(!frac_begins(rest));
    assert(!exp_begins(rest));
    let nr = crate::model::number_read(s);
    assert(nr.taken == body.len() && nr.negative == v.negative && nr.integer == digits
        && nr.fraction =~= Seq::<char>::empty() && nr.exp_negative == false && nr.exponent
        =~= Seq::<char>::empty() && nr.flag == NumericFlag::Integer);
    assert(s.skip(body.len() as int) =~= rest);
    assert(!starts_identifier(rest));
    assert(starts_number(s));
    assert(crate::model::numeric_read(s) == (TokenStep::Tok {
        taken: body.len() as nat,
        token: TokenSpec::Number(v, NumericFlag::Integer),
    }));
}

proof fn prefix_percentage(v: NumericValueSpec, rest: Seq<char>)
    requires
        canonical_integer(v),
        rest.len() == 0 || rest[0] == ' ',
    ensures
        ({
            let body = if v.negative {
                seq!['-'] + v.integer
            } else {
                v.integer
            };
            next_token_spec(body + seq!['%'] + rest) == (TokenStep::Tok {
                taken: (body.len() + 1) as nat,
                token: TokenSpec::Percentage(v),
            })
        }),
{
    let digits = v.integer;
    let body = if v.negative {
        seq!['-'] + digits
    } else {
        digits
    };
    let s = body + seq!['%'] + rest;
    assert(v.fraction =~= Seq::<char>::empty());
    assert(v.exponent =~= Seq::<char>::empty());
    let sign_len: int = if v.negative {
        1
    } else {
        0
    };
    assert(s.skip(sign_len) =~= digits + (seq!['%'] + rest));
    lemma_digit_run_stops(digits, seq!['%'] + rest);
    assert((digits + (seq!['%'] + rest)).skip(digits.len() as int) =~= seq!['%'] + rest);
    assert((digits + (seq!['%'] + rest)).take(digits.len() as int) =~= digits);
    assert(!frac_begins(seq!['%'] + rest));
    assert(!exp_begins(seq!['%'] + rest));
    let nr = crate::model::number_read(s);
    assert(nr.taken == body.len() && nr.negative == v.negative && nr.integer == digits
        && nr.fraction =~= Seq::<char>::empty() && nr.exp_negative == false && nr.exponent
        =~= Seq::<char>::empty());
    assert(s.skip(body.len() as int) =~= seq!['%'] + rest);
    assert(!starts_identifier(seq!['%'] + rest));
    assert(starts_number(s));
    assert(crate::model::numeric_read(s) == (TokenStep::Tok {
        taken: (body.len() + 1) as nat,
        token: TokenSpec::Percentage(v),
    }));
}

#[verifier::rlimit(100)]
proof fn prefix_dimension(v: NumericValueSpec, unit: Seq<char>, rest: Seq<char>)
    requires
        canonical_integer(v),
        plain_name(unit),
        !exp_begins(unit),
        rest.len() == 0 || rest[0] == ' ',
    ensures
        ({
            let body = if v.negative {
                seq!['-'] + v.integer
            } else {
                v.integer
            };
            next_token_spec(body + unit + rest) == (TokenStep::Tok {
                taken: (body.len() + unit.len()) as nat,
                token: TokenSpec::Dimension(v, NumericFlag::Integer, unit),
            })
        }),
{
    let digits = v.integer;
    let body = if v.negative {
        seq!['-'] + digits
    } else {
        digits
    };
    let s = body + unit + rest;
    assert(v.fraction =~= Seq::<char>::empty());
    assert(v.exponent =~= Seq::<char>::empty());
    let sign_len: int = if v.negative {
        1
    } else {
        0
    };
    assert(s.skip(sign_len) =~= digits + (unit + rest));
    lemma_digit_run_stops(digits, unit + rest);
    assert((digits + (unit + rest)).skip(digits.len() as int) =~= unit + rest);
    assert((digits + (unit + rest)).take(digits.len() as int) =~= digits);
    assert((unit + rest)[0] == unit[0]);
    assert(!frac_begins(unit + rest));
    // an exponent cannot begin at the unit: its own shape refuses one, and
    // the separator after it is neither a digit nor a sign
    assert(!exp_begins(unit + rest)) by {
        if unit.len() >= 2 {
            assert((unit + rest)[1] == unit[1]);
            if unit.len() >= 3 {
                assert((unit + rest)[2] == unit[2]);
            }
        }
    }
    let nr = crate::model::number_read(s);
    assert(nr.taken == body.len() && nr.negative == v.negative && nr.integer == digits
        && nr.fraction =~= Seq::<char>::empty() && nr.exp_negative == false && nr.exponent
        =~= Seq::<char>::empty() && nr.flag == NumericFlag::Integer);
    assert(s.skip(body.len() as int) =~= unit + rest);
    assert(starts_identifier(unit + rest));
    lemma_name_read_stops(unit, rest);
    assert((unit + rest).skip(unit.len() as int) =~= rest);
    assert(starts_number(s));
    assert(crate::model::numeric_read(s) == (TokenStep::Tok {
        taken: (body.len() + unit.len()) as nat,
        token: TokenSpec::Dimension(v, NumericFlag::Integer, unit),
    }));
}

/// Whatever single-space-separated text follows it, a stable token's
/// canonical serialization scans back as exactly that token, consuming
/// exactly its own text.
pub proof fn lemma_token_prefix_stable(t: TokenSpec, rest: Seq<char>)
    requires
        stable_token(t),
        rest.len() == 0 || rest[0] == ' ',
    ensures
        next_token_spec(serialize_token(t) + rest) == (TokenStep::Tok {
            taken: serialize_token(t).len() as nat,
            token: t,
        }),
{
    match t {
        TokenSpec::Ident(n) => {
            prefix_ident(n, rest);
        },
        TokenSpec::Function(n) => {
            prefix_function(n, rest);
            assert(serialize_token(t) + rest =~= n + seq!['('] + rest);
        },
        TokenSpec::AtKeyword(n) => {
            prefix_at_keyword(n, rest);
            assert(serialize_token(t) + rest =~= seq!['@'] + n + rest);
        },
        TokenSpec::Hash(n, _flag) => {
            prefix_hash(n, rest);
            assert(serialize_token(t) + rest =~= seq!['#'] + n + rest);
        },
        TokenSpec::URL(v) => {
            prefix_url(v, rest);
            assert(serialize_token(t) + rest =~= seq!['u', 'r', 'l', '('] + v + seq![')'] + rest);
        },
        TokenSpec::Number(v, _flag) => {
            lemma_fmt_number_canonical(v, NumericFlag::Integer);
            prefix_number(v, rest);
        },
        TokenSpec::Percentage(v) => {
            lemma_fmt_number_canonical(v, NumericFlag::Number);
            prefix_percentage(v, rest);
            assert(serialize_token(t) + rest =~= (if v.negative {
                seq!['-'] + v.integer
            } else {
                v.integer
            }) + seq!['%'] + rest);
        },
        TokenSpec::Dimension(v, _flag, u) => {
            lemma_fmt_number_canonical(v, NumericFlag::Integer);
            prefix_dimension(v, u, rest);
            assert(serialize_token(t) + rest =~= (if v.negative {
                seq!['-'] + v.integer
            } else {
                v.integer
            }) + u + rest);
        },
        TokenSpec::Delim(c) => {
            let s = seq![c] + rest;
            assert(s[0] == c);
            assert(s.skip(1) =~= rest);
        },
        _ => {
            // the fixed punctuation tokens: one known character each
            let s = serialize_token(t) + rest;
            assert(s[0] == serialize_token(t)[0]);
            assert(s.skip(1) =~= rest);
        },
    }
}

/// A stable token serializes to nonempty text that does not begin with
/// whitespace.
pub proof fn lemma_stable_serialization_head(t: TokenSpec)
    requires
        stable_token(t),
    ensures
        serialize_token(t).len() > 0,
        !spec_is_whitespace(serialize_token(t)[0]),
{
    match t {
        TokenSpec::Function(n) => {
            assert(serialize_token(t)[0] == n[0]);
        },
        TokenSpec::Number(v, _flag) => {
            lemma_fmt_number_canonical(v, NumericFlag::Integer);
            if !v.negative {
                assert(serialize_token(t)[0] == v.integer[0]);
            }
        },
        TokenSpec::Percentage(v) => {
            lemma_fmt_number_canonical(v, NumericFlag::Number);
            if !v.negative {
                assert(serialize_token(t)[0] == v.integer[0]);
            }
        },
        TokenSpec::Dimension(v, _flag, u) => {
            lemma_fmt_number_canonical(v, NumericFlag::Integer);
            if !v.negative {
                assert(serialize_token(t)[0] == v.integer[0]);
            }
        },
        _ => {},
    }
}

// ---------------------------------------------------------------------------
// The sequence-level law
// ---------------------------------------------------------------------------

/// A token sequence of stable tokens separated by single whitespace
/// tokens: every entry is stable or whitespace, and of two neighbours
/// exactly one is whitespace.
pub open spec fn separated(ts: Seq<TokenSpec>) -> bool {
    &&& forall|i: int|
        0 <= i < ts.len() ==> stable_token(#[trigger] ts[i]) || ts[i] == TokenSpec::Whitespace
    &&& forall|i: int|
        0 <= i && i + 1 < ts.len() ==> ((#[trigger] ts[i]) == TokenSpec::Whitespace <==> ts[i + 1]
            != TokenSpec::Whitespace)
}

/// Serialization is round-trip stable at the sequence level on separated
/// sequences: serializing the whole sequence and tokenizing the result
/// yields exactly the sequence again — in particular its non-trivia
/// tokens are pairwise equal to those of the first pass.
pub proof fn lemma_separated_round_trip(ts: Seq<TokenSpec>)
    requires
        separated(ts),
    ensures
        tokenize_spec(serialize_tokens(ts)) == Ok::<_, ErrorSpec>(ts),
    decreases ts.len(),
{
    let s = serialize_tokens(ts);
    if ts.len() == 0 {
        assert(ts =~= Seq::<TokenSpec>::empty());
    } else {
        let head = serialize_token(ts[0]);
        let tail = serialize_tokens(ts.skip(1));
        assert(s == head + tail);
        assert forall|i: int| 0 <= i < ts.skip(1).len() implies stable_token(
            #[trigger] ts.skip(1)[i],
        ) || ts.skip(1)[i] == TokenSpec::Whitespace by {
            assert(ts.skip(1)[i] == ts[i + 1]);
        }
        assert forall|i: int| 0 <= i && i + 1 < ts.skip(1).len() implies ((
        #[trigger] ts.skip(1)[i]) == TokenSpec::Whitespace <==> ts.skip(1)[i + 1]
            != TokenSpec::Whitespace) by {
            assert(ts.skip(1)[i] == ts[i + 1]);
            assert(ts.skip(1)[i + 1] == ts[i + 2]);
        }
        lemma_separated_round_trip(ts.skip(1));
        if ts.len() >= 2 {
            assert(ts.skip(1)[0] == ts[1]);
            assert(tail == serialize_token(ts[1]) + serialize_tokens(ts.skip(1).skip(1)));
            if ts[1] == TokenSpec::Whitespace {
                assert(tail[0] == ' ');
                assert(tail.len() > 0);
            } else {
                lemma_stable_serialization_head(ts[1]);
                assert(tail[0] == serialize_token(ts[1])[0]);
                assert(tail.len() > 0);
            }
        } else {
            assert(ts.skip(1) =~= Seq::<TokenSpec>::empty());
            assert(tail =~= Seq::<char>::empty());
        }
        if ts[0] == TokenSpec::Whitespace {
            // a separated sequence never puts two whitespace tokens side
            // by side, so the run is exactly one space long
            assert(head =~= seq![' ']);
            assert(s[0] == ' ');
            assert(s.skip(1) =~= tail);
            assert(ws_run_len(tail) == 0);
            assert(ws_run_len(s) == 1);
            assert(next_token_spec(s) == (TokenStep::Tok {
                taken: 1nat,
                token: TokenSpec::Whitespace,
            }));
            assert(tokenize_spec(s) == Ok::<_, ErrorSpec>(
                seq![TokenSpec::Whitespace] + ts.skip(1),
            ));
            assert(seq![TokenSpec::Whitespace] + ts.skip(1) =~= ts);
        } else {
            assert(stable_token(ts[0]));
            if ts.len() >= 2 {
                assert(ts[1] == TokenSpec::Whitespace);
                assert(tail[0] == ' ');
            }
            lemma_token_prefix_stable(ts[0], tail);
            assert(s.skip(head.len() as int) =~= tail);
            assert(tokenize_spec(s) == Ok::<_, ErrorSpec>(seq![ts[0]] + ts.skip(1)));
            assert(seq![ts[0]] + ts.skip(1) =~= ts);
        }
    }
}

// ---------------------------------------------------------------------------
// Round trips of single tokens
// ---------------------------------------------------------------------------

/// Serializing one stable token and tokenizing the result yields exactly
/// that token again.
pub proof fn lemma_token_round_trip(t: TokenSpec)
    requires
        stable_token(t),
    ensures
        tokenize_spec(serialize_token(t)) == Ok::<_, ErrorSpec>(seq![t]),
{
    lemma_token_prefix_stable(t, Seq::<char>::empty());
    let s = serialize_token(t);
    assert(s + Seq::<char>::empty() =~= s);
    assert(s.skip(s.len() as int) =~= Seq::<char>::empty());
    assert(tokenize_spec(Seq::<char>::empty()) == Ok::<_, ErrorSpec>(Seq::<TokenSpec>::empty()));
    assert(seq![t] + Seq::<TokenSpec>::empty() =~= seq![t]);
}

/// Serializing an identifier token whose name is a plain name and
/// tokenizing the result yields exactly that token again.
pub proof fn lemma_ident_round_trip(name: Seq<char>)
    requires
        plain_name(name),
    ensures
        tokenize_spec(serialize_token(TokenSpec::Ident(name))) == Ok::<_, ErrorSpec>(
            seq![TokenSpec::Ident(name)],
        ),
{
    lemma_token_round_trip(TokenSpec::Ident(name));
}

/// Serializing a function token whose name is a plain name other than
/// `url` and tokenizing the result yields exactly that token again.
pub proof fn lemma_function_round_trip(name: Seq<char>)
    requires
        plain_name(name),
        !crate::model::is_url_name(name),
    ensures
        tokenize_spec(serialize_token(TokenSpec::Function(name))) == Ok::<_, ErrorSpec>(
            seq![TokenSpec::Function(name)],
        ),
{
    lemma_token_round_trip(TokenSpec::Function(name));
}

/// Serializing a URL token whose value is URL-safe text and tokenizing
/// the result yields exactly that token again.
pub proof fn lemma_url_round_trip(value: Seq<char>)
    requires
        forall|i: int| 0 <= i < value.len() ==> url_safe_char(#[trigger] value[i]),
    ensures
        tokenize_spec(serialize_token(TokenSpec::URL(value))) == Ok::<_, ErrorSpec>(
            seq![TokenSpec::URL(value)],
        ),
{
    lemma_token_round_trip(TokenSpec::URL(value));
}

/// Serializing a hash token whose name is a plain name, carrying the `Id`
/// flag, and tokenizing the result yields exactly that token again.
pub proof fn lemma_hash_round_trip(name: Seq<char>)
    requires
        plain_name(name),
    ensures
        tokenize_spec(serialize_token(TokenSpec::Hash(name, HashFlag::Id))) == Ok::<_, ErrorSpec>(
            seq![TokenSpec::Hash(name, HashFlag::Id)],
        ),
{
    lemma_token_round_trip(TokenSpec::Hash(name, HashFlag::Id));
}

/// Serializing an at-keyword token whose name is a plain name and
/// tokenizing the result yields exactly that token again.
pub proof fn lemma_at_keyword_round_trip(name: Seq<char>)
    requires
        plain_name(name),
    ensures
        tokenize_spec(serialize_token(TokenSpec::AtKeyword(name))) == Ok::<_, ErrorSpec>(
            seq![TokenSpec::AtKeyword(name)],
        ),
{
    lemma_token_round_trip(TokenSpec::AtKeyword(name));
}

/// Serializing an integer-flagged number token whose digits are already
/// canonical and tokenizing the result yields exactly that token again.
pub proof fn lemma_integer_round_trip(negative: bool, digits: Seq<char>)
    requires
        digits.len() > 0,
        all_digits(digits),
        digits[0] != '0' || digits == seq!['0'],
    ensures
        ({
            let v = NumericValueSpec {
                negative,
                integer: digits,
                fraction: Seq::empty(),
                exp_negative: false,
                exponent: Seq::empty(),
            };
            tokenize_spec(serialize_token(TokenSpec::Number(v, NumericFlag::Integer)))
                == Ok::<_, ErrorSpec>(seq![TokenSpec::Number(v, NumericFlag::Integer)])
        }),
{
    let v = NumericValueSpec {
        negative,
        integer: digits,
        fraction: Seq::empty(),
        exp_negative: false,
        exponent: Seq::empty(),
    };
    lemma_token_round_trip(TokenSpec::Number(v, NumericFlag::Integer));
}

/// Serializing a percentage token whose value has canonical integer
/// digits and tokenizing the result yields exactly that token again.
pub proof fn lemma_percentage_round_trip(negative: bool, digits: Seq<char>)
    requires
        digits.len() > 0,
        all_digits(digits),
        digits[0] != '0' || digits == seq!['0'],
    ensures
        ({
            let v = NumericValueSpec {
                negative,
                integer: digits,
                fraction: Seq::empty(),
                exp_negative: false,
                exponent: Seq::empty(),
            };
            tokenize_spec(serialize_token(TokenSpec::Percentage(v))) == Ok::<_, ErrorSpec>(
                seq![TokenSpec::Percentage(v)],
            )
        }),
{
    let v = NumericValueSpec {
        negative,
        integer: digits,
        fraction: Seq::empty(),
        exp_negative: false,
        exponent: Seq::empty(),
    };
    lemma_token_round_trip(TokenSpec::Percentage(v));
}

/// Serializing an integer-flagged dimension token whose digits are
/// canonical and whose unit is a plain name that does not begin like an
/// exponent, and tokenizing the result yields exactly that token again.
pub proof fn lemma_dimension_round_trip(negative: bool, digits: Seq<char>, unit: Seq<char>)
    requires
        digits.len() > 0,
        all_digits(digits),
        digits[0] != '0' || digits == seq!['0'],
        plain_name(unit),
        !exp_begins(unit),
    ensures
        ({
            let v = NumericValueSpec {
                negative,
                integer: digits,
                fraction: Seq::empty(),
                exp_negative: false,
                exponent: Seq::empty(),
            };
            tokenize_spec(serialize_token(TokenSpec::Dimension(v, NumericFlag::Integer, unit)))
                == Ok::<_, ErrorSpec>(seq![TokenSpec::Dimension(v, NumericFlag::Integer, unit)])
        }),
{
    let v = NumericValueSpec {
        negative,
        integer: digits,
        fraction: Seq::empty(),
        exp_negative: false,
        exponent: Seq::empty(),
    };
    lemma_token_round_trip(TokenSpec::Dimension(v, NumericFlag::Integer, unit));
}

/// Serializing a delimiter token whose character heads no other
/// recognizer and tokenizing the result yields exactly that token again.
pub proof fn lemma_delim_round_trip(c: char)
    requires
        free_delim_char(c),
    ensures
        tokenize_spec(serialize_token(TokenSpec::Delim(c))) == Ok::<_, ErrorSpec>(
            seq![TokenSpec::Delim(c)],
        ),
{
    lemma_token_round_trip(TokenSpec::Delim(c));
}

} // verus!
