//! The token model: the closed set of CSS token variants, each carrying only
//! the data the grammar requires, plus the canonical serializer.

use vstd::prelude::*;

use crate::model::{fmt_int_part, fmt_number_value, serialize_token, strip_leading_zeros,
    strip_trailing_zeros, NumericValueSpec, TokenSpec};
use crate::text::push_char;

verus! {

/// The flag of a hash token: whether the name after `#` would start an
/// identifier.
#[derive(Debug, Clone, PartialEq, Eq, Structural)]
pub enum HashFlag {
    Id,
    Unrestricted,
}

/// The flag of a numeric token. `Integer` means the literal had neither a
/// fractional part nor an exponent; the flag only controls serialization.
#[derive(Debug, Clone, PartialEq, Eq, Structural)]
pub enum NumericFlag {
    Integer,
    Number,
}

/// The exact value of a numeric literal, kept as the decimal components the
/// grammar captured: sign, integer digits, fraction digits, and a signed
/// exponent digit run. The value denoted is
/// `sign * (integer.fraction) * 10^(exponent sign * exponent)`.
#[derive(Debug, Clone)]
pub struct NumericValue {
    pub negative: bool,
    pub integer: String,
    pub fraction: String,
    pub exp_negative: bool,
    pub exponent: String,
}

impl View for NumericValue {
    type V = NumericValueSpec;

    open spec fn view(&self) -> NumericValueSpec {
        NumericValueSpec {
            negative: self.negative,
            integer: self.integer@,
            fraction: self.fraction@,
            exp_negative: self.exp_negative,
            exponent: self.exponent@,
        }
    }
}

/// A CSS token.
#[derive(Debug, Clone)]
pub enum CSSToken {
    Comment,
    Ident(String),
    Function(String),
    AtKeyword(String),
    Hash(String, HashFlag),
    String(String),
    BadString,
    URL(String),
    BadURL,
    Delim(char),
    Number(NumericValue, NumericFlag),
    Percentage(NumericValue),
    Dimension(NumericValue, NumericFlag, String),
    Whitespace,
    CDO,
    CDC,
    Colon,
    Semicolon,
    Comma,
    LeftBracket,
    RightBracket,
    LeftParentheses,
    RightParentheses,
    LeftBrace,
    RightBrace,
    EOF,
}

/// The views of a token sequence, in order.
pub open spec fn views_of(s: Seq<CSSToken>) -> Seq<TokenSpec> {
    s.map_values(|t: CSSToken| t@)
}

impl View for CSSToken {
    type V = TokenSpec;

    open spec fn view(&self) -> TokenSpec {
        match self {
            CSSToken::Comment => TokenSpec::Comment,
            CSSToken::Ident(n) => TokenSpec::Ident(n@),
            CSSToken::Function(n) => TokenSpec::Function(n@),
            CSSToken::AtKeyword(n) => TokenSpec::AtKeyword(n@),
            CSSToken::Hash(n, f) => TokenSpec::Hash(n@, *f),
            CSSToken::String(v) => TokenSpec::String(v@),
            CSSToken::BadString => TokenSpec::BadString,
            CSSToken::URL(v) => TokenSpec::URL(v@),
            CSSToken::BadURL => TokenSpec::BadURL,
            CSSToken::Delim(c) => TokenSpec::Delim(*c),
            CSSToken::Number(v, f) => TokenSpec::Number(v@, *f),
            CSSToken::Percentage(v) => TokenSpec::Percentage(v@),
            CSSToken::Dimension(v, f, u) => TokenSpec::Dimension(v@, *f, u@),
            CSSToken::Whitespace => TokenSpec::Whitespace,
            CSSToken::CDO => TokenSpec::CDO,
            CSSToken::CDC => TokenSpec::CDC,
            CSSToken::Colon => TokenSpec::Colon,
            CSSToken::Semicolon => TokenSpec::Semicolon,
            CSSToken::Comma => TokenSpec::Comma,
            CSSToken::LeftBracket => TokenSpec::LeftBracket,
            CSSToken::RightBracket => TokenSpec::RightBracket,
            CSSToken::LeftParentheses => TokenSpec::LeftParentheses,
            CSSToken::RightParentheses => TokenSpec::RightParentheses,
            CSSToken::LeftBrace => TokenSpec::LeftBrace,
            CSSToken::RightBrace => TokenSpec::RightBrace,
            CSSToken::EOF => TokenSpec::EOF,
        }
    }
}


/// The digits of `digits` without leading zeros.
fn strip_leading(digits: &String) -> (r: String)
    ensures
        r@ == strip_leading_zeros(digits@),
{
    let st = digits.as_str();
    let n = st.unicode_len();
    let mut i: usize = 0;
    let mut done = false;
    proof {
        assert(digits@.skip(0) =~= digits@);
    }
    while !done
        invariant
            st@ == digits@,
            n == digits@.len(),
            i <= n,
            strip_leading_zeros(digits@) == strip_leading_zeros(digits@.skip(i as int)),
            done ==> (i == n || digits@[i as int] != '0'),
        decreases n - i + (if done {
            0int
        } else {
            1int
        }),
    {
        if i < n {
            let c = st.get_char(i);
            if c == '0' {
                proof {
                    crate::model::lemma_skip_skip(digits@, i as int, 1);
                }
                i = i + 1;
            } else {
                done = true;
            }
        } else {
            done = true;
        }
    }
    let r = String::from_str(st.substring_char(i, n));
    proof {
        assert(digits@.subrange(i as int, n as int) =~= digits@.skip(i as int));
    }
    r
}

/// The digits of `digits` without trailing zeros.
fn strip_trailing(digits: &String) -> (r: String)
    ensures
        r@ == strip_trailing_zeros(digits@),
{
    let st = digits.as_str();
    let n = st.unicode_len();
    let mut j: usize = n;
    let mut done = false;
    proof {
        assert(digits@.take(n as int) =~= digits@);
    }
    while !done
        invariant
            st@ == digits@,
            n == digits@.len(),
            j <= n,
            strip_trailing_zeros(digits@) == strip_trailing_zeros(digits@.take(j as int)),
            done ==> (j == 0 || digits@[j - 1] != '0'),
        decreases j + (if done {
            0int
        } else {
            1int
        }),
    {
        if j > 0 {
            let c = st.get_char(j - 1);
            if c == '0' {
                proof {
                    assert(digits@.take(j as int).drop_last() =~= digits@.take(j - 1));
                    assert(digits@.take(j as int).last() == digits@[j - 1]);
                }
                j = j - 1;
            } else {
                done = true;
            }
        } else {
            done = true;
        }
    }
    let r = String::from_str(st.substring_char(0, j));
    proof {
        assert(digits@.subrange(0, j as int) =~= digits@.take(j as int));
        if j > 0 {
            assert(digits@.take(j as int).last() == digits@[j - 1]);
        }
    }
    r
}

/// The canonical integer-part text: the sign, then the digits without
/// leading zeros, or `0` when no digit is left.
fn format_int_part(negative: bool, digits: &String) -> (r: String)
    ensures
        r@ == fmt_int_part(negative, digits@),
{
    let d = strip_leading(digits);
    let mut out = String::new();
    if negative {
        push_char(&mut out, '-');
    }
    if d.as_str().unicode_len() == 0 {
        push_char(&mut out, '0');
        proof {
            assert(seq!['-'].push('0') =~= seq!['-', '0']);
            assert(seq!['-'] + seq!['0'] =~= seq!['-', '0']);
            assert(Seq::<char>::empty().push('0') =~= seq!['0']);
        }
    } else {
        out.append(d.as_str());
        proof {
            crate::model::lemma_push_concat(Seq::<char>::empty(), '-');
            assert(Seq::<char>::empty() + seq!['-'] =~= seq!['-']);
            assert(Seq::<char>::empty() + d@ =~= d@);
        }
    }
    out
}

/// The canonical text of a numeric value. With the `Integer` flag the
/// fractional part is dropped; with the `Number` flag the fraction is
/// kept without trailing zeros and a nonzero exponent without leading
/// zeros.
fn format_number(number: &NumericValue, flag: &NumericFlag) -> (r: String)
    ensures
        r@ == fmt_number_value(number@, *flag),
{
    match flag {
        NumericFlag::Integer => format_int_part(number.negative, &number.integer),
        NumericFlag::Number => {
            let mut out = format_int_part(number.negative, &number.integer);
            let ghost int_part = out@;
            let frac = strip_trailing(&number.fraction);
            let ghost with_frac = fmt_int_part(number@.negative, number@.integer) + (if strip_trailing_zeros(number@.fraction).len() > 0 {
                seq!['.'] + strip_trailing_zeros(number@.fraction)
            } else {
                Seq::<char>::empty()
            });
            if frac.as_str().unicode_len() > 0 {
                push_char(&mut out, '.');
                out.append(frac.as_str());
                proof {
                    crate::model::lemma_push_concat(int_part, '.');
                    assert((int_part + seq!['.']) + frac@ =~= int_part + (seq!['.'] + frac@));
                }
            } else {
                proof {
                    crate::model::lemma_concat_empty(int_part);
                }
            }
            proof {
                assert(out@ == with_frac);
            }
            let exp = strip_leading(&number.exponent);
            if exp.as_str().unicode_len() > 0 {
                push_char(&mut out, 'e');
                if number.exp_negative {
                    push_char(&mut out, '-');
                }
                out.append(exp.as_str());
                proof {
                    crate::model::lemma_push_concat(with_frac, 'e');
                    if number.exp_negative {
                        crate::model::lemma_push_concat(with_frac + seq!['e'], '-');
                        assert((with_frac + seq!['e']) + seq!['-'] =~= with_frac + (seq!['e']
                            + seq!['-']));
                        assert(((with_frac + (seq!['e'] + seq!['-']))) + exp@ =~= with_frac + ((
                        seq!['e'] + seq!['-']) + exp@));
                    } else {
                        assert((with_frac + seq!['e']) + exp@ =~= with_frac + (seq!['e'] + exp@));
                        assert(seq!['e'] + (Seq::<char>::empty() + exp@) =~= seq!['e'] + exp@);
                        assert(Seq::<char>::empty() + exp@ =~= exp@);
                    }
                }
            } else {
                proof {
                    crate::model::lemma_concat_empty(with_frac);
                }
            }
            out
        },
    }
}

impl CSSToken {
    /// The canonical textual form of this token, usable to reconstruct
    /// equivalent CSS text.
    pub fn to_css(&self) -> (r: String)
        ensures
            r@ == serialize_token(self@),
    {
        match self {
            CSSToken::Comment => String::new(),
            CSSToken::Ident(name) => name.clone(),
            CSSToken::Function(name) => {
                let mut out = name.clone();
                push_char(&mut out, '(');
                proof {
                    crate::model::lemma_push_concat(name@, '(');
                }
                out
            },
            CSSToken::AtKeyword(keyword) => {
                let mut out = String::new();
                push_char(&mut out, '@');
                out.append(keyword.as_str());
                proof {
                    assert(Seq::<char>::empty().push('@') =~= seq!['@']);
                }
                out
            },
            CSSToken::Hash(ident, _flag) => {
                let mut out = String::new();
                push_char(&mut out, '#');
                out.append(ident.as_str());
                proof {
                    assert(Seq::<char>::empty().push('#') =~= seq!['#']);
                }
                out
            },
            CSSToken::String(value) => value.clone(),
            CSSToken::BadString => String::new(),
            CSSToken::URL(url) => {
                let mut out = String::from_str("url(");
                out.append(url.as_str());
                push_char(&mut out, ')');
                proof {
                    reveal_strlit("url(");
                    assert("url("@ =~= seq!['u', 'r', 'l', '(']);
                    crate::model::lemma_push_concat(seq!['u', 'r', 'l', '('] + url@, ')');
                    assert((seq!['u', 'r', 'l', '('] + url@) + seq![')'] =~= seq!['u', 'r', 'l', '(']
                        + url@ + seq![')']);
                }
                out
            },
            CSSToken::BadURL => String::new(),
            CSSToken::Delim(ch) => {
                let mut out = String::new();
                push_char(&mut out, *ch);
                proof {
                    assert(Seq::<char>::empty().push(*ch) =~= seq![*ch]);
                }
                out
            },
            CSSToken::Number(value, flag) => format_number(value, flag),
            CSSToken::Percentage(value) => {
                let mut out = format_number(value, &NumericFlag::Number);
                let ghost base = out@;
                push_char(&mut out, '%');
                proof {
                    crate::model::lemma_push_concat(base, '%');
                }
                out
            },
            CSSToken::Dimension(amount, flag, unit) => {
                let mut out = format_number(amount, flag);
                out.append(unit.as_str());
                out
            },
            CSSToken::Whitespace => {
                let mut out = String::new();
                push_char(&mut out, ' ');
                proof {
                    assert(Seq::<char>::empty().push(' ') =~= seq![' ']);
                }
                out
            },
            CSSToken::CDO => String::new(),
            CSSToken::CDC => String::new(),
            CSSToken::Colon => {
                let mut out = String::new();
                push_char(&mut out, ':');
                proof {
                    assert(Seq::<char>::empty().push(':') =~= seq![':']);
                }
                out
            },
            CSSToken::Semicolon => {
                let mut out = String::new();
                push_char(&mut out, ';');
                proof {
                    assert(Seq::<char>::empty().push(';') =~= seq![';']);
                }
                out
            },
            CSSToken::Comma => {
                let mut out = String::new();
                push_char(&mut out, ',');
                proof {
                    assert(Seq::<char>::empty().push(',') =~= seq![',']);
                }
                out
            },
            CSSToken::LeftBracket => {
                let mut out = String::new();
                push_char(&mut out, '[');
                proof {
                    assert(Seq::<char>::empty().push('[') =~= seq!['[']);
                }
                out
            },
            CSSToken::RightBracket => {
                let mut out = String::new();
                push_char(&mut out, ']');
                proof {
                    assert(Seq::<char>::empty().push(']') =~= seq![']']);
                }
                out
            },
            CSSToken::LeftParentheses => {
                let mut out = String::new();
                push_char(&mut out, '(');
                proof {
                    assert(Seq::<char>::empty().push('(') =~= seq!['(']);
                }
                out
            },
            CSSToken::RightParentheses => {
                let mut out = String::new();
                push_char(&mut out, ')');
                proof {
                    assert(Seq::<char>::empty().push(')') =~= seq![')']);
                }
                out
            },
            CSSToken::LeftBrace => {
                let mut out = String::new();
                push_char(&mut out, '{');
                proof {
                    assert(Seq::<char>::empty().push('{') =~= seq!['{']);
                }
                out
            },
            CSSToken::RightBrace => {
                let mut out = String::new();
                push_char(&mut out, '}');
                proof {
                    assert(Seq::<char>::empty().push('}') =~= seq!['}']);
                }
                out
            },
            CSSToken::EOF => String::new(),
        }
    }

    /// Whether two tokens are structurally equal: same variant, and the
    /// same names, values, decimal components and flags.
    pub fn same(&self, other: &CSSToken) -> (r: bool)
        ensures
            r == (self@ == other@),
    {
        match (self, other) {
            (CSSToken::Comment, CSSToken::Comment) => true,
            (CSSToken::Ident(a), CSSToken::Ident(b)) => *a == *b,
            (CSSToken::Function(a), CSSToken::Function(b)) => *a == *b,
            (CSSToken::AtKeyword(a), CSSToken::AtKeyword(b)) => *a == *b,
            (CSSToken::Hash(a, fa), CSSToken::Hash(b, fb)) => *a == *b && flags_equal_hash(fa, fb),
            (CSSToken::String(a), CSSToken::String(b)) => *a == *b,
            (CSSToken::BadString, CSSToken::BadString) => true,
            (CSSToken::URL(a), CSSToken::URL(b)) => *a == *b,
            (CSSToken::BadURL, CSSToken::BadURL) => true,
            (CSSToken::Delim(a), CSSToken::Delim(b)) => *a == *b,
            (CSSToken::Number(a, fa), CSSToken::Number(b, fb)) => values_equal(a, b)
                && flags_equal_numeric(fa, fb),
            (CSSToken::Percentage(a), CSSToken::Percentage(b)) => values_equal(a, b),
            (CSSToken::Dimension(a, fa, ua), CSSToken::Dimension(b, fb, ub)) => values_equal(a, b)
                && flags_equal_numeric(fa, fb) && *ua == *ub,
            (CSSToken::Whitespace, CSSToken::Whitespace) => true,
            (CSSToken::CDO, CSSToken::CDO) => true,
            (CSSToken::CDC, CSSToken::CDC) => true,
            (CSSToken::Colon, CSSToken::Colon) => true,
            (CSSToken::Semicolon, CSSToken::Semicolon) => true,
            (CSSToken::Comma, CSSToken::Comma) => true,
            (CSSToken::LeftBracket, CSSToken::LeftBracket) => true,
            (CSSToken::RightBracket, CSSToken::RightBracket) => true,
            (CSSToken::LeftParentheses, CSSToken::LeftParentheses) => true,
            (CSSToken::RightParentheses, CSSToken::RightParentheses) => true,
            (CSSToken::LeftBrace, CSSToken::LeftBrace) => true,
            (CSSToken::RightBrace, CSSToken::RightBrace) => true,
            (CSSToken::EOF, CSSToken::EOF) => true,
            _ => false,
        }
    }
}

/// Whether two hash flags are equal.
fn flags_equal_hash(a: &HashFlag, b: &HashFlag) -> (r: bool)
    ensures
        r == (a == b),
{
    match (a, b) {
        (HashFlag::Id, HashFlag::Id) => true,
        (HashFlag::Unrestricted, HashFlag::Unrestricted) => true,
        _ => false,
    }
}

/// Whether two numeric flags are equal.
fn flags_equal_numeric(a: &NumericFlag, b: &NumericFlag) -> (r: bool)
    ensures
        r == (a == b),
{
    match (a, b) {
        (NumericFlag::Integer, NumericFlag::Integer) => true,
        (NumericFlag::Number, NumericFlag::Number) => true,
        _ => false,
    }
}

/// Whether two numeric values have the same decimal components.
fn values_equal(a: &NumericValue, b: &NumericValue) -> (r: bool)
    ensures
        r == (a@ == b@),
{
    a.negative == b.negative && a.integer == b.integer && a.fraction == b.fraction
        && a.exp_negative == b.exp_negative && a.exponent == b.exponent
}

} // verus!
