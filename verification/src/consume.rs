//! The escape, name, number, whitespace and URL consumers: each consumes
//! code points from the cursor and is proved to take and yield exactly what
//! the model in `model` describes.

use vstd::prelude::*;

use crate::check::{is_identifier, is_name_code_point, is_nonprintable, is_valid_escape,
    is_whitespace, next_char_equals, MAX_CODE_POINT};
use crate::cursor::Cursor;
use crate::error::{option_token_view, ParseError};
use crate::model::{bad_url_remnant_len, digit_run_len, eof_text, escape_read, hex_run_len,
    hex_value, lemma_hex_value_bound, name_read, number_read, pow16, spec_hex_digit_value,
    spec_is_hex_digit, ws_run_len, NumericValueSpec, TokenSpec};
use crate::text::{char_from_u32, push_char};
use crate::tokens::{CSSToken, NumericFlag, NumericValue};

verus! {

/// The numeric value of one ASCII hex digit.
fn hex_digit_value(c: char) -> (r: u32)
    requires
        spec_is_hex_digit(c),
    ensures
        r as int == spec_hex_digit_value(c),
{
    let u = c as u32;
    if '0' <= c && c <= '9' {
        u - 48
    } else if 'a' <= c && c <= 'f' {
        u - 87
    } else {
        u - 55
    }
}

/// Decode one escaped code point, the reverse solidus already consumed.
/// The end of input here is a hard error. A hex digit starts a run of up
/// to six hex digits, with one optional trailing whitespace character
/// consumed as well; zero, surrogates and values above the maximum code
/// point decode to U+FFFD. Any other code point is returned verbatim.
pub fn escape(points: &mut Cursor) -> (r: Result<char, ParseError>)
    requires
        old(points).wf(),
    ensures
        final(points).wf(),
        final(points).total() == old(points).total(),
        old(points).remaining().len() == 0 ==> {
            &&& *final(points) == *old(points)
            &&& r matches Err(e) && option_token_view(e.token) == Some(TokenSpec::BadString)
                && e.error_text@ == eof_text() && e.at == old(points).consumed()
        },
        old(points).remaining().len() > 0 ==> {
            let er = escape_read(old(points).remaining());
            &&& r matches Ok(c) && c == er.decoded
            &&& final(points).remaining() == old(points).remaining().skip(er.taken as int)
        },
{
    let ghost t = old(points).remaining();
    match points.next() {
        None => Err(
            ParseError {
                token: Some(CSSToken::BadString),
                error_text: "Unexpected End Of File (EOF)",
                at: points.position(),
            },
        ),
        Some(ch) => {
            if ('0' <= ch && ch <= '9') || ('a' <= ch && ch <= 'f') || ('A' <= ch && ch <= 'F') {
                let mut value: u32 = hex_digit_value(ch);
                let mut count: usize = 1;
                let mut done = false;
                proof {
                    assert(t.take(1).drop_last() =~= Seq::<char>::empty());
                    assert(t.take(1).last() == t[0]);
                    assert(hex_value(Seq::<char>::empty()) == 0);
                    assert(hex_value(t.take(1)) == spec_hex_digit_value(t[0]));
                }
                while !done
                    invariant
                        points.wf(),
                        points.total() == old(points).total(),
                        t.len() > 0 && spec_is_hex_digit(t[0]),
                        1 <= count <= 6,
                        count <= t.len(),
                        points.remaining() == t.skip(count as int),
                        forall|i: int| 0 <= i < count ==> spec_is_hex_digit(#[trigger] t[i]),
                        value == hex_value(t.take(count as int)),
                        !done ==> hex_run_len(t.skip(1), 5) == (count - 1) + hex_run_len(
                            points.remaining(),
                            (6 - count) as nat,
                        ),
                        done ==> count == 1 + hex_run_len(t.skip(1), 5),
                    decreases 7 - count + (if done {
                        0int
                    } else {
                        1int
                    }),
                {
                    if count >= 6 {
                        done = true;
                    } else {
                        match points.peek() {
                            Some(d) => {
                                if ('0' <= d && d <= '9') || ('a' <= d && d <= 'f') || ('A' <= d
                                    && d <= 'F') {
                                    proof {
                                        assert(points.remaining()[0] == t[count as int]);
                                        lemma_hex_value_bound(t.take(count as int));
                                        assert(pow16(5) == 0x100000) by {
                                            reveal_with_fuel(pow16, 6);
                                        }
                                        assert(pow16(count as nat) <= pow16(5)) by {
                                            reveal_with_fuel(pow16, 6);
                                        }
                                    }
                                    let d2 = hex_digit_value(d);
                                    points.next();
                                    proof {
                                        assert(t.take(count + 1).drop_last() =~= t.take(
                                            count as int,
                                        ));
                                        assert(t.take(count + 1).last() == t[count as int]);
                                        assert(t.skip(count as int).skip(1) =~= t.skip(count + 1));
                                    }
                                    value = value * 16 + d2;
                                    count = count + 1;
                                } else {
                                    done = true;
                                }
                            },
                            None => {
                                done = true;
                            },
                        }
                    }
                }
                // count is now the length of the hex run, first digit included
                match points.peek() {
                    Some(w) => {
                        if w == '\n' || w == '\t' || w == ' ' {
                            points.next();
                            proof {
                                assert(t.skip(count as int).skip(1) =~= t.skip(count + 1));
                            }
                        }
                    },
                    None => {},
                };
                proof {
                    assert(points.remaining() =~= t.skip(escape_read(t).taken as int));
                }
                if value == 0 || (0xD800 <= value && value <= 0xDFFF) || value > MAX_CODE_POINT {
                    Ok('\u{FFFD}')
                } else {
                    match char_from_u32(value) {
                        Some(c) => {
                            proof {
                                vstd::utf8::char_u32_cast(c, value);
                                assert(c == escape_read(t).decoded);
                            }
                            Ok(c)
                        },
                        None => {
                            proof {
                                assert(false);
                            }
                            Ok('\u{FFFD}')
                        },
                    }
                }
            } else {
                Ok(ch)
            }
        },
    }
}

/// Decode a name: take name code points verbatim and valid escapes
/// decoded, stopping at the first code point that is neither. This never
/// fails: the escape decoder is entered only behind the valid-escape
/// check, which guarantees it a code point.
pub fn name(points: &mut Cursor) -> (r: Result<String, ParseError>)
    requires
        old(points).wf(),
    ensures
        final(points).wf(),
        final(points).total() == old(points).total(),
        r matches Ok(s) && s@ == name_read(old(points).remaining()).text,
        final(points).remaining() == old(points).remaining().skip(
            name_read(old(points).remaining()).taken as int,
        ),
{
    let ghost s0 = old(points).remaining();
    let mut out = String::new();
    let mut done = false;
    while !done
        invariant
            points.wf(),
            points.total() == old(points).total(),
            name_read(s0).text == out@ + name_read(points.remaining()).text,
            s0.skip(name_read(s0).taken as int) == points.remaining().skip(
                name_read(points.remaining()).taken as int,
            ),
            done ==> name_read(points.remaining()).taken == 0,
        decreases points.remaining().len() + (if done {
            0int
        } else {
            1int
        }),
    {
        match points.peek() {
            None => {
                done = true;
            },
            Some(ch) => {
                let ghost cur = points.remaining();
                if is_name_code_point(ch) {
                    points.next();
                    push_char(&mut out, ch);
                    proof {
                        let rest = name_read(cur.skip(1));
                        crate::model::lemma_name_taken(cur.skip(1));
                        assert(name_read(cur).text =~= seq![ch] + rest.text);
                        assert(out@ =~= (out@.drop_last() + seq![ch]));
                        assert(out@.drop_last() + (seq![ch] + rest.text) =~= out@ + rest.text);
                        assert(cur.skip(1).skip(rest.taken as int) =~= cur.skip(
                            1 + rest.taken as int,
                        ));
                    }
                } else if is_valid_escape(points) {
                    points.next();
                    let c = match escape(points) {
                        Ok(c) => c,
                        Err(_) => {
                            proof {
                                assert(false);
                            }
                            '\u{FFFD}'
                        },
                    };
                    push_char(&mut out, c);
                    proof {
                        let er = escape_read(cur.skip(1));
                        crate::model::lemma_escape_taken(cur.skip(1));
                        let rest = name_read(cur.skip(1 + er.taken as int));
                        crate::model::lemma_name_taken(cur.skip(1 + er.taken as int));
                        assert(name_read(cur).text =~= seq![er.decoded] + rest.text);
                        assert(out@ =~= (out@.drop_last() + seq![c]));
                        assert(out@.drop_last() + (seq![c] + rest.text) =~= out@ + rest.text);
                        assert(cur.skip(1).skip(er.taken as int) =~= cur.skip(
                            1 + er.taken as int,
                        ));
                        assert(cur.skip(1 + er.taken as int).skip(rest.taken as int) =~= cur.skip(
                            1 + er.taken + rest.taken as int,
                        ));
                        assert(cur.skip(name_read(cur).taken as int) =~= points.remaining().skip(
                            rest.taken as int,
                        ));
                    }
                } else {
                    done = true;
                }
            },
        }
    }
    proof {
        assert(name_read(points.remaining()).text =~= Seq::<char>::empty());
        assert(out@ =~= name_read(s0).text);
        assert(points.remaining().skip(0) =~= points.remaining());
    }
    Ok(out)
}

/// Consume the maximal run of ASCII digits and return it.
fn digits(points: &mut Cursor) -> (r: String)
    requires
        old(points).wf(),
    ensures
        final(points).wf(),
        final(points).total() == old(points).total(),
        r@ == old(points).remaining().take(digit_run_len(old(points).remaining()) as int),
        final(points).remaining() == old(points).remaining().skip(
            digit_run_len(old(points).remaining()) as int,
        ),
{
    let ghost s0 = old(points).remaining();
    let mut repr = String::new();
    let mut done = false;
    while !done
        invariant
            points.wf(),
            points.total() == old(points).total(),
            repr@.len() <= s0.len(),
            points.remaining() == s0.skip(repr@.len() as int),
            repr@ == s0.take(repr@.len() as int),
            digit_run_len(s0) == repr@.len() + digit_run_len(points.remaining()),
            done ==> digit_run_len(points.remaining()) == 0,
        decreases points.remaining().len() + (if done {
            0int
        } else {
            1int
        }),
    {
        match points.peek() {
            Some(d) => {
                if '0' <= d && d <= '9' {
                    let ghost cur = points.remaining();
                    points.next();
                    push_char(&mut repr, d);
                    proof {
                        assert(cur.skip(1) =~= s0.skip(repr@.len() as int));
                        assert(repr@ =~= s0.take(repr@.len() as int));
                    }
                } else {
                    done = true;
                }
            },
            None => {
                done = true;
            },
        }
    }
    proof {
        assert(points.remaining() =~= s0.skip(digit_run_len(s0) as int));
        assert(repr@ =~= s0.take(digit_run_len(s0) as int));
    }
    repr
}

/// The components a number decode captures, as a specification value.
pub open spec fn number_value_of(nr: crate::model::NumberRead) -> NumericValueSpec {
    NumericValueSpec {
        negative: nr.negative,
        integer: nr.integer,
        fraction: nr.fraction,
        exp_negative: nr.exp_negative,
        exponent: nr.exponent,
    }
}

/// Decode a numeric literal: an optional sign, a digit run, a fractional
/// part taken only when a full stop is directly followed by a digit, and
/// an exponent taken only when `e`/`E` is followed, possibly after a sign,
/// by a digit. The captured components are returned exactly; the flag is
/// `Number` when a fraction or an exponent was present.
#[verifier::rlimit(80)]
fn number_components(points: &mut Cursor) -> (r: (NumericValue, NumericFlag))
    requires
        old(points).wf(),
    ensures
        final(points).wf(),
        final(points).total() == old(points).total(),
        ({
            let nr = number_read(old(points).remaining());
            &&& r.0@ == number_value_of(nr)
            &&& r.1 == nr.flag
            &&& final(points).remaining() == old(points).remaining().skip(nr.taken as int)
        }),
{
    let ghost s = old(points).remaining();
    let mut negative = false;
    let mut signed = false;
    match points.peek() {
        Some(c) => {
            if c == '+' || c == '-' {
                negative = c == '-';
                signed = true;
                points.next();
            }
        },
        None => {},
    }
    let ghost s1 = points.remaining();
    let integer = digits(points);
    let ghost s2 = points.remaining();
    proof {
        crate::model::lemma_digit_run_le(s1);
    }
    let mut fraction = String::new();
    let mut has_frac = false;
    if next_char_equals(points, &'.') {
        match points.peek_at(1) {
            Some(d) => {
                if '0' <= d && d <= '9' {
                    has_frac = true;
                    points.next();
                    fraction = digits(points);
                    proof {
                        crate::model::lemma_digit_run_le(s2.skip(1));
                    }
                }
            },
            None => {},
        }
    }
    let ghost s3 = points.remaining();
    let mut exp_negative = false;
    let mut has_exp = false;
    let mut exponent = String::new();
    let is_e = match points.peek() {
        Some(c) => c == 'e' || c == 'E',
        None => false,
    };
    if is_e {
        match points.peek_at(1) {
            Some(second) => {
                if '0' <= second && second <= '9' {
                    has_exp = true;
                    points.next();
                    exponent = digits(points);
                    proof {
                        crate::model::lemma_digit_run_le(s3.skip(1));
                    }
                } else if second == '+' || second == '-' {
                    match points.peek_at(2) {
                        Some(third) => {
                            if '0' <= third && third <= '9' {
                                has_exp = true;
                                exp_negative = second == '-';
                                points.next();
                                points.next();
                                exponent = digits(points);
                                proof {
                                    assert(s3.skip(1).skip(1) =~= s3.skip(2));
                                    crate::model::lemma_digit_run_le(s3.skip(2));
                                }
                            }
                        },
                        None => {},
                    }
                }
            },
            None => {},
        }
    }
    let flag = if has_frac || has_exp {
        NumericFlag::Number
    } else {
        NumericFlag::Integer
    };
    proof {
        let nr = number_read(s);
        let sign_len: int = if signed {
            1
        } else {
            0
        };
        assert(s1 =~= s.skip(sign_len));
        assert(s2 =~= s1.skip(digit_run_len(s1) as int));
        if has_frac {
            assert(s2.skip(1).skip(digit_run_len(s2.skip(1)) as int) =~= s2.skip(
                (1 + digit_run_len(s2.skip(1))) as int,
            ));
        }
        assert(s3 =~= (if crate::model::frac_begins(s2) {
            s2.skip((1 + digit_run_len(s2.skip(1))) as int)
        } else {
            s2
        }));
        assert(points.remaining() =~= s.skip(nr.taken as int));
    }
    (
        NumericValue { negative, integer, fraction, exp_negative, exponent },
        flag,
    )
}

/// Decode a number at the cursor. The end of input is a hard error; on any
/// other input the captured decimal components and the flag are returned.
pub fn number(points: &mut Cursor) -> (r: Result<(NumericValue, NumericFlag), ParseError>)
    requires
        old(points).wf(),
    ensures
        final(points).wf(),
        final(points).total() == old(points).total(),
        old(points).remaining().len() == 0 ==> {
            &&& *final(points) == *old(points)
            &&& r matches Err(e) && e.token is None && e.error_text@
                == "Unexpected End Of File (EOF) parsing number"@ && e.at == old(points).consumed()
        },
        old(points).remaining().len() > 0 ==> {
            let nr = number_read(old(points).remaining());
            &&& r matches Ok(p) && p.0@ == number_value_of(nr) && p.1 == nr.flag
            &&& final(points).remaining() == old(points).remaining().skip(nr.taken as int)
        },
{
    if points.at_end() {
        return Err(
            ParseError {
                token: None,
                error_text: "Unexpected End Of File (EOF) parsing number",
                at: points.position(),
            },
        );
    }
    Ok(number_components(points))
}

/// Consume a string and re-decode it as a number's decimal components.
/// The empty string is rejected; anything else yields the components the
/// number grammar captures from its front.
pub fn to_number(string: String) -> (r: Result<NumericValue, ParseError>)
    ensures
        string@.len() == 0 ==> r is Err,
        string@.len() > 0 ==> (r matches Ok(v) && v@ == number_value_of(number_read(string@))),
{
    let chars = crate::text::chars_of(string.as_str());
    let mut cursor = Cursor::new(chars);
    match number(&mut cursor) {
        Ok(p) => Ok(p.0),
        Err(e) => Err(e),
    }
}

/// Consume a numeric token: a number, then a dimension if an identifier
/// would start, a percentage if `%` follows, else a plain number token.
pub fn numeric_token(points: &mut Cursor) -> (r: Result<CSSToken, ParseError>)
    requires
        old(points).wf(),
        crate::model::starts_number(old(points).remaining()),
    ensures
        final(points).wf(),
        final(points).total() == old(points).total(),
        ({
            let step = crate::model::numeric_read(old(points).remaining());
            &&& step matches crate::model::TokenStep::Tok { taken, token } && (r matches Ok(t)
                && t@ == token) && final(points).remaining() == old(points).remaining().skip(
                taken as int,
            )
        }),
{
    let ghost s = old(points).remaining();
    proof {
        crate::model::lemma_number_taken(s);
    }
    let (value, flag) = match number(points) {
        Ok(p) => p,
        Err(_) => {
            proof {
                assert(false);
            }
            return Err(
                ParseError { token: None, error_text: "Could not parse number", at: 0 },
            );
        },
    };
    let ghost nr = number_read(s);
    let ghost rest = s.skip(nr.taken as int);
    if is_identifier(points) {
        let unit = match name(points) {
            Ok(u) => u,
            Err(_) => {
                proof {
                    assert(false);
                }
                return Err(
                    ParseError { token: None, error_text: "Could not parse number", at: 0 },
                );
            },
        };
        proof {
            crate::model::lemma_name_taken(rest);
            assert(rest.skip(name_read(rest).taken as int) =~= s.skip(
                (nr.taken + name_read(rest).taken) as int,
            ));
        }
        Ok(CSSToken::Dimension(value, flag, unit))
    } else if next_char_equals(points, &'%') {
        points.next();
        proof {
            assert(rest.skip(1) =~= s.skip((nr.taken + 1) as int));
        }
        Ok(CSSToken::Percentage(value))
    } else {
        Ok(CSSToken::Number(value, flag))
    }
}

/// Consume as much whitespace as possible.
pub fn whitespace(points: &mut Cursor)
    requires
        old(points).wf(),
    ensures
        final(points).wf(),
        final(points).total() == old(points).total(),
        final(points).remaining() == old(points).remaining().skip(
            ws_run_len(old(points).remaining()) as int,
        ),
{
    let ghost s0 = old(points).remaining();
    let mut done = false;
    while !done
        invariant
            points.wf(),
            points.total() == old(points).total(),
            ws_run_len(s0) == (s0.len() - points.remaining().len()) + ws_run_len(
                points.remaining(),
            ),
            points.remaining().len() <= s0.len(),
            points.remaining() == s0.skip(s0.len() - points.remaining().len()),
            done ==> ws_run_len(points.remaining()) == 0,
        decreases points.remaining().len() + (if done {
            0int
        } else {
            1int
        }),
    {
        match points.peek() {
            Some(c) => {
                if c == '\n' || c == '\t' || c == ' ' {
                    let ghost cur = points.remaining();
                    points.next();
                    proof {
                        assert(cur.skip(1) =~= s0.skip(s0.len() - cur.len() + 1));
                    }
                } else {
                    done = true;
                }
            },
            None => {
                done = true;
            },
        }
    }
    proof {
        assert(points.remaining() =~= s0.skip(ws_run_len(s0) as int));
    }
}

/// Consume a URL token body, leading whitespace first. A closing
/// parenthesis yields the URL token; interior whitespace must be followed
/// by the closing parenthesis, anything else is a bad URL whose remnants
/// are consumed before the bad-URL token is yielded; quotes, an opening
/// parenthesis, nonprintable code points, and a reverse solidus that is
/// no valid escape are bad URLs too; the end of input is a hard error
/// carrying the URL decoded so far.
#[verifier::rlimit(100)]
pub fn url_token(points: &mut Cursor) -> (r: Result<CSSToken, ParseError>)
    requires
        old(points).wf(),
    ensures
        final(points).wf(),
        final(points).total() == old(points).total(),
        match crate::model::url_read(old(points).remaining()) {
            crate::model::UrlRead::Closed { taken, text } => (r matches Ok(t) && t@
                == TokenSpec::URL(text)) && final(points).remaining()
                == old(points).remaining().skip(taken as int),
            crate::model::UrlRead::Bad { taken } => (r matches Ok(t) && t@ == TokenSpec::BadURL)
                && final(points).remaining() == old(points).remaining().skip(taken as int),
            crate::model::UrlRead::Unterminated { taken, text } => (r matches Err(e)
                && option_token_view(e.token) == Some(TokenSpec::URL(text)) && e.error_text@
                == crate::model::url_eof_text() && e.at == old(points).total())
                && final(points).remaining().len() == 0,
        },
{
    let ghost s_full = old(points).remaining();
    whitespace(points);
    let ghost w0 = ws_run_len(s_full);
    let ghost s0 = points.remaining();
    proof {
        crate::model::lemma_ws_run_le(s_full);
    }
    let mut out = String::new();
    loop
        invariant
            points.wf(),
            points.total() == old(points).total(),
            s_full == old(points).remaining(),
            w0 == ws_run_len(s_full),
            w0 <= s_full.len(),
            s0 == s_full.skip(w0 as int),
            points.remaining().len() <= s0.len(),
            points.remaining() == s0.skip((s0.len() - points.remaining().len()) as int),
            crate::model::url_body_read(s0) == crate::model::url_read_step(
                crate::model::url_body_read(points.remaining()),
                (s0.len() - points.remaining().len()) as nat,
                out@,
            ),
        decreases points.remaining().len(),
    {
        let ghost k = (s0.len() - points.remaining().len()) as nat;
        let ghost cur = points.remaining();
        match points.peek() {
            None => {
                proof {
                    points.lemma_span();
                    assert(crate::model::url_body_read(cur)
                        == crate::model::UrlRead::Unterminated {
                        taken: 0nat,
                        text: Seq::<char>::empty(),
                    });
                    crate::model::lemma_concat_empty(out@);
                }
                return Err(
                    ParseError {
                        token: Some(CSSToken::URL(out)),
                        error_text: "Unexpected End of File (EOF)",
                        at: points.position(),
                    },
                );
            },
            Some(ch) => {
                if ch == ')' {
                    points.next();
                    proof {
                        assert(crate::model::url_body_read(cur) == crate::model::UrlRead::Closed {
                            taken: 1nat,
                            text: Seq::<char>::empty(),
                        });
                        crate::model::lemma_concat_empty(out@);
                        crate::model::lemma_skip_skip(s0, k as int, (k + 1) as int - k);
                        crate::model::lemma_skip_skip(s_full, w0 as int, (k + 1) as int);
                    }
                    return Ok(CSSToken::URL(out));
                } else if is_whitespace(&ch) {
                    whitespace(points);
                    let ghost w = ws_run_len(cur);
                    proof {
                        crate::model::lemma_ws_run_le(cur);
                        crate::model::lemma_skip_skip(s0, k as int, w as int);
                    }
                    match points.peek() {
                        None => {
                            proof {
                                points.lemma_span();
                                assert(crate::model::url_body_read(cur)
                                    == crate::model::UrlRead::Unterminated {
                                    taken: w,
                                    text: Seq::<char>::empty(),
                                });
                                crate::model::lemma_concat_empty(out@);
                            }
                            return Err(
                                ParseError {
                                    token: Some(CSSToken::URL(out)),
                                    error_text: "Unexpected End of File (EOF)",
                                    at: points.position(),
                                },
                            );
                        },
                        Some(c2) => {
                            if c2 == ')' {
                                points.next();
                                proof {
                                    assert(crate::model::url_body_read(cur)
                                        == crate::model::UrlRead::Closed {
                                        taken: (w + 1) as nat,
                                        text: Seq::<char>::empty(),
                                    });
                                    crate::model::lemma_concat_empty(out@);
                                    crate::model::lemma_skip_skip(s0, (k + w) as int, 1);
                                    crate::model::lemma_skip_skip(
                                        s_full,
                                        w0 as int,
                                        (k + w + 1) as int,
                                    );
                                }
                                return Ok(CSSToken::URL(out));
                            } else {
                                let ghost rest = points.remaining();
                                bad_url_remnant(points);
                                proof {
                                    crate::model::lemma_remnant_le(rest);
                                    let b = bad_url_remnant_len(rest);
                                    assert(crate::model::url_body_read(cur)
                                        == crate::model::UrlRead::Bad { taken: (w + b) as nat });
                                    crate::model::lemma_skip_skip(s0, (k + w) as int, b as int);
                                    crate::model::lemma_skip_skip(
                                        s_full,
                                        w0 as int,
                                        (k + w + b) as int,
                                    );
                                }
                                return Ok(CSSToken::BadURL);
                            }
                        },
                    }
                } else if ch == '"' || ch == '\'' || ch == '(' || is_nonprintable(&ch) {
                    points.next();
                    let ghost rest = points.remaining();
                    bad_url_remnant(points);
                    proof {
                        crate::model::lemma_remnant_le(rest);
                        let b = bad_url_remnant_len(rest);
                        assert(crate::model::url_body_read(cur) == crate::model::UrlRead::Bad {
                            taken: (1 + b) as nat,
                        });
                        crate::model::lemma_skip_skip(s0, (k + 1) as int, b as int);
                        crate::model::lemma_skip_skip(s_full, w0 as int, (k + 1 + b) as int);
                    }
                    return Ok(CSSToken::BadURL);
                } else if ch == '\\' {
                    if is_valid_escape(points) {
                        points.next();
                        let c = match escape(points) {
                            Ok(c) => c,
                            Err(_) => {
                                proof {
                                    assert(false);
                                }
                                '\u{FFFD}'
                            },
                        };
                        let ghost out0 = out@;
                        push_char(&mut out, c);
                        proof {
                            let er = escape_read(cur.skip(1));
                            crate::model::lemma_escape_taken(cur.skip(1));
                            assert(crate::model::url_body_read(cur) == crate::model::url_read_step(
                                crate::model::url_body_read(cur.skip((1 + er.taken) as int)),
                                (1 + er.taken) as nat,
                                seq![er.decoded],
                            ));
                            crate::model::lemma_skip_skip(cur, 1, er.taken as int);
                            crate::model::lemma_skip_skip(s0, k as int, (1 + er.taken) as int);
                            crate::model::lemma_url_step_compose(
                                crate::model::url_body_read(points.remaining()),
                                (1 + er.taken) as nat,
                                seq![er.decoded],
                                k,
                                out0,
                            );
                            crate::model::lemma_push_concat(out0, c);
                        }
                    } else {
                        points.next();
                        let ghost rest = points.remaining();
                        bad_url_remnant(points);
                        proof {
                            crate::model::lemma_remnant_le(rest);
                            let b = bad_url_remnant_len(rest);
                            assert(crate::model::url_body_read(cur) == crate::model::UrlRead::Bad {
                                taken: (1 + b) as nat,
                            });
                            crate::model::lemma_skip_skip(s0, (k + 1) as int, b as int);
                            crate::model::lemma_skip_skip(s_full, w0 as int, (k + 1 + b) as int);
                        }
                        return Ok(CSSToken::BadURL);
                    }
                } else {
                    points.next();
                    let ghost out0 = out@;
                    push_char(&mut out, ch);
                    proof {
                        assert(crate::model::url_body_read(cur) == crate::model::url_read_step(
                            crate::model::url_body_read(cur.skip(1)),
                            1nat,
                            seq![ch],
                        ));
                        crate::model::lemma_skip_skip(s0, k as int, 1);
                        crate::model::lemma_url_step_compose(
                            crate::model::url_body_read(points.remaining()),
                            1nat,
                            seq![ch],
                            k,
                            out0,
                        );
                        crate::model::lemma_push_concat(out0, ch);
                    }
                }
            },
        }
    }
}

/// Whether a decoded name is an ASCII case-insensitive match for `url`.
fn name_is_url(s: &String) -> (r: bool)
    ensures
        r == crate::model::is_url_name(s@),
{
    let st = s.as_str();
    if st.unicode_len() != 3 {
        return false;
    }
    let c0 = st.get_char(0);
    let c1 = st.get_char(1);
    let c2 = st.get_char(2);
    (c0 == 'u' || c0 == 'U') && (c1 == 'r' || c1 == 'R') && (c2 == 'l' || c2 == 'L')
}

/// Consume an ident-like token: a name, then possibly a function or URL
/// token. A name matching `url` case-insensitively and directly followed
/// by `(` defers to the string recognizer when a quote follows, possibly
/// after whitespace, and otherwise becomes a URL token; any other name
/// directly followed by `(` is a function; else the name is an identifier.
#[verifier::rlimit(100)]
pub fn ident_like_token(points: &mut Cursor) -> (r: Result<CSSToken, ParseError>)
    requires
        old(points).wf(),
        crate::model::starts_identifier(old(points).remaining()),
    ensures
        final(points).wf(),
        final(points).total() == old(points).total(),
        match crate::model::ident_like_read(old(points).remaining()) {
            crate::model::TokenStep::Tok { taken, token } => (r matches Ok(t) && t@ == token)
                && final(points).remaining() == old(points).remaining().skip(taken as int),
            crate::model::TokenStep::Fail { err } => (r matches Err(e) && option_token_view(
                e.token,
            ) == err.token && e.error_text@ == err.text && e.at == old(points).total())
                && final(points).remaining().len() == 0,
            crate::model::TokenStep::End => false,
        },
{
    let ghost s = old(points).remaining();
    proof {
        crate::model::lemma_name_taken(s);
    }
    let string = match name(points) {
        Ok(n) => n,
        Err(_) => {
            proof {
                assert(false);
            }
            return Err(
                ParseError { token: None, error_text: "Could not parse name", at: 0 },
            );
        },
    };
    let ghost nr = name_read(s);
    let ghost rest = s.skip(nr.taken as int);
    let is_url = name_is_url(&string);
    if is_url && next_char_equals(points, &'(') {
        points.next();
        let ghost after = rest.skip(1);
        proof {
            crate::model::lemma_skip_skip(s, nr.taken as int, 1);
        }
        let mut done = false;
        while !done
            invariant
                points.wf(),
                points.total() == old(points).total(),
                points.remaining().len() <= after.len(),
                points.remaining() == after.skip((after.len() - points.remaining().len()) as int),
                crate::model::url_ws_skip_len(after) == (after.len() - points.remaining().len())
                    + crate::model::url_ws_skip_len(points.remaining()),
                done ==> crate::model::url_ws_skip_len(points.remaining()) == 0,
            decreases points.remaining().len() + (if done {
                0int
            } else {
                1int
            }),
        {
            let first_ws = match points.peek() {
                Some(c) => c == '\n' || c == '\t' || c == ' ',
                None => false,
            };
            let second_ws = match points.peek_at(1) {
                Some(c) => c == '\n' || c == '\t' || c == ' ',
                None => false,
            };
            if first_ws && second_ws {
                let ghost c0 = points.remaining();
                points.next();
                proof {
                    crate::model::lemma_skip_skip(after, (after.len() - c0.len()) as int, 1);
                }
            } else {
                done = true;
            }
        }
        let ghost w = crate::model::url_ws_skip_len(after);
        let ghost rem = after.skip(w as int);
        proof {
            assert(points.remaining() == rem);
        }
        let mut quote_next = false;
        match points.peek() {
            Some(q) => {
                if q == '"' || q == '\'' {
                    quote_next = true;
                }
            },
            None => {},
        }
        if quote_next {
            return Ok(CSSToken::Function(string));
        }
        let mut ws_then_quote = false;
        match points.peek() {
            Some(c1) => {
                if c1 == '\n' || c1 == '\t' || c1 == ' ' {
                    match points.peek_at(1) {
                        Some(c2) => {
                            if c2 == '"' || c2 == '\'' {
                                ws_then_quote = true;
                            }
                        },
                        None => {},
                    }
                }
            },
            None => {},
        }
        if ws_then_quote {
            return Ok(CSSToken::Function(string));
        }
        let result = url_token(points);
        proof {
            crate::model::lemma_url_taken(rem);
            crate::model::lemma_url_ws_skip_le(after);
            crate::model::lemma_skip_skip(s, (nr.taken + 1) as int, w as int);
            match crate::model::url_read(rem) {
                crate::model::UrlRead::Closed { taken, text } => {
                    crate::model::lemma_skip_skip(s, (nr.taken + 1 + w) as int, taken as int);
                },
                crate::model::UrlRead::Bad { taken } => {
                    crate::model::lemma_skip_skip(s, (nr.taken + 1 + w) as int, taken as int);
                },
                crate::model::UrlRead::Unterminated { taken, text } => {},
            }
        }
        result
    } else if next_char_equals(points, &'(') {
        points.next();
        proof {
            crate::model::lemma_skip_skip(s, nr.taken as int, 1);
        }
        Ok(CSSToken::Function(string))
    } else {
        Ok(CSSToken::Ident(string))
    }
}

/// Consume the remnants of a bad URL: each code point through an
/// unescaped closing parenthesis or the end of input, decoding and
/// discarding valid escapes along the way, so that scanning
/// resynchronizes at a sensible boundary.
pub fn bad_url_remnant(points: &mut Cursor)
    requires
        old(points).wf(),
    ensures
        final(points).wf(),
        final(points).total() == old(points).total(),
        final(points).remaining() == old(points).remaining().skip(
            bad_url_remnant_len(old(points).remaining()) as int,
        ),
{
    let ghost s0 = old(points).remaining();
    let mut done = false;
    while !done
        invariant
            points.wf(),
            points.total() == old(points).total(),
            !done ==> s0.skip(bad_url_remnant_len(s0) as int) == points.remaining().skip(
                bad_url_remnant_len(points.remaining()) as int,
            ),
            done ==> s0.skip(bad_url_remnant_len(s0) as int) == points.remaining(),
        decreases points.remaining().len() + (if done {
            0int
        } else {
            1int
        }),
    {
        let ghost cur = points.remaining();
        match points.peek() {
            None => {
                done = true;
            },
            Some(ch) => {
                if ch == ')' {
                    points.next();
                    done = true;
                } else if is_valid_escape(points) {
                    proof {
                        crate::model::lemma_escape_taken(cur.skip(1));
                        crate::model::lemma_remnant_le(
                            cur.skip((1 + escape_read(cur.skip(1)).taken) as int),
                        );
                    }
                    points.next();
                    let ghost before = points.remaining();
                    let _ = escape(points);
                    proof {
                        let er = escape_read(cur.skip(1));
                        assert(before =~= cur.skip(1));
                        assert(cur.skip(1).skip(er.taken as int) =~= cur.skip(
                            (1 + er.taken) as int,
                        ));
                        crate::model::lemma_remnant_le(points.remaining());
                        assert(cur.skip((1 + er.taken) as int).skip(
                            bad_url_remnant_len(points.remaining()) as int,
                        ) =~= cur.skip(
                            (1 + er.taken + bad_url_remnant_len(points.remaining())) as int,
                        ));
                    }
                } else {
                    points.next();
                    proof {
                        crate::model::lemma_remnant_le(cur.skip(1));
                        assert(cur.skip(1).skip(
                            bad_url_remnant_len(cur.skip(1)) as int,
                        ) =~= cur.skip((1 + bad_url_remnant_len(cur.skip(1))) as int));
                    }
                }
            },
        }
    }
}

} // verus!
