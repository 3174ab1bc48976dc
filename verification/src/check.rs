//! Code-point classification predicates and the bounded lookahead checks.
//! All of them are pure: they read peeked characters and consume nothing.

use vstd::prelude::*;

use crate::cursor::Cursor;
use crate::model::{
    spec_is_digit, spec_is_name_code_point, spec_is_name_start, spec_is_nonprintable,
    spec_is_surrogate, spec_is_whitespace, starts_identifier, starts_number, valid_escape_at,
};

verus! {

/// The greatest code point the escape decoder accepts.
pub const MAX_CODE_POINT: u32 = 0x10FFFF;

/// Whether two code points are equal.
pub fn equal(a: &char, b: &char) -> (r: bool)
    ensures
        r == (a == b),
{
    *a == *b
}

/// Whether the next unconsumed code point equals `ch`.
pub fn next_char_equals(points: &Cursor, ch: &char) -> (r: bool)
    requires
        points.wf(),
    ensures
        r == (points.remaining().len() > 0 && points.remaining()[0] == ch),
{
    match points.peek() {
        Some(c) => c == *ch,
        None => false,
    }
}

/// A name-start code point: an ASCII letter, a code point above U+0080, or
/// a low line.
pub fn is_name_start_code_point(point: char) -> (r: bool)
    ensures
        r == spec_is_name_start(point),
{
    ('a' <= point && point <= 'z') || ('A' <= point && point <= 'Z') || point as u32 > 0x80
        || point == '_'
}

/// A name code point: a name-start code point, an ASCII digit, or a
/// hyphen-minus.
pub fn is_name_code_point(point: char) -> (r: bool)
    ensures
        r == spec_is_name_code_point(point),
{
    is_name_start_code_point(point) || ('0' <= point && point <= '9') || point == '-'
}

/// Whether a code point value lies in the surrogate range.
pub fn is_surrogate(num: u32) -> (r: bool)
    ensures
        r == spec_is_surrogate(num as int),
{
    0xD800 <= num && num <= 0xDFFF
}

/// A nonprintable code point: U+0000 through U+0008, U+000B, U+000E through
/// U+001F, or U+007F.
pub fn is_nonprintable(ch: &char) -> (r: bool)
    ensures
        r == spec_is_nonprintable(*ch),
{
    let code = *ch as u32;
    code <= 0x8 || code == 0xB || (0xE <= code && code <= 0x1F) || code == 0x7F
}

/// Whitespace: newline, tab, or space, as the CSS Syntax specification
/// defines it (the tab character counts as whitespace).
pub fn is_whitespace(ch: &char) -> (r: bool)
    ensures
        r == spec_is_whitespace(*ch),
{
    *ch == '\n' || *ch == '\t' || *ch == ' '
}

/// Whether the next two code points are a valid escape: a reverse solidus
/// followed by a code point that exists and is not a newline.
pub fn is_valid_escape(points: &Cursor) -> (r: bool)
    requires
        points.wf(),
    ensures
        r == valid_escape_at(points.remaining()),
{
    match points.peek() {
        Some(c) => {
            if c == '\\' {
                match points.peek_at(1) {
                    Some(c2) => c2 != '\n',
                    None => false,
                }
            } else {
                false
            }
        },
        None => false,
    }
}

/// Whether the next three code points would start an identifier.
pub fn is_identifier(points: &Cursor) -> (r: bool)
    requires
        points.wf(),
    ensures
        r == starts_identifier(points.remaining()),
{
    match points.peek() {
        Some(c) => {
            if c == '-' {
                match points.peek_at(1) {
                    Some(c2) => {
                        if is_name_start_code_point(c2) || c2 == '-' {
                            true
                        } else if c2 == '\\' {
                            proof {
                                assert(points.remaining().skip(1).len() == points.remaining().len()
                                    - 1);
                                assert(forall|i: int|
                                    0 <= i < points.remaining().skip(1).len()
                                        ==> points.remaining().skip(1)[i] == points.remaining()[i
                                        + 1]);
                            }
                            match points.peek_at(2) {
                                Some(c3) => c3 != '\n',
                                None => false,
                            }
                        } else {
                            proof {
                                assert(points.remaining().skip(1)[0] == points.remaining()[1]);
                            }
                            false
                        }
                    },
                    None => false,
                }
            } else if is_name_start_code_point(c) {
                true
            } else if c == '\\' {
                is_valid_escape(points)
            } else {
                false
            }
        },
        None => false,
    }
}

/// Whether the next three code points would start a number.
pub fn is_number(points: &Cursor) -> (r: bool)
    requires
        points.wf(),
    ensures
        r == starts_number(points.remaining()),
{
    match points.peek() {
        Some(c) => {
            if c == '+' || c == '-' {
                match points.peek_at(1) {
                    Some(second) => {
                        if '0' <= second && second <= '9' {
                            true
                        } else if second == '.' {
                            match points.peek_at(2) {
                                Some(third) => '0' <= third && third <= '9',
                                None => false,
                            }
                        } else {
                            false
                        }
                    },
                    None => false,
                }
            } else if c == '.' {
                match points.peek_at(1) {
                    Some(second) => '0' <= second && second <= '9',
                    None => false,
                }
            } else {
                '0' <= c && c <= '9'
            }
        },
        None => false,
    }
}

} // verus!
