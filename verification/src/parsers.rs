//! The token dispatcher: an ordered list of specialized recognizers, tried
//! in a fixed priority order at each scan position. Each recognizer returns
//! `Ok(None)` when its leading character set does not match, so the next
//! one is tried; the first match wins.

pub mod at;
pub mod backslash;
pub mod comment;
pub mod hash;
pub mod lt;
pub mod minus;
pub mod paren;
pub mod period;
pub mod plus;
pub mod single_char;
pub mod string;
pub mod whitespace;

use vstd::prelude::*;

use crate::consume::{ident_like_token, numeric_token};
use crate::cursor::Cursor;
use crate::error::{error_matches, ParseError};
use crate::model::{next_token_spec, TokenSpec, TokenStep};
use crate::tokens::CSSToken;

verus! {

/// What one recognizer returns: a token, nothing (its leading character
/// set did not match), or a hard error.
pub type ParseResult = Result<Option<CSSToken>, ParseError>;

/// Whether the unconsumed input begins with exactly the given characters.
pub open spec fn begins_with(s: Seq<char>, p: Seq<char>) -> bool {
    p.len() <= s.len() && (forall|i: int| 0 <= i < p.len() ==> s[i] == #[trigger] p[i])
}

/// Look ahead for the given characters; true exactly when they are next.
/// Consumes nothing.
pub fn lookahead(iter: &Cursor, chars: &[char]) -> (r: bool)
    requires
        iter.wf(),
    ensures
        r == begins_with(iter.remaining(), chars@),
{
    let n = chars.len();
    let mut i: usize = 0;
    while i < n
        invariant
            iter.wf(),
            n == chars@.len(),
            i <= n,
            forall|j: int| 0 <= j < i ==> iter.remaining()[j] == #[trigger] chars@[j],
            i <= iter.remaining().len(),
        decreases n - i,
    {
        match iter.peek_at(i) {
            Some(c) => {
                if c != chars[i] {
                    return false;
                }
            },
            None => {
                return false;
            },
        }
        i = i + 1;
    }
    true
}

/// One dispatch step: try every recognizer in priority order and return
/// the first match, the end-of-file token when the cursor is exhausted,
/// or a delimiter of the single next character when nothing else matched.
pub fn parse(iter: &mut Cursor) -> (r: Result<CSSToken, ParseError>)
    requires
        old(iter).wf(),
    ensures
        final(iter).wf(),
        final(iter).total() == old(iter).total(),
        match next_token_spec(old(iter).remaining()) {
            TokenStep::End => (r matches Ok(t) && t@ == TokenSpec::EOF) && *final(iter) == *old(iter),
            TokenStep::Tok { taken, token } => (r matches Ok(t) && t@ == token) && final(iter).remaining() == old(iter).remaining().skip(taken as int),
            TokenStep::Fail { err } => r matches Err(e) && error_matches(
                e,
                err,
                old(iter).total(),
            ),
        },
{
    proof {
        iter.lemma_span();
    }
    match comment::parse(iter) {
        Err(e) => {
            return Err(e);
        },
        Ok(Some(token)) => {
            return Ok(token);
        },
        Ok(None) => {},
    }
    match whitespace::parse(iter) {
        Err(e) => {
            return Err(e);
        },
        Ok(Some(token)) => {
            return Ok(token);
        },
        Ok(None) => {},
    }
    match string::parse(iter, '"') {
        Err(e) => {
            return Err(e);
        },
        Ok(Some(token)) => {
            return Ok(token);
        },
        Ok(None) => {},
    }
    match hash::parse(iter) {
        Err(e) => {
            return Err(e);
        },
        Ok(Some(token)) => {
            return Ok(token);
        },
        Ok(None) => {},
    }
    match string::parse(iter, '\'') {
        Err(e) => {
            return Err(e);
        },
        Ok(Some(token)) => {
            return Ok(token);
        },
        Ok(None) => {},
    }
    match paren::parse(iter) {
        Err(e) => {
            return Err(e);
        },
        Ok(Some(token)) => {
            return Ok(token);
        },
        Ok(None) => {},
    }
    match plus::parse(iter) {
        Err(e) => {
            return Err(e);
        },
        Ok(Some(token)) => {
            return Ok(token);
        },
        Ok(None) => {},
    }
    match single_char::parse(iter, ',', CSSToken::Comma) {
        Err(e) => {
            return Err(e);
        },
        Ok(Some(token)) => {
            return Ok(token);
        },
        Ok(None) => {},
    }
    match minus::parse(iter) {
        Err(e) => {
            return Err(e);
        },
        Ok(Some(token)) => {
            return Ok(token);
        },
        Ok(None) => {},
    }
    match period::parse(iter) {
        Err(e) => {
            return Err(e);
        },
        Ok(Some(token)) => {
            return Ok(token);
        },
        Ok(None) => {},
    }
    match single_char::parse(iter, ':', CSSToken::Colon) {
        Err(e) => {
            return Err(e);
        },
        Ok(Some(token)) => {
            return Ok(token);
        },
        Ok(None) => {},
    }
    match single_char::parse(iter, ';', CSSToken::Semicolon) {
        Err(e) => {
            return Err(e);
        },
        Ok(Some(token)) => {
            return Ok(token);
        },
        Ok(None) => {},
    }
    match lt::parse(iter) {
        Err(e) => {
            return Err(e);
        },
        Ok(Some(token)) => {
            return Ok(token);
        },
        Ok(None) => {},
    }
    match at::parse(iter) {
        Err(e) => {
            return Err(e);
        },
        Ok(Some(token)) => {
            return Ok(token);
        },
        Ok(None) => {},
    }
    match single_char::parse(iter, '[', CSSToken::LeftBracket) {
        Err(e) => {
            return Err(e);
        },
        Ok(Some(token)) => {
            return Ok(token);
        },
        Ok(None) => {},
    }
    match backslash::parse(iter) {
        Err(e) => {
            return Err(e);
        },
        Ok(Some(token)) => {
            return Ok(token);
        },
        Ok(None) => {},
    }
    match single_char::parse(iter, ']', CSSToken::RightBracket) {
        Err(e) => {
            return Err(e);
        },
        Ok(Some(token)) => {
            return Ok(token);
        },
        Ok(None) => {},
    }
    match single_char::parse(iter, '{', CSSToken::LeftBrace) {
        Err(e) => {
            return Err(e);
        },
        Ok(Some(token)) => {
            return Ok(token);
        },
        Ok(None) => {},
    }
    match single_char::parse(iter, '}', CSSToken::RightBrace) {
        Err(e) => {
            return Err(e);
        },
        Ok(Some(token)) => {
            return Ok(token);
        },
        Ok(None) => {},
    }
    let ch = match iter.peek() {
        None => {
            return Ok(CSSToken::EOF);
        },
        Some(c) => c,
    };
    if '0' <= ch && ch <= '9' {
        numeric_token(iter)
    } else if crate::check::is_name_start_code_point(ch) {
        ident_like_token(iter)
    } else {
        iter.next();
        Ok(CSSToken::Delim(ch))
    }
}

} // verus!
