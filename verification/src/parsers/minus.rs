//! Recognizes `-`: the head of a numeric token when the number lookahead
//! holds; the legacy comment-close marker CDC; the head of an ident-like
//! token when the identifier lookahead holds; else a delimiter.

use vstd::prelude::*;

use crate::check::{is_identifier, is_number};
use crate::consume::{ident_like_token, numeric_token};
use crate::cursor::Cursor;
use crate::error::option_token_view;
use crate::model::{ident_like_read, numeric_read, starts_identifier, starts_number, TokenSpec,
    TokenStep};
use crate::parsers::{lookahead, ParseResult};
use crate::tokens::CSSToken;

verus! {

/// Whether `-` heads the CDC marker `-->`.
pub open spec fn cdc_at(s: Seq<char>) -> bool {
    s.len() >= 3 && s[1] == '-' && s[2] == '>'
}

/// Recognize `-` as a numeric token, CDC, an ident-like token, or a
/// delimiter, in that order.
pub fn parse(points: &mut Cursor) -> (r: ParseResult)
    requires
        old(points).wf(),
    ensures
        final(points).wf(),
        final(points).total() == old(points).total(),
        ({
            let s = old(points).remaining();
            &&& !(s.len() > 0 && s[0] == '-') ==> (r matches Ok(o) && o is None) && *final(points)
                == *old(points)
            &&& (s.len() > 0 && s[0] == '-' && starts_number(s)) ==> (numeric_read(
                s,
            ) matches TokenStep::Tok { taken, token } && (r matches Ok(o) && o matches Some(t)
                && t@ == token) && final(points).remaining() == s.skip(taken as int))
            &&& (s.len() > 0 && s[0] == '-' && !starts_number(s) && cdc_at(s)) ==> (r matches Ok(o)
                && o matches Some(t) && t@ == TokenSpec::CDC) && final(points).remaining()
                == s.skip(3)
            &&& (s.len() > 0 && s[0] == '-' && !starts_number(s) && !cdc_at(s)
                && starts_identifier(s)) ==> match ident_like_read(s) {
                TokenStep::Tok { taken, token } => (r matches Ok(o) && o matches Some(t) && t@
                    == token) && final(points).remaining() == s.skip(taken as int),
                TokenStep::Fail { err } => (r matches Err(e) && option_token_view(e.token)
                    == err.token && e.error_text@ == err.text && e.at == old(points).total())
                    && final(points).remaining().len() == 0,
                TokenStep::End => false,
            }
            &&& (s.len() > 0 && s[0] == '-' && !starts_number(s) && !cdc_at(s)
                && !starts_identifier(s)) ==> (r matches Ok(o) && o matches Some(t) && t@
                == TokenSpec::Delim('-')) && final(points).remaining() == s.skip(1)
        }),
{
    let ghost s = old(points).remaining();
    match points.peek() {
        Some(ch) => {
            if ch == '-' {
                if is_number(points) {
                    match numeric_token(points) {
                        Ok(t) => Ok(Some(t)),
                        Err(e) => Err(e),
                    }
                } else if lookahead(points, &['-', '-', '>']) {
                    points.next();
                    points.next();
                    points.next();
                    proof {
                        assert(points.remaining() =~= s.skip(3));
                    }
                    Ok(Some(CSSToken::CDC))
                } else if is_identifier(points) {
                    match ident_like_token(points) {
                        Ok(t) => Ok(Some(t)),
                        Err(e) => Err(e),
                    }
                } else {
                    points.next();
                    Ok(Some(CSSToken::Delim('-')))
                }
            } else {
                Ok(None)
            }
        },
        None => Ok(None),
    }
}

} // verus!
