//! Recognizes `\`: the head of an ident-like token when a valid escape
//! follows; a lone reverse solidus is a hard parse error.

use vstd::prelude::*;

use crate::check::is_valid_escape;
use crate::consume::ident_like_token;
use crate::cursor::Cursor;
use crate::error::{option_token_view, ParseError};
use crate::model::{backslash_text, ident_like_read, valid_escape_at, TokenStep};
use crate::parsers::ParseResult;

verus! {

/// Recognize a valid escape as the head of an ident-like token; a lone
/// reverse solidus is a hard parse error.
pub fn parse(points: &mut Cursor) -> (r: ParseResult)
    requires
        old(points).wf(),
    ensures
        final(points).wf(),
        final(points).total() == old(points).total(),
        ({
            let s = old(points).remaining();
            &&& !(s.len() > 0 && s[0] == '\\') ==> (r matches Ok(o) && o is None) && *final(points)
                == *old(points)
            &&& (s.len() > 0 && s[0] == '\\' && valid_escape_at(s)) ==> match ident_like_read(s) {
                TokenStep::Tok { taken, token } => (r matches Ok(o) && o matches Some(t) && t@
                    == token) && final(points).remaining() == s.skip(taken as int),
                TokenStep::Fail { err } => (r matches Err(e) && option_token_view(e.token)
                    == err.token && e.error_text@ == err.text && e.at == old(points).total())
                    && final(points).remaining().len() == 0,
                TokenStep::End => false,
            }
            &&& (s.len() > 0 && s[0] == '\\' && !valid_escape_at(s)) ==> (r matches Err(e)
                && e.token is None && e.error_text@ == backslash_text() && e.at == old(points).consumed() + 1) && final(points).remaining() == s.skip(1)
        }),
{
    match points.peek() {
        Some(ch) => {
            if ch == '\\' {
                if is_valid_escape(points) {
                    match ident_like_token(points) {
                        Ok(t) => Ok(Some(t)),
                        Err(e) => Err(e),
                    }
                } else {
                    points.next();
                    Err(
                        ParseError {
                            token: None,
                            error_text: "Unexpected token \\",
                            at: points.position(),
                        },
                    )
                }
            } else {
                Ok(None)
            }
        },
        None => Ok(None),
    }
}

} // verus!
