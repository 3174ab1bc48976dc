//! Recognizes `.`: the head of a numeric token when the number lookahead
//! holds, else a delimiter.

use vstd::prelude::*;

use crate::check::is_number;
use crate::consume::numeric_token;
use crate::cursor::Cursor;
use crate::model::{numeric_read, starts_number, TokenSpec, TokenStep};
use crate::parsers::ParseResult;
use crate::tokens::CSSToken;

verus! {

/// Recognize `.` as a numeric token or a delimiter.
pub fn parse(points: &mut Cursor) -> (r: ParseResult)
    requires
        old(points).wf(),
    ensures
        final(points).wf(),
        final(points).total() == old(points).total(),
        !(old(points).remaining().len() > 0 && old(points).remaining()[0] == '.') ==> (r matches Ok(
            o,
        ) && o is None) && *final(points) == *old(points),
        (old(points).remaining().len() > 0 && old(points).remaining()[0] == '.' && starts_number(
            old(points).remaining(),
        )) ==> (numeric_read(old(points).remaining()) matches TokenStep::Tok { taken, token } && (
        r matches Ok(o) && o matches Some(t) && t@ == token) && final(points).remaining() == old(points).remaining().skip(taken as int)),
        (old(points).remaining().len() > 0 && old(points).remaining()[0] == '.' && !starts_number(
            old(points).remaining(),
        )) ==> (r matches Ok(o) && o matches Some(t) && t@ == TokenSpec::Delim('.')) && final(points).remaining() == old(points).remaining().skip(1),
{
    match points.peek() {
        Some(ch) => {
            if ch == '.' {
                if is_number(points) {
                    match numeric_token(points) {
                        Ok(t) => Ok(Some(t)),
                        Err(e) => Err(e),
                    }
                } else {
                    points.next();
                    Ok(Some(CSSToken::Delim('.')))
                }
            } else {
                Ok(None)
            }
        },
        None => Ok(None),
    }
}

} // verus!
