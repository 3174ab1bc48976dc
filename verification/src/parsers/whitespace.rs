//! Recognizes whitespace: a maximal run collapses to one token.

use vstd::prelude::*;

use crate::check::is_whitespace;
use crate::consume;
use crate::cursor::Cursor;
use crate::model::{spec_is_whitespace, ws_run_len, TokenSpec};
use crate::parsers::ParseResult;
use crate::tokens::CSSToken;

verus! {

/// Recognize a maximal run of whitespace as one whitespace token.
pub fn parse(points: &mut Cursor) -> (r: ParseResult)
    requires
        old(points).wf(),
    ensures
        final(points).wf(),
        final(points).total() == old(points).total(),
        !(old(points).remaining().len() > 0 && spec_is_whitespace(old(points).remaining()[0]))
            ==> (r matches Ok(o) && o is None) && *final(points) == *old(points),
        (old(points).remaining().len() > 0 && spec_is_whitespace(old(points).remaining()[0])) ==> (
        r matches Ok(o) && o matches Some(t) && t@ == TokenSpec::Whitespace) && final(points).remaining() == old(points).remaining().skip(ws_run_len(old(points).remaining()) as int),
{
    match points.peek() {
        Some(ch) => {
            if is_whitespace(&ch) {
                consume::whitespace(points);
                Ok(Some(CSSToken::Whitespace))
            } else {
                Ok(None)
            }
        },
        None => Ok(None),
    }
}

} // verus!
