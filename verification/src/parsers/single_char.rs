//! Recognizes context-free single-character tokens: colon, semicolon,
//! comma, brackets and braces.

use vstd::prelude::*;

use crate::cursor::Cursor;
use crate::parsers::ParseResult;
use crate::tokens::CSSToken;

verus! {

/// Recognize `cmp` as the fixed token `token`.
pub fn parse(points: &mut Cursor, cmp: char, token: CSSToken) -> (r: ParseResult)
    requires
        old(points).wf(),
    ensures
        final(points).wf(),
        final(points).total() == old(points).total(),
        !(old(points).remaining().len() > 0 && old(points).remaining()[0] == cmp) ==> (r matches Ok(
            o,
        ) && o is None) && *final(points) == *old(points),
        (old(points).remaining().len() > 0 && old(points).remaining()[0] == cmp) ==> (r matches Ok(
            o,
        ) && o matches Some(t) && t == token) && final(points).remaining() == old(points).remaining().skip(1),
{
    match points.peek() {
        Some(ch) => {
            if ch == cmp {
                points.next();
                Ok(Some(token))
            } else {
                Ok(None)
            }
        },
        None => Ok(None),
    }
}

} // verus!
