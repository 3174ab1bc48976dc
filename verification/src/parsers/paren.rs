//! Recognizes the parenthesis tokens.

use vstd::prelude::*;

use crate::cursor::Cursor;
use crate::parsers::ParseResult;
use crate::tokens::CSSToken;

verus! {

/// Recognize `(` and `)`.
pub fn parse(points: &mut Cursor) -> (r: ParseResult)
    requires
        old(points).wf(),
    ensures
        final(points).wf(),
        final(points).total() == old(points).total(),
        !(old(points).remaining().len() > 0 && (old(points).remaining()[0] == '(' || old(points).remaining()[0] == ')')) ==> (r matches Ok(o) && o is None) && *final(points) == *old(points),
        (old(points).remaining().len() > 0 && old(points).remaining()[0] == '(') ==> (r matches Ok(
            o,
        ) && o matches Some(t) && t@ == crate::model::TokenSpec::LeftParentheses) && final(points).remaining() == old(points).remaining().skip(1),
        (old(points).remaining().len() > 0 && old(points).remaining()[0] == ')') ==> (r matches Ok(
            o,
        ) && o matches Some(t) && t@ == crate::model::TokenSpec::RightParentheses) && final(points).remaining() == old(points).remaining().skip(1),
{
    match points.peek() {
        Some(ch) => {
            if ch == '(' {
                points.next();
                Ok(Some(CSSToken::LeftParentheses))
            } else if ch == ')' {
                points.next();
                Ok(Some(CSSToken::RightParentheses))
            } else {
                Ok(None)
            }
        },
        None => Ok(None),
    }
}

} // verus!
