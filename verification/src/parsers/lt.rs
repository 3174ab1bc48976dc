//! Recognizes `<`: the legacy comment-open marker CDO, else a delimiter.

use vstd::prelude::*;

use crate::cursor::Cursor;
use crate::model::TokenSpec;
use crate::parsers::{lookahead, ParseResult};
use crate::tokens::CSSToken;

verus! {

/// Recognize `<!--` as CDO, else `<` as a delimiter.
pub fn parse(points: &mut Cursor) -> (r: ParseResult)
    requires
        old(points).wf(),
    ensures
        final(points).wf(),
        final(points).total() == old(points).total(),
        ({
            let s = old(points).remaining();
            &&& !(s.len() > 0 && s[0] == '<') ==> (r matches Ok(o) && o is None) && *final(points)
                == *old(points)
            &&& (s.len() > 0 && s[0] == '<' && s.len() >= 4 && s[1] == '!' && s[2] == '-' && s[3]
                == '-') ==> (r matches Ok(o) && o matches Some(t) && t@ == TokenSpec::CDO) && final(points).remaining() == s.skip(4)
            &&& (s.len() > 0 && s[0] == '<' && !(s.len() >= 4 && s[1] == '!' && s[2] == '-' && s[3]
                == '-')) ==> (r matches Ok(o) && o matches Some(t) && t@ == TokenSpec::Delim('<'))
                && final(points).remaining() == s.skip(1)
        }),
{
    let ghost s = old(points).remaining();
    match points.peek() {
        Some(ch) => {
            if ch == '<' {
                points.next();
                if lookahead(points, &['!', '-', '-']) {
                    points.next();
                    points.next();
                    points.next();
                    proof {
                        assert(points.remaining() =~= s.skip(4));
                    }
                    Ok(Some(CSSToken::CDO))
                } else {
                    Ok(Some(CSSToken::Delim('<')))
                }
            } else {
                Ok(None)
            }
        },
        None => Ok(None),
    }
}

} // verus!
