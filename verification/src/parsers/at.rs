//! Recognizes `@`: an at-keyword when the identifier lookahead holds
//! right after the sign, else a delimiter.

use vstd::prelude::*;

use crate::check::is_identifier;
use crate::consume;
use crate::cursor::Cursor;
use crate::model::{name_read, starts_identifier, TokenSpec};
use crate::parsers::ParseResult;
use crate::tokens::CSSToken;

verus! {

/// Recognize `@name` as an at-keyword, else `@` as a delimiter.
pub fn parse(points: &mut Cursor) -> (r: ParseResult)
    requires
        old(points).wf(),
    ensures
        final(points).wf(),
        final(points).total() == old(points).total(),
        ({
            let s = old(points).remaining();
            &&& !(s.len() > 0 && s[0] == '@') ==> (r matches Ok(o) && o is None) && *final(points)
                == *old(points)
            &&& (s.len() > 0 && s[0] == '@' && starts_identifier(s.skip(1))) ==> (r matches Ok(o)
                && o matches Some(t) && t@ == TokenSpec::AtKeyword(name_read(s.skip(1)).text))
                && final(points).remaining() == s.skip((1 + name_read(s.skip(1)).taken) as int)
            &&& (s.len() > 0 && s[0] == '@' && !starts_identifier(s.skip(1))) ==> (r matches Ok(o)
                && o matches Some(t) && t@ == TokenSpec::Delim('@')) && final(points).remaining()
                == s.skip(1)
        }),
{
    let ghost s = old(points).remaining();
    match points.peek() {
        Some(ch) => {
            if ch == '@' {
                points.next();
                if is_identifier(points) {
                    let nm = match consume::name(points) {
                        Ok(n) => n,
                        Err(_) => {
                            proof {
                                assert(false);
                            }
                            return Ok(None);
                        },
                    };
                    proof {
                        crate::model::lemma_name_taken(s.skip(1));
                        crate::model::lemma_skip_skip(s, 1, name_read(s.skip(1)).taken as int);
                    }
                    Ok(Some(CSSToken::AtKeyword(nm)))
                } else {
                    Ok(Some(CSSToken::Delim('@')))
                }
            } else {
                Ok(None)
            }
        },
        None => Ok(None),
    }
}

} // verus!
