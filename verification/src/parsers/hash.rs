//! Recognizes `#`: a hash token when a name code point or a valid escape
//! follows, with the `Id` flag when the identifier lookahead holds right
//! after the sign; else the `#` itself is a delimiter.

use vstd::prelude::*;

use crate::check::{is_identifier, is_name_code_point, is_valid_escape};
use crate::consume;
use crate::cursor::Cursor;
use crate::model::{hash_read, TokenStep};
use crate::parsers::ParseResult;
use crate::tokens::{CSSToken, HashFlag};

verus! {

/// Recognize a hash token or a `#` delimiter.
pub fn parse(points: &mut Cursor) -> (r: ParseResult)
    requires
        old(points).wf(),
    ensures
        final(points).wf(),
        final(points).total() == old(points).total(),
        ({
            let s = old(points).remaining();
            &&& !(s.len() > 0 && s[0] == '#') ==> (r matches Ok(o) && o is None) && *final(points)
                == *old(points)
            &&& (s.len() > 0 && s[0] == '#') ==> (hash_read(s) matches TokenStep::Tok {
                taken,
                token,
            } && (r matches Ok(o) && o matches Some(t) && t@ == token) && final(points).remaining()
                == s.skip(taken as int))
        }),
{
    let ghost s = old(points).remaining();
    match points.peek() {
        Some(ch) => {
            if ch == '#' {
                points.next();
                let mut named = false;
                match points.peek() {
                    Some(c2) => {
                        if is_name_code_point(c2) {
                            named = true;
                        } else if is_valid_escape(points) {
                            named = true;
                        }
                    },
                    None => {},
                }
                if named {
                    let identifier = is_identifier(points);
                    let nm = match consume::name(points) {
                        Ok(n) => n,
                        Err(_) => {
                            proof {
                                assert(false);
                            }
                            return Ok(None);
                        },
                    };
                    proof {
                        crate::model::lemma_name_taken(s.skip(1));
                        crate::model::lemma_skip_skip(
                            s,
                            1,
                            crate::model::name_read(s.skip(1)).taken as int,
                        );
                    }
                    Ok(
                        Some(
                            CSSToken::Hash(
                                nm,
                                if identifier {
                                    HashFlag::Id
                                } else {
                                    HashFlag::Unrestricted
                                },
                            ),
                        ),
                    )
                } else {
                    Ok(Some(CSSToken::Delim('#')))
                }
            } else {
                Ok(None)
            }
        },
        None => Ok(None),
    }
}

} // verus!
