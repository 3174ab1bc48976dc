//! Recognizes a comment: `/*` through the first `*/`. The end of input
//! before the close is a hard error.

use vstd::prelude::*;

use crate::cursor::Cursor;
use crate::error::{option_token_view, ParseError};
use crate::model::{comment_close_at, eof_text, TokenSpec};
use crate::parsers::{lookahead, ParseResult};
use crate::tokens::CSSToken;

verus! {

/// Recognize a comment, consuming through the first `*/`.
pub fn parse(points: &mut Cursor) -> (r: ParseResult)
    requires
        old(points).wf(),
    ensures
        final(points).wf(),
        final(points).total() == old(points).total(),
        ({
            let s = old(points).remaining();
            &&& !(s.len() >= 2 && s[0] == '/' && s[1] == '*') ==> (r matches Ok(o) && o is None)
                && *final(points) == *old(points)
            &&& (s.len() >= 2 && s[0] == '/' && s[1] == '*') ==> match comment_close_at(s.skip(2)) {
                Some(i) => (r matches Ok(o) && o matches Some(t) && t@ == TokenSpec::Comment)
                    && final(points).remaining() == s.skip((4 + i) as int),
                None => (r matches Err(e) && e.token matches Some(t) && t@ == TokenSpec::Comment
                    && e.error_text@ == eof_text() && e.at == old(points).total()) && final(points).remaining().len() == 0,
            }
        }),
{
    if !lookahead(points, &['/', '*']) {
        return Ok(None);
    }
    let ghost s = old(points).remaining();
    points.next();
    points.next();
    let ghost s2 = s.skip(2);
    proof {
        assert(points.remaining() =~= s2);
    }
    loop
        invariant
            points.wf(),
            points.total() == old(points).total(),
            s == old(points).remaining(),
            s.len() >= 2 && s[0] == '/' && s[1] == '*',
            s2 == s.skip(2),
            points.remaining().len() <= s2.len(),
            points.remaining() == s2.skip((s2.len() - points.remaining().len()) as int),
            match comment_close_at(s2) {
                Some(i) => i >= s2.len() - points.remaining().len() && comment_close_at(
                    points.remaining(),
                ) == Some((i - (s2.len() - points.remaining().len())) as nat),
                None => comment_close_at(points.remaining()) is None,
            },
        decreases points.remaining().len(),
    {
        let ghost k = (s2.len() - points.remaining().len()) as nat;
        let ghost cur = points.remaining();
        if lookahead(points, &['*', '/']) {
            points.next();
            points.next();
            proof {
                assert(comment_close_at(cur) == Some(0nat));
                crate::model::lemma_skip_skip(s2, k as int, 2);
                crate::model::lemma_skip_skip(s, 2, (k + 2) as int);
            }
            return Ok(Some(CSSToken::Comment));
        }
        match points.next() {
            None => {
                proof {
                    points.lemma_span();
                    assert(comment_close_at(cur) is None);
                }
                return Err(
                    ParseError {
                        token: Some(CSSToken::Comment),
                        error_text: "Unexpected End Of File (EOF)",
                        at: points.position(),
                    },
                );
            },
            Some(_) => {
                proof {
                    crate::model::lemma_skip_skip(s2, k as int, 1);
                    match comment_close_at(s2) {
                        Some(i) => {
                            assert(comment_close_at(cur) == Some((i - k) as nat));
                            assert(!(cur.len() >= 2 && cur[0] == '*' && cur[1] == '/'));
                            assert(comment_close_at(cur) matches Some(j) ==> j >= 1);
                        },
                        None => {},
                    }
                }
            },
        }
    }
}

} // verus!
