//! Recognizes a delimited string. An escaped newline is elided, other
//! escapes are decoded, an unescaped newline yields a bad-string token
//! without being consumed, and the end of input before the closing
//! delimiter is a hard error.

use vstd::prelude::*;

use crate::consume;
use crate::cursor::Cursor;
use crate::error::{option_token_view, ParseError};
use crate::model::{eof_text, escape_read, string_read, string_read_step, StringRead, TokenSpec};
use crate::parsers::ParseResult;
use crate::text::push_char;
use crate::tokens::CSSToken;

verus! {

/// Recognize a string delimited by `string_delimit`.
#[verifier::rlimit(100)]
pub fn parse(points: &mut Cursor, string_delimit: char) -> (r: ParseResult)
    requires
        old(points).wf(),
    ensures
        final(points).wf(),
        final(points).total() == old(points).total(),
        ({
            let s = old(points).remaining();
            &&& !(s.len() > 0 && s[0] == string_delimit) ==> (r matches Ok(o) && o is None)
                && *final(points) == *old(points)
            &&& (s.len() > 0 && s[0] == string_delimit) ==> match string_read(
                s.skip(1),
                string_delimit,
            ) {
                StringRead::Closed { taken, text } => (r matches Ok(o) && o matches Some(t) && t@
                    == TokenSpec::String(text)) && final(points).remaining() == s.skip(
                    (1 + taken) as int,
                ),
                StringRead::Bad { taken } => (r matches Ok(o) && o matches Some(t) && t@
                    == TokenSpec::BadString) && final(points).remaining() == s.skip(
                    (1 + taken) as int,
                ),
                StringRead::Unterminated { taken, text } => (r matches Err(e) && option_token_view(
                    e.token,
                ) == Some(TokenSpec::String(text)) && e.error_text@ == eof_text() && e.at == old(points).total()) && final(points).remaining().len() == 0,
            }
        }),
{
    match points.peek() {
        None => {
            return Ok(None);
        },
        Some(c) => {
            if c != string_delimit {
                return Ok(None);
            }
        },
    }
    let ghost s = old(points).remaining();
    points.next();
    let ghost s1 = s.skip(1);
    let mut token = String::new();
    loop
        invariant
            points.wf(),
            points.total() == old(points).total(),
            s == old(points).remaining(),
            s.len() > 0 && s[0] == string_delimit,
            s1 == s.skip(1),
            points.remaining().len() <= s1.len(),
            points.remaining() == s1.skip((s1.len() - points.remaining().len()) as int),
            string_read(s1, string_delimit) == string_read_step(
                string_read(points.remaining(), string_delimit),
                (s1.len() - points.remaining().len()) as nat,
                token@,
            ),
        decreases points.remaining().len(),
    {
        let ghost k = (s1.len() - points.remaining().len()) as nat;
        let ghost cur = points.remaining();
        match points.peek() {
            None => {
                proof {
                    points.lemma_span();
                    assert(string_read(cur, string_delimit) == StringRead::Unterminated {
                        taken: 0nat,
                        text: Seq::<char>::empty(),
                    });
                    crate::model::lemma_concat_empty(token@);
                }
                return Err(
                    ParseError {
                        token: Some(CSSToken::String(token)),
                        error_text: "Unexpected End Of File (EOF)",
                        at: points.position(),
                    },
                );
            },
            Some(ch) => {
                if ch == string_delimit {
                    points.next();
                    proof {
                        assert(string_read(cur, string_delimit) == StringRead::Closed {
                            taken: 1nat,
                            text: Seq::<char>::empty(),
                        });
                        crate::model::lemma_concat_empty(token@);
                        crate::model::lemma_skip_skip(s1, k as int, 1);
                        crate::model::lemma_skip_skip(s, 1, (k + 1) as int);
                    }
                    return Ok(Some(CSSToken::String(token)));
                } else if ch == '\n' {
                    proof {
                        assert(string_read(cur, string_delimit) == StringRead::Bad {
                            taken: 0nat,
                        });
                        crate::model::lemma_skip_skip(s, 1, k as int);
                    }
                    return Ok(Some(CSSToken::BadString));
                } else if ch == '\\' {
                    points.next();
                    match points.peek() {
                        None => {
                            proof {
                                assert(string_read(cur, string_delimit)
                                    == StringRead::Unterminated {
                                    taken: 1nat,
                                    text: Seq::<char>::empty(),
                                });
                                assert(string_read(cur, string_delimit) == string_read_step(
                                    string_read(cur.skip(1), string_delimit),
                                    1nat,
                                    Seq::<char>::empty(),
                                ));
                                crate::model::lemma_skip_skip(s1, k as int, 1);
                                crate::model::lemma_string_step_compose(
                                    string_read(points.remaining(), string_delimit),
                                    1nat,
                                    Seq::<char>::empty(),
                                    k,
                                    token@,
                                );
                                crate::model::lemma_concat_empty(token@);
                            }
                        },
                        Some(c2) => {
                            if c2 == '\n' {
                                points.next();
                                proof {
                                    assert(string_read(cur, string_delimit) == string_read_step(
                                        string_read(cur.skip(2), string_delimit),
                                        2nat,
                                        Seq::<char>::empty(),
                                    ));
                                    crate::model::lemma_skip_skip(cur, 1, 1);
                                    crate::model::lemma_skip_skip(s1, k as int, 2);
                                    crate::model::lemma_string_step_compose(
                                        string_read(points.remaining(), string_delimit),
                                        2nat,
                                        Seq::<char>::empty(),
                                        k,
                                        token@,
                                    );
                                    crate::model::lemma_concat_empty(token@);
                                }
                            } else {
                                let c = match consume::escape(points) {
                                    Ok(c) => c,
                                    Err(_) => {
                                        proof {
                                            assert(false);
                                        }
                                        '\u{FFFD}'
                                    },
                                };
                                let ghost token0 = token@;
                                push_char(&mut token, c);
                                proof {
                                    let er = escape_read(cur.skip(1));
                                    crate::model::lemma_escape_taken(cur.skip(1));
                                    assert(string_read(cur, string_delimit) == string_read_step(
                                        string_read(
                                            cur.skip((1 + er.taken) as int),
                                            string_delimit,
                                        ),
                                        (1 + er.taken) as nat,
                                        seq![er.decoded],
                                    ));
                                    crate::model::lemma_skip_skip(cur, 1, er.taken as int);
                                    crate::model::lemma_skip_skip(
                                        s1,
                                        k as int,
                                        (1 + er.taken) as int,
                                    );
                                    crate::model::lemma_string_step_compose(
                                        string_read(points.remaining(), string_delimit),
                                        (1 + er.taken) as nat,
                                        seq![er.decoded],
                                        k,
                                        token0,
                                    );
                                    crate::model::lemma_push_concat(token0, c);
                                }
                            }
                        },
                    }
                } else {
                    points.next();
                    let ghost token0 = token@;
                    push_char(&mut token, ch);
                    proof {
                        assert(string_read(cur, string_delimit) == string_read_step(
                            string_read(cur.skip(1), string_delimit),
                            1nat,
                            seq![ch],
                        ));
                        crate::model::lemma_skip_skip(s1, k as int, 1);
                        crate::model::lemma_string_step_compose(
                            string_read(points.remaining(), string_delimit),
                            1nat,
                            seq![ch],
                            k,
                            token0,
                        );
                        crate::model::lemma_push_concat(token0, ch);
                    }
                }
            },
        }
    }
}

} // verus!
