//! The tokenizer entry points: stream preprocessing and the scan loop.

use vstd::prelude::*;

use crate::cursor::Cursor;
use crate::error::{error_matches, ParseError};
use crate::model::{preprocess_seq, tokenize_spec, TokenStep};
use crate::parsers;
use crate::text::{chars_of, push_char};
use crate::tokens::{views_of, CSSToken};

verus! {

/// Normalize the raw source before any scanning: `\r\n` and a lone `\r`
/// become `\n`, and NUL becomes the replacement character U+FFFD. Pure and
/// total; it runs exactly once, so that positions reported in errors refer
/// to the normalized stream.
pub fn preprocess(contents: String) -> (r: String)
    ensures
        r@ == preprocess_seq(contents@),
{
    let chars = chars_of(contents.as_str());
    let n = chars.len();
    let mut out = String::new();
    let mut i: usize = 0;
    proof {
        assert(chars@.skip(0) =~= chars@);
        crate::model::lemma_concat_empty(preprocess_seq(chars@));
    }
    while i < n
        invariant
            n == chars@.len(),
            i <= n,
            preprocess_seq(chars@) == out@ + preprocess_seq(chars@.skip(i as int)),
        decreases n - i,
    {
        let ghost out0 = out@;
        let c = chars[i];
        if c == '\r' {
            push_char(&mut out, '\n');
            let mut crlf = false;
            if i + 1 < n {
                if chars[i + 1] == '\n' {
                    crlf = true;
                }
            }
            if crlf {
                proof {
                    crate::model::lemma_skip_skip(chars@, i as int, 2);
                }
                i = i + 2;
            } else {
                proof {
                    crate::model::lemma_skip_skip(chars@, i as int, 1);
                }
                i = i + 1;
            }
            proof {
                crate::model::lemma_push_concat(out0, '\n');
                assert(out0 + (seq!['\n'] + preprocess_seq(chars@.skip(i as int))) =~= (out0
                    + seq!['\n']) + preprocess_seq(chars@.skip(i as int)));
            }
        } else if c == '\u{0}' {
            push_char(&mut out, '\u{FFFD}');
            proof {
                crate::model::lemma_skip_skip(chars@, i as int, 1);
                crate::model::lemma_push_concat(out0, '\u{FFFD}');
                assert(out0 + (seq!['\u{FFFD}'] + preprocess_seq(chars@.skip(i + 1))) =~= (out0
                    + seq!['\u{FFFD}']) + preprocess_seq(chars@.skip(i + 1)));
            }
            i = i + 1;
        } else {
            push_char(&mut out, c);
            proof {
                crate::model::lemma_skip_skip(chars@, i as int, 1);
                crate::model::lemma_push_concat(out0, c);
                assert(out0 + (seq![c] + preprocess_seq(chars@.skip(i + 1))) =~= (out0 + seq![c])
                    + preprocess_seq(chars@.skip(i + 1)));
            }
            i = i + 1;
        }
    }
    proof {
        assert(chars@.skip(n as int) =~= Seq::<char>::empty());
        crate::model::lemma_concat_empty(out@);
    }
    out
}

/// Tokenize a complete source string: preprocess it, then repeatedly
/// dispatch on the next construct until the end-of-file sentinel, which is
/// never pushed onto the output sequence. Fail-fast: the first hard error
/// aborts the whole call with no partial token sequence.
pub fn tokenize(contents: String) -> (r: Result<Vec<CSSToken>, ParseError>)
    ensures
        ({
            let pre = preprocess_seq(contents@);
            match tokenize_spec(pre) {
                Ok(ts) => r matches Ok(v) && views_of(v@) == ts,
                Err(err) => r matches Err(e) && error_matches(e, err, pre.len()),
            }
        }),
{
    let prepared = preprocess(contents);
    let chars = chars_of(prepared.as_str());
    let mut iter = Cursor::new(chars);
    scan(&mut iter)
}

/// The scan loop: repeatedly dispatch on the next construct until the
/// end-of-file sentinel, which is never pushed onto the output sequence.
fn scan(iter: &mut Cursor) -> (r: Result<Vec<CSSToken>, ParseError>)
    requires
        old(iter).wf(),
        old(iter).consumed() == 0,
    ensures
        match tokenize_spec(old(iter).remaining()) {
            Ok(ts) => r matches Ok(v) && views_of(v@) == ts,
            Err(err) => r matches Err(e) && error_matches(e, err, old(iter).remaining().len()),
        },
{
    let ghost all = old(iter).remaining();
    proof {
        iter.lemma_span();
    }
    let mut tokens: Vec<CSSToken> = Vec::new();
    let mut done = false;
    proof {
        assert(views_of(tokens@) =~= Seq::<crate::model::TokenSpec>::empty());
        match tokenize_spec(all) {
            Ok(ts) => {
                assert(ts =~= views_of(tokens@) + ts);
            },
            Err(_) => {},
        }
    }
    while !done
        invariant
            iter.wf(),
            iter.total() == old(iter).total(),
            all == old(iter).remaining(),
            all.len() == old(iter).total(),
            match tokenize_spec(all) {
                Ok(ts) => tokenize_spec(iter.remaining()) matches Ok(rest) && ts == views_of(
                    tokens@,
                ) + rest,
                Err(e) => tokenize_spec(iter.remaining()) matches Err(e2) && e == e2,
            },
            done ==> tokenize_spec(iter.remaining()) == Ok::<_, crate::model::ErrorSpec>(
                Seq::<crate::model::TokenSpec>::empty(),
            ),
        decreases iter.remaining().len() + (if done {
            0int
        } else {
            1int
        }),
    {
        let ghost cur = iter.remaining();
        let result = parsers::parse(iter);
        proof {
            crate::model::lemma_next_token_taken(cur);
            crate::model::lemma_next_token_not_eof(cur);
        }
        match result {
            Err(e) => {
                proof {
                    match crate::model::next_token_spec(cur) {
                        TokenStep::Fail { err } => {
                            assert(tokenize_spec(cur) == Err::<
                                Seq<crate::model::TokenSpec>,
                                crate::model::ErrorSpec,
                            >(err));
                        },
                        _ => {},
                    }
                }
                return Err(e);
            },
            Ok(token) => {
                match token {
                    CSSToken::EOF => {
                        done = true;
                    },
                    _ => {
                        let ghost tokens0 = tokens@;
                        tokens.push(token);
                        proof {
                            assert(views_of(tokens@) =~= views_of(tokens0).push(token@));
                            match tokenize_spec(all) {
                                Ok(ts) => {
                                    assert(views_of(tokens0).push(token@) + tokenize_spec(
                                        iter.remaining(),
                                    )->Ok_0 =~= views_of(tokens0) + (seq![token@] + tokenize_spec(
                                        iter.remaining(),
                                    )->Ok_0));
                                },
                                Err(e) => {},
                            }
                        }
                    },
                }
            },
        }
    }
    proof {
        match tokenize_spec(all) {
            Ok(ts) => {
                assert(ts =~= views_of(tokens@));
            },
            Err(e) => {
                assert(false);
            },
        }
    }
    Ok(tokens)
}

} // verus!
