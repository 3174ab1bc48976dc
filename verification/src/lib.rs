//! A verified CSS tokenizer, the front end of a CSS minifier.
//!
//! The tokenizer follows the CSS Syntax specification: a stream preprocessor
//! normalizes line endings and NUL bytes, a dispatcher tries per-construct
//! recognizers in a fixed priority order, and each recognized construct is
//! decoded into a token. The module `model` holds the mathematical description
//! of the whole process as specification functions over sequences of Unicode
//! scalar values; every executable function is proved to agree with it.

use vstd::prelude::*;

pub mod check;
pub mod consume;
pub mod cursor;
pub mod error;
pub mod laws;
pub mod model;
pub mod parsers;
pub(crate) mod text;
pub mod tokenizer;
pub mod tokens;

use crate::error::{error_matches, ParseError};
use crate::model::{preprocess_seq, serialize_token, serialize_tokens, tokenize_spec, TokenSpec};
use crate::tokens::views_of;

verus! {

/// Tokenize a complete source string and re-serialize the tokens: the
/// canonical, lossy reconstruction a minifier emits. Fail-fast: the first
/// hard parse error aborts the call.
pub fn minimize(contents: String) -> (r: Result<String, ParseError>)
    ensures
        ({
            let pre = preprocess_seq(contents@);
            match tokenize_spec(pre) {
                Ok(ts) => r matches Ok(out) && out@ == serialize_tokens(ts),
                Err(err) => r matches Err(e) && error_matches(e, err, pre.len()),
            }
        }),
{
    let tokens = match tokenizer::tokenize(contents) {
        Ok(tokens) => tokens,
        Err(e) => {
            return Err(e);
        },
    };
    let ghost ts = views_of(tokens@);
    let mut out = String::new();
    let mut i: usize = 0;
    let n = tokens.len();
    proof {
        assert(ts.skip(0) =~= ts);
        crate::model::lemma_concat_empty(serialize_tokens(ts));
    }
    while i < n
        invariant
            n == tokens@.len(),
            ts == views_of(tokens@),
            i <= n,
            serialize_tokens(ts) == out@ + serialize_tokens(ts.skip(i as int)),
        decreases n - i,
    {
        let ghost out0 = out@;
        let piece = tokens[i].to_css();
        out.append(piece.as_str());
        proof {
            assert(ts.skip(i as int)[0] == ts[i as int]);
            assert(ts.skip(i as int).skip(1) =~= ts.skip(i + 1));
            assert(out0 + (serialize_token(ts[i as int]) + serialize_tokens(ts.skip(i + 1))) =~= (
            out0 + piece@) + serialize_tokens(ts.skip(i + 1)));
        }
        i = i + 1;
    }
    proof {
        assert(ts.skip(n as int) =~= Seq::<TokenSpec>::empty());
        crate::model::lemma_concat_empty(out@);
    }
    Ok(out)
}

} // verus!
