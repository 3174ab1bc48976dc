//! The hard parse error: scanning does not resume after one.

use vstd::prelude::*;

use crate::model::{ErrorSpec, TokenSpec};
use crate::tokens::CSSToken;

verus! {

/// A hard parse error. It carries the scanning position at which it was
/// detected, a static diagnostic message, and, where one was under
/// construction, the partially built token.
#[derive(Debug, Clone)]
pub struct ParseError {
    pub token: Option<CSSToken>,
    pub error_text: &'static str,
    pub at: usize,
}

/// The view of an optional token.
pub open spec fn option_token_view(o: Option<CSSToken>) -> Option<TokenSpec> {
    match o {
        Some(t) => Some(t@),
        None => None,
    }
}

/// Whether an executable error reports exactly the specification-level
/// error, given the total length of the preprocessed stream.
pub open spec fn error_matches(e: ParseError, err: ErrorSpec, total: nat) -> bool {
    &&& option_token_view(e.token) == err.token
    &&& e.error_text@ == err.text
    &&& err.left <= total && e.at == total - err.left
}

impl ParseError {
    /// The diagnostic message, with the position appended by the caller if
    /// needed; types of this crate expose their text through a method
    /// rather than a formatting trait.
    pub fn message(&self) -> (r: &'static str)
        ensures
            r@ == self.error_text@,
    {
        self.error_text
    }
}

} // verus!
