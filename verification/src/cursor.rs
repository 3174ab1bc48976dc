//! The scan cursor: a single mutable handle over the character sequence and
//! the scanning position counter. Lookahead reads by index and never commits,
//! so probing ahead cannot duplicate side effects.

use vstd::prelude::*;

verus! {

/// Owns the preprocessed character sequence and the count of consumed scalar
/// values. The position counter advances by exactly one per consumed scalar.
pub struct Cursor {
    chars: Vec<char>,
    idx: usize,
}

impl Cursor {
    /// The scalar values not yet consumed.
    pub closed spec fn remaining(self) -> Seq<char> {
        self.chars@.skip(self.idx as int)
    }

    /// How many scalar values have been consumed.
    pub closed spec fn consumed(self) -> nat {
        self.idx as nat
    }

    /// The length of the whole character sequence.
    pub closed spec fn total(self) -> nat {
        self.chars@.len()
    }

    pub closed spec fn wf(self) -> bool {
        self.idx <= self.chars@.len()
    }

    /// A well-formed cursor splits its sequence into the consumed part and
    /// the remaining part.
    pub proof fn lemma_span(self)
        requires
            self.wf(),
        ensures
            self.consumed() + self.remaining().len() == self.total(),
    {
    }

    pub fn new(chars: Vec<char>) -> (c: Cursor)
        ensures
            c.wf(),
            c.remaining() == chars@,
            c.consumed() == 0,
            c.total() == chars@.len(),
    {
        let c = Cursor { chars, idx: 0 };
        proof {
            assert(c.remaining() =~= c.chars@);
        }
        c
    }

    /// The scanning position: the count of consumed scalar values.
    pub fn position(&self) -> (p: usize)
        ensures
            p == self.consumed(),
    {
        self.idx
    }

    /// Look at the next scalar value without consuming it.
    pub fn peek(&self) -> (r: Option<char>)
        requires
            self.wf(),
        ensures
            r == if self.remaining().len() > 0 {
                Some(self.remaining()[0])
            } else {
                None::<char>
            },
    {
        if self.idx < self.chars.len() {
            Some(self.chars[self.idx])
        } else {
            None
        }
    }

    /// Look `k` scalar values ahead without consuming anything.
    pub fn peek_at(&self, k: usize) -> (r: Option<char>)
        requires
            self.wf(),
        ensures
            r == if k < self.remaining().len() {
                Some(self.remaining()[k as int])
            } else {
                None::<char>
            },
    {
        if k < self.chars.len() - self.idx {
            Some(self.chars[self.idx + k])
        } else {
            None
        }
    }

    /// Consume one scalar value, advancing the position counter by one.
    pub fn next(&mut self) -> (r: Option<char>)
        requires
            old(self).wf(),
        ensures
            final(self).wf(),
            final(self).total() == old(self).total(),
            old(self).remaining().len() > 0 ==> {
                &&& r == Some(old(self).remaining()[0])
                &&& final(self).remaining() == old(self).remaining().skip(1)
                &&& final(self).consumed() == old(self).consumed() + 1
            },
            old(self).remaining().len() == 0 ==> r is None && *final(self) == *old(self),
    {
        if self.idx < self.chars.len() {
            let c = self.chars[self.idx];
            self.idx = self.idx + 1;
            proof {
                assert(self.remaining() =~= old(self).remaining().skip(1));
            }
            Some(c)
        } else {
            None
        }
    }

    /// Whether the cursor is exhausted.
    pub fn at_end(&self) -> (r: bool)
        requires
            self.wf(),
        ensures
            r == (self.remaining().len() == 0),
    {
        self.idx == self.chars.len()
    }
}

} // verus!
