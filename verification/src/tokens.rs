//! Seekable cursor over an immutable token sequence.
//!
//! The stream owns the full sequence, produced once by a tokenizer and never
//! mutated, plus a single integer cursor. `peek` reads without advancing,
//! `next` reads and advances, and `get_index`/`set_index` let a combinator
//! snapshot the cursor and later restore it — the one primitive that
//! backtracking needs.

use crate::lexer::Token;
use vstd::prelude::*;

verus! {

pub struct Tokens {
    tokens: Vec<Token>,
    index: usize,
}

impl Tokens {
    /// The owned token sequence.
    pub closed spec fn toks(&self) -> Seq<Token> {
        self.tokens@
    }

    /// The cursor.
    pub closed spec fn idx(&self) -> int {
        self.index as int
    }

    pub fn new(tokens: Vec<Token>) -> (r: Tokens)
        ensures
            r.toks() == tokens@,
            r.idx() == 0,
    {
        Tokens { tokens, index: 0 }
    }

    /// Reads the current token without advancing; `None` once the cursor is
    /// at or past the end.
    pub fn peek(&self) -> (r: Option<&Token>)
        ensures
            match r {
                Some(t) => 0 <= self.idx() < self.toks().len() && *t == self.toks()[self.idx()],
                None => self.idx() >= self.toks().len(),
            },
    {
        if self.index < self.tokens.len() {
            Some(&self.tokens[self.index])
        } else {
            None
        }
    }

    /// Returns the current token and advances past it; at or past the end it
    /// returns `None` and moves nothing.
    pub fn next(&mut self) -> (r: Option<Token>)
        ensures
            final(self).toks() == old(self).toks(),
            match r {
                Some(t) => {
                    &&& 0 <= old(self).idx() < old(self).toks().len()
                    &&& t == old(self).toks()[old(self).idx()]
                    &&& final(self).idx() == old(self).idx() + 1
                },
                None => {
                    &&& old(self).idx() >= old(self).toks().len()
                    &&& final(self).idx() == old(self).idx()
                },
            },
    {
        if self.index < self.tokens.len() {
            let t = self.tokens[self.index].dup();
            self.index = self.index + 1;
            Some(t)
        } else {
            None
        }
    }

    /// The cursor's position, fit for a later `set_index`.
    pub fn get_index(&self) -> (r: usize)
        ensures
            r == self.idx(),
    {
        self.index
    }

    /// Overwrites the cursor. Restoring a value a `get_index` gave earlier is
    /// always valid; the stream itself never changes.
    pub fn set_index(&mut self, index: usize)
        ensures
            final(self).toks() == old(self).toks(),
            final(self).idx() == index,
    {
        self.index = index;
    }
}

} // verus!
