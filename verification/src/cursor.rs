//! The scan position in a text, which only moves forward.

use vstd::prelude::*;
use crate::grammar::peek_at;

verus! {

/// A text and the position up to which it has been read.
pub struct Cursor {
    chars: Vec<char>,
    pos: usize,
}

impl Cursor {
    /// The whole text, read or not.
    pub closed spec fn input(&self) -> Seq<char> {
        self.chars@
    }

    /// How many characters have been read.
    pub closed spec fn position(&self) -> nat {
        self.pos as nat
    }

    /// The position lies within the text or at its end.
    pub open spec fn wf(&self) -> bool {
        self.position() <= self.input().len()
    }

    /// A cursor at the start of `text`.
    pub fn new(text: &str) -> (cur: Cursor)
        ensures
            cur.wf(),
            cur.input() == text@,
            cur.position() == 0,
    {
        let mut chars: Vec<char> = Vec::new();
        for c in it: text.chars()
            invariant
                it.seq() == text@,
                chars@ == it.seq().take(it.index()),
        {
            chars.push(c);
        }
        Cursor { chars, pos: 0 }
    }

    /// A cursor at the start of the text that `chars` spell.
    pub fn from_chars(chars: Vec<char>) -> (cur: Cursor)
        ensures
            cur.wf(),
            cur.input() == chars@,
            cur.position() == 0,
    {
        Cursor { chars, pos: 0 }
    }

    /// How many characters have been read.
    pub fn consumed(&self) -> (n: usize)
        ensures
            n == self.position(),
    {
        self.pos
    }

    /// The next character, which stays unread; `None` at the end of the text.
    pub fn peek(&self) -> (c: Option<char>)
        requires
            self.wf(),
        ensures
            c == peek_at(self.input(), self.position()),
    {
        if self.pos < self.chars.len() {
            Some(self.chars[self.pos])
        } else {
            None
        }
    }

    /// Reads the next character; at the end of the text there is none, and
    /// the cursor stays.
    pub fn advance(&mut self) -> (c: Option<char>)
        requires
            old(self).wf(),
        ensures
            final(self).wf(),
            final(self).input() == old(self).input(),
            c == peek_at(old(self).input(), old(self).position()),
            final(self).position() == old(self).position() + if c is Some {
                1nat
            } else {
                0nat
            },
    {
        if self.pos < self.chars.len() {
            let c = self.chars[self.pos];
            self.pos = self.pos + 1;
            Some(c)
        } else {
            None
        }
    }
}

} // verus!
