//! A position in a text: what the matcher moves and what it copies before it
//! tries something that may fail.

use vstd::prelude::*;

verus! {

/// A text and a position in it. Copying a cursor is cheap, and moving one
/// copy leaves the others where they were.
#[derive(Clone, Copy, Debug, PartialEq, Eq)]
pub struct Cursor<'a> {
    /// The whole text.
    pub text: &'a [char],
    /// How many characters have been taken.
    pub pos: usize,
}

impl<'a> Cursor<'a> {
    /// The position lies inside the text or at its end.
    pub open spec fn wf(self) -> bool {
        self.pos <= self.text@.len()
    }

    /// The character under the cursor, if one is left.
    pub open spec fn head(self) -> Option<char> {
        if self.pos < self.text@.len() {
            Some(self.text@[self.pos as int])
        } else {
            None
        }
    }

    /// How far taking a character moves the cursor: by one, or not at all at
    /// the end.
    pub open spec fn step(self) -> int {
        if self.pos < self.text@.len() {
            1
        } else {
            0
        }
    }

    /// A cursor on `text` at `pos`.
    pub fn new(text: &'a [char], pos: usize) -> (c: Self)
        requires
            pos <= text@.len(),
        ensures
            c.wf(),
            c.text == text,
            c.pos == pos,
    {
        Cursor { text, pos }
    }

    /// The character under the cursor, if one is left; the cursor stays.
    pub fn peek(&self) -> (c: Option<char>)
        requires
            self.wf(),
        ensures
            c == self.head(),
    {
        if self.pos < self.text.len() {
            Some(self.text[self.pos])
        } else {
            None
        }
    }

    /// Whether the character under the cursor is `c`; the cursor stays.
    pub fn at(&self, c: char) -> (b: bool)
        requires
            self.wf(),
        ensures
            b == (self.head() == Some(c)),
    {
        self.pos < self.text.len() && self.text[self.pos] == c
    }

    /// Whether no character is left; the cursor stays.
    pub fn at_end(&self) -> (b: bool)
        requires
            self.wf(),
        ensures
            b == (self.pos == self.text@.len()),
    {
        self.pos >= self.text.len()
    }

    /// Takes the character under the cursor, if one is left.
    pub fn next(&mut self) -> (c: Option<char>)
        requires
            old(self).wf(),
        ensures
            c == old(self).head(),
            final(self).text == old(self).text,
            final(self).pos == old(self).pos + old(self).step(),
    {
        if self.pos < self.text.len() {
            let c = self.text[self.pos];
            self.pos = self.pos + 1;
            Some(c)
        } else {
            None
        }
    }
}

} // verus!
