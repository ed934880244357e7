//! A place in a line of syntax that moves on word by word.

use vstd::prelude::*;
use vstd::slice::slice_subrange;
use vstd::string::*;

use crate::config::conditions::{self, skip_blanks, skip_word};
use crate::text::chars_are;

verus! {

/// A line and how far it has been read.
#[derive(Debug, Clone, Copy)]
pub struct SyntaxCursor<'a> {
    source: &'a [char],
    offset: usize,
}

/// A cursor's line and place.
pub struct CursorModel {
    pub source: Seq<char>,
    pub offset: int,
}

impl<'a> View for SyntaxCursor<'a> {
    type V = CursorModel;

    closed spec fn view(&self) -> CursorModel {
        CursorModel { source: self.source@, offset: self.offset as int }
    }
}

impl CursorModel {
    pub open spec fn wf(self) -> bool {
        0 <= self.offset <= self.source.len()
    }

    /// Where the next word starts.
    pub open spec fn word_start(self) -> int {
        conditions::blanks_end(self.source, self.offset)
    }

    /// Where the next word ends.
    pub open spec fn word_end(self) -> int {
        conditions::word_end(self.source, self.word_start())
    }

    /// The next word, empty where there is none.
    pub open spec fn next_word(self) -> Seq<char> {
        self.source.subrange(self.word_start(), self.word_end())
    }

    /// The cursor at another place.
    pub open spec fn moved(self, offset: int) -> CursorModel {
        CursorModel { offset, ..self }
    }
}

impl<'a> SyntaxCursor<'a> {
    /// A cursor at the start of a line.
    pub fn new(source: &'a [char]) -> (r: Self)
        ensures
            r@ == (CursorModel { source: source@, offset: 0 }),
            r@.wf(),
    {
        SyntaxCursor { source, offset: 0 }
    }

    /// Reads the next word, if there is one.
    pub fn word(&mut self) -> (r: Option<&'a [char]>)
        requires
            old(self)@.wf(),
        ensures
            final(self)@ == old(self)@.moved(old(self)@.word_end()),
            final(self)@.wf(),
            match r {
                Some(word) => word@ == old(self)@.next_word() && word@.len() > 0,
                None => old(self)@.next_word().len() == 0,
            },
    {
        let start = skip_blanks(self.source, self.offset);
        let end = skip_word(self.source, start);
        self.offset = end;
        if start == end {
            None
        } else {
            Some(slice_subrange(self.source, start, end))
        }
    }

    /// Reads the next word where it is the expected one, and stays in place
    /// where it is not.
    pub fn keyword(&mut self, expected: &str) -> (r: bool)
        requires
            old(self)@.wf(),
        ensures
            r == (old(self)@.next_word().len() > 0 && old(self)@.next_word() == expected@),
            final(self)@ == (if r {
                old(self)@.moved(old(self)@.word_end())
            } else {
                old(self)@
            }),
            final(self)@.wf(),
    {
        let saved = self.offset;
        let found = match self.word() {
            Some(word) => chars_are(word, expected),
            None => false,
        };
        if !found {
            self.offset = saved;
        }
        found
    }

    /// Reads the rest of the line, from the next word on.
    pub fn remainder(&mut self) -> (r: &'a [char])
        requires
            old(self)@.wf(),
        ensures
            r@ == old(self)@.source.subrange(
                old(self)@.word_start(),
                old(self)@.source.len() as int,
            ),
            final(self)@ == old(self)@.moved(old(self)@.source.len() as int),
            final(self)@.wf(),
    {
        let start = skip_blanks(self.source, self.offset);
        self.offset = self.source.len();
        slice_subrange(self.source, start, self.source.len())
    }

    /// Whether no word is left.
    pub fn is_end(&mut self) -> (r: bool)
        requires
            old(self)@.wf(),
        ensures
            r == (old(self)@.word_start() == old(self)@.source.len()),
            final(self)@ == old(self)@.moved(old(self)@.word_start()),
            final(self)@.wf(),
    {
        self.offset = skip_blanks(self.source, self.offset);
        self.offset == self.source.len()
    }

    /// How many characters have been read.
    pub fn offset(&self) -> (r: usize)
        ensures
            r == self@.offset,
    {
        self.offset
    }
}

} // verus!
