use vstd::prelude::*;

verus! {

/// Represents a pattern match on a given text.
///
/// The lifetime parameter `'t` refers to the lifetime of the matched text:
/// the match borrows from the text buffer handed to the search and never
/// owns a copy of it.
#[derive(Clone, Copy, Debug)]
pub struct Match<'t> {
    /// The starting byte offset of the match (inclusive).
    start: usize,
    /// The ending byte offset of the match (exclusive).
    end: usize,
    /// The text that was matched between the starting and ending offset.
    matched_text: &'t str,
}

/// Contains the various error types the library can produce.
#[derive(Clone, Debug)]
pub enum Error {
    /// Syntax error: the referenced string could not be parsed as a valid regex pattern.
    Syntax(&'static str),
    /// Argument error: a function was called with an invalid argument.
    Argument(&'static str),
}

impl<'t> Match<'t> {
    /// The starting byte offset, as a mathematical integer.
    pub closed spec fn spec_start(&self) -> int {
        self.start as int
    }

    /// The ending byte offset, as a mathematical integer.
    pub closed spec fn spec_end(&self) -> int {
        self.end as int
    }

    /// The matched text, as a sequence of characters.
    pub closed spec fn spec_text(&self) -> Seq<char> {
        self.matched_text@
    }

    /// Creates a new match instance with the given offsets and matched text.
    pub fn new(start: usize, end: usize, matched_text: &'t str) -> (r: Match<'t>)
        ensures
            r.spec_start() == start,
            r.spec_end() == end,
            r.spec_text() == matched_text@,
    {
        Match { start, end, matched_text }
    }

    /// Creates a new match instance from the offsets alone, with no matched text.
    pub fn from(start: usize, end: usize) -> (r: Match<'static>)
        ensures
            r.spec_start() == start,
            r.spec_end() == end,
            r.spec_text() == Seq::<char>::empty(),
    {
        let matched_text = "";
        proof {
            reveal_strlit("");
        }
        assert(matched_text@ =~= Seq::<char>::empty());
        Match { start, end, matched_text }
    }

    /// Returns the starting byte offset of the match (inclusive).
    pub fn start(&self) -> (r: usize)
        ensures
            r == self.spec_start(),
    {
        self.start
    }

    /// Returns the ending byte offset of the match (exclusive).
    pub fn end(&self) -> (r: usize)
        ensures
            r == self.spec_end(),
    {
        self.end
    }

    /// Returns the matched text.
    pub fn as_str(&self) -> (r: &'t str)
        ensures
            r@ == self.spec_text(),
    {
        self.matched_text
    }
}

} // verus!
