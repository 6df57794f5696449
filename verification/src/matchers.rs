use vstd::prelude::*;

pub mod literal;
pub mod longest;
pub mod nothing;
pub mod prefix;

use crate::engine::{re_pattern, re_valid, Engine};
use vstd::string::StringSliceAdditionalSpecFns;
use crate::matchers::longest::longest_parse;
use crate::matchers::prefix::prefix_spec;
use crate::preprocessor::{spec_suggestion, Preprocessor, Suggestion};
use crate::types::Error;

verus! {

/// A literal pattern matcher implementation. Technically
/// nothing more than a wrapper for the plain substring search.
pub struct LiteralMatcher<'p> {
    /// The original pattern, stored as a string slice.
    pub pattern: &'p str,
}

/// A pattern matcher using the longest heuristic type.
pub struct LongestMatcher {
    /// A library-supplied regex compilation struct with the original pattern.
    pub original: Engine,
    /// The fragment used for pattern searching: the longest sequential byte
    /// string without a special character in it.
    pub best_fragment: Vec<u8>,
    /// The maximum length a match can be. Not used when `length_known` is false.
    pub max_length: usize,
    /// Whether the maximum length of a match can be decided or not.
    pub length_known: bool,
}

/// A pattern matcher using the prefix heuristic type.
pub struct PrefixMatcher {
    /// A library-supplied regex compilation struct with the original pattern.
    pub original: Engine,
    /// The prefix fragment to use for pattern searching.
    pub prefix: Vec<u8>,
}

/// A pattern matcher where no heuristics can be used. Simply delegates the tasks
/// to the library-supplied matcher.
pub struct NothingMatcher {
    /// A library-supplied regex compilation struct with the original pattern.
    pub original: Engine,
}

impl LongestMatcher {
    /// The matcher's fragment, bound and flag are those the parse yields.
    pub open spec fn wf(&self) -> bool {
        &&& re_valid(re_pattern(self.original))
        &&& self.best_fragment@ == longest_parse(re_pattern(self.original)).best
        &&& self.max_length == longest_parse(re_pattern(self.original)).max_length
        &&& self.length_known == longest_parse(re_pattern(self.original)).known
        &&& self.best_fragment@.len() <= self.max_length
    }
}

impl PrefixMatcher {
    /// The stored prefix is the pattern's literal prefix.
    pub open spec fn wf(&self) -> bool {
        &&& re_valid(re_pattern(self.original))
        &&& self.prefix@ == prefix_spec(re_pattern(self.original))
    }
}

impl NothingMatcher {
    /// The engine was compiled from the pattern.
    pub open spec fn wf(&self) -> bool {
        re_valid(re_pattern(self.original))
    }
}

/// One concrete matcher, chosen at construction time and never re-evaluated.
/// Exactly these four kinds exist.
pub enum Matcher<'p> {
    Literal(LiteralMatcher<'p>),
    Longest(LongestMatcher),
    Prefix(PrefixMatcher),
    Nothing(NothingMatcher),
}

impl<'p> Matcher<'p> {
    /// The pattern the matcher was built for, as bytes.
    pub open spec fn spec_pattern(&self) -> Seq<u8> {
        match self {
            Matcher::Literal(m) => m.pattern.spec_bytes(),
            Matcher::Longest(m) => re_pattern(m.original),
            Matcher::Prefix(m) => re_pattern(m.original),
            Matcher::Nothing(m) => re_pattern(m.original),
        }
    }

    /// Which strategy the matcher embodies.
    pub open spec fn spec_strategy(&self) -> Suggestion {
        match self {
            Matcher::Literal(_) => Suggestion::Literal,
            Matcher::Longest(_) => Suggestion::Longest,
            Matcher::Prefix(_) => Suggestion::Prefix,
            Matcher::Nothing(_) => Suggestion::Nothing,
        }
    }

    /// The matcher's derived state agrees with its pattern, and the pattern
    /// compiles on the full engine.
    pub open spec fn wf(&self) -> bool {
        match self {
            Matcher::Literal(_) => true,
            Matcher::Longest(m) => m.wf(),
            Matcher::Prefix(m) => m.wf(),
            Matcher::Nothing(m) => m.wf(),
        }
    }

    /// Create the matcher that suits the given pattern: the classifier picks
    /// the strategy, and the matching constructor runs.
    pub fn new(pattern: &'p str) -> (r: Result<Matcher<'p>, Error>)
        ensures
            r is Ok <==> re_valid(pattern.spec_bytes()),
            r matches Ok(m) ==> {
                &&& m.wf()
                &&& m.spec_pattern() == pattern.spec_bytes()
                &&& m.spec_strategy() == spec_suggestion(pattern.spec_bytes())
            },
            r matches Err(e) ==> e is Syntax,
    {
        let suggestion = match Preprocessor::new(pattern).determine_type() {
            Ok(s) => s,
            Err(reason) => {
                return Err(reason);
            },
        };
        match suggestion {
            Suggestion::Literal => Ok(Matcher::Literal(LiteralMatcher::new(pattern))),
            Suggestion::Longest => match LongestMatcher::new(pattern) {
                Ok(m) => Ok(Matcher::Longest(m)),
                Err(e) => Err(e),
            },
            Suggestion::Prefix => match PrefixMatcher::new(pattern) {
                Ok(m) => Ok(Matcher::Prefix(m)),
                Err(e) => Err(e),
            },
            Suggestion::Nothing => match NothingMatcher::new(pattern) {
                Ok(m) => Ok(Matcher::Nothing(m)),
                Err(e) => Err(e),
            },
        }
    }

    /// What `find` returns for this matcher over the given text bytes.
    pub open spec fn spec_find(&self, t: Seq<u8>) -> Option<(int, int)> {
        match self {
            Matcher::Literal(m) => m.find_spec(t),
            Matcher::Longest(m) => m.find_spec(t),
            Matcher::Prefix(m) => m.find_spec(t),
            Matcher::Nothing(m) => m.find_spec(t),
        }
    }

    /// Finds the first match of the compiled pattern in the given text bytes.
    pub fn find_bytes(&self, text: &[u8]) -> (r: Option<(usize, usize)>)
        requires
            self.wf(),
        ensures
            match r {
                Some((s, e)) => self.spec_find(text@) == Some((s as int, e as int)) && s <= e
                    <= text@.len(),
                None => self.spec_find(text@) is None,
            },
    {
        match self {
            Matcher::Literal(m) => m.find_bytes(text),
            Matcher::Longest(m) => m.find_bytes(text),
            Matcher::Prefix(m) => m.find_bytes(text),
            Matcher::Nothing(m) => m.find_bytes(text),
        }
    }
}

} // verus!
