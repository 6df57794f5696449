use vstd::prelude::*;

use crate::engine::re_valid;
use crate::matchers::Matcher;
use crate::preprocessor::{spec_suggestion, Suggestion};
use crate::types::{Error, Match};
use vstd::slice::slice_subrange;
use vstd::string::StringSliceAdditionalSpecFns;
use vstd::utf8::{encode_utf8, valid_utf8};

verus! {

/// A compiled regular expression pattern matcher. Can be used to find the first
/// occurrence of an extended regular expression pattern in a given string.
///
/// The underlying algorithm depends on the structure of the pattern, which is
/// analyzed during the compilation phase. This implementation dynamically chooses
/// the best performing algorithm for the given pattern.
pub struct Regex<'p> {
    /// A specific matcher implementation that will be used for searching.
    pub matcher: Matcher<'p>,
}

impl<'p> Regex<'p> {
    /// The chosen matcher agrees with the pattern it was built from.
    pub open spec fn wf(&self) -> bool {
        self.matcher.wf()
    }

    /// The pattern the matcher was built for, as bytes.
    pub open spec fn spec_pattern(&self) -> Seq<u8> {
        self.matcher.spec_pattern()
    }

    /// Which of the four strategies was chosen at construction.
    pub open spec fn spec_strategy(&self) -> Suggestion {
        self.matcher.spec_strategy()
    }

    /// The byte offsets `find` reports over the given text bytes.
    pub open spec fn spec_find(&self, t: Seq<u8>) -> Option<(int, int)> {
        self.matcher.spec_find(t)
    }

    /// Create a new regular expression matcher from the given pattern.
    ///
    /// The function determines which internal matcher works best on the
    /// given pattern and instantiates it to be used during matching.
    pub fn new(pattern: &'p str) -> (r: Result<Regex<'p>, Error>)
        ensures
            r is Ok <==> re_valid(pattern.spec_bytes()),
            r matches Ok(rx) ==> {
                &&& rx.wf()
                &&& rx.spec_pattern() == pattern.spec_bytes()
                &&& rx.spec_strategy() == spec_suggestion(pattern.spec_bytes())
            },
            r matches Err(e) ==> e is Syntax,
    {
        match Matcher::new(pattern) {
            Ok(matcher) => Ok(Regex { matcher }),
            Err(e) => Err(e),
        }
    }

    /// Determines whether the given text contains any matches for the compiled pattern.
    pub fn is_match(&self, text: &str) -> (r: bool)
        requires
            self.wf(),
        ensures
            r == self.spec_find(text.spec_bytes()) is Some,
    {
        self.find(text).is_some()
    }

    /// Finds the first match of the compiled pattern present
    /// in the text, or returns None if no matches are found.
    pub fn find<'t>(&self, text: &'t str) -> (r: Option<Match<'t>>)
        requires
            self.wf(),
        ensures
            match r {
                Some(m) => {
                    &&& self.spec_find(text.spec_bytes()) == Some(
                        (m.spec_start(), m.spec_end()),
                    )
                    &&& 0 <= m.spec_start() <= m.spec_end() <= text.spec_bytes().len()
                    &&& valid_utf8(
                        text.spec_bytes().subrange(m.spec_start(), m.spec_end()),
                    ) ==> encode_utf8(m.spec_text()) == text.spec_bytes().subrange(
                        m.spec_start(),
                        m.spec_end(),
                    )
                    &&& !valid_utf8(
                        text.spec_bytes().subrange(m.spec_start(), m.spec_end()),
                    ) ==> m.spec_text() == Seq::<char>::empty()
                },
                None => self.spec_find(text.spec_bytes()) is None,
            },
    {
        let bytes = text.as_bytes();
        match self.matcher.find_bytes(bytes) {
            Some((start, end)) => {
                let matched = slice_subrange(bytes, start, end);
                let matched_text = crate::engine::bytes_text(matched);
                Some(Match::new(start, end, matched_text))
            },
            None => None,
        }
    }
}

} // verus!
