pub mod framework;
pub mod parser;
pub mod regex_parser;
pub mod laws;
pub mod multimatcher;
pub mod multimatchers;
pub mod matcher;
pub mod matchers;
pub mod preprocessor;
pub mod engine;
pub mod search;
pub mod types;

use vstd::prelude::*;
use vstd::string::StringSliceAdditionalSpecFns;

verus! {

broadcast use vstd::string::group_string_axioms;

/// A common trait shared by the `Regex` and `MultiRegex` structs. Can be used
/// for dispatch between the two matchers.
pub trait RegexMatcher {
    /// The matcher's internal state agrees with what it was built from.
    spec fn search_wf(&self) -> bool;

    /// The byte offsets a search reports over the given text bytes.
    spec fn spec_search(&self, t: Seq<u8>) -> Option<(int, int)>;

    /// Determines whether the given text contains any matches for the compiled pattern(s).
    fn is_match(&self, text: &str) -> (r: bool)
        requires
            self.search_wf(),
        ensures
            r == self.spec_search(text.spec_bytes()) is Some,
    ;

    /// Finds the first match of the compiled pattern(s) present
    /// in the text, or returns None if no matches are found.
    fn find<'t>(&self, text: &'t str) -> (r: Option<crate::types::Match<'t>>)
        requires
            self.search_wf(),
        ensures
            match r {
                Some(m) => self.spec_search(text.spec_bytes()) == Some(
                    (m.spec_start(), m.spec_end()),
                ) && 0 <= m.spec_start() <= m.spec_end() <= text.spec_bytes().len(),
                None => self.spec_search(text.spec_bytes()) is None,
            },
    ;
}

impl<'p> RegexMatcher for crate::matcher::Regex<'p> {
    open spec fn search_wf(&self) -> bool {
        self.wf()
    }

    open spec fn spec_search(&self, t: Seq<u8>) -> Option<(int, int)> {
        self.spec_find(t)
    }

    fn is_match(&self, text: &str) -> (r: bool) {
        crate::matcher::Regex::is_match(self, text)
    }

    fn find<'t>(&self, text: &'t str) -> (r: Option<crate::types::Match<'t>>) {
        crate::matcher::Regex::find(self, text)
    }
}

impl<'p> RegexMatcher for crate::multimatcher::MultiRegex<'p> {
    open spec fn search_wf(&self) -> bool {
        self.wf()
    }

    open spec fn spec_search(&self, t: Seq<u8>) -> Option<(int, int)> {
        self.spec_find(t)
    }

    fn is_match(&self, text: &str) -> (r: bool) {
        crate::multimatcher::MultiRegex::is_match(self, text)
    }

    fn find<'t>(&self, text: &'t str) -> (r: Option<crate::types::Match<'t>>) {
        crate::multimatcher::MultiRegex::find(self, text)
    }
}

} // verus!
