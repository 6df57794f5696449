use vstd::prelude::*;

use crate::engine::re_valid;
use crate::matchers::longest::longest_parse;
use crate::matchers::Matcher;
use crate::multimatchers::nothing::naive_find_upto;
use crate::multimatchers::wumanber::multi_first;
use crate::multimatchers::{LiteralMultiMatcher, LongestMultiMatcher, NothingMultiMatcher};
use crate::preprocessor::{spec_suggestion, Preprocessor, Suggestion};
use crate::types::{Error, Match};
use vstd::slice::slice_subrange;
use vstd::string::StringSliceAdditionalSpecFns;
use vstd::utf8::{encode_utf8, valid_utf8};

verus! {

/// Every pattern compiles on the full engine.
pub open spec fn all_valid(pats: Seq<&str>) -> bool {
    forall|k: int|
        0 <= k < pats.len() ==> re_valid((#[trigger] pats[k]).spec_bytes())
}

/// Every pattern classifies as a plain literal.
pub open spec fn all_literal(pats: Seq<&str>) -> bool {
    forall|k: int|
        0 <= k < pats.len() ==> spec_suggestion((#[trigger] pats[k]).spec_bytes())
            == Suggestion::Literal
}

/// Some pattern needs the sequential path: it classifies as prefix or as
/// nothing at all.
pub open spec fn any_sequential(pats: Seq<&str>) -> bool {
    exists|k: int|
        0 <= k < pats.len() && (spec_suggestion((#[trigger] pats[k]).spec_bytes())
            == Suggestion::Prefix || spec_suggestion(pats[k].spec_bytes()) == Suggestion::Nothing)
}

/// When the multi-pattern constructor succeeds: at least one valid pattern,
/// and on the two automaton-backed paths every searched string spans at
/// least one block.
pub open spec fn spec_can_build(pats: Seq<&str>) -> bool {
    &&& pats.len() > 0
    &&& all_valid(pats)
    &&& if pats.len() == 1 {
        true
    } else if all_literal(pats) {
        forall|k: int| 0 <= k < pats.len() ==> 2 <= (#[trigger] pats[k]).spec_bytes().len()
    } else if any_sequential(pats) {
        true
    } else {
        forall|k: int|
            0 <= k < pats.len() ==> 2 <= longest_parse((#[trigger] pats[k]).spec_bytes()).best.len()
    }
}

/// One concrete multi-pattern matcher, chosen at construction time.
pub enum MultiMatcher<'p> {
    Single(Matcher<'p>),
    Literal(LiteralMultiMatcher),
    Longest(LongestMultiMatcher),
    Nothing(NothingMultiMatcher<'p>),
}

impl<'p> MultiMatcher<'p> {
    /// The chosen matcher agrees with the patterns it was built from.
    pub open spec fn wf(&self) -> bool {
        match self {
            MultiMatcher::Single(m) => m.wf(),
            MultiMatcher::Literal(m) => m.wf(),
            MultiMatcher::Longest(m) => m.wf(),
            MultiMatcher::Nothing(m) => m.wf(),
        }
    }

    /// The byte offsets `find` reports over the given text bytes.
    pub open spec fn spec_find(&self, t: Seq<u8>) -> Option<(int, int)> {
        match self {
            MultiMatcher::Single(m) => m.spec_find(t),
            MultiMatcher::Literal(m) => m.find_spec(t),
            MultiMatcher::Longest(m) => m.find_spec(t),
            MultiMatcher::Nothing(m) => m.find_spec(t),
        }
    }

    /// Finds the first match of any compiled pattern in the given text bytes.
    pub fn find_bytes(&self, text: &[u8]) -> (r: Option<(usize, usize)>)
        requires
            self.wf(),
        ensures
            match r {
                Some((s, e)) => self.spec_find(text@) == Some((s as int, e as int)) && s <= e
                    <= text@.len(),
                None => self.spec_find(text@) is None,
            },
    {
        match self {
            MultiMatcher::Single(m) => m.find_bytes(text),
            MultiMatcher::Literal(m) => m.find_bytes(text),
            MultiMatcher::Longest(m) => m.find_bytes(text),
            MultiMatcher::Nothing(m) => m.find_bytes(text),
        }
    }
}

/// A compiled regular expression pattern matcher. Can be used to find the first
/// occurrence of any one of the supplied extended regular expression patterns
/// in a given string.
///
/// The underlying algorithm depends on the structures of the patterns, which are
/// analyzed during the compilation phase. This implementation dynamically chooses
/// the best performing algorithm for any given set of patterns.
pub struct MultiRegex<'p> {
    /// A specific matcher implementation that will be used for searching.
    pub matcher: MultiMatcher<'p>,
}

impl<'p> MultiRegex<'p> {
    /// The chosen matcher agrees with the patterns it was built from.
    pub open spec fn wf(&self) -> bool {
        self.matcher.wf()
    }

    /// The byte offsets `find` reports over the given text bytes.
    pub open spec fn spec_find(&self, t: Seq<u8>) -> Option<(int, int)> {
        self.matcher.spec_find(t)
    }

    /// Create a new regular expression matcher from the given patterns.
    ///
    /// The function determines which internal matcher works best on the
    /// given patterns and instantiates it to be used during matching.
    pub fn new(patterns: &'p [&'p str]) -> (r: Result<MultiRegex<'p>, Error>)
        ensures
            r is Ok <==> spec_can_build(patterns@),
            r matches Ok(m) ==> {
                &&& m.wf()
                &&& (patterns@.len() == 1 ==> (m.matcher matches MultiMatcher::Single(sm)
                    && sm.spec_pattern() == patterns@[0].spec_bytes() && sm.spec_strategy()
                    == spec_suggestion(patterns@[0].spec_bytes())))
                &&& (patterns@.len() > 1 && all_literal(patterns@)
                    ==> (m.matcher matches MultiMatcher::Literal(lm) && lm.matcher.patterns@.len()
                    == patterns@.len() && (forall|k: int|
                    0 <= k < patterns@.len() ==> (#[trigger] lm.matcher.patterns@[k])@
                        == patterns@[k].spec_bytes())))
                &&& (patterns@.len() > 1 && !all_literal(patterns@) && any_sequential(patterns@)
                    ==> (m.matcher matches MultiMatcher::Nothing(nm) && nm.matchers@.len()
                    == patterns@.len() && (forall|k: int|
                    0 <= k < patterns@.len() ==> (#[trigger] nm.matchers@[k]).spec_pattern()
                        == patterns@[k].spec_bytes() && nm.matchers@[k].spec_strategy()
                        == spec_suggestion(patterns@[k].spec_bytes()))))
                &&& (patterns@.len() > 1 && !all_literal(patterns@) && !any_sequential(patterns@)
                    ==> (m.matcher matches MultiMatcher::Longest(om) && om.matchers@.len()
                    == patterns@.len() && (forall|k: int|
                    0 <= k < patterns@.len() ==> crate::engine::re_pattern(
                        (#[trigger] om.matchers@[k]).original,
                    ) == patterns@[k].spec_bytes())))
            },
            patterns@.len() == 0 ==> (r matches Err(e) && e is Argument),
            patterns@.len() > 0 && !all_valid(patterns@) ==> (r matches Err(e) && e is Syntax),
            patterns@.len() > 0 && all_valid(patterns@) && !spec_can_build(patterns@) ==> (
            r matches Err(e) && e is Argument),
            r matches Err(e) ==> e is Syntax || e is Argument,
    {
        // Assert that at least one pattern is present.
        if patterns.len() == 0 {
            return Err(Error::Argument("No patterns were specified!"));
        }

        // Preprocess each pattern; the first error aborts the construction.
        let mut all_lit = true;
        let mut any_seq = false;
        let mut k: usize = 0;
        while k < patterns.len()
            invariant
                k <= patterns@.len(),
                forall|x: int|
                    0 <= x < k ==> re_valid((#[trigger] patterns@[x]).spec_bytes()),
                all_lit == (forall|x: int|
                    0 <= x < k ==> spec_suggestion((#[trigger] patterns@[x]).spec_bytes())
                        == Suggestion::Literal),
                any_seq == (exists|x: int|
                    0 <= x < k && (spec_suggestion((#[trigger] patterns@[x]).spec_bytes())
                        == Suggestion::Prefix || spec_suggestion(patterns@[x].spec_bytes())
                        == Suggestion::Nothing)),
            decreases patterns@.len() - k,
        {
            let pattern: &str = patterns[k];
            match Preprocessor::new(pattern).determine_type() {
                Ok(s) => {
                    match s {
                        Suggestion::Literal => {},
                        Suggestion::Longest => {
                            all_lit = false;
                        },
                        Suggestion::Prefix => {
                            all_lit = false;
                            any_seq = true;
                        },
                        Suggestion::Nothing => {
                            all_lit = false;
                            any_seq = true;
                        },
                    }
                },
                Err(e) => {
                    return Err(e);
                },
            }
            k += 1;
        }

        // If only one pattern is present, use the proper single pattern matcher.
        if patterns.len() == 1 {
            let pattern: &str = patterns[0];
            return match Matcher::new(pattern) {
                Ok(m) => Ok(MultiRegex { matcher: MultiMatcher::Single(m) }),
                Err(e) => Err(e),
            };
        }

        // If all of the patterns are literal, we can use the Wu-Manber matcher directly.
        if all_lit {
            return match LiteralMultiMatcher::new(patterns) {
                Ok(m) => Ok(MultiRegex { matcher: MultiMatcher::Literal(m) }),
                Err(e) => Err(e),
            };
        }

        // If any one pattern cannot be used with the literal or the longest matcher,
        // we'll run the naive algorithm that checks each pattern sequentially.
        if any_seq {
            return match NothingMultiMatcher::new(patterns) {
                Ok(m) => Ok(MultiRegex { matcher: MultiMatcher::Nothing(m) }),
                Err(e) => Err(e),
            };
        }

        // Otherwise, every pattern uses either the longest or the literal heuristics, but
        // we can't use the Wu-Manber matcher directly, as at least one pattern isn't literal.
        match LongestMultiMatcher::new(patterns) {
            Ok(m) => Ok(MultiRegex { matcher: MultiMatcher::Longest(m) }),
            Err(e) => Err(e),
        }
    }

    /// Determines whether the given text contains any matches for the compiled patterns.
    pub fn is_match(&self, text: &str) -> (r: bool)
        requires
            self.wf(),
        ensures
            r == self.spec_find(text.spec_bytes()) is Some,
    {
        self.find(text).is_some()
    }

    /// Finds the first match of the compiled patterns present
    /// in the text, or returns None if no matches are found.
    pub fn find<'t>(&self, text: &'t str) -> (r: Option<Match<'t>>)
        requires
            self.wf(),
        ensures
            match r {
                Some(m) => {
                    &&& self.spec_find(text.spec_bytes()) == Some(
                        (m.spec_start(), m.spec_end()),
                    )
                    &&& 0 <= m.spec_start() <= m.spec_end() <= text.spec_bytes().len()
                    &&& valid_utf8(
                        text.spec_bytes().subrange(m.spec_start(), m.spec_end()),
                    ) ==> encode_utf8(m.spec_text()) == text.spec_bytes().subrange(
                        m.spec_start(),
                        m.spec_end(),
                    )
                    &&& !valid_utf8(
                        text.spec_bytes().subrange(m.spec_start(), m.spec_end()),
                    ) ==> m.spec_text() == Seq::<char>::empty()
                },
                None => self.spec_find(text.spec_bytes()) is None,
            },
    {
        let bytes = text.as_bytes();
        match self.matcher.find_bytes(bytes) {
            Some((start, end)) => {
                let matched = slice_subrange(bytes, start, end);
                let matched_text = crate::engine::bytes_text(matched);
                Some(Match::new(start, end, matched_text))
            },
            None => None,
        }
    }
}

} // verus!
