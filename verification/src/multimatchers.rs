use vstd::prelude::*;

pub mod literal;
pub mod longest;
pub mod nothing;
pub mod wumanber;

use crate::matchers::{LongestMatcher, Matcher};
use crate::multimatchers::wumanber::WuManber;

verus! {

/// A literal pattern matcher implementation. Technically
/// nothing more than a wrapper for the Wu-Manber search algorithm.
pub struct LiteralMultiMatcher {
    /// The compiled Wu-Manber search algorithm instance.
    pub matcher: WuManber,
}

/// A multimatcher implementation that operates on patterns that can be
/// processed using the longest heuristic type.
pub struct LongestMultiMatcher {
    /// One matcher for each input pattern.
    pub matchers: Vec<LongestMatcher>,
    /// The compiled Wu-Manber instance for the best pattern fragments.
    pub best_matcher: WuManber,
}

/// A multimatcher implementation that can process any and every pattern,
/// but the resulting search may not be as quick as other implementations.
pub struct NothingMultiMatcher<'p> {
    /// One matcher for each input pattern.
    pub matchers: Vec<Matcher<'p>>,
}

} // verus!
