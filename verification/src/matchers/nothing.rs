use vstd::prelude::*;

use crate::engine::{compile_engine, engine_find, lemma_re_find_bounds, re_find, re_pattern, re_valid};
use crate::matchers::NothingMatcher;
use crate::types::Error;
use vstd::string::StringSliceAdditionalSpecFns;

verus! {

impl NothingMatcher {
    /// Create a new matcher with the supplied pattern.
    pub fn new(pattern: &str) -> (r: Result<NothingMatcher, Error>)
        ensures
            r is Ok <==> re_valid(pattern.spec_bytes()),
            r matches Ok(m) ==> re_pattern(m.original) == pattern.spec_bytes(),
            r matches Err(e) ==> e is Syntax,
    {
        match compile_engine(pattern) {
            Some(original) => Ok(NothingMatcher { original }),
            None => Err(Error::Syntax("Pattern compilation failed.")),
        }
    }

    /// What `find` returns: exactly what the full engine reports over the
    /// whole text, with no optimization.
    pub open spec fn find_spec(&self, t: Seq<u8>) -> Option<(int, int)> {
        re_find(re_pattern(self.original), t)
    }

    /// Find the compiled pattern in the given text bytes.
    pub fn find_bytes(&self, text: &[u8]) -> (r: Option<(usize, usize)>)
        ensures
            match r {
                Some((s, e)) => self.find_spec(text@) == Some((s as int, e as int)) && s <= e
                    <= text@.len(),
                None => self.find_spec(text@) is None,
            },
    {
        proof {
            lemma_re_find_bounds(re_pattern(self.original), text@);
        }
        engine_find(&self.original, text)
    }
}

} // verus!
