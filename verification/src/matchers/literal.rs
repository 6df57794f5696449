use vstd::prelude::*;

use crate::matchers::LiteralMatcher;
use crate::search::{find_first_from, find_sub, lemma_find_first_from_some};
use vstd::string::StringSliceAdditionalSpecFns;

verus! {

impl<'p> LiteralMatcher<'p> {
    /// Create a new matcher with the supplied pattern.
    pub fn new(pattern: &'p str) -> (r: LiteralMatcher<'p>)
        ensures
            r.pattern.spec_bytes() == pattern.spec_bytes(),
    {
        LiteralMatcher { pattern }
    }

    /// What `find` returns: the first occurrence of the pattern's bytes in the
    /// text, used verbatim with no escaping semantics.
    pub open spec fn find_spec(&self, t: Seq<u8>) -> Option<(int, int)> {
        match find_first_from(t, self.pattern.spec_bytes(), 0) {
            Some(i) => Some((i, i + self.pattern.spec_bytes().len() as int)),
            None => None,
        }
    }

    /// Find the compiled pattern in the given text bytes.
    pub fn find_bytes(&self, text: &[u8]) -> (r: Option<(usize, usize)>)
        ensures
            match r {
                Some((s, e)) => self.find_spec(text@) == Some((s as int, e as int)) && s <= e
                    <= text@.len(),
                None => self.find_spec(text@) is None,
            },
    {
        let pat = self.pattern.as_bytes();
        let text_len = text.len();
        let result = find_sub(text, pat);

        if let Some(start) = result {
            proof {
                lemma_find_first_from_some(text@, pat@, 0, start as int);
            }
            assert(start + pat@.len() <= text_len);
            let end = start + pat.len();
            Some((start, end))
        } else {
            None
        }
    }
}

} // verus!
