use vstd::prelude::*;

use crate::multimatchers::wumanber::{
    lemma_multi_first_props, lemma_multi_first_unique, multi_first, WuManber,
};
use crate::multimatchers::LiteralMultiMatcher;
use crate::search::occurs_at;
use crate::types::Error;
use vstd::string::StringSliceAdditionalSpecFns;

verus! {

impl LiteralMultiMatcher {
    /// The held automaton is well formed.
    pub open spec fn wf(&self) -> bool {
        self.matcher.wf()
    }

    /// What `find` returns: the earliest-starting occurrence of any pattern,
    /// ties going to the pattern listed first.
    pub open spec fn find_spec(&self, t: Seq<u8>) -> Option<(int, int)> {
        match multi_first(
            self.matcher.patterns@,
            t,
            self.matcher.patterns@.len() as int,
        ) {
            Some((s, k)) => Some((s, s + self.matcher.patterns@[k]@.len())),
            None => None,
        }
    }

    /// Finds any one of the compiled patterns in the given text bytes.
    pub fn find_bytes(&self, text: &[u8]) -> (r: Option<(usize, usize)>)
        requires
            self.wf(),
        ensures
            match r {
                Some((s, e)) => self.find_spec(text@) == Some((s as int, e as int)) && s <= e
                    <= text@.len(),
                None => self.find_spec(text@) is None,
            },
    {
        let tl = text.len();
        match self.matcher.find_bytes(text) {
            Some((start, pid)) => {
                proof {
                    lemma_multi_first_unique(self.matcher.patterns@, text@, start as int, pid as int);
                }
                let plen = self.matcher.patterns[pid].len();
                assert(start + plen <= tl);
                Some((start, start + plen))
            },
            None => {
                proof {
                    lemma_multi_first_props(
                        self.matcher.patterns@,
                        text@,
                        self.matcher.patterns@.len() as int,
                    );
                    if let Some((s2, k2)) = multi_first(
                        self.matcher.patterns@,
                        text@,
                        self.matcher.patterns@.len() as int,
                    ) {
                        assert(occurs_at(text@, self.matcher.patterns@[k2]@, s2));
                    }
                }
                None
            },
        }
    }

    /// Create a new matcher with the supplied patterns.
    pub fn new(patterns: &[&str]) -> (r: Result<LiteralMultiMatcher, Error>)
        ensures
            r is Ok <==> (patterns@.len() > 0 && forall|k: int|
                0 <= k < patterns@.len() ==> 2 <= (#[trigger] patterns@[k]).spec_bytes().len()),
            r matches Ok(m) ==> {
                &&& m.wf()
                &&& m.matcher.b == 2
                &&& m.matcher.patterns@.len() == patterns@.len()
                &&& forall|k: int|
                    0 <= k < patterns@.len() ==> (#[trigger] m.matcher.patterns@[k])@
                        == patterns@[k].spec_bytes()
            },
            r matches Err(e) ==> e is Argument,
    {
        match WuManber::new(patterns, 2) {
            Ok(matcher) => Ok(LiteralMultiMatcher { matcher }),
            Err(e) => Err(e),
        }
    }
}

} // verus!
