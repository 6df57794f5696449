use vstd::prelude::*;

use crate::engine::re_valid;
use crate::matchers::Matcher;
use crate::multimatchers::NothingMultiMatcher;
use crate::preprocessor::spec_suggestion;
use crate::types::Error;
use vstd::string::StringSliceAdditionalSpecFns;

verus! {

/// The best answer among the first `upto` matchers: the earliest-starting
/// match wins, and on an exact tie the matcher listed first does.
pub open spec fn naive_find_upto(ms: Seq<Matcher>, t: Seq<u8>, upto: int) -> Option<(int, int)>
    decreases upto,
{
    if upto <= 0 {
        None
    } else {
        let prev = naive_find_upto(ms, t, upto - 1);
        let cur = ms[upto - 1].spec_find(t);
        match prev {
            None => cur,
            Some((ps, pe)) => match cur {
                None => Some((ps, pe)),
                Some((cs, ce)) => if cs < ps {
                    Some((cs, ce))
                } else {
                    Some((ps, pe))
                },
            },
        }
    }
}

impl<'p> NothingMultiMatcher<'p> {
    /// Every held matcher agrees with its own pattern.
    pub open spec fn wf(&self) -> bool {
        forall|k: int|
            0 <= k < self.matchers@.len() ==> (#[trigger] self.matchers@[k]).wf()
    }

    /// What `find` returns over the given text bytes.
    pub open spec fn find_spec(&self, t: Seq<u8>) -> Option<(int, int)> {
        naive_find_upto(self.matchers@, t, self.matchers@.len() as int)
    }

    /// Create a new matcher with the supplied patterns; the first pattern
    /// that fails to classify aborts the construction with its error.
    pub fn new(patterns: &'p [&'p str]) -> (r: Result<NothingMultiMatcher<'p>, Error>)
        ensures
            r is Ok <==> (forall|k: int|
                0 <= k < patterns@.len() ==> re_valid((#[trigger] patterns@[k]).spec_bytes())),
            r matches Ok(m) ==> {
                &&& m.wf()
                &&& m.matchers@.len() == patterns@.len()
                &&& forall|k: int|
                    0 <= k < patterns@.len() ==> (#[trigger] m.matchers@[k]).spec_pattern()
                        == patterns@[k].spec_bytes() && m.matchers@[k].spec_strategy()
                        == spec_suggestion(patterns@[k].spec_bytes())
            },
            r matches Err(e) ==> e is Syntax,
    {
        let mut matchers: Vec<Matcher<'p>> = Vec::new();

        // For each pattern, determine type and construct matcher.
        let mut k: usize = 0;
        while k < patterns.len()
            invariant
                k <= patterns@.len(),
                matchers@.len() == k,
                forall|x: int|
                    0 <= x < k ==> re_valid((#[trigger] patterns@[x]).spec_bytes()),
                forall|x: int|
                    0 <= x < k ==> (#[trigger] matchers@[x]).wf() && matchers@[x].spec_pattern()
                        == patterns@[x].spec_bytes() && matchers@[x].spec_strategy()
                        == spec_suggestion(patterns@[x].spec_bytes()),
            decreases patterns@.len() - k,
        {
            let pattern: &str = patterns[k];
            match Matcher::new(pattern) {
                Ok(m) => {
                    matchers.push(m);
                },
                Err(e) => {
                    return Err(e);
                },
            }
            k += 1;
        }

        Ok(NothingMultiMatcher { matchers })
    }

    /// Finds the match with the earliest start among all compiled patterns'
    /// own matches in the given text bytes.
    pub fn find_bytes(&self, text: &[u8]) -> (r: Option<(usize, usize)>)
        requires
            self.wf(),
        ensures
            match r {
                Some((s, e)) => self.find_spec(text@) == Some((s as int, e as int)) && s <= e
                    <= text@.len(),
                None => self.find_spec(text@) is None,
            },
    {
        let mut best: Option<(usize, usize)> = None;

        // Try matching each pattern, and keep the match with the earliest start.
        let mut k: usize = 0;
        while k < self.matchers.len()
            invariant
                self.wf(),
                k <= self.matchers@.len(),
                match best {
                    Some((s, e)) => naive_find_upto(self.matchers@, text@, k as int) == Some(
                        (s as int, e as int),
                    ) && s <= e <= text@.len(),
                    None => naive_find_upto(self.matchers@, text@, k as int) is None,
                },
            decreases self.matchers@.len() - k,
        {
            let matcher: &Matcher = &self.matchers[k];
            let result = matcher.find_bytes(text);
            if let Some((cs, ce)) = result {
                best = match best {
                    None => Some((cs, ce)),
                    Some((ps, pe)) => if cs < ps {
                        Some((cs, ce))
                    } else {
                        Some((ps, pe))
                    },
                };
            }
            k += 1;
        }

        // Return with the best match. May be none if none of the matchers matched.
        best
    }
}

} // verus!
