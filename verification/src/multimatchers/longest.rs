use vstd::prelude::*;

use crate::engine::{re_pattern, re_valid};
use crate::matchers::longest::longest_parse;
use crate::matchers::LongestMatcher;
use crate::multimatchers::wumanber::{
    lemma_multi_first_props, lemma_multi_first_unique, multi_first, WuManber,
};
use crate::multimatchers::LongestMultiMatcher;
use crate::search::occurs_at;
use crate::types::Error;
use vstd::slice::{slice_subrange, slice_to_vec};
use vstd::string::StringSliceAdditionalSpecFns;

verus! {

impl LongestMultiMatcher {
    /// Every held matcher agrees with its own pattern, and the automaton
    /// searches for exactly their best fragments.
    pub open spec fn wf(&self) -> bool {
        &&& forall|k: int|
            0 <= k < self.matchers@.len() ==> (#[trigger] self.matchers@[k]).wf()
        &&& self.best_matcher.wf()
        &&& self.best_matcher.patterns@.len() == self.matchers@.len()
        &&& forall|k: int|
            0 <= k < self.matchers@.len() ==> (#[trigger] self.best_matcher.patterns@[k])@
                == self.matchers@[k].best_fragment@
    }

    /// What `find` returns: fragment candidates come from the automaton,
    /// earliest first; each is verified by its own pattern's windowing, and
    /// a failed candidate advances the search past that window.
    pub open spec fn find_spec(&self, t: Seq<u8>) -> Option<(int, int)>
        decreases t.len(),
    {
        if t.len() == 0 {
            None
        } else {
            match multi_first(
                self.best_matcher.patterns@,
                t,
                self.best_matcher.patterns@.len() as int,
            ) {
                None => None,
                Some((c, id)) => {
                    let located = self.matchers@[id].locate_spec(t, c);
                    match located.0 {
                        Some(m) => Some(m),
                        None => {
                            let adv0 = if located.1 < 1 {
                                1
                            } else {
                                located.1
                            };
                            let adv = if adv0 > t.len() {
                                t.len() as int
                            } else {
                                adv0
                            };
                            match self.find_spec(t.subrange(adv, t.len() as int)) {
                                Some((a, b)) => Some((a + adv, b + adv)),
                                None => None,
                            }
                        },
                    }
                },
            }
        }
    }

    /// Finds any one of the compiled patterns in the given text bytes.
    pub fn find_bytes(&self, text: &[u8]) -> (r: Option<(usize, usize)>)
        requires
            self.wf(),
        ensures
            match r {
                Some((s, e)) => self.find_spec(text@) == Some((s as int, e as int)) && s <= e
                    <= text@.len(),
                None => self.find_spec(text@) is None,
            },
    {
        // Create a shrinking text slice and a global offset.
        let text_len = text.len();
        let mut cur: &[u8] = text;
        let mut offset: usize = 0;
        proof {
            lemma_lmm_find_bounds(self, text@);
        }

        // This loop searches for fragment candidates from any pattern. A
        // candidate that does not verify advances the slice past its window.
        while cur.len() > 0
            invariant
                self.wf(),
                offset + cur@.len() == text@.len(),
                text@.len() <= usize::MAX,
                match self.find_spec(cur@) {
                    Some((a, b)) => self.find_spec(text@) == Some((a + offset, b + offset)) && 0
                        <= a <= b <= cur@.len(),
                    None => self.find_spec(text@) is None,
                },
            decreases cur@.len(),
        {
            let ghost n = self.best_matcher.patterns@.len() as int;
            // Search for any best fragment. If none is present, no match can be found.
            let found = self.best_matcher.find_bytes(cur);
            let (c, pid) = match found {
                Some(pair) => pair,
                None => {
                    proof {
                        lemma_multi_first_props(self.best_matcher.patterns@, cur@, n);
                        if let Some((s2, k2)) = multi_first(self.best_matcher.patterns@, cur@, n) {
                            assert(occurs_at(cur@, self.best_matcher.patterns@[k2]@, s2));
                        }
                    }
                    return None;
                },
            };
            proof {
                lemma_multi_first_unique(self.best_matcher.patterns@, cur@, c as int, pid as int);
                assert(self.matchers@[pid as int].wf());
                assert(self.best_matcher.patterns@[pid as int]@
                    == self.matchers@[pid as int].best_fragment@);
            }

            // Locate the possible match with the candidate pattern's own matcher.
            let located = self.matchers[pid].locate_near(cur, c);

            // If we found something, return with the match.
            if let Some((s, e)) = located.0 {
                return Some((offset + s, offset + e));
            }

            // Else advance the search range, at least one byte, and retry.
            let ghost prev = cur@;
            let mut adv = located.1;
            if adv < 1 {
                adv = 1;
            }
            if adv > cur.len() {
                adv = cur.len();
            }
            cur = slice_subrange(cur, adv, cur.len());
            offset += adv;
            proof {
                lemma_lmm_find_bounds(self, cur@);
                assert(self.find_spec(prev) == (match self.find_spec(cur@) {
                    Some((a, b)) => Some((a + adv, b + adv)),
                    None => None::<(int, int)>,
                }));
            }
        }
        None
    }

    /// Create a new matcher with the supplied patterns; the first pattern
    /// that fails to classify aborts the construction with its error, and a
    /// best fragment shorter than one block rejects the set.
    pub fn new(patterns: &[&str]) -> (r: Result<LongestMultiMatcher, Error>)
        ensures
            r is Ok <==> (patterns@.len() > 0 && (forall|k: int|
                0 <= k < patterns@.len() ==> re_valid((#[trigger] patterns@[k]).spec_bytes()))
                && (forall|k: int|
                0 <= k < patterns@.len() ==> 2 <= longest_parse(
                    (#[trigger] patterns@[k]).spec_bytes(),
                ).best.len())),
            r matches Ok(m) ==> {
                &&& m.wf()
                &&& m.matchers@.len() == patterns@.len()
                &&& forall|k: int|
                    0 <= k < patterns@.len() ==> re_pattern(
                        (#[trigger] m.matchers@[k]).original,
                    ) == patterns@[k].spec_bytes()
            },
            r matches Err(e) ==> e is Syntax || e is Argument,
            (patterns@.len() > 0 && (forall|k: int|
                0 <= k < patterns@.len() ==> re_valid((#[trigger] patterns@[k]).spec_bytes()))
                && r is Err) ==> (r matches Err(e) && e is Argument),
    {
        // Build each matcher.
        let mut matchers: Vec<LongestMatcher> = Vec::new();
        let mut k: usize = 0;
        while k < patterns.len()
            invariant
                k <= patterns@.len(),
                matchers@.len() == k,
                forall|x: int|
                    0 <= x < k ==> re_valid((#[trigger] patterns@[x]).spec_bytes()),
                forall|x: int|
                    0 <= x < k ==> (#[trigger] matchers@[x]).wf() && re_pattern(
                        matchers@[x].original,
                    ) == patterns@[x].spec_bytes(),
            decreases patterns@.len() - k,
        {
            let pattern: &str = patterns[k];
            match LongestMatcher::new(pattern) {
                Ok(m) => {
                    matchers.push(m);
                },
                Err(e) => {
                    return Err(e);
                },
            }
            k += 1;
        }

        // Gather each best fragment.
        let mut best_fragments: Vec<Vec<u8>> = Vec::new();
        let mut k2: usize = 0;
        while k2 < matchers.len()
            invariant
                k2 <= matchers@.len(),
                best_fragments@.len() == k2,
                matchers@.len() == patterns@.len(),
                forall|x: int|
                    0 <= x < matchers@.len() ==> re_valid((#[trigger] patterns@[x]).spec_bytes()),
                forall|x: int|
                    0 <= x < matchers@.len() ==> (#[trigger] matchers@[x]).wf() && re_pattern(
                        matchers@[x].original,
                    ) == patterns@[x].spec_bytes(),
                forall|x: int|
                    0 <= x < k2 ==> (#[trigger] best_fragments@[x])@
                        == matchers@[x].best_fragment@,
            decreases matchers@.len() - k2,
        {
            let m: &LongestMatcher = &matchers[k2];
            best_fragments.push(slice_to_vec(m.best_fragment.as_slice()));
            k2 += 1;
        }

        proof {
            assert forall|x: int| 0 <= x < patterns@.len() implies (
            #[trigger] best_fragments@[x])@ == longest_parse(patterns@[x].spec_bytes()).best by {
                assert(matchers@[x].wf());
            }
        }
        let ghost frags = best_fragments@;

        // Create the Wu-Manber struct over the fragments.
        match WuManber::from_byte_patterns(best_fragments, 2) {
            Ok(best_matcher) => {
                proof {
                    assert forall|x: int|
                        0 <= x < patterns@.len() implies 2 <= longest_parse(
                        (#[trigger] patterns@[x]).spec_bytes(),
                    ).best.len() by {
                        assert(frags[x]@ == longest_parse(patterns@[x].spec_bytes()).best);
                        assert(2 <= frags[x]@.len());
                    }
                }
                Ok(LongestMultiMatcher { matchers, best_matcher })
            },
            Err(e) => {
                proof {
                    if patterns@.len() > 0 && (forall|k: int|
                        0 <= k < patterns@.len() ==> re_valid(
                            (#[trigger] patterns@[k]).spec_bytes(),
                        )) && (forall|k: int|
                        0 <= k < patterns@.len() ==> 2 <= longest_parse(
                            (#[trigger] patterns@[k]).spec_bytes(),
                        ).best.len()) {
                        assert forall|x: int| 0 <= x < frags.len() implies 2 <= (
                        #[trigger] frags[x])@.len() by {
                            assert(frags[x]@ == longest_parse(patterns@[x].spec_bytes()).best);
                            assert(2 <= longest_parse(patterns@[x].spec_bytes()).best.len());
                        }
                        assert(false);
                    }
                }
                Err(e)
            },
        }
    }
}

/// A `Some` answer of `find_spec` is a well-formed range of the text.
pub proof fn lemma_lmm_find_bounds(m: &LongestMultiMatcher, t: Seq<u8>)
    requires
        m.wf(),
    ensures
        m.find_spec(t) matches Some((a, b)) ==> 0 <= a <= b <= t.len(),
    decreases t.len(),
{
    let n = m.best_matcher.patterns@.len() as int;
    if t.len() == 0 {
    } else {
        lemma_multi_first_props(m.best_matcher.patterns@, t, n);
        if let Some((c, id)) = multi_first(m.best_matcher.patterns@, t, n) {
            assert(occurs_at(t, m.best_matcher.patterns@[id]@, c));
            assert(m.matchers@[id].wf());
            assert(m.best_matcher.patterns@[id]@ == m.matchers@[id].best_fragment@);
            m.matchers@[id].lemma_window(t, c);
            let located = m.matchers@[id].locate_spec(t, c);
            crate::engine::lemma_re_find_bounds(
                re_pattern(m.matchers@[id].original),
                t.subrange(
                    m.matchers@[id].window_spec(t, c).0,
                    m.matchers@[id].window_spec(t, c).1,
                ),
            );
            if located.0 is None {
                let adv0 = if located.1 < 1 {
                    1int
                } else {
                    located.1
                };
                let adv = if adv0 > t.len() {
                    t.len() as int
                } else {
                    adv0
                };
                lemma_lmm_find_bounds(m, t.subrange(adv, t.len() as int));
            }
        }
    }
}

} // verus!
