use vstd::prelude::*;

use crate::engine::{plain_literal, re_find, re_pattern};
use crate::matcher::Regex;
use crate::matchers::longest::{close_run, longest_parse, scan_from, LongestParse};
use crate::matchers::{LongestMatcher, Matcher};
use crate::multimatcher::MultiRegex;
use crate::multimatchers::nothing::naive_find_upto;
use crate::multimatchers::wumanber::{lemma_multi_first_props, multi_first};
use crate::preprocessor::spec_suggestion;
use crate::search::{find_first_from, lemma_find_first_from_some, occurs_at};

verus! {

/// Classifier determinism: the suggestion is a function of the pattern text
/// alone, so classifying the same pattern always yields the same answer.
pub proof fn lemma_classifier_deterministic(p: Seq<u8>, q: Seq<u8>)
    requires
        p == q,
    ensures
        spec_suggestion(p) == spec_suggestion(q),
{
}

/// Idempotence of the single-pattern search: a matcher is never mutated by
/// searching, and what `find` returns is pinned to a function of the matcher
/// and the text, so two calls on the same text agree.
pub proof fn lemma_find_idempotent(rx: Regex, t1: Seq<u8>, t2: Seq<u8>)
    requires
        t1 == t2,
    ensures
        rx.spec_find(t1) == rx.spec_find(t2),
{
}

/// Idempotence of the multi-pattern search, for the same reason.
pub proof fn lemma_multi_find_idempotent(mr: MultiRegex, t1: Seq<u8>, t2: Seq<u8>)
    requires
        t1 == t2,
    ensures
        mr.spec_find(t1) == mr.spec_find(t2),
{
}

/// A pattern without any metacharacter scans into itself: the whole pattern
/// is its own best fragment, its length bounds every match, and the length
/// is known.
pub proof fn lemma_plain_scan(p: Seq<u8>, i: int, st: LongestParse)
    requires
        plain_literal(p),
        0 <= i <= p.len(),
    ensures
        scan_from(p, i, st) == (LongestParse {
            best: st.best,
            current: st.current + p.subrange(i, p.len() as int),
            max_length: st.max_length + (p.len() - i),
            known: st.known,
        }),
    decreases p.len() - i,
{
    if i >= p.len() {
        assert(st.current + p.subrange(i, p.len() as int) =~= st.current);
    } else {
        assert(!crate::engine::regex_meta_byte(p[i]));
        let st1 = LongestParse {
            best: st.best,
            current: st.current.push(p[i]),
            max_length: st.max_length + 1,
            known: st.known,
        };
        lemma_plain_scan(p, i + 1, st1);
        assert(st.current.push(p[i]) + p.subrange(i + 1, p.len() as int) =~= st.current
            + p.subrange(i, p.len() as int));
    }
}

/// Round trip on literal patterns: a nonempty pattern that holds no regex
/// metacharacter behaves identically whether it is searched for verbatim,
/// run through the longest-fragment matcher, or handed to the full engine —
/// each reports the earliest occurrence of the pattern's own bytes.
pub proof fn lemma_literal_round_trip(m: LongestMatcher, t: Seq<u8>)
    requires
        m.wf(),
        plain_literal(re_pattern(m.original)),
        re_pattern(m.original).len() > 0,
    ensures
        ({
            let p = re_pattern(m.original);
            let direct = match find_first_from(t, p, 0) {
                Some(i) => Some((i, i + p.len() as int)),
                None => None,
            };
            &&& re_find(p, t) == direct
            &&& m.find_spec(t) == direct
        }),
{
    let p = re_pattern(m.original);
    let init = LongestParse {
        best: Seq::<u8>::empty(),
        current: Seq::<u8>::empty(),
        max_length: 0,
        known: true,
    };
    lemma_plain_scan(p, 0, init);
    assert(Seq::<u8>::empty() + p.subrange(0, p.len() as int) =~= p);
    assert(longest_parse(p) == close_run(scan_from(p, 0, init)));
    assert(m.best_fragment@ == p && m.max_length == p.len() && m.length_known);

    if t.len() == 0 {
    } else {
        match find_first_from(t, p, 0) {
            None => {
            },
            Some(c) => {
                lemma_find_first_from_some(t, p, 0, c);
                let window = t.subrange(c, c + p.len() as int);
                assert(window == p);
                assert(m.window_spec(t, c) == (c, c + p.len() as int));
                assert(p.subrange(0, p.len() as int) =~= p);
                assert(find_first_from(p, p, 0) == Some(0int));
                assert(re_find(p, window) == Some((0int, p.len() as int)));
                assert(m.locate_spec(t, c).0 == Some((c, c + p.len() as int)));
            },
        }
    }
}

/// Equivalence to the engine on the fallback path: a matcher that uses no
/// heuristic reports exactly what the full engine reports over the whole
/// text.
pub proof fn lemma_fallback_equals_engine(rx: Regex, t: Seq<u8>)
    requires
        rx.matcher matches Matcher::Nothing(nm),
    ensures
        rx.spec_find(t) == re_find(rx.spec_pattern(), t),
{
}

/// Multi-pattern leftmost-wins, on the all-literal path: the automaton's
/// answer is an occurrence of one of the patterns, no pattern occurs
/// anywhere earlier, and on an exact start tie no earlier-listed pattern
/// occurs there.
pub proof fn lemma_multi_leftmost_literal(ps: Seq<Vec<u8>>, t: Seq<u8>)
    ensures
        match multi_first(ps, t, ps.len() as int) {
            None => forall|k: int, s: int|
                #![trigger occurs_at(t, ps[k]@, s)]
                0 <= k < ps.len() ==> !occurs_at(t, ps[k]@, s),
            Some((s0, pid)) => {
                &&& 0 <= pid < ps.len()
                &&& occurs_at(t, ps[pid]@, s0)
                &&& forall|k: int, s: int|
                    #![trigger occurs_at(t, ps[k]@, s)]
                    0 <= k < ps.len() && s < s0 ==> !occurs_at(t, ps[k]@, s)
                &&& forall|k: int| 0 <= k < pid ==> !occurs_at(t, (#[trigger] ps[k])@, s0)
            },
        },
{
    lemma_multi_first_props(ps, t, ps.len() as int);
}

/// Multi-pattern leftmost-wins, on the sequential path: the answer is some
/// matcher's own match, no matcher's own match starts earlier, and among
/// the matchers whose match starts at the same offset the one listed first
/// wins.
pub proof fn lemma_multi_leftmost_sequential(ms: Seq<Matcher>, t: Seq<u8>, upto: int)
    requires
        0 <= upto <= ms.len(),
    ensures
        match naive_find_upto(ms, t, upto) {
            None => forall|k: int|
                0 <= k < upto ==> (#[trigger] ms[k]).spec_find(t) is None,
            Some((s, e)) => {
                &&& exists|k: int|
                    0 <= k < upto && (#[trigger] ms[k]).spec_find(t) == Some((s, e))
                &&& forall|k: int|
                    0 <= k < upto ==> ((#[trigger] ms[k]).spec_find(t) matches Some(p2) ==> s
                        <= p2.0)
                &&& exists|k: int|
                    #![trigger ms[k].spec_find(t)]
                    0 <= k < upto && ms[k].spec_find(t) == Some((s, e)) && (forall|k2: int|
                        0 <= k2 < k ==> ((#[trigger] ms[k2]).spec_find(t) matches Some(p2) ==> s
                            < p2.0))
            },
        },
    decreases upto,
{
    if upto > 0 {
        lemma_multi_leftmost_sequential(ms, t, upto - 1);
        let prev = naive_find_upto(ms, t, upto - 1);
        let cur = ms[upto - 1].spec_find(t);
        match naive_find_upto(ms, t, upto) {
            None => {
            },
            Some((s, e)) => {
                match prev {
                    None => {
                        assert(ms[upto - 1].spec_find(t) == Some((s, e)));
                        assert forall|k2: int| 0 <= k2 < upto - 1 implies ((
                        #[trigger] ms[k2]).spec_find(t) matches Some(p2) ==> s < p2.0) by {
                            assert(ms[k2].spec_find(t) is None);
                        }
                    },
                    Some((ps1, pe1)) => {
                        let kw = choose|k: int|
                            #![trigger ms[k].spec_find(t)]
                            0 <= k < upto - 1 && ms[k].spec_find(t) == Some((ps1, pe1)) && (forall|
                                k2: int,
                            |
                                0 <= k2 < k ==> ((#[trigger] ms[k2]).spec_find(t) matches Some(p2)
                                    ==> ps1 < p2.0));
                        match cur {
                            None => {
                                assert(ms[kw].spec_find(t) == Some((s, e)));
                            },
                            Some((cs, ce)) => {
                                if cs < ps1 {
                                    assert(ms[upto - 1].spec_find(t) == Some((s, e)));
                                    assert forall|k2: int| 0 <= k2 < upto - 1 implies ((
                                    #[trigger] ms[k2]).spec_find(t) matches Some(p2) ==> s
                                        < p2.0) by {}
                                } else {
                                    assert(ms[kw].spec_find(t) == Some((s, e)));
                                }
                            },
                        }
                    },
                }
            },
        }
    }
}

} // verus!
