use vstd::prelude::*;

use crate::engine::{compile_engine, engine_find, lemma_re_find_bounds, re_find, re_pattern, re_valid};
use crate::matchers::LongestMatcher;
use crate::search::{
    find_byte_from, find_first_from, find_sub, lemma_find_byte_from_some,
    lemma_find_first_from_some, lemma_rfind_byte_before_some, rfind_byte_before, scan_byte_before,
    scan_byte_from,
};
use crate::types::Error;
use vstd::slice::slice_subrange;
use vstd::string::StringSliceAdditionalSpecFns;

verus! {

/// The running state of the fragment scan over a pattern.
pub struct LongestParse {
    /// The longest run closed so far.
    pub best: Seq<u8>,
    /// The run being accumulated.
    pub current: Seq<u8>,
    /// An upper bound on the byte length of a match, valid while `known` holds.
    pub max_length: int,
    /// Whether the maximum length of a match can be decided.
    pub known: bool,
}

/// Removes the last character from a fragment: any trailing continuation
/// bytes together with the byte that leads them.
pub open spec fn pop_char(s: Seq<u8>) -> Seq<u8>
    decreases s.len(),
{
    if s.len() == 0 {
        s
    } else if 128 <= s.last() < 192 {
        pop_char(s.drop_last())
    } else {
        s.drop_last()
    }
}

/// The position just after the bracket expression that starts at `i`
/// (`i` is the position after the opening bracket), honouring escapes.
pub open spec fn bracket_end(p: Seq<u8>, i: int, esc: bool) -> int
    recommends
        0 <= i,
    decreases p.len() - i + 1,
{
    if i < 0 || i >= p.len() {
        i
    } else if esc {
        bracket_end(p, i + 1, false)
    } else if p[i] == 93u8 {
        i + 1
    } else if p[i] == 92u8 {
        bracket_end(p, i + 1, true)
    } else {
        bracket_end(p, i + 1, false)
    }
}

/// The bracket scan moves forward and stays within the pattern.
pub proof fn lemma_bracket_end(p: Seq<u8>, i: int, esc: bool)
    requires
        0 <= i <= p.len(),
    ensures
        i <= bracket_end(p, i, esc) <= p.len(),
    decreases p.len() - i + 1,
{
    if i >= p.len() {
    } else if esc {
        lemma_bracket_end(p, i + 1, false);
    } else if p[i] == 93u8 {
    } else if p[i] == 92u8 {
        lemma_bracket_end(p, i + 1, true);
    } else {
        lemma_bracket_end(p, i + 1, false);
    }
}

/// Closes the run in progress: it replaces the best fragment if it is
/// strictly longer, and the next run starts empty either way.
pub open spec fn close_run(st: LongestParse) -> LongestParse {
    if st.current.len() > st.best.len() {
        LongestParse {
            best: st.current,
            current: Seq::<u8>::empty(),
            max_length: st.max_length,
            known: st.known,
        }
    } else {
        LongestParse {
            best: st.best,
            current: Seq::<u8>::empty(),
            max_length: st.max_length,
            known: st.known,
        }
    }
}

/// One left-to-right scan of the pattern from position `i` in state `st`.
pub open spec fn scan_from(p: Seq<u8>, i: int, st: LongestParse) -> LongestParse
    recommends
        0 <= i,
    decreases p.len() - i + 1 via scan_from_decreases
{
    if i < 0 || i >= p.len() {
        st
    } else if p[i] == 92u8 {
        // An escaped character extends the run; a trailing backslash ends the scan.
        if i + 1 < p.len() {
            scan_from(
                p,
                i + 2,
                LongestParse {
                    best: st.best,
                    current: st.current.push(p[i + 1]),
                    max_length: st.max_length + 1,
                    known: st.known,
                },
            )
        } else {
            st
        }
    } else if p[i] == 46u8 {
        // A dot matches exactly one character and closes the run.
        let st1 = close_run(st);
        scan_from(
            p,
            i + 1,
            LongestParse {
                best: st1.best,
                current: st1.current,
                max_length: st1.max_length + 1,
                known: st1.known,
            },
        )
    } else if p[i] == 42u8 {
        // A star pops the repeated character, closes the run, and makes the length unknown.
        let st1 = close_run(
            LongestParse {
                best: st.best,
                current: pop_char(st.current),
                max_length: st.max_length,
                known: st.known,
            },
        );
        scan_from(
            p,
            i + 1,
            LongestParse {
                best: st1.best,
                current: st1.current,
                max_length: st1.max_length,
                known: false,
            },
        )
    } else if p[i] == 43u8 {
        // A plus closes the run and makes the length unknown.
        let st1 = close_run(st);
        scan_from(
            p,
            i + 1,
            LongestParse {
                best: st1.best,
                current: st1.current,
                max_length: st1.max_length,
                known: false,
            },
        )
    } else if p[i] == 63u8 {
        // A question mark pops the optional character and closes the run.
        let st1 = close_run(
            LongestParse {
                best: st.best,
                current: pop_char(st.current),
                max_length: st.max_length,
                known: st.known,
            },
        );
        scan_from(p, i + 1, st1)
    } else if p[i] == 91u8 {
        // A bracket expression counts as one character and closes the run.
        let st1 = close_run(st);
        scan_from(
            p,
            bracket_end(p, i + 1, false),
            LongestParse {
                best: st1.best,
                current: st1.current,
                max_length: st1.max_length + 1,
                known: st1.known,
            },
        )
    } else {
        // Any other byte extends the run.
        scan_from(
            p,
            i + 1,
            LongestParse {
                best: st.best,
                current: st.current.push(p[i]),
                max_length: st.max_length + 1,
                known: st.known,
            },
        )
    }
}

#[via_fn]
proof fn scan_from_decreases(p: Seq<u8>, i: int, st: LongestParse) {
    if 0 <= i < p.len() && p[i] == 91u8 {
        lemma_bracket_end(p, i + 1, false);
    }
}

/// The whole parse of a pattern: the scan from the start, with the run
/// still in progress at the end closed as well.
pub open spec fn longest_parse(p: Seq<u8>) -> LongestParse {
    close_run(
        scan_from(
            p,
            0,
            LongestParse { best: Seq::<u8>::empty(), current: Seq::<u8>::empty(), max_length: 0, known: true },
        ),
    )
}

impl LongestMatcher {
    /// Create a new matcher with the supplied pattern: parses the pattern to
    /// find its longest maximal literal run and a bound on the match length.
    pub fn new(pattern: &str) -> (r: Result<LongestMatcher, Error>)
        ensures
            r is Ok <==> re_valid(pattern.spec_bytes()),
            r matches Ok(m) ==> {
                &&& re_pattern(m.original) == pattern.spec_bytes()
                &&& m.best_fragment@ == longest_parse(pattern.spec_bytes()).best
                &&& m.max_length == longest_parse(pattern.spec_bytes()).max_length
                &&& m.length_known == longest_parse(pattern.spec_bytes()).known
                &&& m.best_fragment@.len() <= m.max_length
            },
            r matches Err(e) ==> e is Syntax,
    {
        // Create the library-supplied matcher.
        let original = match compile_engine(pattern) {
            Some(o) => o,
            None => {
                return Err(Error::Syntax("Pattern compilation failed."));
            },
        };
        let bytes = pattern.as_bytes();
        let ghost p = pattern.spec_bytes();
        let ghost init = LongestParse {
            best: Seq::<u8>::empty(),
            current: Seq::<u8>::empty(),
            max_length: 0,
            known: true,
        };

        // Create properties of the final matcher, and the running state.
        let mut best: Vec<u8> = Vec::new();
        let mut current: Vec<u8> = Vec::new();
        let mut max_length: usize = 0;
        let mut known = true;

        let mut i: usize = 0;
        while i < bytes.len()
            invariant
                bytes@ == p,
                i <= p.len(),
                max_length <= i,
                current@.len() <= max_length,
                best@.len() <= max_length,
                scan_from(p, 0, init) == scan_from(
                    p,
                    i as int,
                    LongestParse {
                        best: best@,
                        current: current@,
                        max_length: max_length as int,
                        known: known,
                    },
                ),
            decreases p.len() - i,
        {
            let ghost st = LongestParse {
                best: best@,
                current: current@,
                max_length: max_length as int,
                known: known,
            };
            let b = bytes[i];
            if b == 92 {
                // An escaped character extends the run.
                if i + 1 < bytes.len() {
                    current.push(bytes[i + 1]);
                    max_length += 1;
                    i += 2;
                } else {
                    i += 1;
                }
            } else if b == 46 {
                // A dot matches exactly one character and closes the run.
                close_run_exec(&mut best, &mut current);
                max_length += 1;
                i += 1;
            } else if b == 42 {
                // A star pops the repeated character and closes the run.
                pop_char_exec(&mut current);
                close_run_exec(&mut best, &mut current);
                known = false;
                i += 1;
            } else if b == 43 {
                // A plus closes the run and makes the length unknown.
                close_run_exec(&mut best, &mut current);
                known = false;
                i += 1;
            } else if b == 63 {
                // A question mark pops the optional character and closes the run.
                pop_char_exec(&mut current);
                close_run_exec(&mut best, &mut current);
                i += 1;
            } else if b == 91 {
                // A bracket expression counts as one character and closes the run.
                close_run_exec(&mut best, &mut current);
                max_length += 1;
                proof {
                    lemma_bracket_end(p, i + 1, false);
                }
                i = bracket_skip(bytes, i + 1);
            } else {
                // Any other byte extends the run.
                current.push(b);
                max_length += 1;
                i += 1;
            }
        }

        // If the run still in progress beats the recorded best, it wins.
        close_run_exec(&mut best, &mut current);

        // Return a matcher with the properties created above.
        Ok(LongestMatcher { original, best_fragment: best, max_length, length_known: known })
    }

    /// Returns the best fragment stored in the matcher.
    pub fn best_fragment(&self) -> (r: &Vec<u8>)
        ensures
            r@ == self.best_fragment@,
    {
        &self.best_fragment
    }

    /// The verification window around a candidate at `pos`: widened by the
    /// length slack when the match length is known, and to the enclosing
    /// line when it is not.
    pub open spec fn window_spec(&self, t: Seq<u8>, pos: int) -> (int, int) {
        let fl = self.best_fragment@.len() as int;
        let end = pos + fl;
        if self.length_known {
            let delta = self.max_length - fl;
            let ws = if pos < delta {
                0
            } else {
                pos - delta
            };
            let we = if end + delta > t.len() {
                t.len() as int
            } else {
                end + delta
            };
            (ws, we)
        } else {
            let ws = match rfind_byte_before(t, 10u8, pos) {
                Some(i) => i,
                None => 0,
            };
            let we = match find_byte_from(t, 10u8, end) {
                Some(i) => i,
                None => t.len() as int,
            };
            (ws, we)
        }
    }

    /// What `locate_near` returns: the engine's answer inside the window,
    /// translated to absolute offsets, and the window's end.
    pub open spec fn locate_spec(&self, t: Seq<u8>, pos: int) -> (Option<(int, int)>, int) {
        let ws = self.window_spec(t, pos).0;
        let we = self.window_spec(t, pos).1;
        match re_find(re_pattern(self.original), t.subrange(ws, we)) {
            Some((a, b)) => (Some((ws + a, ws + b)), we),
            None => (None, we),
        }
    }

    /// The window is a well-formed range around the candidate.
    pub proof fn lemma_window(&self, t: Seq<u8>, pos: int)
        requires
            self.best_fragment@.len() <= self.max_length,
            0 <= pos,
            pos + self.best_fragment@.len() <= t.len(),
        ensures
            0 <= self.window_spec(t, pos).0 <= pos,
            pos + self.best_fragment@.len() <= self.window_spec(t, pos).1 <= t.len(),
    {
        let fl = self.best_fragment@.len() as int;
        let end = pos + fl;
        if self.length_known {
        } else {
            if let Some(i) = rfind_byte_before(t, 10u8, pos) {
                lemma_rfind_byte_before_some(t, 10u8, pos, i);
            }
            if let Some(i) = find_byte_from(t, 10u8, end) {
                lemma_find_byte_from_some(t, 10u8, end, i);
            }
        }
    }

    /// Given a text and a potential match candidate, try to locate the full match.
    /// The second return value signifies the position before which no more matches can occur.
    pub fn locate_near(&self, text: &[u8], pos: usize) -> (r: (Option<(usize, usize)>, usize))
        requires
            self.best_fragment@.len() <= self.max_length,
            pos + self.best_fragment@.len() <= text@.len(),
        ensures
            r.1 == self.locate_spec(text@, pos as int).1,
            r.1 <= text@.len(),
            match r.0 {
                Some((s, e)) => self.locate_spec(text@, pos as int).0 == Some((s as int, e as int))
                    && s <= e <= text@.len(),
                None => self.locate_spec(text@, pos as int).0 is None,
            },
    {
        proof {
            self.lemma_window(text@, pos as int);
        }
        let text_len = text.len();
        let fl = self.best_fragment.len();
        let end = pos + fl;

        let mut start = pos;
        let mut finish = end;
        if self.length_known {
            // If we know the length of the pattern, broaden the matching range
            // with the following slack on both sides.
            let delta = self.max_length - fl;
            start = if pos < delta {
                0
            } else {
                pos - delta
            };
            finish = if delta > text.len() - end {
                text.len()
            } else {
                end + delta
            };
        } else {
            // If we don't know the length, broaden the matching range to the
            // entire line the candidate was found in.
            start = match scan_byte_before(text, 10, pos) {
                Some(i) => i,
                None => 0,
            };
            finish = match scan_byte_from(text, 10, end) {
                Some(i) => i,
                None => text.len(),
            };
        }
        assert(start == self.window_spec(text@, pos as int).0);
        assert(finish == self.window_spec(text@, pos as int).1);

        // Now we try using the original matcher on this excerpt of the text.
        let window = slice_subrange(text, start, finish);
        proof {
            lemma_re_find_bounds(re_pattern(self.original), window@);
        }
        match engine_find(&self.original, window) {
            Some((a, b)) => (Some((start + a, start + b)), finish),
            None => (None, finish),
        }
    }

    /// What `find` returns: candidates for the best fragment are tried left
    /// to right; each one is verified by the full engine inside its window,
    /// and a failed candidate advances the search past that window.
    pub open spec fn find_spec(&self, t: Seq<u8>) -> Option<(int, int)>
        decreases t.len(),
    {
        if t.len() == 0 {
            None
        } else {
            match find_first_from(t, self.best_fragment@, 0) {
                None => None,
                Some(c) => {
                    let located = self.locate_spec(t, c);
                    match located.0 {
                        Some(m) => Some(m),
                        None => {
                            let adv0 = if located.1 < 1 {
                                1
                            } else {
                                located.1
                            };
                            let adv = if adv0 > t.len() {
                                t.len() as int
                            } else {
                                adv0
                            };
                            match self.find_spec(t.subrange(adv, t.len() as int)) {
                                Some((a, b)) => Some((a + adv, b + adv)),
                                None => None,
                            }
                        },
                    }
                },
            }
        }
    }

    /// Find the compiled pattern in the given text bytes.
    pub fn find_bytes(&self, text: &[u8]) -> (r: Option<(usize, usize)>)
        requires
            self.best_fragment@.len() <= self.max_length,
        ensures
            match r {
                Some((s, e)) => self.find_spec(text@) == Some((s as int, e as int)) && s <= e
                    <= text@.len(),
                None => self.find_spec(text@) is None,
            },
    {
        // Create a shrinking text slice and a global offset.
        let text_len = text.len();
        let mut cur: &[u8] = text;
        let mut offset: usize = 0;
        proof {
            lemma_spec_find_bounds(self, text@);
        }

        // This loop searches for match candidates. If a candidate is found,
        // but it is not a proper match, the slice is advanced past the checked
        // window. We iterate until there's no more text to match.
        while cur.len() > 0
            invariant
                self.best_fragment@.len() <= self.max_length,
                offset + cur@.len() == text@.len(),
                text@.len() <= usize::MAX,
                match self.find_spec(cur@) {
                    Some((a, b)) => self.find_spec(text@) == Some((a + offset, b + offset)) && 0
                        <= a <= b <= cur@.len(),
                    None => self.find_spec(text@) is None,
                },
            decreases cur@.len(),
        {
            proof {
                lemma_spec_find_bounds(self, cur@);
            }
            // Search for the best fragment. If it's not present, no match can be found.
            let found = find_sub(cur, self.best_fragment.as_slice());
            let c = match found {
                Some(c) => c,
                None => {
                    return None;
                },
            };
            proof {
                lemma_find_first_from_some(cur@, self.best_fragment@, 0, c as int);
            }

            // Locate the possible match.
            let located = self.locate_near(cur, c);

            // If we found something, return with the match.
            if let Some((s, e)) = located.0 {
                return Some((offset + s, offset + e));
            }

            // Else advance the search range, at least one byte, and retry.
            let ghost prev = cur@;
            let mut adv = located.1;
            if adv < 1 {
                adv = 1;
            }
            if adv > cur.len() {
                adv = cur.len();
            }
            cur = slice_subrange(cur, adv, cur.len());
            offset += adv;
            proof {
                lemma_spec_find_bounds(self, cur@);
                assert(self.find_spec(prev) == (match self.find_spec(cur@) {
                    Some((a, b)) => Some((a + adv, b + adv)),
                    None => None::<(int, int)>,
                }));
            }
        }
        None
    }
}

/// A `Some` answer of `find_spec` is a well-formed range of the text.
pub proof fn lemma_spec_find_bounds(m: &LongestMatcher, t: Seq<u8>)
    requires
        m.best_fragment@.len() <= m.max_length,
    ensures
        m.find_spec(t) matches Some((a, b)) ==> 0 <= a <= b <= t.len(),
    decreases t.len(),
{
    if t.len() == 0 {
    } else {
        if let Some(c) = find_first_from(t, m.best_fragment@, 0) {
            lemma_find_first_from_some(t, m.best_fragment@, 0, c);
            m.lemma_window(t, c);
            let located = m.locate_spec(t, c);
            lemma_re_find_bounds(
                re_pattern(m.original),
                t.subrange(m.window_spec(t, c).0, m.window_spec(t, c).1),
            );
            if located.0 is None {
                let adv0 = if located.1 < 1 {
                    1int
                } else {
                    located.1
                };
                let adv = if adv0 > t.len() {
                    t.len() as int
                } else {
                    adv0
                };
                lemma_spec_find_bounds(m, t.subrange(adv, t.len() as int));
            }
        }
    }
}

/// Closes the run in progress, exactly as `close_run` describes.
fn close_run_exec(best: &mut Vec<u8>, current: &mut Vec<u8>)
    ensures
        ({
            let st = close_run(
                LongestParse {
                    best: old(best)@,
                    current: old(current)@,
                    max_length: 0,
                    known: true,
                },
            );
            final(best)@ == st.best && final(current)@ == st.current
        }),
{
    if current.len() > best.len() {
        core::mem::swap(best, current);
    }
    current.clear();
    assert(current@ =~= Seq::<u8>::empty());
}

/// Removes the last character from the run, exactly as `pop_char` describes.
fn pop_char_exec(current: &mut Vec<u8>)
    ensures
        final(current)@ == pop_char(old(current)@),
        final(current)@.len() <= old(current)@.len(),
    decreases old(current)@.len(),
{
    let n = current.len();
    if n == 0 {
        return;
    }
    let last = current[n - 1];
    if 128 <= last && last < 192 {
        current.pop();
        assert(current@ =~= old(current)@.drop_last());
        pop_char_exec(current);
    } else {
        current.pop();
        assert(current@ =~= old(current)@.drop_last());
    }
}

/// Skips a bracket expression: `i` is the position after the opening
/// bracket, and the result is the position after the closing one.
fn bracket_skip(bytes: &[u8], i: usize) -> (r: usize)
    requires
        i <= bytes@.len(),
    ensures
        r == bracket_end(bytes@, i as int, false),
        i <= r <= bytes@.len(),
{
    proof {
        lemma_bracket_end(bytes@, i as int, false);
    }
    let mut j = i;
    let mut esc = false;
    while j < bytes.len()
        invariant
            i <= j <= bytes@.len(),
            bracket_end(bytes@, i as int, false) == bracket_end(bytes@, j as int, esc),
        decreases bytes@.len() - j,
    {
        if esc {
            esc = false;
            j += 1;
            continue;
        }
        if bytes[j] == 93 {
            return j + 1;
        }
        if bytes[j] == 92 {
            esc = true;
        }
        j += 1;
    }
    j
}

} // verus!
