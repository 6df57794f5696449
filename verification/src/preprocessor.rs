use vstd::prelude::*;

use crate::engine::{compile_engine, re_valid};
use crate::types::Error;
use vstd::string::StringSliceAdditionalSpecFns;

verus! {

/// Contains the various heuristic implementations that can be used for pattern matching.
#[derive(PartialEq, Eq, Structural, Clone, Copy, Debug)]
pub enum Suggestion {
    Literal,
    Longest,
    Prefix,
    Nothing,
}

/// A byte that disqualifies the literal heuristic when it stands unescaped.
pub open spec fn literal_special(b: u8) -> bool {
    ||| b == 46u8  // .
    ||| b == 91u8  // [
    ||| b == 94u8  // ^
    ||| b == 36u8  // $
    ||| b == 42u8  // *
    ||| b == 43u8  // +
    ||| b == 63u8  // ?
    ||| b == 40u8  // (
    ||| b == 124u8  // |
    ||| b == 123u8  // {
}

/// A byte that always disqualifies the longest heuristic when it stands unescaped.
pub open spec fn longest_special(b: u8) -> bool {
    b == 40u8 || b == 124u8 || b == 123u8  // ( | {
}

/// A repetition byte, which disqualifies the longest heuristic only on
/// patterns that can span several lines.
pub open spec fn repetition_special(b: u8) -> bool {
    b == 42u8 || b == 43u8 || b == 63u8  // * + ?
}

/// A byte that disqualifies the prefix heuristic when it stands among the
/// first two bytes of the pattern.
pub open spec fn prefix_special(b: u8) -> bool {
    b == 92u8 || literal_special(b)  // backslash or any literal special
}

/// The escape toggle after the first `i` bytes of the pattern were scanned:
/// it flips on every backslash and is left alone by every other byte.
pub open spec fn escaped_after(p: Seq<u8>, i: int) -> bool
    decreases i,
{
    if i <= 0 {
        false
    } else if p[i - 1] == 92u8 {
        !escaped_after(p, i - 1)
    } else {
        escaped_after(p, i - 1)
    }
}

/// The pattern can span several lines: it holds a literal newline or the
/// two-byte escape for one.
pub open spec fn spec_multiline(p: Seq<u8>) -> bool {
    (exists|i: int| 0 <= i < p.len() && #[trigger] p[i] == 10u8) || (exists|i: int|
        0 <= i && i + 1 < p.len() && #[trigger] p[i] == 92u8 && p[i + 1] == 110u8)
}

/// The literal heuristic applies: every special byte is escaped.
pub open spec fn spec_is_literal(p: Seq<u8>) -> bool {
    forall|i: int|
        0 <= i < p.len() && literal_special(#[trigger] p[i]) ==> escaped_after(p, i)
}

/// The longest heuristic applies: grouping bytes are escaped, and on a
/// multiline pattern so is every repetition byte.
pub open spec fn spec_is_longest(p: Seq<u8>) -> bool {
    &&& forall|i: int|
        0 <= i < p.len() && longest_special(#[trigger] p[i]) ==> escaped_after(p, i)
    &&& spec_multiline(p) ==> forall|i: int|
        0 <= i < p.len() && repetition_special(#[trigger] p[i]) ==> escaped_after(p, i)
}

/// The prefix heuristic applies: neither of the first two bytes is special.
pub open spec fn spec_is_prefix(p: Seq<u8>) -> bool {
    &&& !(p.len() > 0 && prefix_special(p[0]))
    &&& !(p.len() > 1 && prefix_special(p[1]))
}

/// The suggestion for a valid pattern; the cheapest applicable heuristic wins.
pub open spec fn spec_suggestion(p: Seq<u8>) -> Suggestion {
    if spec_is_literal(p) {
        Suggestion::Literal
    } else if spec_is_longest(p) {
        Suggestion::Longest
    } else if spec_is_prefix(p) {
        Suggestion::Prefix
    } else {
        Suggestion::Nothing
    }
}

/// An object that can be used to preprocess a pattern string and decide
/// the best matching method to use during the pattern matching.
pub struct Preprocessor<'p> {
    /// The pattern string itself.
    pattern: &'p str,
}

impl<'p> Preprocessor<'p> {
    /// The pattern, as the byte sequence the classification runs over.
    pub closed spec fn spec_pattern(&self) -> Seq<u8> {
        self.pattern.spec_bytes()
    }

    /// Creates a new instance from the given pattern.
    pub fn new(pattern: &'p str) -> (r: Preprocessor<'p>)
        ensures
            r.spec_pattern() == pattern.spec_bytes(),
    {
        Preprocessor { pattern }
    }

    /// Preprocesses the stored pattern, and determines which heuristic should be used
    /// during text searching. Returns an error if the pattern is not a valid pattern.
    pub fn determine_type(&self) -> (r: Result<Suggestion, Error>)
        ensures
            match r {
                Ok(s) => re_valid(self.spec_pattern()) && s == spec_suggestion(
                    self.spec_pattern(),
                ),
                Err(e) => !re_valid(self.spec_pattern()) && e is Syntax,
            },
    {
        // We try to properly compile the pattern first, and see if it succeeds.
        if compile_engine(self.pattern).is_none() {
            return Err(Error::Syntax("Preliminary compile check failed."));
        }
        let bytes = self.pattern.as_bytes();
        let ghost p = self.spec_pattern();

        let multiline = is_multiline_pattern(bytes);

        let mut is_literal = true;
        let mut is_longest = true;
        let mut is_prefix = true;
        let mut escaped = false;

        // We go through the pattern byte by byte.
        let mut i: usize = 0;
        while i < bytes.len()
            invariant
                bytes@ == p,
                i <= p.len(),
                multiline == spec_multiline(p),
                escaped == escaped_after(p, i as int),
                is_literal == (forall|j: int|
                    0 <= j < i && literal_special(#[trigger] p[j]) ==> escaped_after(p, j)),
                is_longest == ((forall|j: int|
                    0 <= j < i && longest_special(#[trigger] p[j]) ==> escaped_after(p, j))
                    && (spec_multiline(p) ==> forall|j: int|
                    0 <= j < i && repetition_special(#[trigger] p[j]) ==> escaped_after(p, j))),
                is_prefix == (!(i > 0 && prefix_special(p[0])) && !(i > 1 && prefix_special(
                    p[1],
                ))),
            decreases bytes.len() - i,
        {
            let b = bytes[i];

            // A backslash flips the escape toggle.
            if b == 92 {
                escaped = !escaped;
            }
            assert(escaped == escaped_after(p, i + 1));

            // The prefix heuristic only looks at the first two bytes.
            if (i == 0 || i == 1) && (b == 92 || b == 46 || b == 91 || b == 94 || b == 36 || b
                == 42 || b == 43 || b == 63 || b == 40 || b == 124 || b == 123) {
                is_prefix = false;
            }

            // If the byte isn't escaped, a special byte may disqualify a heuristic.
            if !escaped {
                if b == 46 || b == 91 || b == 94 || b == 36 || b == 42 || b == 43 || b == 63 || b
                    == 40 || b == 124 || b == 123 {
                    is_literal = false;
                }
                if b == 40 || b == 124 || b == 123 {
                    is_longest = false;
                }
                if multiline && (b == 42 || b == 43 || b == 63) {
                    is_longest = false;
                }
            }
            i += 1;
        }

        // Return the cheapest heuristic that applies.
        if is_literal {
            Ok(Suggestion::Literal)
        } else if is_longest {
            Ok(Suggestion::Longest)
        } else if is_prefix {
            Ok(Suggestion::Prefix)
        } else {
            Ok(Suggestion::Nothing)
        }
    }
}

/// Whether the pattern holds a literal newline or the two-byte escape for one.
fn is_multiline_pattern(p: &[u8]) -> (r: bool)
    ensures
        r == spec_multiline(p@),
{
    let mut i: usize = 0;
    while i < p.len()
        invariant
            i <= p@.len(),
            forall|j: int| 0 <= j < i ==> p@[j] != 10u8,
            forall|j: int| 0 <= j < i ==> !(j + 1 < p@.len() && #[trigger] p@[j] == 92u8 && p@[j + 1] == 110u8),
        decreases p.len() - i,
    {
        if p[i] == 10 {
            return true;
        }
        if p[i] == 92 && i + 1 < p.len() && p[i + 1] == 110 {
            return true;
        }
        i += 1;
    }
    false
}

} // verus!
