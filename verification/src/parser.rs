use vstd::prelude::*;

use crate::framework::CompileFlags;
use crate::preprocessor::escaped_after;
use vstd::string::StringSliceAdditionalSpecFns;

verus! {

/// The matching method a parsed pattern calls for.
#[derive(PartialEq, Eq, Structural, Clone, Copy, Debug)]
pub enum ParseResult {
    UseLiteral,
    UseLongest,
    UsePrefix,
    UseNothing,
}

/// A byte whose special meaning does not depend on the syntax flavour.
pub open spec fn basic_special(b: u8) -> bool {
    b == 46u8 || b == 91u8 || b == 94u8 || b == 36u8 || b == 42u8  // . [ ^ $ *
}

/// A byte whose special meaning flips between the two syntax flavours.
pub open spec fn flavour_special(b: u8) -> bool {
    b == 43u8 || b == 63u8 || b == 40u8 || b == 124u8 || b == 123u8  // + ? ( | {
}

/// The pattern can be searched for verbatim: the always-special bytes are
/// escaped, and the flavour-dependent ones carry no special meaning.
pub open spec fn parser_literal_ok(p: Seq<u8>, ext: bool) -> bool {
    forall|i: int|
        0 <= i < p.len() ==> {
            &&& (basic_special(#[trigger] p[i]) ==> escaped_after(p, i))
            &&& (flavour_special(p[i]) ==> escaped_after(p, i + 1) == ext)
        }
}

/// The longest-run method applies: no unbounded repetition, and none of the
/// flavour-dependent bytes carry special meaning.
pub open spec fn parser_longest_ok(p: Seq<u8>, ext: bool) -> bool {
    forall|i: int|
        0 <= i < p.len() ==> {
            &&& (#[trigger] p[i] == 42u8 ==> escaped_after(p, i))
            &&& ((p[i] == 123u8 || p[i] == 43u8 || p[i] == 63u8 || p[i] == 124u8) ==> escaped_after(
                p,
                i + 1,
            ) == ext)
        }
}

/// The method the parser suggests; the cheapest applicable one wins.
pub open spec fn spec_parse_type(p: Seq<u8>, ext: bool) -> ParseResult {
    if parser_literal_ok(p, ext) {
        ParseResult::UseLiteral
    } else if parser_longest_ok(p, ext) {
        ParseResult::UseLongest
    } else {
        ParseResult::UseNothing
    }
}

/// An early, flag-aware pattern classifier.
pub struct Parser<'p> {
    /// The pattern string itself.
    pattern: &'p str,
    /// The settings the pattern is read under.
    flags: CompileFlags,
}

impl<'p> Parser<'p> {
    /// The pattern, as the byte sequence the classification runs over.
    pub closed spec fn spec_pattern(&self) -> Seq<u8> {
        self.pattern.spec_bytes()
    }

    /// The flags the parser was created with.
    pub closed spec fn spec_flags(&self) -> CompileFlags {
        self.flags
    }

    /// Creates a new instance from the given pattern and flags.
    pub fn new(pattern: &'p str, flags: CompileFlags) -> (r: Parser<'p>)
        ensures
            r.spec_pattern() == pattern.spec_bytes(),
            r.spec_flags() == flags,
    {
        Parser { pattern, flags }
    }

    /// Decides which matching method suits the stored pattern.
    pub fn determine_type(&self) -> (r: ParseResult)
        ensures
            r == spec_parse_type(self.spec_pattern(), self.spec_flags().extended),
    {
        let bytes = self.pattern.as_bytes();
        let ghost p = self.spec_pattern();
        let ext = self.flags.extended;

        let mut is_literal = true;
        let mut is_longest = true;
        let mut escaped = false;

        let mut i: usize = 0;
        while i < bytes.len()
            invariant
                bytes@ == p,
                i <= p.len(),
                escaped == escaped_after(p, i as int),
                is_literal == (forall|j: int|
                    0 <= j < i ==> {
                        &&& (basic_special(#[trigger] p[j]) ==> escaped_after(p, j))
                        &&& (flavour_special(p[j]) ==> escaped_after(p, j + 1) == ext)
                    }),
                is_longest == (forall|j: int|
                    0 <= j < i ==> {
                        &&& (#[trigger] p[j] == 42u8 ==> escaped_after(p, j))
                        &&& ((p[j] == 123u8 || p[j] == 43u8 || p[j] == 63u8 || p[j] == 124u8)
                            ==> escaped_after(p, j + 1) == ext)
                    }),
            decreases bytes.len() - i,
        {
            let b = bytes[i];
            if b == 92 {
                escaped = !escaped;
            }
            assert(escaped == escaped_after(p, i + 1));

            if b == 46 || b == 91 || b == 94 || b == 36 || b == 42 {
                if !escaped {
                    is_literal = false;
                }
            }
            if b == 43 || b == 63 || b == 40 || b == 124 || b == 123 {
                if escaped != ext {
                    is_literal = false;
                }
            }
            if b == 42 {
                if !escaped {
                    is_longest = false;
                }
            }
            if b == 123 || b == 43 || b == 63 || b == 124 {
                if escaped != ext {
                    is_longest = false;
                }
            }
            i += 1;
        }

        if is_literal {
            ParseResult::UseLiteral
        } else if is_longest {
            ParseResult::UseLongest
        } else {
            ParseResult::UseNothing
        }
    }
}

} // verus!
