use vstd::prelude::*;

use crate::engine::{compile_engine, engine_find, lemma_re_find_bounds, re_find, re_pattern, re_valid};
use crate::matchers::PrefixMatcher;
use crate::preprocessor::prefix_special;
use crate::search::{find_first_from, find_sub, lemma_find_first_from_some};
use crate::types::Error;
use vstd::slice::slice_subrange;
use vstd::string::StringSliceAdditionalSpecFns;

verus! {

/// The first position at or after `i` that holds a special byte, or the
/// pattern's end if there is none.
pub open spec fn prefix_end(p: Seq<u8>, i: int) -> int
    recommends
        0 <= i,
    decreases p.len() - i + 1,
{
    if i < 0 || i >= p.len() {
        i
    } else if prefix_special(p[i]) {
        i
    } else {
        prefix_end(p, i + 1)
    }
}

/// The longest run of leading pattern bytes before the first special byte.
pub open spec fn prefix_spec(p: Seq<u8>) -> Seq<u8> {
    p.subrange(0, prefix_end(p, 0))
}

impl PrefixMatcher {
    /// Create a new matcher with the supplied pattern; extracts the longest
    /// literal prefix to anchor searching on.
    pub fn new(pattern: &str) -> (r: Result<PrefixMatcher, Error>)
        ensures
            r is Ok <==> re_valid(pattern.spec_bytes()),
            r matches Ok(m) ==> re_pattern(m.original) == pattern.spec_bytes() && m.prefix@
                == prefix_spec(pattern.spec_bytes()),
            r matches Err(e) ==> e is Syntax,
    {
        let original = match compile_engine(pattern) {
            Some(o) => o,
            None => {
                return Err(Error::Syntax("Pattern compilation failed."));
            },
        };
        let bytes = pattern.as_bytes();
        let ghost p = pattern.spec_bytes();

        // Byte by byte, construct the longest literal prefix fragment possible.
        let mut prefix: Vec<u8> = Vec::new();
        let mut i: usize = 0;
        while i < bytes.len() && !is_prefix_special(bytes[i])
            invariant
                bytes@ == p,
                i <= p.len(),
                prefix@ == p.subrange(0, i as int),
                prefix_end(p, 0) == prefix_end(p, i as int),
            decreases bytes.len() - i,
        {
            prefix.push(bytes[i]);
            assert(prefix@ =~= p.subrange(0, i + 1));
            i += 1;
        }
        assert(prefix_end(p, i as int) == i);
        assert(prefix@ =~= prefix_spec(p));

        // Return with the result.
        Ok(PrefixMatcher { original, prefix })
    }

    /// What `find` returns: the full engine's answer over the suffix of the
    /// text that starts at the first occurrence of the literal prefix,
    /// translated back to absolute offsets. Only the first prefix occurrence
    /// is tried; this is a one-shot anchor, not a retry loop.
    pub open spec fn find_spec(&self, t: Seq<u8>) -> Option<(int, int)> {
        match find_first_from(t, prefix_spec(re_pattern(self.original)), 0) {
            None => None,
            Some(s) => match re_find(re_pattern(self.original), t.subrange(s, t.len() as int)) {
                Some((a, b)) => Some((s + a, s + b)),
                None => None,
            },
        }
    }

    /// Find the compiled pattern in the given text bytes.
    pub fn find_bytes(&self, text: &[u8]) -> (r: Option<(usize, usize)>)
        requires
            self.prefix@ == prefix_spec(re_pattern(self.original)),
        ensures
            match r {
                Some((s, e)) => self.find_spec(text@) == Some((s as int, e as int)) && s <= e
                    <= text@.len(),
                None => self.find_spec(text@) is None,
            },
    {
        // Find a candidate based on our prefix fragment.
        let candidate = find_sub(text, self.prefix.as_slice());
        let start = match candidate {
            Some(s) => s,
            None => {
                return None;
            },
        };
        proof {
            lemma_find_first_from_some(text@, self.prefix@, 0, start as int);
        }

        // Run the original matcher on the remainder of the text.
        let rest = slice_subrange(text, start, text.len());
        proof {
            lemma_re_find_bounds(re_pattern(self.original), rest@);
        }
        match engine_find(&self.original, rest) {
            Some((a, b)) => Some((start + a, start + b)),
            None => None,
        }
    }
}

/// Whether the byte ends a literal prefix run.
fn is_prefix_special(b: u8) -> (r: bool)
    ensures
        r == prefix_special(b),
{
    b == 92 || b == 46 || b == 91 || b == 94 || b == 36 || b == 42 || b == 43 || b == 63 || b == 40
        || b == 124 || b == 123
}

} // verus!
