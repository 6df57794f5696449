use vstd::prelude::*;

use crate::search::find_first_from;
use vstd::string::StringSliceAdditionalSpecFns;

verus! {

broadcast use vstd::string::group_string_axioms;

/// A compiled search engine of the outside regex crate, opaque to the
/// verifier; all that is known of it is stated by the wrappers below.
#[verifier::external_body]
pub struct Engine {
    inner: regex::bytes::Regex,
}

/// A byte that has (or can have) a special meaning in a regex pattern.
pub open spec fn regex_meta_byte(b: u8) -> bool {
    ||| b == 46u8  // .
    ||| b == 91u8  // [
    ||| b == 93u8  // ]
    ||| b == 94u8  // ^
    ||| b == 36u8  // $
    ||| b == 42u8  // *
    ||| b == 43u8  // +
    ||| b == 63u8  // ?
    ||| b == 40u8  // (
    ||| b == 41u8  // )
    ||| b == 124u8  // |
    ||| b == 123u8  // {
    ||| b == 125u8  // }
    ||| b == 92u8  // backslash
}

/// A pattern with no metacharacter at all: the regex engine treats it as
/// a plain string and matches exactly its own bytes.
pub open spec fn plain_literal(p: Seq<u8>) -> bool {
    forall|i: int| 0 <= i < p.len() ==> !regex_meta_byte(#[trigger] p[i])
}

/// Whether the engine accepts the pattern: compilation is deterministic,
/// so this is a function of the pattern bytes alone.
pub uninterp spec fn re_valid(p: Seq<u8>) -> bool;

/// The pattern a compiled engine was built from.
pub uninterp spec fn re_pattern(e: Engine) -> Seq<u8>;

/// What the engine's search returns, as a function of pattern and haystack;
/// only consulted for patterns that are not plain literals.
pub uninterp spec fn re_find_raw(p: Seq<u8>, t: Seq<u8>) -> Option<(int, int)>;

/// The first match the engine reports for pattern `p` over haystack `t`:
/// a pattern free of metacharacters matches exactly its own byte string at
/// its earliest occurrence; any reported offsets lie within the haystack.
pub open spec fn re_find(p: Seq<u8>, t: Seq<u8>) -> Option<(int, int)> {
    if plain_literal(p) {
        match find_first_from(t, p, 0) {
            Some(i) => Some((i, i + p.len() as int)),
            None => None,
        }
    } else {
        match re_find_raw(p, t) {
            Some((s, e)) => if 0 <= s && s <= e && e <= t.len() {
                Some((s, e))
            } else {
                None
            },
            None => None,
        }
    }
}

/// Any match `re_find` reports is a well-formed byte range of the haystack.
pub proof fn lemma_re_find_bounds(p: Seq<u8>, t: Seq<u8>)
    ensures
        re_find(p, t) matches Some(m) ==> 0 <= m.0 <= m.1 <= t.len(),
{
    if plain_literal(p) {
        if let Some(i) = find_first_from(t, p, 0) {
            crate::search::lemma_find_first_from_some(t, p, 0, i);
        }
    }
}

/// Relies on `regex::bytes::Regex::new`: compilation is deterministic, and a
/// returned engine searches for exactly the pattern it was compiled from.
/// A rejected pattern gives `None`; the engine's error value is dropped.
#[verifier::external_body]
pub(crate) fn compile_engine(pattern: &str) -> (r: Option<Engine>)
    ensures
        r is Some <==> re_valid(pattern.spec_bytes()),
        r matches Some(e) ==> re_pattern(e) == pattern.spec_bytes(),
{
    match regex::bytes::Regex::new(pattern) {
        Ok(e) => Some(Engine { inner: e }),
        Err(_) => None,
    }
}

/// Relies on `regex::bytes::Regex::find`: the leftmost match is a function of
/// the compiled pattern and the haystack alone; its offsets lie within the
/// haystack; and a pattern without metacharacters matches exactly its own
/// byte string, earliest occurrence first.
#[verifier::external_body]
pub(crate) fn engine_find(e: &Engine, text: &[u8]) -> (r: Option<(usize, usize)>)
    ensures
        match (r, re_find(re_pattern(*e), text@)) {
            (Some((s, en)), Some((s2, e2))) => s == s2 && en == e2,
            (None, None) => true,
            _ => false,
        },
        !plain_literal(re_pattern(*e)) && re_find_raw(re_pattern(*e), text@) is None ==> r is None,
{
    match e.inner.find(text) {
        Some(m) => Some((m.start(), m.end())),
        None => None,
    }
}

/// Relies on `core::str::from_utf8`: it succeeds exactly on valid UTF-8 input,
/// and the returned string re-encodes to the input bytes.
#[verifier::external_body]
fn bytes_as_str(v: &[u8]) -> (r: Option<&str>)
    ensures
        r is Some <==> vstd::utf8::valid_utf8(v@),
        r matches Some(s) ==> s.spec_bytes() == v@,
{
    core::str::from_utf8(v).ok()
}

/// Reads a byte slice back as the borrowed string it came from; bytes that
/// are not valid UTF-8 give the empty string.
pub(crate) fn bytes_text<'a>(v: &'a [u8]) -> (r: &'a str)
    ensures
        vstd::utf8::valid_utf8(v@) ==> vstd::utf8::encode_utf8(r@) == v@,
        !vstd::utf8::valid_utf8(v@) ==> r@ == Seq::<char>::empty(),
{
    match bytes_as_str(v) {
        Some(s) => s,
        None => {
            let r = "";
            proof {
                reveal_strlit("");
            }
            assert(r@ =~= Seq::<char>::empty());
            r
        },
    }
}

} // verus!
