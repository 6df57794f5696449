use vstd::prelude::*;

use crate::engine::bytes_text;
use crate::search::{find_first_from, lemma_find_first_from_none, lemma_find_first_from_some, matches_at, occurs_at};
use crate::types::{Error, Match};
use std::collections::HashMap;
use vstd::slice::{slice_subrange, slice_to_vec};
use vstd::string::StringSliceAdditionalSpecFns;

verus! {

broadcast use vstd::std_specs::hash::group_hash_axioms;

/// Prefix hash struct used in the Wu-Manber searching phase.
pub struct PrefixHash {
    /// Which pattern the prefix was created from.
    pub pattern_id: usize,
    /// The code of that pattern's first block.
    pub prefix: u32,
}

/// Wu-Manber compilation struct.
pub struct WuManber {
    /// A copy of every pattern, necessary during the searching phase.
    pub patterns: Vec<Vec<u8>>,
    /// Shift (or jump) table for each b-long block present in the patterns.
    pub shift_table: HashMap<u32, usize>,
    /// Pattern prefix table for each pattern whose trailing block is the key.
    pub prefix_table: HashMap<u32, Vec<PrefixHash>>,
    /// The length of the shortest pattern.
    pub min_length: usize,
    /// The default shift value, when a block was not present in the patterns.
    pub default_shift: usize,
    /// The block size; 2 or 3 should be used.
    pub b: usize,
}

/// The numeric code of a block of at most three bytes.
pub open spec fn block_code(bs: Seq<u8>) -> int
    recommends
        1 <= bs.len() <= 3,
{
    if bs.len() <= 1 {
        bs[0] as int
    } else if bs.len() == 2 {
        bs[0] as int + 256 * (bs[1] as int)
    } else {
        bs[0] as int + 256 * (bs[1] as int) + 65536 * (bs[2] as int)
    }
}

/// The code of the block of pattern `k` that ends at position `j`.
pub open spec fn has_block(
    ps: Seq<Vec<u8>>,
    minl: int,
    b: int,
    c: u32,
    k: int,
    j: int,
) -> bool {
    &&& 0 <= k < ps.len()
    &&& b <= j <= minl
    &&& block_code(ps[k]@.subrange(j - b, j)) == c as int
}

/// The pair `(k, j)` lies before the construction point `(i0, j0)` in the
/// build order: patterns first, block positions within one pattern second.
pub open spec fn processed_before(k: int, j: int, i0: int, j0: int) -> bool {
    k < i0 || (k == i0 && j < j0)
}

/// What the shift table holds once every block pair before `(i0, j0)` was
/// entered: a key is present exactly when some processed pair produces it,
/// and its value is the least shift those pairs allow.
pub open spec fn shift_table_part(
    m: Map<u32, usize>,
    ps: Seq<Vec<u8>>,
    minl: int,
    b: int,
    i0: int,
    j0: int,
) -> bool {
    &&& forall|c: u32| #[trigger]
        m.contains_key(c) ==> exists|k: int, j: int|
            has_block(ps, minl, b, c, k, j) && processed_before(k, j, i0, j0) && m[c] == minl - j
    &&& forall|c: u32, k: int, j: int| #[trigger]
        has_block(ps, minl, b, c, k, j) && processed_before(k, j, i0, j0) ==> m.contains_key(c)
            && m[c] <= minl - j
}

/// The code of the block that ends a pattern's first `minl` bytes.
pub open spec fn trail_code(p: Seq<u8>, minl: int, b: int) -> int {
    block_code(p.subrange(minl - b, minl))
}

/// The code of a pattern's first block.
pub open spec fn head_code(p: Seq<u8>, b: int) -> int {
    block_code(p.subrange(0, b))
}

/// The prefix entries for trailing block `c` among the first `upto`
/// patterns, in ascending pattern order.
pub open spec fn bucket_spec(
    ps: Seq<Vec<u8>>,
    minl: int,
    b: int,
    c: u32,
    upto: int,
) -> Seq<(int, int)>
    decreases upto,
{
    if upto <= 0 {
        Seq::<(int, int)>::empty()
    } else {
        let prev = bucket_spec(ps, minl, b, c, upto - 1);
        if trail_code(ps[upto - 1]@, minl, b) == c as int {
            prev.push((upto - 1, head_code(ps[upto - 1]@, b)))
        } else {
            prev
        }
    }
}

/// A stored bucket, as the pairs it stands for.
pub open spec fn bucket_view(v: Seq<PrefixHash>) -> Seq<(int, int)> {
    v.map_values(|h: PrefixHash| (h.pattern_id as int, h.prefix as int))
}

/// What the prefix table holds once the first `upto` patterns were entered.
pub open spec fn prefix_table_part(
    m: Map<u32, Vec<PrefixHash>>,
    ps: Seq<Vec<u8>>,
    minl: int,
    b: int,
    upto: int,
) -> bool {
    &&& forall|c: u32| #[trigger]
        m.contains_key(c) ==> bucket_view(m[c]@) == bucket_spec(ps, minl, b, c, upto)
    &&& forall|c: u32|
        !(#[trigger] m.contains_key(c)) ==> bucket_spec(ps, minl, b, c, upto).len() == 0
}

/// Every bucket entry names a pattern whose trailing block is the key,
/// every such pattern has an entry, and entries come in ascending order.
pub proof fn lemma_bucket_spec(ps: Seq<Vec<u8>>, minl: int, b: int, c: u32, upto: int)
    requires
        upto <= ps.len(),
    ensures
        forall|x: int|
            0 <= x < bucket_spec(ps, minl, b, c, upto).len() ==> {
                let e = #[trigger] bucket_spec(ps, minl, b, c, upto)[x];
                &&& 0 <= e.0 < upto
                &&& trail_code(ps[e.0]@, minl, b) == c as int
                &&& e.1 == head_code(ps[e.0]@, b)
            },
        forall|k: int|
            0 <= k < upto && trail_code((#[trigger] ps[k])@, minl, b) == c as int ==> exists|x: int|
                0 <= x < bucket_spec(ps, minl, b, c, upto).len() && bucket_spec(
                    ps,
                    minl,
                    b,
                    c,
                    upto,
                )[x].0 == k,
        forall|x1: int, x2: int|
            0 <= x1 < x2 < bucket_spec(ps, minl, b, c, upto).len() ==> #[trigger] bucket_spec(
                ps,
                minl,
                b,
                c,
                upto,
            )[x1].0 < #[trigger] bucket_spec(ps, minl, b, c, upto)[x2].0,
    decreases upto,
{
    if upto > 0 {
        lemma_bucket_spec(ps, minl, b, c, upto - 1);
        let prev = bucket_spec(ps, minl, b, c, upto - 1);
        let cur = bucket_spec(ps, minl, b, c, upto);
        if trail_code(ps[upto - 1]@, minl, b) == c as int {
            assert(cur == prev.push((upto - 1, head_code(ps[upto - 1]@, b))));
            assert forall|x: int| 0 <= x < cur.len() implies {
                let e = #[trigger] cur[x];
                &&& 0 <= e.0 < upto
                &&& trail_code(ps[e.0]@, minl, b) == c as int
                &&& e.1 == head_code(ps[e.0]@, b)
            } by {
                if x < prev.len() {
                    assert(cur[x] == prev[x]);
                }
            }
            assert forall|k: int|
                0 <= k < upto && trail_code((#[trigger] ps[k])@, minl, b) == c as int implies exists|
                x: int,
            | 0 <= x < cur.len() && cur[x].0 == k by {
                if k == upto - 1 {
                    assert(cur[cur.len() - 1].0 == k);
                } else {
                    let x = choose|x: int| 0 <= x < prev.len() && prev[x].0 == k;
                    assert(cur[x].0 == k);
                }
            }
            assert forall|x1: int, x2: int| 0 <= x1 < x2 < cur.len() implies #[trigger] cur[x1].0
                < #[trigger] cur[x2].0 by {
                if x2 < prev.len() {
                    assert(cur[x1] == prev[x1] && cur[x2] == prev[x2]);
                } else {
                    assert(cur[x2].0 == upto - 1);
                    assert(cur[x1] == prev[x1]);
                }
            }
        } else {
            assert(cur == prev);
        }
    }
}

impl WuManber {
    /// The tables are exactly what the construction builds from the patterns.
    pub open spec fn wf(&self) -> bool {
        &&& 1 <= self.b <= 3
        &&& self.b <= self.min_length
        &&& self.patterns@.len() > 0
        &&& forall|k: int|
            0 <= k < self.patterns@.len() ==> self.min_length <= (
            #[trigger] self.patterns@[k])@.len()
        &&& exists|k: int|
            0 <= k < self.patterns@.len() && self.min_length == (
            #[trigger] self.patterns@[k])@.len()
        &&& self.default_shift == self.min_length + 1 - self.b
        &&& shift_table_part(
            self.shift_table@,
            self.patterns@,
            self.min_length as int,
            self.b as int,
            self.patterns@.len() as int,
            self.b as int,
        )
        &&& prefix_table_part(
            self.prefix_table@,
            self.patterns@,
            self.min_length as int,
            self.b as int,
            self.patterns@.len() as int,
        )
    }

    /// Creates a new Wu-Manber search struct with the given patterns. The b argument
    /// defines the block size used; 2 or 3 is recommended. A degenerate input —
    /// no pattern at all, a block size outside the supported range, or a pattern
    /// shorter than one block — is rejected with an argument error.
    pub fn new(patterns: &[&str], b: usize) -> (r: Result<WuManber, Error>)
        ensures
            r is Ok <==> (patterns@.len() > 0 && 1 <= b <= 3 && forall|k: int|
                0 <= k < patterns@.len() ==> b <= (#[trigger] patterns@[k]).spec_bytes().len()),
            r matches Ok(w) ==> {
                &&& w.wf()
                &&& w.b == b
                &&& w.patterns@.len() == patterns@.len()
                &&& forall|k: int|
                    0 <= k < patterns@.len() ==> (#[trigger] w.patterns@[k])@ == patterns@[k].spec_bytes()
            },
            r matches Err(e) ==> e is Argument,
    {
        let mut pats: Vec<Vec<u8>> = Vec::new();
        let mut k: usize = 0;
        while k < patterns.len()
            invariant
                k <= patterns@.len(),
                pats@.len() == k,
                forall|x: int|
                    0 <= x < k ==> (#[trigger] pats@[x])@ == patterns@[x].spec_bytes(),
            decreases patterns@.len() - k,
        {
            let p: &str = patterns[k];
            pats.push(slice_to_vec(p.as_bytes()));
            k += 1;
        }
        proof {
            assert forall|x: int| 0 <= x < patterns@.len() implies ((#[trigger] patterns@[x]).spec_bytes().len()
                == pats@[x]@.len()) by {}
        }
        Self::from_byte_patterns(pats, b)
    }

    /// Builds the tables from byte patterns.
    pub(crate) fn from_byte_patterns(pats: Vec<Vec<u8>>, b: usize) -> (r: Result<WuManber, Error>)
        ensures
            r is Ok <==> (pats@.len() > 0 && 1 <= b <= 3 && forall|k: int|
                0 <= k < pats@.len() ==> b <= (#[trigger] pats@[k])@.len()),
            r matches Ok(w) ==> w.wf() && w.b == b && w.patterns@ == pats@,
            r matches Err(e) ==> e is Argument,
    {
        let n = pats.len();
        if n == 0 {
            return Err(Error::Argument("No patterns were specified!"));
        }
        if b < 1 || b > 3 {
            return Err(Error::Argument("Unsupported block size."));
        }

        // Find the length of the shortest pattern.
        let mut min_length: usize = pats[0].len();
        let mut k: usize = 1;
        while k < n
            invariant
                1 <= k <= n,
                n == pats@.len(),
                forall|x: int| 0 <= x < k ==> min_length <= (#[trigger] pats@[x])@.len(),
                exists|x: int| 0 <= x < k && min_length == (#[trigger] pats@[x])@.len(),
            decreases n - k,
        {
            if pats[k].len() < min_length {
                min_length = pats[k].len();
            }
            k += 1;
        }

        // A pattern shorter than one block makes the automaton degenerate.
        if min_length < b {
            return Err(Error::Argument("Shortest pattern is too short for the block size."));
        }
        let default_shift = min_length - b + 1;

        // Read patterns, and fill the two tables.
        let mut shift_table: HashMap<u32, usize> = HashMap::new();
        let mut prefix_table: HashMap<u32, Vec<PrefixHash>> = HashMap::new();
        let ghost minl = min_length as int;
        let ghost bb = b as int;

        let mut i: usize = 0;
        while i < n
            invariant
                i <= n,
                n == pats@.len(),
                1 <= b <= 3,
                b <= min_length,
                forall|x: int| 0 <= x < n ==> min_length <= (#[trigger] pats@[x])@.len(),
                exists|x: int| 0 <= x < n && min_length == (#[trigger] pats@[x])@.len(),
                minl == min_length as int,
                bb == b as int,
                shift_table_part(shift_table@, pats@, minl, bb, i as int, bb),
                prefix_table_part(prefix_table@, pats@, minl, bb, i as int),
            decreases n - i,
        {
            let steps = min_length - b;
            let mut jj: usize = 0;
            while jj <= steps
                invariant
                    i < n,
                    n == pats@.len(),
                    1 <= b <= 3,
                    jj <= steps + 1,
                    steps == min_length - b,
                    b <= min_length,
                    forall|x: int| 0 <= x < n ==> min_length <= (#[trigger] pats@[x])@.len(),
                    minl == min_length as int,
                    bb == b as int,
                    shift_table_part(shift_table@, pats@, minl, bb, i as int, b + jj),
                    prefix_table_part(
                        prefix_table@,
                        pats@,
                        minl,
                        bb,
                        if jj == steps + 1 {
                            i + 1
                        } else {
                            i as int
                        },
                    ),
                decreases steps + 1 - jj,
            {
                let j = b + jj;
                let pat_i: &Vec<u8> = &pats[i];
                let c = block_code_at(pat_i.as_slice(), j - b, b);

                let this_shift = min_length - j;
                let ghost old_shift = shift_table@;
                let stored = match shift_table.get(&c) {
                    Some(v) => *v,
                    None => this_shift,
                };
                let newv = if this_shift < stored {
                    this_shift
                } else {
                    stored
                };
                shift_table.insert(c, newv);
                proof {
                    assert(has_block(pats@, minl, bb, c, i as int, j as int));
                    assert forall|c2: u32, k2: int, j2: int|
                        #[trigger] has_block(pats@, minl, bb, c2, k2, j2) && processed_before(
                            k2,
                            j2,
                            i as int,
                            j + 1,
                        ) implies shift_table@.contains_key(c2) && shift_table@[c2]
                        <= minl - j2 by {
                        if !processed_before(k2, j2, i as int, j as int) {
                            assert(k2 == i as int && j2 == j as int);
                        }
                    }
                    assert forall|c2: u32| #[trigger] shift_table@.contains_key(c2) implies exists|
                        k2: int,
                        j2: int,
                    |
                        has_block(pats@, minl, bb, c2, k2, j2) && processed_before(
                            k2,
                            j2,
                            i as int,
                            j + 1,
                        ) && shift_table@[c2] == minl - j2 by {
                        if c2 == c {
                            if old_shift.contains_key(c) && newv == old_shift[c] {
                                let (k0, j0) = choose|k0: int, j0: int|
                                    has_block(pats@, minl, bb, c, k0, j0) && processed_before(
                                        k0,
                                        j0,
                                        i as int,
                                        j as int,
                                    ) && old_shift[c] == minl - j0;
                                assert(has_block(pats@, minl, bb, c2, k0, j0) && processed_before(
                                    k0,
                                    j0,
                                    i as int,
                                    j + 1,
                                ) && shift_table@[c2] == minl - j0);
                            } else {
                                assert(newv == this_shift);
                                assert(has_block(pats@, minl, bb, c2, i as int, j as int)
                                    && processed_before(i as int, j as int, i as int, j + 1)
                                    && shift_table@[c2] == minl - j);
                            }
                        } else {
                            let (k0, j0) = choose|k0: int, j0: int|
                                has_block(pats@, minl, bb, c2, k0, j0) && processed_before(
                                    k0,
                                    j0,
                                    i as int,
                                    j as int,
                                ) && old_shift[c2] == minl - j0;
                            assert(has_block(pats@, minl, bb, c2, k0, j0) && processed_before(
                                k0,
                                j0,
                                i as int,
                                j + 1,
                            ) && shift_table@[c2] == minl - j0);
                        }
                    }
                }

                // For each pattern, we also store its prefix once to speed up
                // potential match verification.
                if j == min_length {
                    let hash = PrefixHash {
                        pattern_id: i,
                        prefix: block_code_at(pat_i.as_slice(), 0, b),
                    };
                    let mut bucket = match prefix_table.remove(&c) {
                        Some(v) => v,
                        None => Vec::new(),
                    };
                    bucket.push(hash);
                    let ghost old_table = prefix_table@;
                    prefix_table.insert(c, bucket);
                    proof {
                        assert(trail_code(pats@[i as int]@, minl, bb) == c as int);
                        assert forall|c2: u32| #[trigger]
                            prefix_table@.contains_key(c2) implies bucket_view(prefix_table@[c2]@)
                            == bucket_spec(pats@, minl, bb, c2, i + 1) by {
                            if c2 == c {
                                assert(bucket_view(prefix_table@[c2]@) =~= bucket_spec(
                                    pats@,
                                    minl,
                                    bb,
                                    c2,
                                    i as int,
                                ).push((i as int, head_code(pats@[i as int]@, bb))));
                            } else {
                                assert(bucket_spec(pats@, minl, bb, c2, i + 1) == bucket_spec(
                                    pats@,
                                    minl,
                                    bb,
                                    c2,
                                    i as int,
                                ));
                            }
                        }
                        assert forall|c2: u32|
                            !(#[trigger] prefix_table@.contains_key(c2)) implies bucket_spec(
                            pats@,
                            minl,
                            bb,
                            c2,
                            i + 1,
                        ).len() == 0 by {
                            assert(c2 != c);
                            assert(bucket_spec(pats@, minl, bb, c2, i + 1) == bucket_spec(
                                pats@,
                                minl,
                                bb,
                                c2,
                                i as int,
                            ));
                        }
                    }
                }
                jj += 1;
            }
            proof {
                assert forall|c2: u32, k2: int, j2: int|
                    #[trigger] has_block(pats@, minl, bb, c2, k2, j2) && processed_before(
                        k2,
                        j2,
                        i + 1,
                        bb,
                    ) implies shift_table@.contains_key(c2) && shift_table@[c2] <= minl
                    - j2 by {
                    assert(processed_before(k2, j2, i as int, min_length + 1));
                }
                assert forall|c2: u32| #[trigger] shift_table@.contains_key(c2) implies exists|
                    k2: int,
                    j2: int,
                |
                    has_block(pats@, minl, bb, c2, k2, j2) && processed_before(k2, j2, i + 1, bb)
                        && shift_table@[c2] == minl - j2 by {
                    let (k2, j2) = choose|k2: int, j2: int|
                        has_block(pats@, minl, bb, c2, k2, j2) && processed_before(
                            k2,
                            j2,
                            i as int,
                            min_length + 1,
                        ) && shift_table@[c2] == minl - j2;
                    assert(processed_before(k2, j2, i + 1, bb));
                }
            }
            i += 1;
        }

        Ok(
            WuManber {
                patterns: pats,
                shift_table,
                prefix_table,
                min_length,
                default_shift,
                b,
            },
        )
    }
}

/// Inside an occurrence, a block of the text equals the matching block of
/// the pattern.
pub proof fn lemma_block_of_occurrence(t: Seq<u8>, p: Seq<u8>, s: int, lo: int, hi: int)
    requires
        occurs_at(t, p, s),
        0 <= lo <= hi <= p.len(),
    ensures
        t.subrange(s + lo, s + hi) =~= p.subrange(lo, hi),
{
    assert forall|x: int| 0 <= x < hi - lo implies t.subrange(s + lo, s + hi)[x] == p.subrange(
        lo,
        hi,
    )[x] by {
        assert(t.subrange(s, s + p.len() as int)[lo + x] == p[lo + x]);
        assert(t[s + lo + x] == p[lo + x]);
    }
}

impl WuManber {
    /// Finds any one of the compiled patterns in the given text: the
    /// earliest-starting occurrence wins, and on an exact tie the pattern
    /// listed first does. `None` means no pattern occurs anywhere.
    pub fn find<'t>(&self, text: &'t str) -> (r: Option<(Match<'t>, usize)>)
        requires
            self.wf(),
        ensures
            match r {
                None => multi_first(self.patterns@, text.spec_bytes(), self.patterns@.len() as int)
                    is None,
                Some((m, pid)) => {
                    &&& multi_first(
                        self.patterns@,
                        text.spec_bytes(),
                        self.patterns@.len() as int,
                    ) == Some((m.spec_start(), pid as int))
                    &&& m.spec_end() == m.spec_start() + self.patterns@[pid as int]@.len()
                    &&& m.spec_end() <= text.spec_bytes().len()
                    &&& vstd::utf8::valid_utf8(
                        text.spec_bytes().subrange(m.spec_start(), m.spec_end()),
                    ) ==> vstd::utf8::encode_utf8(m.spec_text()) == text.spec_bytes().subrange(
                        m.spec_start(),
                        m.spec_end(),
                    )
                    &&& !vstd::utf8::valid_utf8(
                        text.spec_bytes().subrange(m.spec_start(), m.spec_end()),
                    ) ==> m.spec_text() == Seq::<char>::empty()
                },
            },
    {
        let bytes = text.as_bytes();
        match self.find_bytes(bytes) {
            Some((start, pid)) => {
                proof {
                    lemma_multi_first_unique(
                        self.patterns@,
                        text.spec_bytes(),
                        start as int,
                        pid as int,
                    );
                }
                let tl = bytes.len();
                let plen = self.patterns[pid].len();
                assert(start + plen <= tl);
                let end = start + plen;
                let matched = slice_subrange(bytes, start, end);
                let ms = bytes_text(matched);
                Some((Match::new(start, end, ms), pid))
            },
            None => {
                proof {
                    lemma_multi_first_props(
                        self.patterns@,
                        text.spec_bytes(),
                        self.patterns@.len() as int,
                    );
                    if multi_first(
                        self.patterns@,
                        text.spec_bytes(),
                        self.patterns@.len() as int,
                    ) is Some {
                        let (s2, k2) = multi_first(
                            self.patterns@,
                            text.spec_bytes(),
                            self.patterns@.len() as int,
                        )->Some_0;
                        assert(occurs_at(text.spec_bytes(), self.patterns@[k2]@, s2));
                    }
                }
                None
            },
        }
    }

    /// The search itself, over text bytes: a found alignment comes back as
    /// the match's start offset and the pattern's index.
    pub(crate) fn find_bytes(&self, bytes: &[u8]) -> (r: Option<(usize, usize)>)
        requires
            self.wf(),
        ensures
            match r {
                None => forall|k: int, s: int|
                    #![trigger occurs_at(bytes@, self.patterns@[k]@, s)]
                    0 <= k < self.patterns@.len() ==> !occurs_at(bytes@, self.patterns@[k]@, s),
                Some((s0, pid)) => {
                    &&& 0 <= pid < self.patterns@.len()
                    &&& occurs_at(bytes@, self.patterns@[pid as int]@, s0 as int)
                    &&& forall|k: int, s: int|
                        #![trigger occurs_at(bytes@, self.patterns@[k]@, s)]
                        0 <= k < self.patterns@.len() && s < s0 as int ==> !occurs_at(
                            bytes@,
                            self.patterns@[k]@,
                            s,
                        )
                    &&& forall|k: int|
                        0 <= k < pid ==> !occurs_at(
                            bytes@,
                            (#[trigger] self.patterns@[k])@,
                            s0 as int,
                        )
                },
            },
    {
        let tl = bytes.len();
        let ghost t = bytes@;
        let ghost ps = self.patterns@;
        let ghost n = ps.len() as int;
        let minl = self.min_length;
        let b = self.b;
        let ghost minli = minl as int;

        let mut pos = minl;
        // We loop while there's text to read.
        while pos <= tl
            invariant
                self.wf(),
                bytes@ == t,
                tl == t.len(),
                ps == self.patterns@,
                n == ps.len() as int,
                minl == self.min_length,
                b == self.b,
                minli == minl as int,
                minl <= pos,
                forall|k: int, s: int|
                    #![trigger occurs_at(t, ps[k]@, s)]
                    0 <= k < n && s + minli < pos ==> !occurs_at(t, ps[k]@, s),
            decreases tl + 1 - pos,
        {
            let c = block_code_at(bytes, pos - b, b);
            let got = self.shift_table.get(&c);
            let shift = match got {
                Some(v) => *v,
                None => self.default_shift,
            };
            proof {
                if self.shift_table@.contains_key(c) {
                    let (k0, j0) = choose|k0: int, j0: int|
                        has_block(ps, minli, b as int, c, k0, j0) && processed_before(
                            k0,
                            j0,
                            n,
                            b as int,
                        ) && self.shift_table@[c] == minli - j0;
                    assert(shift <= minl + 1 - b);
                } else {
                    assert(shift == self.default_shift);
                }
            }

            // We may have found a potential match - check through prefixes.
            if shift == 0 {
                let s0 = pos - minl;
                let tprefix = block_code_at(bytes, s0, b);
                let ghost bspec = bucket_spec(ps, minli, b as int, c, n);
                proof {
                    lemma_bucket_spec(ps, minli, b as int, c, n);
                }
                match self.prefix_table.get(&c) {
                    Some(bucket) => {
                        let ghost bview = bucket_view(bucket@);
                        assert(bview == bspec);
                        let mut x: usize = 0;
                        while x < bucket.len()
                            invariant
                                self.wf(),
                                bytes@ == t,
                                tl == t.len(),
                                ps == self.patterns@,
                                n == ps.len() as int,
                                minl == self.min_length,
                                b == self.b,
                                minli == minl as int,
                                minl <= pos <= tl,
                                s0 == pos - minl,
                                forall|k: int, s: int|
                                    #![trigger occurs_at(t, ps[k]@, s)]
                                    0 <= k < n && s + minli < pos ==> !occurs_at(t, ps[k]@, s),
                                bspec == bucket_spec(ps, minli, b as int, c, n),
                                bucket_view(bucket@) == bspec,
                                x <= bucket@.len(),
                                tprefix as int == block_code(t.subrange(s0 as int, s0 + b)),
                                c as int == block_code(t.subrange(pos - b, pos as int)),
                                forall|y: int|
                                    0 <= y < x ==> !occurs_at(
                                        t,
                                        ps[(#[trigger] bspec[y]).0]@,
                                        s0 as int,
                                    ),
                                forall|y: int|
                                    0 <= y < bspec.len() ==> {
                                        let e = #[trigger] bspec[y];
                                        &&& 0 <= e.0 < n
                                        &&& trail_code(ps[e.0]@, minli, b as int) == c as int
                                        &&& e.1 == head_code(ps[e.0]@, b as int)
                                    },
                                forall|k: int|
                                    0 <= k < n && trail_code(
                                        (#[trigger] ps[k])@,
                                        minli,
                                        b as int,
                                    ) == c as int ==> exists|y: int|
                                        0 <= y < bspec.len() && bspec[y].0 == k,
                                forall|y1: int, y2: int|
                                    0 <= y1 < y2 < bspec.len() ==> #[trigger] bspec[y1].0
                                        < #[trigger] bspec[y2].0,
                            decreases bucket@.len() - x,
                        {
                            let cand: &PrefixHash = &bucket[x];
                            proof {
                                assert(bucket_view(bucket@)[x as int] == (
                                    cand.pattern_id as int,
                                    cand.prefix as int,
                                ));
                            }
                            let ghost pid = cand.pattern_id as int;
                            assert(0 <= pid < n && bspec[x as int].0 == pid);

                            // If a candidate's prefix matches, compare the text
                            // with the referenced pattern.
                            let mut failed = true;
                            if cand.prefix == tprefix {
                                let plen = self.patterns[cand.pattern_id].len();
                                if plen <= tl - s0 {
                                    if matches_at(
                                        bytes,
                                        self.patterns[cand.pattern_id].as_slice(),
                                        s0,
                                    ) {
                                        // The whole pattern matches: this is the answer.
                                        proof {
                                            assert(occurs_at(t, ps[pid]@, s0 as int));
                                            assert forall|k: int| 0 <= k < pid implies !occurs_at(
                                                t,
                                                ps[k]@,
                                                s0 as int,
                                            ) by {
                                                if occurs_at(t, ps[k]@, s0 as int) {
                                                    lemma_block_of_occurrence(
                                                        t,
                                                        ps[k]@,
                                                        s0 as int,
                                                        minli - b,
                                                        minli,
                                                    );
                                                    assert(trail_code(ps[k]@, minli, b as int)
                                                        == c as int);
                                                    let y = choose|y: int|
                                                        0 <= y < bspec.len() && bspec[y].0 == k;
                                                    assert(y < x) by {
                                                        if y >= x {
                                                            assert(bspec[x as int].0
                                                                < bspec[y].0 || x as int == y);
                                                        }
                                                    }
                                                    assert(!occurs_at(t, ps[bspec[y].0]@, s0 as int));
                                                }
                                            }
                                            assert forall|k: int, s: int|
                                                0 <= k < n && s < s0 as int implies !occurs_at(
                                                t,
                                                ps[k]@,
                                                s,
                                            ) by {
                                                if 0 <= s {
                                                    assert(s + minli < pos);
                                                }
                                            }
                                        }
                                        return Some((s0, cand.pattern_id));
                                    }
                                }
                            }
                            proof {
                                // The candidate failed: its pattern does not
                                // occur at the putative start.
                                assert(!occurs_at(t, ps[pid]@, s0 as int)) by {
                                    if occurs_at(t, ps[pid]@, s0 as int) {
                                        assert(minli <= ps[pid]@.len());
                                        lemma_block_of_occurrence(t, ps[pid]@, s0 as int, 0, b as int);
                                        assert(head_code(ps[pid]@, b as int) == tprefix as int);
                                        assert(cand.prefix == tprefix);
                                        assert(s0 + ps[pid]@.len() <= tl);
                                        assert(occurs_at(
                                            bytes@,
                                            self.patterns@[pid]@,
                                            s0 as int,
                                        ));
                                    }
                                }
                                assert forall|y: int| 0 <= y < x + 1 implies !occurs_at(
                                    t,
                                    ps[(#[trigger] bspec[y]).0]@,
                                    s0 as int,
                                ) by {
                                    if y == x as int {
                                        assert(bspec[y].0 == pid);
                                    }
                                }
                            }
                            x += 1;
                        }
                        proof {
                            assert forall|k: int| 0 <= k < n implies !occurs_at(
                                t,
                                (#[trigger] ps[k])@,
                                s0 as int,
                            ) by {
                                if occurs_at(t, ps[k]@, s0 as int) {
                                    lemma_block_of_occurrence(t, ps[k]@, s0 as int, minli - b, minli);
                                    assert(trail_code(ps[k]@, minli, b as int) == c as int);
                                    let y = choose|y: int|
                                        0 <= y < bspec.len() && bspec[y].0 == k;
                                    assert(!occurs_at(t, ps[bspec[y].0]@, s0 as int));
                                }
                            }
                        }
                    },
                    None => {
                        proof {
                            assert(bspec.len() == 0);
                            assert forall|k: int| 0 <= k < n implies !occurs_at(
                                t,
                                (#[trigger] ps[k])@,
                                s0 as int,
                            ) by {
                                if occurs_at(t, ps[k]@, s0 as int) {
                                    lemma_block_of_occurrence(t, ps[k]@, s0 as int, minli - b, minli);
                                    assert(trail_code(ps[k]@, minli, b as int) == c as int);
                                    let y = choose|y: int|
                                        0 <= y < bspec.len() && bspec[y].0 == k;
                                    assert(false);
                                }
                            }
                        }
                    },
                }
            }

            // Advance by the shift, at least one byte.
            let step = if shift > 0 {
                shift
            } else {
                1
            };
            proof {
                assert forall|k: int, s: int|
                    #![trigger occurs_at(t, ps[k]@, s)]
                    0 <= k < n && s + minli < pos + step implies !occurs_at(t, ps[k]@, s) by {
                    if s + minli >= pos && occurs_at(t, ps[k]@, s) {
                        assert(minli <= ps[k]@.len());
                        if s + minli == pos {
                            // A full alignment here: the trailing block forces a
                            // zero shift, and the candidate scan ruled it out.
                            lemma_block_of_occurrence(t, ps[k]@, s, minli - b, minli);
                            assert(has_block(ps, minli, b as int, c, k, minli));
                            assert(self.shift_table@.contains_key(c) && self.shift_table@[c] <= 0);
                            assert(shift == 0);
                            assert(!occurs_at(t, ps[k]@, pos - minl));
                        } else {
                            // The scan cannot jump past the alignment position.
                            if pos >= s + b {
                                let j = pos - s;
                                lemma_block_of_occurrence(t, ps[k]@, s, j - b, j);
                                assert(has_block(ps, minli, b as int, c, k, j));
                                assert(self.shift_table@.contains_key(c)
                                    && self.shift_table@[c] <= minli - j);
                                assert(step <= s + minli - pos);
                            } else {
                                assert(step <= minl + 1 - b);
                                assert(pos + step <= s + minli);
                            }
                        }
                    }
                }
            }
            if step > tl - pos {
                proof {
                    assert forall|k: int, s: int|
                        #![trigger occurs_at(t, ps[k]@, s)]
                        0 <= k < n implies !occurs_at(t, ps[k]@, s) by {
                        if occurs_at(t, ps[k]@, s) {
                            assert(minli <= ps[k]@.len());
                            assert(s + minli <= tl);
                        }
                    }
                }
                return None;
            }
            pos = pos + step;
        }

        // If we reached the end of the text, return with no match.
        proof {
            assert forall|k: int, s: int|
                #![trigger occurs_at(t, ps[k]@, s)]
                0 <= k < n implies !occurs_at(t, ps[k]@, s) by {
                if occurs_at(t, ps[k]@, s) {
                    assert(minli <= ps[k]@.len());
                    assert(s + minli <= tl);
                }
            }
        }
        None
    }
}

/// The first match over a pattern set, among the first `upto` patterns:
/// the earliest-starting occurrence wins, and on an exact tie the pattern
/// listed first does. The answer pairs the start with the pattern's index.
pub open spec fn multi_first(ps: Seq<Vec<u8>>, t: Seq<u8>, upto: int) -> Option<(int, int)>
    decreases upto,
{
    if upto <= 0 {
        None
    } else {
        let prev = multi_first(ps, t, upto - 1);
        let cur = find_first_from(t, ps[upto - 1]@, 0);
        match prev {
            None => match cur {
                None => None,
                Some(s) => Some((s, upto - 1)),
            },
            Some((s1, k1)) => match cur {
                None => Some((s1, k1)),
                Some(s) => if s < s1 {
                    Some((s, upto - 1))
                } else {
                    Some((s1, k1))
                },
            },
        }
    }
}

/// What `multi_first` means: its answer is an occurrence, nothing starts
/// earlier, and no earlier-listed pattern matches at the same start.
pub proof fn lemma_multi_first_props(ps: Seq<Vec<u8>>, t: Seq<u8>, upto: int)
    requires
        upto <= ps.len(),
    ensures
        match multi_first(ps, t, upto) {
            None => forall|k: int, s: int|
                #![trigger occurs_at(t, ps[k]@, s)]
                0 <= k < upto ==> !occurs_at(t, ps[k]@, s),
            Some((s0, pid)) => {
                &&& 0 <= pid < upto
                &&& occurs_at(t, ps[pid]@, s0)
                &&& forall|k: int, s: int|
                    #![trigger occurs_at(t, ps[k]@, s)]
                    0 <= k < upto && s < s0 ==> !occurs_at(t, ps[k]@, s)
                &&& forall|k: int| 0 <= k < pid ==> !occurs_at(t, (#[trigger] ps[k])@, s0)
            },
        },
    decreases upto,
{
    if upto > 0 {
        lemma_multi_first_props(ps, t, upto - 1);
        match find_first_from(t, ps[upto - 1]@, 0) {
            Some(s) => {
                lemma_find_first_from_some(t, ps[upto - 1]@, 0, s);
            },
            None => {
                lemma_find_first_from_none(t, ps[upto - 1]@, 0);
            },
        }
    }
}

/// An answer with the three properties of the search is the `multi_first`
/// answer: the search's outcome is a function of patterns and text.
pub proof fn lemma_multi_first_unique(ps: Seq<Vec<u8>>, t: Seq<u8>, s0: int, pid: int)
    requires
        0 <= pid < ps.len(),
        occurs_at(t, ps[pid]@, s0),
        forall|k: int, s: int|
            #![trigger occurs_at(t, ps[k]@, s)]
            0 <= k < ps.len() && s < s0 ==> !occurs_at(t, ps[k]@, s),
        forall|k: int| 0 <= k < pid ==> !occurs_at(t, (#[trigger] ps[k])@, s0),
    ensures
        multi_first(ps, t, ps.len() as int) == Some((s0, pid)),
{
    lemma_multi_first_props(ps, t, ps.len() as int);
    match multi_first(ps, t, ps.len() as int) {
        None => {
            assert(!occurs_at(t, ps[pid]@, s0));
        },
        Some((s1, k1)) => {
            assert(!(s1 < s0));
            assert(!(s0 < s1));
            if k1 < pid {
                assert(!occurs_at(t, ps[k1]@, s0));
            }
            if pid < k1 {
                assert(!occurs_at(t, ps[pid]@, s1));
            }
        },
    }
}

/// The code of the block of `b` bytes that starts at `start`.
fn block_code_at(t: &[u8], start: usize, b: usize) -> (r: u32)
    requires
        1 <= b <= 3,
        start + b <= t@.len(),
    ensures
        r as int == block_code(t@.subrange(start as int, start + b)),
{
    let mut code: u32 = t[start] as u32;
    if b >= 2 {
        code = code + (t[start + 1] as u32) * 256;
    }
    if b >= 3 {
        code = code + (t[start + 2] as u32) * 65536;
    }
    code
}

} // verus!
