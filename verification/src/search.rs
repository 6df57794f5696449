use vstd::prelude::*;

verus! {

/// The pattern `p` occurs in the text `t` at byte offset `i`.
pub open spec fn occurs_at(t: Seq<u8>, p: Seq<u8>, i: int) -> bool {
    0 <= i && i + p.len() <= t.len() && t.subrange(i, i + p.len() as int) == p
}

/// The smallest offset `i >= from` at which `p` occurs in `t`, if any.
pub open spec fn find_first_from(t: Seq<u8>, p: Seq<u8>, from: int) -> Option<int>
    recommends
        0 <= from,
    decreases t.len() - from + 1,
{
    if from < 0 || from + p.len() > t.len() {
        None
    } else if t.subrange(from, from + p.len() as int) == p {
        Some(from)
    } else {
        find_first_from(t, p, from + 1)
    }
}

/// What a `Some` answer of `find_first_from` means: an occurrence,
/// and the earliest one at or after `from`.
pub proof fn lemma_find_first_from_some(t: Seq<u8>, p: Seq<u8>, from: int, i: int)
    requires
        find_first_from(t, p, from) == Some(i),
    ensures
        from <= i,
        occurs_at(t, p, i),
        forall|j: int| from <= j < i ==> !occurs_at(t, p, j),
    decreases t.len() - from + 1,
{
    if from < 0 || from + p.len() > t.len() {
    } else if t.subrange(from, from + p.len() as int) == p {
    } else {
        lemma_find_first_from_some(t, p, from + 1, i);
    }
}

/// What a `None` answer of `find_first_from` means: no occurrence at or after `from`.
pub proof fn lemma_find_first_from_none(t: Seq<u8>, p: Seq<u8>, from: int)
    requires
        0 <= from,
        find_first_from(t, p, from) is None,
    ensures
        forall|j: int| from <= j ==> !occurs_at(t, p, j),
    decreases t.len() - from + 1,
{
    if from + p.len() > t.len() {
        assert forall|j: int| from <= j implies !occurs_at(t, p, j) by {
            assert(j + p.len() > t.len());
        }
    } else {
        lemma_find_first_from_none(t, p, from + 1);
    }
}

/// Whether `p` occurs at offset `i` of `t`; compares the bytes one by one.
pub fn matches_at(text: &[u8], pat: &[u8], i: usize) -> (r: bool)
    requires
        i + pat.len() <= text.len(),
    ensures
        r == occurs_at(text@, pat@, i as int),
{
    let mut j: usize = 0;
    while j < pat.len()
        invariant
            j <= pat.len(),
            i + pat.len() <= text.len(),
            forall|k: int| 0 <= k < j ==> text@[i + k] == pat@[k],
        decreases pat.len() - j,
    {
        if text[i + j] != pat[j] {
            assert(text@.subrange(i as int, i + pat@.len()) != pat@) by {
                assert(text@.subrange(i as int, i + pat@.len())[j as int] != pat@[j as int]);
            }
            return false;
        }
        j += 1;
    }
    assert(text@.subrange(i as int, i + pat@.len()) =~= pat@);
    true
}

/// The first occurrence of `pat` in `text` at or after `from`, scanning forward.
pub fn find_sub_from(text: &[u8], pat: &[u8], from: usize) -> (r: Option<usize>)
    ensures
        match r {
            Some(i) => find_first_from(text@, pat@, from as int) == Some(i as int),
            None => find_first_from(text@, pat@, from as int) is None,
        },
{
    let mut i = from;
    if i > text.len() {
        assert(find_first_from(text@, pat@, from as int) is None);
        return None;
    }
    while pat.len() <= text.len() - i
        invariant
            from <= i <= text.len(),
            find_first_from(text@, pat@, from as int) == find_first_from(text@, pat@, i as int),
        decreases text.len() - i,
    {
        if matches_at(text, pat, i) {
            return Some(i);
        }
        assert(i < text.len()) by {
            if i == text.len() {
                assert(pat@.len() == 0);
                assert(text@.subrange(i as int, i as int) =~= pat@);
                assert(occurs_at(text@, pat@, i as int));
            }
        };
        i += 1;
    }
    assert(find_first_from(text@, pat@, i as int) is None);
    None
}

/// The first occurrence of `pat` anywhere in `text`.
pub fn find_sub(text: &[u8], pat: &[u8]) -> (r: Option<usize>)
    ensures
        match r {
            Some(i) => find_first_from(text@, pat@, 0) == Some(i as int),
            None => find_first_from(text@, pat@, 0) is None,
        },
{
    find_sub_from(text, pat, 0)
}

/// The smallest offset `i` with `from <= i < t.len()` and `t[i] == b`, if any.
pub open spec fn find_byte_from(t: Seq<u8>, b: u8, from: int) -> Option<int>
    recommends
        0 <= from,
    decreases t.len() - from + 1,
{
    if from < 0 || from >= t.len() {
        None
    } else if t[from] == b {
        Some(from)
    } else {
        find_byte_from(t, b, from + 1)
    }
}

/// The largest offset `i < end` with `t[i] == b`, if any.
pub open spec fn rfind_byte_before(t: Seq<u8>, b: u8, end: int) -> Option<int>
    recommends
        end <= t.len(),
    decreases end + 1,
{
    if end <= 0 {
        None
    } else if t[end - 1] == b {
        Some(end - 1)
    } else {
        rfind_byte_before(t, b, end - 1)
    }
}

/// What a `Some` answer of `find_byte_from` means.
pub proof fn lemma_find_byte_from_some(t: Seq<u8>, b: u8, from: int, i: int)
    requires
        find_byte_from(t, b, from) == Some(i),
    ensures
        from <= i < t.len(),
        t[i] == b,
        forall|j: int| from <= j < i ==> t[j] != b,
    decreases t.len() - from + 1,
{
    if from < 0 || from >= t.len() {
    } else if t[from] == b {
    } else {
        lemma_find_byte_from_some(t, b, from + 1, i);
    }
}

/// What a `Some` answer of `rfind_byte_before` means.
pub proof fn lemma_rfind_byte_before_some(t: Seq<u8>, b: u8, end: int, i: int)
    requires
        end <= t.len(),
        rfind_byte_before(t, b, end) == Some(i),
    ensures
        0 <= i < end,
        t[i] == b,
        forall|j: int| i < j < end ==> t[j] != b,
    decreases end + 1,
{
    if end <= 0 {
    } else if t[end - 1] == b {
    } else {
        lemma_rfind_byte_before_some(t, b, end - 1, i);
    }
}

/// Scans forward for the byte `b`, starting at `from`.
pub fn scan_byte_from(text: &[u8], b: u8, from: usize) -> (r: Option<usize>)
    ensures
        match r {
            Some(i) => find_byte_from(text@, b, from as int) == Some(i as int),
            None => find_byte_from(text@, b, from as int) is None,
        },
{
    let mut i = from;
    while i < text.len()
        invariant
            from <= i,
            find_byte_from(text@, b, from as int) == find_byte_from(text@, b, i as int),
        decreases text.len() - i,
    {
        if text[i] == b {
            return Some(i);
        }
        i += 1;
    }
    None
}

/// Scans backward for the byte `b`, starting just before `end`.
pub fn scan_byte_before(text: &[u8], b: u8, end: usize) -> (r: Option<usize>)
    requires
        end <= text.len(),
    ensures
        match r {
            Some(i) => rfind_byte_before(text@, b, end as int) == Some(i as int),
            None => rfind_byte_before(text@, b, end as int) is None,
        },
{
    let mut i = end;
    while i > 0
        invariant
            i <= end <= text.len(),
            rfind_byte_before(text@, b, end as int) == rfind_byte_before(text@, b, i as int),
        decreases i,
    {
        if text[i - 1] == b {
            return Some(i - 1);
        }
        i -= 1;
    }
    None
}

} // verus!
