//! Substring search over a chapter's text buffer, forward and backward.

use vstd::prelude::*;

verus! {

/// The query occurs in `t` starting at offset `i`.
pub open spec fn is_match_at(t: Seq<char>, q: Seq<char>, i: int) -> bool {
    0 <= i && i + q.len() <= t.len() && t.subrange(i, i + q.len()) == q
}

/// The first offset at or after `from` where `q` occurs in `t`.
pub open spec fn find_spec(t: Seq<char>, q: Seq<char>, from: int) -> Option<int>
    decreases t.len() + 1 - from,
    when 0 <= from
{
    if from + q.len() > t.len() {
        None
    } else if is_match_at(t, q, from) {
        Some(from)
    } else {
        find_spec(t, q, from + 1)
    }
}

/// The last offset where `q` occurs wholly within `t`'s first `upto`
/// characters.
pub open spec fn rfind_spec(t: Seq<char>, q: Seq<char>, upto: int) -> Option<int>
    decreases upto + 1,
    when upto <= t.len()
{
    if upto < q.len() {
        None
    } else if is_match_at(t, q, upto - q.len()) {
        Some(upto - q.len())
    } else {
        rfind_spec(t, q, upto - 1)
    }
}

/// Whether the query occurs at offset `i`, by direct comparison.
#[verifier::loop_isolation(false)]
fn match_at(text: &[char], query: &[char], i: usize) -> (r: bool)
    requires
        i + query.len() <= text.len(),
    ensures
        r == is_match_at(text@, query@, i as int),
{
    let mut j: usize = 0;
    while j < query.len()
        invariant
            j <= query@.len(),
            forall|k: int| 0 <= k < j ==> text@[i + k] == query@[k],
        decreases query@.len() - j,
    {
        if text[i + j] != query[j] {
            proof {
                assert(text@.subrange(i as int, i + query@.len())[j as int] == text@[i + j]);
            }
            return false;
        }
        j = j + 1;
    }
    proof {
        assert(text@.subrange(i as int, i + query@.len()) =~= query@);
    }
    true
}

/// The first occurrence of `query` at or after offset `from`, scanning
/// forward; exactly `find_spec`.
#[verifier::loop_isolation(false)]
pub fn find_from(text: &[char], query: &[char], from: usize) -> (r: Option<usize>)
    ensures
        match r {
            Some(i) => find_spec(text@, query@, from as int) == Some(i as int),
            None => find_spec(text@, query@, from as int) is None,
        },
{
    if query.len() > text.len() {
        return None;
    }
    let limit = text.len() - query.len();
    let mut i: usize = from;
    while i <= limit
        invariant
            from <= i,
            find_spec(text@, query@, from as int) == find_spec(text@, query@, i as int),
        decreases text@.len() + 1 - i,
    {
        if match_at(text, query, i) {
            return Some(i);
        }
        if i == limit {
            proof {
                assert(find_spec(text@, query@, i + 1) is None);
            }
            return None;
        }
        i = i + 1;
    }
    None
}

/// The last occurrence of `query` wholly inside the first `upto` characters,
/// scanning backward; exactly `rfind_spec`.
#[verifier::loop_isolation(false)]
pub fn rfind_before(text: &[char], query: &[char], upto: usize) -> (r: Option<usize>)
    requires
        upto <= text.len(),
    ensures
        match r {
            Some(i) => rfind_spec(text@, query@, upto as int) == Some(i as int),
            None => rfind_spec(text@, query@, upto as int) is None,
        },
{
    if query.len() == 0 {
        proof {
            assert(text@.subrange(upto as int, upto as int) =~= query@);
        }
        return Some(upto);
    }
    let mut u: usize = upto;
    while u >= query.len()
        invariant
            u <= upto,
            rfind_spec(text@, query@, upto as int) == rfind_spec(text@, query@, u as int),
        decreases u,
    {
        if match_at(text, query, u - query.len()) {
            return Some(u - query.len());
        }
        u = u - 1;
    }
    None
}

/// A found occurrence lies at or after the search start and matches.
pub proof fn lemma_find_spec_bounds(t: Seq<char>, q: Seq<char>, from: int, i: int)
    requires
        0 <= from,
        find_spec(t, q, from) == Some(i),
    ensures
        from <= i,
        is_match_at(t, q, i),
    decreases t.len() + 1 - from,
{
    if from + q.len() <= t.len() && !is_match_at(t, q, from) {
        lemma_find_spec_bounds(t, q, from + 1, i);
    }
}

/// When some offset at or after `from` matches, the forward search finds one.
pub proof fn lemma_find_spec_complete(t: Seq<char>, q: Seq<char>, from: int, w: int)
    requires
        0 <= from <= w,
        is_match_at(t, q, w),
    ensures
        find_spec(t, q, from) is Some,
    decreases w - from,
{
    if from < w && !is_match_at(t, q, from) {
        lemma_find_spec_complete(t, q, from + 1, w);
    }
}

/// A backward hit matches and lies wholly before `upto`.
pub proof fn lemma_rfind_spec_bounds(t: Seq<char>, q: Seq<char>, upto: int, i: int)
    requires
        upto <= t.len(),
        rfind_spec(t, q, upto) == Some(i),
    ensures
        i + q.len() <= upto,
        is_match_at(t, q, i),
    decreases upto + 1,
{
    if upto >= q.len() && !is_match_at(t, q, upto - q.len()) {
        lemma_rfind_spec_bounds(t, q, upto - 1, i);
    }
}

/// When some occurrence ends at or before `upto`, the backward search finds
/// one, and it is the last such occurrence.
pub proof fn lemma_rfind_spec_complete(t: Seq<char>, q: Seq<char>, upto: int, w: int)
    requires
        0 <= w,
        w + q.len() <= upto <= t.len(),
        is_match_at(t, q, w),
    ensures
        rfind_spec(t, q, upto) is Some,
        rfind_spec(t, q, upto)->0 >= w,
    decreases upto,
{
    if upto - q.len() != w {
        lemma_rfind_spec_complete(t, q, upto - 1, w);
    }
}
}
