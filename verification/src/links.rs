//! Link spans and hit-testing: from an offset in a chapter's text to the link
//! that covers it, by binary search over the ordered, pairwise-disjoint spans.

use vstd::prelude::*;

verus! {

/// A link span: the covered text range and the link's target.
pub type LinkSpan = (usize, usize, Vec<char>);

/// Link spans are ordered and pairwise disjoint: each one ends before the
/// next begins.
pub open spec fn links_wf(links: Seq<LinkSpan>) -> bool {
    &&& (forall|i: int| 0 <= i < links.len() ==> (#[trigger] links[i]).0 <= links[i].1)
    &&& (forall|i: int|
        0 <= i < links.len() - 1 ==> (#[trigger] links[i]).1 <= links[i + 1].0)
}

/// Disjointness carries from neighbours to any pair.
pub proof fn lemma_links_mono(links: Seq<LinkSpan>, i: int, j: int)
    requires
        links_wf(links),
        0 <= i <= j < links.len(),
    ensures
        links[i].1 <= links[j].1,
        links[i].0 <= links[j].0,
    decreases j - i,
{
    if i < j {
        lemma_links_mono(links, i + 1, j);
    }
}

/// The link span holding `byte`, if any: a three-way binary search over the
/// ordered disjoint spans. Answers the span's index exactly when `byte` lies
/// inside it, and nothing exactly when no span holds `byte`.
#[verifier::loop_isolation(false)]
pub fn find_link(links: &Vec<LinkSpan>, byte: usize) -> (r: Option<usize>)
    requires
        links_wf(links@),
    ensures
        match r {
            Some(idx) => idx < links@.len() && links@[idx as int].0 <= byte
                && byte < links@[idx as int].1,
            None => forall|k: int|
                0 <= k < links@.len() ==> !((#[trigger] links@[k]).0 <= byte < links@[k].1),
        },
{
    let mut lo: usize = 0;
    let mut hi: usize = links.len();
    while lo < hi
        invariant
            lo <= hi <= links@.len(),
            forall|k: int| 0 <= k < lo ==> (#[trigger] links@[k]).1 <= byte,
            forall|k: int| hi <= k < links@.len() ==> (#[trigger] links@[k]).0 > byte,
        decreases hi - lo,
    {
        let mid = lo + (hi - lo) / 2;
        if links[mid].0 > byte {
            proof {
                assert forall|k: int|
                    mid <= k < links@.len() implies (#[trigger] links@[k]).0 > byte by {
                    lemma_links_mono(links@, mid as int, k);
                }
            }
            hi = mid;
        } else if links[mid].1 <= byte {
            proof {
                assert forall|k: int| 0 <= k < mid + 1 implies (#[trigger] links@[k]).1 <= byte by {
                    if k < mid {
                        lemma_links_mono(links@, k, mid as int);
                    }
                }
            }
            lo = mid + 1;
        } else {
            return Some(mid);
        }
    }
    None
}

/// The target of the link span holding `byte`, if any.
pub open spec fn link_at(links: Seq<(int, int, Seq<char>)>, byte: int) -> Option<Seq<char>>
    decreases links.len(),
{
    if links.len() == 0 {
        None
    } else if links[0].0 <= byte < links[0].1 {
        Some(links[0].2)
    } else {
        link_at(links.drop_first(), byte)
    }
}

/// What `find_link` answers is what `link_at` names: a hit is the holding
/// span's target, a miss means no span holds the offset.
pub proof fn lemma_link_at_hit(links: Seq<(int, int, Seq<char>)>, byte: int, idx: int)
    requires
        0 <= idx < links.len(),
        links[idx].0 <= byte < links[idx].1,
        forall|i: int| 0 <= i < links.len() - 1 ==> (#[trigger] links[i]).1 <= links[i + 1].0,
        forall|i: int| 0 <= i < links.len() ==> (#[trigger] links[i]).0 <= links[i].1,
    ensures
        link_at(links, byte) == Some(links[idx].2),
    decreases links.len(),
{
    if idx > 0 {
        lemma_span_mono(links, 0, idx);
        assert(links[0].1 <= links[idx].0);
        assert(!(links[0].0 <= byte < links[0].1));
        assert(forall|i: int|
            0 <= i < links.drop_first().len() ==> #[trigger] links.drop_first()[i] == links[
            i + 1]);
        lemma_link_at_hit(links.drop_first(), byte, idx - 1);
    }
}

proof fn lemma_span_mono(links: Seq<(int, int, Seq<char>)>, i: int, j: int)
    requires
        forall|k: int| 0 <= k < links.len() - 1 ==> (#[trigger] links[k]).1 <= links[k + 1].0,
        forall|k: int| 0 <= k < links.len() ==> (#[trigger] links[k]).0 <= links[k].1,
        0 <= i <= j < links.len(),
    ensures
        links[i].1 <= links[j].1,
        links[i].0 <= links[j].0,
        i < j ==> links[i].1 <= links[j].0,
    decreases j - i,
{
    if i < j {
        lemma_span_mono(links, i + 1, j);
    }
}

/// No span holds `byte`: `link_at` answers nothing.
pub proof fn lemma_link_at_miss(links: Seq<(int, int, Seq<char>)>, byte: int)
    requires
        forall|i: int| 0 <= i < links.len() ==> !((#[trigger] links[i]).0 <= byte < links[i].1),
    ensures
        link_at(links, byte) is None,
    decreases links.len(),
{
    if links.len() > 0 {
        assert(forall|i: int|
            0 <= i < links.drop_first().len() ==> links.drop_first()[i] == links[i + 1]);
        lemma_link_at_miss(links.drop_first(), byte);
    }
}
}
