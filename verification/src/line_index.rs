//! The line index: a binary search from a text offset to the number of the
//! display line that holds it.

use vstd::prelude::*;
use crate::wrap::{gap_ok, lines_cover};

verus! {

/// Line starts never decrease from one span to the next.
pub open spec fn starts_sorted(lines: Seq<(usize, usize)>) -> bool {
    forall|i: int, j: int|
        0 <= i <= j < lines.len() ==> (#[trigger] lines[i]).0 <= (#[trigger] lines[j]).0
}

/// Spans that cover the text in order have sorted starts.
pub proof fn lemma_cover_starts_sorted(t: Seq<char>, lines: Seq<(usize, usize)>)
    requires
        lines_cover(t, lines),
    ensures
        starts_sorted(lines),
{
    assert forall|i: int, j: int|
        0 <= i <= j < lines.len() implies (#[trigger] lines[i]).0 <= (#[trigger] lines[j]).0 by {
        lemma_start_mono(t, lines, i, j);
    }
}

/// Along covering spans, the start and end offsets grow with the index.
pub proof fn lemma_start_mono(t: Seq<char>, lines: Seq<(usize, usize)>, i: int, j: int)
    requires
        lines_cover(t, lines),
        0 <= i <= j < lines.len(),
    ensures
        lines[i].0 <= lines[j].0,
        lines[i].1 <= lines[j].1,
    decreases j - i,
{
    if i < j {
        lemma_start_mono(t, lines, i + 1, j);
        assert(gap_ok(t, lines[i].1 as int, lines[i + 1].0 as int));
    }
}

/// What `line_of` answers: the greatest line whose start is at or under
/// `byte`.
pub open spec fn line_of_post(lines: Seq<(usize, usize)>, r: int, byte: int) -> bool {
    &&& 0 <= r < lines.len()
    &&& lines[r].0 <= byte
    &&& (forall|k: int| r < k < lines.len() ==> (#[trigger] lines[k]).0 > byte)
}

/// The greatest line whose start is at or under `byte`: the line that holds
/// `byte` when the spans cover the text and `byte` is inside one of them.
#[verifier::loop_isolation(false)]
pub fn line_of(lines: &Vec<(usize, usize)>, byte: usize) -> (r: usize)
    requires
        lines@.len() > 0,
        lines@[0].0 == 0,
        starts_sorted(lines@),
    ensures
        r < lines@.len(),
        lines@[r as int].0 <= byte,
        forall|k: int| r < k < lines@.len() ==> (#[trigger] lines@[k]).0 > byte,
        line_of_post(lines@, r as int, byte as int),
{
    let mut lo: usize = 0;
    let mut hi: usize = lines.len() - 1;
    while lo < hi
        invariant
            lo <= hi < lines@.len(),
            lines@[lo as int].0 <= byte,
            forall|k: int| hi < k < lines@.len() ==> (#[trigger] lines@[k]).0 > byte,
        decreases hi - lo,
    {
        let mid = lo + (hi - lo + 1) / 2;
        if lines[mid].0 <= byte {
            lo = mid;
        } else {
            proof {
                assert forall|k: int|
                    mid - 1 < k < lines@.len() implies (#[trigger] lines@[k]).0 > byte by {
                    assert(lines@[mid as int].0 <= lines@[k].0);
                }
            }
            hi = mid - 1;
        }
    }
    lo
}

/// Every offset of a line maps back to that line: for covering spans with
/// nothing empty, the index `line_of` answers for any offset inside span `k` —
/// its start and its last offset included — is `k` itself.
pub proof fn lemma_line_of_own_span(
    t: Seq<char>,
    lines: Seq<(usize, usize)>,
    k: int,
    byte: int,
    r: int,
)
    requires
        lines_cover(t, lines),
        forall|i: int| 0 <= i < lines.len() ==> (#[trigger] lines[i]).0 < lines[i].1,
        0 <= k < lines.len(),
        lines[k].0 <= byte < lines[k].1,
        // what `line_of` ensures of its answer
        0 <= r < lines.len(),
        lines[r].0 <= byte,
        forall|i: int| r < i < lines.len() ==> (#[trigger] lines[i]).0 > byte,
    ensures
        r == k,
{
    if r < k {
        // span k starts above byte, yet holds it
        assert(lines[k].0 > byte);
    }
    if r > k {
        // spans past k start at or past the end of span k, above byte
        assert(gap_ok(t, lines[k].1 as int, lines[k + 1].0 as int));
        lemma_start_mono(t, lines, k + 1, r);
        assert(lines[r].0 >= lines[k + 1].0 >= lines[k].1 > byte);
    }
}
}
