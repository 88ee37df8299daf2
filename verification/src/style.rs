//! Style runs: which text attributes are active from a given offset onward.
//! A run records the whole state, not a toggle, so any line can resume with
//! the correct style without replaying the chapter from its beginning.

use vstd::prelude::*;

verus! {

/// The text attributes active at a point of the chapter text.
#[derive(Clone, Copy, PartialEq, Eq, Structural, Debug)]
pub struct StyleState {
    pub bold: bool,
    pub italic: bool,
    pub underline: bool,
}

impl StyleState {
    /// No attribute set: the state a chapter begins in.
    pub fn plain() -> (r: StyleState)
        ensures
            r == (StyleState { bold: false, italic: false, underline: false }),
    {
        StyleState { bold: false, italic: false, underline: false }
    }
}

/// A style run: the state of the text from this offset on.
pub type StyleRun = (usize, StyleState);

/// Runs are strictly increasing by offset and open with the state at offset
/// zero.
pub open spec fn runs_wf(runs: Seq<StyleRun>) -> bool {
    &&& runs.len() > 0
    &&& runs[0].0 == 0
    &&& (forall|i: int| 0 <= i < runs.len() - 1 ==> (#[trigger] runs[i]).0 < runs[i + 1].0)
}

/// Strict growth carries from neighbours to any pair.
pub proof fn lemma_runs_mono(runs: Seq<StyleRun>, i: int, j: int)
    requires
        runs_wf(runs),
        0 <= i < j < runs.len(),
    ensures
        runs[i].0 < runs[j].0,
    decreases j - i,
{
    if i + 1 < j {
        lemma_runs_mono(runs, i + 1, j);
    }
}

/// The greatest run whose offset is at or under `byte`: the run active there.
#[verifier::loop_isolation(false)]
pub fn run_of(runs: &Vec<StyleRun>, byte: usize) -> (r: usize)
    requires
        runs_wf(runs@),
    ensures
        r < runs@.len(),
        runs@[r as int].0 <= byte,
        forall|k: int| r < k < runs@.len() ==> (#[trigger] runs@[k]).0 > byte,
{
    let mut lo: usize = 0;
    let mut hi: usize = runs.len() - 1;
    while lo < hi
        invariant
            lo <= hi < runs@.len(),
            runs@[lo as int].0 <= byte,
            forall|k: int| hi < k < runs@.len() ==> (#[trigger] runs@[k]).0 > byte,
        decreases hi - lo,
    {
        let mid = lo + (hi - lo + 1) / 2;
        if runs[mid].0 <= byte {
            lo = mid;
        } else {
            proof {
                assert forall|k: int|
                    mid - 1 < k < runs@.len() implies (#[trigger] runs@[k]).0 > byte by {
                    if mid < k {
                        lemma_runs_mono(runs@, mid as int, k);
                    }
                }
            }
            hi = mid - 1;
        }
    }
    lo
}
}
