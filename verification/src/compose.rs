//! The style/highlight compositor: for the visible text range, base style
//! events and live search-highlight events are generated, merged into one
//! ascending stream — ties always in favour of the base style event — and
//! spliced into the visible lines.

use vstd::prelude::*;
use crate::search::{find_spec, lemma_find_spec_bounds};
use crate::style::{lemma_runs_mono, run_of, runs_wf, StyleRun, StyleState};

verus! {

/// One drawing instruction of a composed frame line: a run of chapter text,
/// a change of the base style state, or a search-highlight toggle.
pub enum Piece {
    Text { chars: Vec<char> },
    Style { state: StyleState },
    Highlight { on: bool },
}

/// A `Piece` as specifications see it: text as a character sequence.
pub ghost enum PieceView {
    Text { chars: Seq<char> },
    Style { state: StyleState },
    Highlight { on: bool },
}

impl View for Piece {
    type V = PieceView;

    open spec fn view(&self) -> PieceView {
        match self {
            Piece::Text { chars } => PieceView::Text { chars: chars@ },
            Piece::Style { state } => PieceView::Style { state: *state },
            Piece::Highlight { on } => PieceView::Highlight { on: *on },
        }
    }
}

/// A compositor event: at this text offset, this style or highlight change.
pub type Ev = (usize, Piece);

/// Event offsets never decrease along the stream.
pub open spec fn evs_sorted(evs: Seq<Ev>) -> bool {
    forall|i: int, j: int|
        0 <= i <= j < evs.len() ==> (#[trigger] evs[i]).0 <= (#[trigger] evs[j]).0
}

/// All event offsets lie at or after `lo`.
pub open spec fn evs_from(evs: Seq<Ev>, lo: int) -> bool {
    forall|i: int| 0 <= i < evs.len() ==> (#[trigger] evs[i]).0 >= lo
}

/// The highlight events for every occurrence of `q` that lies wholly inside
/// `[from, te)` of `t`: a turn-on at the occurrence and a turn-off past it,
/// occurrence by occurrence, the way the live search walks them.
pub open spec fn highlight_spec(t: Seq<char>, q: Seq<char>, from: int, te: int) -> Seq<Ev>
    decreases te - from,
    when 0 <= from && q.len() > 0
    via highlight_spec_dec
{
    match find_spec(t, q, from) {
        None => Seq::empty(),
        Some(m) => if m + q.len() <= te {
            seq![
                (m as usize, Piece::Highlight { on: true }),
                ((m + q.len()) as usize, Piece::Highlight { on: false }),
            ] + highlight_spec(t, q, m + q.len(), te)
        } else {
            Seq::empty()
        },
    }
}

#[via_fn]
proof fn highlight_spec_dec(t: Seq<char>, q: Seq<char>, from: int, te: int) {
    match find_spec(t, q, from) {
        None => {},
        Some(m) => {
            lemma_find_spec_bounds(t, q, from, m);
        },
    }
}

/// Highlight events are sorted, lie within `[from, te]`, and are all
/// highlight toggles.
pub proof fn lemma_highlight_shape(t: Seq<char>, q: Seq<char>, from: int, te: int)
    requires
        0 <= from,
        q.len() > 0,
        te <= t.len(),
        te <= usize::MAX,
    ensures
        evs_sorted(highlight_spec(t, q, from, te)),
        evs_from(highlight_spec(t, q, from, te), from),
        forall|i: int|
            0 <= i < highlight_spec(t, q, from, te).len() ==> (#[trigger] highlight_spec(
                t,
                q,
                from,
                te,
            )[i]).0 <= te && highlight_spec(t, q, from, te)[i].1@ is Highlight,
    decreases te - from,
{
    match find_spec(t, q, from) {
        None => {},
        Some(m) => {
            lemma_find_spec_bounds(t, q, from, m);
            if m + q.len() <= te {
                lemma_highlight_shape(t, q, m + q.len(), te);
                let rest = highlight_spec(t, q, m + q.len(), te);
                let hs = highlight_spec(t, q, from, te);
                assert(hs.len() == 2 + rest.len());
                assert(hs[0] == (m as usize, Piece::Highlight { on: true }));
                assert(hs[1] == (((m + q.len()) as usize), Piece::Highlight { on: false }));
                assert(forall|i: int| 2 <= i < hs.len() ==> hs[i] == rest[i - 2]);
                assert forall|i: int, j: int|
                    0 <= i <= j < hs.len() implies (#[trigger] hs[i]).0 <= (#[trigger] hs[j]).0 by {
                    if 2 <= i {
                        assert(rest[i - 2].0 <= rest[j - 2].0);
                    } else if 2 <= j {
                        assert(rest[j - 2].0 >= m + q.len());
                    }
                }
            }
        },
    }
}

/// The highlight events of the visible range, generated fresh each frame:
/// exactly `highlight_spec`, and nothing when the query is empty.
#[verifier::loop_isolation(false)]
pub fn highlight_events(text: &[char], query: &[char], ts: usize, te: usize) -> (r: Vec<Ev>)
    requires
        ts <= te <= text.len(),
    ensures
        query@.len() > 0 ==> r@ == highlight_spec(text@, query@, ts as int, te as int),
        query@.len() == 0 ==> r@ == Seq::<Ev>::empty(),
{
    let mut r: Vec<Ev> = Vec::new();
    if query.len() == 0 {
        proof {
            assert(r@ =~= Seq::<Ev>::empty());
        }
        return r;
    }
    let mut cur: usize = ts;
    loop
        invariant
            ts <= cur,
            r@ + highlight_spec(text@, query@, cur as int, te as int) == highlight_spec(
                text@,
                query@,
                ts as int,
                te as int,
            ),
        decreases te + query@.len() - cur,
    {
        match crate::search::find_from(text, query, cur) {
            None => {
                proof {
                    assert(r@ + highlight_spec(text@, query@, cur as int, te as int) =~= r@);
                }
                return r;
            },
            Some(m) => {
                proof {
                    lemma_find_spec_bounds(text@, query@, cur as int, m as int);
                }
                if m > te || te - m < query.len() {
                    proof {
                        assert(r@ + highlight_spec(text@, query@, cur as int, te as int) =~= r@);
                    }
                    return r;
                }
                let ghost r0 = r@;
                r.push((m, Piece::Highlight { on: true }));
                r.push((m + query.len(), Piece::Highlight { on: false }));
                proof {
                    assert(r@ =~= r0 + seq![
                        (m, Piece::Highlight { on: true }),
                        ((m + query@.len()) as usize, Piece::Highlight { on: false }),
                    ]);
                    assert(r@ + highlight_spec(text@, query@, m + query@.len(), te as int) =~= r0
                        + highlight_spec(text@, query@, cur as int, te as int));
                }
                cur = m + query.len();
            },
        }
    }
}

/// How many style runs begin at or before `byte` (for runs sorted by offset).
pub open spec fn cut_idx(runs: Seq<StyleRun>, byte: int) -> int
    decreases runs.len(),
{
    if runs.len() == 0 {
        0
    } else if runs.last().0 <= byte {
        runs.len() as int
    } else {
        cut_idx(runs.drop_last(), byte)
    }
}

/// `cut_idx` is the unique cut between the runs at or before `byte` and the
/// runs past it.
pub proof fn lemma_cut_idx_char(runs: Seq<StyleRun>, byte: int, k: int)
    requires
        forall|i: int, j: int|
            0 <= i <= j < runs.len() ==> (#[trigger] runs[i]).0 <= (#[trigger] runs[j]).0,
        0 <= k <= runs.len(),
        forall|i: int| 0 <= i < k ==> (#[trigger] runs[i]).0 <= byte,
        k < runs.len() ==> runs[k].0 > byte,
    ensures
        cut_idx(runs, byte) == k,
    decreases runs.len(),
{
    if runs.len() == 0 {
    } else if runs.last().0 <= byte {
        if k < runs.len() {
            assert(runs[k].0 <= runs[runs.len() - 1].0);
        }
    } else {
        assert(k < runs.len());
        lemma_cut_idx_char(runs.drop_last(), byte, k);
    }
}

/// The style state active at `byte`: that of the last run at or before it.
pub open spec fn active_at(runs: Seq<StyleRun>, byte: int) -> StyleState {
    runs[cut_idx(runs, byte) - 1].1
}

/// The base style events of the visible range `[ts, te]`: first the state
/// already active at `ts`, then every run that begins inside the range.
pub open spec fn base_events_spec(runs: Seq<StyleRun>, ts: int, te: int) -> Seq<Ev> {
    seq![(ts as usize, Piece::Style { state: active_at(runs, ts) })] + runs.subrange(
        cut_idx(runs, ts),
        cut_idx(runs, te),
    ).map_values(|r: StyleRun| (r.0, Piece::Style { state: r.1 }))
}

/// What the base event list looks like: sorted, within `[ts, te]`, all of
/// them style states.
proof fn lemma_base_shape(runs: Seq<StyleRun>, ts: int, te: int, idx: int, k: int, r: Seq<Ev>)
    requires
        runs_wf(runs),
        0 <= ts <= te <= usize::MAX,
        0 <= idx < runs.len(),
        runs[idx].0 <= ts,
        idx + 1 <= k <= runs.len(),
        forall|i: int| idx + 1 <= i < k ==> (#[trigger] runs[i]).0 <= te,
        forall|i: int| idx < i < runs.len() ==> (#[trigger] runs[i]).0 > ts,
        r == seq![((ts as usize), Piece::Style { state: active_at(runs, ts) })] + runs.subrange(
            idx + 1,
            k,
        ).map_values(|x: StyleRun| (x.0, Piece::Style { state: x.1 })),
    ensures
        evs_sorted(r),
        evs_from(r, ts),
        forall|i: int| 0 <= i < r.len() ==> (#[trigger] r[i]).0 <= te && r[i].1@ is Style,
{
    let tail = runs.subrange(idx + 1, k).map_values(
        |x: StyleRun| (x.0, Piece::Style { state: x.1 }),
    );
    assert(r.len() == 1 + tail.len());
    assert(forall|i: int| 1 <= i < r.len() ==> r[i] == tail[i - 1]);
    assert(forall|i: int| 0 <= i < tail.len() ==> tail[i].0 == runs[idx + 1 + i].0);
    assert forall|i: int, j: int|
        0 <= i <= j < r.len() implies (#[trigger] r[i]).0 <= (#[trigger] r[j]).0 by {
        if 1 <= i && i < j {
            lemma_runs_mono(runs, idx + i, idx + j);
        }
    }
    assert forall|i: int|
        0 <= i < r.len() implies (#[trigger] r[i]).0 >= ts && r[i].0 <= te && r[i].1@
        is Style by {}
}

/// The base style events of the visible range: exactly `base_events_spec`,
/// sorted, inside `[ts, te]`, and all of them style states.
#[verifier::loop_isolation(false)]
#[verifier::rlimit(100)]
pub fn base_events(runs: &Vec<StyleRun>, ts: usize, te: usize) -> (r: Vec<Ev>)
    requires
        runs_wf(runs@),
        ts <= te,
    ensures
        r@ == base_events_spec(runs@, ts as int, te as int),
        evs_sorted(r@),
        evs_from(r@, ts as int),
        forall|i: int|
            0 <= i < r@.len() ==> (#[trigger] r@[i]).0 <= te && r@[i].1@ is Style,
{
    proof {
        assert forall|i: int, j: int|
            0 <= i <= j < runs@.len() implies (#[trigger] runs@[i]).0 <= (
        #[trigger] runs@[j]).0 by {
            if i < j {
                lemma_runs_mono(runs@, i, j);
            }
        }
    }
    let n = runs.len();
    let idx = run_of(runs, ts);
    proof {
        assert(idx < n);
        lemma_cut_idx_char(runs@, ts as int, idx + 1);
    }
    let mut r: Vec<Ev> = Vec::new();
    r.push((ts, Piece::Style { state: runs[idx].1 }));
    let mut k: usize = idx + 1;
    proof {
        assert(r@ =~= base_events_spec(runs@, ts as int, ts as int));
        lemma_cut_idx_char(runs@, ts as int, idx + 1);
    }
    while k < runs.len() && runs[k].0 <= te
        invariant
            idx + 1 <= k <= runs@.len(),
            forall|i: int| idx + 1 <= i < k ==> (#[trigger] runs@[i]).0 <= te,
            r@ == seq![
                ((ts as usize), Piece::Style { state: active_at(runs@, ts as int) }),
            ] + runs@.subrange(idx + 1, k as int).map_values(
                |x: StyleRun| (x.0, Piece::Style { state: x.1 }),
            ),
        decreases runs@.len() - k,
    {
        let ghost r0 = r@;
        r.push((runs[k].0, Piece::Style { state: runs[k].1 }));
        proof {
            assert(runs@.subrange(idx + 1, k + 1).drop_last() =~= runs@.subrange(
                idx + 1,
                k as int,
            ));
            assert(r@ =~= seq![
                ((ts as usize), Piece::Style { state: active_at(runs@, ts as int) }),
            ] + runs@.subrange(idx + 1, k + 1).map_values(
                |x: StyleRun| (x.0, Piece::Style { state: x.1 }),
            ));
        }
        k = k + 1;
    }
    proof {
        lemma_cut_idx_char(runs@, te as int, k as int);
        lemma_base_shape(runs@, ts as int, te as int, idx as int, k as int, r@);
    }
    r
}

/// Two event streams merged ascending by offset; at an equal offset the base
/// event goes first.
pub open spec fn merge_spec(hl: Seq<Ev>, base: Seq<Ev>) -> Seq<Ev>
    decreases hl.len() + base.len(),
{
    if hl.len() == 0 {
        base
    } else if base.len() == 0 {
        hl
    } else if hl[0].0 < base[0].0 {
        seq![hl[0]] + merge_spec(hl.drop_first(), base)
    } else {
        seq![base[0]] + merge_spec(hl, base.drop_first())
    }
}

/// The compositor merge is order-stable: the merged stream of sorted
/// highlight events and sorted base style events is sorted, keeps every
/// event, and wherever the two kinds meet at one offset, the base style
/// change is applied first — the highlight layers on top, never pre-empted.
pub proof fn lemma_merge_base_first(hl: Seq<Ev>, base: Seq<Ev>)
    requires
        evs_sorted(hl),
        evs_sorted(base),
        forall|i: int| 0 <= i < hl.len() ==> (#[trigger] hl[i]).1@ is Highlight,
        forall|i: int| 0 <= i < base.len() ==> (#[trigger] base[i]).1@ is Style,
    ensures
        evs_sorted(merge_spec(hl, base)),
        merge_spec(hl, base).len() == hl.len() + base.len(),
        forall|i: int|
            0 <= i < merge_spec(hl, base).len() ==> (#[trigger] merge_spec(hl, base)[i]).1@
                is Style || merge_spec(hl, base)[i].1@ is Highlight,
        forall|i: int|
            0 <= i < merge_spec(hl, base).len() && (#[trigger] merge_spec(hl, base)[i]).1@
                is Style ==> exists|j: int|
                0 <= j < base.len() && base[j] == merge_spec(hl, base)[i],
        forall|i: int|
            0 <= i < merge_spec(hl, base).len() && (#[trigger] merge_spec(hl, base)[i]).1@
                is Highlight ==> exists|j: int|
                0 <= j < hl.len() && hl[j] == merge_spec(hl, base)[i],
        forall|p: int, q: int|
            0 <= p < q < merge_spec(hl, base).len() && (#[trigger] merge_spec(hl, base)[p]).0 == (
            #[trigger] merge_spec(hl, base)[q]).0 && merge_spec(hl, base)[p].1@ is Highlight
                ==> merge_spec(hl, base)[q].1@ is Highlight,
    decreases hl.len() + base.len(),
{
    let out = merge_spec(hl, base);
    if hl.len() == 0 {
        assert forall|i: int|
            0 <= i < out.len() && (#[trigger] out[i]).1@ is Style implies exists|j: int|
            0 <= j < base.len() && base[j] == out[i] by {
            assert(base[i] == out[i]);
        }
    } else if base.len() == 0 {
        assert forall|i: int|
            0 <= i < out.len() && (#[trigger] out[i]).1@ is Highlight implies exists|j: int|
            0 <= j < hl.len() && hl[j] == out[i] by {
            assert(hl[i] == out[i]);
        }
    } else if hl[0].0 < base[0].0 {
        let rest = merge_spec(hl.drop_first(), base);
        lemma_merge_base_first(hl.drop_first(), base);
        assert(out == seq![hl[0]] + rest);
        assert(out[0] == hl[0]);
        assert(forall|i: int| 1 <= i < out.len() ==> out[i] == rest[i - 1]);
        assert forall|i: int, j: int|
            0 <= i <= j < out.len() implies (#[trigger] out[i]).0 <= (#[trigger] out[j]).0 by {
            if i >= 1 {
                assert(rest[i - 1].0 <= rest[j - 1].0);
            } else if j >= 1 {
                let e = rest[j - 1];
                if e.1@ is Style {
                    let w = choose|w: int| 0 <= w < base.len() && base[w] == rest[j - 1];
                    assert(base[0].0 <= base[w].0);
                } else {
                    assert(rest[j - 1].1@ is Highlight);
                    let w = choose|w: int|
                        0 <= w < hl.drop_first().len() && hl.drop_first()[w] == rest[j - 1];
                    assert(hl.drop_first()[w] == hl[w + 1]);
                    assert(hl[0].0 <= hl[w + 1].0);
                }
            }
        }
        assert forall|p: int, q: int|
            0 <= p < q < out.len() && (#[trigger] out[p]).0 == (#[trigger] out[q]).0
                && out[p].1@ is Highlight implies out[q].1@ is Highlight by {
            if p >= 1 {
                assert(rest[p - 1].0 == rest[q - 1].0 && rest[p - 1].1@ is Highlight);
            } else {
                if out[q].1@ is Style {
                    let w = choose|w: int| 0 <= w < base.len() && base[w] == rest[q - 1];
                    assert(base[0].0 <= base[w].0);
                }
            }
        }
    } else {
        let rest = merge_spec(hl, base.drop_first());
        lemma_merge_base_first(hl, base.drop_first());
        assert(out == seq![base[0]] + rest);
        assert(out[0] == base[0]);
        assert(forall|i: int| 1 <= i < out.len() ==> out[i] == rest[i - 1]);
        assert forall|i: int|
            0 <= i < out.len() && (#[trigger] out[i]).1@ is Style implies exists|j: int|
            0 <= j < base.len() && base[j] == out[i] by {
            if i >= 1 && rest[i - 1].1@ is Style {
                let w = choose|w: int|
                    0 <= w < base.drop_first().len() && base.drop_first()[w] == rest[i - 1];
                assert(base.drop_first()[w] == base[w + 1]);
                assert(base[w + 1] == out[i]);
            }
        }
        assert forall|i: int, j: int|
            0 <= i <= j < out.len() implies (#[trigger] out[i]).0 <= (#[trigger] out[j]).0 by {
            if i >= 1 {
                assert(rest[i - 1].0 <= rest[j - 1].0);
            } else if j >= 1 {
                let e = rest[j - 1];
                if e.1@ is Style {
                    let w = choose|w: int|
                        0 <= w < base.drop_first().len() && base.drop_first()[w] == rest[j - 1];
                    assert(base.drop_first()[w] == base[w + 1]);
                    assert(base[0].0 <= base[w + 1].0);
                } else {
                    assert(rest[j - 1].1@ is Highlight);
                    let w = choose|w: int| 0 <= w < hl.len() && hl[w] == rest[j - 1];
                    assert(hl[0].0 <= hl[w].0);
                    assert(base[0].0 <= hl[0].0);
                }
            }
        }
        assert forall|p: int, q: int|
            0 <= p < q < out.len() && (#[trigger] out[p]).0 == (#[trigger] out[q]).0
                && out[p].1@ is Highlight implies out[q].1@ is Highlight by {
            if p >= 1 {
                assert(rest[p - 1].0 == rest[q - 1].0 && rest[p - 1].1@ is Highlight);
            }
        }
    }
}

/// Merges highlight and base events into one stream ascending by offset;
/// at an equal offset the base style event is taken first.
pub fn merge_events(hl: Vec<Ev>, base: Vec<Ev>) -> (r: Vec<Ev>)
    ensures
        r@ == merge_spec(hl@, base@),
{
    let ghost hl0 = hl@;
    let ghost base0 = base@;
    let mut hl = hl;
    let mut base = base;
    let mut r: Vec<Ev> = Vec::new();
    while hl.len() > 0 && base.len() > 0
        invariant
            r@ + merge_spec(hl@, base@) == merge_spec(hl0, base0),
        decreases hl@.len() + base@.len(),
    {
        let ghost ra = r@;
        let ghost ha = hl@;
        let ghost ba = base@;
        if hl[0].0 < base[0].0 {
            let e = hl.remove(0);
            proof {
                assert(hl@ =~= ha.drop_first());
            }
            r.push(e);
            proof {
                assert(r@ + merge_spec(hl@, base@) =~= ra + (seq![ha[0]] + merge_spec(
                    ha.drop_first(),
                    ba,
                )));
            }
        } else {
            let e = base.remove(0);
            proof {
                assert(base@ =~= ba.drop_first());
            }
            r.push(e);
            proof {
                assert(r@ + merge_spec(hl@, base@) =~= ra + (seq![ba[0]] + merge_spec(
                    ha,
                    ba.drop_first(),
                )));
            }
        }
    }
    while hl.len() > 0
        invariant
            hl@.len() > 0 ==> base@.len() == 0,
            r@ + merge_spec(hl@, base@) == merge_spec(hl0, base0),
        decreases hl@.len(),
    {
        let ghost ra = r@;
        let ghost ha = hl@;
        let e = hl.remove(0);
        proof {
            assert(hl@ =~= ha.drop_first());
        }
        r.push(e);
        proof {
            assert(merge_spec(ha, base@) == ha);
            assert(merge_spec(hl@, base@) == hl@);
            assert(r@ + hl@ =~= ra + ha);
        }
    }
    while base.len() > 0
        invariant
            hl@.len() == 0,
            r@ + merge_spec(hl@, base@) == merge_spec(hl0, base0),
        decreases base@.len(),
    {
        let ghost ra = r@;
        let ghost ba = base@;
        let e = base.remove(0);
        proof {
            assert(base@ =~= ba.drop_first());
        }
        r.push(e);
        proof {
            assert(merge_spec(hl@, ba) == ba);
            assert(merge_spec(hl@, base@) == base@);
            assert(r@ + base@ =~= ra + ba);
        }
    }
    proof {
        assert(r@ =~= r@ + merge_spec(hl@, base@));
    }
    r
}

/// The events still pending once a line ending at `e` is drawn: those past it.
pub open spec fn skip_past(evs: Seq<Ev>, e: int) -> Seq<Ev>
    decreases evs.len(),
{
    if evs.len() == 0 {
        evs
    } else if evs[0].0 <= e {
        skip_past(evs.drop_first(), e)
    } else {
        evs
    }
}

/// One rendered line: the text from `pos` to the line end `e`, with every
/// event at or before `e` spliced in at its offset.
pub open spec fn splice_line(t: Seq<char>, evs: Seq<Ev>, pos: int, e: int) -> Seq<PieceView>
    decreases evs.len(),
{
    if evs.len() == 0 || !(evs[0].0 <= e) {
        seq![PieceView::Text { chars: t.subrange(pos, e) }]
    } else {
        seq![PieceView::Text { chars: t.subrange(pos, evs[0].0 as int) }, evs[0].1@]
            + splice_line(t, evs.drop_first(), evs[0].0 as int, e)
    }
}

/// The rendered lines `k` to `last`, each consuming the events up to its end.
pub open spec fn splice_lines(
    t: Seq<char>,
    evs: Seq<Ev>,
    lines: Seq<(usize, usize)>,
    k: int,
    last: int,
) -> Seq<Seq<PieceView>>
    decreases last - k,
    when 0 <= k <= last <= lines.len()
{
    if k == last {
        Seq::empty()
    } else {
        seq![splice_line(t, evs, lines[k].0 as int, lines[k].1 as int)] + splice_lines(
            t,
            skip_past(evs, lines[k].1 as int),
            lines,
            k + 1,
            last,
        )
    }
}

/// The pieces of one line as specifications see them.
pub open spec fn pieces_views(ps: Seq<Piece>) -> Seq<PieceView> {
    ps.map_values(|p: Piece| p@)
}

/// All rendered lines as specifications see them.
pub open spec fn lines_views(r: Seq<Vec<Piece>>) -> Seq<Seq<PieceView>> {
    r.map_values(|l: Vec<Piece>| pieces_views(l@))
}

/// What the compositor shows for one frame: the visible lines are those from
/// `line` on, as many as `rows`; the highlight and base events of the covered
/// text range are merged — base first on ties — and spliced into each line.
pub open spec fn compose_page_spec(
    t: Seq<char>,
    runs: Seq<StyleRun>,
    q: Seq<char>,
    lines: Seq<(usize, usize)>,
    line: int,
    rows: int,
) -> Seq<Seq<PieceView>> {
    let last = if line + rows <= lines.len() {
        line + rows
    } else {
        lines.len() as int
    };
    let ts = lines[line].0 as int;
    let te = lines[last - 1].1 as int;
    let hl = if q.len() > 0 {
        highlight_spec(t, q, ts, te)
    } else {
        Seq::empty()
    };
    splice_lines(t, merge_spec(hl, base_events_spec(runs, ts, te)), lines, line, last)
}

/// Splices one line: consumes the events up to the line end `e_k` and hands
/// back the line's pieces, text interleaved with the consumed events.
#[verifier::loop_isolation(false)]
#[verifier::rlimit(60)]
fn splice_one_line(text: &[char], evs: &mut Vec<Ev>, s_k: usize, e_k: usize) -> (ps: Vec<Piece>)
    requires
        s_k <= e_k <= text@.len(),
        evs_sorted(old(evs)@),
        evs_from(old(evs)@, s_k as int),
    ensures
        pieces_views(ps@) == splice_line(text@, old(evs)@, s_k as int, e_k as int),
        final(evs)@ == skip_past(old(evs)@, e_k as int),
        evs_sorted(final(evs)@),
        forall|i: int| 0 <= i < final(evs)@.len() ==> (#[trigger] final(evs)@[i]).0 > e_k,
{
    let ghost t = text@;
    let ghost evs_k = evs@;
    let mut ps: Vec<Piece> = Vec::new();
    let mut pos: usize = s_k;
    proof {
        assert(pieces_views(ps@) =~= Seq::<PieceView>::empty());
    }
    while evs.len() > 0 && evs[0].0 <= e_k
        invariant
            s_k <= pos <= e_k,
            evs_sorted(evs@),
            evs_from(evs@, pos as int),
            pieces_views(ps@) + splice_line(t, evs@, pos as int, e_k as int) == splice_line(
                t,
                evs_k,
                s_k as int,
                e_k as int,
            ),
            skip_past(evs@, e_k as int) == skip_past(evs_k, e_k as int),
        decreases evs@.len(),
    {
        let ghost ea = evs@;
        let ghost psa = ps@;
        let ghost pos0 = pos;
        let ev = evs.remove(0);
        proof {
            assert(evs@ =~= ea.drop_first());
        }
        ps.push(Piece::Text { chars: crate::text::copy_range(text, pos, ev.0) });
        ps.push(ev.1);
        pos = ev.0;
        proof {
            assert(pieces_views(ps@) =~= pieces_views(psa) + seq![
                PieceView::Text { chars: t.subrange(pos0 as int, ev.0 as int) },
                ea[0].1@,
            ]);
            assert(pieces_views(ps@) + splice_line(t, evs@, pos as int, e_k as int)
                =~= pieces_views(psa) + splice_line(t, ea, pos0 as int, e_k as int));
            assert forall|i: int| 0 <= i < evs@.len() implies (#[trigger] evs@[i]).0 >= pos by {
                assert(ea[i + 1].0 >= ea[0].0);
            }
        }
    }
    let ghost psb = ps@;
    ps.push(Piece::Text { chars: crate::text::copy_range(text, pos, e_k) });
    proof {
        assert(pieces_views(ps@) =~= pieces_views(psb) + seq![
            PieceView::Text { chars: t.subrange(pos as int, e_k as int) },
        ]);
        assert(splice_line(t, evs@, pos as int, e_k as int) == seq![
            PieceView::Text { chars: t.subrange(pos as int, e_k as int) },
        ]);
        assert(pieces_views(ps@) =~= splice_line(t, evs_k, s_k as int, e_k as int));
        assert(skip_past(evs@, e_k as int) == evs@);
        assert forall|i: int| 0 <= i < evs@.len() implies (#[trigger] evs@[i]).0 > e_k by {
            assert(evs@[0].0 <= evs@[i].0);
        }
    }
    ps
}

/// Composes one frame of visible lines: highlight and base events of the
/// covered range, merged base-first on ties, spliced into each visible line.
/// Exactly `compose_page_spec`.
#[verifier::loop_isolation(false)]
#[verifier::rlimit(100)]
#[verifier::spinoff_prover]
pub fn compose_page(
    text: &[char],
    runs: &Vec<StyleRun>,
    query: &[char],
    lines: &Vec<(usize, usize)>,
    line: usize,
    rows: usize,
) -> (r: Vec<Vec<Piece>>)
    requires
        runs_wf(runs@),
        crate::wrap::lines_cover(text@, lines@),
        line < lines@.len(),
        rows >= 1,
    ensures
        lines_views(r@) == compose_page_spec(
            text@,
            runs@,
            query@,
            lines@,
            line as int,
            rows as int,
        ),
{
    let ghost t = text@;
    let last: usize = if rows < lines.len() - line {
        line + rows
    } else {
        lines.len()
    };
    let ts = lines[line].0;
    let te = lines[last - 1].1;
    proof {
        crate::line_index::lemma_cover_starts_sorted(t, lines@);
        assert forall|a: int, b: int|
            line <= a <= b < last implies (#[trigger] lines@[a]).1 <= (#[trigger] lines@[b]).1
                && lines@[a].0 <= lines@[a].1 by {
            crate::line_index::lemma_start_mono(t, lines@, a, b);
        }
        assert(ts <= te <= t.len());
    }
    let hl = highlight_events(text, query, ts, te);
    let base = base_events(runs, ts, te);
    proof {
        if query@.len() > 0 {
            lemma_highlight_shape(t, query@, ts as int, te as int);
        }
        lemma_merge_base_first(hl@, base@);
    }
    let mut evs = merge_events(hl, base);
    proof {
        // every merged event lies at or after the start of the visible range
        assert forall|i: int| 0 <= i < evs@.len() implies (#[trigger] evs@[i]).0 >= ts by {
            if evs@[i].1@ is Style {
                let w = choose|w: int| 0 <= w < base@.len() && base@[w] == evs@[i];
            } else {
                let w = choose|w: int| 0 <= w < hl@.len() && hl@[w] == evs@[i];
            }
        }
    }
    let ghost merged0 = evs@;
    let mut r: Vec<Vec<Piece>> = Vec::new();
    let mut k: usize = line;
    proof {
        assert(lines_views(r@) =~= Seq::<Seq<PieceView>>::empty());
    }
    while k < last
        invariant
            line <= k <= last,
            evs_sorted(evs@),
            k < last ==> evs_from(evs@, lines@[k as int].0 as int),
            k < last ==> lines_views(r@) + splice_lines(t, evs@, lines@, k as int, last as int)
                == splice_lines(t, merged0, lines@, line as int, last as int),
            k == last ==> lines_views(r@) == splice_lines(
                t,
                merged0,
                lines@,
                line as int,
                last as int,
            ),
        decreases last - k,
    {
        let s_k = lines[k].0;
        let e_k = lines[k].1;
        let ghost evs_k = evs@;
        let ps = splice_one_line(text, &mut evs, s_k, e_k);
        let ghost ra = r@;
        r.push(ps);
        proof {
            assert(lines_views(r@) =~= lines_views(ra).push(
                splice_line(t, evs_k, s_k as int, e_k as int),
            ));
            assert(lines_views(r@) + splice_lines(t, evs@, lines@, k + 1, last as int)
                =~= lines_views(ra) + splice_lines(t, evs_k, lines@, k as int, last as int));
            if k + 1 < last {
                // pending events sit past this line's end, so at or past the
                // next line's start
                assert(crate::wrap::gap_ok(t, lines@[k as int].1 as int, lines@[k + 1].0 as int));
                assert forall|i: int| 0 <= i < evs@.len() implies (#[trigger] evs@[i]).0
                    >= lines@[k + 1].0 by {}
            }
        }
        k = k + 1;
    }
    proof {
        assert(lines_views(r@) == compose_page_spec(
            t,
            runs@,
            query@,
            lines@,
            line as int,
            rows as int,
        ));
    }
    r
}
}
