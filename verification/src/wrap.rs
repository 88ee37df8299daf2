//! The reflow engine: wrapping a text buffer into display line spans for a
//! given column budget. A single left-to-right scan tracks the columns of the
//! current unbroken line, the most recent break opportunity, and the columns
//! accumulated since that opportunity.

use vstd::prelude::*;
use crate::width::{
    char_cols, cols_of, lemma_cols_of_snoc, lemma_cols_of_split, lemma_zero_cols_zero_char,
    width_of,
};

verus! {

/// A character a line may break on; the break consumes it.
pub open spec fn is_break_char(c: char) -> bool {
    c == ' ' || c == '\n'
}

/// No character of `t` in `[a, b)` is a consumable break character.
pub open spec fn no_break_chars(t: Seq<char>, a: int, b: int) -> bool {
    forall|j: int| a <= j < b ==> !is_break_char(t[j])
}

/// A produced line either fits the column budget or is part of a single
/// unbreakable token: a run without any space or line feed to break at.
pub open spec fn line_fits(t: Seq<char>, s: int, e: int, max_cols: int) -> bool {
    cols_of(t.subrange(s, e)) <= max_cols || no_break_chars(t, s, e)
}

/// Between one line and the next (and after the last), at most one character
/// is skipped, and only a consumed break character.
pub open spec fn gap_ok(t: Seq<char>, e: int, s2: int) -> bool {
    e <= s2 <= e + 1 && (s2 == e + 1 ==> is_break_char(t[e]))
}

/// The line spans partition `[0, t.len())`: ordered, in bounds, the first
/// starting at zero, with nothing between consecutive spans (or after the
/// last) but single consumed break characters.
pub open spec fn lines_cover(t: Seq<char>, lines: Seq<(usize, usize)>) -> bool {
    &&& (forall|k: int| 0 <= k < lines.len() ==> (#[trigger] lines[k]).0 <= lines[k].1 <= t.len())
    &&& (forall|k: int|
        0 <= k < lines.len() - 1 ==> gap_ok(t, (#[trigger] lines[k]).1 as int, lines[k + 1].0 as int))
    &&& (lines.len() > 0 ==> lines[0].0 == 0 && gap_ok(t, lines.last().1 as int, t.len() as int))
    &&& (lines.len() == 0 <==> t.len() == 0)
}

/// The scan state: lines emitted so far, the start of the current line, the
/// most recent break opportunity `brk` (consumed when `space` holds), the
/// columns since that opportunity (`after`) and since the line start (`cols`).
#[verifier::ext_equal]
pub ghost struct WrapSt {
    pub lines: Seq<(int, int)>,
    pub start: int,
    pub brk: int,
    pub after: int,
    pub cols: int,
    pub space: bool,
}

/// Where the line after the recorded break opportunity resumes.
pub open spec fn resume_at(brk: int, space: bool) -> int {
    brk + if space {
        1int
    } else {
        0int
    }
}

pub open spec fn wrap_init() -> WrapSt {
    WrapSt { lines: Seq::empty(), start: 0, brk: 0, after: 0, cols: 0, space: false }
}

/// One character of the scan: a line feed always breaks (consumed), a space
/// records a consumable break, a hyphen or em-dash still in budget records a
/// break after itself; when the accumulated columns exceed the budget the
/// line is emitted at the recorded break, or cut right here if none was
/// recorded since the line began.
pub open spec fn wrap_step(s: WrapSt, c: char, i: int, max_cols: int) -> WrapSt {
    let w = char_cols(c) as int;
    let s1 = if c == '\n' {
        WrapSt { after: 0, brk: i, space: true, cols: max_cols + 1, ..s }
    } else if c == ' ' {
        WrapSt { after: 0, brk: i, space: true, cols: s.cols + w, ..s }
    } else if (c == '-' || c == '\u{2014}') && s.cols + w <= max_cols {
        WrapSt { after: 0, brk: i + 1, space: false, cols: s.cols + w, ..s }
    } else {
        WrapSt { after: s.after + w, cols: s.cols + w, ..s }
    };
    if s1.cols > max_cols {
        let s2 = if s1.cols == s1.after {
            WrapSt { after: w, brk: i, space: false, ..s1 }
        } else {
            s1
        };
        WrapSt {
            lines: s2.lines.push((s2.start, s2.brk)),
            start: resume_at(s2.brk, s2.space),
            cols: s2.after,
            ..s2
        }
    } else {
        s1
    }
}

/// The scan over `t` from position `i` onward.
pub open spec fn wrap_from(t: Seq<char>, max_cols: int, i: int, s: WrapSt) -> WrapSt
    decreases t.len() - i,
    when 0 <= i <= t.len()
{
    if i >= t.len() {
        s
    } else {
        wrap_from(t, max_cols, i + 1, wrap_step(s, t[i], i, max_cols))
    }
}

/// The line spans of `t` wrapped to `max_cols` columns: the scan over all of
/// `t`, then the still-open last line.
pub open spec fn wrap_spec(t: Seq<char>, max_cols: int) -> Seq<(int, int)> {
    let s = wrap_from(t, max_cols, 0, wrap_init());
    if s.start < t.len() {
        s.lines.push((s.start, t.len() as int))
    } else {
        s.lines
    }
}

/// Line spans as they are held in executable code, read as mathematical pairs.
pub open spec fn spans_int(lines: Seq<(usize, usize)>) -> Seq<(int, int)> {
    lines.map_values(|p: (usize, usize)| (p.0 as int, p.1 as int))
}

/// The scan state as executable code holds it.
pub open spec fn wrap_st(
    lines: Seq<(usize, usize)>,
    start: usize,
    brk: usize,
    after: usize,
    cols: usize,
    space: bool,
) -> WrapSt {
    WrapSt {
        lines: spans_int(lines),
        start: start as int,
        brk: brk as int,
        after: after as int,
        cols: cols as int,
        space,
    }
}

/// An open line whose pre-break part has no width is one unbreakable token:
/// it holds no space (a space is one column wide) and no line feed.
proof fn lemma_open_line_unbreakable(t: Seq<char>, start: int, res: int, i: int)
    requires
        0 <= start <= res <= i <= t.len(),
        start < res ==> cols_of(t.subrange(start, res)) == 0,
        forall|j: int| start <= j < i ==> t[j] != '\n',
        forall|j: int| start <= j < i && t[j] == ' ' ==> char_cols(t[j]) == 1,
        no_break_chars(t, res, i),
    ensures
        no_break_chars(t, start, i),
{
    assert forall|j: int| start <= j < i implies !is_break_char(t[j]) by {
        if j < res && t[j] == ' ' {
            lemma_zero_cols_zero_char(t, start, res, j);
        }
    }
}

/// Wraps `text` into display lines of at most `max_cols` columns: breaks at
/// line feeds and spaces (consumed) or after hyphens and em-dashes (kept),
/// and cuts a single token wider than the whole budget. The result is exactly
/// the scan `wrap_spec` describes; the spans partition the text but for the
/// consumed break characters, and every span fits the budget unless it is a
/// piece of one unbreakable token.
#[verifier::loop_isolation(false)]
#[verifier::rlimit(100)]
pub fn wrap(text: &[char], max_cols: usize) -> (r: Vec<(usize, usize)>)
    requires
        max_cols <= usize::MAX - 6,
    ensures
        spans_int(r@) == wrap_spec(text@, max_cols as int),
        lines_cover(text@, r@),
        forall|k: int|
            0 <= k < r@.len() ==> line_fits(
                text@,
                (#[trigger] r@[k]).0 as int,
                r@[k].1 as int,
                max_cols as int,
            ),
{
    let ghost t = text@;
    let ghost m = max_cols as int;
    let mut lines: Vec<(usize, usize)> = Vec::new();
    let mut start: usize = 0;
    let mut end: usize = 0;
    let mut after: usize = 0;
    let mut cols: usize = 0;
    let mut space: bool = false;
    let mut i: usize = 0;
    proof {
        assert(t.subrange(0, 0) =~= Seq::<char>::empty());
        assert(spans_int(Seq::empty()) =~= Seq::<(int, int)>::empty());
    }
    while i < text.len()
        invariant
            wrap_from(t, m, i as int, wrap_st(lines@, start, end, after, cols, space)) == wrap_from(
                t,
                m,
                0,
                wrap_init(),
            ),
            i <= t.len(),
            start <= i,
            start as int <= resume_at(end as int, space) <= i as int,
            space ==> is_break_char(t[end as int]),
            cols == cols_of(t.subrange(start as int, i as int)),
            after == cols_of(t.subrange(resume_at(end as int, space), i as int)),
            after <= cols,
            cols <= m + 3,
            cols > m ==> cols == after,
            no_break_chars(t, resume_at(end as int, space), i as int),
            (start as int) < resume_at(end as int, space) ==> line_fits(
                t,
                start as int,
                end as int,
                m,
            ),
            forall|j: int| start <= j < i ==> t[j] != '\n',
            forall|j: int| start <= j < i && t[j] == ' ' ==> char_cols(t[j]) == 1,
            forall|k: int|
                0 <= k < lines@.len() ==> (#[trigger] lines@[k]).0 <= lines@[k].1 <= t.len(),
            forall|k: int|
                0 <= k < lines@.len() ==> line_fits(
                    t,
                    (#[trigger] lines@[k]).0 as int,
                    lines@[k].1 as int,
                    m,
                ),
            forall|k: int|
                0 <= k < lines@.len() - 1 ==> gap_ok(
                    t,
                    (#[trigger] lines@[k]).1 as int,
                    lines@[k + 1].0 as int,
                ),
            lines@.len() > 0 ==> lines@[0].0 == 0 && gap_ok(
                t,
                lines@.last().1 as int,
                start as int,
            ),
            lines@.len() == 0 ==> start == 0,
        decreases t.len() - i,
    {
        let ghost s0 = wrap_st(lines@, start, end, after, cols, space);
        let ghost res0 = resume_at(end as int, space);
        let c = text[i];
        let w = width_of(c);
        proof {
            lemma_cols_of_snoc(t, start as int, i as int);
            lemma_cols_of_snoc(t, res0, i as int);
            lemma_cols_of_snoc(t, i as int, i as int);
            assert(t.subrange(i as int, i as int) =~= Seq::<char>::empty());
            assert(t.subrange(i + 1, i + 1) =~= Seq::<char>::empty());
            if s0.start < res0 {
                lemma_cols_of_split(t, start as int, res0, i as int);
            }
        }
        cols = cols + w;
        if c == '\n' {
            after = 0;
            end = i;
            space = true;
            cols = max_cols + 1;
        } else if c == ' ' {
            after = 0;
            end = i;
            space = true;
        } else if (c == '-' || c == '\u{2014}') && cols <= max_cols {
            after = 0;
            end = i + 1;
            space = false;
        } else {
            after = after + w;
        }
        proof {
            if resume_at(end as int, space) == i + 1 {
                assert(t.subrange(i + 1, i + 1) =~= Seq::<char>::empty());
            }
            // a break recorded on this character: the open line up to here
            // either fits or is one unbreakable token
            if (c == ' ' || c == '\n') && s0.cols > m {
                lemma_open_line_unbreakable(t, start as int, res0, i as int);
            }
        }
        if cols > max_cols {
            if cols == after {
                after = w;
                end = i;
                space = false;
                proof {
                    // no break was recorded inside the line: cut it here
                    lemma_open_line_unbreakable(t, start as int, res0, i as int);
                }
            }
            lines.push((start, end));
            start = end;
            if space {
                start = start + 1;
            }
            cols = after;
        }
        proof {
            assert((start as int) <= resume_at(end as int, space));
            assert(after == cols_of(t.subrange(resume_at(end as int, space), i + 1)));
            assert(cols == cols_of(t.subrange(start as int, i + 1)));
            let s2 = wrap_st(lines@, start, end, after, cols, space);
            assert(s2.lines =~= wrap_step(s0, c, i as int, m).lines);
            assert(s2 =~= wrap_step(s0, c, i as int, m));
            assert(wrap_from(t, m, i as int, s0) == wrap_from(t, m, i + 1, s2));
        }
        i = i + 1;
    }
    proof {
        assert(wrap_st(lines@, start, end, after, cols, space) == wrap_from(
            t,
            m,
            0,
            wrap_init(),
        ));
    }
    if start < text.len() {
        proof {
            if cols > max_cols {
                // the still-open text is one unbreakable token
                if (start as int) < resume_at(end as int, space) {
                    lemma_cols_of_split(
                        t,
                        start as int,
                        resume_at(end as int, space),
                        t.len() as int,
                    );
                }
                lemma_open_line_unbreakable(
                    t,
                    start as int,
                    resume_at(end as int, space),
                    t.len() as int,
                );
            }
        }
        let ghost before = lines@;
        lines.push((start, text.len()));
        proof {
            assert(spans_int(lines@) =~= spans_int(before).push(
                (start as int, t.len() as int),
            ));
        }
    }
    proof {
        assert(spans_int(lines@) =~= wrap_spec(t, m));
    }
    lines
}
}
