//! The navigation state machine: the modal views, what each key and mouse
//! event does in each of them, and what each view draws.

use vstd::prelude::*;
use crate::book::{
    bk_wf, chapter_wf, mark_map, search_moved, search_moved_hit, scrolled_down, scrolled_up,
    table_map, Bk, Chapter, Direction, Epub, ViewKind,
};
use crate::extract::{strip_frag, strip_fragment};
use crate::line_index::line_of_post;
use crate::links::link_at;
use crate::width::col_off_spec;
use crate::wrap::{wrap, wrap_spec, spans_int};

verus! {

/// The keys the reader distinguishes; everything else is a plain character.
#[derive(Clone, Copy, PartialEq, Eq, Structural, Debug)]
pub enum Key {
    Esc,
    Tab,
    Enter,
    Backspace,
    Left,
    Right,
    Up,
    Down,
    Home,
    End,
    PageUp,
    PageDown,
    Fn,
    Char(char),
}

/// A mouse event: where, and what kind.
#[derive(Clone, Copy, PartialEq, Eq, Structural, Debug)]
pub enum Mouse {
    Down { col: usize, row: usize },
    ScrollUp,
    ScrollDown,
}

/// A title cut to the column budget, a trailing ellipsis marking the cut.
pub open spec fn truncate_spec(title: Seq<char>, w: int) -> Seq<char> {
    if title.len() > w {
        title.take(w - 1).push('\u{2026}')
    } else {
        title
    }
}

/// Cuts a title to the column budget.
pub fn truncate_title(title: &[char], w: usize) -> (r: Vec<char>)
    requires
        w >= 1,
    ensures
        r@ == truncate_spec(title@, w as int),
{
    if title.len() > w {
        let mut r = crate::text::copy_range(title, 0, w - 1);
        r.push('\u{2026}');
        proof {
            assert(r@ =~= truncate_spec(title@, w as int));
        }
        r
    } else {
        crate::text::copy_range(title, 0, title.len())
    }
}

/// The lines of a wrapped text, each an owned copy of its span.
pub open spec fn wrapped_lines_spec(t: Seq<char>, w: int) -> Seq<Seq<char>> {
    wrap_spec(t, w).map_values(|p: (int, int)| t.subrange(p.0, p.1))
}

/// Wraps a text and copies each line out.
#[verifier::loop_isolation(false)]
pub fn wrapped_lines(text: &[char], w: usize) -> (r: Vec<Vec<char>>)
    requires
        w <= usize::MAX - 6,
    ensures
        crate::extract::strs_view(r@) == wrapped_lines_spec(text@, w as int),
{
    let spans = wrap(text, w);
    let ghost goal = wrapped_lines_spec(text@, w as int);
    let mut r: Vec<Vec<char>> = Vec::new();
    let mut i: usize = 0;
    proof {
        assert(crate::extract::strs_view(r@) =~= goal.take(0));
    }
    while i < spans.len()
        invariant
            i <= spans@.len(),
            spans@.len() == goal.len(),
            crate::extract::strs_view(r@) == goal.take(i as int),
            crate::wrap::lines_cover(text@, spans@),
            spans_int(spans@) == wrap_spec(text@, w as int),
        decreases spans@.len() - i,
    {
        proof {
            assert(spans_int(spans@)[i as int] == (spans@[i as int].0 as int, spans@[
                i as int].1 as int));
        }
        let piece = crate::text::copy_range(text, spans[i].0, spans[i].1);
        r.push(piece);
        proof {
            assert(crate::extract::strs_view(r@) =~= goal.take(i + 1));
        }
        i = i + 1;
    }
    proof {
        assert(goal.take(goal.len() as int) =~= goal);
    }
    r
}

/// Starts a session on a loaded book: wraps every chapter and the metadata
/// text to the width at hand, trims the titles, restores the saved position —
/// the chapter clamped into range — and binds the restore mark to it.
#[verifier::loop_isolation(false)]
#[verifier::rlimit(100)]
#[verifier::spinoff_prover]
pub fn bk_new(
    book: Epub,
    cols: usize,
    rows: usize,
    max_width: usize,
    start_toc: bool,
    chapter0: usize,
    byte0: usize,
) -> (bk: Bk)
    requires
        crate::book::epub_wf(book),
        book.chapters@.len() > 0,
        rows >= 1,
        cols >= 1,
        1 <= max_width <= usize::MAX - 6,
    ensures
        bk_wf(bk),
        ({
            let w = if cols < max_width {
                cols as int
            } else {
                max_width as int
            };
            let c = if chapter0 < book.chapters@.len() {
                chapter0 as int
            } else {
                0int
            };
            &&& bk.chapters@.len() == book.chapters@.len()
            &&& (forall|i: int|
                0 <= i < bk.chapters@.len() ==> {
                    let oldc = #[trigger] book.chapters@[i];
                    let newc = bk.chapters@[i];
                    &&& newc@.text == oldc@.text
                    &&& newc@.attrs == oldc@.attrs
                    &&& newc@.links == oldc@.links
                    &&& newc@.frag == oldc@.frag
                    &&& newc@.title == truncate_spec(oldc@.title, w)
                    &&& spans_int(newc@.lines) == wrap_spec(oldc@.text, w)
                })
            &&& crate::extract::strs_view(bk.meta@) == wrapped_lines_spec(book.meta@, w)
            &&& bk.chapter == c
            &&& line_of_post(bk.chapters@[c].lines@, bk.line as int, byte0 as int)
            &&& mark_map(bk.mark@) == Map::<char, (usize, usize)>::empty().insert(
                '\'',
                (bk.chapter, bk.line),
            )
            &&& bk.links@ == book.links@
            &&& bk.meta@.len() == wrap_spec(book.meta@, w).len()
            &&& bk.view == (if start_toc {
                ViewKind::Toc
            } else {
                ViewKind::Page
            })
            &&& bk.query@.len() == 0
            &&& bk.dir == Direction::Next
            &&& bk.cursor == 0
            &&& !bk.quit
            &&& bk.cols == cols
            &&& bk.rows == rows
            &&& bk.max_width == max_width
        }),
{
    let w = if cols < max_width {
        cols
    } else {
        max_width
    };
    let meta_lines = wrapped_lines(book.meta.as_slice(), w);
    let mut chapters = book.chapters;
    let ghost chapters0 = chapters@;
    let mut i: usize = 0;
    while i < chapters.len()
        invariant
            i <= chapters@.len(),
            chapters@.len() == chapters0.len(),
            w == if cols < max_width {
                cols as int
            } else {
                max_width as int
            },
            1 <= w <= usize::MAX - 6,
            forall|k: int| i <= k < chapters@.len() ==> chapters@[k] == chapters0[k],
            forall|k: int|
                0 <= k < i ==> {
                    let oldc = #[trigger] chapters0[k];
                    let newc = chapters@[k];
                    &&& newc@.text == oldc@.text
                    &&& newc@.attrs == oldc@.attrs
                    &&& newc@.links == oldc@.links
                    &&& newc@.frag == oldc@.frag
                    &&& newc@.title == truncate_spec(oldc@.title, w as int)
                    &&& spans_int(newc@.lines) == wrap_spec(oldc@.text, w as int)
                    &&& chapter_wf(newc)
                },
            forall|k: int|
                0 <= k < chapters0.len() ==> crate::book::chapter_tables_wf(
                    #[trigger] chapters0[k],
                ) && chapters0[k].text@.len() > 0,
        decreases chapters@.len() - i,
    {
        let lines = wrap(chapters[i].text.as_slice(), w);
        let title = truncate_title(chapters[i].title.as_slice(), w);
        let c = chapters.remove(i);
        let c2 = Chapter {
            title,
            lines,
            text: c.text,
            attrs: c.attrs,
            links: c.links,
            frag: c.frag,
        };
        chapters.insert(i, c2);
        proof {
            assert(chapters@[i as int]@.text =~= chapters0[i as int]@.text);
            assert(chapter_wf(chapters@[i as int]));
            assert(forall|k: int| i + 1 <= k < chapters@.len() ==> chapters@[k] == chapters0[k]);
        }
        i = i + 1;
    }
    let chapter = if chapter0 < chapters.len() {
        chapter0
    } else {
        0
    };
    proof {
        assert(chapters0[chapter as int].text@.len() > 0);
        assert(chapter_wf(chapters@[chapter as int]));
        crate::line_index::lemma_cover_starts_sorted(
            chapters@[chapter as int].text@,
            chapters@[chapter as int].lines@,
        );
    }
    let line = crate::line_index::line_of(&chapters[chapter].lines, byte0);
    let mut mark: Vec<(char, (usize, usize))> = Vec::new();
    crate::book::mark_insert(&mut mark, '\'', (chapter, line));
    proof {
        assert(mark_map(Seq::<(char, (usize, usize))>::empty()) =~= Map::<
            char,
            (usize, usize),
        >::empty());
    }
    let bk = Bk {
        quit: false,
        chapters,
        chapter,
        line,
        mark,
        links: book.links,
        cols,
        rows,
        max_width,
        view: if start_toc {
            ViewKind::Toc
        } else {
            ViewKind::Page
        },
        cursor: 0,
        dir: Direction::Next,
        meta: meta_lines,
        query: Vec::new(),
    };
    proof {
        assert forall|i: int| 0 <= i < bk.chapters@.len() implies chapter_wf(
            #[trigger] bk.chapters@[i],
        ) by {
            assert(chapters0[i].text@.len() > 0);
        }
        assert forall|i: int|
            0 <= i < bk.chapters@.len() implies {
            let oldc = #[trigger] book.chapters@[i];
            let newc = bk.chapters@[i];
            &&& newc@.text == oldc@.text
            &&& newc@.attrs == oldc@.attrs
            &&& newc@.links == oldc@.links
            &&& newc@.frag == oldc@.frag
            &&& newc@.title == truncate_spec(oldc@.title, if cols < max_width {
                cols as int
            } else {
                max_width as int
            })
            &&& spans_int(newc@.lines) == wrap_spec(oldc@.text, if cols < max_width {
                cols as int
            } else {
                max_width as int
            })
        } by {
            assert(chapters0[i].text@.len() > 0);
        }
        assert(mark_map(bk.mark@) =~= Map::<char, (usize, usize)>::empty().insert(
            '\'',
            (bk.chapter, bk.line),
        ));
        assert forall|c: char| mark_map(bk.mark@).dom().contains(c) implies (
        #[trigger] mark_map(bk.mark@)[c]).0 < bk.chapters@.len() by {
            assert(c == '\'');
        }
        assert(line_of_post(bk.chapters@[bk.chapter as int].lines@, bk.line as int,
            byte0 as int));
        let ghost wg: int = if cols < max_width {
            cols as int
        } else {
            max_width as int
        };
        assert(crate::extract::strs_view(bk.meta@) == wrapped_lines_spec(book.meta@, wg));
        assert(bk.meta@.len() == wrap_spec(book.meta@, wg).len()) by {
            assert(crate::extract::strs_view(bk.meta@).len() == bk.meta@.len());
            assert(wrapped_lines_spec(book.meta@, wg).len() == wrap_spec(book.meta@, wg).len());
        }
        assert(bk_wf(bk));
    }
    bk
}

/// A resize: the grid rows change freely; a changed column count re-wraps
/// every chapter at the new width, and the line index is clamped silently
/// into the new line count. In the contents view the list cursor is redrawn
/// around the current chapter.
#[verifier::loop_isolation(false)]
#[verifier::rlimit(100)]
#[verifier::spinoff_prover]
pub fn resize(bk: &mut Bk, cols: usize, rows: usize)
    requires
        bk_wf(*old(bk)),
        rows >= 1,
        cols >= 1,
    ensures
        bk_wf(*final(bk)),
        final(bk).rows == rows,
        final(bk).cols == cols,
        ({
            let w = if cols < old(bk).max_width {
                cols as int
            } else {
                old(bk).max_width as int
            };
            &&& final(bk).chapters@.len() == old(bk).chapters@.len()
            &&& (cols != old(bk).cols ==> (forall|i: int|
                0 <= i < final(bk).chapters@.len() ==> {
                    let oldc = #[trigger] old(bk).chapters@[i];
                    let newc = final(bk).chapters@[i];
                    &&& newc@.text == oldc@.text
                    &&& newc@.attrs == oldc@.attrs
                    &&& newc@.links == oldc@.links
                    &&& newc@.frag == oldc@.frag
                    &&& newc@.title == oldc@.title
                    &&& spans_int(newc@.lines) == wrap_spec(oldc@.text, w)
                }))
            &&& (cols == old(bk).cols ==> final(bk).chapters@ == old(bk).chapters@)
            &&& final(bk).chapter == old(bk).chapter
            &&& final(bk).line == ({
                let n = final(bk).chapters@[old(bk).chapter as int].lines@.len();
                if old(bk).line < n {
                    old(bk).line as int
                } else {
                    n - 1
                }
            })
            &&& final(bk).cursor == (if old(bk).view is Toc {
                if rows / 2 < old(bk).chapter {
                    (rows / 2) as int
                } else {
                    old(bk).chapter as int
                }
            } else {
                old(bk).cursor as int
            })
            &&& final(bk).mark == old(bk).mark
            &&& final(bk).links == old(bk).links
            &&& final(bk).meta == old(bk).meta
            &&& final(bk).query == old(bk).query
            &&& final(bk).view == old(bk).view
            &&& final(bk).dir == old(bk).dir
            &&& final(bk).quit == old(bk).quit
            &&& final(bk).max_width == old(bk).max_width
        }),
{
    bk.rows = rows;
    if cols != bk.cols {
        bk.cols = cols;
        let w = if cols < bk.max_width {
            cols
        } else {
            bk.max_width
        };
        let ghost chapters0 = bk.chapters@;
        let mut i: usize = 0;
        while i < bk.chapters.len()
            invariant
                i <= bk.chapters@.len(),
                bk.chapters@.len() == chapters0.len(),
                w == if cols < bk.max_width {
                    cols as int
                } else {
                    bk.max_width as int
                },
                1 <= w <= usize::MAX - 6,
                forall|k: int| i <= k < bk.chapters@.len() ==> bk.chapters@[k] == chapters0[k],
                forall|k: int|
                    0 <= k < i ==> {
                        let oldc = #[trigger] chapters0[k];
                        let newc = bk.chapters@[k];
                        &&& newc@.text == oldc@.text
                        &&& newc@.attrs == oldc@.attrs
                        &&& newc@.links == oldc@.links
                        &&& newc@.frag == oldc@.frag
                        &&& newc@.title == oldc@.title
                        &&& spans_int(newc@.lines) == wrap_spec(oldc@.text, w as int)
                        &&& chapter_wf(newc)
                    },
                forall|k: int|
                    0 <= k < chapters0.len() ==> chapter_wf(#[trigger] chapters0[k]),
                bk.chapter == old(bk).chapter,
                bk.line == old(bk).line,
                bk.mark == old(bk).mark,
                bk.links == old(bk).links,
                bk.meta == old(bk).meta,
                bk.query == old(bk).query,
                bk.view == old(bk).view,
                bk.dir == old(bk).dir,
                bk.quit == old(bk).quit,
                bk.max_width == old(bk).max_width,
                bk.cols == cols,
                bk.rows == rows,
                bk.cursor == old(bk).cursor,
            decreases bk.chapters@.len() - i,
        {
            let lines = wrap(bk.chapters[i].text.as_slice(), w);
            let c = bk.chapters.remove(i);
            let c2 = Chapter {
                lines,
                title: c.title,
                text: c.text,
                attrs: c.attrs,
                links: c.links,
                frag: c.frag,
            };
            bk.chapters.insert(i, c2);
            proof {
                assert(bk.chapters@[i as int]@.text =~= chapters0[i as int]@.text);
                assert(bk.chapters@[i as int]@.title =~= chapters0[i as int]@.title);
                assert(chapter_wf(bk.chapters@[i as int]));
                assert(forall|k: int|
                    i + 1 <= k < bk.chapters@.len() ==> bk.chapters@[k] == chapters0[k]);
            }
            i = i + 1;
        }
        proof {
            assert forall|k: int|
                0 <= k < bk.chapters@.len() implies {
                let oldc = #[trigger] old(bk).chapters@[k];
                let newc = bk.chapters@[k];
                &&& newc@.text == oldc@.text
                &&& newc@.attrs == oldc@.attrs
                &&& newc@.links == oldc@.links
                &&& newc@.frag == oldc@.frag
                &&& newc@.title == oldc@.title
                &&& spans_int(newc@.lines) == wrap_spec(oldc@.text, w as int)
                &&& chapter_wf(newc)
            } by {
                assert(chapter_wf(chapters0[k]));
            }
        }
    }
    proof {
        assert(chapter_wf(bk.chapters@[bk.chapter as int]));
    }
    let n = bk.chapters[bk.chapter].lines.len();
    if bk.line >= n {
        bk.line = n - 1;
    }
    match bk.view {
        ViewKind::Toc => {
            let half = bk.rows / 2;
            bk.cursor = if half < bk.chapter {
                half
            } else {
                bk.chapter
            };
        },
        _ => {},
    }
    proof {
        assert(chapter_wf(bk.chapters@[bk.chapter as int]));
        assert forall|i: int| 0 <= i < bk.chapters@.len() implies chapter_wf(
            #[trigger] bk.chapters@[i],
        ) by {
            if old(bk).cols != cols {
                assert(chapter_wf(old(bk).chapters@[i]));
            }
        }
        assert(bk_wf(*bk));
        let ghost wg: int = if cols < old(bk).max_width {
            cols as int
        } else {
            old(bk).max_width as int
        };
        assert(bk.chapters@.len() == old(bk).chapters@.len());
        assert(cols == old(bk).cols ==> bk.chapters@ == old(bk).chapters@);
        assert(bk.chapter == old(bk).chapter);
        assert(bk.line == ({
            let n = bk.chapters@[old(bk).chapter as int].lines@.len();
            if old(bk).line < n {
                old(bk).line as int
            } else {
                n - 1
            }
        }));
        assert(bk.cursor == (if old(bk).view is Toc {
            if rows / 2 < old(bk).chapter {
                (rows / 2) as int
            } else {
                old(bk).chapter as int
            }
        } else {
            old(bk).cursor as int
        }));
        assert(bk.mark == old(bk).mark && bk.links == old(bk).links && bk.meta == old(bk).meta);
        assert(bk.query == old(bk).query && bk.view == old(bk).view && bk.dir == old(bk).dir);
        assert(bk.quit == old(bk).quit && bk.max_width == old(bk).max_width);
        assert(cols != old(bk).cols ==> (forall|i: int|
            0 <= i < bk.chapters@.len() ==> {
                let oldc = #[trigger] old(bk).chapters@[i];
                let newc = bk.chapters@[i];
                &&& newc@.text == oldc@.text
                &&& newc@.attrs == oldc@.attrs
                &&& newc@.links == oldc@.links
                &&& newc@.frag == oldc@.frag
                &&& newc@.title == oldc@.title
                &&& spans_int(newc@.lines) == wrap_spec(oldc@.text, wg)
            }));
    }
}

/// Resolving a link target against the global table: the full name first;
/// failing that, the fragment is cut and the bare path names the chapter's
/// start; a name known under neither form resolves to nothing.
pub open spec fn resolve_spec(m: Map<Seq<char>, (usize, usize)>, href: Seq<char>) -> Option<
    (usize, usize),
> {
    if m.dom().contains(href) {
        Some(m[href])
    } else if m.dom().contains(strip_frag(href)) {
        Some(m[strip_frag(href)])
    } else {
        None
    }
}

/// Resolves a link target: exactly `resolve_spec`.
pub fn resolve_target(table: &Vec<(Vec<char>, (usize, usize))>, href: &[char]) -> (r: Option<
    (usize, usize),
>)
    ensures
        r == resolve_spec(table_map(table@), href@),
{
    match crate::book::table_get(table, href) {
        Some(v) => Some(v),
        None => {
            let bare = strip_fragment(href);
            crate::book::table_get(table, bare.as_slice())
        },
    }
}

/// Where a click lands: the screen column, less the padding, walked through
/// the clicked line's character widths to a text offset; the link span that
/// holds the offset, if any; and its target resolved through the table.
pub open spec fn click_target(bk: Bk, col: int, row: int) -> Option<(usize, usize)> {
    let ch = bk.chapters@[bk.chapter as int];
    let pad = if bk.cols >= bk.max_width {
        (bk.cols - bk.max_width) / 2
    } else {
        0int
    };
    let line = bk.line + row;
    if col < pad || line >= ch.lines@.len() {
        None
    } else {
        let s = ch.lines@[line].0 as int;
        let e = ch.lines@[line].1 as int;
        match col_off_spec(ch.text@, s, e, col - pad) {
            Some(byte) => match link_at(ch@.links, byte) {
                Some(href) => resolve_spec(table_map(bk.links@), href),
                None => None,
            },
            None => None,
        }
    }
}

impl Bk {
    /// A click on the page: when it lands inside a registered link span and
    /// the target is known, the restore mark is left behind and the position
    /// moves to the target's line; any other click is silently ignored.
    #[verifier::rlimit(100)]
    pub fn click(&mut self, col: usize, row: usize)
        requires
            bk_wf(*old(self)),
        ensures
            bk_wf(*final(self)),
            match click_target(*old(self), col as int, row as int) {
                Some(t) => {
                    &&& final(self).chapter == t.0
                    &&& line_of_post(
                        old(self).chapters@[t.0 as int].lines@,
                        final(self).line as int,
                        t.1 as int,
                    )
                    &&& mark_map(final(self).mark@) == mark_map(old(self).mark@).insert(
                        '\'',
                        (old(self).chapter, old(self).line),
                    )
                    &&& *final(self) == (Bk {
                        chapter: final(self).chapter,
                        line: final(self).line,
                        mark: final(self).mark,
                        ..*old(self)
                    })
                },
                None => *final(self) == *old(self),
            },
    {
        proof {
            assert(chapter_wf(self.chapters@[self.chapter as int]));
        }
        let pad = self.pad();
        if col < pad {
            return;
        }
        let llen = self.chapters[self.chapter].lines.len();
        if row >= llen - self.line {
            return;
        }
        let line = self.line + row;
        let span = self.chapters[self.chapter].lines[line];
        let byte = match crate::width::col_to_offset(
            self.chapters[self.chapter].text.as_slice(),
            span.0,
            span.1,
            col - pad,
        ) {
            Some(b) => b,
            None => {
                return;
            },
        };
        let ghost chv = self.chapters@[self.chapter as int]@;
        let idx = match crate::links::find_link(&self.chapters[self.chapter].links, byte) {
            Some(i) => {
                proof {
                    crate::links::lemma_link_at_hit(chv.links, byte as int, i as int);
                }
                i
            },
            None => {
                proof {
                    crate::links::lemma_link_at_miss(chv.links, byte as int);
                }
                return;
            },
        };
        let target = match resolve_target(
            &self.links,
            self.chapters[self.chapter].links[idx].2.as_slice(),
        ) {
            Some(t) => {
                proof {
                    let href = self.chapters@[self.chapter as int].links@[idx as int].2@;
                    if table_map(self.links@).dom().contains(href) {
                        crate::book::lemma_table_map_values(self.links@, href);
                    } else {
                        crate::book::lemma_table_map_values(self.links@, strip_frag(href));
                    }
                }
                t
            },
            None => {
                return;
            },
        };
        self.mark('\'');
        self.jump_byte(target.0, target.1);
    }
}

/// The page frame: the visible lines composed with styles and highlights.
pub fn page_frame(bk: &Bk) -> (r: Vec<Vec<crate::compose::Piece>>)
    requires
        bk_wf(*bk),
    ensures
        crate::compose::lines_views(r@) == crate::compose::compose_page_spec(
            bk.chapters@[bk.chapter as int].text@,
            bk.chapters@[bk.chapter as int].attrs@,
            bk.query@,
            bk.chapters@[bk.chapter as int].lines@,
            bk.line as int,
            bk.rows as int,
        ),
{
    proof {
        assert(chapter_wf(bk.chapters@[bk.chapter as int]));
    }
    crate::compose::compose_page(
        bk.chapters[bk.chapter].text.as_slice(),
        &bk.chapters[bk.chapter].attrs,
        bk.query.as_slice(),
        &bk.chapters[bk.chapter].lines,
        bk.line,
        bk.rows,
    )
}

/// The contents frame: as many titles as fit, the row around the current
/// chapter, the list cursor's row drawn highlighted.
pub open spec fn toc_frame_spec(bk: Bk) -> Seq<Seq<crate::compose::PieceView>> {
    let cur = if bk.cursor <= bk.chapter {
        bk.cursor as int
    } else {
        bk.chapter as int
    };
    let start = bk.chapter - cur;
    let end = if start + bk.rows <= bk.chapters@.len() {
        start + bk.rows
    } else {
        bk.chapters@.len() as int
    };
    Seq::new(
        (end - start) as nat,
        |i: int|
            if i == cur {
                seq![
                    crate::compose::PieceView::Highlight { on: true },
                    crate::compose::PieceView::Text { chars: bk.chapters@[start + i]@.title },
                    crate::compose::PieceView::Highlight { on: false },
                ]
            } else {
                seq![
                    crate::compose::PieceView::Text { chars: bk.chapters@[start + i]@.title },
                ]
            },
    )
}

/// Draws the contents list: exactly `toc_frame_spec`.
#[verifier::loop_isolation(false)]
#[verifier::rlimit(100)]
pub fn toc_frame(bk: &Bk) -> (r: Vec<Vec<crate::compose::Piece>>)
    requires
        bk_wf(*bk),
    ensures
        crate::compose::lines_views(r@) == toc_frame_spec(*bk),
{
    let cur = if bk.cursor <= bk.chapter {
        bk.cursor
    } else {
        bk.chapter
    };
    let start = bk.chapter - cur;
    let end = if bk.chapters.len() - start > bk.rows {
        start + bk.rows
    } else {
        bk.chapters.len()
    };
    let ghost goal = toc_frame_spec(*bk);
    let mut r: Vec<Vec<crate::compose::Piece>> = Vec::new();
    let mut i: usize = 0;
    proof {
        assert(crate::compose::lines_views(r@) =~= goal.take(0));
    }
    while i < end - start
        invariant
            i <= end - start,
            crate::compose::lines_views(r@) == goal.take(i as int),
        decreases end - start - i,
    {
        let title = crate::text::copy_range(
            bk.chapters[start + i].title.as_slice(),
            0,
            bk.chapters[start + i].title.len(),
        );
        proof {
            assert(title@ =~= bk.chapters@[start + i]@.title);
        }
        let mut row: Vec<crate::compose::Piece> = Vec::new();
        if i == cur {
            row.push(crate::compose::Piece::Highlight { on: true });
            row.push(crate::compose::Piece::Text { chars: title });
            row.push(crate::compose::Piece::Highlight { on: false });
            proof {
                assert(crate::compose::pieces_views(row@) =~= goal[i as int]);
            }
        } else {
            row.push(crate::compose::Piece::Text { chars: title });
            proof {
                assert(crate::compose::pieces_views(row@) =~= goal[i as int]);
            }
        }
        r.push(row);
        proof {
            assert(crate::compose::lines_views(r@) =~= goal.take(i + 1));
        }
        i = i + 1;
    }
    proof {
        assert(goal.take(goal.len() as int) =~= goal);
    }
    r
}

/// The key reference drawn by the help view.
pub fn help_frame() -> (r: Vec<Vec<char>>)
    ensures
        r@.len() == 24,
{
    let mut r: Vec<Vec<char>> = Vec::new();
    r.push(crate::text::str_to_chars(""));
    r.push(crate::text::str_to_chars("                   Esc q  Quit"));
    r.push(crate::text::str_to_chars("                      Fn  Help"));
    r.push(crate::text::str_to_chars("                     Tab  Table of Contents"));
    r.push(crate::text::str_to_chars("                       i  Progress and Metadata"));
    r.push(crate::text::str_to_chars(""));
    r.push(crate::text::str_to_chars("PageDown Right Space f l  Page Down"));
    r.push(crate::text::str_to_chars("         PageUp Left b h  Page Up"));
    r.push(crate::text::str_to_chars("                       d  Half Page Down"));
    r.push(crate::text::str_to_chars("                       u  Half Page Up"));
    r.push(crate::text::str_to_chars("                  Down j  Line Down"));
    r.push(crate::text::str_to_chars("                    Up k  Line Up"));
    r.push(crate::text::str_to_chars("                  Home g  Chapter Start"));
    r.push(crate::text::str_to_chars("                   End G  Chapter End"));
    r.push(crate::text::str_to_chars("                       [  Previous Chapter"));
    r.push(crate::text::str_to_chars("                       ]  Next Chapter"));
    r.push(crate::text::str_to_chars(""));
    r.push(crate::text::str_to_chars("                       /  Search Forward"));
    r.push(crate::text::str_to_chars("                       ?  Search Backward"));
    r.push(crate::text::str_to_chars("                       n  Repeat search forward"));
    r.push(crate::text::str_to_chars("                       N  Repeat search backward"));
    r.push(crate::text::str_to_chars("                      mx  Set mark x"));
    r.push(crate::text::str_to_chars("                      'x  Jump to mark x"));
    r.push(crate::text::str_to_chars(""));
    r
}

/// The search frame: the page under composition, padded or shortened to one
/// row less than the grid, with the live query on the prompt line below,
/// prefixed by its direction.
pub fn search_frame(bk: &Bk) -> (r: Vec<Vec<crate::compose::Piece>>)
    requires
        bk_wf(*bk),
    ensures
        r@.len() == bk.rows,
        crate::compose::pieces_views(r@.last()@) == seq![
            crate::compose::PieceView::Text {
                chars: seq![if bk.dir is Next {
                    '/'
                } else {
                    '?'
                }] + bk.query@,
            },
        ],
{
    let mut buf = page_frame(bk);
    if buf.len() >= bk.rows {
        buf.truncate(bk.rows - 1);
    } else {
        while buf.len() < bk.rows - 1
            invariant
                buf@.len() <= bk.rows - 1,
            decreases bk.rows - 1 - buf@.len(),
        {
            buf.push(Vec::new());
        }
    }
    let mut prompt: Vec<char> = Vec::new();
    prompt.push(
        match bk.dir {
            Direction::Next => '/',
            Direction::Prev => '?',
        },
    );
    crate::text::append_chars(&mut prompt, bk.query.as_slice());
    let ghost pv = prompt@;
    let mut row: Vec<crate::compose::Piece> = Vec::new();
    row.push(crate::compose::Piece::Text { chars: prompt });
    buf.push(row);
    proof {
        assert(pv =~= seq![if bk.dir is Next {
            '/'
        } else {
            '?'
        }] + bk.query@);
        assert(buf@.last()@ =~= row@);
        assert(crate::compose::pieces_views(buf@.last()@) =~= seq![
            crate::compose::PieceView::Text { chars: pv },
        ]);
    }
    buf
}

/// Adding with a ceiling: the progress sums saturate rather than wrap.
pub open spec fn sat_add(a: int, b: int) -> int {
    if a + b > 0xffff_ffff_ffff_ffff {
        0xffff_ffff_ffff_ffffint
    } else {
        a + b
    }
}

/// The line count of the first `k` chapters together, saturating.
pub open spec fn sum_lines(cs: Seq<Chapter>, k: int) -> int
    decreases k,
    when 0 <= k <= cs.len()
{
    if k <= 0 {
        0
    } else {
        sat_add(sum_lines(cs, k - 1), cs[k - 1].lines@.len() as int)
    }
}

/// The sums only grow along the chapters, and one wrapped chapter in makes
/// them positive.
proof fn lemma_sum_lines_bounds(cs: Seq<Chapter>, k: int)
    requires
        0 <= k <= cs.len(),
        forall|i: int| 0 <= i < cs.len() ==> chapter_wf(#[trigger] cs[i]),
    ensures
        0 <= sum_lines(cs, k) <= 0xffff_ffff_ffff_ffff,
        k >= 1 ==> sum_lines(cs, k) >= 1,
    decreases k,
{
    if k > 0 {
        lemma_sum_lines_bounds(cs, k - 1);
        assert(chapter_wf(cs[k - 1]));
    }
}

/// What the progress view shows: the page of the chapter the position is on
/// out of the chapter's pages, the part of the whole book already passed in
/// percent (of all display lines, saturating on enormous books), a blank
/// line, and the package metadata.
pub open spec fn metadata_spec(bk: Bk) -> Seq<Seq<char>> {
    let len_ch = bk.chapters@[bk.chapter as int].lines@.len() as int;
    let pages = len_ch / (bk.rows as int) + (if len_ch % (bk.rows as int) != 0 {
        1int
    } else {
        0int
    });
    let behind = (len_ch - 1 - bk.line) / (bk.rows as int);
    let page = if pages > behind {
        pages - behind
    } else {
        1int
    };
    let current = sat_add(sum_lines(bk.chapters@, bk.chapter as int), bk.line as int);
    let total = sum_lines(bk.chapters@, bk.chapters@.len() as int);
    let percent = if current * 100 / total > 100 {
        100int
    } else {
        current * 100 / total
    };
    seq![
        "chapter: "@ + crate::extract::dec_spec(page) + seq!['/'] + crate::extract::dec_spec(
            pages,
        ),
        "total: "@ + crate::extract::dec_spec(percent) + seq!['%'],
        Seq::<char>::empty(),
    ] + crate::extract::strs_view(bk.meta@)
}

/// Draws the progress and metadata view: exactly `metadata_spec`.
#[verifier::loop_isolation(false)]
#[verifier::rlimit(100)]
pub fn metadata_frame(bk: &Bk) -> (r: Vec<Vec<char>>)
    requires
        bk_wf(*bk),
    ensures
        crate::extract::strs_view(r@) == metadata_spec(*bk),
{
    let cap: u128 = 0xffff_ffff_ffff_ffff;
    let mut acc: u128 = 0;
    let mut i: usize = 0;
    let mut current: u128 = 0;
    while i < bk.chapters.len()
        invariant
            i <= bk.chapters@.len(),
            acc == sum_lines(bk.chapters@, i as int),
            0 <= acc <= 0xffff_ffff_ffff_ffff,
            i > bk.chapter ==> current == sat_add(
                sum_lines(bk.chapters@, bk.chapter as int),
                bk.line as int,
            ) && current <= 0xffff_ffff_ffff_ffff,
        decreases bk.chapters@.len() - i,
    {
        if i == bk.chapter {
            let l = bk.line as u128;
            current = if cap - acc > l {
                acc + l
            } else {
                cap
            };
        }
        let l = bk.chapters[i].lines.len() as u128;
        acc = if cap - acc > l {
            acc + l
        } else {
            cap
        };
        i = i + 1;
    }
    let total = acc;
    proof {
        lemma_sum_lines_bounds(bk.chapters@, bk.chapters@.len() as int);
        assert(total >= 1);
    }
    let raw = current * 100 / total;
    let percent: usize = if raw > 100 {
        100
    } else {
        raw as usize
    };
    proof {
        assert(chapter_wf(bk.chapters@[bk.chapter as int]));
    }
    let len_ch = bk.chapters[bk.chapter].lines.len();
    let q = len_ch / bk.rows;
    let pages = if len_ch % bk.rows != 0 {
        proof {
            assert(bk.rows >= 2);
            assert(len_ch / bk.rows <= len_ch / 2) by (nonlinear_arith)
                requires
                    bk.rows >= 2,
                    len_ch >= 0,
            ;
        }
        q + 1
    } else {
        q
    };
    let behind = (len_ch - 1 - bk.line) / bk.rows;
    let page = if pages > behind {
        pages - behind
    } else {
        1
    };
    let mut line0 = crate::text::str_to_chars("chapter: ");
    crate::text::append_chars(&mut line0, crate::extract::dec_chars(page).as_slice());
    line0.push('/');
    crate::text::append_chars(&mut line0, crate::extract::dec_chars(pages).as_slice());
    let mut line1 = crate::text::str_to_chars("total: ");
    crate::text::append_chars(&mut line1, crate::extract::dec_chars(percent).as_slice());
    line1.push('%');
    let ghost l0 = line0@;
    let ghost l1 = line1@;
    let mut r: Vec<Vec<char>> = Vec::new();
    r.push(line0);
    r.push(line1);
    r.push(Vec::new());
    let ghost head = crate::extract::strs_view(r@);
    let mut k: usize = 0;
    proof {
        assert(l0 =~= "chapter: "@ + crate::extract::dec_spec(page as int) + seq!['/']
            + crate::extract::dec_spec(pages as int));
        assert(l1 =~= "total: "@ + crate::extract::dec_spec(percent as int) + seq!['%']);
        assert(crate::extract::strs_view(r@) =~~= metadata_spec(*bk).take(3 + k));
    }
    while k < bk.meta.len()
        invariant
            k <= bk.meta@.len(),
            metadata_spec(*bk).len() == 3 + bk.meta@.len(),
            crate::extract::strs_view(r@) == metadata_spec(*bk).take(3 + k),
        decreases bk.meta@.len() - k,
    {
        let line = crate::text::copy_range(bk.meta[k].as_slice(), 0, bk.meta[k].len());
        proof {
            assert(line@ =~= bk.meta@[k as int]@);
            assert(metadata_spec(*bk)[3 + k] == crate::extract::strs_view(bk.meta@)[k as int]);
        }
        r.push(line);
        proof {
            assert(crate::extract::strs_view(r@) =~~= metadata_spec(*bk).take(3 + k + 1));
        }
        k = k + 1;
    }
    proof {
        assert(metadata_spec(*bk).take(metadata_spec(*bk).len() as int) =~~= metadata_spec(*bk));
    }
    r
}

/// What a key does on the page view, key by key: quit; open the contents
/// (leaving the restore mark), the help, the mark and jump prompts or the
/// progress view; begin or repeat a search; move by line, half page, page or
/// chapter; or nothing.
pub open spec fn page_key_post(o: Bk, n: Bk, key: Key) -> bool {
    let half_cursor = if o.rows / 2 < o.chapter {
        (o.rows / 2) as int
    } else {
        o.chapter as int
    };
    let chap_lines = o.chapters@[o.chapter as int].lines@.len();
    let end_line = if chap_lines > o.rows {
        chap_lines - o.rows
    } else {
        0int
    };
    match key {
        Key::Esc => n == (Bk { quit: true, ..o }),
        Key::Tab => n.view is Toc && n.cursor == half_cursor && mark_map(n.mark@) == mark_map(
            o.mark@,
        ).insert('\'', (o.chapter, o.line)) && n == (Bk {
            view: ViewKind::Toc,
            cursor: n.cursor,
            mark: n.mark,
            ..o
        }),
        Key::Fn => n == (Bk { view: ViewKind::Help, ..o }),
        Key::End => n.line == end_line && mark_map(n.mark@) == mark_map(o.mark@).insert(
            '\'',
            (o.chapter, o.line),
        ) && n == (Bk { line: n.line, mark: n.mark, ..o }),
        Key::Home => n.line == 0 && mark_map(n.mark@) == mark_map(o.mark@).insert(
            '\'',
            (o.chapter, o.line),
        ) && n == (Bk { line: 0, mark: n.mark, ..o }),
        Key::Up => scrolled_up(o, n, 3),
        Key::Down => scrolled_down(o, n, 3),
        Key::Left => scrolled_up(o, n, o.rows as int),
        Key::PageUp => scrolled_up(o, n, o.rows as int),
        Key::Right => scrolled_down(o, n, o.rows as int),
        Key::PageDown => scrolled_down(o, n, o.rows as int),
        Key::Char(c) => if c == 'q' {
            n == (Bk { quit: true, ..o })
        } else if c == 'm' {
            n == (Bk { view: ViewKind::Mark, ..o })
        } else if c == '\'' {
            n == (Bk { view: ViewKind::Jump, ..o })
        } else if c == 'i' {
            n == (Bk { view: ViewKind::Metadata, ..o })
        } else if c == '/' || c == '?' {
            n.query@.len() == 0 && n.dir == (if c == '/' {
                Direction::Next
            } else {
                Direction::Prev
            }) && mark_map(n.mark@) == mark_map(o.mark@).insert('\'', (o.chapter, o.line)) && n
                == (Bk {
                view: ViewKind::Search,
                query: n.query,
                dir: n.dir,
                mark: n.mark,
                ..o
            })
        } else if c == 'n' {
            search_moved(o, n, Direction::Next, true)
        } else if c == 'N' {
            search_moved(o, n, Direction::Prev, true)
        } else if c == 'G' {
            n.line == end_line && mark_map(n.mark@) == mark_map(o.mark@).insert(
                '\'',
                (o.chapter, o.line),
            ) && n == (Bk { line: n.line, mark: n.mark, ..o })
        } else if c == 'g' {
            n.line == 0 && mark_map(n.mark@) == mark_map(o.mark@).insert(
                '\'',
                (o.chapter, o.line),
            ) && n == (Bk { line: 0, mark: n.mark, ..o })
        } else if c == 'd' {
            scrolled_down(o, n, (o.rows / 2) as int)
        } else if c == 'u' {
            scrolled_up(o, n, (o.rows / 2) as int)
        } else if c == 'k' {
            scrolled_up(o, n, 3)
        } else if c == 'j' {
            scrolled_down(o, n, 3)
        } else if c == 'b' || c == 'h' {
            scrolled_up(o, n, o.rows as int)
        } else if c == 'f' || c == 'l' || c == ' ' {
            scrolled_down(o, n, o.rows as int)
        } else if c == '[' {
            (if o.chapter > 0 {
                n.chapter == o.chapter - 1 && n.line == 0
            } else {
                n == o
            }) && n == (Bk { chapter: n.chapter, line: n.line, ..o })
        } else if c == ']' {
            (if o.chapter + 1 < o.chapters@.len() {
                n.chapter == o.chapter + 1 && n.line == 0
            } else {
                n == o
            }) && n == (Bk { chapter: n.chapter, line: n.line, ..o })
        } else {
            n == o
        },
        _ => n == o,
    }
}

/// Handles a key on the page view: exactly `page_key_post`.
pub fn page_on_key(bk: &mut Bk, key: Key)
    requires
        bk_wf(*old(bk)),
        old(bk).view is Page,
    ensures
        bk_wf(*final(bk)),
        page_key_post(*old(bk), *final(bk), key),
{
    match key {
        Key::Esc => {
            bk.quit = true;
        },
        Key::Tab => {
            bk.mark('\'');
            let half = bk.rows / 2;
            bk.cursor = if half < bk.chapter {
                half
            } else {
                bk.chapter
            };
            bk.view = ViewKind::Toc;
        },
        Key::Fn => {
            bk.view = ViewKind::Help;
        },
        Key::End => {
            bk.mark('\'');
            proof {
                assert(chapter_wf(bk.chapters@[bk.chapter as int]));
            }
            let n = bk.chapters[bk.chapter].lines.len();
            bk.line = if n > bk.rows {
                n - bk.rows
            } else {
                0
            };
        },
        Key::Home => {
            bk.mark('\'');
            bk.line = 0;
        },
        Key::Up => {
            bk.scroll_up(3);
        },
        Key::Down => {
            bk.scroll_down(3);
        },
        Key::Left | Key::PageUp => {
            let n = bk.rows;
            bk.scroll_up(n);
        },
        Key::Right | Key::PageDown => {
            let n = bk.rows;
            bk.scroll_down(n);
        },
        Key::Char(c) => {
            if c == 'q' {
                bk.quit = true;
            } else if c == 'm' {
                bk.view = ViewKind::Mark;
            } else if c == '\'' {
                bk.view = ViewKind::Jump;
            } else if c == 'i' {
                bk.view = ViewKind::Metadata;
            } else if c == '/' || c == '?' {
                bk.mark('\'');
                bk.query = Vec::new();
                bk.dir = if c == '/' {
                    Direction::Next
                } else {
                    Direction::Prev
                };
                bk.view = ViewKind::Search;
            } else if c == 'n' {
                bk.search(Direction::Next, true);
            } else if c == 'N' {
                bk.search(Direction::Prev, true);
            } else if c == 'G' {
                bk.mark('\'');
                proof {
                    assert(chapter_wf(bk.chapters@[bk.chapter as int]));
                }
                let n = bk.chapters[bk.chapter].lines.len();
                bk.line = if n > bk.rows {
                    n - bk.rows
                } else {
                    0
                };
            } else if c == 'g' {
                bk.mark('\'');
                bk.line = 0;
            } else if c == 'd' {
                let n = bk.rows / 2;
                bk.scroll_down(n);
            } else if c == 'u' {
                let n = bk.rows / 2;
                bk.scroll_up(n);
            } else if c == 'k' {
                bk.scroll_up(3);
            } else if c == 'j' {
                bk.scroll_down(3);
            } else if c == 'b' || c == 'h' {
                let n = bk.rows;
                bk.scroll_up(n);
            } else if c == 'f' || c == 'l' || c == ' ' {
                let n = bk.rows;
                bk.scroll_down(n);
            } else if c == '[' {
                bk.prev_chapter();
            } else if c == ']' {
                bk.next_chapter();
            }
        },
        _ => {},
    }
}

/// Moving the contents cursor: the chapter steps by `d`, clamped to the
/// list; the line is clamped into the new chapter, and the cursor row is
/// redrawn around it.
pub open spec fn toc_stepped(o: Bk, n: Bk, chap: int) -> bool {
    let ll = o.chapters@[chap].lines@.len();
    &&& n.chapter == chap
    &&& n.line == (if o.line < ll {
        o.line as int
    } else {
        ll - 1
    })
    &&& n.cursor == (if o.rows / 2 < chap {
        (o.rows / 2) as int
    } else {
        chap
    })
    &&& n == (Bk { chapter: n.chapter, line: n.line, cursor: n.cursor, ..o })
}

/// Steps the contents selection forward by `d` chapters.
fn toc_next(bk: &mut Bk, d: usize)
    requires
        bk_wf(*old(bk)),
    ensures
        bk_wf(*final(bk)),
        toc_stepped(*old(bk), *final(bk), if old(bk).chapter + d < old(bk).chapters@.len() {
            old(bk).chapter + d
        } else {
            old(bk).chapters@.len() - 1
        }),
{
    let len = bk.chapters.len();
    let chap = if len - bk.chapter > d {
        bk.chapter + d
    } else {
        len - 1
    };
    toc_go(bk, chap);
}

/// Steps the contents selection backward by `d` chapters.
fn toc_prev(bk: &mut Bk, d: usize)
    requires
        bk_wf(*old(bk)),
    ensures
        bk_wf(*final(bk)),
        toc_stepped(*old(bk), *final(bk), if old(bk).chapter >= d {
            old(bk).chapter - d
        } else {
            0int
        }),
{
    let chap = if bk.chapter >= d {
        bk.chapter - d
    } else {
        0
    };
    toc_go(bk, chap);
}

/// Moves the contents selection to a chapter.
fn toc_go(bk: &mut Bk, chap: usize)
    requires
        bk_wf(*old(bk)),
        chap < old(bk).chapters@.len(),
    ensures
        bk_wf(*final(bk)),
        toc_stepped(*old(bk), *final(bk), chap as int),
{
    proof {
        assert(chapter_wf(bk.chapters@[chap as int]));
    }
    bk.chapter = chap;
    let ll = bk.chapters[chap].lines.len();
    if bk.line >= ll {
        bk.line = ll - 1;
    }
    let half = bk.rows / 2;
    bk.cursor = if half < chap {
        half
    } else {
        chap
    };
}

/// What a key does on the contents view: cancel restores the saved mark and
/// returns to the page; confirm opens the selected chapter at its first
/// line; the rest move the selection.
pub open spec fn toc_key_post(o: Bk, n: Bk, key: Key) -> bool {
    let cancelled = {
        let p = mark_map(o.mark@)['\''];
        let ll = o.chapters@[p.0 as int].lines@.len();
        &&& n.chapter == p.0
        &&& n.line == (if p.1 < ll {
            p.1 as int
        } else {
            ll - 1
        })
        &&& n == (Bk {
            chapter: n.chapter,
            line: n.line,
            cursor: 0,
            view: ViewKind::Page,
            ..o
        })
    };
    let confirmed = n == (Bk { line: 0, cursor: 0, view: ViewKind::Page, ..o });
    match key {
        Key::Esc => cancelled,
        Key::Tab => cancelled,
        Key::Left => cancelled,
        Key::Enter => confirmed,
        Key::Right => confirmed,
        Key::Down => toc_stepped(o, n, if o.chapter + 1 < o.chapters@.len() {
            o.chapter + 1
        } else {
            o.chapters@.len() - 1
        }),
        Key::Up => toc_stepped(o, n, if o.chapter >= 1 {
            o.chapter - 1
        } else {
            0int
        }),
        Key::Home => toc_stepped(o, n, 0),
        Key::End => toc_stepped(o, n, o.chapters@.len() - 1),
        Key::PageDown => toc_stepped(o, n, if o.chapter + o.rows < o.chapters@.len() {
            o.chapter + o.rows
        } else {
            o.chapters@.len() - 1
        }),
        Key::PageUp => toc_stepped(o, n, if o.chapter >= o.rows {
            o.chapter - o.rows
        } else {
            0int
        }),
        Key::Char(c) => if c == 'h' || c == 'q' {
            cancelled
        } else if c == 'l' {
            confirmed
        } else if c == 'j' {
            toc_stepped(o, n, if o.chapter + 1 < o.chapters@.len() {
                o.chapter + 1
            } else {
                o.chapters@.len() - 1
            })
        } else if c == 'k' {
            toc_stepped(o, n, if o.chapter >= 1 {
                o.chapter - 1
            } else {
                0int
            })
        } else if c == 'g' {
            toc_stepped(o, n, 0)
        } else if c == 'G' {
            toc_stepped(o, n, o.chapters@.len() - 1)
        } else if c == 'f' {
            toc_stepped(o, n, if o.chapter + o.rows < o.chapters@.len() {
                o.chapter + o.rows
            } else {
                o.chapters@.len() - 1
            })
        } else if c == 'b' {
            toc_stepped(o, n, if o.chapter >= o.rows {
                o.chapter - o.rows
            } else {
                0int
            })
        } else if c == 'd' {
            toc_stepped(o, n, if o.chapter + o.rows / 2 < o.chapters@.len() {
                o.chapter + o.rows / 2
            } else {
                o.chapters@.len() - 1
            })
        } else if c == 'u' {
            toc_stepped(o, n, if o.chapter >= o.rows / 2 {
                o.chapter - o.rows / 2
            } else {
                0int
            })
        } else {
            n == o
        },
        _ => n == o,
    }
}

/// Handles a key on the contents view: exactly `toc_key_post`.
pub fn toc_on_key(bk: &mut Bk, key: Key)
    requires
        bk_wf(*old(bk)),
        old(bk).view is Toc,
    ensures
        bk_wf(*final(bk)),
        toc_key_post(*old(bk), *final(bk), key),
{
    match key {
        Key::Esc | Key::Tab | Key::Left => {
            bk.jump_reset();
            bk.cursor = 0;
            bk.view = ViewKind::Page;
        },
        Key::Enter | Key::Right => {
            bk.line = 0;
            bk.cursor = 0;
            bk.view = ViewKind::Page;
            proof {
                assert(chapter_wf(bk.chapters@[bk.chapter as int]));
            }
        },
        Key::Down => toc_next(bk, 1),
        Key::Up => toc_prev(bk, 1),
        Key::Home => toc_prev(bk, bk.chapters.len()),
        Key::End => {
            let n = bk.chapters.len();
            toc_next(bk, n);
        },
        Key::PageDown => {
            let n = bk.rows;
            toc_next(bk, n);
        },
        Key::PageUp => {
            let n = bk.rows;
            toc_prev(bk, n);
        },
        Key::Char(c) => {
            if c == 'h' || c == 'q' {
                bk.jump_reset();
                bk.cursor = 0;
                bk.view = ViewKind::Page;
            } else if c == 'l' {
                bk.line = 0;
                bk.cursor = 0;
                bk.view = ViewKind::Page;
                proof {
                    assert(chapter_wf(bk.chapters@[bk.chapter as int]));
                }
            } else if c == 'j' {
                toc_next(bk, 1);
            } else if c == 'k' {
                toc_prev(bk, 1);
            } else if c == 'g' {
                let n = bk.chapters.len();
                toc_prev(bk, n);
            } else if c == 'G' {
                let n = bk.chapters.len();
                toc_next(bk, n);
            } else if c == 'f' {
                let n = bk.rows;
                toc_next(bk, n);
            } else if c == 'b' {
                let n = bk.rows;
                toc_prev(bk, n);
            } else if c == 'd' {
                let n = bk.rows / 2;
                toc_next(bk, n);
            } else if c == 'u' {
                let n = bk.rows / 2;
                toc_prev(bk, n);
            }
        },
        _ => {},
    }
}

/// What a key does on the search view: a character extends the query and
/// re-searches in place, falling back to the saved mark on a miss, so the
/// cursor is never stranded; backspace shortens the query, restores the mark
/// and searches again; confirm keeps the found position; cancel restores the
/// mark and clears the query.
pub open spec fn search_key_post(o: Bk, n: Bk, key: Key) -> bool {
    let restored_pos = {
        let p = mark_map(o.mark@)['\''];
        let ll = o.chapters@[p.0 as int].lines@.len();
        (p.0 as int, if p.1 < ll {
            p.1 as int
        } else {
            ll - 1
        })
    };
    match key {
        Key::Esc => n.chapter == restored_pos.0 && n.line == restored_pos.1 && n.query@.len()
            == 0 && n == (Bk {
            chapter: n.chapter,
            line: n.line,
            query: n.query,
            view: ViewKind::Page,
            ..o
        }),
        Key::Enter => n == (Bk { view: ViewKind::Page, ..o }),
        Key::Backspace => ({
            let q2 = if o.query@.len() > 0 {
                o.query@.drop_last()
            } else {
                o.query@
            };
            let mid = Bk {
                chapter: restored_pos.0 as usize,
                line: restored_pos.1 as usize,
                query: n.query,
                ..o
            };
            n.query@ == q2 && search_moved(mid, n, o.dir, false)
        }),
        Key::Char(c) => ({
            let mid = Bk { query: n.query, ..o };
            &&& n.query@ == o.query@.push(c)
            &&& (if crate::book::search_moved_hit(mid, o.dir, false) {
                search_moved(mid, n, o.dir, false)
            } else {
                n == (Bk {
                    chapter: restored_pos.0 as usize,
                    line: restored_pos.1 as usize,
                    query: n.query,
                    ..o
                })
            })
        }),
        _ => n == o,
    }
}

/// Handles a key on the search view: exactly `search_key_post`.
pub fn search_on_key(bk: &mut Bk, key: Key)
    requires
        bk_wf(*old(bk)),
        old(bk).view is Search,
    ensures
        bk_wf(*final(bk)),
        search_key_post(*old(bk), *final(bk), key),
{
    match key {
        Key::Esc => {
            bk.jump_reset();
            bk.query = Vec::new();
            bk.view = ViewKind::Page;
        },
        Key::Enter => {
            bk.view = ViewKind::Page;
        },
        Key::Backspace => {
            let _ = bk.query.pop();
            bk.jump_reset();
            let dir = bk.dir;
            bk.search(dir, false);
        },
        Key::Char(c) => {
            bk.query.push(c);
            let dir = bk.dir;
            if !bk.search(dir, false) {
                bk.jump_reset();
            }
        },
        _ => {},
    }
}

/// What the mark and jump prompts do: the next character key binds the
/// current position, or jumps to its binding — recording the position left
/// in the reserved mark, the line clamped into today's line count — and
/// either way the page view returns.
pub open spec fn mark_key_post(o: Bk, n: Bk, key: Key) -> bool {
    match key {
        Key::Char(c) => mark_map(n.mark@) == mark_map(o.mark@).insert(c, (o.chapter, o.line))
            && n == (Bk { mark: n.mark, view: ViewKind::Page, ..o }),
        _ => n == (Bk { view: ViewKind::Page, ..o }),
    }
}

/// Handles a key on the mark prompt: exactly `mark_key_post`.
pub fn mark_on_key(bk: &mut Bk, key: Key)
    requires
        bk_wf(*old(bk)),
    ensures
        bk_wf(*final(bk)),
        mark_key_post(*old(bk), *final(bk), key),
{
    match key {
        Key::Char(c) => {
            bk.mark(c);
            bk.view = ViewKind::Page;
        },
        _ => {
            bk.view = ViewKind::Page;
        },
    }
}

pub open spec fn jump_key_post(o: Bk, n: Bk, key: Key) -> bool {
    match key {
        Key::Char(c) => if mark_map(o.mark@).dom().contains(c) {
            let p = mark_map(o.mark@)[c];
            let ll = o.chapters@[p.0 as int].lines@.len();
            &&& n.chapter == p.0
            &&& n.line == (if p.1 < ll {
                p.1 as int
            } else {
                ll - 1
            })
            &&& mark_map(n.mark@) == mark_map(o.mark@).insert('\'', (o.chapter, o.line))
            &&& n == (Bk {
                chapter: n.chapter,
                line: n.line,
                mark: n.mark,
                view: ViewKind::Page,
                ..o
            })
        } else {
            n == (Bk { view: ViewKind::Page, ..o })
        },
        _ => n == (Bk { view: ViewKind::Page, ..o }),
    }
}

/// Handles a key on the jump prompt: exactly `jump_key_post`.
pub fn jump_on_key(bk: &mut Bk, key: Key)
    requires
        bk_wf(*old(bk)),
    ensures
        bk_wf(*final(bk)),
        jump_key_post(*old(bk), *final(bk), key),
{
    match key {
        Key::Char(c) => {
            match crate::book::mark_get(&bk.mark, c) {
                Some(p) => {
                    proof {
                        assert(chapter_wf(bk.chapters@[p.0 as int]));
                    }
                    let ll = bk.chapters[p.0].lines.len();
                    let l = if p.1 < ll {
                        p.1
                    } else {
                        ll - 1
                    };
                    bk.jump((p.0, l));
                },
                None => {},
            }
            bk.view = ViewKind::Page;
        },
        _ => {
            bk.view = ViewKind::Page;
        },
    }
}

/// Dispatches a key to the live view: the page, contents, search, mark and
/// jump handlers above; from the help and progress views any key returns to
/// the page.
pub fn on_key(bk: &mut Bk, key: Key)
    requires
        bk_wf(*old(bk)),
    ensures
        bk_wf(*final(bk)),
        match old(bk).view {
            ViewKind::Page => page_key_post(*old(bk), *final(bk), key),
            ViewKind::Toc => toc_key_post(*old(bk), *final(bk), key),
            ViewKind::Search => search_key_post(*old(bk), *final(bk), key),
            ViewKind::Mark => mark_key_post(*old(bk), *final(bk), key),
            ViewKind::Jump => jump_key_post(*old(bk), *final(bk), key),
            ViewKind::Help => *final(bk) == (Bk { view: ViewKind::Page, ..*old(bk) }),
            ViewKind::Metadata => *final(bk) == (Bk { view: ViewKind::Page, ..*old(bk) }),
        },
{
    match bk.view {
        ViewKind::Page => page_on_key(bk, key),
        ViewKind::Toc => toc_on_key(bk, key),
        ViewKind::Search => search_on_key(bk, key),
        ViewKind::Mark => mark_on_key(bk, key),
        ViewKind::Jump => jump_on_key(bk, key),
        ViewKind::Help => {
            bk.view = ViewKind::Page;
        },
        ViewKind::Metadata => {
            bk.view = ViewKind::Page;
        },
    }
}

/// Dispatches a mouse event: on the page a click follows a link under it and
/// the wheel scrolls three lines; on the contents a click opens the chapter
/// on that row and the wheel moves the selection by three.
pub fn on_mouse(bk: &mut Bk, ev: Mouse)
    requires
        bk_wf(*old(bk)),
    ensures
        bk_wf(*final(bk)),
        match old(bk).view {
            ViewKind::Page => match ev {
                Mouse::Down { col, row } => match click_target(*old(bk), col as int, row as int) {
                    Some(t) => final(bk).chapter == t.0 && line_of_post(
                        old(bk).chapters@[t.0 as int].lines@,
                        final(bk).line as int,
                        t.1 as int,
                    ) && mark_map(final(bk).mark@) == mark_map(old(bk).mark@).insert(
                        '\'',
                        (old(bk).chapter, old(bk).line),
                    ) && *final(bk) == (Bk {
                        chapter: final(bk).chapter,
                        line: final(bk).line,
                        mark: final(bk).mark,
                        ..*old(bk)
                    }),
                    None => *final(bk) == *old(bk),
                },
                Mouse::ScrollDown => scrolled_down(*old(bk), *final(bk), 3),
                Mouse::ScrollUp => scrolled_up(*old(bk), *final(bk), 3),
            },
            ViewKind::Toc => match ev {
                Mouse::Down { col, row } => ({
                    let cur = if old(bk).cursor <= old(bk).chapter {
                        old(bk).cursor as int
                    } else {
                        old(bk).chapter as int
                    };
                    let start = old(bk).chapter - cur;
                    if start + row < old(bk).chapters@.len() {
                        *final(bk) == (Bk {
                            chapter: (start + row) as usize,
                            line: 0,
                            view: ViewKind::Page,
                            ..*old(bk)
                        })
                    } else {
                        *final(bk) == *old(bk)
                    }
                }),
                Mouse::ScrollDown => toc_stepped(*old(bk), *final(bk), if old(bk).chapter + 3
                    < old(bk).chapters@.len() {
                    old(bk).chapter + 3
                } else {
                    old(bk).chapters@.len() - 1
                }),
                Mouse::ScrollUp => toc_stepped(*old(bk), *final(bk), if old(bk).chapter >= 3 {
                    old(bk).chapter - 3
                } else {
                    0int
                }),
            },
            _ => *final(bk) == *old(bk),
        },
{
    match bk.view {
        ViewKind::Page => {
            match ev {
                Mouse::Down { col, row } => bk.click(col, row),
                Mouse::ScrollDown => bk.scroll_down(3),
                Mouse::ScrollUp => bk.scroll_up(3),
            }
        },
        ViewKind::Toc => {
            match ev {
                Mouse::Down { col: _, row } => {
                    let cur = if bk.cursor <= bk.chapter {
                        bk.cursor
                    } else {
                        bk.chapter
                    };
                    let start = bk.chapter - cur;
                    if row < bk.chapters.len() - start {
                        bk.chapter = start + row;
                        bk.line = 0;
                        bk.view = ViewKind::Page;
                        proof {
                            assert(chapter_wf(bk.chapters@[bk.chapter as int]));
                        }
                    }
                },
                Mouse::ScrollDown => toc_next(bk, 3),
                Mouse::ScrollUp => toc_prev(bk, 3),
            }
        },
        _ => {},
    }
}
}
