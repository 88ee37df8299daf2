//! The book: its chapters, flattened and indexed, and the global link table
//! that maps `filename[#fragment]` targets to chapter positions.

use vstd::prelude::*;
use crate::extract::file_name_spec;
use crate::links::{links_wf, LinkSpan};
use crate::render::{build_init, build_wf, render_node_spec, BuildV, ChapterBuild};
use crate::search::rfind_spec;
use crate::style::{runs_wf, StyleRun};
use crate::xml::XmlNode;

verus! {

/// One chapter: its title, its flat text — the unit of search — and the
/// line, style, link and anchor tables indexed into that text.
pub struct Chapter {
    pub title: Vec<char>,
    pub text: Vec<char>,
    pub lines: Vec<(usize, usize)>,
    pub attrs: Vec<StyleRun>,
    pub links: Vec<LinkSpan>,
    pub frag: Vec<(Vec<char>, usize)>,
}

/// A chapter as specifications see it.
#[verifier::ext_equal]
pub ghost struct ChapterV {
    pub title: Seq<char>,
    pub text: Seq<char>,
    pub lines: Seq<(usize, usize)>,
    pub attrs: Seq<StyleRun>,
    pub links: Seq<(int, int, Seq<char>)>,
    pub frag: Seq<(Seq<char>, int)>,
}

impl View for Chapter {
    type V = ChapterV;

    open spec fn view(&self) -> ChapterV {
        ChapterV {
            title: self.title@,
            text: self.text@,
            lines: self.lines@,
            attrs: self.attrs@,
            links: self.links@.map_values(|l: LinkSpan| (l.0 as int, l.1 as int, l.2@)),
            frag: self.frag@.map_values(|f: (Vec<char>, usize)| (f.0@, f.1 as int)),
        }
    }
}

/// A chapter whose tables point inside its text: the style runs rise from
/// offset zero, the link spans are ordered and disjoint, anchors in bounds.
pub open spec fn chapter_tables_wf(c: Chapter) -> bool {
    &&& runs_wf(c.attrs@)
    &&& (forall|i: int|
        0 <= i < c.attrs@.len() ==> (#[trigger] c.attrs@[i]).0 <= c.text@.len())
    &&& links_wf(c.links@)
    &&& (forall|i: int|
        0 <= i < c.links@.len() ==> (#[trigger] c.links@[i]).1 <= c.text@.len())
    &&& (forall|i: int| 0 <= i < c.frag@.len() ==> (#[trigger] c.frag@[i]).1 <= c.text@.len())
}

/// A chapter that is also wrapped: its line spans cover its text.
pub open spec fn chapter_wf(c: Chapter) -> bool {
    &&& chapter_tables_wf(c)
    &&& crate::wrap::lines_cover(c.text@, c.lines@)
    &&& c.text@.len() > 0
}

/// The target table: every internal name inserted so far, later entries
/// overriding earlier ones, read as a map.
pub open spec fn table_map(t: Seq<(Vec<char>, (usize, usize))>) -> Map<Seq<char>, (usize, usize)>
    decreases t.len(),
{
    if t.len() == 0 {
        Map::empty()
    } else {
        table_map(t.drop_last()).insert(t.last().0@, t.last().1)
    }
}

/// Binds a target name: later bindings win, exactly a map insert.
pub fn table_insert(t: &mut Vec<(Vec<char>, (usize, usize))>, key: Vec<char>, val: (usize, usize))
    ensures
        final(t)@ == old(t)@.push((key, val)),
        table_map(final(t)@) == table_map(old(t)@).insert(key@, val),
{
    let ghost keyv = key@;
    t.push((key, val));
    proof {
        assert(final(t)@.drop_last() =~= old(t)@);
        assert(table_map(final(t)@) =~= table_map(old(t)@).insert(keyv, val));
    }
}

/// Looks a target name up: the latest binding, exactly the map's answer.
#[verifier::loop_isolation(false)]
pub fn table_get(t: &Vec<(Vec<char>, (usize, usize))>, key: &[char]) -> (r: Option<(usize, usize)>)
    ensures
        match r {
            Some(v) => table_map(t@).dom().contains(key@) && table_map(t@)[key@] == v,
            None => !table_map(t@).dom().contains(key@),
        },
{
    let mut i: usize = t.len();
    proof {
        assert(t@.take(t@.len() as int) =~= t@);
    }
    while i > 0
        invariant
            i <= t@.len(),
            table_map(t@).dom().contains(key@) == table_map(t@.take(i as int)).dom().contains(
                key@,
            ),
            table_map(t@).dom().contains(key@) ==> table_map(t@)[key@] == table_map(
                t@.take(i as int),
            )[key@],
        decreases i,
    {
        proof {
            assert(t@.take(i as int).last() == t@[i - 1]);
            assert(t@.take(i as int).drop_last() =~= t@.take(i - 1));
        }
        if crate::text::chars_eq(t[i - 1].0.as_slice(), key) {
            return Some(t[i - 1].1);
        }
        i = i - 1;
    }
    proof {
        assert(t@.take(0).len() == 0);
    }
    None
}

/// Whatever the table map answers is one of the table's bound values.
pub proof fn lemma_table_map_values(t: Seq<(Vec<char>, (usize, usize))>, key: Seq<char>)
    requires
        table_map(t).dom().contains(key),
    ensures
        exists|i: int| 0 <= i < t.len() && (#[trigger] t[i]).1 == table_map(t)[key],
    decreases t.len(),
{
    if t.len() > 0 {
        if t.last().0@ == key {
            assert(t[t.len() - 1].1 == table_map(t)[key]);
        } else {
            lemma_table_map_values(t.drop_last(), key);
            let i = choose|i: int|
                0 <= i < t.drop_last().len() && (#[trigger] t.drop_last()[i]).1 == table_map(
                    t.drop_last(),
                )[key];
            assert(t[i].1 == table_map(t)[key]);
        }
    }
}

/// The whole loaded book, immutable once built: chapters in spine order, the
/// global link table, and the package metadata text.
pub struct Epub {
    pub chapters: Vec<Chapter>,
    pub links: Vec<(Vec<char>, (usize, usize))>,
    pub meta: Vec<char>,
}

/// Every link-table target points at a real offset of a real chapter.
pub open spec fn targets_wf(book: Epub) -> bool {
    forall|i: int|
        0 <= i < book.links@.len() ==> (#[trigger] book.links@[i]).1.0 < book.chapters@.len()
            && book.links@[i].1.1 <= book.chapters@[book.links@[i].1.0 as int].text@.len()
}

/// A loaded book: chapters with sound tables, link targets in range.
pub open spec fn epub_wf(book: Epub) -> bool {
    &&& (forall|i: int|
        0 <= i < book.chapters@.len() ==> chapter_tables_wf(#[trigger] book.chapters@[i])
            && book.chapters@[i].text@.len() > 0)
    &&& targets_wf(book)
}

/// Starts an empty book.
pub fn epub_new(meta: Vec<char>) -> (book: Epub)
    ensures
        book.chapters@.len() == 0,
        book.links@.len() == 0,
        book.meta@ == meta@,
        epub_wf(book),
{
    Epub { chapters: Vec::new(), links: Vec::new(), meta }
}

/// The rendering of a chapter document: its root's last element child — the
/// body — rendered from a fresh build; nothing when the document has no
/// element children.
pub open spec fn chapter_build_spec(doc: XmlNode) -> Option<BuildV> {
    match doc {
        XmlNode::Element { children, .. } => {
            let es = crate::extract::elems(children@);
            if es.len() > 0 {
                Some(render_node_spec(es.last(), build_init()))
            } else {
                None
            }
        },
        _ => None,
    }
}

/// The root's last element child: the chapter document's body.
#[verifier::loop_isolation(false)]
pub fn last_element_child(n: &XmlNode) -> (r: Option<&XmlNode>)
    ensures
        match r {
            Some(m) => *n is Element && crate::extract::elems(n->children@).len() > 0 && *m
                == crate::extract::elems(n->children@).last(),
            None => !(*n is Element && crate::extract::elems(n->children@).len() > 0),
        },
{
    match n {
        XmlNode::Text { .. } => None,
        XmlNode::Element { children, .. } => {
            let ghost full = crate::extract::elems(children@);
            let mut i: usize = children.len();
            proof {
                assert(children@.skip(i as int).len() == 0);
            }
            while i > 0
                invariant
                    i <= children@.len(),
                    crate::extract::elems(children@.skip(i as int)).len() == 0,
                decreases i,
            {
                proof {
                    assert(children@.skip(i - 1)[0] == children@[i - 1]);
                    assert(children@.skip(i - 1).drop_first() =~= children@.skip(i as int));
                }
                if children[i - 1].is_element() {
                    proof {
                        lemma_elems_split(children@, i - 1);
                    }
                    return Some(&children[i - 1]);
                }
                i = i - 1;
            }
            proof {
                assert(children@.skip(0) =~= children@);
            }
            None
        },
    }
}

/// Splitting the children at an element: the elements after it are those of
/// the tail, so when the tail has none, it is the last element.
proof fn lemma_elems_split(cs: Seq<XmlNode>, j: int)
    requires
        0 <= j < cs.len(),
        cs[j] is Element,
        crate::extract::elems(cs.skip(j + 1)).len() == 0,
    ensures
        crate::extract::elems(cs).len() > 0,
        crate::extract::elems(cs).last() == cs[j],
    decreases j,
{
    if j == 0 {
        assert(cs.skip(0) =~= cs);
        assert(cs.skip(0)[0] == cs[0]);
        assert(cs.drop_first() =~= cs.skip(1));
        assert(crate::extract::elems(cs) =~= seq![cs[0]] + crate::extract::elems(cs.skip(1)));
    } else {
        assert(cs.drop_first().skip(j) =~= cs.skip(j + 1));
        assert(cs.drop_first()[j - 1] == cs[j]);
        lemma_elems_split(cs.drop_first(), j - 1);
        if cs[0] is Element {
            assert(crate::extract::elems(cs) == seq![cs[0]] + crate::extract::elems(
                cs.drop_first(),
            ));
        }
    }
}

/// Whether the rendered text is blank: nothing but collapsible whitespace.
pub open spec fn all_blank(s: Seq<char>) -> bool {
    forall|i: int| 0 <= i < s.len() ==> crate::render::is_ws_char(s[i])
}

/// Renders a chapter document into a build: nothing when the document has no
/// body or the rendering is blank — such a chapter is dropped from the book.
pub fn build_chapter_doc(doc: &XmlNode) -> (r: Option<ChapterBuild>)
    ensures
        match r {
            Some(cb) => chapter_build_spec(*doc) == Some(cb@) && build_wf(cb@) && !all_blank(
                cb@.text,
            ) && cb@.text.len() > 0,
            None => match chapter_build_spec(*doc) {
                Some(bv) => all_blank(bv.text),
                None => true,
            },
        },
{
    let body = match last_element_child(doc) {
        Some(b) => b,
        None => {
            return None;
        },
    };
    let mut cb = crate::render::build_new();
    crate::render::render_node(body, &mut cb);
    let n = cb.text.len();
    let mut i: usize = 0;
    let mut has_content = false;
    while i < n
        invariant
            i <= n == cb.text@.len(),
            has_content == exists|j: int|
                0 <= j < i && !crate::render::is_ws_char(#[trigger] cb.text@[j]),
        decreases n - i,
    {
        if !is_ws_exec(cb.text[i]) {
            has_content = true;
        }
        i = i + 1;
    }
    if !has_content {
        None
    } else {
        proof {
            assert(cb@.text.len() > 0);
        }
        Some(cb)
    }
}

/// The renderer's whitespace test, repeated here for the blank check.
fn is_ws_exec(c: char) -> (r: bool)
    ensures
        r == crate::render::is_ws_char(c),
{
    c == ' ' || c == '\t' || c == '\n' || c == '\r' || c == '\u{0c}'
}

/// A chapter-internal link target, rebased onto the chapter's file name.
pub open spec fn fix_href(rel: Seq<char>, href: Seq<char>) -> Seq<char> {
    if href.len() > 0 && href[0] == '#' {
        rel + href
    } else {
        href
    }
}

/// The link table after a chapter's fragments are bound: `rel#name` for each
/// anchor offset, on top of the map so far.
pub open spec fn register_map(
    m: Map<Seq<char>, (usize, usize)>,
    rel: Seq<char>,
    frags: Seq<(Seq<char>, int)>,
    idx: usize,
) -> Map<Seq<char>, (usize, usize)>
    decreases frags.len(),
{
    if frags.len() == 0 {
        m
    } else {
        register_map(m, rel, frags.drop_last(), idx).insert(
            rel + seq!['#'] + frags.last().0,
            (idx, frags.last().1 as usize),
        )
    }
}

/// Adds a rendered chapter to the book: binds the chapter's file name to its
/// start and each anchor to its offset, rebases `#fragment` links onto the
/// file name, and appends the chapter — not yet wrapped into lines.
#[verifier::loop_isolation(false)]
#[verifier::rlimit(100)]
pub fn register_chapter(
    book: &mut Epub,
    title: Vec<char>,
    path: &[char],
    cb: ChapterBuild,
) -> (idx: usize)
    requires
        epub_wf(*old(book)),
        build_wf(cb@),
        cb@.text.len() > 0,
    ensures
        epub_wf(*final(book)),
        idx == old(book).chapters@.len(),
        final(book).chapters@.len() == idx + 1,
        forall|i: int| 0 <= i < idx ==> final(book).chapters@[i] == old(book).chapters@[i],
        ({
            let c = final(book).chapters@.last();
            &&& c@.title == title@
            &&& c@.text == cb@.text
            &&& c@.attrs =~= cb.runs@
            &&& c@.frag =~= cb@.frags
            &&& c@.lines.len() == 0
            &&& c@.links =~= cb@.links.map_values(
                |l: (int, int, Seq<char>)| (l.0, l.1, fix_href(file_name_spec(path@), l.2)),
            )
        }),
        table_map(final(book).links@) == register_map(
            table_map(old(book).links@).insert(file_name_spec(path@), (idx, 0)),
            file_name_spec(path@),
            cb@.frags,
            idx,
        ),
        final(book).meta == old(book).meta,
{
    let idx = book.chapters.len();
    let rel = crate::extract::file_name_of(path);
    let ghost relv = rel@;
    let rel_key = crate::text::copy_range(rel.as_slice(), 0, rel.len());
    proof {
        assert(rel_key@ =~= relv);
    }
    table_insert(&mut book.links, rel_key, (idx, 0));
    let ghost m0 = table_map(book.links@);
    let mut fi: usize = 0;
    while fi < cb.frags.len()
        invariant
            fi <= cb.frags@.len(),
            table_map(book.links@) == register_map(m0, relv, cb@.frags.take(fi as int), idx),
            book.chapters == old(book).chapters,
            book.meta == old(book).meta,
            forall|i: int|
                0 <= i < book.links@.len() ==> (#[trigger] book.links@[i]).1.0 <= idx
                    && (book.links@[i].1.0 < idx ==> book.links@[i].1.1 <= book.chapters@[
                book.links@[i].1.0 as int].text@.len()) && (book.links@[i].1.0 == idx
                ==> book.links@[i].1.1 <= cb@.text.len()),
        decreases cb.frags@.len() - fi,
    {
        let mut key = crate::text::copy_range(rel.as_slice(), 0, rel.len());
        key.push('#');
        crate::text::append_chars(&mut key, cb.frags[fi].0.as_slice());
        proof {
            assert(key@ =~= relv + seq!['#'] + cb@.frags[fi as int].0);
            assert(cb@.frags[fi as int] == (cb.frags@[fi as int].0@, cb.frags@[
                fi as int].1 as int));
        }
        table_insert(&mut book.links, key, (idx, cb.frags[fi].1));
        proof {
            assert(cb@.frags.take(fi + 1).drop_last() =~= cb@.frags.take(fi as int));
            assert(cb@.frags.take(fi + 1).last() == cb@.frags[fi as int]);
        }
        fi = fi + 1;
    }
    proof {
        assert(cb@.frags.take(cb@.frags.len() as int) =~= cb@.frags);
    }
    // rebase chapter-internal targets onto the chapter's file name
    let mut fixed: Vec<LinkSpan> = Vec::new();
    let mut li: usize = 0;
    let ghost lview = cb@.links;
    let ghost goal = cb@.links.map_values(
        |l: (int, int, Seq<char>)| (l.0, l.1, fix_href(relv, l.2)),
    );
    proof {
        assert(fixed@.map_values(|l: LinkSpan| (l.0 as int, l.1 as int, l.2@)) =~= goal.take(0));
    }
    while li < cb.links.len()
        invariant
            li <= cb.links@.len(),
            fixed@.map_values(|l: LinkSpan| (l.0 as int, l.1 as int, l.2@)) == goal.take(
                li as int,
            ),
            fixed@.len() == li,
            forall|i: int|
                0 <= i < li ==> (#[trigger] fixed@[i]).0 == cb.links@[i].0 && fixed@[i].1
                    == cb.links@[i].1,
        decreases cb.links@.len() - li,
    {
        let s = cb.links[li].0;
        let e = cb.links[li].1;
        let href = crate::text::copy_range(cb.links[li].2.as_slice(), 0, cb.links[li].2.len());
        let ghost before = fixed@;
        if href.len() > 0 && href[0] == '#' {
            let mut built = crate::text::copy_range(rel.as_slice(), 0, rel.len());
            crate::text::append_chars(&mut built, href.as_slice());
            proof {
                assert(built@ =~= fix_href(relv, cb@.links[li as int].2));
            }
            fixed.push((s, e, built));
        } else {
            proof {
                assert(href@ =~= fix_href(relv, cb@.links[li as int].2));
            }
            fixed.push((s, e, href));
        }
        proof {
            assert(fixed@.map_values(|l: LinkSpan| (l.0 as int, l.1 as int, l.2@)) =~= goal.take(
                li + 1,
            ));
        }
        li = li + 1;
    }
    proof {
        assert(goal.take(cb.links@.len() as int) =~= goal);
    }
    let c = Chapter {
        title,
        text: cb.text,
        lines: Vec::new(),
        attrs: cb.runs,
        links: fixed,
        frag: cb.frags,
    };
    proof {
        assert(chapter_tables_wf(c)) by {
            assert(forall|i: int|
                0 <= i < c.attrs@.len() ==> cb@.runs[i] == ((#[trigger] c.attrs@[i]).0 as int,
                c.attrs@[i].1));
            assert(forall|i: int|
                0 <= i < c.links@.len() ==> (#[trigger] c.links@[i]).0 == cb@.links[i].0
                    && c.links@[i].1 == cb@.links[i].1);
            assert(forall|i: int|
                0 <= i < c.frag@.len() ==> (#[trigger] c.frag@[i]).1 == cb@.frags[i].1);
        }
    }
    book.chapters.push(c);
    proof {
        assert(final(book).chapters@.last()@.attrs =~= cb.runs@);
        assert(final(book).chapters@.last()@.frag =~= cb@.frags);
        assert(final(book).chapters@.last()@.links =~= goal);
        assert(epub_wf(*final(book)));
    }
    idx
}

/// Which way a search runs.
#[derive(Clone, Copy, PartialEq, Eq, Structural, Debug)]
pub enum Direction {
    Next,
    Prev,
}

/// The modal views: exactly one owns input and rendering at any time.
#[derive(Clone, Copy, PartialEq, Eq, Structural, Debug)]
pub enum ViewKind {
    Page,
    Toc,
    Search,
    Help,
    Mark,
    Jump,
    Metadata,
}

/// The mark table read as a map; later bindings win.
pub open spec fn mark_map(t: Seq<(char, (usize, usize))>) -> Map<char, (usize, usize)>
    decreases t.len(),
{
    if t.len() == 0 {
        Map::empty()
    } else {
        mark_map(t.drop_last()).insert(t.last().0, t.last().1)
    }
}

/// Binds a mark: exactly a map insert.
pub fn mark_insert(t: &mut Vec<(char, (usize, usize))>, key: char, val: (usize, usize))
    ensures
        final(t)@ == old(t)@.push((key, val)),
        mark_map(final(t)@) == mark_map(old(t)@).insert(key, val),
{
    t.push((key, val));
    proof {
        assert(final(t)@.drop_last() =~= old(t)@);
        assert(mark_map(final(t)@) =~= mark_map(old(t)@).insert(key, val));
    }
}

/// Looks a mark up: the latest binding, exactly the map's answer.
#[verifier::loop_isolation(false)]
pub fn mark_get(t: &Vec<(char, (usize, usize))>, key: char) -> (r: Option<(usize, usize)>)
    ensures
        match r {
            Some(v) => mark_map(t@).dom().contains(key) && mark_map(t@)[key] == v,
            None => !mark_map(t@).dom().contains(key),
        },
{
    let mut i: usize = t.len();
    proof {
        assert(t@.take(t@.len() as int) =~= t@);
    }
    while i > 0
        invariant
            i <= t@.len(),
            mark_map(t@).dom().contains(key) == mark_map(t@.take(i as int)).dom().contains(key),
            mark_map(t@).dom().contains(key) ==> mark_map(t@)[key] == mark_map(
                t@.take(i as int),
            )[key],
        decreases i,
    {
        proof {
            assert(t@.take(i as int).last() == t@[i - 1]);
            assert(t@.take(i as int).drop_last() =~= t@.take(i - 1));
        }
        if t[i - 1].0 == key {
            return Some(t[i - 1].1);
        }
        i = i - 1;
    }
    proof {
        assert(t@.take(0).len() == 0);
    }
    None
}

/// The whole session: the book, the position in it, the mark table, the
/// layout, and the live view, direction and query.
pub struct Bk {
    pub quit: bool,
    pub chapters: Vec<Chapter>,
    pub chapter: usize,
    pub line: usize,
    pub mark: Vec<(char, (usize, usize))>,
    pub links: Vec<(Vec<char>, (usize, usize))>,
    pub cols: usize,
    pub rows: usize,
    pub max_width: usize,
    pub view: ViewKind,
    pub cursor: usize,
    pub dir: Direction,
    pub meta: Vec<Vec<char>>,
    pub query: Vec<char>,
}

/// A live session: every chapter wrapped and sound, the position inside the
/// book, every mark and link target valid, and the reserved restore mark
/// always bound.
pub open spec fn bk_wf(bk: Bk) -> bool {
    &&& bk.chapters@.len() > 0
    &&& (forall|i: int| 0 <= i < bk.chapters@.len() ==> chapter_wf(#[trigger] bk.chapters@[i]))
    &&& bk.chapter < bk.chapters@.len()
    &&& bk.line < bk.chapters@[bk.chapter as int].lines@.len()
    &&& bk.rows >= 1
    &&& (forall|c: char|
        mark_map(bk.mark@).dom().contains(c) ==> (#[trigger] mark_map(bk.mark@)[c]).0
            < bk.chapters@.len())
    &&& (forall|i: int|
        0 <= i < bk.links@.len() ==> (#[trigger] bk.links@[i]).1.0 < bk.chapters@.len()
            && bk.links@[i].1.1 <= bk.chapters@[bk.links@[i].1.0 as int].text@.len())
    &&& mark_map(bk.mark@).dom().contains('\'')
    &&& 1 <= bk.max_width <= usize::MAX - 6
}

/// What scrolling down `n` lines does: move within the chapter, clamped to
/// its last line, or step to the next chapter past the last visible page.
pub open spec fn scrolled_down(old: Bk, new: Bk, n: int) -> bool {
    &&& ({
        let lines = old.chapters@[old.chapter as int].lines@.len();
        if old.line + old.rows < lines {
            new.chapter == old.chapter && new.line == (if old.line + n < lines {
                old.line + n
            } else {
                lines - 1
            })
        } else if old.chapter + 1 < old.chapters@.len() {
            new.chapter == old.chapter + 1 && new.line == 0
        } else {
            new == old
        }
    })
    &&& new == (Bk { chapter: new.chapter, line: new.line, ..old })
}

/// What scrolling up `n` lines does: move within the chapter, or step to the
/// previous chapter's last visible page from the first line.
pub open spec fn scrolled_up(old: Bk, new: Bk, n: int) -> bool {
    &&& ({
        if old.line > 0 {
            new.chapter == old.chapter && new.line == (if old.line >= n {
                old.line - n
            } else {
                0int
            })
        } else if old.chapter > 0 {
            new.chapter == old.chapter - 1 && new.line == ({
                let lines = old.chapters@[old.chapter - 1].lines@.len();
                if lines > old.rows {
                    lines - old.rows
                } else {
                    0int
                }
            })
        } else {
            new == old
        }
    })
    &&& new == (Bk { chapter: new.chapter, line: new.line, ..old })
}

/// What one search does: on a hit, the position moves to the hit's line and
/// nothing else changes; on a miss the whole session stays untouched.
pub open spec fn search_moved(old: Bk, new: Bk, dir: Direction, skip: bool) -> bool {
    let lines = old.chapters@[old.chapter as int].lines@;
    let from = if (dir is Next) == skip {
        lines[old.line as int].1
    } else {
        lines[old.line as int].0
    };
    let sp = if dir is Next {
        search_fwd(old.chapters@, old.query@, old.chapter as int, from as int)
    } else {
        search_back(old.chapters@, old.query@, old.chapter as int, from as int)
    };
    match sp {
        Some(p) => new.chapter == p.0 && crate::line_index::line_of_post(
            old.chapters@[p.0].lines@,
            new.line as int,
            p.1,
        ) && new == (Bk { chapter: new.chapter, line: new.line, ..old }),
        None => new == old,
    }
}

impl Bk {
    /// Binds `m` to the current position.
    pub fn mark(&mut self, m: char)
        requires
            bk_wf(*old(self)),
        ensures
            bk_wf(*final(self)),
            mark_map(final(self).mark@) == mark_map(old(self).mark@).insert(
                m,
                (old(self).chapter, old(self).line),
            ),
            *final(self) == (Bk { mark: final(self).mark, ..*old(self) }),
    {
        let pos = (self.chapter, self.line);
        mark_insert(&mut self.mark, m, pos);
    }

    /// Moves to a position, leaving the restore mark at the position left.
    pub fn jump(&mut self, pos: (usize, usize))
        requires
            bk_wf(*old(self)),
            pos.0 < old(self).chapters@.len(),
            pos.1 < old(self).chapters@[pos.0 as int].lines@.len(),
        ensures
            bk_wf(*final(self)),
            final(self).chapter == pos.0,
            final(self).line == pos.1,
            mark_map(final(self).mark@) == mark_map(old(self).mark@).insert(
                '\'',
                (old(self).chapter, old(self).line),
            ),
            *final(self) == (Bk {
                chapter: pos.0,
                line: pos.1,
                mark: final(self).mark,
                ..*old(self)
            }),
    {
        self.mark('\'');
        self.chapter = pos.0;
        self.line = pos.1;
    }

    /// Moves to the line of chapter `c` that holds text offset `byte`.
    pub fn jump_byte(&mut self, c: usize, byte: usize)
        requires
            bk_wf(*old(self)),
            c < old(self).chapters@.len(),
        ensures
            bk_wf(*final(self)),
            final(self).chapter == c,
            crate::line_index::line_of_post(
                old(self).chapters@[c as int].lines@,
                final(self).line as int,
                byte as int,
            ),
            *final(self) == (Bk { chapter: c, line: final(self).line, ..*old(self) }),
    {
        proof {
            assert(chapter_wf(self.chapters@[c as int]));
            crate::line_index::lemma_cover_starts_sorted(
                self.chapters@[c as int].text@,
                self.chapters@[c as int].lines@,
            );
        }
        self.chapter = c;
        self.line = crate::line_index::line_of(&self.chapters[c].lines, byte);
    }

    /// Returns to the reserved restore mark; a line remembered before a
    /// re-wrap is clamped into the chapter's present line count.
    pub fn jump_reset(&mut self)
        requires
            bk_wf(*old(self)),
        ensures
            bk_wf(*final(self)),
            final(self).chapter == mark_map(old(self).mark@)['\''].0,
            final(self).line == ({
                let p = mark_map(old(self).mark@)['\''];
                let n = old(self).chapters@[p.0 as int].lines@.len();
                if p.1 < n {
                    p.1 as int
                } else {
                    n - 1
                }
            }),
            *final(self) == (Bk {
                chapter: final(self).chapter,
                line: final(self).line,
                ..*old(self)
            }),
    {
        match mark_get(&self.mark, '\'') {
            Some(pos) => {
                proof {
                    assert(chapter_wf(self.chapters@[pos.0 as int]));
                }
                let n = self.chapters[pos.0].lines.len();
                self.chapter = pos.0;
                self.line = if pos.1 < n {
                    pos.1
                } else {
                    n - 1
                };
            },
            None => {},
        }
    }

    /// The left padding that centres the text column on the grid.
    pub fn pad(&self) -> (r: usize)
        ensures
            r == (if self.cols >= self.max_width {
                (self.cols - self.max_width) / 2
            } else {
                0int
            }),
    {
        if self.cols >= self.max_width {
            (self.cols - self.max_width) / 2
        } else {
            0
        }
    }

    /// Steps to the next chapter's start, when there is one.
    pub fn next_chapter(&mut self)
        requires
            bk_wf(*old(self)),
        ensures
            bk_wf(*final(self)),
            old(self).chapter + 1 < old(self).chapters@.len() ==> final(self).chapter == old(self).chapter + 1 && final(self).line == 0,
            old(self).chapter + 1 >= old(self).chapters@.len() ==> *final(self) == *old(self),
            *final(self) == (Bk {
                chapter: final(self).chapter,
                line: final(self).line,
                ..*old(self)
            }),
    {
        if self.chapter < self.chapters.len() - 1 {
            self.chapter = self.chapter + 1;
            self.line = 0;
            proof {
                assert(chapter_wf(self.chapters@[self.chapter as int]));
            }
        }
    }

    /// Steps to the previous chapter's start, when there is one.
    pub fn prev_chapter(&mut self)
        requires
            bk_wf(*old(self)),
        ensures
            bk_wf(*final(self)),
            old(self).chapter > 0 ==> final(self).chapter == old(self).chapter - 1 && final(self).line == 0,
            old(self).chapter == 0 ==> *final(self) == *old(self),
            *final(self) == (Bk {
                chapter: final(self).chapter,
                line: final(self).line,
                ..*old(self)
            }),
    {
        if self.chapter > 0 {
            self.chapter = self.chapter - 1;
            self.line = 0;
            proof {
                assert(chapter_wf(self.chapters@[self.chapter as int]));
            }
        }
    }

    /// Scrolls down `n` lines within the chapter; past the last visible page
    /// it steps to the next chapter instead. The line is clamped to the
    /// chapter's last line.
    pub fn scroll_down(&mut self, n: usize)
        requires
            bk_wf(*old(self)),
        ensures
            bk_wf(*final(self)),
            scrolled_down(*old(self), *final(self), n as int),
    {
        let len = self.chapters[self.chapter].lines.len();
        if len - self.line > self.rows {
            if len - self.line > n {
                self.line = self.line + n;
            } else {
                self.line = len - 1;
            }
        } else {
            self.next_chapter();
        }
    }

    /// Scrolls up `n` lines; from the chapter's first line it steps to the
    /// previous chapter's last visible page instead.
    pub fn scroll_up(&mut self, n: usize)
        requires
            bk_wf(*old(self)),
        ensures
            bk_wf(*final(self)),
            scrolled_up(*old(self), *final(self), n as int),
    {
        if self.line > 0 {
            if self.line >= n {
                self.line = self.line - n;
            } else {
                self.line = 0;
            }
        } else if self.chapter > 0 {
            self.chapter = self.chapter - 1;
            proof {
                assert(chapter_wf(self.chapters@[self.chapter as int]));
            }
            let lines = self.chapters[self.chapter].lines.len();
            if lines > self.rows {
                self.line = lines - self.rows;
            } else {
                self.line = 0;
            }
        }
    }
}

/// Forward cross-chapter search: chapter `c` from offset `from`, then each
/// later chapter from its start; the first hit wins. Each chapter's text is
/// scanned alone, so a query split across a boundary is never found.
pub open spec fn search_fwd(cs: Seq<Chapter>, q: Seq<char>, c: int, from: int) -> Option<
    (int, int),
>
    decreases cs.len() - c,
    when 0 <= c
{
    if c >= cs.len() {
        None
    } else {
        match crate::search::find_spec(cs[c].text@, q, from) {
            Some(m) => Some((c, m)),
            None => search_fwd(cs, q, c + 1, 0),
        }
    }
}

/// Backward cross-chapter search: chapter `c` before offset `upto`, then
/// each earlier chapter from its end; the first hit wins.
pub open spec fn search_back(cs: Seq<Chapter>, q: Seq<char>, c: int, upto: int) -> Option<
    (int, int),
>
    decreases c,
    when 0 <= c < cs.len() && upto <= cs[c].text@.len()
{
    match rfind_spec(cs[c].text@, q, upto) {
        Some(m) => Some((c, m)),
        None => if c == 0 {
            None
        } else {
            search_back(cs, q, c - 1, cs[c - 1].text@.len() as int)
        },
    }
}

/// Scans the chapters for the query: exactly `search_fwd` or `search_back`.
#[verifier::loop_isolation(false)]
pub fn search_pos(
    chapters: &Vec<Chapter>,
    q: &[char],
    dir: Direction,
    c0: usize,
    byte: usize,
) -> (r: Option<(usize, usize)>)
    requires
        c0 < chapters@.len(),
        byte <= chapters@[c0 as int].text@.len(),
    ensures
        ({
            let sp = if dir is Next {
                search_fwd(chapters@, q@, c0 as int, byte as int)
            } else {
                search_back(chapters@, q@, c0 as int, byte as int)
            };
            match r {
                Some(p) => sp == Some((p.0 as int, p.1 as int)) && p.0 < chapters@.len()
                    && p.1 <= chapters@[p.0 as int].text@.len(),
                None => sp is None,
            }
        }),
{
    match dir {
        Direction::Next => {
            let mut c = c0;
            let mut from = byte;
            while c < chapters.len()
                invariant
                    c0 <= c,
                    c < chapters@.len() ==> from <= chapters@[c as int].text@.len(),
                    search_fwd(chapters@, q@, c0 as int, byte as int) == search_fwd(
                        chapters@,
                        q@,
                        c as int,
                        from as int,
                    ),
                decreases chapters@.len() - c,
            {
                match crate::search::find_from(chapters[c].text.as_slice(), q, from) {
                    Some(m) => {
                        proof {
                            crate::search::lemma_find_spec_bounds(
                                chapters@[c as int].text@,
                                q@,
                                from as int,
                                m as int,
                            );
                        }
                        return Some((c, m));
                    },
                    None => {},
                }
                c = c + 1;
                from = 0;
            }
            None
        },
        Direction::Prev => {
            let mut c = c0;
            let mut upto = byte;
            loop
                invariant
                    c < chapters@.len(),
                    upto <= chapters@[c as int].text@.len(),
                    search_back(chapters@, q@, c0 as int, byte as int) == search_back(
                        chapters@,
                        q@,
                        c as int,
                        upto as int,
                    ),
                decreases c,
            {
                match crate::search::rfind_before(chapters[c].text.as_slice(), q, upto) {
                    Some(m) => {
                        proof {
                            crate::search::lemma_rfind_spec_bounds(
                                chapters@[c as int].text@,
                                q@,
                                upto as int,
                                m as int,
                            );
                        }
                        return Some((c, m));
                    },
                    None => {},
                }
                if c == 0 {
                    return None;
                }
                c = c - 1;
                upto = chapters[c].text.len();
            }
        },
    }
}

/// Whether the search from this state finds anything.
pub open spec fn search_moved_hit(old: Bk, dir: Direction, skip: bool) -> bool {
    let lines = old.chapters@[old.chapter as int].lines@;
    let from = if (dir is Next) == skip {
        lines[old.line as int].1
    } else {
        lines[old.line as int].0
    };
    if dir is Next {
        search_fwd(old.chapters@, old.query@, old.chapter as int, from as int) is Some
    } else {
        search_back(old.chapters@, old.query@, old.chapter as int, from as int) is Some
    }
}

impl Bk {
    /// Runs the live query from the current line: forward from its start —
    /// or its end, to skip a match found in place — and backward the other
    /// way round. A hit moves the position to the hit's line; a miss leaves
    /// the whole session untouched, so the cursor is never stranded.
    pub fn search(&mut self, dir: Direction, skip: bool) -> (found: bool)
        requires
            bk_wf(*old(self)),
        ensures
            bk_wf(*final(self)),
            search_moved(*old(self), *final(self), dir, skip),
            found == (search_moved_hit(*old(self), dir, skip)),
    {
        let span = self.chapters[self.chapter].lines[self.line];
        proof {
            assert(chapter_wf(self.chapters@[self.chapter as int]));
        }
        let byte = match dir {
            Direction::Next => if skip {
                span.1
            } else {
                span.0
            },
            Direction::Prev => if skip {
                span.0
            } else {
                span.1
            },
        };
        proof {
            let ch = self.chapters@[self.chapter as int];
            assert(ch.lines@[self.line as int].1 <= ch.text@.len()
                && ch.lines@[self.line as int].0 <= ch.lines@[self.line as int].1);
        }
        match search_pos(&self.chapters, self.query.as_slice(), dir, self.chapter, byte) {
            Some(p) => {
                self.jump_byte(p.0, p.1);
                true
            },
            None => false,
        }
    }
}

/// A forward hit is a real occurrence, at or past where the scan began.
pub proof fn lemma_search_fwd_hit(cs: Seq<Chapter>, q: Seq<char>, c0: int, from: int, c: int,
    m: int)
    requires
        0 <= c0,
        0 <= from,
        search_fwd(cs, q, c0, from) == Some((c, m)),
    ensures
        c0 <= c < cs.len(),
        crate::search::is_match_at(cs[c].text@, q, m),
        c == c0 ==> from <= m,
    decreases cs.len() - c0,
{
    if c0 < cs.len() {
        match crate::search::find_spec(cs[c0].text@, q, from) {
            Some(m0) => {
                crate::search::lemma_find_spec_bounds(cs[c0].text@, q, from, m0);
            },
            None => {
                lemma_search_fwd_hit(cs, q, c0 + 1, 0, c, m);
            },
        }
    }
}

/// Search then reverse-search from a found match returns to the original
/// line: when a forward search finds its occurrence wholly inside one
/// display line, the backward search taken from that line's end — not
/// skipping in place — succeeds in the same chapter and lands on an
/// occurrence no earlier than the found one, still inside that line. With
/// the found line as the position, the reverse search moves nowhere.
pub proof fn lemma_search_round_trip(
    cs: Seq<Chapter>,
    q: Seq<char>,
    c0: int,
    from: int,
    c: int,
    m: int,
    l: int,
)
    requires
        q.len() > 0,
        0 <= c0,
        0 <= from,
        search_fwd(cs, q, c0, from) == Some((c, m)),
        0 <= l < cs[c].lines@.len(),
        cs[c].lines@[l].0 <= m,
        m + q.len() <= cs[c].lines@[l].1,
        cs[c].lines@[l].1 <= cs[c].text@.len(),
    ensures
        ({
            let upto = cs[c].lines@[l].1 as int;
            match search_back(cs, q, c, upto) {
                Some(p) => p.0 == c && m <= p.1 && cs[c].lines@[l].0 <= p.1 && p.1
                    < cs[c].lines@[l].1,
                None => false,
            }
        }),
{
    lemma_search_fwd_hit(cs, q, c0, from, c, m);
    let upto = cs[c].lines@[l].1 as int;
    crate::search::lemma_rfind_spec_complete(cs[c].text@, q, upto, m);
    let mb = rfind_spec(cs[c].text@, q, upto)->0;
    crate::search::lemma_rfind_spec_bounds(cs[c].text@, q, upto, mb);
}

/// A query that matches inside no single chapter is never found in either
/// direction: the search scans each chapter's text alone, so an occurrence
/// split across a chapter boundary does not exist for it.
pub proof fn lemma_search_no_split(cs: Seq<Chapter>, q: Seq<char>, c: int, byte: int)
    requires
        forall|k: int, i: int|
            0 <= k < cs.len() ==> !(#[trigger] crate::search::is_match_at(cs[k].text@, q, i)),
        0 <= c < cs.len(),
        0 <= byte <= cs[c].text@.len(),
    ensures
        search_fwd(cs, q, c, byte) is None,
        search_back(cs, q, c, byte) is None,
    decreases cs.len() - c + c,
{
    if search_fwd(cs, q, c, byte) is Some {
        let p = search_fwd(cs, q, c, byte)->0;
        lemma_search_fwd_hit(cs, q, c, byte, p.0, p.1);
    }
    match rfind_spec(cs[c].text@, q, byte) {
        Some(m) => {
            crate::search::lemma_rfind_spec_bounds(cs[c].text@, q, byte, m);
        },
        None => {
            if c > 0 {
                lemma_search_back_no_split(cs, q, c - 1);
            }
        },
    }
}

proof fn lemma_search_back_no_split(cs: Seq<Chapter>, q: Seq<char>, c: int)
    requires
        forall|k: int, i: int|
            0 <= k < cs.len() ==> !(#[trigger] crate::search::is_match_at(cs[k].text@, q, i)),
        0 <= c < cs.len(),
    ensures
        search_back(cs, q, c, cs[c].text@.len() as int) is None,
    decreases c,
{
    match rfind_spec(cs[c].text@, q, cs[c].text@.len() as int) {
        Some(m) => {
            crate::search::lemma_rfind_spec_bounds(cs[c].text@, q, cs[c].text@.len() as int, m);
        },
        None => {
            if c > 0 {
                lemma_search_back_no_split(cs, q, c - 1);
            }
        },
    }
}
}
