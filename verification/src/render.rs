//! The markup renderer: walks one chapter's markup tree depth-first and
//! flattens it into text, style runs, link spans and anchor offsets.
//!
//! Whitespace policy, applied consistently to wrapping and search alike:
//! interior ASCII whitespace collapses to single spaces; block and break
//! elements, not source line structure, decide the line breaks.

use vstd::prelude::*;
use crate::links::LinkSpan;
use crate::xml::XmlNode;
use crate::style::{StyleRun, StyleState};

verus! {

/// The whitespace characters the renderer collapses.
pub open spec fn is_ws_char(c: char) -> bool {
    c == ' ' || c == '\t' || c == '\n' || c == '\r' || c == '\u{0c}'
}

fn is_ws(c: char) -> (r: bool)
    ensures
        r == is_ws_char(c),
{
    c == ' ' || c == '\t' || c == '\n' || c == '\r' || c == '\u{0c}'
}

/// The words of `s` from position `i` on, joined by single spaces: `started`
/// says a word was already written, `gap` that whitespace was seen since.
pub open spec fn join_words(s: Seq<char>, i: int, started: bool, gap: bool) -> Seq<char>
    decreases s.len() - i,
    when 0 <= i
{
    if i >= s.len() {
        Seq::empty()
    } else if is_ws_char(s[i]) {
        join_words(s, i + 1, started, true)
    } else if started && gap {
        seq![' ', s[i]] + join_words(s, i + 1, true, false)
    } else {
        seq![s[i]] + join_words(s, i + 1, true, false)
    }
}

/// A run of character data, normalized: a single leading and trailing space
/// where the source had whitespace, and the words joined by single spaces.
pub open spec fn norm_spec(s: Seq<char>) -> Seq<char> {
    let lead: Seq<char> = if s.len() > 0 && is_ws_char(s[0]) {
        seq![' ']
    } else {
        Seq::empty()
    };
    let trail: Seq<char> = if s.len() > 0 && is_ws_char(s.last()) {
        seq![' ']
    } else {
        Seq::empty()
    };
    lead + join_words(s, 0, false, false) + trail
}

/// The value of the first attribute with this name, if any.
pub open spec fn attr_spec(
    attrs: Seq<(Vec<char>, Vec<char>)>,
    name: Seq<char>,
) -> Option<Seq<char>>
    decreases attrs.len(),
{
    if attrs.len() == 0 {
        None
    } else if attrs[0].0@ == name {
        Some(attrs[0].1@)
    } else {
        attr_spec(attrs.drop_first(), name)
    }
}

/// Looks up an attribute by name; the value comes back owned.
#[verifier::loop_isolation(false)]
pub fn attr_of(attrs: &Vec<(Vec<char>, Vec<char>)>, name: &str) -> (r: Option<Vec<char>>)
    ensures
        match r {
            Some(v) => attr_spec(attrs@, name@) == Some(v@),
            None => attr_spec(attrs@, name@) is None,
        },
{
    let mut i: usize = 0;
    proof {
        assert(attrs@.skip(0) =~= attrs@);
    }
    while i < attrs.len()
        invariant
            i <= attrs@.len(),
            attr_spec(attrs@, name@) == attr_spec(attrs@.skip(i as int), name@),
        decreases attrs@.len() - i,
    {
        proof {
            assert(attrs@.skip(i as int)[0] == attrs@[i as int]);
            assert(attrs@.skip(i as int).drop_first() =~= attrs@.skip(i + 1));
        }
        if crate::text::chars_eq_str(attrs[i].0.as_slice(), name) {
            let v = crate::text::copy_range(attrs[i].1.as_slice(), 0, attrs[i].1.len());
            proof {
                assert(v@ =~= attrs@[i as int].1@);
            }
            return Some(v);
        }
        i = i + 1;
    }
    None
}

/// A chapter under construction: the flat text so far, the style runs, link
/// spans and anchor offsets recorded so far, the style state now active, and
/// whether the walk is inside a link (nested links are not recorded).
pub struct ChapterBuild {
    pub text: Vec<char>,
    pub runs: Vec<StyleRun>,
    pub links: Vec<LinkSpan>,
    pub frags: Vec<(Vec<char>, usize)>,
    pub state: StyleState,
    pub in_link: bool,
}

/// The build state as specifications see it.
#[verifier::ext_equal]
pub ghost struct BuildV {
    pub text: Seq<char>,
    pub runs: Seq<(int, StyleState)>,
    pub links: Seq<(int, int, Seq<char>)>,
    pub frags: Seq<(Seq<char>, int)>,
    pub state: StyleState,
    pub in_link: bool,
}

impl View for ChapterBuild {
    type V = BuildV;

    open spec fn view(&self) -> BuildV {
        BuildV {
            text: self.text@,
            runs: self.runs@.map_values(|r: StyleRun| (r.0 as int, r.1)),
            links: self.links@.map_values(|l: LinkSpan| (l.0 as int, l.1 as int, l.2@)),
            frags: self.frags@.map_values(|f: (Vec<char>, usize)| (f.0@, f.1 as int)),
            state: self.state,
            in_link: self.in_link,
        }
    }
}

impl BuildV {
    /// Appends text.
    pub open spec fn push_text(self, s: Seq<char>) -> BuildV {
        BuildV { text: self.text + s, ..self }
    }

    /// Makes `st` the state from here on: amends the run at the current
    /// offset, or opens a new one.
    pub open spec fn with_style(self, st: StyleState) -> BuildV {
        let off = self.text.len() as int;
        let runs = if self.runs.len() > 0 && self.runs.last().0 == off {
            self.runs.update(self.runs.len() - 1, (off, st))
        } else {
            self.runs.push((off, st))
        };
        BuildV { runs, state: st, ..self }
    }

    /// Records an anchor offset for a fragment name.
    pub open spec fn with_frag(self, id: Seq<char>) -> BuildV {
        BuildV { frags: self.frags.push((id, self.text.len() as int)), ..self }
    }

    /// Records a link span from `start` to the current offset.
    pub open spec fn with_link(self, start: int, href: Seq<char>) -> BuildV {
        BuildV { links: self.links.push((start, self.text.len() as int, href)), ..self }
    }

    /// Marks the walk as inside (or no longer inside) a link.
    pub open spec fn with_in_link(self, v: bool) -> BuildV {
        BuildV { in_link: v, ..self }
    }
}

/// The state a chapter build begins in: empty, one plain run at offset zero.
pub open spec fn build_init() -> BuildV {
    BuildV {
        text: Seq::empty(),
        runs: seq![(0int, StyleState { bold: false, italic: false, underline: false })],
        links: Seq::empty(),
        frags: Seq::empty(),
        state: StyleState { bold: false, italic: false, underline: false },
        in_link: false,
    }
}

/// A well-formed build: the style runs rise strictly from offset zero, link
/// spans are ordered and disjoint, and every recorded offset is inside the
/// text.
pub open spec fn build_wf(b: BuildV) -> bool {
    &&& b.runs.len() > 0
    &&& b.runs[0].0 == 0
    &&& (forall|i: int| 0 <= i < b.runs.len() - 1 ==> (#[trigger] b.runs[i]).0 < b.runs[i + 1].0)
    &&& (forall|i: int| 0 <= i < b.runs.len() ==> (#[trigger] b.runs[i]).0 <= b.text.len())
    &&& (forall|i: int|
        0 <= i < b.links.len() ==> (#[trigger] b.links[i]).0 <= b.links[i].1 <= b.text.len())
    &&& (forall|i: int| 0 <= i < b.links.len() - 1 ==> (#[trigger] b.links[i]).1 <= b.links[i + 1].0)
    &&& (forall|i: int| 0 <= i < b.frags.len() ==> 0 <= (#[trigger] b.frags[i]).1 <= b.text.len())
}

/// Starts a chapter build.
pub fn build_new() -> (b: ChapterBuild)
    ensures
        b@ == build_init(),
        build_wf(b@),
{
    let mut runs: Vec<StyleRun> = Vec::new();
    runs.push((0, StyleState::plain()));
    let b = ChapterBuild {
        text: Vec::new(),
        runs,
        links: Vec::new(),
        frags: Vec::new(),
        state: StyleState::plain(),
        in_link: false,
    };
    proof {
        assert(b@.runs =~= build_init().runs);
        assert(b@.links =~= build_init().links);
        assert(b@.frags =~= build_init().frags);
        assert(b@.text =~= build_init().text);
        assert(b@ =~= build_init());
    }
    b
}

/// Appends one character to the text.
fn push_char(b: &mut ChapterBuild, c: char)
    ensures
        final(b)@ == old(b)@.push_text(seq![c]),
        build_wf(old(b)@) ==> build_wf(final(b)@),
{
    b.text.push(c);
    proof {
        assert(final(b)@.text =~= old(b)@.push_text(seq![c]).text);
        assert(final(b)@ =~= old(b)@.push_text(seq![c]));
    }
}

/// Appends the characters of a literal to the text.
#[verifier::loop_isolation(false)]
fn push_str(b: &mut ChapterBuild, s: &str)
    ensures
        final(b)@ == old(b)@.push_text(s@),
        build_wf(old(b)@) ==> build_wf(final(b)@),
{
    let n = s.unicode_len();
    let mut i: usize = 0;
    proof {
        assert(b@.text =~= old(b)@.text + s@.subrange(0, 0));
    }
    while i < n
        invariant
            i <= n == s@.len(),
            b@ == old(b)@.push_text(s@.subrange(0, i as int)),
        decreases n - i,
    {
        let ghost before = b@;
        b.text.push(s.get_char(i));
        proof {
            assert(b@.text =~= old(b)@.text + s@.subrange(0, i + 1));
            assert(b@ =~= old(b)@.push_text(s@.subrange(0, i + 1)));
        }
        i = i + 1;
    }
    proof {
        assert(s@.subrange(0, s@.len() as int) =~= s@);
        assert(b@ =~= old(b)@.push_text(s@));
    }
}

/// Appends a run of character data, whitespace collapsed.
#[verifier::loop_isolation(false)]
#[verifier::rlimit(100)]
fn push_norm(b: &mut ChapterBuild, s: &[char])
    ensures
        final(b)@ == old(b)@.push_text(norm_spec(s@)),
        build_wf(old(b)@) ==> build_wf(final(b)@),
{
    let n = s.len();
    if n > 0 && is_ws(s[0]) {
        push_char(b, ' ');
    }
    let ghost after_lead = b@;
    let mut i: usize = 0;
    let mut started = false;
    let mut gap = false;
    while i < n
        invariant
            i <= n == s@.len(),
            b@.push_text(join_words(s@, i as int, started, gap)) == after_lead.push_text(
                join_words(s@, 0, false, false),
            ),
            b@.runs == after_lead.runs && b@.links == after_lead.links && b@.frags
                == after_lead.frags && b@.state == after_lead.state && b@.in_link
                == after_lead.in_link,
            after_lead.text.is_prefix_of(b@.text),
        decreases n - i,
    {
        let c = s[i];
        let ghost before = b@;
        if is_ws(c) {
            gap = true;
        } else {
            if started && gap {
                push_char(b, ' ');
                push_char(b, c);
                proof {
                    assert(b@.text =~= before.text + seq![' ', c]);
                    assert(b@ =~= before.push_text(seq![' ', c]));
                    assert(b@.push_text(join_words(s@, i + 1, true, false)).text =~= before
                        .push_text(join_words(s@, i as int, started, gap)).text);
                    assert(b@.push_text(join_words(s@, i + 1, true, false)) =~= before.push_text(
                        join_words(s@, i as int, started, gap),
                    ));
                }
            } else {
                push_char(b, c);
                proof {
                    assert(b@.push_text(join_words(s@, i + 1, true, false)).text =~= before
                        .push_text(join_words(s@, i as int, started, gap)).text);
                    assert(b@.push_text(join_words(s@, i + 1, true, false)) =~= before.push_text(
                        join_words(s@, i as int, started, gap),
                    ));
                }
            }
            started = true;
            gap = false;
        }
        i = i + 1;
    }
    proof {
        assert(join_words(s@, n as int, started, gap) =~= Seq::<char>::empty());
        assert(b@.push_text(Seq::<char>::empty()).text =~= b@.text);
        assert(b@.push_text(Seq::<char>::empty()) =~= b@);
    }
    if n > 0 && is_ws(s[n - 1]) {
        push_char(b, ' ');
    }
    proof {
        assert(final(b)@.text =~= old(b)@.push_text(norm_spec(s@)).text);
        assert(final(b)@ =~= old(b)@.push_text(norm_spec(s@)));
    }
}

/// Makes `st` the active style from the current offset on.
fn set_style(b: &mut ChapterBuild, st: StyleState)
    ensures
        final(b)@ == old(b)@.with_style(st),
        build_wf(old(b)@) ==> build_wf(final(b)@),
{
    let off = b.text.len();
    let last = b.runs.len();
    if last > 0 && b.runs[last - 1].0 == off {
        b.runs.set(last - 1, (off, st));
        b.state = st;
        proof {
            assert(final(b)@.runs =~= old(b)@.with_style(st).runs);
            assert(final(b)@ =~= old(b)@.with_style(st));
        }
    } else {
        b.runs.push((off, st));
        b.state = st;
        proof {
            assert(final(b)@.runs =~= old(b)@.with_style(st).runs);
            assert(final(b)@ =~= old(b)@.with_style(st));
        }
    }
}

/// Records an anchor offset for a fragment name.
fn push_frag(b: &mut ChapterBuild, id: Vec<char>)
    ensures
        final(b)@ == old(b)@.with_frag(id@),
        build_wf(old(b)@) ==> build_wf(final(b)@),
{
    let off = b.text.len();
    b.frags.push((id, off));
    proof {
        assert(final(b)@.frags =~= old(b)@.with_frag(id@).frags);
        assert(final(b)@ =~= old(b)@.with_frag(id@));
    }
}

/// Records a link span from `start` to the current offset.
fn push_link(b: &mut ChapterBuild, start: usize, href: Vec<char>)
    requires
        start <= old(b).text@.len(),
    ensures
        final(b)@ == old(b)@.with_link(start as int, href@),
        build_wf(old(b)@) && (forall|i: int|
            0 <= i < old(b)@.links.len() ==> (#[trigger] old(b)@.links[i]).1 <= start)
            ==> build_wf(final(b)@),
{
    let off = b.text.len();
    b.links.push((start, off, href));
    proof {
        assert(final(b)@.links =~= old(b)@.with_link(start as int, href@).links);
        assert(final(b)@ =~= old(b)@.with_link(start as int, href@));
    }
}

/// A heading element: `h1` through `h6`.
pub open spec fn is_heading(name: Seq<char>) -> bool {
    name.len() == 2 && name[0] == 'h' && (name[1] == '1' || name[1] == '2' || name[1] == '3'
        || name[1] == '4' || name[1] == '5' || name[1] == '6')
}

/// A block element: a paragraph-like container bracketed by line breaks.
pub open spec fn is_block(name: Seq<char>) -> bool {
    name == "blockquote"@ || name == "div"@ || name == "p"@ || name == "tr"@
}

/// A link target left to an outside browser, which this reader does not
/// follow.
pub open spec fn is_external(href: Seq<char>) -> bool {
    href.len() >= "http"@.len() && href.subrange(0, "http"@.len() as int) == "http"@
}

/// What rendering one markup node does to the build state, §4.2 rule by
/// rule: character data is appended normalized; headings and emphasis
/// bracket their content in style runs; anchors with an internal target are
/// underlined and recorded as link spans (nested ones only rendered);
/// elements with an `id` record an anchor offset; breaks, rules, images,
/// blocks and list items put in their line breaks and markers; anything else
/// just renders its children.
pub open spec fn render_node_spec(n: XmlNode, b: BuildV) -> BuildV
    decreases n, 2int,
{
    match n {
        XmlNode::Text { chars } => b.push_text(norm_spec(chars@)),
        XmlNode::Element { name, attrs, children } => render_element_spec(
            name@,
            attrs@,
            children@,
            b,
        ),
    }
}

/// Rendering one element: the dispatch on its name.
pub open spec fn render_element_spec(
    name: Seq<char>,
    attrs: Seq<(Vec<char>, Vec<char>)>,
    children: Seq<XmlNode>,
    b: BuildV,
) -> BuildV
    decreases children, 1int,
{
    let b1 = match attr_spec(attrs, "id"@) {
        Some(id) => b.with_frag(id),
        None => b,
    };
    if name == "br"@ {
        b1.push_text(seq!['\n'])
    } else if name == "hr"@ {
        b1.push_text("\n* * *\n"@)
    } else if name == "img"@ {
        b1.push_text("\n[IMG]\n"@)
    } else if name == "a"@ {
        match attr_spec(attrs, "href"@) {
            Some(href) => if !is_external(href) && !b1.in_link {
                let start = b1.text.len() as int;
                let b2 = render_children_spec(
                    children,
                    b1.with_style(StyleState { underline: true, ..b1.state }).with_in_link(true),
                );
                let b3 = b2.with_style(StyleState { underline: false, ..b2.state }).with_in_link(
                    false,
                );
                b3.with_link(start, href)
            } else {
                render_children_spec(children, b1)
            },
            None => render_children_spec(children, b1),
        }
    } else if name == "em"@ {
        let b2 = render_children_spec(
            children,
            b1.with_style(StyleState { italic: true, ..b1.state }),
        );
        b2.with_style(StyleState { italic: false, ..b2.state })
    } else if name == "strong"@ {
        let b2 = render_children_spec(
            children,
            b1.with_style(StyleState { bold: true, ..b1.state }),
        );
        b2.with_style(StyleState { bold: false, ..b2.state })
    } else if is_heading(name) {
        let b2 = b1.push_text(seq!['\n']);
        let b3 = render_children_spec(
            children,
            b2.with_style(StyleState { bold: true, ..b2.state }),
        );
        let b4 = b3.with_style(StyleState { bold: false, ..b3.state });
        b4.push_text(seq!['\n'])
    } else if is_block(name) {
        render_children_spec(children, b1.push_text(seq!['\n'])).push_text(seq!['\n'])
    } else if name == "li"@ {
        render_children_spec(children, b1.push_text("\n- "@)).push_text(seq!['\n'])
    } else {
        render_children_spec(children, b1)
    }
}

/// Rendering a row of sibling nodes, left to right.
pub open spec fn render_children_spec(cs: Seq<XmlNode>, b: BuildV) -> BuildV
    decreases cs, 0int,
{
    if cs.len() == 0 {
        b
    } else {
        render_children_spec(cs.drop_first(), render_node_spec(cs[0], b))
    }
}

/// Renders one markup node into the build: exactly `render_node_spec`, with
/// the walk's bookkeeping intact — the in-link flag is restored, inside a
/// link no spans are recorded, text and spans only grow, and a well-formed
/// build stays well-formed.
#[verifier::loop_isolation(false)]
pub fn render_node(n: &XmlNode, b: &mut ChapterBuild)
    ensures
        final(b)@ == render_node_spec(*n, old(b)@),
        final(b)@.in_link == old(b)@.in_link,
        old(b)@.in_link ==> final(b)@.links == old(b)@.links,
        old(b)@.text.len() <= final(b)@.text.len(),
        old(b)@.links.len() <= final(b)@.links.len(),
        build_wf(old(b)@) ==> build_wf(final(b)@),
    decreases *n, 2int,
{
    match n {
        XmlNode::Text { chars } => {
            push_norm(b, chars.as_slice());
        },
        XmlNode::Element { name, attrs, children } => {
            proof {
                assert(decreases_to!(*n => *children));
            }
            render_element(name, attrs, children, b);
        },
    }
}

/// Renders one element: exactly `render_element_spec`.
#[verifier::loop_isolation(false)]
#[verifier::rlimit(100)]
pub fn render_element(
    name: &Vec<char>,
    attrs: &Vec<(Vec<char>, Vec<char>)>,
    children: &Vec<XmlNode>,
    b: &mut ChapterBuild,
)
    ensures
        final(b)@ == render_element_spec(name@, attrs@, children@, old(b)@),
        final(b)@.in_link == old(b)@.in_link,
        old(b)@.in_link ==> final(b)@.links == old(b)@.links,
        old(b)@.text.len() <= final(b)@.text.len(),
        old(b)@.links.len() <= final(b)@.links.len(),
        build_wf(old(b)@) ==> build_wf(final(b)@),
    decreases *children, 1int,
{
    match attr_of(attrs, "id") {
        Some(id) => {
            push_frag(b, id);
        },
        None => {},
    }
    let ghost b1 = b@;
    if crate::text::chars_eq_str(name.as_slice(), "br") {
        push_char(b, '\n');
    } else if crate::text::chars_eq_str(name.as_slice(), "hr") {
        push_str(b, "\n* * *\n");
    } else if crate::text::chars_eq_str(name.as_slice(), "img") {
        push_str(b, "\n[IMG]\n");
    } else if crate::text::chars_eq_str(name.as_slice(), "a") {
        match attr_of(attrs, "href") {
            Some(href) => {
                if !crate::text::starts_with_str(href.as_slice(), "http") && !b.in_link {
                    let start = b.text.len();
                    let st = b.state;
                    set_style(
                        b,
                        StyleState { underline: true, bold: st.bold, italic: st.italic },
                    );
                    b.in_link = true;
                    proof {
                        assert(b@ =~= b1.with_style(
                            StyleState {
                                underline: true,
                                bold: b1.state.bold,
                                italic: b1.state.italic,
                            },
                        ).with_in_link(true));
                    }
                    render_children(children, b);
                    let st2 = b.state;
                    let ghost b2 = b@;
                    set_style(
                        b,
                        StyleState { underline: false, bold: st2.bold, italic: st2.italic },
                    );
                    b.in_link = false;
                    proof {
                        assert(b@ =~= b2.with_style(
                            StyleState {
                                underline: false,
                                bold: b2.state.bold,
                                italic: b2.state.italic,
                            },
                        ).with_in_link(false));
                    }
                    push_link(b, start, href);
                } else {
                    render_children(children, b);
                }
            },
            None => {
                render_children(children, b);
            },
        }
    } else if crate::text::chars_eq_str(name.as_slice(), "em") {
        let st = b.state;
        set_style(b, StyleState { italic: true, bold: st.bold, underline: st.underline });
        render_children(children, b);
        let st2 = b.state;
        set_style(b, StyleState { italic: false, bold: st2.bold, underline: st2.underline });
    } else if crate::text::chars_eq_str(name.as_slice(), "strong") {
        let st = b.state;
        set_style(b, StyleState { bold: true, italic: st.italic, underline: st.underline });
        render_children(children, b);
        let st2 = b.state;
        set_style(b, StyleState { bold: false, italic: st2.italic, underline: st2.underline });
    } else if is_heading_name(name) {
        push_char(b, '\n');
        let st = b.state;
        set_style(b, StyleState { bold: true, italic: st.italic, underline: st.underline });
        render_children(children, b);
        let st2 = b.state;
        set_style(b, StyleState { bold: false, italic: st2.italic, underline: st2.underline });
        push_char(b, '\n');
    } else if crate::text::chars_eq_str(name.as_slice(), "blockquote") || crate::text::chars_eq_str(
        name.as_slice(),
        "div",
    ) || crate::text::chars_eq_str(name.as_slice(), "p") || crate::text::chars_eq_str(
        name.as_slice(),
        "tr",
    ) {
        push_char(b, '\n');
        render_children(children, b);
        push_char(b, '\n');
    } else if crate::text::chars_eq_str(name.as_slice(), "li") {
        push_str(b, "\n- ");
        render_children(children, b);
        push_char(b, '\n');
    } else {
        render_children(children, b);
    }
}

/// Whether the element name is `h1` through `h6`.
fn is_heading_name(name: &Vec<char>) -> (r: bool)
    ensures
        r == is_heading(name@),
{
    if name.len() != 2 {
        return false;
    }
    let a = name[0];
    let d = name[1];
    a == 'h' && (d == '1' || d == '2' || d == '3' || d == '4' || d == '5' || d == '6')
}

/// Renders a row of sibling nodes, left to right: `render_children_spec`.
#[verifier::loop_isolation(false)]
pub fn render_children(cs: &Vec<XmlNode>, b: &mut ChapterBuild)
    ensures
        final(b)@ == render_children_spec(cs@, old(b)@),
        final(b)@.in_link == old(b)@.in_link,
        old(b)@.in_link ==> final(b)@.links == old(b)@.links,
        old(b)@.text.len() <= final(b)@.text.len(),
        old(b)@.links.len() <= final(b)@.links.len(),
        build_wf(old(b)@) ==> build_wf(final(b)@),
    decreases *cs, 0int,
{
    let ghost b0 = b@;
    let mut i: usize = 0;
    proof {
        assert(cs@.skip(0) =~= cs@);
    }
    while i < cs.len()
        invariant
            i <= cs@.len(),
            render_children_spec(cs@.skip(i as int), b@) == render_children_spec(cs@, b0),
            b@.in_link == b0.in_link,
            b0.in_link ==> b@.links == b0.links,
            b0.text.len() <= b@.text.len(),
            b0.links.len() <= b@.links.len(),
            build_wf(b0) ==> build_wf(b@),
        decreases cs@.len() - i,
    {
        proof {
            assert(decreases_to!(*cs => cs@));
            assert(decreases_to!(cs@ => cs@[i as int]));
            assert(decreases_to!(*cs => cs@[i as int]));
            assert(cs@.skip(i as int)[0] == cs@[i as int]);
            assert(cs@.skip(i as int).drop_first() =~= cs@.skip(i + 1));
        }
        render_node(&cs[i], b);
        i = i + 1;
    }
    proof {
        assert(cs@.skip(cs@.len() as int).len() == 0);
    }
}
}
