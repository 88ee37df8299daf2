//! The container/TOC extractor: reads the package's pointer, manifest, spine
//! and navigation documents — already parsed into the library's markup tree —
//! and resolves the reading order with a title for every chapter. The spine
//! is the authority on order; the navigation document only supplies labels.

use vstd::prelude::*;
use crate::render::attr_spec;
use crate::search::{find_spec, rfind_spec};
use crate::xml::{node_text_spec, XmlNode};

verus! {

/// The element nodes among a row of children, in order.
pub open spec fn elems(cs: Seq<XmlNode>) -> Seq<XmlNode>
    decreases cs.len(),
{
    if cs.len() == 0 {
        Seq::empty()
    } else if cs[0] is Element {
        seq![cs[0]] + elems(cs.drop_first())
    } else {
        elems(cs.drop_first())
    }
}

/// Whatever `elems` keeps is an element.
pub proof fn lemma_elems_are_elements(cs: Seq<XmlNode>, k: int)
    requires
        0 <= k < elems(cs).len(),
    ensures
        elems(cs)[k] is Element,
    decreases cs.len(),
{
    if cs.len() > 0 {
        if cs[0] is Element {
            if k > 0 {
                lemma_elems_are_elements(cs.drop_first(), k - 1);
            }
        } else {
            lemma_elems_are_elements(cs.drop_first(), k);
        }
    }
}

/// The `k`th element among the node's children.
#[verifier::loop_isolation(false)]
pub fn nth_element_child(n: &XmlNode, k: usize) -> (r: Option<&XmlNode>)
    ensures
        match r {
            Some(m) => *n is Element && k < elems(n->children@).len() && *m == elems(
                n->children@,
            )[k as int],
            None => !(*n is Element && k < elems(n->children@).len()),
        },
{
    match n {
        XmlNode::Text { .. } => None,
        XmlNode::Element { children, .. } => {
            let ghost full = elems(children@);
            let mut i: usize = 0;
            let mut count: usize = 0;
            proof {
                assert(children@.skip(0) =~= children@);
                assert(full.skip(0) =~= full);
            }
            while i < children.len()
                invariant
                    i <= children@.len(),
                    count <= full.len(),
                    elems(children@.skip(i as int)) == full.skip(count as int),
                    count <= k,
                decreases children@.len() - i,
            {
                proof {
                    assert(children@.skip(i as int)[0] == children@[i as int]);
                    assert(children@.skip(i as int).drop_first() =~= children@.skip(i + 1));
                }
                if children[i].is_element() {
                    proof {
                        assert(elems(children@.skip(i as int))[0] == children@[i as int]);
                        assert(full.skip(count as int)[0] == full[count as int]);
                        assert(full.skip(count as int).drop_first() =~= full.skip(count + 1));
                    }
                    if count == k {
                        return Some(&children[i]);
                    }
                    count = count + 1;
                }
                i = i + 1;
            }
            proof {
                assert(elems(children@.skip(children@.len() as int)).len() == 0);
            }
            None
        },
    }
}

/// The path named by the package's root pointer: the `full-path` of the first
/// `rootfile` element.
pub open spec fn rootfile_spec(doc: XmlNode) -> Option<Seq<char>> {
    match XmlNode::spec_find(doc, "rootfile"@) {
        Some(n) => match n {
            XmlNode::Element { attrs, .. } => attr_spec(attrs@, "full-path"@),
            _ => None,
        },
        None => None,
    }
}

/// Reads the package document's location out of the container's root pointer.
pub fn rootfile_path(doc: &XmlNode) -> (r: Option<Vec<char>>)
    ensures
        match r {
            Some(v) => rootfile_spec(*doc) == Some(v@),
            None => rootfile_spec(*doc) is None,
        },
{
    match doc.find("rootfile") {
        Some(n) => match n {
            XmlNode::Element { attrs, .. } => crate::render::attr_of(attrs, "full-path"),
            XmlNode::Text { .. } => None,
        },
        None => None,
    }
}

/// The directory part of a path, up to and including its last slash.
pub open spec fn dir_spec(s: Seq<char>) -> Seq<char> {
    match rfind_spec(s, seq!['/'], s.len() as int) {
        Some(j) => s.subrange(0, j + 1),
        None => Seq::empty(),
    }
}

/// The directory a path lives in; package-internal paths are joined onto it.
pub fn dir_of(path: &[char]) -> (r: Vec<char>)
    ensures
        r@ == dir_spec(path@),
{
    let slash: Vec<char> = vec!['/'];
    proof {
        assert(slash@ =~= seq!['/']);
    }
    match crate::search::rfind_before(path, slash.as_slice(), path.len()) {
        Some(j) => {
            proof {
                crate::search::lemma_rfind_spec_bounds(path@, seq!['/'], path@.len() as int,
                    j as int);
            }
            crate::text::copy_range(path, 0, j + 1)
        },
        None => Vec::new(),
    }
}

/// The file name part of a path: what follows its last slash.
pub open spec fn file_name_spec(s: Seq<char>) -> Seq<char> {
    match rfind_spec(s, seq!['/'], s.len() as int) {
        Some(j) => s.subrange(j + 1, s.len() as int),
        None => s,
    }
}

/// The bare file name of a package-internal path; chapter link targets are
/// keyed by it.
pub fn file_name_of(path: &[char]) -> (r: Vec<char>)
    ensures
        r@ == file_name_spec(path@),
{
    let slash: Vec<char> = vec!['/'];
    proof {
        assert(slash@ =~= seq!['/']);
    }
    match crate::search::rfind_before(path, slash.as_slice(), path.len()) {
        Some(j) => {
            proof {
                crate::search::lemma_rfind_spec_bounds(path@, seq!['/'], path@.len() as int,
                    j as int);
            }
            crate::text::copy_range(path, j + 1, path.len())
        },
        None => crate::text::copy_range(path, 0, path.len()),
    }
}

/// A path with any fragment suffix cut off.
pub open spec fn strip_frag(s: Seq<char>) -> Seq<char> {
    match find_spec(s, seq!['#'], 0) {
        Some(m) => s.subrange(0, m),
        None => s,
    }
}

/// Cuts the `#fragment` suffix off a link target, if one is there.
pub fn strip_fragment(s: &[char]) -> (r: Vec<char>)
    ensures
        r@ == strip_frag(s@),
{
    let hash: Vec<char> = vec!['#'];
    proof {
        assert(hash@ =~= seq!['#']);
    }
    match crate::search::find_from(s, hash.as_slice(), 0) {
        Some(m) => {
            proof {
                crate::search::lemma_find_spec_bounds(s@, seq!['#'], 0, m as int);
            }
            crate::text::copy_range(s, 0, m)
        },
        None => crate::text::copy_range(s, 0, s.len()),
    }
}

/// One metadata line: `name: text`, for an element with text whose name is
/// not `meta`.
pub open spec fn meta_entry(n: XmlNode) -> Seq<char> {
    match n {
        XmlNode::Element { name, .. } => match node_text_spec(n) {
            Some(t) => if name@ != "meta"@ {
                name@ + ": "@ + t + seq!['\n']
            } else {
                Seq::empty()
            },
            None => Seq::empty(),
        },
        _ => Seq::empty(),
    }
}

/// The metadata text: one line per named metadata element.
pub open spec fn meta_text_spec(cs: Seq<XmlNode>) -> Seq<char>
    decreases cs.len(),
{
    if cs.len() == 0 {
        Seq::empty()
    } else {
        meta_entry(cs[0]) + meta_text_spec(cs.drop_first())
    }
}

/// Collects the metadata text of the package's metadata element.
#[verifier::loop_isolation(false)]
pub fn meta_text(meta_node: &XmlNode) -> (r: Vec<char>)
    ensures
        *meta_node is Element ==> r@ == meta_text_spec(meta_node->children@),
        *meta_node is Text ==> r@ == Seq::<char>::empty(),
{
    let mut out: Vec<char> = Vec::new();
    match meta_node {
        XmlNode::Text { .. } => out,
        XmlNode::Element { children, .. } => {
            let cs = children;
            let mut i: usize = 0;
            proof {
                assert(cs@.skip(0) =~= cs@);
                assert(out@ + meta_text_spec(cs@) =~= meta_text_spec(cs@));
            }
            while i < cs.len()
                invariant
                    i <= cs@.len(),
                    out@ + meta_text_spec(cs@.skip(i as int)) == meta_text_spec(cs@),
                decreases cs@.len() - i,
            {
                proof {
                    assert(cs@.skip(i as int)[0] == cs@[i as int]);
                    assert(cs@.skip(i as int).drop_first() =~= cs@.skip(i + 1));
                }
                let ghost before = out@;
                match &cs[i] {
                    XmlNode::Element { name, .. } => {
                        match cs[i].text() {
                            Some(t) => {
                                if !crate::text::chars_eq_str(name.as_slice(), "meta") {
                                    crate::text::append_chars(&mut out, name.as_slice());
                                    crate::text::append_str(&mut out, ": ");
                                    crate::text::append_chars(&mut out, t.as_slice());
                                    out.push('\n');
                                    proof {
                                        assert(out@ =~= before + meta_entry(cs@[i as int]));
                                    }
                                }
                            },
                            None => {},
                        }
                    },
                    XmlNode::Text { .. } => {},
                }
                proof {
                    assert(out@ + meta_text_spec(cs@.skip(i + 1)) =~= before + meta_text_spec(
                        cs@.skip(i as int),
                    ));
                }
                i = i + 1;
            }
            proof {
                assert(meta_text_spec(cs@.skip(cs@.len() as int)) =~= Seq::<char>::empty());
                assert(out@ =~= out@ + Seq::<char>::empty());
            }
            out
        },
    }
}

/// One manifest entry: the item's id and its href, when it has both.
pub open spec fn manifest_entry(n: XmlNode) -> Seq<(Seq<char>, Seq<char>)> {
    match n {
        XmlNode::Element { attrs, .. } => match (
            attr_spec(attrs@, "id"@),
            attr_spec(attrs@, "href"@),
        ) {
            (Some(i), Some(h)) => seq![(i, h)],
            _ => Seq::empty(),
        },
        _ => Seq::empty(),
    }
}

/// The manifest: id-to-href pairs in document order.
pub open spec fn manifest_spec(cs: Seq<XmlNode>) -> Seq<(Seq<char>, Seq<char>)>
    decreases cs.len(),
{
    if cs.len() == 0 {
        Seq::empty()
    } else {
        manifest_entry(cs[0]) + manifest_spec(cs.drop_first())
    }
}

/// Pairs of owned character vectors, as specifications see them.
pub open spec fn pairs_view(v: Seq<(Vec<char>, Vec<char>)>) -> Seq<(Seq<char>, Seq<char>)> {
    v.map_values(|p: (Vec<char>, Vec<char>)| (p.0@, p.1@))
}

/// Collects the manifest's id-to-href pairs.
#[verifier::loop_isolation(false)]
pub fn manifest_pairs(man_node: &XmlNode) -> (r: Vec<(Vec<char>, Vec<char>)>)
    ensures
        *man_node is Element ==> pairs_view(r@) == manifest_spec(man_node->children@),
        *man_node is Text ==> r@.len() == 0,
{
    let mut out: Vec<(Vec<char>, Vec<char>)> = Vec::new();
    match man_node {
        XmlNode::Text { .. } => out,
        XmlNode::Element { children, .. } => {
            let cs = children;
            let mut i: usize = 0;
            proof {
                assert(cs@.skip(0) =~= cs@);
                assert(pairs_view(out@) + manifest_spec(cs@) =~= manifest_spec(cs@));
            }
            while i < cs.len()
                invariant
                    i <= cs@.len(),
                    pairs_view(out@) + manifest_spec(cs@.skip(i as int)) == manifest_spec(cs@),
                decreases cs@.len() - i,
            {
                proof {
                    assert(cs@.skip(i as int)[0] == cs@[i as int]);
                    assert(cs@.skip(i as int).drop_first() =~= cs@.skip(i + 1));
                }
                let ghost before = out@;
                match &cs[i] {
                    XmlNode::Element { attrs, .. } => {
                        match crate::render::attr_of(attrs, "id") {
                            Some(id) => match crate::render::attr_of(attrs, "href") {
                                Some(href) => {
                                    out.push((id, href));
                                    proof {
                                        assert(pairs_view(out@) =~= pairs_view(before)
                                            + manifest_entry(cs@[i as int]));
                                    }
                                },
                                None => {},
                            },
                            None => {},
                        }
                    },
                    XmlNode::Text { .. } => {},
                }
                proof {
                    assert(pairs_view(out@) + manifest_spec(cs@.skip(i + 1)) =~= pairs_view(before)
                        + manifest_spec(cs@.skip(i as int)));
                }
                i = i + 1;
            }
            proof {
                assert(manifest_spec(cs@.skip(cs@.len() as int)) =~= Seq::<
                    (Seq<char>, Seq<char>),
                >::empty());
                assert(pairs_view(out@) =~= pairs_view(out@) + Seq::<
                    (Seq<char>, Seq<char>),
                >::empty());
            }
            out
        },
    }
}

/// The spine's reading order: every element child's `idref`, or nothing at
/// all when one lacks it — the package is then malformed.
pub open spec fn spine_idrefs_spec(cs: Seq<XmlNode>) -> Option<Seq<Seq<char>>>
    decreases cs.len(),
{
    if cs.len() == 0 {
        Some(Seq::empty())
    } else {
        let rest = spine_idrefs_spec(cs.drop_first());
        match cs[0] {
            XmlNode::Element { attrs, .. } => match (attr_spec(attrs@, "idref"@), rest) {
                (Some(id), Some(r)) => Some(seq![id] + r),
                _ => None,
            },
            _ => rest,
        }
    }
}

/// Owned character vectors, as specifications see them.
pub open spec fn strs_view(v: Seq<Vec<char>>) -> Seq<Seq<char>> {
    v.map_values(|s: Vec<char>| s@)
}

/// Collects the spine's idrefs in order; nothing when one is missing.
#[verifier::loop_isolation(false)]
pub fn spine_idrefs(spine_node: &XmlNode) -> (r: Option<Vec<Vec<char>>>)
    ensures
        ({
            let sp = if *spine_node is Element {
                spine_idrefs_spec(spine_node->children@)
            } else {
                Some(Seq::<Seq<char>>::empty())
            };
            match r {
                Some(v) => sp == Some(strs_view(v@)),
                None => sp is None,
            }
        }),
{
    let mut out: Vec<Vec<char>> = Vec::new();
    match spine_node {
        XmlNode::Text { .. } => {
            proof {
                assert(strs_view(out@) =~= Seq::<Seq<char>>::empty());
            }
            Some(out)
        },
        XmlNode::Element { children, .. } => {
            let cs = children;
            let mut i: usize = 0;
            proof {
                assert(cs@.skip(0) =~= cs@);
                assert(strs_view(out@) =~= Seq::<Seq<char>>::empty());
            }
            while i < cs.len()
                invariant
                    i <= cs@.len(),
                    match spine_idrefs_spec(cs@.skip(i as int)) {
                        Some(rest) => spine_idrefs_spec(cs@) == Some(strs_view(out@) + rest),
                        None => spine_idrefs_spec(cs@) is None,
                    },
                decreases cs@.len() - i,
            {
                proof {
                    assert(cs@.skip(i as int)[0] == cs@[i as int]);
                    assert(cs@.skip(i as int).drop_first() =~= cs@.skip(i + 1));
                }
                let ghost before = out@;
                match &cs[i] {
                    XmlNode::Element { attrs, .. } => {
                        match crate::render::attr_of(attrs, "idref") {
                            Some(id) => {
                                let ghost idv = id@;
                                out.push(id);
                                proof {
                                    assert(strs_view(out@) =~= strs_view(before).push(idv));
                                    if spine_idrefs_spec(cs@.skip(i + 1)) is Some {
                                        let rest = spine_idrefs_spec(cs@.skip(i + 1))->0;
                                        assert(strs_view(before) + (seq![idv] + rest)
                                            =~= strs_view(out@) + rest);
                                    }
                                }
                            },
                            None => {
                                return None;
                            },
                        }
                    },
                    XmlNode::Text { .. } => {},
                }
                i = i + 1;
            }
            proof {
                assert(spine_idrefs_spec(cs@.skip(cs@.len() as int)) == Some(
                    Seq::<Seq<char>>::empty(),
                ));
                assert(strs_view(out@) + Seq::<Seq<char>>::empty() =~= strs_view(out@));
            }
            Some(out)
        },
    }
}

/// The title pairs one node of the hierarchical navigation map contributes:
/// for a `navPoint`, its content source (fragment cut) and its label text.
pub open spec fn nav2_entry(n: XmlNode) -> Seq<(Seq<char>, Seq<char>)> {
    match n {
        XmlNode::Element { name, .. } => if name@ == "navPoint"@ {
            let src = match XmlNode::spec_find(n, "content"@) {
                Some(c) => match c {
                    XmlNode::Element { attrs, .. } => attr_spec(attrs@, "src"@),
                    _ => None,
                },
                None => None,
            };
            let label = match XmlNode::spec_find(n, "text"@) {
                Some(tn) => node_text_spec(tn),
                None => None,
            };
            match (src, label) {
                (Some(p), Some(t)) => seq![(strip_frag(p), t)],
                _ => Seq::empty(),
            }
        } else {
            Seq::empty()
        },
        _ => Seq::empty(),
    }
}

/// All title pairs of the hierarchical navigation map below a node, in
/// document order, nested points included.
pub open spec fn nav2_pairs(n: XmlNode) -> Seq<(Seq<char>, Seq<char>)>
    decreases n, 1int,
{
    nav2_entry(n) + (match n {
        XmlNode::Element { children, .. } => nav2_list(children@),
        _ => Seq::empty(),
    })
}

pub open spec fn nav2_list(cs: Seq<XmlNode>) -> Seq<(Seq<char>, Seq<char>)>
    decreases cs, 0int,
{
    if cs.len() == 0 {
        Seq::empty()
    } else {
        nav2_pairs(cs[0]) + nav2_list(cs.drop_first())
    }
}

/// Collects the hierarchical navigation map's title pairs below `n`.
#[verifier::loop_isolation(false)]
pub fn nav2_collect(n: &XmlNode, out: &mut Vec<(Vec<char>, Vec<char>)>)
    ensures
        pairs_view(final(out)@) == pairs_view(old(out)@) + nav2_pairs(*n),
    decreases *n, 1int,
{
    let ghost out0 = out@;
    match n {
        XmlNode::Element { name, children, .. } => {
            proof {
                assert(decreases_to!(*n => *children));
            }
            if crate::text::chars_eq_str(name.as_slice(), "navPoint") {
                let src = match n.find("content") {
                    Some(c) => match c {
                        XmlNode::Element { attrs, .. } => crate::render::attr_of(attrs, "src"),
                        XmlNode::Text { .. } => None,
                    },
                    None => None,
                };
                let label = match n.find("text") {
                    Some(tn) => tn.text(),
                    None => None,
                };
                match (src, label) {
                    (Some(p), Some(t)) => {
                        let stripped = strip_fragment(p.as_slice());
                        out.push((stripped, t));
                        proof {
                            assert(pairs_view(out@) =~= pairs_view(out0) + nav2_entry(*n));
                        }
                    },
                    _ => {
                        proof {
                            assert(pairs_view(out@) =~= pairs_view(out0) + nav2_entry(*n));
                        }
                    },
                }
            } else {
                proof {
                    assert(pairs_view(out@) =~= pairs_view(out0) + nav2_entry(*n));
                }
            }
            let ghost mid = out@;
            let mut i: usize = 0;
            proof {
                assert(children@.skip(0) =~= children@);
                assert(pairs_view(out@) + nav2_list(children@.skip(0)) =~= pairs_view(mid)
                    + nav2_list(children@));
            }
            while i < children.len()
                invariant
                    i <= children@.len(),
                    pairs_view(out@) + nav2_list(children@.skip(i as int)) == pairs_view(mid)
                        + nav2_list(children@),
                decreases children@.len() - i, 1int,
            {
                proof {
                    assert(decreases_to!(*n => *children));
                    assert(decreases_to!(*children => children@));
                    assert(decreases_to!(children@ => children@[i as int]));
                    assert(decreases_to!(*n => children@[i as int]));
                    assert(children@.skip(i as int)[0] == children@[i as int]);
                    assert(children@.skip(i as int).drop_first() =~= children@.skip(i + 1));
                }
                let ghost b4 = out@;
                nav2_collect(&children[i], out);
                proof {
                    assert(pairs_view(out@) + nav2_list(children@.skip(i + 1)) =~= pairs_view(b4)
                        + nav2_list(children@.skip(i as int)));
                }
                i = i + 1;
            }
            proof {
                assert(nav2_list(children@.skip(children@.len() as int)) =~= Seq::<
                    (Seq<char>, Seq<char>),
                >::empty());
                assert(pairs_view(out@) =~= pairs_view(out@) + Seq::<
                    (Seq<char>, Seq<char>),
                >::empty());
                assert(pairs_view(out@) =~= pairs_view(out0) + nav2_pairs(*n));
            }
        },
        XmlNode::Text { .. } => {
            proof {
                assert(pairs_view(out@) =~= pairs_view(out0) + nav2_pairs(*n));
            }
        },
    }
}

/// All character data below a node, concatenated.
pub open spec fn all_text_spec(n: XmlNode) -> Seq<char>
    decreases n, 1int,
{
    match n {
        XmlNode::Text { chars } => chars@,
        XmlNode::Element { children, .. } => all_text_list(children@),
    }
}

pub open spec fn all_text_list(cs: Seq<XmlNode>) -> Seq<char>
    decreases cs, 0int,
{
    if cs.len() == 0 {
        Seq::empty()
    } else {
        all_text_spec(cs[0]) + all_text_list(cs.drop_first())
    }
}

/// Collects all character data below a node.
#[verifier::loop_isolation(false)]
pub fn all_text(n: &XmlNode, out: &mut Vec<char>)
    ensures
        final(out)@ == old(out)@ + all_text_spec(*n),
    decreases *n, 1int,
{
    let ghost out0 = out@;
    match n {
        XmlNode::Text { chars } => {
            crate::text::append_chars(out, chars.as_slice());
        },
        XmlNode::Element { children, .. } => {
            proof {
                assert(decreases_to!(*n => *children));
            }
            let mut i: usize = 0;
            proof {
                assert(children@.skip(0) =~= children@);
                assert(out@ + all_text_list(children@) =~= out0 + all_text_list(children@));
            }
            while i < children.len()
                invariant
                    i <= children@.len(),
                    out@ + all_text_list(children@.skip(i as int)) == out0 + all_text_list(
                        children@,
                    ),
                decreases children@.len() - i, 1int,
            {
                proof {
                    assert(decreases_to!(*n => *children));
                    assert(decreases_to!(*children => children@));
                    assert(decreases_to!(children@ => children@[i as int]));
                    assert(decreases_to!(*n => children@[i as int]));
                    assert(children@.skip(i as int)[0] == children@[i as int]);
                    assert(children@.skip(i as int).drop_first() =~= children@.skip(i + 1));
                }
                let ghost b4 = out@;
                all_text(&children[i], out);
                proof {
                    assert(out@ + all_text_list(children@.skip(i + 1)) =~= b4 + all_text_list(
                        children@.skip(i as int),
                    ));
                }
                i = i + 1;
            }
            proof {
                assert(all_text_list(children@.skip(children@.len() as int)) =~= Seq::<
                    char,
                >::empty());
                assert(out@ =~= out@ + Seq::<char>::empty());
                assert(out@ =~= out0 + all_text_spec(*n));
            }
        },
    }
}

/// The title pairs one node of the flat navigation list contributes: for an
/// anchor with a target, the target (fragment cut) and its visible text.
pub open spec fn nav3_entry(n: XmlNode) -> Seq<(Seq<char>, Seq<char>)> {
    match n {
        XmlNode::Element { name, attrs, .. } => if name@ == "a"@ {
            match attr_spec(attrs@, "href"@) {
                Some(h) => seq![(strip_frag(h), all_text_spec(n))],
                None => Seq::empty(),
            }
        } else {
            Seq::empty()
        },
        _ => Seq::empty(),
    }
}

/// All title pairs of the flat navigation list below a node, in order.
pub open spec fn nav3_pairs(n: XmlNode) -> Seq<(Seq<char>, Seq<char>)>
    decreases n, 2int,
{
    nav3_entry(n) + (match n {
        XmlNode::Element { children, .. } => nav3_list(children@),
        _ => Seq::empty(),
    })
}

pub open spec fn nav3_list(cs: Seq<XmlNode>) -> Seq<(Seq<char>, Seq<char>)>
    decreases cs, 0int,
{
    if cs.len() == 0 {
        Seq::empty()
    } else {
        nav3_pairs(cs[0]) + nav3_list(cs.drop_first())
    }
}

/// Collects the flat navigation list's title pairs below `n`.
#[verifier::loop_isolation(false)]
pub fn nav3_collect(n: &XmlNode, out: &mut Vec<(Vec<char>, Vec<char>)>)
    ensures
        pairs_view(final(out)@) == pairs_view(old(out)@) + nav3_pairs(*n),
    decreases *n, 2int,
{
    let ghost out0 = out@;
    match n {
        XmlNode::Element { name, attrs, children } => {
            proof {
                assert(decreases_to!(*n => *children));
            }
            if crate::text::chars_eq_str(name.as_slice(), "a") {
                match crate::render::attr_of(attrs, "href") {
                    Some(h) => {
                        let stripped = strip_fragment(h.as_slice());
                        let mut label: Vec<char> = Vec::new();
                        all_text(n, &mut label);
                        out.push((stripped, label));
                        proof {
                            assert(pairs_view(out@) =~= pairs_view(out0) + nav3_entry(*n));
                        }
                    },
                    None => {
                        proof {
                            assert(pairs_view(out@) =~= pairs_view(out0) + nav3_entry(*n));
                        }
                    },
                }
            } else {
                proof {
                    assert(pairs_view(out@) =~= pairs_view(out0) + nav3_entry(*n));
                }
            }
            let ghost mid = out@;
            let mut i: usize = 0;
            proof {
                assert(children@.skip(0) =~= children@);
                assert(pairs_view(out@) + nav3_list(children@.skip(0)) =~= pairs_view(mid)
                    + nav3_list(children@));
            }
            while i < children.len()
                invariant
                    i <= children@.len(),
                    pairs_view(out@) + nav3_list(children@.skip(i as int)) == pairs_view(mid)
                        + nav3_list(children@),
                decreases children@.len() - i, 2int,
            {
                proof {
                    assert(decreases_to!(*n => *children));
                    assert(decreases_to!(*children => children@));
                    assert(decreases_to!(children@ => children@[i as int]));
                    assert(decreases_to!(*n => children@[i as int]));
                    assert(children@.skip(i as int)[0] == children@[i as int]);
                    assert(children@.skip(i as int).drop_first() =~= children@.skip(i + 1));
                }
                let ghost b4 = out@;
                nav3_collect(&children[i], out);
                proof {
                    assert(pairs_view(out@) + nav3_list(children@.skip(i + 1)) =~= pairs_view(b4)
                        + nav3_list(children@.skip(i as int)));
                }
                i = i + 1;
            }
            proof {
                assert(nav3_list(children@.skip(children@.len() as int)) =~= Seq::<
                    (Seq<char>, Seq<char>),
                >::empty());
                assert(pairs_view(out@) =~= pairs_view(out@) + Seq::<
                    (Seq<char>, Seq<char>),
                >::empty());
                assert(pairs_view(out@) =~= pairs_view(out0) + nav3_pairs(*n));
            }
        },
        XmlNode::Text { .. } => {
            proof {
                assert(pairs_view(out@) =~= pairs_view(out0) + nav3_pairs(*n));
            }
        },
    }
}

/// The value of the first pair carrying this key.
pub open spec fn assoc_first(pairs: Seq<(Seq<char>, Seq<char>)>, key: Seq<char>) -> Option<
    Seq<char>,
>
    decreases pairs.len(),
{
    if pairs.len() == 0 {
        None
    } else if pairs[0].0 == key {
        Some(pairs[0].1)
    } else {
        assoc_first(pairs.drop_first(), key)
    }
}

/// The value of the last pair carrying this key.
pub open spec fn assoc_last(pairs: Seq<(Seq<char>, Seq<char>)>, key: Seq<char>) -> Option<
    Seq<char>,
>
    decreases pairs.len(),
{
    if pairs.len() == 0 {
        None
    } else if pairs.last().0 == key {
        Some(pairs.last().1)
    } else {
        assoc_last(pairs.drop_last(), key)
    }
}

/// Finds the first pair with this key; the value comes back owned.
#[verifier::loop_isolation(false)]
pub fn lookup_first(pairs: &Vec<(Vec<char>, Vec<char>)>, key: &[char]) -> (r: Option<Vec<char>>)
    ensures
        match r {
            Some(v) => assoc_first(pairs_view(pairs@), key@) == Some(v@),
            None => assoc_first(pairs_view(pairs@), key@) is None,
        },
{
    let mut i: usize = 0;
    proof {
        assert(pairs_view(pairs@).skip(0) =~= pairs_view(pairs@));
    }
    while i < pairs.len()
        invariant
            i <= pairs@.len(),
            assoc_first(pairs_view(pairs@), key@) == assoc_first(
                pairs_view(pairs@).skip(i as int),
                key@,
            ),
        decreases pairs@.len() - i,
    {
        proof {
            assert(pairs_view(pairs@).skip(i as int)[0] == pairs_view(pairs@)[i as int]);
            assert(pairs_view(pairs@).skip(i as int).drop_first() =~= pairs_view(pairs@).skip(
                i + 1,
            ));
        }
        if crate::text::chars_eq(pairs[i].0.as_slice(), key) {
            let v = crate::text::copy_range(pairs[i].1.as_slice(), 0, pairs[i].1.len());
            proof {
                assert(v@ =~= pairs@[i as int].1@);
            }
            return Some(v);
        }
        i = i + 1;
    }
    None
}

/// Finds the last pair with this key; the value comes back owned.
#[verifier::loop_isolation(false)]
pub fn lookup_last(pairs: &Vec<(Vec<char>, Vec<char>)>, key: &[char]) -> (r: Option<Vec<char>>)
    ensures
        match r {
            Some(v) => assoc_last(pairs_view(pairs@), key@) == Some(v@),
            None => assoc_last(pairs_view(pairs@), key@) is None,
        },
{
    let mut i: usize = pairs.len();
    proof {
        assert(pairs_view(pairs@).take(pairs@.len() as int) =~= pairs_view(pairs@));
    }
    while i > 0
        invariant
            i <= pairs@.len(),
            assoc_last(pairs_view(pairs@), key@) == assoc_last(
                pairs_view(pairs@).take(i as int),
                key@,
            ),
        decreases i,
    {
        proof {
            assert(pairs_view(pairs@).take(i as int).last() == pairs_view(pairs@)[i - 1]);
            assert(pairs_view(pairs@).take(i as int).drop_last() =~= pairs_view(pairs@).take(
                i - 1,
            ));
        }
        if crate::text::chars_eq(pairs[i - 1].0.as_slice(), key) {
            let v = crate::text::copy_range(
                pairs[i - 1].1.as_slice(),
                0,
                pairs[i - 1].1.len(),
            );
            proof {
                assert(v@ =~= pairs@[i - 1].1@);
            }
            return Some(v);
        }
        i = i - 1;
    }
    proof {
        assert(pairs_view(pairs@).take(0).len() == 0);
    }
    None
}

/// One decimal digit as a character.
pub open spec fn dec_digit(d: int) -> char {
    if d == 0 {
        '0'
    } else if d == 1 {
        '1'
    } else if d == 2 {
        '2'
    } else if d == 3 {
        '3'
    } else if d == 4 {
        '4'
    } else if d == 5 {
        '5'
    } else if d == 6 {
        '6'
    } else if d == 7 {
        '7'
    } else if d == 8 {
        '8'
    } else {
        '9'
    }
}

/// A number written in decimal.
pub open spec fn dec_spec(n: int) -> Seq<char>
    decreases n,
    when n >= 0
{
    if n < 10 {
        seq![dec_digit(n)]
    } else {
        dec_spec(n / 10).push(dec_digit(n % 10))
    }
}

/// Writes a number in decimal: the fallback chapter label.
pub fn dec_chars(n: usize) -> (r: Vec<char>)
    ensures
        r@ == dec_spec(n as int),
    decreases n,
{
    let d = n % 10;
    let c: char = if d == 0 {
        '0'
    } else if d == 1 {
        '1'
    } else if d == 2 {
        '2'
    } else if d == 3 {
        '3'
    } else if d == 4 {
        '4'
    } else if d == 5 {
        '5'
    } else if d == 6 {
        '6'
    } else if d == 7 {
        '7'
    } else if d == 8 {
        '8'
    } else {
        '9'
    };
    if n < 10 {
        let r: Vec<char> = vec![c];
        proof {
            assert(r@ =~= seq![dec_digit(n as int)]);
        }
        r
    } else {
        let mut r = dec_chars(n / 10);
        r.push(c);
        r
    }
}

/// What the package document says, before any title resolution.
pub struct PackageInfo {
    pub meta: Vec<char>,
    pub manifest: Vec<(Vec<char>, Vec<char>)>,
    pub spine: Vec<Vec<char>>,
    pub version3: bool,
    pub toc_id: Vec<char>,
    pub nav_href: Option<Vec<char>>,
}

/// The package document's content, as specifications see it.
#[verifier::ext_equal]
pub ghost struct PackageV {
    pub meta: Seq<char>,
    pub manifest: Seq<(Seq<char>, Seq<char>)>,
    pub spine: Seq<Seq<char>>,
    pub version3: bool,
    pub toc_id: Seq<char>,
    pub nav_href: Option<Seq<char>>,
}

impl View for PackageInfo {
    type V = PackageV;

    open spec fn view(&self) -> PackageV {
        PackageV {
            meta: self.meta@,
            manifest: pairs_view(self.manifest@),
            spine: strs_view(self.spine@),
            version3: self.version3,
            toc_id: self.toc_id@,
            nav_href: match self.nav_href {
                Some(v) => Some(v@),
                None => None,
            },
        }
    }
}

/// The first manifest item declaring the `nav` capability, by its href.
pub open spec fn nav_href_spec(cs: Seq<XmlNode>) -> Option<Seq<char>>
    decreases cs.len(),
{
    if cs.len() == 0 {
        None
    } else {
        match cs[0] {
            XmlNode::Element { attrs, .. } => if attr_spec(attrs@, "properties"@) == Some(
                "nav"@,
            ) {
                attr_spec(attrs@, "href"@)
            } else {
                nav_href_spec(cs.drop_first())
            },
            _ => nav_href_spec(cs.drop_first()),
        }
    }
}

/// Finds the navigation document's href among the manifest items.
#[verifier::loop_isolation(false)]
pub fn nav_href_of(man_node: &XmlNode) -> (r: Option<Vec<char>>)
    requires
        *man_node is Element,
    ensures
        match r {
            Some(v) => nav_href_spec(man_node->children@) == Some(v@),
            None => nav_href_spec(man_node->children@) is None,
        },
{
    match man_node {
        XmlNode::Text { .. } => None,
        XmlNode::Element { children, .. } => {
            let mut i: usize = 0;
            proof {
                assert(children@.skip(0) =~= children@);
            }
            while i < children.len()
                invariant
                    i <= children@.len(),
                    nav_href_spec(children@) == nav_href_spec(children@.skip(i as int)),
                decreases children@.len() - i,
            {
                proof {
                    assert(children@.skip(i as int)[0] == children@[i as int]);
                    assert(children@.skip(i as int).drop_first() =~= children@.skip(i + 1));
                }
                match &children[i] {
                    XmlNode::Element { attrs, .. } => {
                        let is_nav = match crate::render::attr_of(attrs, "properties") {
                            Some(p) => crate::text::chars_eq_str(p.as_slice(), "nav"),
                            None => false,
                        };
                        if is_nav {
                            return crate::render::attr_of(attrs, "href");
                        }
                    },
                    XmlNode::Text { .. } => {},
                }
                i = i + 1;
            }
            None
        },
    }
}

/// What the package document holds: its first three element children are the
/// metadata, the manifest and the spine; fewer mean a malformed package.
pub open spec fn package_spec(doc: XmlNode) -> Option<PackageV> {
    match doc {
        XmlNode::Element { attrs, children, .. } => {
            let es = elems(children@);
            if es.len() < 3 {
                None
            } else {
                let v3 = attr_spec(attrs@, "version"@) == Some("3.0"@);
                match spine_idrefs_spec(es[2]->children@) {
                    Some(ids) => Some(
                        PackageV {
                            meta: meta_text_spec(es[0]->children@),
                            manifest: manifest_spec(es[1]->children@),
                            spine: ids,
                            version3: v3,
                            toc_id: match attr_spec(es[2]->attrs@, "toc"@) {
                                Some(t) => t,
                                None => "ncx"@,
                            },
                            nav_href: if v3 {
                                nav_href_spec(es[1]->children@)
                            } else {
                                None
                            },
                        },
                    ),
                    None => None,
                }
            }
        },
        _ => None,
    }
}

/// Reads the package document: metadata text, manifest, spine order, the
/// package version, and where the table of contents lives.
pub fn parse_package(doc: &XmlNode) -> (r: Option<PackageInfo>)
    ensures
        match r {
            Some(p) => package_spec(*doc) == Some(p@),
            None => package_spec(*doc) is None,
        },
{
    let meta_node = match nth_element_child(doc, 0) {
        Some(m) => m,
        None => {
            return None;
        },
    };
    let man_node = match nth_element_child(doc, 1) {
        Some(m) => m,
        None => {
            return None;
        },
    };
    let spine_node = match nth_element_child(doc, 2) {
        Some(m) => m,
        None => {
            return None;
        },
    };
    proof {
        lemma_elems_are_elements(doc->children@, 0);
        lemma_elems_are_elements(doc->children@, 1);
        lemma_elems_are_elements(doc->children@, 2);
    }
    let version3 = match doc {
        XmlNode::Element { attrs, .. } => match crate::render::attr_of(attrs, "version") {
            Some(v) => crate::text::chars_eq_str(v.as_slice(), "3.0"),
            None => false,
        },
        XmlNode::Text { .. } => false,
    };
    let ids = match spine_idrefs(spine_node) {
        Some(v) => v,
        None => {
            return None;
        },
    };
    let toc_id = match spine_node {
        XmlNode::Element { attrs, .. } => match crate::render::attr_of(attrs, "toc") {
            Some(t) => t,
            None => crate::text::str_to_chars("ncx"),
        },
        XmlNode::Text { .. } => crate::text::str_to_chars("ncx"),
    };
    let nav_href = if version3 {
        nav_href_of(man_node)
    } else {
        None
    };
    let p = PackageInfo {
        meta: meta_text(meta_node),
        manifest: manifest_pairs(man_node),
        spine: ids,
        version3,
        toc_id,
        nav_href,
    };
    proof {
        assert(p@ =~= package_spec(*doc)->0);
    }
    Some(p)
}

/// The reading order with its titles: for each spine idref in turn, the
/// manifest path, labelled from the navigation pairs — for the hierarchical
/// map the first label wins, for the flat list the last — or by the chapter's
/// position when no label is known. A spine idref missing from the manifest
/// means a malformed package.
pub open spec fn entries_spec(
    manifest: Seq<(Seq<char>, Seq<char>)>,
    nav: Seq<(Seq<char>, Seq<char>)>,
    nav_last: bool,
    idrefs: Seq<Seq<char>>,
    i: int,
) -> Option<Seq<(Seq<char>, Seq<char>)>>
    decreases idrefs.len(),
{
    if idrefs.len() == 0 {
        Some(Seq::empty())
    } else {
        match assoc_first(manifest, idrefs[0]) {
            Some(path) => {
                let looked = if nav_last {
                    assoc_last(nav, path)
                } else {
                    assoc_first(nav, path)
                };
                let label = match looked {
                    Some(l) => l,
                    None => dec_spec(i),
                };
                match entries_spec(manifest, nav, nav_last, idrefs.drop_first(), i + 1) {
                    Some(rest) => Some(seq![(label, path)] + rest),
                    None => None,
                }
            },
            None => None,
        }
    }
}

/// Resolves the spine into `(title, path)` entries, spine order throughout.
#[verifier::loop_isolation(false)]
pub fn spine_entries(
    manifest: &Vec<(Vec<char>, Vec<char>)>,
    nav: &Vec<(Vec<char>, Vec<char>)>,
    nav_last: bool,
    idrefs: &Vec<Vec<char>>,
) -> (r: Option<Vec<(Vec<char>, Vec<char>)>>)
    ensures
        match r {
            Some(v) => entries_spec(
                pairs_view(manifest@),
                pairs_view(nav@),
                nav_last,
                strs_view(idrefs@),
                0,
            ) == Some(pairs_view(v@)),
            None => entries_spec(
                pairs_view(manifest@),
                pairs_view(nav@),
                nav_last,
                strs_view(idrefs@),
                0,
            ) is None,
        },
{
    let ghost mv = pairs_view(manifest@);
    let ghost nv = pairs_view(nav@);
    let ghost iv = strs_view(idrefs@);
    let mut out: Vec<(Vec<char>, Vec<char>)> = Vec::new();
    let mut i: usize = 0;
    proof {
        assert(iv.skip(0) =~= iv);
        assert(pairs_view(out@) =~= Seq::<(Seq<char>, Seq<char>)>::empty());
    }
    while i < idrefs.len()
        invariant
            i <= idrefs@.len(),
            match entries_spec(mv, nv, nav_last, iv.skip(i as int), i as int) {
                Some(rest) => entries_spec(mv, nv, nav_last, iv, 0) == Some(
                    pairs_view(out@) + rest,
                ),
                None => entries_spec(mv, nv, nav_last, iv, 0) is None,
            },
        decreases idrefs@.len() - i,
    {
        proof {
            assert(iv.skip(i as int)[0] == iv[i as int]);
            assert(iv.skip(i as int).drop_first() =~= iv.skip(i + 1));
        }
        let path = match lookup_first(manifest, idrefs[i].as_slice()) {
            Some(p) => p,
            None => {
                return None;
            },
        };
        let label = if nav_last {
            match lookup_last(nav, path.as_slice()) {
                Some(l) => l,
                None => dec_chars(i),
            }
        } else {
            match lookup_first(nav, path.as_slice()) {
                Some(l) => l,
                None => dec_chars(i),
            }
        };
        let ghost before = out@;
        let ghost labv = label@;
        let ghost pathv = path@;
        out.push((label, path));
        proof {
            assert(pairs_view(out@) =~= pairs_view(before).push((labv, pathv)));
            if entries_spec(mv, nv, nav_last, iv.skip(i + 1), i + 1) is Some {
                let rest = entries_spec(mv, nv, nav_last, iv.skip(i + 1), i + 1)->0;
                assert(pairs_view(before) + (seq![(labv, pathv)] + rest) =~= pairs_view(out@)
                    + rest);
            }
        }
        i = i + 1;
    }
    proof {
        assert(entries_spec(mv, nv, nav_last, iv.skip(iv.len() as int), iv.len() as int) == Some(
            Seq::<(Seq<char>, Seq<char>)>::empty(),
        ));
        assert(pairs_view(out@) + Seq::<(Seq<char>, Seq<char>)>::empty() =~= pairs_view(out@));
    }
    Some(out)
}
}
