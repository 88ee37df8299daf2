//! The library's own model of a parsed markup document: an owned tree of
//! elements and character data. The outside parser produces it; every walk
//! over it is verified.

use vstd::prelude::*;

verus! {

/// One node of a markup document: a run of character data, or an element
/// with its name, its attributes in document order, and its children.
pub enum XmlNode {
    Text { chars: Vec<char> },
    Element { name: Vec<char>, attrs: Vec<(Vec<char>, Vec<char>)>, children: Vec<XmlNode> },
}

impl XmlNode {
    /// The first descendant element (this node included) carrying the given
    /// name, in document order.
    pub open spec fn spec_find(self, tag: Seq<char>) -> Option<XmlNode>
        decreases self,
    {
        match self {
            XmlNode::Text { .. } => None,
            XmlNode::Element { name, children, .. } => if name@ == tag {
                Some(self)
            } else {
                Self::spec_find_list(children@, tag)
            },
        }
    }

    /// The first hit of `spec_find` over a row of sibling nodes.
    pub open spec fn spec_find_list(s: Seq<XmlNode>, tag: Seq<char>) -> Option<XmlNode>
        decreases s,
    {
        if s.len() == 0 {
            None
        } else {
            match s[0].spec_find(tag) {
                Some(m) => Some(m),
                None => Self::spec_find_list(s.drop_first(), tag),
            }
        }
    }

    /// Depth-first search for the first element with the given name.
    #[verifier::loop_isolation(false)]
    pub fn find(&self, tag: &str) -> (r: Option<&XmlNode>)
        ensures
            match r {
                Some(m) => Self::spec_find(*self, tag@) == Some(*m),
                None => Self::spec_find(*self, tag@) is None,
            },
        decreases *self,
    {
        match self {
            XmlNode::Text { .. } => None,
            XmlNode::Element { name, children, .. } => {
                if crate::text::chars_eq_str(name.as_slice(), tag) {
                    Some(self)
                } else {
                    proof {
                        assert(children@.skip(0) =~= children@);
                    }
                    let mut i: usize = 0;
                    while i < children.len()
                        invariant
                            i <= children@.len(),
                            Self::spec_find_list(children@, tag@) == Self::spec_find_list(
                                children@.skip(i as int),
                                tag@,
                            ),
                        decreases children@.len() - i,
                    {
                        proof {
                            assert(decreases_to!(*self => self->children));
                            assert(decreases_to!(self->children => self->children@));
                            assert(decreases_to!(self->children@ => self->children@[i as int]));
                            assert(decreases_to!(*self => children@[i as int]));
                        }
                        let hit = children[i].find(tag);
                        if hit.is_some() {
                            proof {
                                assert(children@.skip(i as int)[0] == children@[i as int]);
                            }
                            return hit;
                        }
                        proof {
                            assert(children@.skip(i as int)[0] == children@[i as int]);
                            assert(children@.skip(i as int).drop_first() =~= children@.skip(
                                i + 1,
                            ));
                        }
                        i = i + 1;
                    }
                    proof {
                        assert(children@.skip(i as int).len() == 0);
                    }
                    None
                }
            },
        }
    }
}

/// The text directly under a node: the character data of its first child,
/// when that child is character data.
pub open spec fn node_text_spec(n: XmlNode) -> Option<Seq<char>> {
    match n {
        XmlNode::Text { chars } => Some(chars@),
        XmlNode::Element { children, .. } => if children@.len() > 0 {
            match children@[0] {
                XmlNode::Text { chars } => Some(chars@),
                _ => None,
            }
        } else {
            None
        },
    }
}

impl XmlNode {
    /// The character data of the node's first child, owned.
    pub fn text(&self) -> (r: Option<Vec<char>>)
        ensures
            match r {
                Some(v) => node_text_spec(*self) == Some(v@),
                None => node_text_spec(*self) is None,
            },
    {
        match self {
            XmlNode::Text { chars } => Some(
                crate::text::copy_range(chars.as_slice(), 0, chars.len()),
            ),
            XmlNode::Element { children, .. } => {
                if children.len() > 0 {
                    match &children[0] {
                        XmlNode::Text { chars } => {
                            let v = crate::text::copy_range(chars.as_slice(), 0, chars.len());
                            proof {
                                assert(v@ =~= chars@);
                            }
                            Some(v)
                        },
                        _ => None,
                    }
                } else {
                    None
                }
            },
        }
    }

    /// Whether this node is an element.
    pub fn is_element(&self) -> (r: bool)
        ensures
            r == (*self is Element),
    {
        match self {
            XmlNode::Element { .. } => true,
            XmlNode::Text { .. } => false,
        }
    }
}

/// The tree a markup document parses to: a function of the document text
/// alone, named here so contracts can speak of it; whether the text parses
/// at all is part of the name's answer.
pub uninterp spec fn parsed_markup(text: Seq<char>) -> Option<XmlNode>;

/// Relies on roxmltree's Document::parse_with_options: what a document
/// parses to — or that it is malformed — depends on the document text alone.
/// DTDs are allowed so that packages relying on named entities declared
/// there do not abort the parse. The parsed tree is copied node by node into
/// the library's own tree by `convert_node`.
#[verifier::external_body]
pub fn parse_markup(text: &str) -> (r: Option<XmlNode>)
    ensures
        r == parsed_markup(text@),
{
    let opt = roxmltree::ParsingOptions { allow_dtd: true, ..Default::default() };
    match roxmltree::Document::parse_with_options(text, opt) {
        Ok(doc) => Some(convert_node(doc.root_element())),
        Err(_) => None,
    }
}

#[verifier::external_type_specification]
#[verifier::external_body]
pub struct ExNode<'a, 'input: 'a>(roxmltree::Node<'a, 'input>);

/// Relies on roxmltree's Node accessors (is_text, is_element, text, tag_name,
/// attributes, children): copies one parsed node and its subtree into the
/// library's own tree, keeping the element name, the attributes and the
/// children in the order the parser reports them. Comments and processing
/// instructions are neither character data nor markup: they are left out, as
/// a walk over elements would skip them.
#[verifier::external_body]
fn convert_node(n: roxmltree::Node) -> (t: XmlNode)
{
    if n.is_text() {
        return XmlNode::Text { chars: n.text().unwrap_or("").chars().collect() };
    }
    XmlNode::Element {
        name: n.tag_name().name().chars().collect(),
        attrs: n.attributes().map(
            |a| (a.name().chars().collect(), a.value().chars().collect()),
        ).collect(),
        children: n.children().filter(
            |c| c.is_text() || c.is_element(),
        ).map(convert_node).collect(),
    }
}
}
