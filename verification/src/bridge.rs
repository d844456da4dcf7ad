//! Parsing markup into the document model, through the HTML parsing library.
//!
//! The parser is deterministic: what it produces is a function of the markup
//! string alone, so the traversal events of the parsed tree carry a name,
//! `parsed_events`, and the tree the verified builder makes from them is
//! `dom_of(html)`. Every entry point's contract ties its result to that name.

use vstd::prelude::*;

use crate::dom::{forest_view, node_view, Attr, AttrM, Document, Elem, ElemM, Node, NodeM};
use crate::text::str_to_chars;
use kuchikiki::traits::TendrilSink;

verus! {

/// The HTML parser's reference-counted node handle.
#[verifier::external_type_specification]
#[verifier::external_body]
pub struct ExNodeRef(kuchikiki::NodeRef);

/// Plain data of one parsed node.
pub enum RawNode {
    Element { name: String, attrs: Vec<(String, String)> },
    Text(String),
    Comment(String),
    Other,
}

/// Model of one parsed node's data.
#[verifier::ext_equal]
pub enum RawNodeM {
    Element { name: Seq<char>, attrs: Seq<(Seq<char>, Seq<char>)> },
    Text(Seq<char>),
    Comment(Seq<char>),
    Other,
}

/// Model of an attribute pair list.
pub open spec fn pairs_view(vs: Seq<(String, String)>) -> Seq<(Seq<char>, Seq<char>)> {
    vs.map_values(|p: (String, String)| (p.0@, p.1@))
}

impl View for RawNode {
    type V = RawNodeM;

    open spec fn view(&self) -> RawNodeM {
        match self {
            RawNode::Element { name, attrs } => RawNodeM::Element {
                name: name@,
                attrs: pairs_view(attrs@),
            },
            RawNode::Text(t) => RawNodeM::Text(t@),
            RawNode::Comment(t) => RawNodeM::Comment(t@),
            RawNode::Other => RawNodeM::Other,
        }
    }
}

/// The traversal events (start edges and end edges with each node's data) of
/// the tree the parser builds for a markup string: the parse is
/// deterministic, so they are a function of the markup alone.
pub uninterp spec fn parsed_events(html: Seq<char>) -> Seq<(bool, RawNodeM)>;

/// The traversal events of the subtree under a parsed node handle.
pub uninterp spec fn node_edges(n: kuchikiki::NodeRef) -> Seq<(bool, RawNodeM)>;

/// The data of one parsed node handle.
pub uninterp spec fn node_raw(n: kuchikiki::NodeRef) -> RawNodeM;

/// Relies on `kuchikiki::parse_html` (an html5ever parser): lenient,
/// deterministic parsing of markup into a DOM tree; it never fails and
/// returns the document node, whose traversal events are a function of the
/// markup alone.
#[verifier::external_body]
fn parse_markup(html: &str) -> (r: kuchikiki::NodeRef)
    ensures
        node_edges(r) == parsed_events(html@),
{
    kuchikiki::parse_html().one(html)
}

/// Relies on `kuchikiki::NodeRef::traverse`: the start and end edges of the
/// node's descendants, in tree order, starts before ends, properly nested;
/// each entry carries the handle whose data the edge belongs to.
#[verifier::external_body]
fn traverse_edges(n: &kuchikiki::NodeRef) -> (r: Vec<(bool, kuchikiki::NodeRef)>)
    ensures
        r@.len() == node_edges(*n).len(),
        forall|i: int|
            0 <= i < r@.len() ==> (#[trigger] r@[i]).0 == node_edges(*n)[i].0 && node_raw(
                r@[i].1,
            ) == node_edges(*n)[i].1,
{
    n.traverse()
        .map(
            |e| match e {
                kuchikiki::iter::NodeEdge::Start(x) => (true, x),
                kuchikiki::iter::NodeEdge::End(x) => (false, x),
            },
        )
        .collect()
}

/// Relies on `kuchikiki::NodeRef::data`: the node's own data, copied out as
/// plain values; attribute names come in document order with their values.
/// The names are the local parts, so a namespaced attribute in foreign
/// content (an SVG `xlink:href`) is modeled under its local name, which a
/// null-namespace lookup would not see.
#[verifier::external_body]
fn node_payload(n: &kuchikiki::NodeRef) -> (r: RawNode)
    ensures
        r@ == node_raw(*n),
{
    match n.data() {
        kuchikiki::NodeData::Element(e) => RawNode::Element {
            name: e.name.local.to_string(),
            attrs: e.attributes.borrow().map.iter().map(
                |(k, a)| (k.local.to_string(), a.value.clone()),
            ).collect(),
        },
        kuchikiki::NodeData::Text(t) => RawNode::Text(t.borrow().clone()),
        kuchikiki::NodeData::Comment(t) => RawNode::Comment(t.borrow().clone()),
        _ => RawNode::Other,
    }
}

/// An element whose end edge has not been seen yet.
pub struct Frame {
    pub name: Vec<char>,
    pub attrs: Vec<Attr>,
    pub children: Vec<Node>,
}

/// Model of an open element.
#[verifier::ext_equal]
pub struct FrameM {
    pub name: Seq<char>,
    pub attrs: Seq<AttrM>,
    pub children: Seq<NodeM>,
}

impl View for Frame {
    type V = FrameM;

    open spec fn view(&self) -> FrameM {
        FrameM {
            name: self.name@,
            attrs: crate::dom::attrs_view(self.attrs@),
            children: forest_view(self.children@),
        }
    }
}

/// Model of the open-element stack.
pub open spec fn frames_view(fs: Seq<Frame>) -> Seq<FrameM> {
    fs.map_values(|f: Frame| f@)
}

/// The attribute models of parsed attribute pairs.
pub open spec fn attrs_of_pairs(ps: Seq<(Seq<char>, Seq<char>)>) -> Seq<AttrM> {
    ps.map_values(|p: (Seq<char>, Seq<char>)| AttrM { name: p.0, value: p.1 })
}

/// The element an open frame closes into.
pub open spec fn close_frame(f: FrameM) -> NodeM {
    NodeM::Element(ElemM { name: f.name, attrs: f.attrs, children: f.children })
}

/// Append a finished node: to the innermost open element when one exists,
/// else to the document's top level.
pub open spec fn add_m(stack: Seq<FrameM>, top: Seq<NodeM>, node: NodeM) -> (
    Seq<FrameM>,
    Seq<NodeM>,
) {
    if stack.len() > 0 {
        let last = stack[stack.len() - 1];
        (
            stack.update(
                stack.len() - 1,
                FrameM { name: last.name, attrs: last.attrs, children: last.children.push(node) },
            ),
            top,
        )
    } else {
        (stack, top.push(node))
    }
}

/// Close every still-open element at the end of the event stream.
pub open spec fn flush_m(stack: Seq<FrameM>, top: Seq<NodeM>) -> Seq<NodeM>
    decreases stack.len(),
{
    if stack.len() == 0 {
        top
    } else {
        let node = close_frame(stack[stack.len() - 1]);
        let p = add_m(stack.take(stack.len() - 1), top, node);
        flush_m(p.0, p.1)
    }
}

/// The tree built from the traversal events, from event `i` on, with the
/// given open elements and top-level nodes: a start edge of an element opens
/// a frame, start edges of text and comments append leaves, an end edge of
/// an element closes the innermost frame, and everything else (doctypes,
/// processing instructions) is dropped.
pub open spec fn build_from(
    events: Seq<(bool, RawNodeM)>,
    i: int,
    stack: Seq<FrameM>,
    top: Seq<NodeM>,
) -> Seq<NodeM>
    decreases events.len() - i,
{
    if i < 0 || i >= events.len() {
        flush_m(stack, top)
    } else {
        let (start, raw) = events[i];
        if start {
            match raw {
                RawNodeM::Element { name, attrs } => build_from(
                    events,
                    i + 1,
                    stack.push(
                        FrameM { name: name, attrs: attrs_of_pairs(attrs), children: Seq::empty() },
                    ),
                    top,
                ),
                RawNodeM::Text(t) => {
                    let p = add_m(stack, top, NodeM::Text(t));
                    build_from(events, i + 1, p.0, p.1)
                },
                RawNodeM::Comment(t) => {
                    let p = add_m(stack, top, NodeM::Comment(t));
                    build_from(events, i + 1, p.0, p.1)
                },
                RawNodeM::Other => build_from(events, i + 1, stack, top),
            }
        } else {
            match raw {
                RawNodeM::Element { .. } => {
                    if stack.len() > 0 {
                        let node = close_frame(stack[stack.len() - 1]);
                        let p = add_m(stack.take(stack.len() - 1), top, node);
                        build_from(events, i + 1, p.0, p.1)
                    } else {
                        build_from(events, i + 1, stack, top)
                    }
                },
                _ => build_from(events, i + 1, stack, top),
            }
        }
    }
}

/// The document model that parsing a markup string yields.
pub open spec fn dom_of(html: Seq<char>) -> Seq<NodeM> {
    build_from(parsed_events(html), 0, Seq::empty(), Seq::empty())
}

/// Append a finished node to the innermost open element, or to the document.
fn add_node(stack: &mut Vec<Frame>, top: &mut Vec<Node>, node: Node)
    ensures
        (frames_view(final(stack)@), forest_view(final(top)@)) == add_m(
            frames_view(old(stack)@),
            forest_view(old(top)@),
            node_view(node),
        ),
        final(stack)@.len() == old(stack)@.len(),
{
    let ghost st0 = frames_view(stack@);
    let ghost nv = node_view(node);
    if stack.len() > 0 {
        let mut f = match stack.pop() {
            Some(f) => f,
            None => {
                proof {
                    assert(false);
                }
                return ;
            },
        };
        let ghost fv = f@;
        proof {
            crate::dom::forest_view_push(f.children@, node);
        }
        f.children.push(node);
        proof {
            assert(f@ =~= FrameM {
                name: fv.name,
                attrs: fv.attrs,
                children: fv.children.push(nv),
            });
        }
        stack.push(f);
        proof {
            assert(frames_view(stack@) =~= st0.update(st0.len() - 1, FrameM {
                name: st0[st0.len() - 1].name,
                attrs: st0[st0.len() - 1].attrs,
                children: st0[st0.len() - 1].children.push(nv),
            }));
        }
    } else {
        proof {
            crate::dom::forest_view_push(top@, node);
        }
        top.push(node);
        proof {
            assert(frames_view(stack@) =~= st0);
        }
    }
}

/// Convert parsed attribute pairs into the model's attribute list.
fn convert_attrs(pairs: &Vec<(String, String)>) -> (r: Vec<Attr>)
    ensures
        crate::dom::attrs_view(r@) == attrs_of_pairs(pairs_view(pairs@)),
{
    let mut out: Vec<Attr> = Vec::new();
    let ghost target = attrs_of_pairs(pairs_view(pairs@));
    for i in 0..pairs.len()
        invariant
            target == attrs_of_pairs(pairs_view(pairs@)),
            target.len() == pairs@.len(),
            crate::dom::attrs_view(out@) == target.take(i as int),
    {
        let name = str_to_chars(pairs[i].0.as_str());
        let value = str_to_chars(pairs[i].1.as_str());
        let a = Attr { name, value };
        proof {
            crate::dom::attrs_view_push(out@, a);
            assert(target[i as int] == AttrM {
                name: pairs@[i as int].0@,
                value: pairs@[i as int].1@,
            });
        }
        out.push(a);
        proof {
            assert(crate::dom::attrs_view(out@) =~= target.take(i + 1));
        }
    }
    proof {
        assert(target.take(target.len() as int) =~= target);
    }
    out
}

/// Parse markup into an owned document tree.
///
/// The result is exactly `dom_of` of the markup: the parser's traversal
/// events rebuilt as an owned tree. Doctype and processing-instruction nodes
/// are dropped; elements, text and comments keep their document order and
/// attributes.
pub fn parse_document(html: &str) -> (r: Document)
    ensures
        r@ == dom_of(html@),
{
    let root = parse_markup(html);
    let events = traverse_edges(&root);
    let ghost ev = parsed_events(html@);
    let mut stack: Vec<Frame> = Vec::new();
    let mut top: Vec<Node> = Vec::new();
    proof {
        assert(frames_view(stack@) =~= Seq::<FrameM>::empty());
        assert(forest_view(top@) =~= Seq::<NodeM>::empty());
    }
    for i in 0..events.len()
        invariant
            ev == parsed_events(html@),
            events@.len() == ev.len(),
            forall|j: int|
                0 <= j < events@.len() ==> (#[trigger] events@[j]).0 == ev[j].0 && node_raw(
                    events@[j].1,
                ) == ev[j].1,
            build_from(ev, i as int, frames_view(stack@), forest_view(top@)) == build_from(
                ev,
                0,
                Seq::empty(),
                Seq::empty(),
            ),
    {
        let ghost st_in = frames_view(stack@);
        let ghost top_in = forest_view(top@);
        proof {
            assert(events@[i as int].0 == ev[i as int].0 && node_raw(events@[i as int].1)
                == ev[i as int].1);
        }
        let start = events[i].0;
        let ghost raw = ev[i as int].1;
        if start {
            match node_payload(&events[i].1) {
                RawNode::Element { name, attrs } => {
                    let f = Frame {
                        name: str_to_chars(name.as_str()),
                        attrs: convert_attrs(&attrs),
                        children: Vec::new(),
                    };
                    let ghost st0 = frames_view(stack@);
                    proof {
                        assert(forest_view(Seq::<Node>::empty()) == Seq::<NodeM>::empty());
                        assert(f@ =~= FrameM {
                            name: raw->Element_name,
                            attrs: attrs_of_pairs(raw->Element_attrs),
                            children: Seq::empty(),
                        });
                    }
                    stack.push(f);
                    proof {
                        assert(frames_view(stack@) =~= st0.push(f@));
                        assert(build_from(ev, i as int, st_in, top_in) == build_from(
                            ev,
                            i + 1,
                            frames_view(stack@),
                            forest_view(top@),
                        ));
                    }
                },
                RawNode::Text(t) => {
                    add_node(&mut stack, &mut top, Node::Text(str_to_chars(t.as_str())));
                    proof {
                        assert(build_from(ev, i as int, st_in, top_in) == build_from(
                            ev,
                            i + 1,
                            frames_view(stack@),
                            forest_view(top@),
                        ));
                    }
                },
                RawNode::Comment(t) => {
                    add_node(&mut stack, &mut top, Node::Comment(str_to_chars(t.as_str())));
                    proof {
                        assert(build_from(ev, i as int, st_in, top_in) == build_from(
                            ev,
                            i + 1,
                            frames_view(stack@),
                            forest_view(top@),
                        ));
                    }
                },
                RawNode::Other => {
                    proof {
                        assert(build_from(ev, i as int, st_in, top_in) == build_from(
                            ev,
                            i + 1,
                            frames_view(stack@),
                            forest_view(top@),
                        ));
                    }
                },
            }
        } else {
            match node_payload(&events[i].1) {
                RawNode::Element { .. } => {
                    match stack.pop() {
                        Some(f) => {
                            let ghost st0 = frames_view(stack@).push(f@);
                            let node = Node::Element(
                                Elem { name: f.name, attrs: f.attrs, children: f.children },
                            );
                            proof {
                                assert(st_in =~= st0);
                                assert(node_view(node) == close_frame(st0[st0.len() - 1]));
                                assert(frames_view(stack@) =~= st0.take(st0.len() - 1));
                            }
                            add_node(&mut stack, &mut top, node);
                            proof {
                                assert(build_from(ev, i as int, st_in, top_in) == build_from(
                                    ev,
                                    i + 1,
                                    frames_view(stack@),
                                    forest_view(top@),
                                ));
                            }
                        },
                        None => {
                            proof {
                                assert(st_in.len() == 0);
                                assert(build_from(ev, i as int, st_in, top_in) == build_from(
                                    ev,
                                    i + 1,
                                    frames_view(stack@),
                                    forest_view(top@),
                                ));
                            }
                        },
                    }
                },
                _ => {
                    proof {
                        assert(build_from(ev, i as int, st_in, top_in) == build_from(
                            ev,
                            i + 1,
                            frames_view(stack@),
                            forest_view(top@),
                        ));
                    }
                },
            }
        }
    }
    loop
        invariant_except_break
            flush_m(frames_view(stack@), forest_view(top@)) == build_from(
                ev,
                0,
                Seq::empty(),
                Seq::empty(),
            ),
        ensures
            forest_view(top@) == build_from(ev, 0, Seq::empty(), Seq::empty()),
        decreases stack.len(),
    {
        let ghost st0 = frames_view(stack@);
        match stack.pop() {
            Some(f) => {
                let node = Node::Element(
                    Elem { name: f.name, attrs: f.attrs, children: f.children },
                );
                proof {
                    assert(node_view(node) == close_frame(st0[st0.len() - 1]));
                    assert(frames_view(stack@) =~= st0.take(st0.len() - 1));
                }
                add_node(&mut stack, &mut top, node);
            },
            None => {
                proof {
                    assert(st0.len() == 0);
                }
                break ;
            },
        }
    }
    Document { children: top }
}

} // verus!
