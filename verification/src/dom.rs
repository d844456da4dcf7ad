//! The document model: an owned tree of element, text and comment nodes.
//!
//! A node owns its subtree, so detaching is dropping a child from its
//! parent's list and a node can never be reachable from two trees at once.

use vstd::prelude::*;

use crate::text::{chars_eq, chars_clone};

verus! {

broadcast use vstd::std_specs::vec::axiom_vec_index_decreases;

/// One attribute: a name and a value.
pub struct Attr {
    pub name: Vec<char>,
    pub value: Vec<char>,
}

/// An element: a tag name, attributes in document order, and children.
pub struct Elem {
    pub name: Vec<char>,
    pub attrs: Vec<Attr>,
    pub children: Vec<Node>,
}

/// A node of the document tree.
pub enum Node {
    Element(Elem),
    Text(Vec<char>),
    Comment(Vec<char>),
}

/// A parsed document: the top-level nodes in order.
pub struct Document {
    pub children: Vec<Node>,
}

/// Mathematical model of an attribute.
#[verifier::ext_equal]
pub struct AttrM {
    pub name: Seq<char>,
    pub value: Seq<char>,
}

/// Mathematical model of an element.
#[verifier::ext_equal]
pub struct ElemM {
    pub name: Seq<char>,
    pub attrs: Seq<AttrM>,
    pub children: Seq<NodeM>,
}

/// Mathematical model of a node.
#[verifier::ext_equal]
pub enum NodeM {
    Element(ElemM),
    Text(Seq<char>),
    Comment(Seq<char>),
}

impl View for Attr {
    type V = AttrM;

    open spec fn view(&self) -> AttrM {
        AttrM { name: self.name@, value: self.value@ }
    }
}

/// Model of an attribute list.
pub open spec fn attrs_view(attrs: Seq<Attr>) -> Seq<AttrM> {
    attrs.map_values(|a: Attr| a@)
}

/// Pushing onto an attribute list appends to its model.
pub proof fn attrs_view_push(attrs: Seq<Attr>, a: Attr)
    ensures
        attrs_view(attrs.push(a)) == attrs_view(attrs) + seq![a@],
{
    assert(attrs_view(attrs.push(a)) =~= attrs_view(attrs) + seq![a@]);
}

/// Model of a forest of nodes.
pub open spec fn forest_view(ns: Seq<Node>) -> Seq<NodeM>
    decreases ns,
{
    if ns.len() == 0 {
        Seq::empty()
    } else {
        seq![node_view(ns[0])] + forest_view(ns.subrange(1, ns.len() as int))
    }
}

/// Model of an element.
pub open spec fn elem_view(e: Elem) -> ElemM
    decreases e,
{
    ElemM {
        name: e.name@,
        attrs: attrs_view(e.attrs@),
        children: forest_view(e.children@),
    }
}

/// Model of a node.
pub open spec fn node_view(n: Node) -> NodeM
    decreases n,
{
    match n {
        Node::Element(e) => NodeM::Element(elem_view(e)),
        Node::Text(t) => NodeM::Text(t@),
        Node::Comment(t) => NodeM::Comment(t@),
    }
}

impl View for Elem {
    type V = ElemM;

    open spec fn view(&self) -> ElemM {
        elem_view(*self)
    }
}

impl View for Node {
    type V = NodeM;

    open spec fn view(&self) -> NodeM {
        node_view(*self)
    }
}

impl View for Document {
    type V = Seq<NodeM>;

    open spec fn view(&self) -> Seq<NodeM> {
        forest_view(self.children@)
    }
}

/// The model of a forest is the pointwise model of its nodes.
pub broadcast proof fn forest_view_props(ns: Seq<Node>)
    ensures
        (#[trigger] forest_view(ns)).len() == ns.len(),
        forall|i: int| 0 <= i < ns.len() ==> forest_view(ns)[i] == node_view(ns[i]),
    decreases ns.len(),
{
    if ns.len() > 0 {
        forest_view_props(ns.subrange(1, ns.len() as int));
    }
}

impl NodeM {
    /// The element payload, if this node is an element.
    pub open spec fn as_elem(self) -> ElemM
        recommends
            self is Element,
    {
        self->Element_0
    }
}

/// First value bound to `name` in an attribute list.
pub open spec fn attr_of(attrs: Seq<AttrM>, name: Seq<char>) -> Option<Seq<char>>
    decreases attrs.len(),
{
    if attrs.len() == 0 {
        None
    } else if attrs[0].name == name {
        Some(attrs[0].value)
    } else {
        attr_of(attrs.subrange(1, attrs.len() as int), name)
    }
}

/// An element has an attribute named `name`.
pub open spec fn has_attr(e: ElemM, name: Seq<char>) -> bool {
    attr_of(e.attrs, name) is Some
}

/// Replacement of the first binding of `name` (appending when absent).
pub open spec fn set_attr_spec(attrs: Seq<AttrM>, name: Seq<char>, value: Seq<char>) -> Seq<AttrM>
    decreases attrs.len(),
{
    if attrs.len() == 0 {
        seq![AttrM { name: name, value: value }]
    } else if attrs[0].name == name {
        seq![AttrM { name: name, value: value }] + attrs.subrange(1, attrs.len() as int)
    } else {
        seq![attrs[0]] + set_attr_spec(attrs.subrange(1, attrs.len() as int), name, value)
    }
}

impl Elem {
    /// Look an attribute up by name.
    pub fn get_attr(&self, name: &Vec<char>) -> (r: Option<Vec<char>>)
        ensures
            match r {
                Some(v) => attr_of(self@.attrs, name@) == Some(v@),
                None => attr_of(self@.attrs, name@) is None,
            },
    {
        let ghost all = self@.attrs;
        proof {
            assert(all.subrange(0, all.len() as int) =~= all);
        }
        for i in 0..self.attrs.len()
            invariant
                all == attrs_view(self.attrs@),
                attr_of(all.subrange(i as int, all.len() as int), name@) == attr_of(all, name@),
        {
            let ghost rest = all.subrange(i as int, all.len() as int);
            proof {
                assert(rest[0] == self.attrs@[i as int]@);
                assert(rest.subrange(1, rest.len() as int) =~= all.subrange(
                    i + 1,
                    all.len() as int,
                ));
            }
            if chars_eq(&self.attrs[i].name, name) {
                return Some(chars_clone(&self.attrs[i].value));
            }
        }
        proof {
            assert(all.subrange(all.len() as int, all.len() as int) =~= Seq::<AttrM>::empty());
        }
        None
    }

    /// Write an attribute, replacing the first binding of that name.
    pub fn set_attr(&mut self, name: &Vec<char>, value: Vec<char>)
        ensures
            final(self)@.attrs == set_attr_spec(
                old(self)@.attrs,
                name@,
                value@,
            ),
            final(self)@.name == old(self)@.name,
            final(self)@.children == old(self)@.children,
    {
        let ghost all = old(self)@.attrs;
        let mut i: usize = 0;
        while i < self.attrs.len()
            invariant
                all == attrs_view(self.attrs@),
                i <= self.attrs.len(),
                forall|j: int| 0 <= j < i ==> all[j].name != name@,
                self.name == old(self).name,
                self.children == old(self).children,
                self.attrs == old(self).attrs,
            decreases self.attrs.len() - i,
        {
            if chars_eq(&self.attrs[i].name, name) {
                let a = Attr { name: chars_clone(name), value: value };
                self.attrs.set(i, a);
                proof {
                    let newall = self@.attrs;
                    assert(newall =~= attrs_view(self.attrs@));
                    set_attr_prefix(all, name@, value@, i as int);
                    assert(newall =~= set_attr_spec(all, name@, value@));
                }
                return ;
            }
            i = i + 1;
        }
        let a = Attr { name: chars_clone(name), value: value };
        self.attrs.push(a);
        proof {
            let newall = self@.attrs;
            assert(newall =~= attrs_view(self.attrs@));
            set_attr_append(all, name@, value@);
            assert(newall =~= set_attr_spec(all, name@, value@));
        }
    }
}

/// When no binding of `name` exists, setting appends one.
proof fn set_attr_append(attrs: Seq<AttrM>, name: Seq<char>, value: Seq<char>)
    requires
        forall|j: int| 0 <= j < attrs.len() ==> attrs[j].name != name,
    ensures
        set_attr_spec(attrs, name, value) == attrs + seq![AttrM { name: name, value: value }],
    decreases attrs.len(),
{
    if attrs.len() == 0 {
        assert(set_attr_spec(attrs, name, value) =~= attrs + seq![
            AttrM { name: name, value: value },
        ]);
    } else {
        set_attr_append(attrs.subrange(1, attrs.len() as int), name, value);
        assert(set_attr_spec(attrs, name, value) =~= attrs + seq![
            AttrM { name: name, value: value },
        ]);
    }
}

/// When the first binding of `name` is at `i`, setting updates index `i`.
proof fn set_attr_prefix(attrs: Seq<AttrM>, name: Seq<char>, value: Seq<char>, i: int)
    requires
        0 <= i < attrs.len(),
        attrs[i].name == name,
        forall|j: int| 0 <= j < i ==> attrs[j].name != name,
    ensures
        set_attr_spec(attrs, name, value) == attrs.update(i, AttrM { name: name, value: value }),
    decreases i,
{
    if i == 0 {
        assert(set_attr_spec(attrs, name, value) =~= attrs.update(
            0,
            AttrM { name: name, value: value },
        ));
    } else {
        let rest = attrs.subrange(1, attrs.len() as int);
        set_attr_prefix(rest, name, value, i - 1);
        assert(set_attr_spec(attrs, name, value) =~= attrs.update(
            i,
            AttrM { name: name, value: value },
        ));
    }
}

/// Concatenated text of a subtree: every text node, in document order.
pub open spec fn node_text(n: NodeM) -> Seq<char>
    decreases n,
{
    match n {
        NodeM::Element(e) => texts_of(e.children),
        NodeM::Text(t) => t,
        NodeM::Comment(_) => Seq::empty(),
    }
}

/// Concatenated text of a forest.
pub open spec fn texts_of(ns: Seq<NodeM>) -> Seq<char>
    decreases ns,
{
    if ns.len() == 0 {
        Seq::empty()
    } else {
        node_text(ns[0]) + texts_of(ns.subrange(1, ns.len() as int))
    }
}

/// Splitting a forest splits its concatenated text.
pub proof fn texts_of_concat(a: Seq<NodeM>, b: Seq<NodeM>)
    ensures
        texts_of(a + b) == texts_of(a) + texts_of(b),
    decreases a.len(),
{
    if a.len() == 0 {
        assert(a + b =~= b);
        assert(texts_of(a) + texts_of(b) =~= texts_of(b));
    } else {
        texts_of_concat(a.subrange(1, a.len() as int), b);
        assert((a + b).subrange(1, (a + b).len() as int) =~= a.subrange(1, a.len() as int) + b);
        assert(texts_of(a + b) =~= texts_of(a) + texts_of(b));
    }
}

impl Node {
    /// The concatenated text of this subtree.
    pub fn text_contents(&self) -> (r: Vec<char>)
        ensures
            r@ == node_text(self@),
        decreases *self,
    {
        match self {
            Node::Element(e) => texts_of_children(&e.children),
            Node::Text(t) => chars_clone(t),
            Node::Comment(_) => Vec::new(),
        }
    }
}

/// The concatenated text of a forest of nodes.
pub fn texts_of_children(children: &Vec<Node>) -> (r: Vec<char>)
    ensures
        r@ == texts_of(forest_view(children@)),
    decreases *children,
{
    let ghost model = forest_view(children@);
    let mut out: Vec<char> = Vec::new();
    proof {
        forest_view_props(children@);
        assert(model.take(0) =~= Seq::<NodeM>::empty());
    }
    for i in 0..children.len()
        invariant
            model == forest_view(children@),
            model.len() == children@.len(),
            forall|j: int| 0 <= j < children@.len() ==> model[j] == node_view(children@[j]),
            out@ == texts_of(model.take(i as int)),
    {
        let t = children[i].text_contents();
        let mut k: usize = 0;
        proof {
            assert(out@ + t@.take(0) =~= out@);
        }
        while k < t.len()
            invariant
                k <= t.len(),
                out@ == texts_of(model.take(i as int)) + t@.take(k as int),
            decreases t.len() - k,
        {
            out.push(t[k]);
            proof {
                assert(out@ =~= texts_of(model.take(i as int)) + t@.take(k + 1));
            }
            k = k + 1;
        }
        proof {
            assert(t@.take(t@.len() as int) =~= t@);
            texts_of_concat(model.take(i as int), seq![model[i as int]]);
            assert(model.take(i as int) + seq![model[i as int]] =~= model.take(i + 1));
            assert(seq![model[i as int]].subrange(1, 1) =~= Seq::<NodeM>::empty());
            assert(texts_of(Seq::<NodeM>::empty()) == Seq::<char>::empty());
            assert(seq![model[i as int]][0] == model[i as int]);
            assert(texts_of(seq![model[i as int]]) =~= node_text(model[i as int]));
        }
    }
    proof {
        assert(model.take(model.len() as int) =~= model);
    }
    out
}


impl Attr {
    /// Structural copy.
    pub fn clone_attr(&self) -> (r: Attr)
        ensures
            r@ == self@,
    {
        Attr { name: chars_clone(&self.name), value: chars_clone(&self.value) }
    }
}

/// Structural copy of an attribute list.
pub fn clone_attrs(attrs: &Vec<Attr>) -> (r: Vec<Attr>)
    ensures
        attrs_view(r@) == attrs_view(attrs@),
{
    let mut out: Vec<Attr> = Vec::new();
    for i in 0..attrs.len()
        invariant
            attrs_view(out@) == attrs_view(attrs@).take(i as int),
    {
        let a = attrs[i].clone_attr();
        proof {
            attrs_view_push(out@, a);
        }
        out.push(a);
        proof {
            assert(attrs_view(attrs@)[i as int] == attrs@[i as int]@);
            assert(attrs_view(out@) =~= attrs_view(attrs@).take(i + 1));
        }
    }
    proof {
        assert(attrs_view(attrs@).take(attrs@.len() as int) =~= attrs_view(attrs@));
    }
    out
}

impl Elem {
    /// Structural copy of an element and its subtree.
    pub fn clone_elem(&self) -> (r: Elem)
        ensures
            r@ == self@,
        decreases *self,
    {
        let attrs = clone_attrs(&self.attrs);
        let children = clone_nodes(&self.children);
        let r = Elem { name: chars_clone(&self.name), attrs, children };
        proof {
            assert(r@ =~= self@);
        }
        r
    }
}

impl Node {
    /// Structural copy of a subtree.
    pub fn clone_node(&self) -> (r: Node)
        ensures
            r@ == self@,
        decreases *self,
    {
        match self {
            Node::Element(e) => Node::Element(e.clone_elem()),
            Node::Text(t) => Node::Text(chars_clone(t)),
            Node::Comment(t) => Node::Comment(chars_clone(t)),
        }
    }
}

/// Structural copy of a forest.
pub fn clone_nodes(nodes: &Vec<Node>) -> (r: Vec<Node>)
    ensures
        forest_view(r@) == forest_view(nodes@),
        r@.len() == nodes@.len(),
    decreases *nodes,
{
    let mut out: Vec<Node> = Vec::new();
    proof {
        forest_view_props(nodes@);
    }
    for i in 0..nodes.len()
        invariant
            out@.len() == i,
            forest_view(out@) == forest_view(nodes@).take(i as int),
            forest_view(nodes@).len() == nodes@.len(),
            forall|j: int|
                0 <= j < nodes@.len() ==> forest_view(nodes@)[j] == node_view(nodes@[j]),
    {
        let c = nodes[i].clone_node();
        proof {
            forest_view_push(out@, c);
        }
        out.push(c);
        proof {
            assert(forest_view(out@) =~= forest_view(nodes@).take(i + 1));
        }
    }
    proof {
        assert(forest_view(nodes@).take(nodes@.len() as int) =~= forest_view(nodes@));
    }
    out
}

/// Pushing a node onto a forest appends its model.
pub proof fn forest_view_push(ns: Seq<Node>, n: Node)
    ensures
        forest_view(ns.push(n)) == forest_view(ns) + seq![node_view(n)],
    decreases ns.len(),
{
    forest_view_props(ns);
    forest_view_props(ns.push(n));
    assert(forest_view(ns.push(n)) =~= forest_view(ns) + seq![node_view(n)]);
}

} // verus!
