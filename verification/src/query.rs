//! Selector queries over the document model: matching with descendant
//! context, collecting matches in document order, and detaching matches.

use vstd::prelude::*;

use crate::dom::{
    forest_view, forest_view_props, forest_view_push, node_view, Elem, ElemM, Node, NodeM,
};
use crate::selector::{
    compound_matches, compound_matches_exec, Compound, CompoundM, Selector, SelectorM,
};

verus! {

broadcast use vstd::std_specs::vec::axiom_vec_index_decreases;

/// The ancestor state of a selector at some node: entry `k` says whether the
/// first `k` compounds have matched along a chain of proper ancestors.
pub open spec fn init_state(sel: SelectorM) -> Seq<bool> {
    Seq::new(sel.parts.len(), |k: int| k == 0)
}

/// The state below an element `e`: a prefix of length `k` is matched there
/// if it was matched above, or its first `k - 1` compounds were matched
/// above and its `k`-th compound matches `e`.
pub open spec fn next_state(st: Seq<bool>, sel: SelectorM, e: ElemM) -> Seq<bool> {
    Seq::new(
        st.len(),
        |k: int| st[k] || (k > 0 && st[k - 1] && compound_matches(e, sel.parts[k - 1])),
    )
}

/// The selector matches `e` under ancestor state `st`: all but the last
/// compound matched along ancestors, and the last compound matches `e`.
pub open spec fn sel_matches(st: Seq<bool>, sel: SelectorM, e: ElemM) -> bool {
    &&& sel.parts.len() > 0
    &&& st.len() == sel.parts.len()
    &&& st[sel.parts.len() - 1]
    &&& compound_matches(e, sel.parts[sel.parts.len() - 1])
}

/// All elements of a subtree matching `sel` under state `st`, in document
/// order, the subtree root included.
pub open spec fn query_node(n: NodeM, sel: SelectorM, st: Seq<bool>) -> Seq<ElemM>
    decreases n,
{
    match n {
        NodeM::Element(e) => (if sel_matches(st, sel, e) {
            seq![e]
        } else {
            Seq::empty()
        }) + query_forest(e.children, sel, next_state(st, sel, e)),
        _ => Seq::empty(),
    }
}

/// All matching elements of a forest, in document order.
pub open spec fn query_forest(ns: Seq<NodeM>, sel: SelectorM, st: Seq<bool>) -> Seq<ElemM>
    decreases ns,
{
    if ns.len() == 0 {
        Seq::empty()
    } else {
        query_node(ns[0], sel, st) + query_forest(ns.subrange(1, ns.len() as int), sel, st)
    }
}

/// All matching elements of a document, in document order.
pub open spec fn query_doc(doc: Seq<NodeM>, sel: SelectorM) -> Seq<ElemM> {
    query_forest(doc, sel, init_state(sel))
}

/// Splitting a forest splits its query results.
pub proof fn query_forest_concat(a: Seq<NodeM>, b: Seq<NodeM>, sel: SelectorM, st: Seq<bool>)
    ensures
        query_forest(a + b, sel, st) == query_forest(a, sel, st) + query_forest(b, sel, st),
    decreases a.len(),
{
    if a.len() == 0 {
        assert(a + b =~= b);
        assert(query_forest(a, sel, st) + query_forest(b, sel, st) =~= query_forest(b, sel, st));
    } else {
        query_forest_concat(a.subrange(1, a.len() as int), b, sel, st);
        assert((a + b).subrange(1, (a + b).len() as int) =~= a.subrange(1, a.len() as int) + b);
        assert(query_forest(a + b, sel, st) =~= query_forest(a, sel, st) + query_forest(
            b,
            sel,
            st,
        ));
    }
}

/// The state below an element, executable form.
pub fn next_state_exec(st: &Vec<bool>, sel: &Selector, e: &Elem) -> (r: Vec<bool>)
    requires
        st@.len() == sel@.parts.len(),
        st@.len() == sel.parts@.len(),
    ensures
        r@ == next_state(st@, sel@, e@),
{
    let mut r: Vec<bool> = Vec::new();
    let ghost target = next_state(st@, sel@, e@);
    for k in 0..st.len()
        invariant
            st@.len() == sel@.parts.len(),
            st@.len() == sel.parts@.len(),
            target == next_state(st@, sel@, e@),
            r@ == target.take(k as int),
    {
        let v: bool = if st[k] {
            true
        } else if k > 0 {
            if st[k - 1] {
                compound_matches_exec(e, &sel.parts[k - 1])
            } else {
                false
            }
        } else {
            false
        };
        proof {
            assert(sel@.parts == crate::selector::parts_view(sel.parts@));
            if k > 0 {
                assert(sel@.parts[k - 1] == sel.parts@[k - 1]@);
            }
            assert(v == target[k as int]);
        }
        r.push(v);
        proof {
            assert(r@ =~= target.take(k + 1));
        }
    }
    proof {
        assert(target.take(target.len() as int) =~= target);
    }
    r
}

/// Whether the selector matches `e` under state `st`, executable form.
pub fn sel_matches_exec(st: &Vec<bool>, sel: &Selector, e: &Elem) -> (r: bool)
    requires
        st@.len() == sel@.parts.len(),
        st@.len() == sel.parts@.len(),
    ensures
        r == sel_matches(st@, sel@, e@),
{
    if sel.parts.len() == 0 {
        return false;
    }
    let last = sel.parts.len() - 1;
    if !st[last] {
        return false;
    }
    let m = compound_matches_exec(e, &sel.parts[last]);
    proof {
        assert(sel@.parts[last as int] == sel.parts@[last as int]@);
    }
    m
}

/// Model of a list of elements.
pub open spec fn elems_view(es: Seq<Elem>) -> Seq<ElemM> {
    es.map_values(|e: Elem| e@)
}

/// Pushing an element appends to the model.
pub proof fn elems_view_push(es: Seq<Elem>, e: Elem)
    ensures
        elems_view(es.push(e)) == elems_view(es) + seq![e@],
{
    assert(elems_view(es.push(e)) =~= elems_view(es) + seq![e@]);
}

/// Collect the matches inside one subtree, in document order.
fn query_node_exec(n: &Node, sel: &Selector, st: &Vec<bool>, out: &mut Vec<Elem>)
    requires
        st@.len() == sel@.parts.len(),
        st@.len() == sel.parts@.len(),
    ensures
        elems_view(final(out)@) == elems_view(old(out)@) + query_node(n@, sel@, st@),
    decreases *n,
{
    match n {
        Node::Element(e) => {
            if sel_matches_exec(st, sel, e) {
                let copy = e.clone_elem();
                proof {
                    elems_view_push(out@, copy);
                }
                out.push(copy);
            }
            let st2 = next_state_exec(st, sel, e);
            let ghost mid = out@;
            query_forest_exec(&e.children, sel, &st2, out);
            proof {
                if sel_matches(st@, sel@, e@) {
                    assert(elems_view(mid) =~= elems_view(old(out)@) + seq![e@]);
                }
                assert(elems_view(out@) =~= elems_view(old(out)@) + query_node(n@, sel@, st@));
            }
        },
        Node::Text(_) => {
            proof {
                assert(elems_view(out@) =~= elems_view(out@) + query_node(n@, sel@, st@));
            }
        },
        Node::Comment(_) => {
            proof {
                assert(elems_view(out@) =~= elems_view(out@) + query_node(n@, sel@, st@));
            }
        },
    }
}

/// Collect the matches inside a forest, in document order.
fn query_forest_exec(ns: &Vec<Node>, sel: &Selector, st: &Vec<bool>, out: &mut Vec<Elem>)
    requires
        st@.len() == sel@.parts.len(),
        st@.len() == sel.parts@.len(),
    ensures
        elems_view(final(out)@) == elems_view(old(out)@) + query_forest(
            forest_view(ns@),
            sel@,
            st@,
        ),
    decreases *ns,
{
    let ghost model = forest_view(ns@);
    proof {
        forest_view_props(ns@);
        assert(elems_view(out@) + query_forest(model.take(0), sel@, st@) =~= elems_view(out@));
    }
    for i in 0..ns.len()
        invariant
            st@.len() == sel@.parts.len(),
            st@.len() == sel.parts@.len(),
            model == forest_view(ns@),
            model.len() == ns@.len(),
            forall|j: int| 0 <= j < ns@.len() ==> model[j] == node_view(ns@[j]),
            elems_view(out@) == elems_view(old(out)@) + query_forest(
                model.take(i as int),
                sel@,
                st@,
            ),
    {
        query_node_exec(&ns[i], sel, st, out);
        proof {
            query_forest_concat(model.take(i as int), seq![model[i as int]], sel@, st@);
            assert(model.take(i as int) + seq![model[i as int]] =~= model.take(i + 1));
            assert(seq![model[i as int]].subrange(1, 1) =~= Seq::<NodeM>::empty());
            assert(seq![model[i as int]][0] == model[i as int]);
            assert(query_forest(Seq::<NodeM>::empty(), sel@, st@) == Seq::<ElemM>::empty());
            assert(query_forest(seq![model[i as int]], sel@, st@) =~= query_node(
                model[i as int],
                sel@,
                st@,
            ));
            assert(elems_view(out@) =~= elems_view(old(out)@) + query_forest(
                model.take(i + 1),
                sel@,
                st@,
            ));
        }
    }
    proof {
        assert(model.take(model.len() as int) =~= model);
    }
}

/// All elements of a document matching `sel`, as copies, in document order.
pub fn query_doc_exec(doc: &Vec<Node>, sel: &Selector) -> (r: Vec<Elem>)
    ensures
        elems_view(r@) == query_doc(forest_view(doc@), sel@),
{
    let mut st: Vec<bool> = Vec::new();
    let ghost target = init_state(sel@);
    for k in 0..sel.parts.len()
        invariant
            target == init_state(sel@),
            sel@.parts.len() == sel.parts@.len(),
            st@ == target.take(k as int),
    {
        st.push(k == 0);
        proof {
            assert(st@ =~= target.take(k + 1));
        }
    }
    proof {
        assert(target.take(target.len() as int) =~= target);
    }
    let mut out: Vec<Elem> = Vec::new();
    query_forest_exec(doc, sel, &st, &mut out);
    proof {
        assert(elems_view(Seq::<Elem>::empty()) + query_doc(forest_view(doc@), sel@)
            =~= query_doc(forest_view(doc@), sel@));
    }
    out
}

/// A compound matches somewhere in the subtree, the root included.
pub open spec fn has_match_node(n: NodeM, c: CompoundM) -> bool
    decreases n,
{
    match n {
        NodeM::Element(e) => compound_matches(e, c) || has_match_forest(e.children, c),
        _ => false,
    }
}

/// A compound matches somewhere in a forest.
pub open spec fn has_match_forest(ns: Seq<NodeM>, c: CompoundM) -> bool
    decreases ns,
{
    if ns.len() == 0 {
        false
    } else {
        has_match_node(ns[0], c) || has_match_forest(ns.subrange(1, ns.len() as int), c)
    }
}

/// Subtree match test, executable form.
pub fn has_match_node_exec(n: &Node, c: &Compound) -> (r: bool)
    ensures
        r == has_match_node(n@, c@),
    decreases *n,
{
    match n {
        Node::Element(e) => {
            if compound_matches_exec(e, c) {
                return true;
            }
            has_match_forest_exec(&e.children, c)
        },
        _ => false,
    }
}

/// Forest match test, executable form.
pub fn has_match_forest_exec(ns: &Vec<Node>, c: &Compound) -> (r: bool)
    ensures
        r == has_match_forest(forest_view(ns@), c@),
    decreases *ns,
{
    let ghost model = forest_view(ns@);
    proof {
        forest_view_props(ns@);
        assert(model.subrange(0, model.len() as int) =~= model);
    }
    for i in 0..ns.len()
        invariant
            model == forest_view(ns@),
            model.len() == ns@.len(),
            forall|j: int| 0 <= j < ns@.len() ==> model[j] == node_view(ns@[j]),
            has_match_forest(model, c@) == has_match_forest(
                model.subrange(i as int, model.len() as int),
                c@,
            ),
    {
        let ghost rest = model.subrange(i as int, model.len() as int);
        proof {
            assert(rest[0] == model[i as int]);
            assert(rest.subrange(1, rest.len() as int) =~= model.subrange(
                i + 1,
                model.len() as int,
            ));
        }
        if has_match_node_exec(&ns[i], c) {
            return true;
        }
    }
    proof {
        assert(model.subrange(model.len() as int, model.len() as int) =~= Seq::<NodeM>::empty());
    }
    false
}

/// Removal of every subtree whose root matches `sel` under state `st`,
/// walking top down: a removed subtree's descendants go with it.
pub open spec fn remove_node(n: NodeM, sel: SelectorM, st: Seq<bool>) -> Seq<NodeM>
    decreases n,
{
    match n {
        NodeM::Element(e) => {
            if sel_matches(st, sel, e) {
                Seq::empty()
            } else {
                seq![
                    NodeM::Element(
                        ElemM {
                            name: e.name,
                            attrs: e.attrs,
                            children: remove_forest(e.children, sel, next_state(st, sel, e)),
                        },
                    ),
                ]
            }
        },
        _ => seq![n],
    }
}

/// Removal over a forest.
pub open spec fn remove_forest(ns: Seq<NodeM>, sel: SelectorM, st: Seq<bool>) -> Seq<NodeM>
    decreases ns,
{
    if ns.len() == 0 {
        Seq::empty()
    } else {
        remove_node(ns[0], sel, st) + remove_forest(ns.subrange(1, ns.len() as int), sel, st)
    }
}

/// Removal over a whole document.
pub open spec fn remove_doc(doc: Seq<NodeM>, sel: SelectorM) -> Seq<NodeM> {
    remove_forest(doc, sel, init_state(sel))
}

/// Splitting a forest splits the removal result.
pub proof fn remove_forest_concat(a: Seq<NodeM>, b: Seq<NodeM>, sel: SelectorM, st: Seq<bool>)
    ensures
        remove_forest(a + b, sel, st) == remove_forest(a, sel, st) + remove_forest(b, sel, st),
    decreases a.len(),
{
    if a.len() == 0 {
        assert(a + b =~= b);
        assert(remove_forest(a, sel, st) + remove_forest(b, sel, st) =~= remove_forest(
            b,
            sel,
            st,
        ));
    } else {
        remove_forest_concat(a.subrange(1, a.len() as int), b, sel, st);
        assert((a + b).subrange(1, (a + b).len() as int) =~= a.subrange(1, a.len() as int) + b);
        assert(remove_forest(a + b, sel, st) =~= remove_forest(a, sel, st) + remove_forest(
            b,
            sel,
            st,
        ));
    }
}

/// Removal, executable form, over one node: the kept copy of the subtree,
/// if any, is appended to `out`.
fn remove_node_exec(n: &Node, sel: &Selector, st: &Vec<bool>, out: &mut Vec<Node>)
    requires
        st@.len() == sel@.parts.len(),
        st@.len() == sel.parts@.len(),
    ensures
        forest_view(final(out)@) == forest_view(old(out)@) + remove_node(n@, sel@, st@),
    decreases *n,
{
    match n {
        Node::Element(e) => {
            if sel_matches_exec(st, sel, e) {
                proof {
                    assert(forest_view(out@) =~= forest_view(out@) + remove_node(
                        n@,
                        sel@,
                        st@,
                    ));
                }
                return ;
            }
            let st2 = next_state_exec(st, sel, e);
            let mut kept: Vec<Node> = Vec::new();
            remove_forest_exec(&e.children, sel, &st2, &mut kept);
            let rebuilt = Node::Element(
                Elem {
                    name: crate::text::chars_clone(&e.name),
                    attrs: crate::dom::clone_attrs(&e.attrs),
                    children: kept,
                },
            );
            proof {
                forest_view_push(out@, rebuilt);
            }
            out.push(rebuilt);
            proof {
                assert(forest_view(out@) =~= forest_view(old(out)@) + remove_node(
                    n@,
                    sel@,
                    st@,
                ));
            }
        },
        _ => {
            let copy = n.clone_node();
            proof {
                forest_view_push(out@, copy);
            }
            out.push(copy);
            proof {
                assert(forest_view(out@) =~= forest_view(old(out)@) + remove_node(
                    n@,
                    sel@,
                    st@,
                ));
            }
        },
    }
}

/// Removal, executable form, over a forest.
fn remove_forest_exec(ns: &Vec<Node>, sel: &Selector, st: &Vec<bool>, out: &mut Vec<Node>)
    requires
        st@.len() == sel@.parts.len(),
        st@.len() == sel.parts@.len(),
    ensures
        forest_view(final(out)@) == forest_view(old(out)@) + remove_forest(
            forest_view(ns@),
            sel@,
            st@,
        ),
    decreases *ns,
{
    let ghost model = forest_view(ns@);
    proof {
        forest_view_props(ns@);
        assert(forest_view(out@) + remove_forest(model.take(0), sel@, st@) =~= forest_view(
            out@,
        ));
    }
    for i in 0..ns.len()
        invariant
            st@.len() == sel@.parts.len(),
            st@.len() == sel.parts@.len(),
            model == forest_view(ns@),
            model.len() == ns@.len(),
            forall|j: int| 0 <= j < ns@.len() ==> model[j] == node_view(ns@[j]),
            forest_view(out@) == forest_view(old(out)@) + remove_forest(
                model.take(i as int),
                sel@,
                st@,
            ),
    {
        remove_node_exec(&ns[i], sel, st, out);
        proof {
            remove_forest_concat(model.take(i as int), seq![model[i as int]], sel@, st@);
            assert(model.take(i as int) + seq![model[i as int]] =~= model.take(i + 1));
            assert(seq![model[i as int]].subrange(1, 1) =~= Seq::<NodeM>::empty());
            assert(seq![model[i as int]][0] == model[i as int]);
            assert(remove_forest(Seq::<NodeM>::empty(), sel@, st@) == Seq::<NodeM>::empty());
            assert(remove_forest(seq![model[i as int]], sel@, st@) =~= remove_node(
                model[i as int],
                sel@,
                st@,
            ));
            assert(forest_view(out@) =~= forest_view(old(out)@) + remove_forest(
                model.take(i + 1),
                sel@,
                st@,
            ));
        }
    }
    proof {
        assert(model.take(model.len() as int) =~= model);
    }
}

/// Remove every match of `sel` from a document.
pub fn remove_doc_exec(doc: &Vec<Node>, sel: &Selector) -> (r: Vec<Node>)
    ensures
        forest_view(r@) == remove_doc(forest_view(doc@), sel@),
{
    let mut st: Vec<bool> = Vec::new();
    let ghost target = init_state(sel@);
    for k in 0..sel.parts.len()
        invariant
            target == init_state(sel@),
            sel@.parts.len() == sel.parts@.len(),
            st@ == target.take(k as int),
    {
        st.push(k == 0);
        proof {
            assert(st@ =~= target.take(k + 1));
        }
    }
    proof {
        assert(target.take(target.len() as int) =~= target);
    }
    let mut out: Vec<Node> = Vec::new();
    let ghost dm = forest_view(doc@);
    remove_forest_exec(doc, sel, &st, &mut out);
    proof {
        assert(forest_view(Seq::<Node>::empty()) + remove_doc(dm, sel@) =~= remove_doc(dm, sel@));
    }
    out
}


/// Build the initial ancestor state of a selector.
pub fn init_state_exec(sel: &Selector) -> (r: Vec<bool>)
    ensures
        r@ == init_state(sel@),
        r@.len() == sel@.parts.len(),
        r@.len() == sel.parts@.len(),
{
    let mut st: Vec<bool> = Vec::new();
    let ghost target = init_state(sel@);
    for k in 0..sel.parts.len()
        invariant
            target == init_state(sel@),
            sel@.parts.len() == sel.parts@.len(),
            st@ == target.take(k as int),
    {
        st.push(k == 0);
        proof {
            assert(st@ =~= target.take(k + 1));
        }
    }
    proof {
        assert(target.take(target.len() as int) =~= target);
    }
    st
}

} // verus!
