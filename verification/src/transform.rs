//! The content-classification pipeline: include filtering, structural strip,
//! fingerprint-based boilerplate pruning, explicit excludes, noise removal
//! with attribution preservation, srcset resolution and URL absolutization.

use vstd::prelude::*;

use crate::attribution::{contains_attribution, contains_attribution_exec, prune_elem,
    prune_elem_exec};
use crate::dom::{
    attr_of, clone_attrs, forest_view, forest_view_props, forest_view_push, node_text, node_view,
    set_attr_spec, Attr, Document, Elem, ElemM, Node, NodeM,
};
use crate::errors::ExtractError;
use crate::query::{
    has_match_node, has_match_node_exec, init_state, next_state, next_state_exec, remove_doc,
    remove_doc_exec, sel_matches, sel_matches_exec,
};
use crate::selector::{
    compound_matches, compound_matches_exec, parse_selector, parse_selector_spec, Compound,
    CompoundM, Cond, CondM, Selector, SelectorM,
};
use crate::srcset::{best_cand, cands_of, cands_of_exec, best_cand_exec, desc_ok, Cand, CandM,
    Desc, cands_view, cands_view_push};
use crate::text::{all_space, all_space_exec, chars_clone, chars_eq_str, str_to_chars};
use crate::urlres::{parse_url, resolve_attr, resolve_attr_exec};

verus! {

broadcast use vstd::std_specs::vec::axiom_vec_index_decreases;

/// A selector of one bare tag name.
pub open spec fn tag_sel(name: Seq<char>) -> SelectorM {
    SelectorM { parts: seq![CompoundM { tag: Some(name), conds: Seq::empty() }] }
}

/// Build a bare tag selector.
pub fn tag_sel_pub(name: &str) -> (r: Selector)
    ensures
        r@ == tag_sel(name@),
{
    let mut parts: Vec<Compound> = Vec::new();
    parts.push(Compound { tag: Some(str_to_chars(name)), conds: Vec::new() });
    let r = Selector { parts };
    proof {
        assert(r@.parts =~~= tag_sel(name@).parts);
    }
    r
}

/// The structural strip: every `head`, `meta`, `noscript`, `style` and
/// `script` element is detached with its subtree, nested occurrences
/// included.
pub open spec fn strip_spec(doc: Seq<NodeM>) -> Seq<NodeM> {
    let d1 = remove_doc(doc, tag_sel("head"@));
    let d2 = remove_doc(d1, tag_sel("meta"@));
    let d3 = remove_doc(d2, tag_sel("noscript"@));
    let d4 = remove_doc(d3, tag_sel("style"@));
    remove_doc(d4, tag_sel("script"@))
}

/// Structural strip, executable form.
pub fn strip_exec(doc: &Vec<Node>) -> (r: Vec<Node>)
    ensures
        forest_view(r@) == strip_spec(forest_view(doc@)),
{
    let d1 = remove_doc_exec(doc, &tag_sel_pub("head"));
    let d2 = remove_doc_exec(&d1, &tag_sel_pub("meta"));
    let d3 = remove_doc_exec(&d2, &tag_sel_pub("noscript"));
    let d4 = remove_doc_exec(&d3, &tag_sel_pub("style"));
    remove_doc_exec(&d4, &tag_sel_pub("script"))
}

/// The explicit exclude stage: each selector in order removes every match;
/// a selector that does not parse is a selector error, fatal for the whole
/// call.
pub open spec fn exclude_spec(doc: Seq<NodeM>, sels: Seq<Seq<char>>) -> Option<Seq<NodeM>>
    decreases sels.len(),
{
    if sels.len() == 0 {
        Some(doc)
    } else {
        match parse_selector_spec(sels[0]) {
            Some(sel) => exclude_spec(remove_doc(doc, sel), sels.subrange(1, sels.len() as int)),
            None => None,
        }
    }
}

/// Explicit excludes, executable form.
pub fn exclude_exec(doc: Vec<Node>, sels: &Vec<String>) -> (r: Result<Vec<Node>, ExtractError>)
    ensures
        (match r {
            Ok(d) => exclude_spec(forest_view(doc@), crate::text::strings_view(sels@)) == Some(
                forest_view(d@),
            ),
            Err(e) => exclude_spec(forest_view(doc@), crate::text::strings_view(sels@)) is None
                && e is Selector,
        }),
{
    let ghost model = crate::text::strings_view(sels@);
    let ghost doc0 = forest_view(doc@);
    let mut d = doc;
    proof {
        assert(model.subrange(0, model.len() as int) =~= model);
    }
    for i in 0..sels.len()
        invariant
            model == crate::text::strings_view(sels@),
            model.len() == sels@.len(),
            doc0 == forest_view(doc@),
            exclude_spec(forest_view(d@), model.subrange(i as int, model.len() as int))
                == exclude_spec(doc0, model),
    {
        let ghost rest = model.subrange(i as int, model.len() as int);
        proof {
            assert(rest[0] == sels@[i as int]@);
            assert(rest.subrange(1, rest.len() as int) =~= model.subrange(
                i + 1,
                model.len() as int,
            ));
        }
        match parse_selector(sels[i].as_str()) {
            Some(sel) => {
                d = remove_doc_exec(&d, &sel);
            },
            None => {
                proof {
                    assert(exclude_spec(
                        forest_view(d@),
                        rest,
                    ) is None);
                }
                return Err(ExtractError::Selector);
            },
        }
    }
    proof {
        assert(model.subrange(model.len() as int, model.len() as int)
            =~= Seq::<Seq<char>>::empty());
    }
    Ok(d)
}

/// The srcset candidates of an `img` element: those parsed from `srcset`,
/// and, when every one of them is a density descriptor, an implicit `1x`
/// candidate made from the plain `src` attribute.
pub open spec fn img_cands(e: ElemM) -> Seq<CandM> {
    let cs = cands_of(attr_of(e.attrs, "srcset"@)->0);
    if (forall|i: int| 0 <= i < cs.len() ==> (#[trigger] cs[i]).is_x) {
        match attr_of(e.attrs, "src"@) {
            Some(v) => cs + seq![
                CandM { url: v, val: Desc { neg: false, num: 1, fl: 0 }, is_x: true },
            ],
            None => cs,
        }
    } else {
        cs
    }
}

/// Srcset resolution over one element: an `img` with a `srcset` attribute
/// has its `src` overwritten with the URL of the best candidate; `srcset`
/// itself stays untouched; everything else is unchanged.
pub open spec fn srcset_elem(e: ElemM) -> Seq<crate::dom::AttrM> {
    if e.name == "img"@ && attr_of(e.attrs, "srcset"@) is Some {
        match best_cand(img_cands(e)) {
            Some(c) => set_attr_spec(e.attrs, "src"@, c.url),
            None => e.attrs,
        }
    } else {
        e.attrs
    }
}

/// Srcset resolution over a subtree.
pub open spec fn srcset_node(n: NodeM) -> NodeM
    decreases n,
{
    match n {
        NodeM::Element(e) => NodeM::Element(
            ElemM { name: e.name, attrs: srcset_elem(e), children: srcset_forest(e.children) },
        ),
        _ => n,
    }
}

/// Srcset resolution over a forest.
pub open spec fn srcset_forest(ns: Seq<NodeM>) -> Seq<NodeM>
    decreases ns,
{
    if ns.len() == 0 {
        Seq::empty()
    } else {
        seq![srcset_node(ns[0])] + srcset_forest(ns.subrange(1, ns.len() as int))
    }
}

/// Srcset resolution over one node, executable form.
fn srcset_node_exec(n: &Node) -> (r: Node)
    ensures
        node_view(r) == srcset_node(n@),
    decreases *n,
{
    match n {
        Node::Element(e) => {
            let children = srcset_forest_exec(&e.children);
            let mut out = Elem {
                name: chars_clone(&e.name),
                attrs: clone_attrs(&e.attrs),
                children,
            };
            let srcset_name = str_to_chars("srcset");
            let src_name = str_to_chars("src");
            if chars_eq_str(&e.name, "img") {
                match e.get_attr(&srcset_name) {
                    Some(srcset_val) => {
                        let mut cands = cands_of_exec(&srcset_val);
                        let ghost base_cands = cands_view(cands@);
                        let mut all_x = true;
                        for i in 0..cands.len()
                            invariant
                                base_cands == cands_view(cands@),
                                base_cands.len() == cands@.len(),
                                all_x == (forall|j: int|
                                    0 <= j < i ==> (#[trigger] base_cands[j]).is_x),
                                forall|j: int|
                                    0 <= j < cands@.len() ==> desc_ok(
                                        (#[trigger] cands@[j]).val,
                                    ),
                        {
                            proof {
                                assert(base_cands[i as int] == cands@[i as int]@);
                            }
                            if !cands[i].is_x {
                                all_x = false;
                            }
                        }
                        if all_x {
                            match e.get_attr(&src_name) {
                                Some(src_val) => {
                                    let c = Cand {
                                        url: src_val,
                                        val: Desc { neg: false, num: 1, fl: 0 },
                                        is_x: true,
                                    };
                                    proof {
                                        cands_view_push(cands@, c);
                                    }
                                    cands.push(c);
                                    proof {
                                        assert(cands_view(cands@) =~= img_cands(e@));
                                    }
                                },
                                None => {
                                    proof {
                                        assert(cands_view(cands@) =~= img_cands(e@));
                                    }
                                },
                            }
                        } else {
                            proof {
                                assert(cands_view(cands@) =~= img_cands(e@));
                            }
                        }
                        match best_cand_exec(&cands) {
                            Some(best) => {
                                out.set_attr(&src_name, best.url);
                            },
                            None => {},
                        }
                    },
                    None => {},
                }
            }
            let r = Node::Element(out);
            proof {
                assert(node_view(r) =~= srcset_node(n@));
            }
            r
        },
        _ => n.clone_node(),
    }
}

/// Srcset resolution over a forest, executable form.
pub fn srcset_forest_exec(ns: &Vec<Node>) -> (r: Vec<Node>)
    ensures
        forest_view(r@) == srcset_forest(forest_view(ns@)),
    decreases *ns,
{
    let ghost model = forest_view(ns@);
    let mut out: Vec<Node> = Vec::new();
    proof {
        forest_view_props(ns@);
    }
    for i in 0..ns.len()
        invariant
            model == forest_view(ns@),
            model.len() == ns@.len(),
            forall|j: int| 0 <= j < ns@.len() ==> model[j] == node_view(ns@[j]),
            forest_view(out@) == srcset_forest(model.take(i as int)),
    {
        let node = srcset_node_exec(&ns[i]);
        proof {
            forest_view_push(out@, node);
        }
        out.push(node);
        proof {
            srcset_forest_take_push(model, i as int);
            assert(forest_view(out@) =~= srcset_forest(model.take(i + 1)));
        }
    }
    proof {
        assert(model.take(model.len() as int) =~= model);
    }
    out
}

/// Extending a prefix extends its srcset pass.
proof fn srcset_forest_take_push(ns: Seq<NodeM>, i: int)
    requires
        0 <= i < ns.len(),
    ensures
        srcset_forest(ns.take(i + 1)) == srcset_forest(ns.take(i)) + seq![srcset_node(ns[i])],
    decreases i,
{
    if i == 0 {
        assert(ns.take(1)[0] == ns[0]);
        assert(ns.take(1).subrange(1, 1) =~= Seq::<NodeM>::empty());
        assert(ns.take(0) =~= Seq::<NodeM>::empty());
        assert(srcset_forest(Seq::<NodeM>::empty()) == Seq::<NodeM>::empty());
        assert(srcset_forest(ns.take(1)) =~= srcset_forest(ns.take(0)) + seq![
            srcset_node(ns[0]),
        ]);
    } else {
        let tail = ns.subrange(1, ns.len() as int);
        srcset_forest_take_push(tail, i - 1);
        assert(ns.take(i)[0] == ns[0]);
        assert(ns.take(i + 1)[0] == ns[0]);
        assert(ns.take(i).subrange(1, i as int) =~= tail.take(i - 1));
        assert(ns.take(i + 1).subrange(1, i + 1) =~= tail.take(i));
        assert(tail[i - 1] == ns[i]);
        assert(srcset_forest(ns.take(i + 1)) =~= srcset_forest(ns.take(i)) + seq![
            srcset_node(ns[i]),
        ]);
    }
}

/// URL absolutization of one attribute over one element: an element named
/// `tag` holding `attr` has the attribute overwritten with its resolution
/// against `base`; resolution failure leaves the value unchanged.
pub open spec fn abs_elem(e: ElemM, tag: Seq<char>, attr: Seq<char>, base: Seq<char>) -> Seq<
    crate::dom::AttrM,
> {
    if e.name == tag && attr_of(e.attrs, attr) is Some {
        set_attr_spec(e.attrs, attr, resolve_attr(base, attr_of(e.attrs, attr)->0))
    } else {
        e.attrs
    }
}

/// URL absolutization over a subtree.
pub open spec fn abs_node(n: NodeM, tag: Seq<char>, attr: Seq<char>, base: Seq<char>) -> NodeM
    decreases n,
{
    match n {
        NodeM::Element(e) => NodeM::Element(
            ElemM {
                name: e.name,
                attrs: abs_elem(e, tag, attr, base),
                children: abs_forest(e.children, tag, attr, base),
            },
        ),
        _ => n,
    }
}

/// URL absolutization over a forest.
pub open spec fn abs_forest(ns: Seq<NodeM>, tag: Seq<char>, attr: Seq<char>, base: Seq<char>) -> Seq<
    NodeM,
>
    decreases ns,
{
    if ns.len() == 0 {
        Seq::empty()
    } else {
        seq![abs_node(ns[0], tag, attr, base)] + abs_forest(
            ns.subrange(1, ns.len() as int),
            tag,
            attr,
            base,
        )
    }
}

/// URL absolutization over one node, executable form.
fn abs_node_exec(n: &Node, tag: &Vec<char>, attr: &Vec<char>, base: &str) -> (r: Node)
    requires
        parse_url(base@) is Some,
    ensures
        node_view(r) == abs_node(n@, tag@, attr@, base@),
    decreases *n,
{
    match n {
        Node::Element(e) => {
            let children = abs_forest_exec(&e.children, tag, attr, base);
            let mut out = Elem {
                name: chars_clone(&e.name),
                attrs: clone_attrs(&e.attrs),
                children,
            };
            if crate::text::chars_eq(&e.name, tag) {
                match e.get_attr(attr) {
                    Some(v) => {
                        let vs = crate::text::chars_to_string(&v);
                        let resolved = resolve_attr_exec(base, vs.as_str());
                        out.set_attr(attr, str_to_chars(resolved.as_str()));
                    },
                    None => {},
                }
            }
            let r = Node::Element(out);
            proof {
                assert(node_view(r) =~= abs_node(n@, tag@, attr@, base@));
            }
            r
        },
        _ => n.clone_node(),
    }
}

/// URL absolutization over a forest, executable form.
pub fn abs_forest_exec(ns: &Vec<Node>, tag: &Vec<char>, attr: &Vec<char>, base: &str) -> (r: Vec<
    Node,
>)
    requires
        parse_url(base@) is Some,
    ensures
        forest_view(r@) == abs_forest(forest_view(ns@), tag@, attr@, base@),
    decreases *ns,
{
    let ghost model = forest_view(ns@);
    let mut out: Vec<Node> = Vec::new();
    proof {
        forest_view_props(ns@);
    }
    for i in 0..ns.len()
        invariant
            parse_url(base@) is Some,
            model == forest_view(ns@),
            model.len() == ns@.len(),
            forall|j: int| 0 <= j < ns@.len() ==> model[j] == node_view(ns@[j]),
            forest_view(out@) == abs_forest(model.take(i as int), tag@, attr@, base@),
    {
        let node = abs_node_exec(&ns[i], tag, attr, base);
        proof {
            forest_view_push(out@, node);
        }
        out.push(node);
        proof {
            abs_forest_take_push(model, tag@, attr@, base@, i as int);
            assert(forest_view(out@) =~= abs_forest(model.take(i + 1), tag@, attr@, base@));
        }
    }
    proof {
        assert(model.take(model.len() as int) =~= model);
    }
    out
}

/// Extending a prefix extends its absolutization pass.
proof fn abs_forest_take_push(ns: Seq<NodeM>, tag: Seq<char>, attr: Seq<char>, base: Seq<char>, i: int)
    requires
        0 <= i < ns.len(),
    ensures
        abs_forest(ns.take(i + 1), tag, attr, base) == abs_forest(ns.take(i), tag, attr, base)
            + seq![abs_node(ns[i], tag, attr, base)],
    decreases i,
{
    if i == 0 {
        assert(ns.take(1)[0] == ns[0]);
        assert(ns.take(1).subrange(1, 1) =~= Seq::<NodeM>::empty());
        assert(ns.take(0) =~= Seq::<NodeM>::empty());
        assert(abs_forest(Seq::<NodeM>::empty(), tag, attr, base) == Seq::<NodeM>::empty());
        assert(abs_forest(ns.take(1), tag, attr, base) =~= abs_forest(ns.take(0), tag, attr, base)
            + seq![abs_node(ns[0], tag, attr, base)]);
    } else {
        let tail = ns.subrange(1, ns.len() as int);
        abs_forest_take_push(tail, tag, attr, base, i - 1);
        assert(ns.take(i)[0] == ns[0]);
        assert(ns.take(i + 1)[0] == ns[0]);
        assert(ns.take(i).subrange(1, i as int) =~= tail.take(i - 1));
        assert(ns.take(i + 1).subrange(1, i + 1) =~= tail.take(i));
        assert(tail[i - 1] == ns[i]);
        assert(abs_forest(ns.take(i + 1), tag, attr, base) =~= abs_forest(
            ns.take(i),
            tag,
            attr,
            base,
        ) + seq![abs_node(ns[i], tag, attr, base)]);
    }
}


/// Structural encoding of a subtree: tag names and `class` values, nested in
/// parentheses; text and comments contribute nothing, so the fingerprint is
/// stable across pages whose boilerplate differs only in text.
///
/// The fingerprint scheme is this library's own: a deny-set entry matches
/// only a fingerprint computed by this same encoding, so deny sets must be
/// built from fingerprints this library reported.
pub open spec fn enc_node(n: NodeM) -> Seq<char>
    decreases n,
{
    match n {
        NodeM::Element(e) => seq!['('] + e.name + seq!['|'] + (match attr_of(e.attrs, "class"@) {
            Some(v) => v,
            None => Seq::<char>::empty(),
        }) + enc_forest(e.children) + seq![')'],
        _ => Seq::empty(),
    }
}

/// Structural encoding of a forest.
pub open spec fn enc_forest(ns: Seq<NodeM>) -> Seq<char>
    decreases ns,
{
    if ns.len() == 0 {
        Seq::empty()
    } else {
        enc_node(ns[0]) + enc_forest(ns.subrange(1, ns.len() as int))
    }
}

/// The fingerprint of a node under a mode: the mode tag and the structural
/// encoding, in the `sig:<mode>:<encoding>` shape whose second colon-field
/// is the mode.
pub open spec fn fingerprint(n: NodeM, mode: Seq<char>) -> Seq<char> {
    "sig:"@ + mode + seq![':'] + enc_node(n)
}

/// Append the structural encoding of one node.
fn enc_node_exec(n: &Node, out: &mut Vec<char>)
    ensures
        final(out)@ == old(out)@ + enc_node(n@),
    decreases *n,
{
    match n {
        Node::Element(e) => {
            out.push('(');
            let ghost a1 = out@;
            let mut k: usize = 0;
            while k < e.name.len()
                invariant
                    k <= e.name.len(),
                    out@ == a1 + e.name@.take(k as int),
                decreases e.name.len() - k,
            {
                out.push(e.name[k]);
                proof {
                    assert(out@ =~= a1 + e.name@.take(k + 1));
                }
                k = k + 1;
            }
            proof {
                assert(e.name@.take(e.name@.len() as int) =~= e.name@);
            }
            out.push('|');
            let class_name = str_to_chars("class");
            match e.get_attr(&class_name) {
                Some(v) => {
                    let ghost a2 = out@;
                    let mut k2: usize = 0;
                    while k2 < v.len()
                        invariant
                            k2 <= v.len(),
                            out@ == a2 + v@.take(k2 as int),
                        decreases v.len() - k2,
                    {
                        out.push(v[k2]);
                        proof {
                            assert(out@ =~= a2 + v@.take(k2 + 1));
                        }
                        k2 = k2 + 1;
                    }
                    proof {
                        assert(v@.take(v@.len() as int) =~= v@);
                    }
                },
                None => {},
            }
            enc_forest_exec(&e.children, out);
            out.push(')');
            proof {
                assert(out@ =~= old(out)@ + enc_node(n@));
            }
        },
        _ => {
            proof {
                assert(out@ =~= old(out)@ + enc_node(n@));
            }
        },
    }
}

/// Append the structural encoding of a forest.
fn enc_forest_exec(ns: &Vec<Node>, out: &mut Vec<char>)
    ensures
        final(out)@ == old(out)@ + enc_forest(forest_view(ns@)),
    decreases *ns,
{
    let ghost model = forest_view(ns@);
    proof {
        forest_view_props(ns@);
        assert(model.subrange(0, model.len() as int) =~= model);
    }
    for i in 0..ns.len()
        invariant
            model == forest_view(ns@),
            model.len() == ns@.len(),
            forall|j: int| 0 <= j < ns@.len() ==> model[j] == node_view(ns@[j]),
            out@ + enc_forest(model.subrange(i as int, model.len() as int)) == old(out)@
                + enc_forest(model),
    {
        let ghost rest = model.subrange(i as int, model.len() as int);
        proof {
            assert(rest[0] == model[i as int]);
            assert(rest.subrange(1, rest.len() as int) =~= model.subrange(
                i + 1,
                model.len() as int,
            ));
        }
        enc_node_exec(&ns[i], out);
    }
    proof {
        assert(model.subrange(model.len() as int, model.len() as int) =~= Seq::<NodeM>::empty());
        assert(out@ + Seq::<char>::empty() =~= out@);
    }
}

/// The fingerprint of a node under a mode, executable form.
fn fingerprint_exec(n: &Node, mode: &Vec<char>) -> (r: Vec<char>)
    ensures
        r@ == fingerprint(n@, mode@),
{
    let mut out = str_to_chars("sig:");
    let ghost a1 = out@;
    let mut k: usize = 0;
    while k < mode.len()
        invariant
            k <= mode.len(),
            out@ == a1 + mode@.take(k as int),
        decreases mode.len() - k,
    {
        out.push(mode[k]);
        proof {
            assert(out@ =~= a1 + mode@.take(k + 1));
        }
        k = k + 1;
    }
    proof {
        assert(mode@.take(mode@.len() as int) =~= mode@);
    }
    out.push(':');
    enc_node_exec(n, &mut out);
    proof {
        assert(out@ =~= fingerprint(n@, mode@));
    }
    out
}

/// The mode encoded in a deny-set signature: its second colon-separated
/// field. A signature without a colon has no mode and never matches.
pub open spec fn mode_of(s: Seq<char>) -> Option<Seq<char>> {
    match crate::selector::close_quote(s, ':', 0) {
        Some(c1) => Some(
            match crate::selector::close_quote(s, ':', c1 + 1) {
                Some(c2) => s.subrange(c1 + 1, c2),
                None => s.subrange(c1 + 1, s.len() as int),
            },
        ),
        None => None,
    }
}

/// The mode of a signature, executable form.
fn mode_of_exec(s: &Vec<char>) -> (r: Option<Vec<char>>)
    ensures
        match r {
            Some(m) => mode_of(s@) == Some(m@),
            None => mode_of(s@) is None,
        },
{
    match crate::selector::close_quote_exec(s, ':', 0) {
        Some(c1) => {
            match crate::selector::close_quote_exec(s, ':', c1 + 1) {
                Some(c2) => {
                    let mut m: Vec<char> = Vec::new();
                    let mut k = c1 + 1;
                    while k < c2
                        invariant
                            c1 + 1 <= k <= c2 <= s.len(),
                            m@ == s@.subrange(c1 + 1, k as int),
                        decreases c2 - k,
                    {
                        m.push(s[k]);
                        proof {
                            assert(m@ =~= s@.subrange(c1 + 1, k + 1));
                        }
                        k = k + 1;
                    }
                    Some(m)
                },
                None => {
                    let mut m: Vec<char> = Vec::new();
                    let mut k = c1 + 1;
                    while k < s.len()
                        invariant
                            c1 + 1 <= k <= s.len(),
                            m@ == s@.subrange(c1 + 1, k as int),
                        decreases s.len() - k,
                    {
                        m.push(s[k]);
                        proof {
                            assert(m@ =~= s@.subrange(c1 + 1, k + 1));
                        }
                        k = k + 1;
                    }
                    Some(m)
                },
            }
        },
        None => None,
    }
}

/// A fingerprint stands in the deny set.
pub open spec fn sig_member(sigs: Seq<Seq<char>>, f: Seq<char>) -> bool {
    exists|j: int| 0 <= j < sigs.len() && sigs[j] == f
}

/// The node's fingerprint under the mode of some deny-set entry stands in
/// the deny set.
pub open spec fn omce_hit(n: NodeM, sigs: Seq<Seq<char>>) -> bool {
    exists|i: int|
        0 <= i < sigs.len() && mode_of(#[trigger] sigs[i]) is Some && sig_member(
            sigs,
            fingerprint(n, mode_of(sigs[i])->0),
        )
}

/// Deny-set test, executable form.
fn omce_hit_exec(n: &Node, sigs: &Vec<Vec<char>>) -> (r: bool)
    ensures
        r == omce_hit(n@, crate::text::texts_view(sigs@)),
{
    let ghost model = crate::text::texts_view(sigs@);
    for i in 0..sigs.len()
        invariant
            model == crate::text::texts_view(sigs@),
            model.len() == sigs@.len(),
            forall|k: int|
                0 <= k < i ==> !(mode_of(#[trigger] model[k]) is Some && sig_member(
                    model,
                    fingerprint(n@, mode_of(model[k])->0),
                )),
    {
        proof {
            assert(model[i as int] == sigs@[i as int]@);
        }
        match mode_of_exec(&sigs[i]) {
            Some(mode) => {
                let fp = fingerprint_exec(n, &mode);
                let mut found = false;
                for j in 0..sigs.len()
                    invariant
                        model == crate::text::texts_view(sigs@),
                        model.len() == sigs@.len(),
                        fp@ == fingerprint(n@, mode_of(model[i as int])->0),
                        found == (exists|t: int| 0 <= t < j && model[t] == fp@),
                {
                    proof {
                        assert(model[j as int] == sigs@[j as int]@);
                    }
                    if crate::text::chars_eq(&sigs[j], &fp) {
                        found = true;
                    }
                }
                if found {
                    proof {
                        assert(sig_member(model, fingerprint(n@, mode_of(model[i as int])->0)));
                    }
                    return true;
                }
                proof {
                    assert(!sig_member(model, fingerprint(n@, mode_of(model[i as int])->0)));
                }
            },
            None => {},
        }
    }
    false
}

/// The boilerplate-pruning pass: an element whose trimmed text is non-empty
/// and whose fingerprint under some deny-set mode stands in the deny set is
/// detached with its subtree; the test uses the subtree as it stood when the
/// pass began.
pub open spec fn omce_node(n: NodeM, sigs: Seq<Seq<char>>) -> Seq<NodeM>
    decreases n,
{
    match n {
        NodeM::Element(e) => {
            if !all_space(node_text(n)) && omce_hit(n, sigs) {
                Seq::empty()
            } else {
                seq![
                    NodeM::Element(
                        ElemM {
                            name: e.name,
                            attrs: e.attrs,
                            children: omce_forest(e.children, sigs),
                        },
                    ),
                ]
            }
        },
        _ => seq![n],
    }
}

/// The boilerplate-pruning pass over a forest.
pub open spec fn omce_forest(ns: Seq<NodeM>, sigs: Seq<Seq<char>>) -> Seq<NodeM>
    decreases ns,
{
    if ns.len() == 0 {
        Seq::empty()
    } else {
        omce_node(ns[0], sigs) + omce_forest(ns.subrange(1, ns.len() as int), sigs)
    }
}

/// Splitting a forest splits the pass.
proof fn omce_forest_concat(a: Seq<NodeM>, b: Seq<NodeM>, sigs: Seq<Seq<char>>)
    ensures
        omce_forest(a + b, sigs) == omce_forest(a, sigs) + omce_forest(b, sigs),
    decreases a.len(),
{
    if a.len() == 0 {
        assert(a + b =~= b);
        assert(omce_forest(a, sigs) + omce_forest(b, sigs) =~= omce_forest(b, sigs));
    } else {
        omce_forest_concat(a.subrange(1, a.len() as int), b, sigs);
        assert((a + b).subrange(1, (a + b).len() as int) =~= a.subrange(1, a.len() as int) + b);
        assert(omce_forest(a + b, sigs) =~= omce_forest(a, sigs) + omce_forest(b, sigs));
    }
}

/// Boilerplate pruning over one node, executable form; the kept node, if
/// any, is appended to `out`.
fn omce_node_exec(n: &Node, sigs: &Vec<Vec<char>>, out: &mut Vec<Node>)
    ensures
        forest_view(final(out)@) == forest_view(old(out)@) + omce_node(
            n@,
            crate::text::texts_view(sigs@),
        ),
    decreases *n,
{
    match n {
        Node::Element(e) => {
            let text = n.text_contents();
            if !all_space_exec(&text) && omce_hit_exec(n, sigs) {
                proof {
                    assert(forest_view(out@) =~= forest_view(out@) + omce_node(
                        n@,
                        crate::text::texts_view(sigs@),
                    ));
                }
                return ;
            }
            let mut kept: Vec<Node> = Vec::new();
            omce_forest_exec(&e.children, sigs, &mut kept);
            let rebuilt = Node::Element(
                Elem { name: chars_clone(&e.name), attrs: clone_attrs(&e.attrs), children: kept },
            );
            proof {
                forest_view_push(out@, rebuilt);
            }
            out.push(rebuilt);
            proof {
                assert(forest_view(out@) =~= forest_view(old(out)@) + omce_node(
                    n@,
                    crate::text::texts_view(sigs@),
                ));
            }
        },
        _ => {
            let copy = n.clone_node();
            proof {
                forest_view_push(out@, copy);
            }
            out.push(copy);
            proof {
                assert(forest_view(out@) =~= forest_view(old(out)@) + omce_node(
                    n@,
                    crate::text::texts_view(sigs@),
                ));
            }
        },
    }
}

/// Boilerplate pruning over a forest, executable form.
fn omce_forest_exec(ns: &Vec<Node>, sigs: &Vec<Vec<char>>, out: &mut Vec<Node>)
    ensures
        forest_view(final(out)@) == forest_view(old(out)@) + omce_forest(
            forest_view(ns@),
            crate::text::texts_view(sigs@),
        ),
    decreases *ns,
{
    let ghost model = forest_view(ns@);
    let ghost sm = crate::text::texts_view(sigs@);
    proof {
        forest_view_props(ns@);
        assert(forest_view(out@) + omce_forest(model.take(0), sm) =~= forest_view(out@));
    }
    for i in 0..ns.len()
        invariant
            model == forest_view(ns@),
            sm == crate::text::texts_view(sigs@),
            model.len() == ns@.len(),
            forall|j: int| 0 <= j < ns@.len() ==> model[j] == node_view(ns@[j]),
            forest_view(out@) == forest_view(old(out)@) + omce_forest(model.take(i as int), sm),
    {
        omce_node_exec(&ns[i], sigs, out);
        proof {
            omce_forest_concat(model.take(i as int), seq![model[i as int]], sm);
            assert(model.take(i as int) + seq![model[i as int]] =~= model.take(i + 1));
            assert(seq![model[i as int]].subrange(1, 1) =~= Seq::<NodeM>::empty());
            assert(seq![model[i as int]][0] == model[i as int]);
            assert(omce_forest(Seq::<NodeM>::empty(), sm) == Seq::<NodeM>::empty());
            assert(omce_forest(seq![model[i as int]], sm) =~= omce_node(model[i as int], sm));
            assert(forest_view(out@) =~= forest_view(old(out)@) + omce_forest(
                model.take(i + 1),
                sm,
            ));
        }
    }
    proof {
        assert(model.take(model.len() as int) =~= model);
    }
}

/// Boilerplate pruning over a document, executable form.
pub fn omce_exec(doc: &Vec<Node>, sigs: &Vec<Vec<char>>) -> (r: Vec<Node>)
    ensures
        forest_view(r@) == omce_forest(forest_view(doc@), crate::text::texts_view(sigs@)),
{
    let mut out: Vec<Node> = Vec::new();
    omce_forest_exec(doc, sigs, &mut out);
    proof {
        assert(forest_view(Seq::<Node>::empty()) + omce_forest(
            forest_view(doc@),
            crate::text::texts_view(sigs@),
        ) =~= omce_forest(forest_view(doc@), crate::text::texts_view(sigs@)));
    }
    out
}


/// The include filter over one node: the pair of (nodes moved into the
/// container, nodes kept in the document). A matching element moves, with
/// its own nested matches extracted out of it and appended after it in
/// document order.
pub open spec fn ex_node(n: NodeM, sel: SelectorM, st: Seq<bool>) -> (Seq<NodeM>, Seq<NodeM>)
    decreases n,
{
    match n {
        NodeM::Element(e) => {
            let pr = ex_forest(e.children, sel, next_state(st, sel, e));
            let rebuilt = NodeM::Element(
                ElemM { name: e.name, attrs: e.attrs, children: pr.1 },
            );
            if sel_matches(st, sel, e) {
                (seq![rebuilt] + pr.0, Seq::empty())
            } else {
                (pr.0, seq![rebuilt])
            }
        },
        _ => (Seq::empty(), seq![n]),
    }
}

/// The include filter over a forest.
pub open spec fn ex_forest(ns: Seq<NodeM>, sel: SelectorM, st: Seq<bool>) -> (Seq<NodeM>, Seq<
    NodeM,
>)
    decreases ns,
{
    if ns.len() == 0 {
        (Seq::empty(), Seq::empty())
    } else {
        let h = ex_node(ns[0], sel, st);
        let t = ex_forest(ns.subrange(1, ns.len() as int), sel, st);
        (h.0 + t.0, h.1 + t.1)
    }
}

/// Splitting a forest splits the extraction.
proof fn ex_forest_concat(a: Seq<NodeM>, b: Seq<NodeM>, sel: SelectorM, st: Seq<bool>)
    ensures
        ex_forest(a + b, sel, st).0 == ex_forest(a, sel, st).0 + ex_forest(b, sel, st).0,
        ex_forest(a + b, sel, st).1 == ex_forest(a, sel, st).1 + ex_forest(b, sel, st).1,
    decreases a.len(),
{
    if a.len() == 0 {
        assert(a + b =~= b);
        assert(ex_forest(a, sel, st).0 + ex_forest(b, sel, st).0 =~= ex_forest(b, sel, st).0);
        assert(ex_forest(a, sel, st).1 + ex_forest(b, sel, st).1 =~= ex_forest(b, sel, st).1);
    } else {
        ex_forest_concat(a.subrange(1, a.len() as int), b, sel, st);
        assert((a + b).subrange(1, (a + b).len() as int) =~= a.subrange(1, a.len() as int) + b);
        assert(ex_forest(a + b, sel, st).0 =~= ex_forest(a, sel, st).0 + ex_forest(
            b,
            sel,
            st,
        ).0);
        assert(ex_forest(a + b, sel, st).1 =~= ex_forest(a, sel, st).1 + ex_forest(
            b,
            sel,
            st,
        ).1);
    }
}

/// The include filter over one node, executable form.
fn ex_node_exec(n: &Node, sel: &Selector, st: &Vec<bool>, moved: &mut Vec<Node>, kept: &mut Vec<
    Node,
>)
    requires
        st@.len() == sel@.parts.len(),
        st@.len() == sel.parts@.len(),
    ensures
        forest_view(final(moved)@) == forest_view(old(moved)@) + ex_node(n@, sel@, st@).0,
        forest_view(final(kept)@) == forest_view(old(kept)@) + ex_node(n@, sel@, st@).1,
    decreases *n,
{
    match n {
        Node::Element(e) => {
            let st2 = next_state_exec(st, sel, e);
            let mut sub_moved: Vec<Node> = Vec::new();
            let mut sub_kept: Vec<Node> = Vec::new();
            ex_forest_exec(&e.children, sel, &st2, &mut sub_moved, &mut sub_kept);
            proof {
                assert(forest_view(Seq::<Node>::empty()) == Seq::<NodeM>::empty());
                assert(Seq::<NodeM>::empty() + ex_forest(
                    forest_view(e.children@),
                    sel@,
                    st2@,
                ).0 =~= ex_forest(forest_view(e.children@), sel@, st2@).0);
                assert(Seq::<NodeM>::empty() + ex_forest(
                    forest_view(e.children@),
                    sel@,
                    st2@,
                ).1 =~= ex_forest(forest_view(e.children@), sel@, st2@).1);
            }
            let rebuilt = Node::Element(
                Elem {
                    name: chars_clone(&e.name),
                    attrs: clone_attrs(&e.attrs),
                    children: sub_kept,
                },
            );
            if sel_matches_exec(st, sel, e) {
                proof {
                    forest_view_push(moved@, rebuilt);
                }
                moved.push(rebuilt);
                let ghost mark = moved@;
                // append the nested matches after the moved element
                let mut t: usize = 0;
                let ghost subm = forest_view(sub_moved@);
                proof {
                    forest_view_props(sub_moved@);
                }
                while t < sub_moved.len()
                    invariant
                        t <= sub_moved@.len(),
                        subm == forest_view(sub_moved@),
                        subm.len() == sub_moved@.len(),
                        forall|j: int|
                            0 <= j < sub_moved@.len() ==> subm[j] == node_view(sub_moved@[j]),
                        forest_view(moved@) == forest_view(mark) + subm.take(t as int),
                    decreases sub_moved@.len() - t,
                {
                    let item = sub_moved[t].clone_node();
                    proof {
                        forest_view_push(moved@, item);
                    }
                    moved.push(item);
                    proof {
                        assert(forest_view(mark) + subm.take(t as int) + seq![subm[t as int]]
                            =~= forest_view(mark) + subm.take(t + 1));
                    }
                    t = t + 1;
                }
                proof {
                    assert(subm.take(subm.len() as int) =~= subm);
                    assert(forest_view(moved@) =~= forest_view(old(moved)@) + ex_node(
                        n@,
                        sel@,
                        st@,
                    ).0);
                    assert(forest_view(kept@) =~= forest_view(old(kept)@) + ex_node(
                        n@,
                        sel@,
                        st@,
                    ).1);
                }
            } else {
                // nested matches still move; the element stays
                let ghost mark = moved@;
                let mut t: usize = 0;
                let ghost subm = forest_view(sub_moved@);
                proof {
                    forest_view_props(sub_moved@);
                    assert(forest_view(mark) + subm.take(0) =~= forest_view(mark));
                }
                while t < sub_moved.len()
                    invariant
                        t <= sub_moved@.len(),
                        subm == forest_view(sub_moved@),
                        subm.len() == sub_moved@.len(),
                        forall|j: int|
                            0 <= j < sub_moved@.len() ==> subm[j] == node_view(sub_moved@[j]),
                        forest_view(moved@) == forest_view(mark) + subm.take(t as int),
                    decreases sub_moved@.len() - t,
                {
                    let item = sub_moved[t].clone_node();
                    proof {
                        forest_view_push(moved@, item);
                    }
                    moved.push(item);
                    proof {
                        assert(forest_view(mark) + subm.take(t as int) + seq![subm[t as int]]
                            =~= forest_view(mark) + subm.take(t + 1));
                    }
                    t = t + 1;
                }
                proof {
                    forest_view_push(kept@, rebuilt);
                }
                kept.push(rebuilt);
                proof {
                    assert(subm.take(subm.len() as int) =~= subm);
                    assert(forest_view(moved@) =~= forest_view(old(moved)@) + ex_node(
                        n@,
                        sel@,
                        st@,
                    ).0);
                    assert(forest_view(kept@) =~= forest_view(old(kept)@) + ex_node(
                        n@,
                        sel@,
                        st@,
                    ).1);
                }
            }
        },
        _ => {
            let copy = n.clone_node();
            proof {
                forest_view_push(kept@, copy);
            }
            kept.push(copy);
            proof {
                assert(forest_view(moved@) =~= forest_view(moved@) + ex_node(n@, sel@, st@).0);
                assert(forest_view(kept@) =~= forest_view(old(kept)@) + ex_node(
                    n@,
                    sel@,
                    st@,
                ).1);
            }
        },
    }
}

/// The include filter over a forest, executable form.
fn ex_forest_exec(ns: &Vec<Node>, sel: &Selector, st: &Vec<bool>, moved: &mut Vec<Node>, kept:
    &mut Vec<Node>)
    requires
        st@.len() == sel@.parts.len(),
        st@.len() == sel.parts@.len(),
    ensures
        forest_view(final(moved)@) == forest_view(old(moved)@) + ex_forest(
            forest_view(ns@),
            sel@,
            st@,
        ).0,
        forest_view(final(kept)@) == forest_view(old(kept)@) + ex_forest(
            forest_view(ns@),
            sel@,
            st@,
        ).1,
    decreases *ns,
{
    let ghost model = forest_view(ns@);
    proof {
        forest_view_props(ns@);
        assert(forest_view(moved@) + ex_forest(model.take(0), sel@, st@).0 =~= forest_view(
            moved@,
        ));
        assert(forest_view(kept@) + ex_forest(model.take(0), sel@, st@).1 =~= forest_view(
            kept@,
        ));
    }
    for i in 0..ns.len()
        invariant
            st@.len() == sel@.parts.len(),
            st@.len() == sel.parts@.len(),
            model == forest_view(ns@),
            model.len() == ns@.len(),
            forall|j: int| 0 <= j < ns@.len() ==> model[j] == node_view(ns@[j]),
            forest_view(moved@) == forest_view(old(moved)@) + ex_forest(
                model.take(i as int),
                sel@,
                st@,
            ).0,
            forest_view(kept@) == forest_view(old(kept)@) + ex_forest(
                model.take(i as int),
                sel@,
                st@,
            ).1,
    {
        ex_node_exec(&ns[i], sel, st, moved, kept);
        proof {
            ex_forest_concat(model.take(i as int), seq![model[i as int]], sel@, st@);
            assert(model.take(i as int) + seq![model[i as int]] =~= model.take(i + 1));
            assert(seq![model[i as int]].subrange(1, 1) =~= Seq::<NodeM>::empty());
            assert(seq![model[i as int]][0] == model[i as int]);
            assert(ex_forest(Seq::<NodeM>::empty(), sel@, st@).0 == Seq::<NodeM>::empty());
            assert(ex_forest(seq![model[i as int]], sel@, st@).0 =~= ex_node(
                model[i as int],
                sel@,
                st@,
            ).0);
            assert(ex_forest(seq![model[i as int]], sel@, st@).1 =~= ex_node(
                model[i as int],
                sel@,
                st@,
            ).1);
            assert(forest_view(moved@) =~= forest_view(old(moved)@) + ex_forest(
                model.take(i + 1),
                sel@,
                st@,
            ).0);
            assert(forest_view(kept@) =~= forest_view(old(kept)@) + ex_forest(
                model.take(i + 1),
                sel@,
                st@,
            ).1);
        }
    }
    proof {
        assert(model.take(model.len() as int) =~= model);
    }
}


/// A simple selector literal: `.name` is a class-word test, `#name` an id
/// test, anything else a bare tag name.
pub open spec fn simple_sel_spec(s: Seq<char>) -> CompoundM {
    if s.len() > 0 && s[0] == '.' {
        CompoundM { tag: None, conds: seq![CondM::ClassWord { value: s.subrange(1, s.len() as int) }] }
    } else if s.len() > 0 && s[0] == '#' {
        CompoundM {
            tag: None,
            conds: seq![CondM::Eq { name: "id"@, value: s.subrange(1, s.len() as int) }],
        }
    } else {
        CompoundM { tag: Some(s), conds: Seq::empty() }
    }
}

/// Build a simple selector from a literal.
fn simple_sel_exec(lit: &str) -> (r: Compound)
    ensures
        r@ == simple_sel_spec(lit@),
{
    let cs = str_to_chars(lit);
    if cs.len() > 0 && cs[0] == '.' {
        let val = crate::text::concat_from(&Vec::new(), &cs, 1);
        let mut conds: Vec<Cond> = Vec::new();
        conds.push(Cond::ClassWord { value: val });
        let r = Compound { tag: None, conds };
        proof {
            assert(Seq::<char>::empty() + lit@.subrange(1, lit@.len() as int) =~= lit@.subrange(
                1,
                lit@.len() as int,
            ));
            assert(r@ =~~= simple_sel_spec(lit@));
        }
        r
    } else if cs.len() > 0 && cs[0] == '#' {
        let val = crate::text::concat_from(&Vec::new(), &cs, 1);
        let mut conds: Vec<Cond> = Vec::new();
        conds.push(Cond::Eq { name: str_to_chars("id"), value: val });
        let r = Compound { tag: None, conds };
        proof {
            assert(Seq::<char>::empty() + lit@.subrange(1, lit@.len() as int) =~= lit@.subrange(
                1,
                lit@.len() as int,
            ));
            assert(r@ =~~= simple_sel_spec(lit@));
        }
        r
    } else {
        let r = Compound { tag: Some(cs), conds: Vec::new() };
        proof {
            assert(r@ =~~= simple_sel_spec(lit@));
        }
        r
    }
}

/// Model of a list of string slices.
pub open spec fn strs_view(vs: Seq<&str>) -> Seq<Seq<char>> {
    vs.map_values(|s: &str| s@)
}

/// The fixed noise deny-list: navigation, header and footer blocks,
/// sidebars, modals and overlays, ads, language selectors, social blocks,
/// menus, breadcrumbs, share and cookie widgets.
pub open spec fn noise_names() -> Seq<Seq<char>> {
    seq![
        "header"@, "footer"@, "nav"@, "aside"@, ".header"@, ".top"@, ".navbar"@, "#header"@,
        ".footer"@, ".bottom"@, "#footer"@, ".sidebar"@, ".side"@, ".aside"@, "#sidebar"@,
        ".modal"@, ".popup"@, "#modal"@, ".overlay"@, ".ad"@, ".ads"@, ".advert"@, "#ad"@,
        ".lang-selector"@, ".language"@, "#language-selector"@, ".social"@, ".social-media"@,
        ".social-links"@, "#social"@, ".menu"@, ".navigation"@, "#nav"@, ".breadcrumbs"@,
        "#breadcrumbs"@, ".share"@, "#share"@, ".widget"@, "#widget"@, ".cookie"@, "#cookie"@,
        ".fc-decoration"@,
    ]
}

/// The fixed force-include allow-list: a match inside a noise candidate
/// vetoes its removal.
pub open spec fn force_names() -> Seq<Seq<char>> {
    seq![
        "#main"@, ".swoogo-cols"@, ".swoogo-text"@, ".swoogo-table-div"@, ".swoogo-space"@,
        ".swoogo-alert"@, ".swoogo-sponsors"@, ".swoogo-title"@, ".swoogo-tabs"@, ".swoogo-logo"@,
        ".swoogo-image"@, ".swoogo-button"@, ".swoogo-agenda"@,
    ]
}

/// Build the noise deny-list literals.
fn noise_names_exec() -> (r: Vec<&'static str>)
    ensures
        strs_view(r@) == noise_names(),
{
    let mut v: Vec<&'static str> = Vec::new();
    v.push("header");
    v.push("footer");
    v.push("nav");
    v.push("aside");
    v.push(".header");
    v.push(".top");
    v.push(".navbar");
    v.push("#header");
    v.push(".footer");
    v.push(".bottom");
    v.push("#footer");
    v.push(".sidebar");
    v.push(".side");
    v.push(".aside");
    v.push("#sidebar");
    v.push(".modal");
    v.push(".popup");
    v.push("#modal");
    v.push(".overlay");
    v.push(".ad");
    v.push(".ads");
    v.push(".advert");
    v.push("#ad");
    v.push(".lang-selector");
    v.push(".language");
    v.push("#language-selector");
    v.push(".social");
    v.push(".social-media");
    v.push(".social-links");
    v.push("#social");
    v.push(".menu");
    v.push(".navigation");
    v.push("#nav");
    v.push(".breadcrumbs");
    v.push("#breadcrumbs");
    v.push(".share");
    v.push("#share");
    v.push(".widget");
    v.push("#widget");
    v.push(".cookie");
    v.push("#cookie");
    v.push(".fc-decoration");
    proof {
        assert(strs_view(v@) =~= noise_names());
    }
    v
}

/// Build the force-include allow-list compounds.
fn force_sels_exec() -> (r: Vec<Compound>)
    ensures
        crate::selector::parts_view(r@) == force_sels(),
{
    let mut v: Vec<Compound> = Vec::new();
    v.push(simple_sel_exec("#main"));
    v.push(simple_sel_exec(".swoogo-cols"));
    v.push(simple_sel_exec(".swoogo-text"));
    v.push(simple_sel_exec(".swoogo-table-div"));
    v.push(simple_sel_exec(".swoogo-space"));
    v.push(simple_sel_exec(".swoogo-alert"));
    v.push(simple_sel_exec(".swoogo-sponsors"));
    v.push(simple_sel_exec(".swoogo-title"));
    v.push(simple_sel_exec(".swoogo-tabs"));
    v.push(simple_sel_exec(".swoogo-logo"));
    v.push(simple_sel_exec(".swoogo-image"));
    v.push(simple_sel_exec(".swoogo-button"));
    v.push(simple_sel_exec(".swoogo-agenda"));
    proof {
        assert(crate::selector::parts_view(v@) =~= force_sels());
    }
    v
}

/// The force-include compounds.
pub open spec fn force_sels() -> Seq<CompoundM> {
    force_names().map_values(|s: Seq<char>| simple_sel_spec(s))
}

/// A force-include selector matches inside the subtree (the root included).
pub open spec fn any_force(n: NodeM) -> bool {
    exists|k: int| 0 <= k < force_sels().len() && has_match_node(n, #[trigger] force_sels()[k])
}

/// Force-include test, executable form.
fn any_force_exec(n: &Node, forces: &Vec<Compound>) -> (r: bool)
    requires
        crate::selector::parts_view(forces@) == force_sels(),
    ensures
        r == any_force(n@),
{
    let ghost fm = force_sels();
    for k in 0..forces.len()
        invariant
            crate::selector::parts_view(forces@) == fm,
            fm == force_sels(),
            fm.len() == forces@.len(),
            forall|j: int| 0 <= j < k ==> !has_match_node(n@, #[trigger] fm[j]),
    {
        proof {
            assert(fm[k as int] == forces@[k as int]@);
        }
        if has_match_node_exec(n, &forces[k]) {
            return true;
        }
    }
    false
}

/// Noise removal for one deny-list selector over one node: a match with a
/// force-include descendant is kept whole (its own subtree still searched
/// for further matches); an attribution-bearing match is kept pruned; any
/// other match is detached with its subtree.
pub open spec fn noise_node_sp(n: NodeM, c: CompoundM) -> Seq<NodeM>
    decreases n,
{
    match n {
        NodeM::Element(e) => {
            if compound_matches(e, c) {
                if any_force(n) {
                    seq![
                        NodeM::Element(
                            ElemM {
                                name: e.name,
                                attrs: e.attrs,
                                children: noise_forest_sp(e.children, c),
                            },
                        ),
                    ]
                } else if contains_attribution(n) {
                    seq![NodeM::Element(prune_elem(e))]
                } else {
                    Seq::empty()
                }
            } else {
                seq![
                    NodeM::Element(
                        ElemM {
                            name: e.name,
                            attrs: e.attrs,
                            children: noise_forest_sp(e.children, c),
                        },
                    ),
                ]
            }
        },
        _ => seq![n],
    }
}

/// Noise removal for one selector over a forest.
pub open spec fn noise_forest_sp(ns: Seq<NodeM>, c: CompoundM) -> Seq<NodeM>
    decreases ns,
{
    if ns.len() == 0 {
        Seq::empty()
    } else {
        noise_node_sp(ns[0], c) + noise_forest_sp(ns.subrange(1, ns.len() as int), c)
    }
}

/// Splitting a forest splits noise removal.
proof fn noise_forest_concat(a: Seq<NodeM>, b: Seq<NodeM>, c: CompoundM)
    ensures
        noise_forest_sp(a + b, c) == noise_forest_sp(a, c) + noise_forest_sp(b, c),
    decreases a.len(),
{
    if a.len() == 0 {
        assert(a + b =~= b);
        assert(noise_forest_sp(a, c) + noise_forest_sp(b, c) =~= noise_forest_sp(b, c));
    } else {
        noise_forest_concat(a.subrange(1, a.len() as int), b, c);
        assert((a + b).subrange(1, (a + b).len() as int) =~= a.subrange(1, a.len() as int) + b);
        assert(noise_forest_sp(a + b, c) =~= noise_forest_sp(a, c) + noise_forest_sp(b, c));
    }
}

/// Noise removal for one selector over one node, executable form.
fn noise_node_exec(n: &Node, c: &Compound, forces: &Vec<Compound>, out: &mut Vec<Node>)
    requires
        crate::selector::parts_view(forces@) == force_sels(),
    ensures
        forest_view(final(out)@) == forest_view(old(out)@) + noise_node_sp(n@, c@),
    decreases *n,
{
    match n {
        Node::Element(e) => {
            if compound_matches_exec(e, c) {
                if any_force_exec(n, forces) {
                    let mut kept: Vec<Node> = Vec::new();
                    noise_forest_exec(&e.children, c, forces, &mut kept);
                    let rebuilt = Node::Element(
                        Elem {
                            name: chars_clone(&e.name),
                            attrs: clone_attrs(&e.attrs),
                            children: kept,
                        },
                    );
                    proof {
                        forest_view_push(out@, rebuilt);
                    }
                    out.push(rebuilt);
                    proof {
                        assert(forest_view(out@) =~= forest_view(old(out)@) + noise_node_sp(
                            n@,
                            c@,
                        ));
                    }
                } else if contains_attribution_exec(n) {
                    let pruned = Node::Element(prune_elem_exec(e));
                    proof {
                        forest_view_push(out@, pruned);
                    }
                    out.push(pruned);
                    proof {
                        assert(forest_view(out@) =~= forest_view(old(out)@) + noise_node_sp(
                            n@,
                            c@,
                        ));
                    }
                } else {
                    proof {
                        assert(forest_view(out@) =~= forest_view(out@) + noise_node_sp(n@, c@));
                    }
                }
            } else {
                let mut kept: Vec<Node> = Vec::new();
                noise_forest_exec(&e.children, c, forces, &mut kept);
                let rebuilt = Node::Element(
                    Elem {
                        name: chars_clone(&e.name),
                        attrs: clone_attrs(&e.attrs),
                        children: kept,
                    },
                );
                proof {
                    forest_view_push(out@, rebuilt);
                }
                out.push(rebuilt);
                proof {
                    assert(forest_view(out@) =~= forest_view(old(out)@) + noise_node_sp(n@, c@));
                }
            }
        },
        _ => {
            let copy = n.clone_node();
            proof {
                forest_view_push(out@, copy);
            }
            out.push(copy);
            proof {
                assert(forest_view(out@) =~= forest_view(old(out)@) + noise_node_sp(n@, c@));
            }
        },
    }
}

/// Noise removal for one selector over a forest, executable form.
#[verifier::rlimit(60)]
fn noise_forest_exec(ns: &Vec<Node>, c: &Compound, forces: &Vec<Compound>, out: &mut Vec<Node>)
    requires
        crate::selector::parts_view(forces@) == force_sels(),
    ensures
        forest_view(final(out)@) == forest_view(old(out)@) + noise_forest_sp(
            forest_view(ns@),
            c@,
        ),
    decreases *ns,
{
    let ghost model = forest_view(ns@);
    proof {
        forest_view_props(ns@);
        assert(forest_view(out@) + noise_forest_sp(model.take(0), c@) =~= forest_view(out@));
    }
    for i in 0..ns.len()
        invariant
            crate::selector::parts_view(forces@) == force_sels(),
            model == forest_view(ns@),
            model.len() == ns@.len(),
            forall|j: int| 0 <= j < ns@.len() ==> model[j] == node_view(ns@[j]),
            forest_view(out@) == forest_view(old(out)@) + noise_forest_sp(
                model.take(i as int),
                c@,
            ),
    {
        noise_node_exec(&ns[i], c, forces, out);
        proof {
            noise_forest_concat(model.take(i as int), seq![model[i as int]], c@);
            assert(model.take(i as int) + seq![model[i as int]] =~= model.take(i + 1));
            assert(seq![model[i as int]].subrange(1, 1) =~= Seq::<NodeM>::empty());
            assert(seq![model[i as int]][0] == model[i as int]);
            assert(noise_forest_sp(Seq::<NodeM>::empty(), c@) == Seq::<NodeM>::empty());
            assert(noise_forest_sp(seq![model[i as int]], c@) =~= noise_node_sp(
                model[i as int],
                c@,
            ));
            assert(forest_view(out@) =~= forest_view(old(out)@) + noise_forest_sp(
                model.take(i + 1),
                c@,
            ));
        }
    }
    proof {
        assert(model.take(model.len() as int) =~= model);
    }
}

/// The full noise stage: each deny-list selector applied in order, from the
/// `i`-th on.
pub open spec fn noise_spec(doc: Seq<NodeM>, i: int) -> Seq<NodeM>
    decreases noise_names().len() - i,
{
    if i < 0 || i >= noise_names().len() {
        doc
    } else {
        noise_spec(noise_forest_sp(doc, simple_sel_spec(noise_names()[i])), i + 1)
    }
}

/// The full noise stage, executable form.
pub fn noise_exec(doc: Vec<Node>) -> (r: Vec<Node>)
    ensures
        forest_view(r@) == noise_spec(forest_view(doc@), 0),
{
    let names = noise_names_exec();
    let forces = force_sels_exec();
    let mut d = doc;
    for i in 0..names.len()
        invariant
            strs_view(names@) == noise_names(),
            names@.len() == noise_names().len(),
            crate::selector::parts_view(forces@) == force_sels(),
            noise_spec(forest_view(d@), i as int) == noise_spec(forest_view(doc@), 0),
    {
        proof {
            assert(strs_view(names@)[i as int] == names@[i as int]@);
        }
        let c = simple_sel_exec(names[i]);
        let mut out: Vec<Node> = Vec::new();
        noise_forest_exec(&d, &c, &forces, &mut out);
        proof {
            assert(forest_view(Seq::<Node>::empty()) + noise_forest_sp(
                forest_view(d@),
                c@,
            ) =~= noise_forest_sp(forest_view(d@), c@));
        }
        d = out;
    }
    d
}


/// Options of the transform pipeline.
///
/// `include_tags` and `exclude_tags` hold selectors in the language
/// `src/selector.rs` accepts: a tag name, `.class`, `#id`, `[attr]`,
/// `[attr=value]`, `[attr*=value]` (values optionally quoted), combined into
/// compounds and joined by the descendant combinator, as in
/// `picture source`. Anything else — comma lists, other combinators, other
/// attribute operators, pseudo-classes — is a selector error, fatal for the
/// whole call in either list.
pub struct TransformHtmlOptions {
    pub html: String,
    pub url: String,
    pub include_tags: Vec<String>,
    pub exclude_tags: Vec<String>,
    pub only_main_content: bool,
    pub omce_signatures: Option<Vec<String>>,
}

/// Model of the transform options.
#[verifier::ext_equal]
pub struct TransformOptsM {
    pub html: Seq<char>,
    pub url: Seq<char>,
    pub include_tags: Seq<Seq<char>>,
    pub exclude_tags: Seq<Seq<char>>,
    pub only_main_content: bool,
    pub omce_signatures: Option<Seq<Seq<char>>>,
}

impl View for TransformHtmlOptions {
    type V = TransformOptsM;

    open spec fn view(&self) -> TransformOptsM {
        TransformOptsM {
            html: self.html@,
            url: self.url@,
            include_tags: crate::text::strings_view(self.include_tags@),
            exclude_tags: crate::text::strings_view(self.exclude_tags@),
            only_main_content: self.only_main_content,
            omce_signatures: match self.omce_signatures {
                Some(v) => Some(crate::text::strings_view(v@)),
                None => None,
            },
        }
    }
}

/// The include filter folded over the selector list: the container contents
/// gathered so far and what is left of the document. A selector that does
/// not parse fails the whole stage.
pub open spec fn include_fold(doc: Seq<NodeM>, sels: Seq<Seq<char>>, acc: Seq<NodeM>) -> Option<
    (Seq<NodeM>, Seq<NodeM>),
>
    decreases sels.len(),
{
    if sels.len() == 0 {
        Some((acc, doc))
    } else {
        match parse_selector_spec(sels[0]) {
            Some(sel) => {
                let pr = ex_forest(doc, sel, init_state(sel));
                include_fold(pr.1, sels.subrange(1, sels.len() as int), acc + pr.0)
            },
            None => None,
        }
    }
}

/// The container the include filter moves its matches into: a fresh
/// document holding a single `div`.
pub open spec fn include_container(acc: Seq<NodeM>) -> NodeM {
    NodeM::Element(
        ElemM {
            name: "html"@,
            attrs: Seq::empty(),
            children: seq![
                NodeM::Element(ElemM { name: "head"@, attrs: Seq::empty(), children: Seq::empty() }),
                NodeM::Element(
                    ElemM {
                        name: "body"@,
                        attrs: Seq::empty(),
                        children: seq![
                            NodeM::Element(
                                ElemM { name: "div"@, attrs: Seq::empty(), children: acc },
                            ),
                        ],
                    },
                ),
            ],
        },
    )
}

/// The include stage: with no selectors the document passes unchanged; else
/// every match of each selector, in order, moves into a fresh container
/// document and the rest of the tree is discarded.
pub open spec fn include_spec(doc: Seq<NodeM>, sels: Seq<Seq<char>>) -> Option<Seq<NodeM>> {
    if sels.len() == 0 {
        Some(doc)
    } else {
        match include_fold(doc, sels, Seq::empty()) {
            Some(pr) => Some(seq![include_container(pr.0)]),
            None => None,
        }
    }
}

/// The include stage, executable form.
fn include_exec(doc: Vec<Node>, sels: &Vec<String>) -> (r: Result<Vec<Node>, ExtractError>)
    ensures
        match r {
            Ok(d) => include_spec(forest_view(doc@), crate::text::strings_view(sels@)) == Some(
                forest_view(d@),
            ),
            Err(e) => include_spec(forest_view(doc@), crate::text::strings_view(sels@)) is None
                && e is Selector,
        },
{
    let ghost model = crate::text::strings_view(sels@);
    let ghost doc0 = forest_view(doc@);
    if sels.len() == 0 {
        return Ok(doc);
    }
    let mut acc: Vec<Node> = Vec::new();
    let mut d = doc;
    proof {
        assert(model.subrange(0, model.len() as int) =~= model);
        assert(forest_view(Seq::<Node>::empty()) == Seq::<NodeM>::empty());
    }
    for i in 0..sels.len()
        invariant
            model == crate::text::strings_view(sels@),
            model.len() == sels@.len(),
            doc0 == forest_view(doc@),
            model.len() > 0,
            include_fold(
                forest_view(d@),
                model.subrange(i as int, model.len() as int),
                forest_view(acc@),
            ) == include_fold(doc0, model, Seq::empty()),
    {
        let ghost rest = model.subrange(i as int, model.len() as int);
        proof {
            assert(rest[0] == sels@[i as int]@);
            assert(rest.subrange(1, rest.len() as int) =~= model.subrange(
                i + 1,
                model.len() as int,
            ));
        }
        match parse_selector(sels[i].as_str()) {
            Some(sel) => {
                let st = crate::query::init_state_exec(&sel);
                let mut kept: Vec<Node> = Vec::new();
                ex_forest_exec(&d, &sel, &st, &mut acc, &mut kept);
                d = kept;
                proof {
                    assert(forest_view(Seq::<Node>::empty()) == Seq::<NodeM>::empty());
                    assert(Seq::<NodeM>::empty() + ex_forest(
                        forest_view(d@),
                        sel@,
                        st@,
                    ).1 =~= ex_forest(forest_view(d@), sel@, st@).1);
                }
            },
            None => {
                proof {
                    assert(include_fold(
                        forest_view(d@),
                        rest,
                        forest_view(acc@),
                    ) is None);
                    assert(include_spec(doc0, model) is None);
                }
                return Err(ExtractError::Selector);
            },
        }
    }
    proof {
        assert(model.subrange(model.len() as int, model.len() as int)
            =~= Seq::<Seq<char>>::empty());
    }
    let ghost accm = forest_view(acc@);
    proof {
        assert(include_fold(doc0, model, Seq::empty()) == Some((accm, forest_view(d@))));
    }
    // build the fresh container document around the gathered matches
    let div = Node::Element(Elem { name: str_to_chars("div"), attrs: Vec::new(), children: acc });
    let ghost divm = node_view(div);
    proof {
        assert(crate::dom::attrs_view(Seq::<Attr>::empty()) =~= Seq::<crate::dom::AttrM>::empty());
        assert(divm =~~= NodeM::Element(
            ElemM { name: "div"@, attrs: Seq::empty(), children: accm },
        ));
    }
    let mut body_children: Vec<Node> = Vec::new();
    proof {
        forest_view_push(body_children@, div);
        assert(forest_view(Seq::<Node>::empty()) == Seq::<NodeM>::empty());
    }
    body_children.push(div);
    proof {
        assert(forest_view(body_children@) =~= seq![divm]);
    }
    let body = Node::Element(
        Elem { name: str_to_chars("body"), attrs: Vec::new(), children: body_children },
    );
    let ghost bodym = node_view(body);
    proof {
        assert(crate::dom::attrs_view(Seq::<Attr>::empty()) =~= Seq::<crate::dom::AttrM>::empty());
        assert(bodym =~~= NodeM::Element(
            ElemM { name: "body"@, attrs: Seq::empty(), children: seq![divm] },
        ));
    }
    let head = Node::Element(
        Elem { name: str_to_chars("head"), attrs: Vec::new(), children: Vec::new() },
    );
    let ghost headm = node_view(head);
    proof {
        assert(crate::dom::attrs_view(Seq::<Attr>::empty()) =~= Seq::<crate::dom::AttrM>::empty());
        assert(forest_view(Seq::<Node>::empty()) == Seq::<NodeM>::empty());
        assert(headm =~~= NodeM::Element(
            ElemM { name: "head"@, attrs: Seq::empty(), children: Seq::empty() },
        ));
    }
    let mut html_children: Vec<Node> = Vec::new();
    proof {
        forest_view_push(html_children@, head);
    }
    html_children.push(head);
    proof {
        forest_view_push(html_children@, body);
    }
    html_children.push(body);
    proof {
        assert(forest_view(html_children@) =~= seq![headm, bodym]);
    }
    let html = Node::Element(
        Elem { name: str_to_chars("html"), attrs: Vec::new(), children: html_children },
    );
    let ghost htmlm = node_view(html);
    proof {
        assert(crate::dom::attrs_view(Seq::<Attr>::empty()) =~= Seq::<crate::dom::AttrM>::empty());
        assert(htmlm =~~= include_container(accm));
    }
    let mut out: Vec<Node> = Vec::new();
    proof {
        forest_view_push(out@, html);
    }
    out.push(html);
    proof {
        assert(forest_view(out@) =~= seq![htmlm]);
        assert(forest_view(out@) =~~= seq![include_container(accm)]);
    }
    Ok(out)
}

/// What the transform pipeline returns for a parsed document and options:
/// resolve the base URL, apply the include filter, the structural strip, the
/// fingerprint pruning and explicit excludes, remove noise when only main
/// content is wanted, resolve srcsets, absolutize `img[src]` and `a[href]`,
/// and serialize.
pub open spec fn transform_spec(doc: Seq<NodeM>, o: TransformOptsM) -> Result<
    Seq<char>,
    ExtractError,
> {
    match parse_url(o.url) {
        None => Err(ExtractError::UrlParse),
        Some(u) => {
            let base = crate::urlres::resolved_base(doc, u);
            match parse_url(base) {
                None => Err(ExtractError::UrlParse),
                Some(b) => match include_spec(doc, o.include_tags) {
                    None => Err(ExtractError::Selector),
                    Some(d1) => {
                        let d2 = strip_spec(d1);
                        let d3 = if o.only_main_content && o.omce_signatures is Some {
                            omce_forest(d2, o.omce_signatures->0)
                        } else {
                            d2
                        };
                        match exclude_spec(d3, o.exclude_tags) {
                            None => Err(ExtractError::Selector),
                            Some(d4) => {
                                let d5 = if o.only_main_content {
                                    noise_spec(d4, 0)
                                } else {
                                    d4
                                };
                                let d6 = srcset_forest(d5);
                                let d7 = abs_forest(d6, "img"@, "src"@, b);
                                let d8 = abs_forest(d7, "a"@, "href"@, b);
                                Ok(crate::serialize::ser_forest(d8))
                            },
                        }
                    },
                },
            }
        },
    }
}

/// Convert a string list into character vectors.
fn strings_to_texts(v: &Vec<String>) -> (r: Vec<Vec<char>>)
    ensures
        crate::text::texts_view(r@) == crate::text::strings_view(v@),
{
    let mut out: Vec<Vec<char>> = Vec::new();
    for i in 0..v.len()
        invariant
            crate::text::texts_view(out@) == crate::text::strings_view(v@).take(i as int),
    {
        let item = str_to_chars(v[i].as_str());
        proof {
            crate::text::texts_view_push(out@, item);
        }
        out.push(item);
        proof {
            assert(crate::text::strings_view(v@)[i as int] == v@[i as int]@);
            assert(crate::text::texts_view(out@) =~= crate::text::strings_view(v@).take(i + 1));
        }
    }
    proof {
        assert(crate::text::strings_view(v@).take(crate::text::strings_view(v@).len() as int)
            =~= crate::text::strings_view(v@));
    }
    out
}

/// Transform a parsed document under the given options.
///
/// The result is exactly `transform_spec` of the document's model: a URL
/// that does not parse (the page URL, or a resolved base that does not
/// re-parse) is a `UrlParse` error; an include selector that does not parse
/// is a `Selector` error; otherwise the cleaned document's markup.
pub fn transform_document(doc: &Document, opts: &TransformHtmlOptions) -> (r: Result<
    String,
    ExtractError,
>)
    ensures
        match r {
            Ok(out) => transform_spec(doc@, opts@) == Ok::<Seq<char>, ExtractError>(out@),
            Err(e) => transform_spec(doc@, opts@) == Err::<Seq<char>, ExtractError>(e),
        },
{
    let base = match crate::urlres::extract_base_href_doc(doc, opts.url.as_str()) {
        Ok(b) => b,
        Err(e) => {
            return Err(e);
        },
    };
    let bstr = match crate::urlres::parse_url_checked(base.as_str()) {
        Some(b) => b,
        None => {
            return Err(ExtractError::UrlParse);
        },
    };
    let d0 = crate::dom::clone_nodes(&doc.children);
    let d1 = match include_exec(d0, &opts.include_tags) {
        Ok(d) => d,
        Err(e) => {
            return Err(e);
        },
    };
    let d2 = strip_exec(&d1);
    let d3 = if opts.only_main_content {
        match &opts.omce_signatures {
            Some(sigs) => {
                let sigv = strings_to_texts(sigs);
                omce_exec(&d2, &sigv)
            },
            None => d2,
        }
    } else {
        d2
    };
    let d4 = match exclude_exec(d3, &opts.exclude_tags) {
        Ok(d) => d,
        Err(e) => {
            return Err(e);
        },
    };
    let d5 = if opts.only_main_content {
        noise_exec(d4)
    } else {
        d4
    };
    let d6 = srcset_forest_exec(&d5);
    let img_tag = str_to_chars("img");
    let src_attr = str_to_chars("src");
    let a_tag = str_to_chars("a");
    let href_attr = str_to_chars("href");
    let d7 = abs_forest_exec(&d6, &img_tag, &src_attr, bstr.as_str());
    let d8 = abs_forest_exec(&d7, &a_tag, &href_attr, bstr.as_str());
    let out = crate::serialize::serialize_doc(&d8);
    Ok(crate::text::chars_to_string(&out))
}

/// Transform raw markup under the given options: parse leniently, then run
/// the pipeline over the parsed tree.
pub fn transform_html(opts: &TransformHtmlOptions) -> (r: Result<String, ExtractError>)
    ensures
        (match r {
            Ok(out) => transform_spec(crate::bridge::dom_of(opts.html@), opts@) == Ok::<
                Seq<char>,
                ExtractError,
            >(out@),
            Err(e) => transform_spec(crate::bridge::dom_of(opts.html@), opts@) == Err::<
                Seq<char>,
                ExtractError,
            >(e),
        }),
{
    let doc = crate::bridge::parse_document(opts.html.as_str());
    transform_document(&doc, opts)
}


/// The shape of a node: the tree with every attribute list erased.
pub open spec fn shape_node(n: NodeM) -> NodeM
    decreases n,
{
    match n {
        NodeM::Element(e) => NodeM::Element(
            ElemM { name: e.name, attrs: Seq::empty(), children: shape_forest(e.children) },
        ),
        _ => n,
    }
}

/// The shape of a forest.
pub open spec fn shape_forest(ns: Seq<NodeM>) -> Seq<NodeM>
    decreases ns,
{
    if ns.len() == 0 {
        Seq::empty()
    } else {
        seq![shape_node(ns[0])] + shape_forest(ns.subrange(1, ns.len() as int))
    }
}

/// Srcset resolution never adds or removes a node.
pub proof fn lemma_srcset_keeps_shape(ns: Seq<NodeM>)
    ensures
        shape_forest(srcset_forest(ns)) == shape_forest(ns),
    decreases ns, 1int,
{
    if ns.len() == 0 {
        assert(shape_forest(srcset_forest(ns)) =~= shape_forest(ns));
    } else {
        lemma_srcset_keeps_shape_node(ns[0]);
        lemma_srcset_keeps_shape(ns.subrange(1, ns.len() as int));
        let sf = srcset_forest(ns);
        assert(sf[0] == srcset_node(ns[0]));
        assert(sf.subrange(1, sf.len() as int) =~= srcset_forest(
            ns.subrange(1, ns.len() as int),
        ));
        assert(shape_forest(srcset_forest(ns)) =~= shape_forest(ns));
    }
}

/// Srcset resolution keeps a node's shape.
proof fn lemma_srcset_keeps_shape_node(n: NodeM)
    ensures
        shape_node(srcset_node(n)) == shape_node(n),
    decreases n, 0int,
{
    match n {
        NodeM::Element(e) => {
            lemma_srcset_keeps_shape(e.children);
            assert(shape_node(srcset_node(n)) =~~= shape_node(n));
        },
        _ => {},
    }
}

/// URL absolutization never adds or removes a node.
pub proof fn lemma_abs_keeps_shape(ns: Seq<NodeM>, tag: Seq<char>, attr: Seq<char>, base: Seq<char>)
    ensures
        shape_forest(abs_forest(ns, tag, attr, base)) == shape_forest(ns),
    decreases ns, 1int,
{
    if ns.len() == 0 {
        assert(shape_forest(abs_forest(ns, tag, attr, base)) =~= shape_forest(ns));
    } else {
        lemma_abs_keeps_shape_node(ns[0], tag, attr, base);
        lemma_abs_keeps_shape(ns.subrange(1, ns.len() as int), tag, attr, base);
        let af = abs_forest(ns, tag, attr, base);
        assert(af[0] == abs_node(ns[0], tag, attr, base));
        assert(af.subrange(1, af.len() as int) =~= abs_forest(
            ns.subrange(1, ns.len() as int),
            tag,
            attr,
            base,
        ));
        assert(shape_forest(abs_forest(ns, tag, attr, base)) =~= shape_forest(ns));
    }
}

/// URL absolutization keeps a node's shape.
proof fn lemma_abs_keeps_shape_node(n: NodeM, tag: Seq<char>, attr: Seq<char>, base: Seq<char>)
    ensures
        shape_node(abs_node(n, tag, attr, base)) == shape_node(n),
    decreases n, 0int,
{
    match n {
        NodeM::Element(e) => {
            lemma_abs_keeps_shape(e.children, tag, attr, base);
            assert(shape_node(abs_node(n, tag, attr, base)) =~~= shape_node(n));
        },
        _ => {},
    }
}

/// Without only-main-content, and with no include or exclude selectors, the
/// transform removes nothing beyond the structural strip: every stage after
/// the strip keeps the tree's shape, so the serialized forest holds exactly
/// the stripped input's elements, with only `img[src]` and `a[href]`
/// attribute values rewritten.
pub proof fn lemma_no_removal_without_main_content(doc: Seq<NodeM>, o: TransformOptsM, b: Seq<
    char,
>)
    requires
        !o.only_main_content,
        o.include_tags.len() == 0,
        o.exclude_tags.len() == 0,
    ensures
        include_spec(doc, o.include_tags) == Some(doc),
        exclude_spec(strip_spec(doc), o.exclude_tags) == Some(strip_spec(doc)),
        shape_forest(
            abs_forest(
                abs_forest(srcset_forest(strip_spec(doc)), "img"@, "src"@, b),
                "a"@,
                "href"@,
                b,
            ),
        ) == shape_forest(strip_spec(doc)),
{
    let d2 = strip_spec(doc);
    lemma_srcset_keeps_shape(d2);
    lemma_abs_keeps_shape(srcset_forest(d2), "img"@, "src"@, b);
    lemma_abs_keeps_shape(abs_forest(srcset_forest(d2), "img"@, "src"@, b), "a"@, "href"@, b);
}


/// An element with `d`'s name and attributes, still carrying a
/// selector-detected attribution mark, stands somewhere in the forest.
pub open spec fn noise_survivor(out: Seq<NodeM>, d: ElemM) -> bool {
    exists|e: ElemM|
        #[trigger] crate::attribution::in_forest(NodeM::Element(e), out) && e.name == d.name
            && e.attrs == d.attrs && crate::attribution::any_sel_node(NodeM::Element(e))
}

/// A noise-matched element that carries attribution and no force-include
/// veto is kept and pruned, never detached.
pub proof fn lemma_noise_match_prunes(e: ElemM, c: CompoundM)
    requires
        compound_matches(e, c),
        !any_force(NodeM::Element(e)),
        contains_attribution(NodeM::Element(e)),
    ensures
        noise_node_sp(NodeM::Element(e), c) == seq![NodeM::Element(prune_elem(e))],
{
}

/// One noise pass keeps every selector-attributed element of a subtree: an
/// element whose attribution the fixed selector rules detect (on itself or
/// a descendant) survives the pass under its own name and attributes, still
/// selector-attributed — pruned when a noise match above it was kept for
/// attribution, recursively processed otherwise.
proof fn lemma_noise_pass_keeps_node(n: NodeM, c: CompoundM, d: ElemM)
    requires
        crate::attribution::in_tree(NodeM::Element(d), n),
        crate::attribution::any_sel_node(NodeM::Element(d)),
    ensures
        noise_survivor(noise_node_sp(n, c), d),
    decreases n,
{
    let dn = NodeM::Element(d);
    match n {
        NodeM::Element(e) => {
            crate::attribution::any_sel_member(dn, n);
            assert(contains_attribution(n));
            if compound_matches(e, c) && !any_force(n) {
                // the match is kept for attribution: the pruner applies
                if dn == n {
                    let p = prune_elem(e);
                    lemma_sel_attribution_survives_prune(e);
                    crate::attribution::in_forest_head(
                        NodeM::Element(p),
                        seq![NodeM::Element(p)],
                    );
                    assert(crate::attribution::in_forest(
                        NodeM::Element(p),
                        noise_node_sp(n, c),
                    ) && p.name == d.name && p.attrs == d.attrs
                        && crate::attribution::any_sel_node(NodeM::Element(p)));
                } else {
                    crate::attribution::lemma_prune_keeps_attribution(d, e);
                    let p = prune_elem(d);
                    lemma_sel_attribution_survives_prune(d);
                    crate::attribution::in_forest_head(
                        NodeM::Element(prune_elem(e)),
                        seq![NodeM::Element(prune_elem(e))],
                    );
                    assert(crate::attribution::in_forest(
                        NodeM::Element(p),
                        noise_node_sp(n, c),
                    ) && p.name == d.name && p.attrs == d.attrs
                        && crate::attribution::any_sel_node(NodeM::Element(p)));
                }
            } else {
                // no match, or a force-include veto: the element is rebuilt
                // with its children processed
                let kept = noise_forest_sp(e.children, c);
                let rebuilt = NodeM::Element(
                    ElemM { name: e.name, attrs: e.attrs, children: kept },
                );
                assert(noise_node_sp(n, c) == seq![rebuilt]);
                if dn == n {
                    lemma_sel_attribution_survives_pass(e, c);
                    crate::attribution::in_forest_head(rebuilt, seq![rebuilt]);
                    assert(crate::attribution::in_forest(rebuilt, noise_node_sp(n, c))
                        && crate::attribution::any_sel_node(rebuilt));
                } else {
                    lemma_noise_pass_keeps_forest(e.children, c, d);
                    let w = choose|w: ElemM|
                        #[trigger] crate::attribution::in_forest(NodeM::Element(w), kept)
                            && w.name == d.name && w.attrs == d.attrs
                            && crate::attribution::any_sel_node(NodeM::Element(w));
                    assert(crate::attribution::in_tree(NodeM::Element(w), rebuilt));
                    crate::attribution::in_forest_head(NodeM::Element(w), seq![rebuilt]);
                    assert(crate::attribution::in_forest(
                        NodeM::Element(w),
                        noise_node_sp(n, c),
                    ) && w.name == d.name && w.attrs == d.attrs
                        && crate::attribution::any_sel_node(NodeM::Element(w)));
                }
            }
        },
        _ => {},
    }
}

/// One noise pass keeps every selector-attributed element of a forest.
proof fn lemma_noise_pass_keeps_forest(ns: Seq<NodeM>, c: CompoundM, d: ElemM)
    requires
        crate::attribution::in_forest(NodeM::Element(d), ns),
        crate::attribution::any_sel_node(NodeM::Element(d)),
    ensures
        noise_survivor(noise_forest_sp(ns, c), d),
    decreases ns,
{
    let dn = NodeM::Element(d);
    let rest = ns.subrange(1, ns.len() as int);
    if crate::attribution::in_tree(dn, ns[0]) {
        lemma_noise_pass_keeps_node(ns[0], c, d);
        let w = choose|w: ElemM|
            #[trigger] crate::attribution::in_forest(NodeM::Element(w), noise_node_sp(ns[0], c))
                && w.name == d.name && w.attrs == d.attrs && crate::attribution::any_sel_node(
                NodeM::Element(w),
            );
        in_forest_concat_left(NodeM::Element(w), noise_node_sp(ns[0], c), noise_forest_sp(rest, c));
    } else {
        lemma_noise_pass_keeps_forest(rest, c, d);
        let w = choose|w: ElemM|
            #[trigger] crate::attribution::in_forest(NodeM::Element(w), noise_forest_sp(rest, c))
                && w.name == d.name && w.attrs == d.attrs && crate::attribution::any_sel_node(
                NodeM::Element(w),
            );
        crate::attribution::in_forest_concat_right(
            NodeM::Element(w),
            noise_node_sp(ns[0], c),
            noise_forest_sp(rest, c),
        );
    }
}

/// Membership in the left part of a concatenation.
proof fn in_forest_concat_left(d: NodeM, a: Seq<NodeM>, b: Seq<NodeM>)
    requires
        crate::attribution::in_forest(d, a),
    ensures
        crate::attribution::in_forest(d, a + b),
    decreases a,
{
    let rest = a.subrange(1, a.len() as int);
    assert((a + b)[0] == a[0]);
    if crate::attribution::in_tree(d, a[0]) {
    } else {
        in_forest_concat_left(d, rest, b);
        assert((a + b).subrange(1, (a + b).len() as int) =~= rest + b);
    }
}

/// A selector-attributed element stays selector-attributed after pruning:
/// the witness element the rules match survives the pruner with its name and
/// attributes, which are all the rules read.
proof fn lemma_sel_attribution_survives_prune(e: ElemM)
    requires
        crate::attribution::any_sel_node(NodeM::Element(e)),
    ensures
        crate::attribution::any_sel_node(NodeM::Element(prune_elem(e))),
{
    let p = prune_elem(e);
    if crate::attribution::attr_sel_match(e) {
        assert(crate::attribution::attr_sel_match(p));
    } else {
        crate::attribution::any_sel_witness_forest(e.children);
        let w = choose|w: ElemM|
            #[trigger] crate::attribution::in_forest(NodeM::Element(w), e.children)
                && crate::attribution::attr_sel_match(w);
        assert(crate::attribution::in_tree(NodeM::Element(w), NodeM::Element(e)));
        assert(crate::attribution::strong_attribution(NodeM::Element(w)));
        crate::attribution::lemma_prune_keeps_attribution(w, e);
        let pw = prune_elem(w);
        assert(crate::attribution::attr_sel_match(pw));
        crate::attribution::any_sel_member(NodeM::Element(pw), NodeM::Element(p));
    }
}

/// A selector-attributed element stays selector-attributed after one noise
/// pass over its children.
proof fn lemma_sel_attribution_survives_pass(e: ElemM, c: CompoundM)
    requires
        crate::attribution::any_sel_node(NodeM::Element(e)),
    ensures
        crate::attribution::any_sel_node(
            NodeM::Element(
                ElemM { name: e.name, attrs: e.attrs, children: noise_forest_sp(e.children, c) },
            ),
        ),
    decreases e,
{
    let rebuilt = NodeM::Element(
        ElemM { name: e.name, attrs: e.attrs, children: noise_forest_sp(e.children, c) },
    );
    if crate::attribution::attr_sel_match(e) {
        assert(crate::attribution::any_sel_node(rebuilt));
    } else {
        crate::attribution::any_sel_witness_forest(e.children);
        let w = choose|w: ElemM|
            #[trigger] crate::attribution::in_forest(NodeM::Element(w), e.children)
                && crate::attribution::attr_sel_match(w);
        lemma_noise_pass_keeps_forest(e.children, c, w);
        let w2 = choose|w2: ElemM|
            #[trigger] crate::attribution::in_forest(
                NodeM::Element(w2),
                noise_forest_sp(e.children, c),
            ) && w2.name == w.name && w2.attrs == w.attrs && crate::attribution::any_sel_node(
                NodeM::Element(w2),
            );
        crate::attribution::any_sel_member(NodeM::Element(w2), rebuilt);
    }
}

/// The noise stage, end to end, keeps every selector-attributed element:
/// with only-main-content on, an element that the fixed attribution selector
/// rules mark (on itself or a descendant) stands in the stage's output under
/// its own name and attributes — kept pruned where a noise match above it
/// carried attribution, never detached. The one attribution signal this does
/// not cover, in the pipeline's own behaviour too, is text: a text match can
/// straddle two non-attributed children, which pruning inside an enclosing
/// kept match may separate; and a node whose only mark is its own
/// upper-case `class` is seen by its own check but not by its ancestors'.
pub proof fn lemma_noise_stage_keeps_attribution(doc: Seq<NodeM>, i: int, d: ElemM)
    requires
        crate::attribution::in_forest(NodeM::Element(d), doc),
        crate::attribution::any_sel_node(NodeM::Element(d)),
    ensures
        noise_survivor(noise_spec(doc, i), d),
    decreases noise_names().len() - i,
{
    if i < 0 || i >= noise_names().len() {
        assert(noise_spec(doc, i) == doc);
        assert(crate::attribution::in_forest(NodeM::Element(d), doc) && d.name == d.name
            && d.attrs == d.attrs && crate::attribution::any_sel_node(NodeM::Element(d)));
    } else {
        let c = simple_sel_spec(noise_names()[i]);
        lemma_noise_pass_keeps_forest(doc, c, d);
        let w = choose|w: ElemM|
            #[trigger] crate::attribution::in_forest(NodeM::Element(w), noise_forest_sp(doc, c))
                && w.name == d.name && w.attrs == d.attrs && crate::attribution::any_sel_node(
                NodeM::Element(w),
            );
        lemma_noise_stage_keeps_attribution(noise_forest_sp(doc, c), i + 1, w);
        let w2 = choose|w2: ElemM|
            #[trigger] crate::attribution::in_forest(
                NodeM::Element(w2),
                noise_spec(noise_forest_sp(doc, c), i + 1),
            ) && w2.name == w.name && w2.attrs == w.attrs && crate::attribution::any_sel_node(
                NodeM::Element(w2),
            );
        assert(w2.name == d.name && w2.attrs == d.attrs);
    }
}

} // verus!
