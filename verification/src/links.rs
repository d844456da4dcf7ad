//! Link harvesting support: repair of `http:/`-style single-slash prefixes.

use vstd::prelude::*;

use crate::dom::{attr_of, Document, ElemM, NodeM};
use crate::meta::{attrs_of_elems, sel1};
use crate::query::{query_doc, query_doc_exec, elems_view};
use crate::selector::{Compound, Cond, CondM, Selector};
use crate::text::{
    chars_clone, chars_to_string, concat_from, starts_with, starts_with_exec, str_to_chars,
};

verus! {

broadcast use vstd::std_specs::vec::axiom_vec_index_decreases;

/// Repair of a harvested `href` value: a missing second slash after the
/// scheme is inserted (`http:/x` becomes `http://x`, `https:/x` becomes
/// `https://x`); every other value passes through unchanged.
pub open spec fn repair_href(s: Seq<char>) -> Seq<char> {
    if starts_with(s, "http:/"@) && !starts_with(s, "http://"@) {
        "http://"@ + s.subrange(6, s.len() as int)
    } else if starts_with(s, "https:/"@) && !starts_with(s, "https://"@) {
        "https://"@ + s.subrange(7, s.len() as int)
    } else {
        s
    }
}

/// Repair one `href` value, executable form.
pub fn repair_href_exec(href: &Vec<char>) -> (r: Vec<char>)
    ensures
        r@ == repair_href(href@),
{
    let p1 = str_to_chars("http:/");
    let p2 = str_to_chars("http://");
    let p3 = str_to_chars("https:/");
    let p4 = str_to_chars("https://");
    if starts_with_exec(href, &p1) && !starts_with_exec(href, &p2) {
        proof {
            reveal_strlit("http:/");
        }
        concat_from(&p2, href, 6)
    } else if starts_with_exec(href, &p3) && !starts_with_exec(href, &p4) {
        proof {
            reveal_strlit("https:/");
        }
        concat_from(&p4, href, 7)
    } else {
        chars_clone(href)
    }
}

/// Repair one `href` value given and returned as a string.
pub fn repair_href_str(href: &str) -> (r: String)
    ensures
        r@ == repair_href(href@),
{
    let v = str_to_chars(href);
    let out = repair_href_exec(&v);
    chars_to_string(&out)
}


/// Every value repaired.
pub open spec fn repair_all(vs: Seq<Seq<char>>) -> Seq<Seq<char>>
    decreases vs.len(),
{
    if vs.len() == 0 {
        Seq::empty()
    } else {
        seq![repair_href(vs[0])] + repair_all(vs.subrange(1, vs.len() as int))
    }
}

/// What link extraction returns: the `href` of every `a[href]` element, in
/// document order, each repaired.
pub open spec fn links_spec(doc: Seq<NodeM>) -> Seq<Seq<char>> {
    repair_all(
        attrs_of_elems(
            query_doc(doc, sel1(Some("a"@), CondM::Exists { name: "href"@ })),
            "href"@,
        ),
    )
}

/// Extract every link of a parsed document, repaired, in document order.
pub fn extract_links_doc(doc: &Document) -> (r: Vec<String>)
    ensures
        crate::text::strings_view(r@) == links_spec(doc@),
{
    let href = str_to_chars("href");
    let mut conds: Vec<Cond> = Vec::new();
    conds.push(Cond::Exists { name: str_to_chars("href") });
    let mut parts: Vec<Compound> = Vec::new();
    parts.push(Compound { tag: Some(str_to_chars("a")), conds });
    let sel = Selector { parts };
    proof {
        assert(sel@.parts =~~= sel1(Some("a"@), CondM::Exists { name: "href"@ }).parts);
    }
    let q = query_doc_exec(&doc.children, &sel);
    let ghost qm = elems_view(q@);
    let ghost vals = attrs_of_elems(qm, "href"@);
    let mut out: Vec<String> = Vec::new();
    proof {
        assert(qm.take(0) =~= Seq::<ElemM>::empty());
        assert(crate::text::strings_view(out@) + repair_all(vals.take(0))
            =~= crate::text::strings_view(out@));
    }
    for i in 0..q.len()
        invariant
            qm == elems_view(q@),
            qm.len() == q@.len(),
            href@ == "href"@,
            vals == attrs_of_elems(qm, "href"@),
            crate::text::strings_view(out@) == repair_all(
                attrs_of_elems(qm.take(i as int), "href"@),
            ),
    {
        proof {
            assert(qm[i as int] == q@[i as int]@);
        }
        match q[i].get_attr(&href) {
            Some(v) => {
                let fixed = repair_href_exec(&v);
                let item = chars_to_string(&fixed);
                proof {
                    crate::text::strings_view_push(out@, item);
                }
                out.push(item);
            },
            None => {},
        }
        proof {
            crate::meta::attrs_of_elems_concat_pub(qm.take(i as int), seq![qm[i as int]], "href"@);
            assert(qm.take(i as int) + seq![qm[i as int]] =~= qm.take(i + 1));
            assert(seq![qm[i as int]].subrange(1, 1) =~= Seq::<ElemM>::empty());
            assert(seq![qm[i as int]][0] == qm[i as int]);
            assert(attrs_of_elems(Seq::<ElemM>::empty(), "href"@) == Seq::<Seq<char>>::empty());
            repair_all_concat(
                attrs_of_elems(qm.take(i as int), "href"@),
                attrs_of_elems(seq![qm[i as int]], "href"@),
            );
            assert(attrs_of_elems(seq![qm[i as int]], "href"@) =~= (match attr_of(
                qm[i as int].attrs,
                "href"@,
            ) {
                Some(v) => seq![v],
                None => Seq::<Seq<char>>::empty(),
            }));
            assert(repair_all(Seq::<Seq<char>>::empty()) == Seq::<Seq<char>>::empty());
            match attr_of(qm[i as int].attrs, "href"@) {
                Some(v) => {
                    assert(seq![v].subrange(1, 1) =~= Seq::<Seq<char>>::empty());
                    assert(seq![v][0] == v);
                    assert(repair_all(seq![v]) =~= seq![repair_href(v)]);
                },
                None => {},
            }
            assert(crate::text::strings_view(out@) =~= repair_all(
                attrs_of_elems(qm.take(i + 1), "href"@),
            ));
        }
    }
    proof {
        assert(qm.take(qm.len() as int) =~= qm);
    }
    out
}

/// Splitting a value list splits its repairs.
proof fn repair_all_concat(a: Seq<Seq<char>>, b: Seq<Seq<char>>)
    ensures
        repair_all(a + b) == repair_all(a) + repair_all(b),
    decreases a.len(),
{
    if a.len() == 0 {
        assert(a + b =~= b);
        assert(repair_all(a) + repair_all(b) =~= repair_all(b));
    } else {
        repair_all_concat(a.subrange(1, a.len() as int), b);
        assert((a + b).subrange(1, (a + b).len() as int) =~= a.subrange(1, a.len() as int) + b);
        assert(repair_all(a + b) =~= repair_all(a) + repair_all(b));
    }
}

/// Extract links from markup: the repaired `href` of every `a[href]` of the
/// parsed tree, in document order; empty input yields an empty list.
pub fn extract_links(html: Option<&str>) -> (r: Vec<String>)
    ensures
        (match html {
            Some(h) => crate::text::strings_view(r@) == links_spec(crate::bridge::dom_of(h@)),
            None => r@.len() == 0,
        }),
{
    match html {
        Some(h) => {
            let doc = crate::bridge::parse_document(h);
            extract_links_doc(&doc)
        },
        None => Vec::new(),
    }
}

} // verus!
