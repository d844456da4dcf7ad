//! Attribute extraction: for each requested selector, the values of one
//! attribute over its matches, with a `data-`-prefixed fallback.

use vstd::prelude::*;

use crate::dom::{attr_of, Document, ElemM, NodeM};
use crate::query::{query_doc, query_doc_exec, elems_view};
use crate::selector::{parse_selector, parse_selector_spec};
use crate::text::{
    chars_to_string, concat_from, starts_with, starts_with_exec, str_to_chars, strings_view,
};

verus! {

broadcast use vstd::std_specs::vec::axiom_vec_index_decreases;

/// One requested selector-attribute pair.
///
/// The selector language is the one `src/selector.rs` accepts: a tag name,
/// `.class`, `#id`, `[attr]`, `[attr=value]`, `[attr*=value]`, compounds and
/// the descendant combinator. Any other selector yields an empty value list
/// for its entry.
pub struct AttributeSelector {
    pub selector: String,
    pub attribute: String,
}

/// The request: a list of selector-attribute pairs.
pub struct ExtractAttributesOptions {
    pub selectors: Vec<AttributeSelector>,
}

/// One result: the request echoed back with the values found, in match
/// order.
pub struct ExtractedAttributeResult {
    pub selector: String,
    pub attribute: String,
    pub values: Vec<String>,
}

/// Model of a request pair.
#[verifier::ext_equal]
pub struct AttributeSelectorM {
    pub selector: Seq<char>,
    pub attribute: Seq<char>,
}

impl View for AttributeSelector {
    type V = AttributeSelectorM;

    open spec fn view(&self) -> AttributeSelectorM {
        AttributeSelectorM { selector: self.selector@, attribute: self.attribute@ }
    }
}

/// Model of a result entry.
#[verifier::ext_equal]
pub struct ExtractedAttributeResultM {
    pub selector: Seq<char>,
    pub attribute: Seq<char>,
    pub values: Seq<Seq<char>>,
}

impl View for ExtractedAttributeResult {
    type V = ExtractedAttributeResultM;

    open spec fn view(&self) -> ExtractedAttributeResultM {
        ExtractedAttributeResultM {
            selector: self.selector@,
            attribute: self.attribute@,
            values: strings_view(self.values@),
        }
    }
}

/// Model of a request list.
pub open spec fn selectors_view(vs: Seq<AttributeSelector>) -> Seq<AttributeSelectorM> {
    vs.map_values(|s: AttributeSelector| s@)
}

impl View for ExtractAttributesOptions {
    type V = Seq<AttributeSelectorM>;

    open spec fn view(&self) -> Seq<AttributeSelectorM> {
        selectors_view(self.selectors@)
    }
}

/// Model of a result list.
pub open spec fn results_view(vs: Seq<ExtractedAttributeResult>) -> Seq<
    ExtractedAttributeResultM,
> {
    vs.map_values(|s: ExtractedAttributeResult| s@)
}

/// The value one element contributes: the attribute itself, or, unless the
/// attribute already starts with `data-`, its `data-`-prefixed variant.
pub open spec fn elem_value(e: ElemM, attr: Seq<char>) -> Option<Seq<char>> {
    match attr_of(e.attrs, attr) {
        Some(v) => Some(v),
        None => {
            if !starts_with(attr, "data-"@) {
                attr_of(e.attrs, "data-"@ + attr)
            } else {
                None
            }
        },
    }
}

/// The values of a list of matches.
pub open spec fn values_of(q: Seq<ElemM>, attr: Seq<char>) -> Seq<Seq<char>>
    decreases q.len(),
{
    if q.len() == 0 {
        Seq::empty()
    } else {
        (match elem_value(q[0], attr) {
            Some(v) => seq![v],
            None => Seq::<Seq<char>>::empty(),
        }) + values_of(q.subrange(1, q.len() as int), attr)
    }
}

/// Splitting a match list splits its values.
proof fn values_of_concat(a: Seq<ElemM>, b: Seq<ElemM>, attr: Seq<char>)
    ensures
        values_of(a + b, attr) == values_of(a, attr) + values_of(b, attr),
    decreases a.len(),
{
    if a.len() == 0 {
        assert(a + b =~= b);
        assert(values_of(a, attr) + values_of(b, attr) =~= values_of(b, attr));
    } else {
        values_of_concat(a.subrange(1, a.len() as int), b, attr);
        assert((a + b).subrange(1, (a + b).len() as int) =~= a.subrange(1, a.len() as int) + b);
        assert(values_of(a + b, attr) =~= values_of(a, attr) + values_of(b, attr));
    }
}

/// The values one request yields: an invalid selector yields an empty list
/// rather than failing the whole call.
pub open spec fn request_values(doc: Seq<NodeM>, sel: Seq<char>, attr: Seq<char>) -> Seq<
    Seq<char>,
> {
    match parse_selector_spec(sel) {
        Some(s) => values_of(query_doc(doc, s), attr),
        None => Seq::empty(),
    }
}

/// What attribute extraction returns for every request, in request order.
pub open spec fn extract_attrs_spec(doc: Seq<NodeM>, reqs: Seq<AttributeSelectorM>) -> Seq<
    ExtractedAttributeResultM,
>
    decreases reqs.len(),
{
    if reqs.len() == 0 {
        Seq::empty()
    } else {
        seq![
            ExtractedAttributeResultM {
                selector: reqs[0].selector,
                attribute: reqs[0].attribute,
                values: request_values(doc, reqs[0].selector, reqs[0].attribute),
            },
        ] + extract_attrs_spec(doc, reqs.subrange(1, reqs.len() as int))
    }
}

/// The values one request yields, executable form.
fn request_values_exec(doc: &Vec<crate::dom::Node>, sel: &str, attr: &str) -> (r: Vec<String>)
    ensures
        strings_view(r@) == request_values(crate::dom::forest_view(doc@), sel@, attr@),
{
    let parsed = match parse_selector(sel) {
        Some(s) => s,
        None => {
            proof {
                assert(strings_view(Seq::<String>::empty()) =~= Seq::<Seq<char>>::empty());
            }
            return Vec::new();
        },
    };
    let attr_v = str_to_chars(attr);
    let data_prefix = str_to_chars("data-");
    let data_attr = concat_from(&data_prefix, &attr_v, 0);
    proof {
        assert(attr_v@.subrange(0, attr_v@.len() as int) =~= attr_v@);
        assert(data_attr@ == "data-"@ + attr@);
    }
    let q = query_doc_exec(doc, &parsed);
    let ghost qm = elems_view(q@);
    let mut out: Vec<String> = Vec::new();
    proof {
        assert(strings_view(out@) + values_of(qm.take(0), attr@) =~= strings_view(out@));
    }
    for i in 0..q.len()
        invariant
            qm == elems_view(q@),
            qm.len() == q@.len(),
            attr_v@ == attr@,
            data_prefix@ == "data-"@,
            data_attr@ == "data-"@ + attr@,
            strings_view(out@) == values_of(qm.take(i as int), attr@),
    {
        proof {
            assert(qm[i as int] == q@[i as int]@);
        }
        let picked: Option<Vec<char>> = match q[i].get_attr(&attr_v) {
            Some(v) => Some(v),
            None => {
                if !starts_with_exec(&attr_v, &data_prefix) {
                    q[i].get_attr(&data_attr)
                } else {
                    None
                }
            },
        };
        proof {
            reveal_strlit("data-");
        }
        match picked {
            Some(v) => {
                let item = chars_to_string(&v);
                proof {
                    crate::text::strings_view_push(out@, item);
                }
                out.push(item);
            },
            None => {},
        }
        proof {
            values_of_concat(qm.take(i as int), seq![qm[i as int]], attr@);
            assert(qm.take(i as int) + seq![qm[i as int]] =~= qm.take(i + 1));
            assert(seq![qm[i as int]].subrange(1, 1) =~= Seq::<ElemM>::empty());
            assert(seq![qm[i as int]][0] == qm[i as int]);
            assert(values_of(Seq::<ElemM>::empty(), attr@) == Seq::<Seq<char>>::empty());
            assert(values_of(seq![qm[i as int]], attr@) =~= (match elem_value(
                qm[i as int],
                attr@,
            ) {
                Some(v) => seq![v],
                None => Seq::<Seq<char>>::empty(),
            }));
            assert(strings_view(out@) =~= values_of(qm.take(i + 1), attr@));
        }
    }
    proof {
        assert(qm.take(qm.len() as int) =~= qm);
    }
    out
}

/// Extract the requested attributes from a parsed document. An invalid
/// selector yields an empty value list for that entry; a missing direct
/// attribute falls back to its `data-`-prefixed variant unless the request
/// already asks for a `data-` attribute.
pub fn extract_attributes_doc(doc: &Document, options: &ExtractAttributesOptions) -> (r: Vec<
    ExtractedAttributeResult,
>)
    ensures
        results_view(r@) == extract_attrs_spec(doc@, options@),
{
    let ghost reqs = options@;
    let mut out: Vec<ExtractedAttributeResult> = Vec::new();
    proof {
        assert(results_view(out@) + extract_attrs_spec(doc@, reqs.skip(0)) =~= extract_attrs_spec(
            doc@,
            reqs.skip(0),
        ));
        assert(reqs.skip(0) =~= reqs);
    }
    for i in 0..options.selectors.len()
        invariant
            reqs == options@,
            reqs.len() == options.selectors@.len(),
            results_view(out@) + extract_attrs_spec(
                doc@,
                reqs.skip(i as int),
            ) == extract_attrs_spec(doc@, reqs),
    {
        let ghost rest = reqs.skip(i as int);
        proof {
            assert(rest[0] == options.selectors@[i as int]@);
            assert(rest.subrange(1, rest.len() as int) =~= reqs.skip(i + 1));
        }
        let values = request_values_exec(
            &doc.children,
            options.selectors[i].selector.as_str(),
            options.selectors[i].attribute.as_str(),
        );
        let entry = ExtractedAttributeResult {
            selector: chars_to_string(&str_to_chars(options.selectors[i].selector.as_str())),
            attribute: chars_to_string(&str_to_chars(options.selectors[i].attribute.as_str())),
            values,
        };
        let ghost em = entry@;
        proof {
            assert(results_view(out@.push(entry)) =~= results_view(out@) + seq![em]);
        }
        out.push(entry);
        proof {
            assert(em =~~= ExtractedAttributeResultM {
                selector: rest[0].selector,
                attribute: rest[0].attribute,
                values: request_values(doc@, rest[0].selector, rest[0].attribute),
            });
            assert(results_view(out@) + extract_attrs_spec(doc@, reqs.skip(i + 1))
                =~= extract_attrs_spec(doc@, reqs));
        }
    }
    proof {
        assert(reqs.skip(reqs.len() as int) =~= Seq::<AttributeSelectorM>::empty());
        assert(results_view(out@) =~= extract_attrs_spec(doc@, reqs));
    }
    out
}

/// Extract the requested attributes from markup: one result per request, in
/// request order, over the parsed tree.
pub fn extract_attributes(html: &str, options: &ExtractAttributesOptions) -> (r: Vec<
    ExtractedAttributeResult,
>)
    ensures
        results_view(r@) == extract_attrs_spec(crate::bridge::dom_of(html@), options@),
{
    let doc = crate::bridge::parse_document(html);
    extract_attributes_doc(&doc, options)
}

} // verus!
