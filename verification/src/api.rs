//! The document-level entry points that parse markup and delegate to the
//! verified document functions.

use vstd::prelude::*;

use crate::dom::{texts_of, Document, NodeM};
use crate::errors::ExtractError;
use crate::query::{query_doc, query_doc_exec, elems_view};
use crate::text::chars_to_string;
use crate::urlres::parse_url;

verus! {

/// What body-text extraction returns: the text of the first `body` element,
/// or a missing-element error when there is none.
pub open spec fn inner_text_spec(doc: Seq<NodeM>) -> Result<Seq<char>, ExtractError> {
    let q = query_doc(doc, crate::transform::tag_sel("body"@));
    if q.len() > 0 {
        Ok(texts_of(q[0].children))
    } else {
        Err(ExtractError::MissingElement)
    }
}

/// The text content of the document's `body`; fails exactly when the
/// document has no `body` element.
pub fn get_inner_json_doc(doc: &Document) -> (r: Result<String, ExtractError>)
    ensures
        (match r {
            Ok(s) => inner_text_spec(doc@) == Ok::<Seq<char>, ExtractError>(s@),
            Err(e) => inner_text_spec(doc@) == Err::<Seq<char>, ExtractError>(e),
        }),
{
    let sel = crate::transform::tag_sel_pub("body");
    let q = query_doc_exec(&doc.children, &sel);
    if q.len() > 0 {
        proof {
            assert(elems_view(q@)[0] == q@[0]@);
        }
        let t = crate::dom::texts_of_children(&q[0].children);
        Ok(chars_to_string(&t))
    } else {
        Err(ExtractError::MissingElement)
    }
}

/// The text content of the parsed markup's `body`; fails exactly when the
/// parsed tree has no `body` element.
pub fn get_inner_json(html: &str) -> (r: Result<String, ExtractError>)
    ensures
        (match r {
            Ok(s) => inner_text_spec(crate::bridge::dom_of(html@)) == Ok::<Seq<char>, ExtractError>(
                s@,
            ),
            Err(e) => inner_text_spec(crate::bridge::dom_of(html@)) == Err::<
                Seq<char>,
                ExtractError,
            >(e),
        }),
{
    let doc = crate::bridge::parse_document(html);
    get_inner_json_doc(&doc)
}

/// Resolve the base href of the parsed markup against the page URL; fails
/// exactly when the page URL is not a valid absolute URL, and returns a
/// normalized absolute URL serialization.
pub fn extract_base_href(html: &str, url: &str) -> (r: Result<String, ExtractError>)
    ensures
        (match r {
            Ok(s) => crate::urlres::base_href_spec(crate::bridge::dom_of(html@), url@) == Ok::<
                Seq<char>,
                ExtractError,
            >(s@),
            Err(e) => crate::urlres::base_href_spec(crate::bridge::dom_of(html@), url@) == Err::<
                Seq<char>,
                ExtractError,
            >(e),
        }),
        r is Ok ==> parse_url((r->Ok_0)@) == Some((r->Ok_0)@),
{
    let doc = crate::bridge::parse_document(html);
    crate::urlres::extract_base_href_doc(&doc, url)
}

} // verus!
