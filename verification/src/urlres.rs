//! URL resolution: parsing the page URL, resolving the document's base href,
//! and absolutizing attribute values against it.

use vstd::prelude::*;

use crate::dom::{attr_of, Document, NodeM};
use crate::errors::ExtractError;
use crate::query::{query_doc, query_doc_exec, elems_view};
use crate::selector::{Compound, Cond, CondM, CompoundM, Selector, SelectorM};
use crate::text::str_to_chars;

verus! {

/// The serialization of the URL that `s` parses to, when `s` parses as an
/// absolute URL under the WHATWG rules.
pub uninterp spec fn parse_url(s: Seq<char>) -> Option<Seq<char>>;

/// The serialization of the URL that `rel` resolves to against the absolute
/// URL `base`, under the WHATWG join.
pub uninterp spec fn join_url(base: Seq<char>, rel: Seq<char>) -> Option<Seq<char>>;

/// Relies on `url::Url::parse`: parsing an absolute URL string. The result
/// is the parsed URL's serialization, which is normalized: parsing it again
/// yields the same URL, hence the same serialization.
#[verifier::external_body]
fn parse_url_exec(s: &str) -> (r: Option<String>)
    ensures
        (match r {
            Some(u) => parse_url(s@) == Some(u@),
            None => parse_url(s@) is None,
        }),
        (match r {
            Some(u) => parse_url(u@) == Some(u@),
            None => true,
        }),
{
    match url::Url::parse(s) {
        Ok(u) => Some(u.as_str().to_owned()),
        Err(_) => None,
    }
}

/// Relies on `url::Url::join` (with `url::Url::parse` for the base):
/// resolving a reference against an absolute base URL. The result is a
/// normalized absolute URL serialization, so parsing it yields it back; and
/// a reference that is itself such a serialization carries a scheme, so the
/// join ignores the base and returns the reference.
#[verifier::external_body]
fn join_url_exec(base: &str, rel: &str) -> (r: Option<String>)
    requires
        parse_url(base@) is Some,
    ensures
        (match r {
            Some(u) => join_url(base@, rel@) == Some(u@) && parse_url(u@) == Some(u@),
            None => join_url(base@, rel@) is None,
        }),
        (parse_url(rel@) == Some(rel@) ==> match r {
            Some(u) => u@ == rel@,
            None => false,
        }),
{
    match url::Url::parse(base) {
        Ok(b) => match b.join(rel) {
            Ok(u) => Some(u.as_str().to_owned()),
            Err(_) => None,
        },
        Err(_) => None,
    }
}

/// The selector `base[href]`.
pub open spec fn base_sel() -> SelectorM {
    SelectorM {
        parts: seq![
            CompoundM { tag: Some("base"@), conds: seq![CondM::Exists { name: "href"@ }] },
        ],
    }
}

/// Build the `base[href]` selector.
fn base_sel_exec() -> (r: Selector)
    ensures
        r@ == base_sel(),
{
    let mut conds: Vec<Cond> = Vec::new();
    conds.push(Cond::Exists { name: str_to_chars("href") });
    let mut parts: Vec<Compound> = Vec::new();
    parts.push(Compound { tag: Some(str_to_chars("base")), conds });
    let r = Selector { parts };
    proof {
        assert(r@.parts =~~= base_sel().parts);
    }
    r
}

/// The `href` of the document's first `base[href]` element, if any.
pub open spec fn first_base_href(doc: Seq<NodeM>) -> Option<Seq<char>> {
    let q = query_doc(doc, base_sel());
    if q.len() > 0 {
        attr_of(q[0].attrs, "href"@)
    } else {
        None
    }
}

/// The resolved base of a document against the parsed page URL `u`: the
/// first `base[href]` resolved against `u` when that succeeds, else `u`.
pub open spec fn resolved_base(doc: Seq<NodeM>, u: Seq<char>) -> Seq<char> {
    match first_base_href(doc) {
        Some(h) => match join_url(u, h) {
            Some(b) => b,
            None => u,
        },
        None => u,
    }
}

/// What extracting the base href returns for a document and a page URL.
pub open spec fn base_href_spec(doc: Seq<NodeM>, url: Seq<char>) -> Result<
    Seq<char>,
    ExtractError,
> {
    match parse_url(url) {
        Some(u) => Ok(resolved_base(doc, u)),
        None => Err(ExtractError::UrlParse),
    }
}

/// Resolve the document's base href against the page URL.
///
/// Fails exactly when the page URL itself is not a valid absolute URL; a
/// `base[href]` that does not resolve leaves the page URL in effect. The
/// returned string is a normalized absolute URL serialization.
pub fn extract_base_href_doc(doc: &Document, url: &str) -> (r: Result<String, ExtractError>)
    ensures
        (match r {
            Ok(s) => base_href_spec(doc@, url@) == Ok::<Seq<char>, ExtractError>(s@),
            Err(e) => base_href_spec(doc@, url@) == Err::<Seq<char>, ExtractError>(e),
        }),
        r is Ok ==> parse_url((r->Ok_0)@) == Some((r->Ok_0)@),
{
    let u = match parse_url_exec(url) {
        Some(u) => u,
        None => {
            return Err(ExtractError::UrlParse);
        },
    };
    let sel = base_sel_exec();
    let matches = query_doc_exec(&doc.children, &sel);
    if matches.len() > 0 {
        let href_name = str_to_chars("href");
        proof {
            assert(elems_view(matches@)[0] == matches@[0]@);
        }
        match matches[0].get_attr(&href_name) {
            Some(h) => {
                let hs = crate::text::chars_to_string(&h);
                match join_url_exec(u.as_str(), hs.as_str()) {
                    Some(b) => Ok(b),
                    None => Ok(u),
                }
            },
            None => Ok(u),
        }
    } else {
        Ok(u)
    }
}

/// Absolutize one attribute value against a normalized absolute base: the
/// join result when the join succeeds, the original value otherwise.
pub open spec fn resolve_attr(base: Seq<char>, v: Seq<char>) -> Seq<char> {
    match join_url(base, v) {
        Some(u) => u,
        None => v,
    }
}

/// Absolutize one attribute value.
///
/// Absolutization is idempotent: the result of a successful join is a
/// normalized serialization, and such a value resolves to itself, so
/// resolving the result against the same base returns it unchanged.
pub fn resolve_attr_exec(base: &str, v: &str) -> (r: String)
    requires
        parse_url(base@) is Some,
    ensures
        r@ == resolve_attr(base@, v@),
        parse_url(v@) == Some(v@) ==> r@ == v@,
        join_url(base@, v@) is Some ==> parse_url(r@) == Some(r@),
{
    match join_url_exec(base, v) {
        Some(u) => u,
        None => v.to_owned(),
    }
}


/// Parse a URL string, returning its normalized serialization.
pub fn parse_url_checked(s: &str) -> (r: Option<String>)
    ensures
        (match r {
            Some(u) => parse_url(s@) == Some(u@) && parse_url(u@) == Some(u@),
            None => parse_url(s@) is None,
        }),
{
    parse_url_exec(s)
}


/// Join a reference against a normalized absolute base.
pub fn join_checked(base: &str, rel: &str) -> (r: Option<String>)
    requires
        parse_url(base@) is Some,
    ensures
        (match r {
            Some(u) => join_url(base@, rel@) == Some(u@),
            None => join_url(base@, rel@) is None,
        }),
{
    join_url_exec(base, rel)
}

} // verus!
