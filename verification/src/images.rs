//! Image harvesting: collect candidate image URLs from every source the
//! page offers, resolve them, deduplicate and filter.

use vstd::prelude::*;

use crate::dom::{attr_of, forest_view, Document, ElemM, Node, NodeM};
use crate::meta::{attrs_of_elems, sel1};
use crate::query::{query_doc, query_doc_exec, elems_view};
use crate::selector::{skip_ws, Compound, CompoundM, Cond, CondM, Selector, SelectorM};
use crate::text::{
    chars_clone, chars_to_string, is_space, lower_seq, occurs_at, split_on, starts_with,
    str_to_chars, texts_view, trim_spec, trim_exec,
};
use crate::urlres::{join_url, parse_url};

verus! {

broadcast use vstd::std_specs::vec::axiom_vec_index_decreases;

/// Resolution of one harvested URL: `data:` and `blob:` URIs and already
/// absolute `http`/`https` URLs pass through; a protocol-relative URL joins
/// against the page URL; anything else joins against the resolved base href.
/// A failed join drops the candidate.
pub open spec fn img_resolve(page: Seq<char>, base: Seq<char>, src: Seq<char>) -> Option<
    Seq<char>,
> {
    if starts_with(src, "data:"@) || starts_with(src, "blob:"@) {
        Some(src)
    } else if starts_with(src, "http://"@) || starts_with(src, "https://"@) {
        Some(src)
    } else if starts_with(src, "//"@) {
        join_url(page, src)
    } else {
        join_url(base, src)
    }
}

/// Resolution of one harvested URL, executable form.
fn img_resolve_exec(page: &str, base: &str, src: &Vec<char>) -> (r: Option<Vec<char>>)
    requires
        parse_url(page@) is Some,
        parse_url(base@) is Some,
    ensures
        (match r {
            Some(v) => img_resolve(page@, base@, src@) == Some(v@),
            None => img_resolve(page@, base@, src@) is None,
        }),
{
    let p1 = str_to_chars("data:");
    let p2 = str_to_chars("blob:");
    let p3 = str_to_chars("http://");
    let p4 = str_to_chars("https://");
    let p5 = str_to_chars("//");
    if crate::text::starts_with_exec(src, &p1) || crate::text::starts_with_exec(src, &p2) {
        return Some(chars_clone(src));
    }
    if crate::text::starts_with_exec(src, &p3) || crate::text::starts_with_exec(src, &p4) {
        return Some(chars_clone(src));
    }
    let s = chars_to_string(src);
    if crate::text::starts_with_exec(src, &p5) {
        match crate::urlres::join_checked(page, s.as_str()) {
            Some(u) => Some(str_to_chars(u.as_str())),
            None => None,
        }
    } else {
        match crate::urlres::join_checked(base, s.as_str()) {
            Some(u) => Some(str_to_chars(u.as_str())),
            None => None,
        }
    }
}

/// The first whitespace-separated token of a string, if any.
pub open spec fn first_token(s: Seq<char>) -> Option<Seq<char>> {
    let a = skip_ws(s, 0);
    if a >= s.len() {
        None
    } else {
        Some(s.subrange(a, token_end(s, a)))
    }
}

/// End of the token starting at `i`.
pub open spec fn token_end(s: Seq<char>, i: int) -> int
    decreases s.len() - i,
{
    if 0 <= i < s.len() && !is_space(s[i]) {
        token_end(s, i + 1)
    } else {
        i
    }
}

/// The first token, executable form.
fn first_token_exec(s: &Vec<char>) -> (r: Option<Vec<char>>)
    ensures
        (match r {
            Some(v) => first_token(s@) == Some(v@),
            None => first_token(s@) is None,
        }),
{
    let a = crate::selector::skip_ws_exec(s, 0);
    if a >= s.len() {
        return None;
    }
    let mut e = a;
    while e < s.len() && !crate::text::is_space_exec(s[e])
        invariant
            a <= e <= s.len(),
            token_end(s@, a as int) == token_end(s@, e as int),
        decreases s.len() - e,
    {
        e = e + 1;
    }
    let mut out: Vec<char> = Vec::new();
    let mut k = a;
    while k < e
        invariant
            a <= k <= e <= s.len(),
            out@ == s@.subrange(a as int, k as int),
        decreases e - k,
    {
        out.push(s[k]);
        proof {
            assert(out@ =~= s@.subrange(a as int, k + 1));
        }
        k = k + 1;
    }
    Some(out)
}

/// First occurrence of `w` in `s` at or after `i`.
pub open spec fn find_sub(s: Seq<char>, w: Seq<char>, i: int) -> Option<int>
    decreases s.len() + 1 - i,
{
    if i < 0 || i + w.len() > s.len() {
        None
    } else if occurs_at(s, w, i) {
        Some(i)
    } else {
        find_sub(s, w, i + 1)
    }
}

/// First occurrence, executable form.
fn find_sub_exec(s: &Vec<char>, w: &Vec<char>, i: usize) -> (r: Option<usize>)
    requires
        w.len() >= 1,
    ensures
        (match r {
            Some(p) => find_sub(s@, w@, i as int) == Some(p as int) && i <= p && p + w@.len()
                <= s@.len(),
            None => find_sub(s@, w@, i as int) is None,
        }),
{
    if i > s.len() {
        return None;
    }
    let mut j = i;
    loop
        invariant_except_break
            i <= j <= s.len(),
            find_sub(s@, w@, i as int) == find_sub(s@, w@, j as int),
            w.len() >= 1,
        ensures
            i <= j <= s.len(),
            (match find_sub(s@, w@, i as int) {
                Some(p) => i <= p && p + w@.len() <= s@.len() && j == p,
                None => j + w@.len() > s@.len(),
            }),
        decreases s.len() - j,
    {
        if w.len() > s.len() - j {
            break ;
        }
        if crate::text::occurs_at_exec(s, w, j) {
            break ;
        }
        j = j + 1;
    }
    if w.len() <= s.len() - j {
        Some(j)
    } else {
        None
    }
}

/// Is this character a quote or the closing parenthesis?
pub open spec fn is_url_stop(c: char) -> bool {
    c == '\'' || c == '"' || c == ')'
}

/// End of a `url(...)` capture: the first quote or parenthesis at or after
/// `i`.
pub open spec fn capture_end(s: Seq<char>, i: int) -> int
    decreases s.len() - i,
{
    if 0 <= i < s.len() && !is_url_stop(s[i]) {
        capture_end(s, i + 1)
    } else {
        i
    }
}

/// The `url(...)` references of a style value, scanning from `i`: after each
/// `url(` an optional quote, a non-empty run free of quotes and parentheses,
/// an optional quote, and the closing parenthesis.
pub open spec fn css_urls(s: Seq<char>, i: int) -> Seq<Seq<char>>
    decreases s.len() - i, 0int,
{
    if i < 0 {
        Seq::empty()
    } else {
        match find_sub(s, "url("@, i) {
            None => Seq::empty(),
            Some(p) => {
                if p < i || p + 4 > s.len() {
                    Seq::empty()
                } else {
                    let j = p + 4;
                    let j2 = if j < s.len() && (s[j] == '\'' || s[j] == '"') {
                        j + 1
                    } else {
                        j
                    };
                    let k = capture_end(s, j2);
                    let ok = k > j2 && k < s.len() && (s[k] == ')' || (k + 1 < s.len() && s[k + 1]
                        == ')'));
                    if ok {
                        let after = if s[k] == ')' {
                            k + 1
                        } else {
                            k + 2
                        };
                        seq![s.subrange(j2, k)] + css_urls_from(s, after)
                    } else {
                        css_urls_from(s, j)
                    }
                }
            },
        }
    }
}

/// Helper that re-enters the scan at a strictly later position.
pub open spec fn css_urls_from(s: Seq<char>, i: int) -> Seq<Seq<char>>
    decreases s.len() - i, 1int,
{
    if 0 <= i <= s.len() {
        css_urls(s, i)
    } else {
        Seq::empty()
    }
}


/// The `url(...)` references of a style value, executable form.
fn css_urls_exec(s: &Vec<char>) -> (r: Vec<Vec<char>>)
    ensures
        texts_view(r@) == css_urls(s@, 0),
{
    let pat = str_to_chars("url(");
    proof {
        reveal_strlit("url(");
    }
    let mut out: Vec<Vec<char>> = Vec::new();
    let mut i: usize = 0;
    proof {
        assert(texts_view(out@) + css_urls(s@, 0) =~= css_urls(s@, 0));
    }
    loop
        invariant_except_break
            i <= s.len(),
            pat@ == "url("@,
            pat@.len() == 4,
            texts_view(out@) + css_urls(s@, i as int) == css_urls(s@, 0),
        ensures
            texts_view(out@) == css_urls(s@, 0),
        decreases s.len() - i,
    {
        match find_sub_exec(s, &pat, i) {
            None => {
                proof {
                    assert(texts_view(out@) + css_urls(s@, i as int) =~= texts_view(out@));
                }
                break ;
            },
            Some(p) => {
                let j = p + 4;
                let j2 = if j < s.len() && (s[j] == '\'' || s[j] == '"') {
                    j + 1
                } else {
                    j
                };
                let mut k = j2;
                while k < s.len() && !(s[k] == '\'' || s[k] == '"' || s[k] == ')')
                    invariant
                        j2 <= k <= s.len(),
                        capture_end(s@, j2 as int) == capture_end(s@, k as int),
                    decreases s.len() - k,
                {
                    k = k + 1;
                }
                let ok = k > j2 && k < s.len() && (s[k] == ')' || (k + 1 < s.len() && s[k + 1]
                    == ')'));
                if ok {
                    let mut cap: Vec<char> = Vec::new();
                    let mut t = j2;
                    while t < k
                        invariant
                            j2 <= t <= k <= s.len(),
                            cap@ == s@.subrange(j2 as int, t as int),
                        decreases k - t,
                    {
                        cap.push(s[t]);
                        proof {
                            assert(cap@ =~= s@.subrange(j2 as int, t + 1));
                        }
                        t = t + 1;
                    }
                    let after = if s[k] == ')' {
                        k + 1
                    } else {
                        k + 2
                    };
                    proof {
                        crate::text::texts_view_push(out@, cap);
                        assert(css_urls(s@, i as int) == seq![s@.subrange(j2 as int, k as int)]
                            + css_urls_from(s@, after as int));
                        assert(css_urls_from(s@, after as int) == css_urls(s@, after as int));
                    }
                    out.push(cap);
                    proof {
                        assert(texts_view(out@) + css_urls(s@, after as int) =~= css_urls(
                            s@,
                            0,
                        ));
                    }
                    i = after;
                } else {
                    proof {
                        assert(css_urls(s@, i as int) == css_urls_from(s@, j as int));
                        assert(css_urls_from(s@, j as int) == css_urls(s@, j as int));
                    }
                    i = j;
                }
            },
        }
    }
    out
}

/// The srcset URL tokens of one srcset value: the first whitespace token of
/// each comma-separated entry, empty ones skipped.
pub open spec fn srcset_tokens(v: Seq<char>) -> Seq<Seq<char>> {
    tokens_of_parts(split_on(v, ','))
}

/// First tokens of a list of fields.
pub open spec fn tokens_of_parts(parts: Seq<Seq<char>>) -> Seq<Seq<char>>
    decreases parts.len(),
{
    if parts.len() == 0 {
        Seq::empty()
    } else {
        (match first_token(parts[0]) {
            Some(t) => if t.len() > 0 {
                seq![t]
            } else {
                Seq::<Seq<char>>::empty()
            },
            None => Seq::<Seq<char>>::empty(),
        }) + tokens_of_parts(parts.subrange(1, parts.len() as int))
    }
}

/// Splitting a field list splits its tokens.
proof fn tokens_of_parts_concat(a: Seq<Seq<char>>, b: Seq<Seq<char>>)
    ensures
        tokens_of_parts(a + b) == tokens_of_parts(a) + tokens_of_parts(b),
    decreases a.len(),
{
    if a.len() == 0 {
        assert(a + b =~= b);
        assert(tokens_of_parts(a) + tokens_of_parts(b) =~= tokens_of_parts(b));
    } else {
        tokens_of_parts_concat(a.subrange(1, a.len() as int), b);
        assert((a + b).subrange(1, (a + b).len() as int) =~= a.subrange(1, a.len() as int) + b);
        assert(tokens_of_parts(a + b) =~= tokens_of_parts(a) + tokens_of_parts(b));
    }
}

/// Push the srcset tokens of one srcset value, executable form.
fn push_srcset_tokens(v: &Vec<char>, out: &mut Vec<Vec<char>>)
    ensures
        texts_view(final(out)@) == texts_view(old(out)@) + srcset_tokens(v@),
{
    let parts = crate::text::split_on_exec(v, ',');
    let ghost model = texts_view(parts@);
    proof {
        assert(texts_view(out@) + tokens_of_parts(model.take(0)) =~= texts_view(out@));
    }
    for i in 0..parts.len()
        invariant
            model == texts_view(parts@),
            model.len() == parts@.len(),
            texts_view(out@) == texts_view(old(out)@) + tokens_of_parts(model.take(i as int)),
    {
        proof {
            assert(model[i as int] == parts@[i as int]@);
        }
        match first_token_exec(&parts[i]) {
            Some(t) => {
                if t.len() > 0 {
                    proof {
                        crate::text::texts_view_push(out@, t);
                    }
                    out.push(t);
                }
            },
            None => {},
        }
        proof {
            tokens_of_parts_concat(model.take(i as int), seq![model[i as int]]);
            assert(model.take(i as int) + seq![model[i as int]] =~= model.take(i + 1));
            assert(seq![model[i as int]].subrange(1, 1) =~= Seq::<Seq<char>>::empty());
            assert(seq![model[i as int]][0] == model[i as int]);
            assert(tokens_of_parts(Seq::<Seq<char>>::empty()) == Seq::<Seq<char>>::empty());
            assert(tokens_of_parts(seq![model[i as int]]) =~= (match first_token(
                model[i as int],
            ) {
                Some(t) => if t.len() > 0 {
                    seq![t]
                } else {
                    Seq::<Seq<char>>::empty()
                },
                None => Seq::<Seq<char>>::empty(),
            }));
            assert(texts_view(out@) =~= texts_view(old(out)@) + tokens_of_parts(
                model.take(i + 1),
            ));
        }
    }
    proof {
        assert(model.take(model.len() as int) =~= model);
    }
}

/// The image sources of the `img` elements: `src`, `data-src`, and the URL
/// tokens of `srcset`, per element in document order.
pub open spec fn img_srcs(q: Seq<ElemM>) -> Seq<Seq<char>>
    decreases q.len(),
{
    if q.len() == 0 {
        Seq::empty()
    } else {
        (match attr_of(q[0].attrs, "src"@) {
            Some(v) => seq![v],
            None => Seq::<Seq<char>>::empty(),
        }) + (match attr_of(q[0].attrs, "data-src"@) {
            Some(v) => seq![v],
            None => Seq::<Seq<char>>::empty(),
        }) + (match attr_of(q[0].attrs, "srcset"@) {
            Some(v) => srcset_tokens(v),
            None => Seq::<Seq<char>>::empty(),
        }) + img_srcs(q.subrange(1, q.len() as int))
    }
}

/// The srcset tokens of a list of elements.
pub open spec fn elems_srcset_tokens(q: Seq<ElemM>) -> Seq<Seq<char>>
    decreases q.len(),
{
    if q.len() == 0 {
        Seq::empty()
    } else {
        (match attr_of(q[0].attrs, "srcset"@) {
            Some(v) => srcset_tokens(v),
            None => Seq::<Seq<char>>::empty(),
        }) + elems_srcset_tokens(q.subrange(1, q.len() as int))
    }
}

/// The trimmed, non-empty `url(...)` references of the `style` attributes of
/// a list of elements.
pub open spec fn elems_style_urls(q: Seq<ElemM>) -> Seq<Seq<char>>
    decreases q.len(),
{
    if q.len() == 0 {
        Seq::empty()
    } else {
        (match attr_of(q[0].attrs, "style"@) {
            Some(v) => trimmed_nonempty(css_urls(v, 0)),
            None => Seq::<Seq<char>>::empty(),
        }) + elems_style_urls(q.subrange(1, q.len() as int))
    }
}

/// Trim every entry; keep the non-empty ones.
pub open spec fn trimmed_nonempty(vs: Seq<Seq<char>>) -> Seq<Seq<char>>
    decreases vs.len(),
{
    if vs.len() == 0 {
        Seq::empty()
    } else {
        (if trim_spec(vs[0]).len() > 0 {
            seq![trim_spec(vs[0])]
        } else {
            Seq::<Seq<char>>::empty()
        }) + trimmed_nonempty(vs.subrange(1, vs.len() as int))
    }
}


/// Splitting an element list splits its image sources.
proof fn img_srcs_concat(a: Seq<ElemM>, b: Seq<ElemM>)
    ensures
        img_srcs(a + b) == img_srcs(a) + img_srcs(b),
    decreases a.len(),
{
    if a.len() == 0 {
        assert(a + b =~= b);
        assert(img_srcs(a) + img_srcs(b) =~= img_srcs(b));
    } else {
        img_srcs_concat(a.subrange(1, a.len() as int), b);
        assert((a + b).subrange(1, (a + b).len() as int) =~= a.subrange(1, a.len() as int) + b);
        assert(img_srcs(a + b) =~= img_srcs(a) + img_srcs(b));
    }
}

/// Splitting an element list splits its srcset tokens.
proof fn elems_srcset_tokens_concat(a: Seq<ElemM>, b: Seq<ElemM>)
    ensures
        elems_srcset_tokens(a + b) == elems_srcset_tokens(a) + elems_srcset_tokens(b),
    decreases a.len(),
{
    if a.len() == 0 {
        assert(a + b =~= b);
        assert(elems_srcset_tokens(a) + elems_srcset_tokens(b) =~= elems_srcset_tokens(b));
    } else {
        elems_srcset_tokens_concat(a.subrange(1, a.len() as int), b);
        assert((a + b).subrange(1, (a + b).len() as int) =~= a.subrange(1, a.len() as int) + b);
        assert(elems_srcset_tokens(a + b) =~= elems_srcset_tokens(a) + elems_srcset_tokens(b));
    }
}

/// Splitting an element list splits its style references.
proof fn elems_style_urls_concat(a: Seq<ElemM>, b: Seq<ElemM>)
    ensures
        elems_style_urls(a + b) == elems_style_urls(a) + elems_style_urls(b),
    decreases a.len(),
{
    if a.len() == 0 {
        assert(a + b =~= b);
        assert(elems_style_urls(a) + elems_style_urls(b) =~= elems_style_urls(b));
    } else {
        elems_style_urls_concat(a.subrange(1, a.len() as int), b);
        assert((a + b).subrange(1, (a + b).len() as int) =~= a.subrange(1, a.len() as int) + b);
        assert(elems_style_urls(a + b) =~= elems_style_urls(a) + elems_style_urls(b));
    }
}

/// Push the image sources of the `img` elements, executable form.
#[verifier::rlimit(80)]
fn push_img_srcs(q: &Vec<crate::dom::Elem>, out: &mut Vec<Vec<char>>)
    ensures
        texts_view(final(out)@) == texts_view(old(out)@) + img_srcs(elems_view(q@)),
{
    let ghost model = elems_view(q@);
    let src_a = str_to_chars("src");
    let data_src_a = str_to_chars("data-src");
    let srcset_a = str_to_chars("srcset");
    proof {
        assert(texts_view(out@) + img_srcs(model.take(0)) =~= texts_view(out@));
    }
    for i in 0..q.len()
        invariant
            model == elems_view(q@),
            model.len() == q@.len(),
            src_a@ == "src"@,
            data_src_a@ == "data-src"@,
            srcset_a@ == "srcset"@,
            texts_view(out@) == texts_view(old(out)@) + img_srcs(model.take(i as int)),
    {
        proof {
            assert(model[i as int] == q@[i as int]@);
        }
        match q[i].get_attr(&src_a) {
            Some(v) => {
                proof {
                    crate::text::texts_view_push(out@, v);
                }
                out.push(v);
            },
            None => {},
        }
        match q[i].get_attr(&data_src_a) {
            Some(v) => {
                proof {
                    crate::text::texts_view_push(out@, v);
                }
                out.push(v);
            },
            None => {},
        }
        match q[i].get_attr(&srcset_a) {
            Some(v) => {
                push_srcset_tokens(&v, out);
            },
            None => {},
        }
        proof {
            img_srcs_concat(model.take(i as int), seq![model[i as int]]);
            assert(model.take(i as int) + seq![model[i as int]] =~= model.take(i + 1));
            assert(seq![model[i as int]].subrange(1, 1) =~= Seq::<ElemM>::empty());
            assert(seq![model[i as int]][0] == model[i as int]);
            assert(img_srcs(Seq::<ElemM>::empty()) == Seq::<Seq<char>>::empty());
            assert(texts_view(out@) =~= texts_view(old(out)@) + img_srcs(model.take(i + 1)));
        }
    }
    proof {
        assert(model.take(model.len() as int) =~= model);
    }
}

/// Push the srcset tokens of a list of elements, executable form.
fn push_elems_srcset_tokens(q: &Vec<crate::dom::Elem>, out: &mut Vec<Vec<char>>)
    ensures
        texts_view(final(out)@) == texts_view(old(out)@) + elems_srcset_tokens(elems_view(q@)),
{
    let ghost model = elems_view(q@);
    let srcset_a = str_to_chars("srcset");
    proof {
        assert(texts_view(out@) + elems_srcset_tokens(model.take(0)) =~= texts_view(out@));
    }
    for i in 0..q.len()
        invariant
            model == elems_view(q@),
            model.len() == q@.len(),
            srcset_a@ == "srcset"@,
            texts_view(out@) == texts_view(old(out)@) + elems_srcset_tokens(
                model.take(i as int),
            ),
    {
        proof {
            assert(model[i as int] == q@[i as int]@);
        }
        match q[i].get_attr(&srcset_a) {
            Some(v) => {
                push_srcset_tokens(&v, out);
            },
            None => {},
        }
        proof {
            elems_srcset_tokens_concat(model.take(i as int), seq![model[i as int]]);
            assert(model.take(i as int) + seq![model[i as int]] =~= model.take(i + 1));
            assert(seq![model[i as int]].subrange(1, 1) =~= Seq::<ElemM>::empty());
            assert(seq![model[i as int]][0] == model[i as int]);
            assert(elems_srcset_tokens(Seq::<ElemM>::empty()) == Seq::<Seq<char>>::empty());
            assert(texts_view(out@) =~= texts_view(old(out)@) + elems_srcset_tokens(
                model.take(i + 1),
            ));
        }
    }
    proof {
        assert(model.take(model.len() as int) =~= model);
    }
}

/// Push the attribute values of a list of elements, executable form.
fn push_elem_attrs(q: &Vec<crate::dom::Elem>, attr: &Vec<char>, out: &mut Vec<Vec<char>>)
    ensures
        texts_view(final(out)@) == texts_view(old(out)@) + attrs_of_elems(elems_view(q@), attr@),
{
    let ghost model = elems_view(q@);
    proof {
        assert(texts_view(out@) + attrs_of_elems(model.take(0), attr@) =~= texts_view(out@));
    }
    for i in 0..q.len()
        invariant
            model == elems_view(q@),
            model.len() == q@.len(),
            texts_view(out@) == texts_view(old(out)@) + attrs_of_elems(
                model.take(i as int),
                attr@,
            ),
    {
        proof {
            assert(model[i as int] == q@[i as int]@);
        }
        match q[i].get_attr(attr) {
            Some(v) => {
                proof {
                    crate::text::texts_view_push(out@, v);
                }
                out.push(v);
            },
            None => {},
        }
        proof {
            crate::meta::attrs_of_elems_concat_pub(model.take(i as int), seq![model[i as int]], attr@);
            assert(model.take(i as int) + seq![model[i as int]] =~= model.take(i + 1));
            assert(seq![model[i as int]].subrange(1, 1) =~= Seq::<ElemM>::empty());
            assert(seq![model[i as int]][0] == model[i as int]);
            assert(attrs_of_elems(Seq::<ElemM>::empty(), attr@) == Seq::<Seq<char>>::empty());
            assert(texts_view(out@) =~= texts_view(old(out)@) + attrs_of_elems(
                model.take(i + 1),
                attr@,
            ));
        }
    }
    proof {
        assert(model.take(model.len() as int) =~= model);
    }
}

/// Push the style `url(...)` references of a list of elements.
fn push_style_urls(q: &Vec<crate::dom::Elem>, out: &mut Vec<Vec<char>>)
    ensures
        texts_view(final(out)@) == texts_view(old(out)@) + elems_style_urls(elems_view(q@)),
{
    let ghost model = elems_view(q@);
    let style_a = str_to_chars("style");
    proof {
        assert(texts_view(out@) + elems_style_urls(model.take(0)) =~= texts_view(out@));
    }
    for i in 0..q.len()
        invariant
            model == elems_view(q@),
            model.len() == q@.len(),
            style_a@ == "style"@,
            texts_view(out@) == texts_view(old(out)@) + elems_style_urls(model.take(i as int)),
    {
        proof {
            assert(model[i as int] == q@[i as int]@);
        }
        match q[i].get_attr(&style_a) {
            Some(v) => {
                let urls = css_urls_exec(&v);
                let ghost um = texts_view(urls@);
                let ghost mark = texts_view(out@);
                proof {
                    assert(mark + trimmed_nonempty(um.take(0)) =~= mark);
                }
                for t in 0..urls.len()
                    invariant
                        um == texts_view(urls@),
                        um.len() == urls@.len(),
                        texts_view(out@) == mark + trimmed_nonempty(um.take(t as int)),
                {
                    proof {
                        assert(um[t as int] == urls@[t as int]@);
                    }
                    let trimmed = trim_exec(&urls[t]);
                    if trimmed.len() > 0 {
                        proof {
                            crate::text::texts_view_push(out@, trimmed);
                        }
                        out.push(trimmed);
                    }
                    proof {
                        trimmed_nonempty_concat(um.take(t as int), seq![um[t as int]]);
                        assert(um.take(t as int) + seq![um[t as int]] =~= um.take(t + 1));
                        assert(seq![um[t as int]].subrange(1, 1) =~= Seq::<Seq<char>>::empty());
                        assert(seq![um[t as int]][0] == um[t as int]);
                        assert(trimmed_nonempty(Seq::<Seq<char>>::empty()) == Seq::<
                            Seq<char>,
                        >::empty());
                        assert(texts_view(out@) =~= mark + trimmed_nonempty(um.take(t + 1)));
                    }
                }
                proof {
                    assert(um.take(um.len() as int) =~= um);
                }
            },
            None => {},
        }
        proof {
            elems_style_urls_concat(model.take(i as int), seq![model[i as int]]);
            assert(model.take(i as int) + seq![model[i as int]] =~= model.take(i + 1));
            assert(seq![model[i as int]].subrange(1, 1) =~= Seq::<ElemM>::empty());
            assert(seq![model[i as int]][0] == model[i as int]);
            assert(elems_style_urls(Seq::<ElemM>::empty()) == Seq::<Seq<char>>::empty());
            assert(texts_view(out@) =~= texts_view(old(out)@) + elems_style_urls(
                model.take(i + 1),
            ));
        }
    }
    proof {
        assert(model.take(model.len() as int) =~= model);
    }
}

/// Splitting a list splits its trimmed entries.
proof fn trimmed_nonempty_concat(a: Seq<Seq<char>>, b: Seq<Seq<char>>)
    ensures
        trimmed_nonempty(a + b) == trimmed_nonempty(a) + trimmed_nonempty(b),
    decreases a.len(),
{
    if a.len() == 0 {
        assert(a + b =~= b);
        assert(trimmed_nonempty(a) + trimmed_nonempty(b) =~= trimmed_nonempty(b));
    } else {
        trimmed_nonempty_concat(a.subrange(1, a.len() as int), b);
        assert((a + b).subrange(1, (a + b).len() as int) =~= a.subrange(1, a.len() as int) + b);
        assert(trimmed_nonempty(a + b) =~= trimmed_nonempty(a) + trimmed_nonempty(b));
    }
}

/// Every harvested source of a document, in source order: `img` sources,
/// `picture source` srcset tokens, the OpenGraph, Twitter and itemprop image
/// metas, icon and image links, video posters, and style references.
pub open spec fn gather_spec(doc: Seq<NodeM>) -> Seq<Seq<char>> {
    img_srcs(query_doc(doc, crate::transform::tag_sel("img"@))) + elems_srcset_tokens(
        query_doc(doc, desc_sel("picture"@, "source"@)),
    ) + attrs_of_elems(
        query_doc(doc, sel1(Some("meta"@), CondM::Eq { name: "property"@, value: "og:image"@ })),
        "content"@,
    ) + attrs_of_elems(
        query_doc(
            doc,
            sel1(Some("meta"@), CondM::Eq { name: "property"@, value: "og:image:url"@ }),
        ),
        "content"@,
    ) + attrs_of_elems(
        query_doc(
            doc,
            sel1(Some("meta"@), CondM::Eq { name: "property"@, value: "og:image:secure_url"@ }),
        ),
        "content"@,
    ) + attrs_of_elems(
        query_doc(doc, sel1(Some("meta"@), CondM::Eq { name: "name"@, value: "twitter:image"@ })),
        "content"@,
    ) + attrs_of_elems(
        query_doc(
            doc,
            sel1(Some("meta"@), CondM::Eq { name: "name"@, value: "twitter:image:src"@ }),
        ),
        "content"@,
    ) + attrs_of_elems(
        query_doc(doc, sel1(Some("meta"@), CondM::Eq { name: "itemprop"@, value: "image"@ })),
        "content"@,
    ) + attrs_of_elems(
        query_doc(doc, sel1(Some("link"@), CondM::Substr { name: "rel"@, value: "icon"@ })),
        "href"@,
    ) + attrs_of_elems(
        query_doc(
            doc,
            sel1(Some("link"@), CondM::Substr { name: "rel"@, value: "apple-touch-icon"@ }),
        ),
        "href"@,
    ) + attrs_of_elems(
        query_doc(doc, sel1(Some("link"@), CondM::Substr { name: "rel"@, value: "image_src"@ })),
        "href"@,
    ) + attrs_of_elems(
        query_doc(doc, sel1(Some("video"@), CondM::Exists { name: "poster"@ })),
        "poster"@,
    ) + elems_style_urls(
        query_doc(doc, sel1(None, CondM::Substr { name: "style"@, value: "background"@ })),
    )
}

/// Resolve every source, dropping the ones whose join fails.
pub open spec fn resolve_all(page: Seq<char>, base: Seq<char>, srcs: Seq<Seq<char>>) -> Seq<
    Seq<char>,
>
    decreases srcs.len(),
{
    if srcs.len() == 0 {
        Seq::empty()
    } else {
        (match img_resolve(page, base, srcs[0]) {
            Some(v) => seq![v],
            None => Seq::<Seq<char>>::empty(),
        }) + resolve_all(page, base, srcs.subrange(1, srcs.len() as int))
    }
}

/// Keep the first occurrence of each value.
pub open spec fn dedup_from(s: Seq<Seq<char>>, i: int) -> Seq<Seq<char>>
    decreases s.len() - i,
{
    if i < 0 || i >= s.len() {
        Seq::empty()
    } else {
        (if s.take(i).contains(s[i]) {
            Seq::<Seq<char>>::empty()
        } else {
            seq![s[i]]
        }) + dedup_from(s, i + 1)
    }
}

/// An image URL survives the final filter: non-empty, not a `javascript:`
/// URI, and a `data:` or `blob:` URI or a parseable absolute URL.
pub open spec fn image_kept(u: Seq<char>) -> bool {
    &&& u.len() > 0
    &&& !starts_with(lower_seq(u), "javascript:"@)
    &&& (starts_with(u, "data:"@) || starts_with(u, "blob:"@) || parse_url(u) is Some)
}

/// The final filter.
pub open spec fn filter_images(s: Seq<Seq<char>>) -> Seq<Seq<char>>
    decreases s.len(),
{
    if s.len() == 0 {
        Seq::empty()
    } else {
        (if image_kept(s[0]) {
            seq![s[0]]
        } else {
            Seq::<Seq<char>>::empty()
        }) + filter_images(s.subrange(1, s.len() as int))
    }
}

/// What image extraction returns: every harvested source resolved, the
/// duplicates dropped (first occurrence kept), and the final filter applied.
pub open spec fn images_spec(doc: Seq<NodeM>, url: Seq<char>) -> Result<
    Seq<Seq<char>>,
    crate::errors::ExtractError,
> {
    match parse_url(url) {
        None => Err(crate::errors::ExtractError::UrlParse),
        Some(u) => {
            let base = crate::urlres::resolved_base(doc, u);
            match parse_url(base) {
                None => Err(crate::errors::ExtractError::UrlParse),
                Some(b) => Ok(
                    filter_images(dedup_from(resolve_all(u, b, gather_spec(doc)), 0)),
                ),
            }
        },
    }
}


/// The selector of two bare tags joined by the descendant combinator.
pub open spec fn desc_sel(a: Seq<char>, b: Seq<char>) -> SelectorM {
    SelectorM {
        parts: seq![
            CompoundM { tag: Some(a), conds: Seq::empty() },
            CompoundM { tag: Some(b), conds: Seq::empty() },
        ],
    }
}

/// Build a selector of two bare tags joined by the descendant combinator.
fn descendant_sel(a: &str, b: &str) -> (r: Selector)
    ensures
        r@ == desc_sel(a@, b@),
{
    let mut parts: Vec<Compound> = Vec::new();
    parts.push(Compound { tag: Some(str_to_chars(a)), conds: Vec::new() });
    parts.push(Compound { tag: Some(str_to_chars(b)), conds: Vec::new() });
    let r = Selector { parts };
    proof {
        assert(r@.parts =~~= desc_sel(a@, b@).parts);
    }
    r
}

/// Build a one-condition selector without a tag.
fn sel1_untagged(cond: Cond) -> (r: Selector)
    ensures
        r@ == sel1(None, cond@),
{
    let ghost cm = cond@;
    let mut conds: Vec<Cond> = Vec::new();
    conds.push(cond);
    let mut parts: Vec<Compound> = Vec::new();
    parts.push(Compound { tag: None, conds });
    let r = Selector { parts };
    proof {
        assert(r@.parts =~~= sel1(None, cm).parts);
    }
    r
}

/// Build a tagged one-condition selector.
fn sel1_tagged(tag: &str, cond: Cond) -> (r: Selector)
    ensures
        r@ == sel1(Some(tag@), cond@),
{
    let ghost cm = cond@;
    let mut conds: Vec<Cond> = Vec::new();
    conds.push(cond);
    let mut parts: Vec<Compound> = Vec::new();
    parts.push(Compound { tag: Some(str_to_chars(tag)), conds });
    let r = Selector { parts };
    proof {
        assert(r@.parts =~~= sel1(Some(tag@), cm).parts);
    }
    r
}

/// Gather every image source of a document, in source order.
fn gather_exec(doc: &Vec<Node>) -> (r: Vec<Vec<char>>)
    ensures
        texts_view(r@) == gather_spec(forest_view(doc@)),
{
    let mut out: Vec<Vec<char>> = Vec::new();
    let imgs = query_doc_exec(doc, &crate::transform::tag_sel_pub("img"));
    push_img_srcs(&imgs, &mut out);
    let pics = query_doc_exec(doc, &descendant_sel("picture", "source"));
    push_elems_srcset_tokens(&pics, &mut out);
    let content = str_to_chars("content");
    let href = str_to_chars("href");
    let q1 = query_doc_exec(
        doc,
        &sel1_tagged(
            "meta",
            Cond::Eq { name: str_to_chars("property"), value: str_to_chars("og:image") },
        ),
    );
    push_elem_attrs(&q1, &content, &mut out);
    let q2 = query_doc_exec(
        doc,
        &sel1_tagged(
            "meta",
            Cond::Eq { name: str_to_chars("property"), value: str_to_chars("og:image:url") },
        ),
    );
    push_elem_attrs(&q2, &content, &mut out);
    let q3 = query_doc_exec(
        doc,
        &sel1_tagged(
            "meta",
            Cond::Eq {
                name: str_to_chars("property"),
                value: str_to_chars("og:image:secure_url"),
            },
        ),
    );
    push_elem_attrs(&q3, &content, &mut out);
    let q4 = query_doc_exec(
        doc,
        &sel1_tagged(
            "meta",
            Cond::Eq { name: str_to_chars("name"), value: str_to_chars("twitter:image") },
        ),
    );
    push_elem_attrs(&q4, &content, &mut out);
    let q5 = query_doc_exec(
        doc,
        &sel1_tagged(
            "meta",
            Cond::Eq { name: str_to_chars("name"), value: str_to_chars("twitter:image:src") },
        ),
    );
    push_elem_attrs(&q5, &content, &mut out);
    let q6 = query_doc_exec(
        doc,
        &sel1_tagged(
            "meta",
            Cond::Eq { name: str_to_chars("itemprop"), value: str_to_chars("image") },
        ),
    );
    push_elem_attrs(&q6, &content, &mut out);
    let q7 = query_doc_exec(
        doc,
        &sel1_tagged(
            "link",
            Cond::Substr { name: str_to_chars("rel"), value: str_to_chars("icon") },
        ),
    );
    push_elem_attrs(&q7, &href, &mut out);
    let q8 = query_doc_exec(
        doc,
        &sel1_tagged(
            "link",
            Cond::Substr { name: str_to_chars("rel"), value: str_to_chars("apple-touch-icon") },
        ),
    );
    push_elem_attrs(&q8, &href, &mut out);
    let q9 = query_doc_exec(
        doc,
        &sel1_tagged(
            "link",
            Cond::Substr { name: str_to_chars("rel"), value: str_to_chars("image_src") },
        ),
    );
    push_elem_attrs(&q9, &href, &mut out);
    let poster = str_to_chars("poster");
    let q10 = query_doc_exec(
        doc,
        &sel1_tagged("video", Cond::Exists { name: str_to_chars("poster") }),
    );
    push_elem_attrs(&q10, &poster, &mut out);
    let q11 = query_doc_exec(
        doc,
        &sel1_untagged(
            Cond::Substr { name: str_to_chars("style"), value: str_to_chars("background") },
        ),
    );
    push_style_urls(&q11, &mut out);
    proof {
        assert(texts_view(out@) =~= gather_spec(forest_view(doc@)));
    }
    out
}

/// Extract every image URL of a parsed document, resolved against the page
/// URL and the document's base href, deduplicated and filtered. Fails
/// exactly when the page URL, or the resolved base, is not a valid absolute
/// URL.
pub fn extract_images_doc(doc: &Document, url: &str) -> (r: Result<
    Vec<String>,
    crate::errors::ExtractError,
>)
    ensures
        (match r {
            Ok(v) => images_spec(doc@, url@) == Ok::<Seq<Seq<char>>, crate::errors::ExtractError>(
                crate::text::strings_view(v@),
            ),
            Err(e) => images_spec(doc@, url@) == Err::<
                Seq<Seq<char>>,
                crate::errors::ExtractError,
            >(e),
        }),
{
    let page = match crate::urlres::parse_url_checked(url) {
        Some(u) => u,
        None => {
            return Err(crate::errors::ExtractError::UrlParse);
        },
    };
    let base = match crate::urlres::extract_base_href_doc(doc, url) {
        Ok(b) => b,
        Err(e) => {
            return Err(e);
        },
    };
    let bstr = match crate::urlres::parse_url_checked(base.as_str()) {
        Some(b) => b,
        None => {
            return Err(crate::errors::ExtractError::UrlParse);
        },
    };
    let ghost u = parse_url(url@)->0;
    let ghost b = parse_url(crate::urlres::resolved_base(doc@, u))->0;
    let srcs = gather_exec(&doc.children);
    let ghost sm = texts_view(srcs@);
    // resolve
    let mut resolved: Vec<Vec<char>> = Vec::new();
    proof {
        assert(texts_view(resolved@) + resolve_all(u, b, sm.take(0)) =~= texts_view(resolved@));
    }
    for i in 0..srcs.len()
        invariant
            sm == texts_view(srcs@),
            sm.len() == srcs@.len(),
            page@ == u,
            bstr@ == b,
            parse_url(page@) is Some,
            parse_url(bstr@) is Some,
            texts_view(resolved@) == resolve_all(u, b, sm.take(i as int)),
    {
        proof {
            assert(sm[i as int] == srcs@[i as int]@);
        }
        match img_resolve_exec(page.as_str(), bstr.as_str(), &srcs[i]) {
            Some(v) => {
                proof {
                    crate::text::texts_view_push(resolved@, v);
                }
                resolved.push(v);
            },
            None => {},
        }
        proof {
            resolve_all_concat(u, b, sm.take(i as int), seq![sm[i as int]]);
            assert(sm.take(i as int) + seq![sm[i as int]] =~= sm.take(i + 1));
            assert(seq![sm[i as int]].subrange(1, 1) =~= Seq::<Seq<char>>::empty());
            assert(seq![sm[i as int]][0] == sm[i as int]);
            assert(resolve_all(u, b, Seq::<Seq<char>>::empty()) == Seq::<Seq<char>>::empty());
            assert(texts_view(resolved@) =~= resolve_all(u, b, sm.take(i + 1)));
        }
    }
    proof {
        assert(sm.take(sm.len() as int) =~= sm);
    }
    // dedup, first occurrence kept
    let ghost rm = texts_view(resolved@);
    let mut unique: Vec<Vec<char>> = Vec::new();
    proof {
        assert(texts_view(unique@) + dedup_from(rm, 0) =~= dedup_from(rm, 0));
    }
    for i in 0..resolved.len()
        invariant
            rm == texts_view(resolved@),
            rm.len() == resolved@.len(),
            texts_view(unique@) + dedup_from(rm, i as int) == dedup_from(rm, 0),
            texts_view(unique@) =~= dedup_prefix(rm, i as int),
    {
        proof {
            assert(rm[i as int] == resolved@[i as int]@);
        }
        let mut seen = false;
        for t in 0..i
            invariant
                i < resolved@.len(),
                rm == texts_view(resolved@),
                rm.len() == resolved@.len(),
                seen == (exists|j: int| 0 <= j < t && rm[j] == rm[i as int]),
        {
            if crate::text::chars_eq(&resolved[t], &resolved[i]) {
                seen = true;
                proof {
                    assert(rm[t as int] == rm[i as int]);
                }
            }
        }
        proof {
            assert(forall|j: int|
                0 <= j < i ==> rm.take(i as int)[j] == rm[j]);
            assert(seen == rm.take(i as int).contains(rm[i as int]));
        }
        if !seen {
            let copy = chars_clone(&resolved[i]);
            proof {
                crate::text::texts_view_push(unique@, copy);
            }
            unique.push(copy);
        }
        proof {
            assert(dedup_from(rm, i as int) == (if rm.take(i as int).contains(rm[i as int]) {
                Seq::<Seq<char>>::empty()
            } else {
                seq![rm[i as int]]
            }) + dedup_from(rm, i + 1));
            assert(texts_view(unique@) + dedup_from(rm, i + 1) =~= dedup_from(rm, 0));
            assert(texts_view(unique@) =~= dedup_prefix(rm, i + 1));
        }
    }
    proof {
        assert(dedup_from(rm, rm.len() as int) == Seq::<Seq<char>>::empty());
        assert(texts_view(unique@) =~= dedup_from(rm, 0));
    }
    // final filter
    let ghost um2 = texts_view(unique@);
    let mut kept: Vec<String> = Vec::new();
    proof {
        assert(crate::text::strings_view(kept@) + filter_images(um2.take(0))
            =~= crate::text::strings_view(kept@));
    }
    for i in 0..unique.len()
        invariant
            um2 == texts_view(unique@),
            um2.len() == unique@.len(),
            crate::text::strings_view(kept@) == filter_images(um2.take(i as int)),
    {
        proof {
            assert(um2[i as int] == unique@[i as int]@);
        }
        let low = crate::text::lower_vec(&unique[i]);
        let js = str_to_chars("javascript:");
        let d1 = str_to_chars("data:");
        let d2 = str_to_chars("blob:");
        let keep = unique[i].len() > 0 && !crate::text::starts_with_exec(&low, &js) && {
            if crate::text::starts_with_exec(&unique[i], &d1) || crate::text::starts_with_exec(
                &unique[i],
                &d2,
            ) {
                true
            } else {
                let us = chars_to_string(&unique[i]);
                match crate::urlres::parse_url_checked(us.as_str()) {
                    Some(_) => true,
                    None => false,
                }
            }
        };
        if keep {
            let item = chars_to_string(&unique[i]);
            proof {
                crate::text::strings_view_push(kept@, item);
            }
            kept.push(item);
        }
        proof {
            filter_images_concat(um2.take(i as int), seq![um2[i as int]]);
            assert(um2.take(i as int) + seq![um2[i as int]] =~= um2.take(i + 1));
            assert(seq![um2[i as int]].subrange(1, 1) =~= Seq::<Seq<char>>::empty());
            assert(seq![um2[i as int]][0] == um2[i as int]);
            assert(filter_images(Seq::<Seq<char>>::empty()) == Seq::<Seq<char>>::empty());
            assert(crate::text::strings_view(kept@) =~= filter_images(um2.take(i + 1)));
        }
    }
    proof {
        assert(um2.take(um2.len() as int) =~= um2);
    }
    Ok(kept)
}

/// What has been kept after scanning the first `i` entries.
pub open spec fn dedup_prefix(s: Seq<Seq<char>>, i: int) -> Seq<Seq<char>>
    decreases i,
{
    if i <= 0 {
        Seq::empty()
    } else {
        dedup_prefix(s, i - 1) + (if s.take(i - 1).contains(s[i - 1]) {
            Seq::<Seq<char>>::empty()
        } else {
            seq![s[i - 1]]
        })
    }
}

/// Splitting a source list splits its resolution.
proof fn resolve_all_concat(page: Seq<char>, base: Seq<char>, a: Seq<Seq<char>>, b: Seq<Seq<char>>)
    ensures
        resolve_all(page, base, a + b) == resolve_all(page, base, a) + resolve_all(page, base, b),
    decreases a.len(),
{
    if a.len() == 0 {
        assert(a + b =~= b);
        assert(resolve_all(page, base, a) + resolve_all(page, base, b) =~= resolve_all(
            page,
            base,
            b,
        ));
    } else {
        resolve_all_concat(page, base, a.subrange(1, a.len() as int), b);
        assert((a + b).subrange(1, (a + b).len() as int) =~= a.subrange(1, a.len() as int) + b);
        assert(resolve_all(page, base, a + b) =~= resolve_all(page, base, a) + resolve_all(
            page,
            base,
            b,
        ));
    }
}

/// Splitting a list splits its filtering.
proof fn filter_images_concat(a: Seq<Seq<char>>, b: Seq<Seq<char>>)
    ensures
        filter_images(a + b) == filter_images(a) + filter_images(b),
    decreases a.len(),
{
    if a.len() == 0 {
        assert(a + b =~= b);
        assert(filter_images(a) + filter_images(b) =~= filter_images(b));
    } else {
        filter_images_concat(a.subrange(1, a.len() as int), b);
        assert((a + b).subrange(1, (a + b).len() as int) =~= a.subrange(1, a.len() as int) + b);
        assert(filter_images(a + b) =~= filter_images(a) + filter_images(b));
    }
}

/// Extract image URLs from markup: `images_spec` of the parsed tree against
/// the page URL.
pub fn extract_images(html: &str, base_url: &str) -> (r: Result<
    Vec<String>,
    crate::errors::ExtractError,
>)
    ensures
        (match r {
            Ok(v) => images_spec(crate::bridge::dom_of(html@), base_url@) == Ok::<
                Seq<Seq<char>>,
                crate::errors::ExtractError,
            >(crate::text::strings_view(v@)),
            Err(e) => images_spec(crate::bridge::dom_of(html@), base_url@) == Err::<
                Seq<Seq<char>>,
                crate::errors::ExtractError,
            >(e),
        }),
{
    let doc = crate::bridge::parse_document(html);
    extract_images_doc(&doc, base_url)
}

} // verus!
