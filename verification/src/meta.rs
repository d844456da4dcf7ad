//! Metadata extraction: title, favicon, language, the fixed OpenGraph,
//! article and Dublin Core mappings, and the generic meta-tag merge.

use vstd::prelude::*;

use crate::dom::{attr_of, texts_of, Document, ElemM, Node, NodeM};
use crate::query::{query_doc, query_doc_exec, elems_view};
use crate::selector::{Compound, CompoundM, Cond, CondM, Selector, SelectorM};
use crate::text::{chars_eq, chars_to_string, str_to_chars};

verus! {

broadcast use vstd::std_specs::vec::axiom_vec_index_decreases;

/// A metadata value: a single string or an accumulated array.
pub enum MetaValue {
    One(String),
    Many(Vec<String>),
}

/// Model of a metadata value.
#[verifier::ext_equal]
pub enum MetaValueM {
    One(Seq<char>),
    Many(Seq<Seq<char>>),
}

impl View for MetaValue {
    type V = MetaValueM;

    open spec fn view(&self) -> MetaValueM {
        match self {
            MetaValue::One(s) => MetaValueM::One(s@),
            MetaValue::Many(v) => MetaValueM::Many(crate::text::strings_view(v@)),
        }
    }
}

/// The extracted metadata: key-value pairs in insertion order, keys unique.
pub struct Metadata {
    pub entries: Vec<(String, MetaValue)>,
}

/// Model of the metadata map: the association list in insertion order.
pub open spec fn entries_view(es: Seq<(String, MetaValue)>) -> Seq<(Seq<char>, MetaValueM)> {
    es.map_values(|e: (String, MetaValue)| (e.0@, e.1@))
}

impl View for Metadata {
    type V = Seq<(Seq<char>, MetaValueM)>;

    open spec fn view(&self) -> Seq<(Seq<char>, MetaValueM)> {
        entries_view(self.entries@)
    }
}

/// First value bound to `key`.
pub open spec fn meta_get(m: Seq<(Seq<char>, MetaValueM)>, key: Seq<char>) -> Option<MetaValueM>
    decreases m.len(),
{
    if m.len() == 0 {
        None
    } else if m[0].0 == key {
        Some(m[0].1)
    } else {
        meta_get(m.subrange(1, m.len() as int), key)
    }
}

/// Bind `key` to `val`, replacing an existing binding in place or appending.
pub open spec fn meta_set(m: Seq<(Seq<char>, MetaValueM)>, key: Seq<char>, val: MetaValueM) -> Seq<
    (Seq<char>, MetaValueM),
>
    decreases m.len(),
{
    if m.len() == 0 {
        seq![(key, val)]
    } else if m[0].0 == key {
        seq![(key, val)] + m.subrange(1, m.len() as int)
    } else {
        seq![m[0]] + meta_set(m.subrange(1, m.len() as int), key, val)
    }
}

impl Metadata {
    /// Look a key up.
    pub fn get(&self, key: &Vec<char>) -> (r: Option<&MetaValue>)
        ensures
            (match r {
                Some(v) => meta_get(self@, key@) == Some(v@),
                None => meta_get(self@, key@) is None,
            }),
    {
        let ghost all = self@;
        proof {
            assert(all.subrange(0, all.len() as int) =~= all);
        }
        for i in 0..self.entries.len()
            invariant
                all == entries_view(self.entries@),
                meta_get(all.subrange(i as int, all.len() as int), key@) == meta_get(all, key@),
        {
            let ghost rest = all.subrange(i as int, all.len() as int);
            proof {
                assert(rest[0] == (self.entries@[i as int].0@, self.entries@[i as int].1@));
                assert(rest.subrange(1, rest.len() as int) =~= all.subrange(
                    i + 1,
                    all.len() as int,
                ));
            }
            let k = str_to_chars(self.entries[i].0.as_str());
            if chars_eq(&k, key) {
                return Some(&self.entries[i].1);
            }
        }
        proof {
            assert(all.subrange(all.len() as int, all.len() as int) =~= Seq::<
                (Seq<char>, MetaValueM),
            >::empty());
        }
        None
    }

    /// Bind a key.
    pub fn set(&mut self, key: &Vec<char>, val: MetaValue)
        ensures
            final(self)@ == meta_set(old(self)@, key@, val@),
    {
        let ghost all = old(self)@;
        let ghost valm = val@;
        let mut i: usize = 0;
        while i < self.entries.len()
            invariant
                all == entries_view(self.entries@),
                i <= self.entries.len(),
                forall|j: int| 0 <= j < i ==> all[j].0 != key@,
                self.entries == old(self).entries,
                valm == val@,
            decreases self.entries.len() - i,
        {
            let k = str_to_chars(self.entries[i].0.as_str());
            if chars_eq(&k, key) {
                let pair = (chars_to_string(key), val);
                self.entries.set(i, pair);
                proof {
                    meta_set_prefix(all, key@, valm, i as int);
                    assert(entries_view(self.entries@) =~= all.update(i as int, (key@, valm)));
                }
                return ;
            }
            i = i + 1;
        }
        let pair = (chars_to_string(key), val);
        self.entries.push(pair);
        proof {
            meta_set_append(all, key@, valm);
            assert(entries_view(self.entries@) =~= all + seq![(key@, valm)]);
        }
    }
}

/// Setting an absent key appends.
proof fn meta_set_append(m: Seq<(Seq<char>, MetaValueM)>, key: Seq<char>, val: MetaValueM)
    requires
        forall|j: int| 0 <= j < m.len() ==> m[j].0 != key,
    ensures
        meta_set(m, key, val) == m + seq![(key, val)],
    decreases m.len(),
{
    if m.len() == 0 {
        assert(meta_set(m, key, val) =~= m + seq![(key, val)]);
    } else {
        meta_set_append(m.subrange(1, m.len() as int), key, val);
        assert(meta_set(m, key, val) =~= m + seq![(key, val)]);
    }
}

/// Setting a present key updates it in place.
proof fn meta_set_prefix(m: Seq<(Seq<char>, MetaValueM)>, key: Seq<char>, val: MetaValueM, i: int)
    requires
        0 <= i < m.len(),
        m[i].0 == key,
        forall|j: int| 0 <= j < i ==> m[j].0 != key,
    ensures
        meta_set(m, key, val) == m.update(i, (key, val)),
    decreases i,
{
    if i == 0 {
        assert(meta_set(m, key, val) =~= m.update(0, (key, val)));
    } else {
        meta_set_prefix(m.subrange(1, m.len() as int), key, val, i - 1);
        assert(meta_set(m, key, val) =~= m.update(i, (key, val)));
    }
}

/// The generic meta-tag merge: a fresh key binds directly; a second
/// `description` joins with a comma; any other repeated string key (except
/// `title`, which is never overwritten) turns into a two-element array; an
/// array under `description` collapses back to one comma-joined string;
/// any other array appends.
pub open spec fn meta_merge(
    m: Seq<(Seq<char>, MetaValueM)>,
    key: Seq<char>,
    content: Seq<char>,
) -> Seq<(Seq<char>, MetaValueM)> {
    match meta_get(m, key) {
        None => meta_set(m, key, MetaValueM::One(content)),
        Some(MetaValueM::One(ex)) => {
            if key == "description"@ {
                meta_set(m, key, MetaValueM::One(ex + ", "@ + content))
            } else if key != "title"@ {
                meta_set(m, key, MetaValueM::Many(seq![ex, content]))
            } else {
                m
            }
        },
        Some(MetaValueM::Many(arr)) => {
            if key == "description"@ {
                meta_set(m, key, MetaValueM::One(join_comma(arr.push(content))))
            } else {
                meta_set(m, key, MetaValueM::Many(arr.push(content)))
            }
        },
    }
}

/// Join strings with a comma and a space.
pub open spec fn join_comma(parts: Seq<Seq<char>>) -> Seq<char>
    decreases parts.len(),
{
    if parts.len() == 0 {
        Seq::empty()
    } else if parts.len() == 1 {
        parts[0]
    } else {
        parts[0] + ", "@ + join_comma(parts.subrange(1, parts.len() as int))
    }
}

/// Join strings with a comma and a space, executable form.
fn join_comma_exec(parts: &Vec<String>) -> (r: Vec<char>)
    ensures
        r@ == join_comma(crate::text::strings_view(parts@)),
{
    let mut out: Vec<char> = Vec::new();
    let ghost model = crate::text::strings_view(parts@);
    proof {
        assert(model.subrange(0, model.len() as int) =~= model);
    }
    for i in 0..parts.len()
        invariant
            model == crate::text::strings_view(parts@),
            model.len() == parts@.len(),
            out@ + join_comma(model.subrange(i as int, model.len() as int)) == join_comma(model),
    {
        let ghost rest = model.subrange(i as int, model.len() as int);
        proof {
            assert(rest[0] == parts@[i as int]@);
            assert(rest.subrange(1, rest.len() as int) =~= model.subrange(
                i + 1,
                model.len() as int,
            ));
        }
        let p = str_to_chars(parts[i].as_str());
        let ghost mark = out@;
        let mut k: usize = 0;
        while k < p.len()
            invariant
                k <= p.len(),
                p@ == parts@[i as int]@,
                out@ == mark + p@.take(k as int),
            decreases p.len() - k,
        {
            out.push(p[k]);
            proof {
                assert(out@ =~= mark + p@.take(k + 1));
            }
            k = k + 1;
        }
        proof {
            assert(p@.take(p@.len() as int) =~= p@);
        }
        if i + 1 < parts.len() {
            out.push(',');
            out.push(' ');
            proof {
                reveal_strlit(", ");
                assert(out@ =~= (mark + rest[0]) + ", "@);
                assert(out@ + join_comma(model.subrange(i + 1, model.len() as int))
                    =~= join_comma(model));
            }
        } else {
            proof {
                assert(rest.len() == 1);
                assert(model.subrange(i + 1, model.len() as int) =~= Seq::<Seq<char>>::empty());
                assert(out@ + join_comma(model.subrange(i + 1, model.len() as int)) =~= join_comma(
                    model,
                ));
            }
        }
    }
    proof {
        assert(model.subrange(model.len() as int, model.len() as int)
            =~= Seq::<Seq<char>>::empty());
        assert(out@ + Seq::<char>::empty() =~= out@);
    }
    out
}

/// Apply the generic merge for one meta tag, executable form.
pub fn meta_merge_exec(m: &mut Metadata, key: &Vec<char>, content: &Vec<char>)
    ensures
        final(m)@ == meta_merge(old(m)@, key@, content@),
{
    let existing: Option<MetaValue> = match m.get(key) {
        Some(MetaValue::One(s)) => Some(MetaValue::One(chars_to_string(&str_to_chars(s.as_str())))),
        Some(MetaValue::Many(v)) => {
            let mut copy: Vec<String> = Vec::new();
            let ghost vm = crate::text::strings_view(v@);
            for i in 0..v.len()
                invariant
                    vm == crate::text::strings_view(v@),
                    vm.len() == v@.len(),
                    crate::text::strings_view(copy@) == vm.take(i as int),
            {
                let item = chars_to_string(&str_to_chars(v[i].as_str()));
                proof {
                    crate::text::strings_view_push(copy@, item);
                }
                copy.push(item);
                proof {
                    assert(vm[i as int] == v@[i as int]@);
                    assert(crate::text::strings_view(copy@) =~= vm.take(i + 1));
                }
            }
            proof {
                assert(vm.take(vm.len() as int) =~= vm);
            }
            Some(MetaValue::Many(copy))
        },
        None => None,
    };
    match existing {
        None => {
            m.set(key, MetaValue::One(chars_to_string(content)));
        },
        Some(MetaValue::One(ex)) => {
            if crate::text::chars_eq_str(key, "description") {
                let mut joined = str_to_chars(ex.as_str());
                joined.push(',');
                joined.push(' ');
                let ghost mark = joined@;
                let mut k: usize = 0;
                while k < content.len()
                    invariant
                        k <= content.len(),
                        joined@ == mark + content@.take(k as int),
                    decreases content.len() - k,
                {
                    joined.push(content[k]);
                    proof {
                        assert(joined@ =~= mark + content@.take(k + 1));
                    }
                    k = k + 1;
                }
                proof {
                    reveal_strlit(", ");
                    assert(content@.take(content@.len() as int) =~= content@);
                    assert(joined@ =~= ex@ + ", "@ + content@);
                }
                m.set(key, MetaValue::One(chars_to_string(&joined)));
            } else if !crate::text::chars_eq_str(key, "title") {
                let mut arr: Vec<String> = Vec::new();
                proof {
                    crate::text::strings_view_push(arr@, ex);
                }
                arr.push(ex);
                let item = chars_to_string(content);
                proof {
                    crate::text::strings_view_push(arr@, item);
                }
                arr.push(item);
                let v = MetaValue::Many(arr);
                proof {
                    assert(v@ =~~= MetaValueM::Many(seq![ex@, content@]));
                }
                m.set(key, v);
            }
        },
        Some(MetaValue::Many(arr)) => {
            if crate::text::chars_eq_str(key, "description") {
                let mut arr2 = arr;
                let ghost am = crate::text::strings_view(arr2@);
                let item = chars_to_string(content);
                proof {
                    crate::text::strings_view_push(arr2@, item);
                }
                arr2.push(item);
                proof {
                    assert(crate::text::strings_view(arr2@) =~= am.push(content@));
                }
                let joined = join_comma_exec(&arr2);
                m.set(key, MetaValue::One(chars_to_string(&joined)));
            } else {
                let mut arr2 = arr;
                let ghost am = crate::text::strings_view(arr2@);
                let item = chars_to_string(content);
                proof {
                    crate::text::strings_view_push(arr2@, item);
                }
                arr2.push(item);
                proof {
                    assert(crate::text::strings_view(arr2@) =~= am.push(content@));
                }
                let v = MetaValue::Many(arr2);
                m.set(key, v);
            }
        },
    }
}

/// Two `description` meta tags concatenate into one comma-joined string.
pub proof fn lemma_description_concat(
    m: Seq<(Seq<char>, MetaValueM)>,
    a: Seq<char>,
    b: Seq<char>,
)
    requires
        meta_get(m, "description"@) == Some(MetaValueM::One(a)),
    ensures
        meta_get(meta_merge(m, "description"@, b), "description"@) == Some(
            MetaValueM::One(a + ", "@ + b),
        ),
{
    lemma_meta_set_get(m, "description"@, MetaValueM::One(a + ", "@ + b));
}

/// Two same-named non-description, non-title meta tags become a two-element
/// array.
pub proof fn lemma_repeat_becomes_array(
    m: Seq<(Seq<char>, MetaValueM)>,
    key: Seq<char>,
    a: Seq<char>,
    b: Seq<char>,
)
    requires
        meta_get(m, key) == Some(MetaValueM::One(a)),
        key != "description"@,
        key != "title"@,
    ensures
        meta_get(meta_merge(m, key, b), key) == Some(MetaValueM::Many(seq![a, b])),
{
    lemma_meta_set_get(m, key, MetaValueM::Many(seq![a, b]));
}

/// An existing array accumulates: merging appends to it (and a merge into a
/// fresh key starts a single value).
pub proof fn lemma_array_accumulates(
    m: Seq<(Seq<char>, MetaValueM)>,
    key: Seq<char>,
    arr: Seq<Seq<char>>,
    b: Seq<char>,
)
    requires
        meta_get(m, key) == Some(MetaValueM::Many(arr)),
        key != "description"@,
    ensures
        meta_get(meta_merge(m, key, b), key) == Some(MetaValueM::Many(arr.push(b))),
{
    lemma_meta_set_get(m, key, MetaValueM::Many(arr.push(b)));
}

/// After a set, the key holds the value.
pub proof fn lemma_meta_set_get(m: Seq<(Seq<char>, MetaValueM)>, key: Seq<char>, val: MetaValueM)
    ensures
        meta_get(meta_set(m, key, val), key) == Some(val),
    decreases m.len(),
{
    if m.len() == 0 {
        assert(meta_get(meta_set(m, key, val), key) == Some(val));
    } else if m[0].0 == key {
        let s = meta_set(m, key, val);
        assert(s[0] == (key, val));
    } else {
        lemma_meta_set_get(m.subrange(1, m.len() as int), key, val);
        let s = meta_set(m, key, val);
        assert(s[0] == m[0]);
        assert(s.subrange(1, s.len() as int) =~= meta_set(
            m.subrange(1, m.len() as int),
            key,
            val,
        ));
    }
}


/// A selector of one compound: an optional tag and one condition.
pub open spec fn sel1(tag: Option<Seq<char>>, cond: CondM) -> SelectorM {
    SelectorM { parts: seq![CompoundM { tag: tag, conds: seq![cond] }] }
}

/// Build a one-compound selector with a tag and one condition.
fn sel1_tag_exec(tag: &str, cond: Cond) -> (r: Selector)
    ensures
        r@ == sel1(Some(tag@), cond@),
{
    let ghost cm = cond@;
    let mut conds: Vec<Cond> = Vec::new();
    conds.push(cond);
    let mut parts: Vec<Compound> = Vec::new();
    parts.push(Compound { tag: Some(str_to_chars(tag)), conds });
    let r = Selector { parts };
    proof {
        assert(r@.parts =~~= sel1(Some(tag@), cm).parts);
    }
    r
}

/// The first match's attribute value, if there is a match and it holds the
/// attribute.
pub open spec fn first_attr_spec(doc: Seq<NodeM>, sel: SelectorM, attr: Seq<char>) -> Option<
    Seq<char>,
> {
    let q = query_doc(doc, sel);
    if q.len() > 0 {
        attr_of(q[0].attrs, attr)
    } else {
        None
    }
}

/// The first match's attribute value, executable form.
fn first_attr(doc: &Vec<Node>, sel: &Selector, attr: &Vec<char>) -> (r: Option<Vec<char>>)
    ensures
        (match r {
            Some(v) => first_attr_spec(crate::dom::forest_view(doc@), sel@, attr@) == Some(v@),
            None => first_attr_spec(crate::dom::forest_view(doc@), sel@, attr@) is None,
        }),
{
    let q = query_doc_exec(doc, sel);
    if q.len() > 0 {
        proof {
            assert(elems_view(q@)[0] == q@[0]@);
        }
        q[0].get_attr(attr)
    } else {
        None
    }
}

/// The first match's text content, if there is a match.
pub open spec fn first_text_spec(doc: Seq<NodeM>, sel: SelectorM) -> Option<Seq<char>> {
    let q = query_doc(doc, sel);
    if q.len() > 0 {
        Some(texts_of(q[0].children))
    } else {
        None
    }
}

/// The first match's text content, executable form.
fn first_text(doc: &Vec<Node>, sel: &Selector) -> (r: Option<Vec<char>>)
    ensures
        (match r {
            Some(v) => first_text_spec(crate::dom::forest_view(doc@), sel@) == Some(v@),
            None => first_text_spec(crate::dom::forest_view(doc@), sel@) is None,
        }),
{
    let q = query_doc_exec(doc, sel);
    if q.len() > 0 {
        proof {
            assert(elems_view(q@)[0] == q@[0]@);
        }
        Some(crate::dom::texts_of_children(&q[0].children))
    } else {
        None
    }
}

/// The attribute values of a list of elements, in order, missing ones
/// skipped.
pub open spec fn attrs_of_elems(q: Seq<ElemM>, attr: Seq<char>) -> Seq<Seq<char>>
    decreases q.len(),
{
    if q.len() == 0 {
        Seq::empty()
    } else {
        (match attr_of(q[0].attrs, attr) {
            Some(v) => seq![v],
            None => Seq::<Seq<char>>::empty(),
        }) + attrs_of_elems(q.subrange(1, q.len() as int), attr)
    }
}

/// Splitting an element list splits its attribute values.
pub proof fn attrs_of_elems_concat_pub(a: Seq<ElemM>, b: Seq<ElemM>, attr: Seq<char>)
    ensures
        attrs_of_elems(a + b, attr) == attrs_of_elems(a, attr) + attrs_of_elems(b, attr),
    decreases a.len(),
{
    if a.len() == 0 {
        assert(a + b =~= b);
        assert(attrs_of_elems(a, attr) + attrs_of_elems(b, attr) =~= attrs_of_elems(b, attr));
    } else {
        attrs_of_elems_concat_pub(a.subrange(1, a.len() as int), b, attr);
        assert((a + b).subrange(1, (a + b).len() as int) =~= a.subrange(1, a.len() as int) + b);
        assert(attrs_of_elems(a + b, attr) =~= attrs_of_elems(a, attr) + attrs_of_elems(b, attr));
    }
}

/// All matches' attribute values, executable form.
fn all_attrs(doc: &Vec<Node>, sel: &Selector, attr: &Vec<char>) -> (r: Vec<Vec<char>>)
    ensures
        crate::text::texts_view(r@) == attrs_of_elems(
            query_doc(crate::dom::forest_view(doc@), sel@),
            attr@,
        ),
{
    let q = query_doc_exec(doc, sel);
    let ghost model = elems_view(q@);
    let mut out: Vec<Vec<char>> = Vec::new();
    proof {
        assert(crate::text::texts_view(out@) + attrs_of_elems(model.take(0), attr@)
            =~= crate::text::texts_view(out@));
    }
    for i in 0..q.len()
        invariant
            model == elems_view(q@),
            model.len() == q@.len(),
            crate::text::texts_view(out@) == attrs_of_elems(model.take(i as int), attr@),
    {
        proof {
            assert(model[i as int] == q@[i as int]@);
        }
        match q[i].get_attr(attr) {
            Some(v) => {
                proof {
                    crate::text::texts_view_push(out@, v);
                }
                out.push(v);
            },
            None => {},
        }
        proof {
            attrs_of_elems_concat_pub(model.take(i as int), seq![model[i as int]], attr@);
            assert(model.take(i as int) + seq![model[i as int]] =~= model.take(i + 1));
            assert(seq![model[i as int]].subrange(1, 1) =~= Seq::<ElemM>::empty());
            assert(seq![model[i as int]][0] == model[i as int]);
            assert(attrs_of_elems(Seq::<ElemM>::empty(), attr@) == Seq::<Seq<char>>::empty());
            assert(attrs_of_elems(seq![model[i as int]], attr@) =~= (match attr_of(
                model[i as int].attrs,
                attr@,
            ) {
                Some(v) => seq![v],
                None => Seq::<Seq<char>>::empty(),
            }));
            assert(crate::text::texts_view(out@) =~= attrs_of_elems(model.take(i + 1), attr@));
        }
    }
    proof {
        assert(model.take(model.len() as int) =~= model);
    }
    out
}

/// Bind `out_key` to the first `meta[prop_attr=prop]` content found, if any.
pub open spec fn set_from(
    m: Seq<(Seq<char>, MetaValueM)>,
    doc: Seq<NodeM>,
    prop_attr: Seq<char>,
    prop: Seq<char>,
    out_key: Seq<char>,
) -> Seq<(Seq<char>, MetaValueM)> {
    match first_attr_spec(
        doc,
        sel1(Some("meta"@), CondM::Eq { name: prop_attr, value: prop }),
        "content"@,
    ) {
        Some(v) => meta_set(m, out_key, MetaValueM::One(v)),
        None => m,
    }
}

/// Apply one fixed meta mapping, executable form.
fn set_from_exec(
    m: &mut Metadata,
    doc: &Vec<Node>,
    prop_attr: &str,
    prop: &str,
    out_key: &str,
)
    ensures
        final(m)@ == set_from(
            old(m)@,
            crate::dom::forest_view(doc@),
            prop_attr@,
            prop@,
            out_key@,
        ),
{
    let sel = sel1_tag_exec(
        "meta",
        Cond::Eq { name: str_to_chars(prop_attr), value: str_to_chars(prop) },
    );
    let content = str_to_chars("content");
    match first_attr(doc, &sel, &content) {
        Some(v) => {
            let key = str_to_chars(out_key);
            m.set(&key, MetaValue::One(chars_to_string(&v)));
        },
        None => {},
    }
}

/// Accumulate `og:locale:alternate` values: every occurrence appends to an
/// array under `ogLocaleAlternate`.
pub open spec fn acc_locale(m: Seq<(Seq<char>, MetaValueM)>, vals: Seq<Seq<char>>) -> Seq<
    (Seq<char>, MetaValueM),
>
    decreases vals.len(),
{
    if vals.len() == 0 {
        m
    } else {
        let m2 = match meta_get(m, "ogLocaleAlternate"@) {
            Some(MetaValueM::Many(arr)) => meta_set(
                m,
                "ogLocaleAlternate"@,
                MetaValueM::Many(arr.push(vals[0])),
            ),
            Some(MetaValueM::One(_)) => m,
            None => meta_set(m, "ogLocaleAlternate"@, MetaValueM::Many(seq![vals[0]])),
        };
        acc_locale(m2, vals.subrange(1, vals.len() as int))
    }
}

/// The key a generic meta tag merges under: `name`, else `property`, else
/// `itemprop`.
pub open spec fn generic_key(e: ElemM) -> Option<Seq<char>> {
    match attr_of(e.attrs, "name"@) {
        Some(k) => Some(k),
        None => match attr_of(e.attrs, "property"@) {
            Some(k) => Some(k),
            None => attr_of(e.attrs, "itemprop"@),
        },
    }
}

/// The generic pass: merge every meta tag that has a key and a `content`.
pub open spec fn generic_pass(m: Seq<(Seq<char>, MetaValueM)>, q: Seq<ElemM>) -> Seq<
    (Seq<char>, MetaValueM),
>
    decreases q.len(),
{
    if q.len() == 0 {
        m
    } else {
        let m2 = match generic_key(q[0]) {
            Some(k) => match attr_of(q[0].attrs, "content"@) {
                Some(c) => meta_merge(m, k, c),
                None => m,
            },
            None => m,
        };
        generic_pass(m2, q.subrange(1, q.len() as int))
    }
}

/// The title fallback source: `ogTitle`, else `og:title`, else
/// `twitter:title`, taken when it holds one non-empty string.
pub open spec fn title_fallback(m: Seq<(Seq<char>, MetaValueM)>) -> Option<Seq<char>> {
    let v = match meta_get(m, "ogTitle"@) {
        Some(x) => Some(x),
        None => match meta_get(m, "og:title"@) {
            Some(x) => Some(x),
            None => meta_get(m, "twitter:title"@),
        },
    };
    match v {
        Some(MetaValueM::One(s)) => if s.len() > 0 {
            Some(s)
        } else {
            None
        },
        _ => None,
    }
}

/// The metadata search root: the first `head` element when there is one,
/// else the whole document.
pub open spec fn meta_root(doc: Seq<NodeM>) -> Seq<NodeM> {
    let hq = query_doc(doc, crate::transform::tag_sel("head"@));
    if hq.len() > 0 {
        seq![NodeM::Element(hq[0])]
    } else {
        doc
    }
}

/// Title, favicon and language.
pub open spec fn meta_basics(
    m: Seq<(Seq<char>, MetaValueM)>,
    root: Seq<NodeM>,
    doc: Seq<NodeM>,
) -> Seq<(Seq<char>, MetaValueM)> {
    let m1 = match first_text_spec(root, crate::transform::tag_sel("title"@)) {
        Some(t) => meta_set(m, "title"@, MetaValueM::One(t)),
        None => m,
    };
    let fav = match first_attr_spec(
        root,
        sel1(Some("link"@), CondM::Eq { name: "rel"@, value: "icon"@ }),
        "href"@,
    ) {
        Some(v) => Some(v),
        None => first_attr_spec(
            root,
            sel1(Some("link"@), CondM::Substr { name: "rel"@, value: "icon"@ }),
            "href"@,
        ),
    };
    let m2 = match fav {
        Some(v) => meta_set(m1, "favicon"@, MetaValueM::One(v)),
        None => m1,
    };
    match first_attr_spec(doc, sel1(Some("html"@), CondM::Exists { name: "lang"@ }), "lang"@) {
        Some(v) => meta_set(m2, "language"@, MetaValueM::One(v)),
        None => m2,
    }
}

/// The fixed OpenGraph mappings searched under the head.
pub open spec fn meta_og(m: Seq<(Seq<char>, MetaValueM)>, root: Seq<NodeM>) -> Seq<
    (Seq<char>, MetaValueM),
> {
    let m4 = set_from(m, root, "property"@, "og:title"@, "ogTitle"@);
    let m5 = set_from(m4, root, "property"@, "og:description"@, "ogDescription"@);
    let m6 = set_from(m5, root, "property"@, "og:url"@, "ogUrl"@);
    let m7 = set_from(m6, root, "property"@, "og:image"@, "ogImage"@);
    let m8 = set_from(m7, root, "property"@, "og:audio"@, "ogAudio"@);
    let m9 = set_from(m8, root, "property"@, "og:determiner"@, "ogDeterminer"@);
    set_from(m9, root, "property"@, "og:locale"@, "ogLocale"@)
}

/// The `og:locale:alternate` values of the search root.
pub open spec fn locale_values(root: Seq<NodeM>) -> Seq<Seq<char>> {
    attrs_of_elems(
        query_doc(
            root,
            sel1(Some("meta"@), CondM::Eq { name: "property"@, value: "og:locale:alternate"@ }),
        ),
        "content"@,
    )
}

/// The fixed mappings searched against the whole document.
pub open spec fn meta_docwide(m: Seq<(Seq<char>, MetaValueM)>, doc: Seq<NodeM>) -> Seq<
    (Seq<char>, MetaValueM),
> {
    let m12 = set_from(m, doc, "property"@, "og:site_name"@, "ogSiteName"@);
    let m13 = set_from(m12, doc, "property"@, "og:video"@, "ogVideo"@);
    let m14 = set_from(m13, doc, "name"@, "article:section"@, "articleSection"@);
    let m15 = set_from(m14, doc, "name"@, "article:tag"@, "articleTag"@);
    let m16 = set_from(m15, doc, "property"@, "article:published_time"@, "publishedTime"@);
    let m17 = set_from(m16, doc, "property"@, "article:modified_time"@, "modifiedTime"@);
    let m18 = set_from(m17, doc, "name"@, "dcterms.keywords"@, "dcTermsKeywords"@);
    let m19 = set_from(m18, doc, "name"@, "dc.description"@, "dcDescription"@);
    let m20 = set_from(m19, doc, "name"@, "dc.subject"@, "dcSubject"@);
    let m21 = set_from(m20, doc, "name"@, "dcterms.subject"@, "dcTermsSubject"@);
    let m22 = set_from(m21, doc, "name"@, "dcterms.audience"@, "dcTermsAudience"@);
    let m23 = set_from(m22, doc, "name"@, "dc.type"@, "dcType"@);
    let m24 = set_from(m23, doc, "name"@, "dcterms.type"@, "dcTermsType"@);
    let m25 = set_from(m24, doc, "name"@, "dc.date"@, "dcDate"@);
    let m26 = set_from(m25, doc, "name"@, "dc.date.created"@, "dcDateCreated"@);
    set_from(m26, doc, "name"@, "dcterms.created"@, "dcTermsCreated"@)
}

/// The title fallback applied after the generic pass.
pub open spec fn apply_title_fallback(m: Seq<(Seq<char>, MetaValueM)>) -> Seq<
    (Seq<char>, MetaValueM),
> {
    if meta_get(m, "title"@) is None {
        match title_fallback(m) {
            Some(t) => meta_set(m, "title"@, MetaValueM::One(t)),
            None => m,
        }
    } else {
        m
    }
}

/// What metadata extraction returns for a document.
pub open spec fn metadata_spec(doc: Seq<NodeM>) -> Seq<(Seq<char>, MetaValueM)> {
    let root = meta_root(doc);
    let m3 = meta_basics(Seq::empty(), root, doc);
    let m10 = meta_og(m3, root);
    let m11 = acc_locale(m10, locale_values(root));
    let m27 = meta_docwide(m11, doc);
    let m28 = generic_pass(m27, query_doc(doc, crate::transform::tag_sel("meta"@)));
    apply_title_fallback(m28)
}

/// Title, favicon and language, executable form.
fn meta_basics_exec(m: &mut Metadata, root: &Vec<Node>, doc: &Vec<Node>)
    ensures
        final(m)@ == meta_basics(
            old(m)@,
            crate::dom::forest_view(root@),
            crate::dom::forest_view(doc@),
        ),
{
    let title_sel = crate::transform::tag_sel_pub("title");
    match first_text(root, &title_sel) {
        Some(t) => {
            let key = str_to_chars("title");
            m.set(&key, MetaValue::One(chars_to_string(&t)));
        },
        None => {},
    }
    let href = str_to_chars("href");
    let icon_eq = sel1_tag_exec(
        "link",
        Cond::Eq { name: str_to_chars("rel"), value: str_to_chars("icon") },
    );
    let icon_sub = sel1_tag_exec(
        "link",
        Cond::Substr { name: str_to_chars("rel"), value: str_to_chars("icon") },
    );
    let fav = match first_attr(root, &icon_eq, &href) {
        Some(v) => Some(v),
        None => first_attr(root, &icon_sub, &href),
    };
    match fav {
        Some(v) => {
            let key = str_to_chars("favicon");
            m.set(&key, MetaValue::One(chars_to_string(&v)));
        },
        None => {},
    }
    let lang = str_to_chars("lang");
    let lang_sel = sel1_tag_exec("html", Cond::Exists { name: str_to_chars("lang") });
    match first_attr(doc, &lang_sel, &lang) {
        Some(v) => {
            let key = str_to_chars("language");
            m.set(&key, MetaValue::One(chars_to_string(&v)));
        },
        None => {},
    }
}

/// The head OpenGraph mappings, executable form.
fn meta_og_exec(m: &mut Metadata, root: &Vec<Node>)
    ensures
        final(m)@ == meta_og(old(m)@, crate::dom::forest_view(root@)),
{
    set_from_exec(m, root, "property", "og:title", "ogTitle");
    set_from_exec(m, root, "property", "og:description", "ogDescription");
    set_from_exec(m, root, "property", "og:url", "ogUrl");
    set_from_exec(m, root, "property", "og:image", "ogImage");
    set_from_exec(m, root, "property", "og:audio", "ogAudio");
    set_from_exec(m, root, "property", "og:determiner", "ogDeterminer");
    set_from_exec(m, root, "property", "og:locale", "ogLocale");
}

/// Accumulate the `og:locale:alternate` values, executable form.
fn acc_locale_exec(m: &mut Metadata, root: &Vec<Node>)
    ensures
        final(m)@ == acc_locale(old(m)@, locale_values(crate::dom::forest_view(root@))),
{
    let loc_sel = sel1_tag_exec(
        "meta",
        Cond::Eq {
            name: str_to_chars("property"),
            value: str_to_chars("og:locale:alternate"),
        },
    );
    let content = str_to_chars("content");
    let locs = all_attrs(root, &loc_sel, &content);
    let ghost locsm = crate::text::texts_view(locs@);
    let ghost m10 = m@;
    proof {
        assert(locsm.subrange(0, locsm.len() as int) =~= locsm);
    }
    let key_loc = str_to_chars("ogLocaleAlternate");
    for i in 0..locs.len()
        invariant
            locsm == crate::text::texts_view(locs@),
            locsm.len() == locs@.len(),
            key_loc@ == "ogLocaleAlternate"@,
            acc_locale(m@, locsm.subrange(i as int, locsm.len() as int)) == acc_locale(
                m10,
                locsm,
            ),
    {
        let ghost rest = locsm.subrange(i as int, locsm.len() as int);
        proof {
            assert(rest[0] == locs@[i as int]@);
            assert(rest.subrange(1, rest.len() as int) =~= locsm.subrange(
                i + 1,
                locsm.len() as int,
            ));
        }
        let existing: Option<Vec<String>> = match m.get(&key_loc) {
            Some(MetaValue::Many(v)) => {
                let mut copy: Vec<String> = Vec::new();
                let ghost vm = crate::text::strings_view(v@);
                for t in 0..v.len()
                    invariant
                        vm == crate::text::strings_view(v@),
                        vm.len() == v@.len(),
                        crate::text::strings_view(copy@) == vm.take(t as int),
                {
                    let item = chars_to_string(&str_to_chars(v[t].as_str()));
                    proof {
                        crate::text::strings_view_push(copy@, item);
                    }
                    copy.push(item);
                    proof {
                        assert(vm[t as int] == v@[t as int]@);
                        assert(crate::text::strings_view(copy@) =~= vm.take(t + 1));
                    }
                }
                proof {
                    assert(vm.take(vm.len() as int) =~= vm);
                }
                Some(copy)
            },
            Some(MetaValue::One(_)) => None,
            None => {
                let empty: Vec<String> = Vec::new();
                proof {
                    assert(crate::text::strings_view(empty@) =~= Seq::<Seq<char>>::empty());
                }
                Some(empty)
            },
        };
        match existing {
            Some(arr) => {
                let mut arr2 = arr;
                let ghost am = crate::text::strings_view(arr2@);
                let item = chars_to_string(&locs[i]);
                proof {
                    crate::text::strings_view_push(arr2@, item);
                }
                arr2.push(item);
                proof {
                    assert(crate::text::strings_view(arr2@) =~= am.push(rest[0]));
                    if meta_get(m@, "ogLocaleAlternate"@) is None {
                        assert(am.push(rest[0]) =~= seq![rest[0]]);
                    }
                }
                m.set(&key_loc, MetaValue::Many(arr2));
            },
            None => {},
        }
    }
    proof {
        assert(locsm.subrange(locsm.len() as int, locsm.len() as int)
            =~= Seq::<Seq<char>>::empty());
    }
}

/// The document-wide fixed mappings, executable form.
fn meta_docwide_exec(m: &mut Metadata, doc: &Vec<Node>)
    ensures
        final(m)@ == meta_docwide(old(m)@, crate::dom::forest_view(doc@)),
{
    set_from_exec(m, doc, "property", "og:site_name", "ogSiteName");
    set_from_exec(m, doc, "property", "og:video", "ogVideo");
    set_from_exec(m, doc, "name", "article:section", "articleSection");
    set_from_exec(m, doc, "name", "article:tag", "articleTag");
    set_from_exec(m, doc, "property", "article:published_time", "publishedTime");
    set_from_exec(m, doc, "property", "article:modified_time", "modifiedTime");
    set_from_exec(m, doc, "name", "dcterms.keywords", "dcTermsKeywords");
    set_from_exec(m, doc, "name", "dc.description", "dcDescription");
    set_from_exec(m, doc, "name", "dc.subject", "dcSubject");
    set_from_exec(m, doc, "name", "dcterms.subject", "dcTermsSubject");
    set_from_exec(m, doc, "name", "dcterms.audience", "dcTermsAudience");
    set_from_exec(m, doc, "name", "dc.type", "dcType");
    set_from_exec(m, doc, "name", "dcterms.type", "dcTermsType");
    set_from_exec(m, doc, "name", "dc.date", "dcDate");
    set_from_exec(m, doc, "name", "dc.date.created", "dcDateCreated");
    set_from_exec(m, doc, "name", "dcterms.created", "dcTermsCreated");
}

/// The generic merge over every meta tag, executable form.
fn generic_pass_exec(m: &mut Metadata, doc: &Vec<Node>)
    ensures
        final(m)@ == generic_pass(
            old(m)@,
            query_doc(crate::dom::forest_view(doc@), crate::transform::tag_sel("meta"@)),
        ),
{
    let meta_sel = crate::transform::tag_sel_pub("meta");
    let q = query_doc_exec(doc, &meta_sel);
    let ghost qm = elems_view(q@);
    let ghost m27 = m@;
    proof {
        assert(qm.subrange(0, qm.len() as int) =~= qm);
    }
    let name_a = str_to_chars("name");
    let prop_a = str_to_chars("property");
    let item_a = str_to_chars("itemprop");
    let content = str_to_chars("content");
    for i in 0..q.len()
        invariant
            qm == elems_view(q@),
            qm.len() == q@.len(),
            name_a@ == "name"@,
            prop_a@ == "property"@,
            item_a@ == "itemprop"@,
            content@ == "content"@,
            generic_pass(m@, qm.subrange(i as int, qm.len() as int)) == generic_pass(m27, qm),
    {
        let ghost rest = qm.subrange(i as int, qm.len() as int);
        proof {
            assert(rest[0] == q@[i as int]@);
            assert(rest.subrange(1, rest.len() as int) =~= qm.subrange(i + 1, qm.len() as int));
        }
        let key: Option<Vec<char>> = match q[i].get_attr(&name_a) {
            Some(k) => Some(k),
            None => match q[i].get_attr(&prop_a) {
                Some(k) => Some(k),
                None => q[i].get_attr(&item_a),
            },
        };
        match key {
            Some(k) => {
                match q[i].get_attr(&content) {
                    Some(c) => {
                        meta_merge_exec(m, &k, &c);
                    },
                    None => {},
                }
            },
            None => {},
        }
    }
    proof {
        assert(qm.subrange(qm.len() as int, qm.len() as int) =~= Seq::<ElemM>::empty());
    }
}

/// The title fallback, executable form.
fn title_fallback_exec(m: &mut Metadata)
    ensures
        final(m)@ == apply_title_fallback(old(m)@),
{
    let title_key = str_to_chars("title");
    let has_title = match m.get(&title_key) {
        Some(_) => true,
        None => false,
    };
    if !has_title {
        let og_title = str_to_chars("ogTitle");
        let og_title_raw = str_to_chars("og:title");
        let tw_title = str_to_chars("twitter:title");
        let fb: Option<String> = {
            let picked: Option<&MetaValue> = match m.get(&og_title) {
                Some(v) => Some(v),
                None => match m.get(&og_title_raw) {
                    Some(v) => Some(v),
                    None => m.get(&tw_title),
                },
            };
            match picked {
                Some(MetaValue::One(s)) => {
                    if s.as_str().unicode_len() > 0 {
                        Some(chars_to_string(&str_to_chars(s.as_str())))
                    } else {
                        None
                    }
                },
                _ => None,
            }
        };
        match fb {
            Some(t) => {
                m.set(&title_key, MetaValue::One(t));
            },
            None => {},
        }
    }
}

/// Extract metadata from a parsed document: title, favicon, language, the
/// fixed OpenGraph, article and Dublin Core mappings searched in the head or
/// the whole document as each mapping asks, the accumulated
/// `og:locale:alternate` array, the generic merge of every remaining meta
/// tag, and the title fallback.
pub fn extract_metadata_doc(doc: &Document) -> (r: Metadata)
    ensures
        r@ == metadata_spec(doc@),
{
    let head_sel = crate::transform::tag_sel_pub("head");
    let hq = query_doc_exec(&doc.children, &head_sel);
    let root: Vec<Node> = if hq.len() > 0 {
        let mut v: Vec<Node> = Vec::new();
        proof {
            assert(elems_view(hq@)[0] == hq@[0]@);
        }
        let h = hq[0].clone_elem();
        let node = Node::Element(h);
        proof {
            crate::dom::forest_view_push(v@, node);
        }
        v.push(node);
        proof {
            assert(crate::dom::forest_view(v@) =~= seq![
                NodeM::Element(query_doc(doc@, crate::transform::tag_sel("head"@))[0]),
            ]);
        }
        v
    } else {
        crate::dom::clone_nodes(&doc.children)
    };
    proof {
        assert(crate::dom::forest_view(root@) == meta_root(doc@));
    }
    let mut m = Metadata { entries: Vec::new() };
    proof {
        assert(m@ =~= Seq::<(Seq<char>, MetaValueM)>::empty());
    }
    meta_basics_exec(&mut m, &root, &doc.children);
    meta_og_exec(&mut m, &root);
    acc_locale_exec(&mut m, &root);
    meta_docwide_exec(&mut m, &doc.children);
    generic_pass_exec(&mut m, &doc.children);
    title_fallback_exec(&mut m);
    m
}

/// Extract metadata from markup: `metadata_spec` of the parsed tree; empty
/// input yields an empty map.
pub fn extract_metadata(html: Option<&str>) -> (r: Metadata)
    ensures
        (match html {
            Some(h) => r@ == metadata_spec(crate::bridge::dom_of(h@)),
            None => r@ == Seq::<(Seq<char>, MetaValueM)>::empty(),
        }),
{
    match html {
        Some(h) => {
            let doc = crate::bridge::parse_document(h);
            extract_metadata_doc(&doc)
        },
        None => {
            let r = Metadata { entries: Vec::new() };
            proof {
                assert(r@ =~= Seq::<(Seq<char>, MetaValueM)>::empty());
            }
            r
        },
    }
}

} // verus!
