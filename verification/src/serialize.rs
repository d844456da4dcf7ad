//! Serialization of the document model back to markup.

use vstd::prelude::*;

use crate::dom::{forest_view, forest_view_props, node_view, AttrM, Node, NodeM};
use crate::text::{chars_eq_str, str_to_chars};

verus! {

broadcast use vstd::std_specs::vec::axiom_vec_index_decreases;

/// Escape one text character.
pub open spec fn escape_text_char(c: char) -> Seq<char> {
    if c == '&' {
        "&amp;"@
    } else if c == '<' {
        "&lt;"@
    } else if c == '>' {
        "&gt;"@
    } else if c == '\u{00a0}' {
        "&nbsp;"@
    } else {
        seq![c]
    }
}

/// Escape one attribute-value character.
pub open spec fn escape_attr_char(c: char) -> Seq<char> {
    if c == '&' {
        "&amp;"@
    } else if c == '"' {
        "&quot;"@
    } else if c == '\u{00a0}' {
        "&nbsp;"@
    } else {
        seq![c]
    }
}

/// Escape text content.
pub open spec fn escape_text(s: Seq<char>) -> Seq<char>
    decreases s.len(),
{
    if s.len() == 0 {
        Seq::empty()
    } else {
        escape_text_char(s[0]) + escape_text(s.subrange(1, s.len() as int))
    }
}

/// Escape an attribute value.
pub open spec fn escape_attr(s: Seq<char>) -> Seq<char>
    decreases s.len(),
{
    if s.len() == 0 {
        Seq::empty()
    } else {
        escape_attr_char(s[0]) + escape_attr(s.subrange(1, s.len() as int))
    }
}

/// A void element: serialized without children or a closing tag.
pub open spec fn is_void(name: Seq<char>) -> bool {
    ||| name == "area"@
    ||| name == "base"@
    ||| name == "br"@
    ||| name == "col"@
    ||| name == "embed"@
    ||| name == "hr"@
    ||| name == "img"@
    ||| name == "input"@
    ||| name == "link"@
    ||| name == "meta"@
    ||| name == "param"@
    ||| name == "source"@
    ||| name == "track"@
    ||| name == "wbr"@
}

/// Serialization of an attribute list.
pub open spec fn ser_attrs(attrs: Seq<AttrM>) -> Seq<char>
    decreases attrs.len(),
{
    if attrs.len() == 0 {
        Seq::empty()
    } else {
        seq![' '] + attrs[0].name + "=\""@ + escape_attr(attrs[0].value) + seq!['"'] + ser_attrs(
            attrs.subrange(1, attrs.len() as int),
        )
    }
}

/// Serialization of one node.
pub open spec fn ser_node(n: NodeM) -> Seq<char>
    decreases n,
{
    match n {
        NodeM::Element(e) => seq!['<'] + e.name + ser_attrs(e.attrs) + seq!['>'] + (if is_void(
            e.name,
        ) {
            Seq::<char>::empty()
        } else {
            ser_forest(e.children) + "</"@ + e.name + seq!['>']
        }),
        NodeM::Text(t) => escape_text(t),
        NodeM::Comment(t) => "<!--"@ + t + "-->"@,
    }
}

/// Serialization of a forest.
pub open spec fn ser_forest(ns: Seq<NodeM>) -> Seq<char>
    decreases ns,
{
    if ns.len() == 0 {
        Seq::empty()
    } else {
        ser_node(ns[0]) + ser_forest(ns.subrange(1, ns.len() as int))
    }
}

/// Append `s` to `out`.
fn push_all(out: &mut Vec<char>, s: &Vec<char>)
    ensures
        final(out)@ == old(out)@ + s@,
{
    let mut i: usize = 0;
    proof {
        assert(out@ + s@.take(0) =~= out@);
    }
    while i < s.len()
        invariant
            i <= s.len(),
            out@ == old(out)@ + s@.take(i as int),
        decreases s.len() - i,
    {
        out.push(s[i]);
        proof {
            assert(out@ =~= old(out)@ + s@.take(i + 1));
        }
        i = i + 1;
    }
    proof {
        assert(s@.take(s@.len() as int) =~= s@);
    }
}

/// Append a literal to `out`.
fn push_str(out: &mut Vec<char>, s: &str)
    ensures
        final(out)@ == old(out)@ + s@,
{
    let v = str_to_chars(s);
    push_all(out, &v);
}

/// Append the escaped form of one text character.
fn push_escaped_text_char(out: &mut Vec<char>, c: char)
    ensures
        final(out)@ == old(out)@ + escape_text_char(c),
{
    if c == '&' {
        push_str(out, "&amp;");
    } else if c == '<' {
        push_str(out, "&lt;");
    } else if c == '>' {
        push_str(out, "&gt;");
    } else if c == '\u{00a0}' {
        push_str(out, "&nbsp;");
    } else {
        out.push(c);
        proof {
            assert(out@ =~= old(out)@ + seq![c]);
        }
    }
}

/// Append the escaped form of one attribute character.
fn push_escaped_attr_char(out: &mut Vec<char>, c: char)
    ensures
        final(out)@ == old(out)@ + escape_attr_char(c),
{
    if c == '&' {
        push_str(out, "&amp;");
    } else if c == '"' {
        push_str(out, "&quot;");
    } else if c == '\u{00a0}' {
        push_str(out, "&nbsp;");
    } else {
        out.push(c);
        proof {
            assert(out@ =~= old(out)@ + seq![c]);
        }
    }
}

/// Append escaped text.
fn push_escaped_text(out: &mut Vec<char>, s: &Vec<char>)
    ensures
        final(out)@ == old(out)@ + escape_text(s@),
{
    proof {
        assert(s@.subrange(0, s@.len() as int) =~= s@);
    }
    for i in 0..s.len()
        invariant
            out@ + escape_text(s@.subrange(i as int, s@.len() as int)) == old(out)@ + escape_text(
                s@,
            ),
    {
        let ghost rest = s@.subrange(i as int, s@.len() as int);
        proof {
            assert(rest[0] == s@[i as int]);
            assert(rest.subrange(1, rest.len() as int) =~= s@.subrange(i + 1, s@.len() as int));
        }
        push_escaped_text_char(out, s[i]);
    }
    proof {
        assert(s@.subrange(s@.len() as int, s@.len() as int) =~= Seq::<char>::empty());
        assert(out@ + Seq::<char>::empty() =~= out@);
    }
}

/// Append an escaped attribute value.
fn push_escaped_attr(out: &mut Vec<char>, s: &Vec<char>)
    ensures
        final(out)@ == old(out)@ + escape_attr(s@),
{
    proof {
        assert(s@.subrange(0, s@.len() as int) =~= s@);
    }
    for i in 0..s.len()
        invariant
            out@ + escape_attr(s@.subrange(i as int, s@.len() as int)) == old(out)@ + escape_attr(
                s@,
            ),
    {
        let ghost rest = s@.subrange(i as int, s@.len() as int);
        proof {
            assert(rest[0] == s@[i as int]);
            assert(rest.subrange(1, rest.len() as int) =~= s@.subrange(i + 1, s@.len() as int));
        }
        push_escaped_attr_char(out, s[i]);
    }
    proof {
        assert(s@.subrange(s@.len() as int, s@.len() as int) =~= Seq::<char>::empty());
        assert(out@ + Seq::<char>::empty() =~= out@);
    }
}

/// Whether `name` is a void element name, executable form.
fn is_void_exec(name: &Vec<char>) -> (r: bool)
    ensures
        r == is_void(name@),
{
    chars_eq_str(name, "area") || chars_eq_str(name, "base") || chars_eq_str(name, "br")
        || chars_eq_str(name, "col") || chars_eq_str(name, "embed") || chars_eq_str(name, "hr")
        || chars_eq_str(name, "img") || chars_eq_str(name, "input") || chars_eq_str(name, "link")
        || chars_eq_str(name, "meta") || chars_eq_str(name, "param") || chars_eq_str(
        name,
        "source",
    ) || chars_eq_str(name, "track") || chars_eq_str(name, "wbr")
}

/// Serialize one node onto `out`.
fn ser_node_exec(n: &Node, out: &mut Vec<char>)
    ensures
        final(out)@ == old(out)@ + ser_node(n@),
    decreases *n,
{
    match n {
        Node::Element(e) => {
            out.push('<');
            push_all(out, &e.name);
            let ghost mark0 = out@;
            let ghost attrsm = e@.attrs;
            proof {
                assert(attrsm.subrange(0, attrsm.len() as int) =~= attrsm);
            }
            for i in 0..e.attrs.len()
                invariant
                    attrsm == crate::dom::attrs_view(e.attrs@),
                    out@ + ser_attrs(attrsm.subrange(i as int, attrsm.len() as int)) == mark0
                        + ser_attrs(attrsm),
            {
                let ghost rest = attrsm.subrange(i as int, attrsm.len() as int);
                proof {
                    assert(rest[0] == e.attrs@[i as int]@);
                    assert(rest.subrange(1, rest.len() as int) =~= attrsm.subrange(
                        i + 1,
                        attrsm.len() as int,
                    ));
                }
                out.push(' ');
                push_all(out, &e.attrs[i].name);
                push_str(out, "=\"");
                push_escaped_attr(out, &e.attrs[i].value);
                out.push('"');
                proof {
                    assert(out@ + ser_attrs(attrsm.subrange(i + 1, attrsm.len() as int)) =~= mark0
                        + ser_attrs(attrsm));
                }
            }
            proof {
                assert(attrsm.subrange(attrsm.len() as int, attrsm.len() as int)
                    =~= Seq::<AttrM>::empty());
                assert(out@ =~= mark0 + ser_attrs(attrsm));
            }
            out.push('>');
            if !is_void_exec(&e.name) {
                ser_forest_exec(&e.children, out);
                push_str(out, "</");
                push_all(out, &e.name);
                out.push('>');
            }
            proof {
                assert(out@ =~= old(out)@ + ser_node(n@));
            }
        },
        Node::Text(t) => {
            push_escaped_text(out, t);
        },
        Node::Comment(t) => {
            push_str(out, "<!--");
            push_all(out, t);
            push_str(out, "-->");
            proof {
                assert(out@ =~= old(out)@ + ser_node(n@));
            }
        },
    }
}

/// Serialize a forest onto `out`.
pub fn ser_forest_exec(ns: &Vec<Node>, out: &mut Vec<char>)
    ensures
        final(out)@ == old(out)@ + ser_forest(forest_view(ns@)),
    decreases *ns,
{
    let ghost model = forest_view(ns@);
    proof {
        forest_view_props(ns@);
        assert(model.subrange(0, model.len() as int) =~= model);
    }
    for i in 0..ns.len()
        invariant
            model == forest_view(ns@),
            model.len() == ns@.len(),
            forall|j: int| 0 <= j < ns@.len() ==> model[j] == node_view(ns@[j]),
            out@ + ser_forest(model.subrange(i as int, model.len() as int)) == old(out)@
                + ser_forest(model),
    {
        let ghost rest = model.subrange(i as int, model.len() as int);
        proof {
            assert(rest[0] == model[i as int]);
            assert(rest.subrange(1, rest.len() as int) =~= model.subrange(
                i + 1,
                model.len() as int,
            ));
        }
        ser_node_exec(&ns[i], out);
    }
    proof {
        assert(model.subrange(model.len() as int, model.len() as int) =~= Seq::<NodeM>::empty());
        assert(out@ + Seq::<char>::empty() =~= out@);
    }
}

/// Serialize a whole document.
pub fn serialize_doc(doc: &Vec<Node>) -> (r: Vec<char>)
    ensures
        r@ == ser_forest(forest_view(doc@)),
{
    let mut out: Vec<char> = Vec::new();
    ser_forest_exec(doc, &mut out);
    proof {
        assert(Seq::<char>::empty() + ser_forest(forest_view(doc@)) =~= ser_forest(
            forest_view(doc@),
        ));
    }
    out
}

} // verus!
