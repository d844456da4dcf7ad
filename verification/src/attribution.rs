//! Attribution detection and attribution-preserving pruning.
//!
//! A subtree carries attribution when its text matches a fixed
//! case-insensitive pattern set (copyright marks, "All Rights Reserved",
//! Creative Commons variants, "Licensed under", photo and image credits),
//! when a fixed attribute-selector set matches it or a descendant, or when
//! its own `class` contains "copyright" or "license" case-insensitively.

use vstd::prelude::*;

use crate::dom::{
    attr_of, forest_view, forest_view_props, forest_view_push, node_text, node_view, texts_of,
    Elem, ElemM, Node, NodeM,
};
use crate::text::{
    chars_clone, contains_exec, contains_seq, is_digit, lower_char, lower_char_exec, lower_seq,
    lower_vec, str_to_chars,
};

verus! {

broadcast use vstd::std_specs::vec::axiom_vec_index_decreases;

/// Whitespace as the attribution patterns understand it: the ASCII
/// whitespace characters and the Unicode space, line and paragraph
/// separators (U+0085, U+00A0, U+1680, U+2000..U+200A, U+2028, U+2029,
/// U+202F, U+205F, U+3000).
pub open spec fn is_wsp(c: char) -> bool {
    ||| c == ' '
    ||| c == '\t'
    ||| c == '\n'
    ||| c == '\r'
    ||| c == '\x0b'
    ||| c == '\x0c'
    ||| c == '\u{0085}'
    ||| c == '\u{00a0}'
    ||| c == '\u{1680}'
    ||| ('\u{2000}' <= c && c <= '\u{200a}')
    ||| c == '\u{2028}'
    ||| c == '\u{2029}'
    ||| c == '\u{202f}'
    ||| c == '\u{205f}'
    ||| c == '\u{3000}'
}

/// Attribution whitespace, executable form.
pub fn is_wsp_exec(c: char) -> (r: bool)
    ensures
        r == is_wsp(c),
{
    c == ' ' || c == '\t' || c == '\n' || c == '\r' || c == '\x0b' || c == '\x0c' || c
        == '\u{0085}' || c == '\u{00a0}' || c == '\u{1680}' || ('\u{2000}' <= c && c
        <= '\u{200a}') || c == '\u{2028}' || c == '\u{2029}' || c == '\u{202f}' || c
        == '\u{205f}' || c == '\u{3000}'
}

/// First index at or after `i` whose character is not attribution whitespace.
pub open spec fn skip_wsp(s: Seq<char>, i: int) -> int
    decreases s.len() - i,
{
    if 0 <= i < s.len() && is_wsp(s[i]) {
        skip_wsp(s, i + 1)
    } else {
        i
    }
}

/// Skip attribution whitespace, executable form.
fn skip_wsp_exec(s: &Vec<char>, i: usize) -> (r: usize)
    requires
        i <= s.len(),
    ensures
        r as int == skip_wsp(s@, i as int),
        i <= r <= s.len(),
{
    let mut r = i;
    while r < s.len() && is_wsp_exec(s[r])
        invariant
            i <= r <= s.len(),
            skip_wsp(s@, i as int) == skip_wsp(s@, r as int),
        decreases s.len() - r,
    {
        r = r + 1;
    }
    r
}

/// `w` (already lower-case) occurs at `i` of `s`, compared case-insensitively.
pub open spec fn lit_at(s: Seq<char>, w: Seq<char>, i: int) -> bool {
    &&& 0 <= i
    &&& i + w.len() <= s.len()
    &&& forall|k: int| 0 <= k < w.len() ==> lower_char(s[i + k]) == w[k]
}

/// At least one whitespace character stands at `i`.
pub open spec fn ws1(s: Seq<char>, i: int) -> bool {
    0 <= i < s.len() && is_wsp(s[i])
}

/// Four decimal digits stand at `i`.
pub open spec fn digit4_at(s: Seq<char>, i: int) -> bool {
    &&& 0 <= i
    &&& i + 4 <= s.len()
    &&& forall|k: int| 0 <= k < 4 ==> is_digit(#[trigger] s[i + k])
}

/// Two words separated by at least one whitespace character start at `i`.
pub open spec fn two_words_at(s: Seq<char>, a: Seq<char>, b: Seq<char>, i: int) -> bool {
    &&& lit_at(s, a, i)
    &&& ws1(s, i + a.len())
    &&& lit_at(s, b, skip_wsp(s, i + a.len()))
}

/// One of the attribution text patterns starts at `i`.
pub open spec fn attrib_at(s: Seq<char>, i: int) -> bool {
    ||| (0 <= i < s.len() && s[i] == '\u{00a9}')
    ||| (lit_at(s, "(c)"@, i) && digit4_at(s, skip_wsp(s, i + 3)))
    ||| (lit_at(s, "copyright"@, i) && ws1(s, i + 9) && (lit_at(s, "(c)"@, skip_wsp(s, i + 9))
        || digit4_at(s, skip_wsp(s, i + 9))))
    ||| (two_words_at(s, "all"@, "rights"@, i) && ws1(
        s,
        skip_wsp(s, i + 3) + 6,
    ) && lit_at(s, "reserved"@, skip_wsp(s, skip_wsp(s, i + 3) + 6)))
    ||| two_words_at(s, "creative"@, "commons"@, i)
    ||| lit_at(s, "creativecommons.org"@, i)
    ||| (lit_at(s, "cc"@, i) && 0 <= i && i + 2 < s.len() && (is_wsp(s[i + 2]) || s[i + 2]
        == '-') && lit_at(s, "by"@, i + 3))
    ||| lit_at(s, "cc0"@, i)
    ||| two_words_at(s, "licensed"@, "under"@, i)
    ||| two_words_at(s, "photo"@, "by"@, i)
    ||| two_words_at(s, "photo"@, "credit"@, i)
    ||| two_words_at(s, "image"@, "credit"@, i)
}

/// The text matches the attribution pattern set somewhere.
pub open spec fn attrib_text_match(s: Seq<char>) -> bool {
    exists|i: int| attrib_at(s, i)
}

/// Case-insensitive literal comparison at a position, executable form.
fn lit_at_exec(s: &Vec<char>, w: &Vec<char>, i: usize) -> (r: bool)
    ensures
        r == lit_at(s@, w@, i as int),
{
    if w.len() > s.len() || i > s.len() - w.len() {
        return false;
    }
    for k in 0..w.len()
        invariant
            i + w.len() <= s.len(),
            forall|j: int| 0 <= j < k ==> lower_char(s@[i + j]) == w@[j],
    {
        if lower_char_exec(s[i + k]) != w[k] {
            return false;
        }
    }
    true
}

/// Whitespace at `i`, executable form.
fn ws1_exec(s: &Vec<char>, i: usize) -> (r: bool)
    ensures
        r == ws1(s@, i as int),
{
    i < s.len() && is_wsp_exec(s[i])
}

/// Four digits at `i`, executable form.
fn digit4_exec(s: &Vec<char>, i: usize) -> (r: bool)
    ensures
        r == digit4_at(s@, i as int),
{
    if s.len() < 4 || i > s.len() - 4 {
        return false;
    }
    for k in 0..4usize
        invariant
            i + 4 <= s.len(),
            forall|j: int| 0 <= j < k ==> is_digit(#[trigger] s@[i + j]),
    {
        let c = s[i + k];
        if !('0' <= c && c <= '9') {
            return false;
        }
    }
    true
}

/// Two whitespace-separated words at `i`, executable form.
fn two_words_exec(s: &Vec<char>, a: &Vec<char>, b: &Vec<char>, i: usize) -> (r: bool)
    ensures
        r == two_words_at(s@, a@, b@, i as int),
{
    if !lit_at_exec(s, a, i) {
        return false;
    }
    proof {
        assert(i + a.len() <= s.len());
    }
    let after = i + a.len();
    if !ws1_exec(s, after) {
        return false;
    }
    let j = skip_wsp_exec(s, after);
    lit_at_exec(s, b, j)
}

/// One of the attribution text patterns starts at `i`, executable form.
fn attrib_at_exec(s: &Vec<char>, pats: &AttribPats, i: usize) -> (r: bool)
    requires
        i < s.len(),
        pats@ == attrib_pats_model(),
    ensures
        r == attrib_at(s@, i as int),
{
    proof {
        reveal_strlit("(c)");
        reveal_strlit("copyright");
        reveal_strlit("all");
        reveal_strlit("rights");
        reveal_strlit("reserved");
        reveal_strlit("creative");
        reveal_strlit("commons");
        reveal_strlit("creativecommons.org");
        reveal_strlit("cc");
        reveal_strlit("by");
        reveal_strlit("cc0");
        reveal_strlit("licensed");
        reveal_strlit("under");
        reveal_strlit("photo");
        reveal_strlit("credit");
        reveal_strlit("image");
    }
    if s[i] == '\u{00a9}' {
        return true;
    }
    if lit_at_exec(s, &pats.paren_c, i) {
        let j = skip_wsp_exec(s, i + 3);
        if digit4_exec(s, j) {
            return true;
        }
    }
    if lit_at_exec(s, &pats.copyright, i) && ws1_exec(s, i + 9) {
        let j = skip_wsp_exec(s, i + 9);
        if lit_at_exec(s, &pats.paren_c, j) || digit4_exec(s, j) {
            return true;
        }
    }
    if two_words_exec(s, &pats.all, &pats.rights, i) {
        let j = skip_wsp_exec(s, i + 3);
        if ws1_exec(s, j + 6) {
            let j2 = skip_wsp_exec(s, j + 6);
            if lit_at_exec(s, &pats.reserved, j2) {
                return true;
            }
        }
    }
    if two_words_exec(s, &pats.creative, &pats.commons, i) {
        return true;
    }
    if lit_at_exec(s, &pats.ccorg, i) {
        return true;
    }
    if lit_at_exec(s, &pats.cc, i) && i + 2 < s.len() && (is_wsp_exec(s[i + 2]) || s[i + 2]
        == '-') && lit_at_exec(s, &pats.by, i + 3) {
        return true;
    }
    if lit_at_exec(s, &pats.cc0, i) {
        return true;
    }
    if two_words_exec(s, &pats.licensed, &pats.under, i) {
        return true;
    }
    if two_words_exec(s, &pats.photo, &pats.by, i) {
        return true;
    }
    if two_words_exec(s, &pats.photo, &pats.credit, i) {
        return true;
    }
    if two_words_exec(s, &pats.image, &pats.credit, i) {
        return true;
    }
    false
}

/// The lower-case pattern words, built once per scan.
pub struct AttribPats {
    pub paren_c: Vec<char>,
    pub copyright: Vec<char>,
    pub all: Vec<char>,
    pub rights: Vec<char>,
    pub reserved: Vec<char>,
    pub creative: Vec<char>,
    pub commons: Vec<char>,
    pub ccorg: Vec<char>,
    pub cc: Vec<char>,
    pub by: Vec<char>,
    pub cc0: Vec<char>,
    pub licensed: Vec<char>,
    pub under: Vec<char>,
    pub photo: Vec<char>,
    pub credit: Vec<char>,
    pub image: Vec<char>,
}

/// Model of the pattern words.
#[verifier::ext_equal]
pub struct AttribPatsM {
    pub paren_c: Seq<char>,
    pub copyright: Seq<char>,
    pub all: Seq<char>,
    pub rights: Seq<char>,
    pub reserved: Seq<char>,
    pub creative: Seq<char>,
    pub commons: Seq<char>,
    pub ccorg: Seq<char>,
    pub cc: Seq<char>,
    pub by: Seq<char>,
    pub cc0: Seq<char>,
    pub licensed: Seq<char>,
    pub under: Seq<char>,
    pub photo: Seq<char>,
    pub credit: Seq<char>,
    pub image: Seq<char>,
}

impl View for AttribPats {
    type V = AttribPatsM;

    open spec fn view(&self) -> AttribPatsM {
        AttribPatsM {
            paren_c: self.paren_c@,
            copyright: self.copyright@,
            all: self.all@,
            rights: self.rights@,
            reserved: self.reserved@,
            creative: self.creative@,
            commons: self.commons@,
            ccorg: self.ccorg@,
            cc: self.cc@,
            by: self.by@,
            cc0: self.cc0@,
            licensed: self.licensed@,
            under: self.under@,
            photo: self.photo@,
            credit: self.credit@,
            image: self.image@,
        }
    }
}

/// The intended pattern words.
pub open spec fn attrib_pats_model() -> AttribPatsM {
    AttribPatsM {
        paren_c: "(c)"@,
        copyright: "copyright"@,
        all: "all"@,
        rights: "rights"@,
        reserved: "reserved"@,
        creative: "creative"@,
        commons: "commons"@,
        ccorg: "creativecommons.org"@,
        cc: "cc"@,
        by: "by"@,
        cc0: "cc0"@,
        licensed: "licensed"@,
        under: "under"@,
        photo: "photo"@,
        credit: "credit"@,
        image: "image"@,
    }
}

/// Build the pattern words.
fn attrib_pats() -> (r: AttribPats)
    ensures
        r@ == attrib_pats_model(),
{
    AttribPats {
        paren_c: str_to_chars("(c)"),
        copyright: str_to_chars("copyright"),
        all: str_to_chars("all"),
        rights: str_to_chars("rights"),
        reserved: str_to_chars("reserved"),
        creative: str_to_chars("creative"),
        commons: str_to_chars("commons"),
        ccorg: str_to_chars("creativecommons.org"),
        cc: str_to_chars("cc"),
        by: str_to_chars("by"),
        cc0: str_to_chars("cc0"),
        licensed: str_to_chars("licensed"),
        under: str_to_chars("under"),
        photo: str_to_chars("photo"),
        credit: str_to_chars("credit"),
        image: str_to_chars("image"),
    }
}

/// The text matches the attribution pattern set, executable form.
pub fn attrib_text_match_exec(s: &Vec<char>) -> (r: bool)
    ensures
        r == attrib_text_match(s@),
{
    let pats = attrib_pats();
    for i in 0..s.len()
        invariant
            pats@ == attrib_pats_model(),
            forall|j: int| 0 <= j < i ==> !attrib_at(s@, j),
    {
        if attrib_at_exec(s, &pats, i) {
            return true;
        }
    }
    proof {
        reveal_strlit("(c)");
        reveal_strlit("copyright");
        reveal_strlit("all");
        reveal_strlit("rights");
        reveal_strlit("reserved");
        reveal_strlit("creative");
        reveal_strlit("commons");
        reveal_strlit("creativecommons.org");
        reveal_strlit("cc");
        reveal_strlit("by");
        reveal_strlit("cc0");
        reveal_strlit("licensed");
        reveal_strlit("under");
        reveal_strlit("photo");
        reveal_strlit("credit");
        reveal_strlit("image");
        assert(forall|j: int| attrib_at(s@, j) ==> 0 <= j < s@.len());
    }
    false
}

/// The fixed attribute-selector rules match the element itself:
/// `a[rel="license"]`, `a[href*="creativecommons.org"]`, an `itemprop` of
/// copyrightHolder, copyrightYear, author or creator, or a `class`
/// containing "copyright" or "license" (these two case-sensitively).
pub open spec fn attr_sel_match(e: ElemM) -> bool {
    ||| (e.name == "a"@ && attr_of(e.attrs, "rel"@) == Some("license"@))
    ||| (e.name == "a"@ && match attr_of(e.attrs, "href"@) {
        Some(v) => contains_seq(v, "creativecommons.org"@),
        None => false,
    })
    ||| attr_of(e.attrs, "itemprop"@) == Some("copyrightHolder"@)
    ||| attr_of(e.attrs, "itemprop"@) == Some("copyrightYear"@)
    ||| attr_of(e.attrs, "itemprop"@) == Some("author"@)
    ||| attr_of(e.attrs, "itemprop"@) == Some("creator"@)
    ||| (match attr_of(e.attrs, "class"@) {
        Some(v) => contains_seq(v, "copyright"@) || contains_seq(v, "license"@),
        None => false,
    })
}

/// The selector rules match the node or one of its descendants.
pub open spec fn any_sel_node(n: NodeM) -> bool
    decreases n,
{
    match n {
        NodeM::Element(e) => attr_sel_match(e) || any_sel_forest(e.children),
        _ => false,
    }
}

/// The selector rules match somewhere in a forest.
pub open spec fn any_sel_forest(ns: Seq<NodeM>) -> bool
    decreases ns,
{
    if ns.len() == 0 {
        false
    } else {
        any_sel_node(ns[0]) || any_sel_forest(ns.subrange(1, ns.len() as int))
    }
}

/// The node's own `class` attribute contains "copyright" or "license",
/// case-insensitively.
pub open spec fn self_class_match(n: NodeM) -> bool {
    match n {
        NodeM::Element(e) => match attr_of(e.attrs, "class"@) {
            Some(v) => contains_seq(lower_seq(v), "copyright"@) || contains_seq(
                lower_seq(v),
                "license"@,
            ),
            None => false,
        },
        _ => false,
    }
}

/// A subtree carries attribution: its full text matches the pattern set, or
/// the fixed selector rules match it or a descendant, or its own class names
/// copyright or license.
pub open spec fn contains_attribution(n: NodeM) -> bool {
    attrib_text_match(node_text(n)) || any_sel_node(n) || self_class_match(n)
}

/// Selector-rule match on one element, executable form.
fn attr_sel_match_exec(e: &Elem) -> (r: bool)
    ensures
        r == attr_sel_match(e@),
{
    let rel = str_to_chars("rel");
    let href = str_to_chars("href");
    let itemprop = str_to_chars("itemprop");
    let class = str_to_chars("class");
    let ccorg = str_to_chars("creativecommons.org");
    if crate::text::chars_eq_str(&e.name, "a") {
        match e.get_attr(&rel) {
            Some(v) => {
                if crate::text::chars_eq_str(&v, "license") {
                    return true;
                }
            },
            None => {},
        }
        match e.get_attr(&href) {
            Some(v) => {
                if contains_exec(&v, &ccorg) {
                    return true;
                }
            },
            None => {},
        }
    }
    match e.get_attr(&itemprop) {
        Some(v) => {
            if crate::text::chars_eq_str(&v, "copyrightHolder") || crate::text::chars_eq_str(
                &v,
                "copyrightYear",
            ) || crate::text::chars_eq_str(&v, "author") || crate::text::chars_eq_str(
                &v,
                "creator",
            ) {
                return true;
            }
        },
        None => {},
    }
    match e.get_attr(&class) {
        Some(v) => {
            let cw = str_to_chars("copyright");
            let lw = str_to_chars("license");
            if contains_exec(&v, &cw) || contains_exec(&v, &lw) {
                return true;
            }
        },
        None => {},
    }
    false
}

/// Selector-rule match over a subtree, executable form.
fn any_sel_node_exec(n: &Node) -> (r: bool)
    ensures
        r == any_sel_node(n@),
    decreases *n,
{
    match n {
        Node::Element(e) => {
            if attr_sel_match_exec(e) {
                return true;
            }
            any_sel_forest_exec(&e.children)
        },
        _ => false,
    }
}

/// Selector-rule match over a forest, executable form.
fn any_sel_forest_exec(ns: &Vec<Node>) -> (r: bool)
    ensures
        r == any_sel_forest(forest_view(ns@)),
    decreases *ns,
{
    let ghost model = forest_view(ns@);
    proof {
        forest_view_props(ns@);
        assert(model.subrange(0, model.len() as int) =~= model);
    }
    for i in 0..ns.len()
        invariant
            model == forest_view(ns@),
            model.len() == ns@.len(),
            forall|j: int| 0 <= j < ns@.len() ==> model[j] == node_view(ns@[j]),
            any_sel_forest(model) == any_sel_forest(
                model.subrange(i as int, model.len() as int),
            ),
    {
        let ghost rest = model.subrange(i as int, model.len() as int);
        proof {
            assert(rest[0] == model[i as int]);
            assert(rest.subrange(1, rest.len() as int) =~= model.subrange(
                i + 1,
                model.len() as int,
            ));
        }
        if any_sel_node_exec(&ns[i]) {
            return true;
        }
    }
    proof {
        assert(model.subrange(model.len() as int, model.len() as int) =~= Seq::<NodeM>::empty());
    }
    false
}

/// Attribution test over a subtree, executable form.
pub fn contains_attribution_exec(n: &Node) -> (r: bool)
    ensures
        r == contains_attribution(n@),
{
    let text = n.text_contents();
    if attrib_text_match_exec(&text) {
        return true;
    }
    if any_sel_node_exec(n) {
        return true;
    }
    match n {
        Node::Element(e) => {
            let class = str_to_chars("class");
            match e.get_attr(&class) {
                Some(v) => {
                    let low = lower_vec(&v);
                    let cw = str_to_chars("copyright");
                    let lw = str_to_chars("license");
                    contains_exec(&low, &cw) || contains_exec(&low, &lw)
                },
                None => false,
            }
        },
        _ => false,
    }
}

/// Pruned children: text and comment children stay; an element child stays,
/// itself pruned, exactly when it carries attribution.
pub open spec fn prune_children(ns: Seq<NodeM>) -> Seq<NodeM>
    decreases ns,
{
    if ns.len() == 0 {
        Seq::empty()
    } else {
        (match ns[0] {
            NodeM::Element(e) => {
                if contains_attribution(ns[0]) {
                    seq![NodeM::Element(prune_elem(e))]
                } else {
                    Seq::<NodeM>::empty()
                }
            },
            _ => seq![ns[0]],
        }) + prune_children(ns.subrange(1, ns.len() as int))
    }
}

/// Pruning of an attribution-bearing element: only attribution-bearing
/// element branches survive among its descendants.
pub open spec fn prune_elem(e: ElemM) -> ElemM
    decreases e,
{
    ElemM { name: e.name, attrs: e.attrs, children: prune_children(e.children) }
}

/// Splitting a forest splits its pruning.
pub proof fn prune_children_concat(a: Seq<NodeM>, b: Seq<NodeM>)
    ensures
        prune_children(a + b) == prune_children(a) + prune_children(b),
    decreases a.len(),
{
    if a.len() == 0 {
        assert(a + b =~= b);
        assert(prune_children(a) + prune_children(b) =~= prune_children(b));
    } else {
        prune_children_concat(a.subrange(1, a.len() as int), b);
        assert((a + b).subrange(1, (a + b).len() as int) =~= a.subrange(1, a.len() as int) + b);
        assert(prune_children(a + b) =~= prune_children(a) + prune_children(b));
    }
}

/// Prune the children of an attribution-bearing element, executable form.
pub fn prune_elem_exec(e: &Elem) -> (r: Elem)
    ensures
        r@ == prune_elem(e@),
    decreases *e,
{
    let mut kept: Vec<Node> = Vec::new();
    let ghost model = forest_view(e.children@);
    proof {
        forest_view_props(e.children@);
        assert(forest_view(kept@) + prune_children(model.take(0)) =~= forest_view(kept@));
    }
    for i in 0..e.children.len()
        invariant
            model == forest_view(e.children@),
            model.len() == e.children@.len(),
            forall|j: int| 0 <= j < e.children@.len() ==> model[j] == node_view(e.children@[j]),
            forest_view(kept@) == prune_children(model.take(i as int)),
    {
        let ghost mi = model[i as int];
        match &e.children[i] {
            Node::Element(c) => {
                if contains_attribution_exec(&e.children[i]) {
                    let pruned = prune_elem_exec(c);
                    let node = Node::Element(pruned);
                    proof {
                        forest_view_push(kept@, node);
                    }
                    kept.push(node);
                }
            },
            _ => {
                let copy = e.children[i].clone_node();
                proof {
                    forest_view_push(kept@, copy);
                }
                kept.push(copy);
            },
        }
        proof {
            prune_children_concat(model.take(i as int), seq![mi]);
            assert(model.take(i as int) + seq![mi] =~= model.take(i + 1));
            assert(seq![mi].subrange(1, 1) =~= Seq::<NodeM>::empty());
            assert(seq![mi][0] == mi);
            assert(prune_children(Seq::<NodeM>::empty()) == Seq::<NodeM>::empty());
            assert(prune_children(seq![mi]) =~= (match mi {
                NodeM::Element(em) => {
                    if contains_attribution(mi) {
                        seq![NodeM::Element(prune_elem(em))]
                    } else {
                        Seq::<NodeM>::empty()
                    }
                },
                _ => seq![mi],
            }));
            assert(forest_view(kept@) =~= prune_children(model.take(i + 1)));
        }
    }
    proof {
        assert(model.take(model.len() as int) =~= model);
    }
    let r = Elem {
        name: chars_clone(&e.name),
        attrs: crate::dom::clone_attrs(&e.attrs),
        children: kept,
    };
    proof {
        assert(r@ =~= prune_elem(e@));
    }
    r
}


/// Membership of a node in a subtree (by value), the root included.
pub open spec fn in_tree(d: NodeM, n: NodeM) -> bool
    decreases n,
{
    d == n || (match n {
        NodeM::Element(e) => in_forest(d, e.children),
        _ => false,
    })
}

/// Membership of a node in a forest.
pub open spec fn in_forest(d: NodeM, ns: Seq<NodeM>) -> bool
    decreases ns,
{
    if ns.len() == 0 {
        false
    } else {
        in_tree(d, ns[0]) || in_forest(d, ns.subrange(1, ns.len() as int))
    }
}

/// Attribution that propagates to every ancestor: a text match, whose text
/// is contained in every ancestor's text, or a selector match, found by the
/// inclusive descendant search of every ancestor. The node's own
/// case-insensitive class check is the one signal that does not propagate.
pub open spec fn strong_attribution(n: NodeM) -> bool {
    attrib_text_match(node_text(n)) || any_sel_node(n)
}

/// A literal match survives embedding into a longer text.
proof fn lit_at_embed(s: Seq<char>, a: Seq<char>, b: Seq<char>, w: Seq<char>, i: int)
    requires
        lit_at(s, w, i),
    ensures
        lit_at(a + s + b, w, a.len() + i),
{
    let t = a + s + b;
    assert forall|k: int| 0 <= k < w.len() implies lower_char(t[a.len() + i + k]) == w[k] by {
        assert(t[a.len() + i + k] == s[i + k]);
    }
}

/// A digit run survives embedding.
proof fn digit4_embed(s: Seq<char>, a: Seq<char>, b: Seq<char>, i: int)
    requires
        digit4_at(s, i),
    ensures
        digit4_at(a + s + b, a.len() + i),
{
    let t = a + s + b;
    assert forall|k: int| 0 <= k < 4 implies is_digit(#[trigger] t[a.len() + i + k]) by {
        assert(t[a.len() + i + k] == s[i + k]);
    }
}

/// A whitespace run that stops inside the text keeps its stop under
/// embedding.
proof fn skip_wsp_embed(s: Seq<char>, a: Seq<char>, b: Seq<char>, j: int)
    requires
        0 <= j <= s.len(),
        skip_wsp(s, j) < s.len(),
    ensures
        skip_wsp(a + s + b, a.len() + j) == a.len() + skip_wsp(s, j),
    decreases s.len() - j,
{
    let t = a + s + b;
    if j < s.len() && is_wsp(s[j]) {
        assert(t[a.len() + j] == s[j]);
        skip_wsp_embed(s, a, b, j + 1);
    } else {
        assert(skip_wsp(s, j) == j);
        assert(t[a.len() + j] == s[j]);
    }
}

/// A two-word match survives embedding when the second word is non-empty.
proof fn two_words_embed(s: Seq<char>, a: Seq<char>, b: Seq<char>, wa: Seq<char>, wb: Seq<char>, i: int)
    requires
        two_words_at(s, wa, wb, i),
        wb.len() > 0,
    ensures
        two_words_at(a + s + b, wa, wb, a.len() + i),
{
    let t = a + s + b;
    lit_at_embed(s, a, b, wa, i);
    assert(t[a.len() + (i + wa.len() as int)] == s[i + wa.len()]);
    let k = skip_wsp(s, i + wa.len() as int);
    assert(k < s.len());
    skip_wsp_embed(s, a, b, i + wa.len() as int);
    lit_at_embed(s, a, b, wb, k);
}

/// An attribution pattern match survives embedding into a longer text.
proof fn attrib_at_embed(s: Seq<char>, a: Seq<char>, b: Seq<char>, i: int)
    requires
        attrib_at(s, i),
    ensures
        attrib_at(a + s + b, a.len() + i),
{
    reveal_strlit("(c)");
    reveal_strlit("copyright");
    reveal_strlit("all");
    reveal_strlit("rights");
    reveal_strlit("reserved");
    reveal_strlit("creative");
    reveal_strlit("commons");
    reveal_strlit("creativecommons.org");
    reveal_strlit("cc");
    reveal_strlit("by");
    reveal_strlit("cc0");
    reveal_strlit("licensed");
    reveal_strlit("under");
    reveal_strlit("photo");
    reveal_strlit("credit");
    reveal_strlit("image");
    let t = a + s + b;
    let j = a.len() + i;
    if 0 <= i < s.len() && s[i] == '\u{00a9}' {
        assert(t[j] == s[i]);
    } else if lit_at(s, "(c)"@, i) && digit4_at(s, skip_wsp(s, i + 3)) {
        lit_at_embed(s, a, b, "(c)"@, i);
        assert(skip_wsp(s, i + 3) < s.len());
        skip_wsp_embed(s, a, b, i + 3);
        digit4_embed(s, a, b, skip_wsp(s, i + 3));
        assert(attrib_at(t, j));
    } else if lit_at(s, "copyright"@, i) && ws1(s, i + 9) && (lit_at(s, "(c)"@, skip_wsp(s, i + 9))
        || digit4_at(s, skip_wsp(s, i + 9))) {
        lit_at_embed(s, a, b, "copyright"@, i);
        assert(t[j + 9] == s[i + 9]);
        assert(skip_wsp(s, i + 9) < s.len());
        skip_wsp_embed(s, a, b, i + 9);
        if lit_at(s, "(c)"@, skip_wsp(s, i + 9)) {
            lit_at_embed(s, a, b, "(c)"@, skip_wsp(s, i + 9));
        } else {
            digit4_embed(s, a, b, skip_wsp(s, i + 9));
        }
        assert(attrib_at(t, j));
    } else if two_words_at(s, "all"@, "rights"@, i) && ws1(s, skip_wsp(s, i + 3) + 6) && lit_at(
        s,
        "reserved"@,
        skip_wsp(s, skip_wsp(s, i + 3) + 6),
    ) {
        two_words_embed(s, a, b, "all"@, "rights"@, i);
        let k = skip_wsp(s, i + 3);
        assert(k < s.len());
        skip_wsp_embed(s, a, b, i + 3);
        assert(t[a.len() + (k + 6)] == s[k + 6]);
        assert(skip_wsp(s, k + 6) < s.len());
        skip_wsp_embed(s, a, b, k + 6);
        lit_at_embed(s, a, b, "reserved"@, skip_wsp(s, k + 6));
        assert(attrib_at(t, j));
    } else if two_words_at(s, "creative"@, "commons"@, i) {
        two_words_embed(s, a, b, "creative"@, "commons"@, i);
        assert(attrib_at(t, j));
    } else if lit_at(s, "creativecommons.org"@, i) {
        lit_at_embed(s, a, b, "creativecommons.org"@, i);
        assert(attrib_at(t, j));
    } else if lit_at(s, "cc"@, i) && i + 2 < s.len() && (is_wsp(s[i + 2]) || s[i + 2] == '-')
        && lit_at(s, "by"@, i + 3) {
        lit_at_embed(s, a, b, "cc"@, i);
        assert(t[j + 2] == s[i + 2]);
        lit_at_embed(s, a, b, "by"@, i + 3);
        assert(attrib_at(t, j));
    } else if lit_at(s, "cc0"@, i) {
        lit_at_embed(s, a, b, "cc0"@, i);
        assert(attrib_at(t, j));
    } else if two_words_at(s, "licensed"@, "under"@, i) {
        two_words_embed(s, a, b, "licensed"@, "under"@, i);
        assert(attrib_at(t, j));
    } else if two_words_at(s, "photo"@, "by"@, i) {
        two_words_embed(s, a, b, "photo"@, "by"@, i);
        assert(attrib_at(t, j));
    } else if two_words_at(s, "photo"@, "credit"@, i) {
        two_words_embed(s, a, b, "photo"@, "credit"@, i);
        assert(attrib_at(t, j));
    } else {
        two_words_embed(s, a, b, "image"@, "credit"@, i);
        assert(attrib_at(t, j));
    }
}

/// A text match survives embedding into a longer text.
pub proof fn attrib_text_embed(s: Seq<char>, a: Seq<char>, b: Seq<char>)
    requires
        attrib_text_match(s),
    ensures
        attrib_text_match(a + s + b),
{
    let i = choose|i: int| attrib_at(s, i);
    attrib_at_embed(s, a, b, i);
}

/// The text of a node of a subtree is contained in the subtree's text.
proof fn text_of_member(d: NodeM, n: NodeM)
    requires
        in_tree(d, n),
    ensures
        exists|a: Seq<char>, b: Seq<char>| node_text(n) == #[trigger] (a + node_text(d) + b),
    decreases n,
{
    if d == n {
        let a = Seq::<char>::empty();
        let b = Seq::<char>::empty();
        assert(node_text(n) =~= a + node_text(d) + b);
    } else {
        match n {
            NodeM::Element(e) => {
                text_of_member_forest(d, e.children);
                let (a, b) = choose|a: Seq<char>, b: Seq<char>|
                    texts_of(e.children) == #[trigger] (a + node_text(d) + b);
                assert(node_text(n) == a + node_text(d) + b);
            },
            _ => {},
        }
    }
}

/// The text of a node of a forest is contained in the forest's text.
proof fn text_of_member_forest(d: NodeM, ns: Seq<NodeM>)
    requires
        in_forest(d, ns),
    ensures
        exists|a: Seq<char>, b: Seq<char>| texts_of(ns) == #[trigger] (a + node_text(d) + b),
    decreases ns,
{
    let rest = ns.subrange(1, ns.len() as int);
    if in_tree(d, ns[0]) {
        text_of_member(d, ns[0]);
        let (a, b) = choose|a: Seq<char>, b: Seq<char>|
            node_text(ns[0]) == #[trigger] (a + node_text(d) + b);
        let b2 = b + texts_of(rest);
        assert(texts_of(ns) =~= a + node_text(d) + b2);
    } else {
        text_of_member_forest(d, rest);
        let (a, b) = choose|a: Seq<char>, b: Seq<char>|
            texts_of(rest) == #[trigger] (a + node_text(d) + b);
        let a2 = node_text(ns[0]) + a;
        assert(texts_of(ns) =~= a2 + node_text(d) + b);
    }
}

/// A selector match in a subtree's node is a selector match in the subtree.
pub proof fn any_sel_member(d: NodeM, n: NodeM)
    requires
        in_tree(d, n),
        any_sel_node(d),
    ensures
        any_sel_node(n),
    decreases n,
{
    if d == n {
    } else {
        match n {
            NodeM::Element(e) => {
                any_sel_member_forest(d, e.children);
            },
            _ => {},
        }
    }
}

/// A selector match in a forest's node is a selector match in the forest.
pub proof fn any_sel_member_forest(d: NodeM, ns: Seq<NodeM>)
    requires
        in_forest(d, ns),
        any_sel_node(d),
    ensures
        any_sel_forest(ns),
    decreases ns,
{
    if in_tree(d, ns[0]) {
        any_sel_member(d, ns[0]);
    } else {
        any_sel_member_forest(d, ns.subrange(1, ns.len() as int));
    }
}

/// Attribution propagates upward: a node with strongly-attributed content
/// makes every subtree that holds it attribution-bearing. (The one signal
/// that does not propagate is a node's own case-insensitive class check:
/// an upper-case-only "COPYRIGHT" class is seen on the node itself but not
/// by its ancestors, whose selector search compares case-sensitively.)
pub proof fn lemma_attribution_upward(d: NodeM, n: NodeM)
    requires
        in_tree(d, n),
        strong_attribution(d),
    ensures
        contains_attribution(n),
        strong_attribution(n),
{
    if attrib_text_match(node_text(d)) {
        text_of_member(d, n);
        let (a, b) = choose|a: Seq<char>, b: Seq<char>|
            node_text(n) == #[trigger] (a + node_text(d) + b);
        attrib_text_embed(node_text(d), a, b);
    } else {
        any_sel_member(d, n);
    }
}

/// Pruning keeps every strongly-attributed branch: a strongly-attributed
/// element anywhere under an attribution-bearing node survives the pruner,
/// pruned itself.
pub proof fn lemma_prune_keeps_attribution(d: ElemM, n: ElemM)
    requires
        in_tree(NodeM::Element(d), NodeM::Element(n)),
        strong_attribution(NodeM::Element(d)),
    ensures
        in_tree(NodeM::Element(prune_elem(d)), NodeM::Element(prune_elem(n))),
    decreases n,
{
    if d == n {
    } else {
        lemma_prune_keeps_forest(d, n.children);
    }
}

/// Pruning keeps a strongly-attributed element of a forest.
proof fn lemma_prune_keeps_forest(d: ElemM, ns: Seq<NodeM>)
    requires
        in_forest(NodeM::Element(d), ns),
        strong_attribution(NodeM::Element(d)),
    ensures
        in_forest(NodeM::Element(prune_elem(d)), prune_children(ns)),
    decreases ns,
{
    let dn = NodeM::Element(d);
    let rest = ns.subrange(1, ns.len() as int);
    if in_tree(dn, ns[0]) {
        match ns[0] {
            NodeM::Element(c) => {
                lemma_attribution_upward(dn, ns[0]);
                assert(contains_attribution(ns[0]));
                lemma_prune_keeps_attribution(d, c);
                assert(prune_children(ns)[0] == NodeM::Element(prune_elem(c)));
                in_forest_head(NodeM::Element(prune_elem(d)), prune_children(ns));
            },
            _ => {
                assert(dn == ns[0]);
            },
        }
    } else {
        lemma_prune_keeps_forest(d, rest);
        prune_children_concat(ns.take(1), rest);
        assert(ns.take(1) + rest =~= ns);
        in_forest_concat_right(NodeM::Element(prune_elem(d)), prune_children(ns.take(1)),
            prune_children(rest));
    }
}

/// Membership in the head of a forest.
pub proof fn in_forest_head(d: NodeM, ns: Seq<NodeM>)
    requires
        ns.len() > 0,
        in_tree(d, ns[0]),
    ensures
        in_forest(d, ns),
{
}

/// Membership in the right part of a concatenation.
pub proof fn in_forest_concat_right(d: NodeM, a: Seq<NodeM>, b: Seq<NodeM>)
    requires
        in_forest(d, b),
    ensures
        in_forest(d, a + b),
    decreases a.len(),
{
    if a.len() == 0 {
        assert(a + b =~= b);
    } else {
        in_forest_concat_right(d, a.subrange(1, a.len() as int), b);
        assert((a + b).subrange(1, (a + b).len() as int) =~= a.subrange(1, a.len() as int) + b);
        assert((a + b)[0] == a[0]);
    }
}

/// Pruning drops a non-attribution element child entirely, with its whole
/// subtree: the pruned children are those of the forest without it.
pub proof fn lemma_prune_drops_nonattribution(ns: Seq<NodeM>, i: int)
    requires
        0 <= i < ns.len(),
        ns[i] is Element,
        !contains_attribution(ns[i]),
    ensures
        prune_children(ns) == prune_children(ns.take(i) + ns.skip(i + 1)),
{
    prune_children_concat(ns.take(i), ns.skip(i));
    assert(ns.take(i) + ns.skip(i) =~= ns);
    prune_children_concat(ns.take(i), ns.skip(i + 1));
    let mid = ns.skip(i);
    assert(mid[0] == ns[i]);
    assert(mid.subrange(1, mid.len() as int) =~= ns.skip(i + 1));
    assert(prune_children(mid) =~= Seq::<NodeM>::empty() + prune_children(ns.skip(i + 1)));
    assert(Seq::<NodeM>::empty() + prune_children(ns.skip(i + 1)) =~= prune_children(
        ns.skip(i + 1),
    ));
}


/// A selector-rule match in a subtree has a witness element: some member of
/// the subtree whose own name and attributes satisfy the rules.
pub proof fn any_sel_witness_node(n: NodeM)
    requires
        any_sel_node(n),
    ensures
        exists|w: ElemM| #[trigger] in_tree(NodeM::Element(w), n) && attr_sel_match(w),
    decreases n,
{
    match n {
        NodeM::Element(e) => {
            if attr_sel_match(e) {
                assert(in_tree(NodeM::Element(e), n) && attr_sel_match(e));
            } else {
                any_sel_witness_forest(e.children);
                let w = choose|w: ElemM|
                    #[trigger] in_forest(NodeM::Element(w), e.children) && attr_sel_match(w);
                assert(in_tree(NodeM::Element(w), n) && attr_sel_match(w));
            }
        },
        _ => {},
    }
}

/// A selector-rule match in a forest has a witness element.
pub proof fn any_sel_witness_forest(ns: Seq<NodeM>)
    requires
        any_sel_forest(ns),
    ensures
        exists|w: ElemM| #[trigger] in_forest(NodeM::Element(w), ns) && attr_sel_match(w),
    decreases ns,
{
    if any_sel_node(ns[0]) {
        any_sel_witness_node(ns[0]);
        let w = choose|w: ElemM| #[trigger] in_tree(NodeM::Element(w), ns[0]) && attr_sel_match(w);
        in_forest_head(NodeM::Element(w), ns);
        assert(in_forest(NodeM::Element(w), ns) && attr_sel_match(w));
    } else {
        any_sel_witness_forest(ns.subrange(1, ns.len() as int));
        let w = choose|w: ElemM|
            #[trigger] in_forest(NodeM::Element(w), ns.subrange(1, ns.len() as int))
                && attr_sel_match(w);
        assert(in_forest(NodeM::Element(w), ns) && attr_sel_match(w));
    }
}

/// A whole parsed document carries attribution: its text matches the
/// pattern set or the selector rules match some element.
pub open spec fn document_attribution(doc: Seq<NodeM>) -> bool {
    attrib_text_match(texts_of(doc)) || any_sel_forest(doc)
}

/// Attribution test over a whole parsed document, executable form.
pub fn document_contains_attribution(doc: &crate::dom::Document) -> (r: bool)
    ensures
        r == document_attribution(doc@),
{
    let text = crate::dom::texts_of_children(&doc.children);
    if attrib_text_match_exec(&text) {
        return true;
    }
    any_sel_forest_exec(&doc.children)
}

} // verus!
