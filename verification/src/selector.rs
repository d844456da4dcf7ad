//! A CSS-selector subset: compound selectors made of a tag name, class and id
//! tests and attribute conditions, joined by the descendant combinator.
//!
//! The accepted language: `tag`, `.class`, `#id`, `[attr]`, `[attr=value]`,
//! `[attr*=value]`, `[attr^=value]`, `[attr$=value]`, `[attr~=value]`,
//! `[attr|=value]` (values optionally quoted), compounds of these, and
//! chains joined by the descendant combinator, as in `picture source`.
//! Anything else — comma lists, other combinators, pseudo-classes — is a
//! selector error. As in CSS, an empty value under `*=`, `^=`, `$=` or `~=`
//! matches nothing.

use vstd::prelude::*;

use crate::dom::{attr_of, ElemM};
use crate::text::{
    chars_clone, chars_eq, contains_exec, contains_seq, is_digit, is_space, is_space_exec,
    occurs_at, str_to_chars,
};

verus! {

broadcast use vstd::std_specs::vec::axiom_vec_index_decreases;

/// One attribute condition of a compound selector.
pub enum Cond {
    /// `[name]`: the attribute exists.
    Exists { name: Vec<char> },
    /// `[name=value]`: the attribute equals the value.
    Eq { name: Vec<char>, value: Vec<char> },
    /// `[name*=value]`: the attribute contains the non-empty value.
    Substr { name: Vec<char>, value: Vec<char> },
    /// `[name^=value]`: the attribute starts with the non-empty value.
    Prefix { name: Vec<char>, value: Vec<char> },
    /// `[name$=value]`: the attribute ends with the non-empty value.
    Suffix { name: Vec<char>, value: Vec<char> },
    /// `[name~=value]`: the attribute, split on whitespace, has this word.
    WordAttr { name: Vec<char>, value: Vec<char> },
    /// `[name|=value]`: the attribute equals the value or starts with the
    /// value followed by a hyphen.
    Dash { name: Vec<char>, value: Vec<char> },
    /// `.value`: the `class` attribute, split on whitespace, has this word.
    ClassWord { value: Vec<char> },
}

/// A compound selector: an optional tag name and zero or more conditions.
pub struct Compound {
    pub tag: Option<Vec<char>>,
    pub conds: Vec<Cond>,
}

/// A selector: one or more compounds joined by the descendant combinator.
pub struct Selector {
    pub parts: Vec<Compound>,
}

/// Model of a condition.
#[verifier::ext_equal]
pub enum CondM {
    Exists { name: Seq<char> },
    Eq { name: Seq<char>, value: Seq<char> },
    Substr { name: Seq<char>, value: Seq<char> },
    Prefix { name: Seq<char>, value: Seq<char> },
    Suffix { name: Seq<char>, value: Seq<char> },
    WordAttr { name: Seq<char>, value: Seq<char> },
    Dash { name: Seq<char>, value: Seq<char> },
    ClassWord { value: Seq<char> },
}

/// Model of a compound selector.
#[verifier::ext_equal]
pub struct CompoundM {
    pub tag: Option<Seq<char>>,
    pub conds: Seq<CondM>,
}

/// Model of a selector.
#[verifier::ext_equal]
pub struct SelectorM {
    pub parts: Seq<CompoundM>,
}

impl View for Cond {
    type V = CondM;

    open spec fn view(&self) -> CondM {
        match self {
            Cond::Exists { name } => CondM::Exists { name: name@ },
            Cond::Eq { name, value } => CondM::Eq { name: name@, value: value@ },
            Cond::Substr { name, value } => CondM::Substr { name: name@, value: value@ },
            Cond::Prefix { name, value } => CondM::Prefix { name: name@, value: value@ },
            Cond::Suffix { name, value } => CondM::Suffix { name: name@, value: value@ },
            Cond::WordAttr { name, value } => CondM::WordAttr { name: name@, value: value@ },
            Cond::Dash { name, value } => CondM::Dash { name: name@, value: value@ },
            Cond::ClassWord { value } => CondM::ClassWord { value: value@ },
        }
    }
}

/// Model of a condition list.
pub open spec fn conds_view(cs: Seq<Cond>) -> Seq<CondM> {
    cs.map_values(|c: Cond| c@)
}

/// Model of a compound list.
pub open spec fn parts_view(ps: Seq<Compound>) -> Seq<CompoundM> {
    ps.map_values(|c: Compound| c@)
}

/// Pushing onto a condition list appends to its model.
proof fn conds_view_push(cs: Seq<Cond>, c: Cond)
    ensures
        conds_view(cs.push(c)) == conds_view(cs) + seq![c@],
{
    assert(conds_view(cs.push(c)) =~= conds_view(cs) + seq![c@]);
}

/// Pushing onto a compound list appends to its model.
proof fn parts_view_push(ps: Seq<Compound>, p: Compound)
    ensures
        parts_view(ps.push(p)) == parts_view(ps) + seq![p@],
{
    assert(parts_view(ps.push(p)) =~= parts_view(ps) + seq![p@]);
}

impl View for Compound {
    type V = CompoundM;

    open spec fn view(&self) -> CompoundM {
        CompoundM {
            tag: match self.tag {
                Some(t) => Some(t@),
                None => None,
            },
            conds: conds_view(self.conds@),
        }
    }
}

impl View for Selector {
    type V = SelectorM;

    open spec fn view(&self) -> SelectorM {
        SelectorM { parts: parts_view(self.parts@) }
    }
}

/// Skip whitespace, executable form.
pub fn skip_ws_exec(s: &Vec<char>, i: usize) -> (r: usize)
    requires
        i <= s.len(),
    ensures
        r as int == skip_ws(s@, i as int),
        i <= r <= s.len(),
{
    let mut r = i;
    while r < s.len() && is_space_exec(s[r])
        invariant
            i <= r <= s.len(),
            skip_ws(s@, i as int) == skip_ws(s@, r as int),
        decreases s.len() - r,
    {
        r = r + 1;
    }
    r
}

/// Identifier-character test, executable form.
fn is_ident_char_exec(c: char) -> (r: bool)
    ensures
        r == is_ident_char(c),
{
    ('a' <= c && c <= 'z') || ('A' <= c && c <= 'Z') || ('0' <= c && c <= '9') || c == '-' || c
        == '_'
}

/// Find the end of an identifier run, executable form.
fn ident_end_exec(s: &Vec<char>, i: usize) -> (r: usize)
    requires
        i <= s.len(),
    ensures
        r as int == ident_end(s@, i as int),
        i <= r <= s.len(),
{
    let mut r = i;
    while r < s.len() && is_ident_char_exec(s[r])
        invariant
            i <= r <= s.len(),
            ident_end(s@, i as int) == ident_end(s@, r as int),
        decreases s.len() - r,
    {
        r = r + 1;
    }
    r
}

/// Copy `s[from..to]` into a fresh vector.
fn subrange_vec(s: &Vec<char>, from: usize, to: usize) -> (r: Vec<char>)
    requires
        from <= to <= s.len(),
    ensures
        r@ == s@.subrange(from as int, to as int),
{
    let mut out: Vec<char> = Vec::new();
    let mut i = from;
    while i < to
        invariant
            from <= i <= to <= s.len(),
            out@ == s@.subrange(from as int, i as int),
        decreases to - i,
    {
        out.push(s[i]);
        proof {
            assert(out@ =~= s@.subrange(from as int, i + 1));
        }
        i = i + 1;
    }
    proof {
        assert(out@ =~= s@.subrange(from as int, to as int));
    }
    out
}

/// Copy `s[from..to]` lower-cased.
fn subrange_vec_lower(s: &Vec<char>, from: usize, to: usize) -> (r: Vec<char>)
    requires
        from <= to <= s.len(),
    ensures
        r@ == crate::text::lower_seq(s@.subrange(from as int, to as int)),
{
    let v = subrange_vec(s, from, to);
    crate::text::lower_vec(&v)
}

/// Find a closing quote, executable form.
pub fn close_quote_exec(s: &Vec<char>, q: char, from: usize) -> (r: Option<usize>)
    requires
        from <= s.len(),
    ensures
        match r {
            Some(j) => close_quote(s@, q, from as int) == Some(j as int) && from <= j < s.len(),
            None => close_quote(s@, q, from as int) is None,
        },
{
    let mut j = from;
    while j < s.len()
        invariant
            from <= j <= s.len(),
            close_quote(s@, q, from as int) == close_quote(s@, q, j as int),
        decreases s.len() - j,
    {
        if s[j] == q {
            return Some(j);
        }
        j = j + 1;
    }
    None
}

/// Parse an attribute value, executable form.
fn parse_value_exec(s: &Vec<char>, i: usize) -> (r: Option<(Vec<char>, usize)>)
    requires
        i <= s.len(),
    ensures
        match r {
            Some((v, j)) => parse_value(s@, i as int) == Some((v@, j as int)) && i < j <= s.len(),
            None => parse_value(s@, i as int) is None,
        },
{
    if i >= s.len() {
        return None;
    }
    let c = s[i];
    if c == '"' || c == '\'' {
        match close_quote_exec(s, c, i + 1) {
            Some(q) => Some((subrange_vec(s, i + 1, q), q + 1)),
            None => None,
        }
    } else {
        let e = ident_end_exec(s, i);
        if e > i {
            Some((subrange_vec(s, i, e), e))
        } else {
            None
        }
    }
}

/// Parse one simple condition, executable form.
fn parse_cond_exec(s: &Vec<char>, i: usize) -> (r: Option<(Cond, usize)>)
    requires
        i <= s.len(),
    ensures
        match r {
            Some((c, j)) => parse_cond(s@, i as int) == Some((c@, j as int)) && i < j <= s.len(),
            None => parse_cond(s@, i as int) is None,
        },
{
    if i >= s.len() {
        return None;
    }
    let c = s[i];
    if c == '.' {
        let e = ident_end_exec(s, i + 1);
        if e > i + 1 {
            Some((Cond::ClassWord { value: subrange_vec(s, i + 1, e) }, e))
        } else {
            None
        }
    } else if c == '#' {
        let e = ident_end_exec(s, i + 1);
        if e > i + 1 {
            let r = Some((Cond::Eq { name: str_to_chars("id"), value: subrange_vec(s, i + 1, e) }, e));
            r
        } else {
            None
        }
    } else if c == '[' {
        let j0 = skip_ws_exec(s, i + 1);
        let e0 = ident_end_exec(s, j0);
        if e0 > j0 {
            let name = subrange_vec_lower(s, j0, e0);
            let j1 = skip_ws_exec(s, e0);
            if j1 < s.len() {
                if s[j1] == ']' {
                    Some((Cond::Exists { name: name }, j1 + 1))
                } else if s[j1] == '=' {
                    match parse_value_exec(s, j1 + 1) {
                        Some((v, j2)) => {
                            let j3 = skip_ws_exec(s, j2);
                            if j3 < s.len() && s[j3] == ']' {
                                Some((Cond::Eq { name: name, value: v }, j3 + 1))
                            } else {
                                None
                            }
                        },
                        None => None,
                    }
                } else if (s[j1] == '*' || s[j1] == '^' || s[j1] == '$' || s[j1] == '~' || s[j1]
                    == '|') && j1 + 1 < s.len() && s[j1 + 1] == '=' {
                    match parse_value_exec(s, j1 + 2) {
                        Some((v, j2)) => {
                            let j3 = skip_ws_exec(s, j2);
                            if j3 < s.len() && s[j3] == ']' {
                                let op = s[j1];
                                let c: Cond = if op == '*' {
                                    Cond::Substr { name: name, value: v }
                                } else if op == '^' {
                                    Cond::Prefix { name: name, value: v }
                                } else if op == '$' {
                                    Cond::Suffix { name: name, value: v }
                                } else if op == '~' {
                                    Cond::WordAttr { name: name, value: v }
                                } else {
                                    Cond::Dash { name: name, value: v }
                                };
                                Some((c, j3 + 1))
                            } else {
                                None
                            }
                        },
                        None => None,
                    }
                } else {
                    None
                }
            } else {
                None
            }
        } else {
            None
        }
    } else {
        None
    }
}

/// Parse a run of simple conditions, executable form.
fn parse_conds_exec(s: &Vec<char>, i: usize) -> (r: Option<(Vec<Cond>, usize)>)
    requires
        i <= s.len(),
    ensures
        match r {
            Some((cs, j)) => parse_conds(s@, i as int) == Some(
                (conds_view(cs@), j as int),
            ) && i <= j <= s.len(),
            None => parse_conds(s@, i as int) is None,
        },
    decreases s.len() - i,
{
    if i < s.len() && (s[i] == '.' || s[i] == '#' || s[i] == '[') {
        match parse_cond_exec(s, i) {
            Some((c, j)) => {
                match parse_conds_exec(s, j) {
                    Some((rest, k)) => {
                        let mut cs: Vec<Cond> = Vec::new();
                        let ghost c0 = c@;
                        cs.push(c);
                        proof {
                            assert(conds_view(cs@) =~= seq![c0] + conds_view(rest@).take(0));
                        }
                        for t in 0..rest.len()
                            invariant
                                cs@.len() == t + 1,
                                conds_view(cs@) == seq![c0] + conds_view(rest@).take(t as int),
                        {
                            let item = rest[t].clone_cond();
                            proof {
                                conds_view_push(cs@, item);
                            }
                            cs.push(item);
                            proof {
                                assert(conds_view(rest@)[t as int] == rest@[t as int]@);
                                assert(conds_view(cs@) =~= seq![c0] + conds_view(rest@).take(
                                    t + 1,
                                ));
                            }
                        }
                        proof {
                            assert(conds_view(rest@).take(conds_view(rest@).len() as int)
                                =~= conds_view(rest@));
                            assert(conds_view(cs@) =~= seq![c0] + conds_view(rest@));
                        }
                        Some((cs, k))
                    },
                    None => None,
                }
            },
            None => None,
        }
    } else {
        proof {
            assert(conds_view(Seq::<Cond>::empty()) =~= Seq::<CondM>::empty());
        }
        Some((Vec::new(), i))
    }
}

impl Cond {
    /// Structural copy.
    pub fn clone_cond(&self) -> (r: Cond)
        ensures
            r@ == self@,
    {
        match self {
            Cond::Exists { name } => Cond::Exists { name: chars_clone(name) },
            Cond::Eq { name, value } => Cond::Eq {
                name: chars_clone(name),
                value: chars_clone(value),
            },
            Cond::Substr { name, value } => Cond::Substr {
                name: chars_clone(name),
                value: chars_clone(value),
            },
            Cond::Prefix { name, value } => Cond::Prefix {
                name: chars_clone(name),
                value: chars_clone(value),
            },
            Cond::Suffix { name, value } => Cond::Suffix {
                name: chars_clone(name),
                value: chars_clone(value),
            },
            Cond::WordAttr { name, value } => Cond::WordAttr {
                name: chars_clone(name),
                value: chars_clone(value),
            },
            Cond::Dash { name, value } => Cond::Dash {
                name: chars_clone(name),
                value: chars_clone(value),
            },
            Cond::ClassWord { value } => Cond::ClassWord { value: chars_clone(value) },
        }
    }
}

/// Parse one compound selector, executable form.
fn parse_compound_exec(s: &Vec<char>, i: usize) -> (r: Option<(Compound, usize)>)
    requires
        i <= s.len(),
    ensures
        match r {
            Some((c, j)) => parse_compound(s@, i as int) == Some((c@, j as int)) && i <= j
                <= s.len(),
            None => parse_compound(s@, i as int) is None,
        },
{
    let e = ident_end_exec(s, i);
    let tag: Option<Vec<char>> = if e > i {
        Some(subrange_vec_lower(s, i, e))
    } else {
        None
    };
    match parse_conds_exec(s, e) {
        Some((conds, k)) => {
            if tag.is_none() && conds.len() == 0 {
                proof {
                    assert(conds_view(conds@).len() == 0);
                }
                None
            } else {
                Some((Compound { tag: tag, conds: conds }, k))
            }
        },
        None => None,
    }
}

/// Parse a chain of compounds, executable form.
fn parse_parts_exec(s: &Vec<char>, i: usize) -> (r: Option<(Vec<Compound>, usize)>)
    requires
        i <= s.len(),
    ensures
        match r {
            Some((ps, j)) => parse_parts(s@, i as int) == Some((parts_view(ps@), j as int)),
            None => parse_parts(s@, i as int) is None,
        },
    decreases s.len() - i,
{
    match parse_compound_exec(s, i) {
        Some((c, j)) => {
            if i < j {
                let k = skip_ws_exec(s, j);
                if k == s.len() {
                    let ghost c0 = c@;
                    let mut ps: Vec<Compound> = Vec::new();
                    ps.push(c);
                    proof {
                        assert(parts_view(ps@) =~= seq![c0]);
                    }
                    Some((ps, k))
                } else if k > j {
                    match parse_parts_exec(s, k) {
                        Some((rest, end)) => {
                            let ghost c0 = c@;
                            let mut ps: Vec<Compound> = Vec::new();
                            ps.push(c);
                            proof {
                                assert(parts_view(ps@) =~= seq![c0] + parts_view(rest@).take(0));
                            }
                            let mut t: usize = 0;
                            while t < rest.len()
                                invariant
                                    t <= rest.len(),
                                    ps@.len() == t + 1,
                                    parts_view(ps@) == seq![c0] + parts_view(rest@).take(t as int),
                                decreases rest.len() - t,
                            {
                                let item = rest[t].clone_compound();
                                proof {
                                    parts_view_push(ps@, item);
                                }
                                ps.push(item);
                                proof {
                                    assert(parts_view(rest@)[t as int] == rest@[t as int]@);
                                    assert(parts_view(ps@) =~= seq![c0] + parts_view(rest@).take(
                                        t + 1,
                                    ));
                                }
                                t = t + 1;
                            }
                            proof {
                                assert(parts_view(rest@).take(parts_view(rest@).len() as int)
                                    =~= parts_view(rest@));
                                assert(parts_view(ps@) =~= seq![c0] + parts_view(rest@));
                            }
                            Some((ps, end))
                        },
                        None => None,
                    }
                } else {
                    None
                }
            } else {
                None
            }
        },
        None => None,
    }
}

impl Compound {
    /// Structural copy.
    pub fn clone_compound(&self) -> (r: Compound)
        ensures
            r@ == self@,
    {
        let tag: Option<Vec<char>> = match &self.tag {
            Some(t) => Some(chars_clone(t)),
            None => None,
        };
        let mut conds: Vec<Cond> = Vec::new();
        for t in 0..self.conds.len()
            invariant
                conds_view(conds@) == conds_view(self.conds@).take(t as int),
        {
            let item = self.conds[t].clone_cond();
            proof {
                conds_view_push(conds@, item);
            }
            conds.push(item);
            proof {
                assert(conds_view(self.conds@)[t as int] == self.conds@[t as int]@);
                assert(conds_view(conds@) =~= conds_view(self.conds@).take(t + 1));
            }
        }
        proof {
            assert(conds_view(self.conds@).take(conds_view(self.conds@).len() as int)
                =~= conds_view(self.conds@));
        }
        Compound { tag: tag, conds: conds }
    }
}

/// Parse a selector string; `None` is a selector error.
pub fn parse_selector(sel: &str) -> (r: Option<Selector>)
    ensures
        match r {
            Some(out) => parse_selector_spec(sel@) == Some(out@),
            None => parse_selector_spec(sel@) is None,
        },
{
    let s = str_to_chars(sel);
    let i = skip_ws_exec(&s, 0);
    if i < s.len() {
        match parse_parts_exec(&s, i) {
            Some((parts, _)) => Some(Selector { parts }),
            None => None,
        }
    } else {
        None
    }
}

/// A whitespace-separated word of `s` equal to `w` starts at `i`.
pub open spec fn word_at(s: Seq<char>, w: Seq<char>, i: int) -> bool {
    &&& occurs_at(s, w, i)
    &&& (i == 0 || is_space(s[i - 1]))
    &&& (i + w.len() == s.len() || is_space(s[i + w.len()]))
}

/// `w` is one of the whitespace-separated words of `s`.
pub open spec fn has_word(s: Seq<char>, w: Seq<char>) -> bool {
    w.len() > 0 && exists|i: int| word_at(s, w, i)
}

/// One whitespace-separated word of `s` equal to `w` starts at `i`,
/// executable form.
fn word_at_exec(s: &Vec<char>, w: &Vec<char>, i: usize) -> (r: bool)
    requires
        i + w.len() <= s.len(),
    ensures
        r == word_at(s@, w@, i as int),
{
    if !crate::text::occurs_at_exec(s, w, i) {
        return false;
    }
    if i > 0 && !is_space_exec(s[i - 1]) {
        return false;
    }
    if i + w.len() < s.len() && !is_space_exec(s[i + w.len()]) {
        return false;
    }
    true
}

/// Word membership, executable form.
pub fn has_word_exec(s: &Vec<char>, w: &Vec<char>) -> (r: bool)
    ensures
        r == has_word(s@, w@),
{
    if w.len() == 0 || w.len() > s.len() {
        proof {
            assert(forall|i: int| occurs_at(s@, w@, i) ==> i + w@.len() <= s@.len());
        }
        return false;
    }
    let last = s.len() - w.len();
    for i in 0..last + 1
        invariant
            0 < w.len() <= s.len(),
            last == s.len() - w.len(),
            forall|j: int| 0 <= j < i ==> !word_at(s@, w@, j),
    {
        if word_at_exec(s, w, i) {
            return true;
        }
    }
    proof {
        assert(forall|i: int| word_at(s@, w@, i) ==> 0 <= i <= last);
    }
    false
}

/// A character that may appear in a tag name, class, id or attribute name.
pub open spec fn is_ident_char(c: char) -> bool {
    ('a' <= c && c <= 'z') || ('A' <= c && c <= 'Z') || is_digit(c) || c == '-' || c == '_'
}

/// First index at or after `i` whose character is not whitespace.
pub open spec fn skip_ws(s: Seq<char>, i: int) -> int
    decreases s.len() - i,
{
    if 0 <= i < s.len() && is_space(s[i]) {
        skip_ws(s, i + 1)
    } else {
        i
    }
}

/// First index at or after `i` whose character is not an identifier character.
pub open spec fn ident_end(s: Seq<char>, i: int) -> int
    decreases s.len() - i,
{
    if 0 <= i < s.len() && is_ident_char(s[i]) {
        ident_end(s, i + 1)
    } else {
        i
    }
}

/// Parse an attribute value at `i`: quoted with `"` or `'`, or a bare
/// identifier run.
pub open spec fn parse_value(s: Seq<char>, i: int) -> Option<(Seq<char>, int)>
    decreases s.len() - i,
{
    if !(0 <= i < s.len()) {
        None
    } else if s[i] == '"' || s[i] == '\'' {
        match close_quote(s, s[i], i + 1) {
            Some(q) => Some((s.subrange(i + 1, q), q + 1)),
            None => None,
        }
    } else {
        let e = ident_end(s, i);
        if e > i {
            Some((s.subrange(i, e), e))
        } else {
            None
        }
    }
}

/// Position of the closing quote character at or after `from`, if any.
pub open spec fn close_quote(s: Seq<char>, q: char, from: int) -> Option<int>
    decreases s.len() - from,
{
    if !(0 <= from < s.len()) {
        None
    } else if s[from] == q {
        Some(from)
    } else {
        close_quote(s, q, from + 1)
    }
}

/// The condition an attribute operator character stands for.
pub open spec fn op_cond(op: char, name: Seq<char>, value: Seq<char>) -> CondM {
    if op == '*' {
        CondM::Substr { name, value }
    } else if op == '^' {
        CondM::Prefix { name, value }
    } else if op == '$' {
        CondM::Suffix { name, value }
    } else if op == '~' {
        CondM::WordAttr { name, value }
    } else {
        CondM::Dash { name, value }
    }
}

/// Whether a character is one of the two-character attribute operators'
/// first characters.
pub open spec fn is_attr_op(c: char) -> bool {
    c == '*' || c == '^' || c == '$' || c == '~' || c == '|'
}

/// Parse one simple condition (`.class`, `#id`, `[attr...]`) at `i`.
pub open spec fn parse_cond(s: Seq<char>, i: int) -> Option<(CondM, int)> {
    if !(0 <= i < s.len()) {
        None
    } else if s[i] == '.' {
        let e = ident_end(s, i + 1);
        if e > i + 1 {
            Some((CondM::ClassWord { value: s.subrange(i + 1, e) }, e))
        } else {
            None
        }
    } else if s[i] == '#' {
        let e = ident_end(s, i + 1);
        if e > i + 1 {
            Some((CondM::Eq { name: "id"@, value: s.subrange(i + 1, e) }, e))
        } else {
            None
        }
    } else if s[i] == '[' {
        let j0 = skip_ws(s, i + 1);
        let e0 = ident_end(s, j0);
        if e0 > j0 {
            let name = crate::text::lower_seq(s.subrange(j0, e0));
            let j1 = skip_ws(s, e0);
            if 0 <= j1 < s.len() {
                if s[j1] == ']' {
                    Some((CondM::Exists { name: name }, j1 + 1))
                } else if s[j1] == '=' {
                    match parse_value(s, j1 + 1) {
                        Some((v, j2)) => {
                            let j3 = skip_ws(s, j2);
                            if 0 <= j3 < s.len() && s[j3] == ']' {
                                Some((CondM::Eq { name: name, value: v }, j3 + 1))
                            } else {
                                None
                            }
                        },
                        None => None,
                    }
                } else if is_attr_op(s[j1]) && j1 + 1 < s.len() && s[j1 + 1] == '=' {
                    match parse_value(s, j1 + 2) {
                        Some((v, j2)) => {
                            let j3 = skip_ws(s, j2);
                            if 0 <= j3 < s.len() && s[j3] == ']' {
                                Some((op_cond(s[j1], name, v), j3 + 1))
                            } else {
                                None
                            }
                        },
                        None => None,
                    }
                } else {
                    None
                }
            } else {
                None
            }
        } else {
            None
        }
    } else {
        None
    }
}

/// Parse a run of simple conditions starting at `i`.
pub open spec fn parse_conds(s: Seq<char>, i: int) -> Option<(Seq<CondM>, int)>
    decreases s.len() - i,
{
    if 0 <= i < s.len() && (s[i] == '.' || s[i] == '#' || s[i] == '[') {
        match parse_cond(s, i) {
            Some((c, j)) => {
                if i < j <= s.len() {
                    match parse_conds(s, j) {
                        Some((rest, k)) => Some((seq![c] + rest, k)),
                        None => None,
                    }
                } else {
                    None
                }
            },
            None => None,
        }
    } else {
        Some((Seq::empty(), i))
    }
}

/// Parse one compound selector at `i`.
pub open spec fn parse_compound(s: Seq<char>, i: int) -> Option<(CompoundM, int)> {
    if !(0 <= i <= s.len()) {
        None
    } else {
        let e = ident_end(s, i);
        let tag: Option<Seq<char>> = if e > i {
            Some(crate::text::lower_seq(s.subrange(i, e)))
        } else {
            None
        };
        match parse_conds(s, e) {
            Some((conds, k)) => {
                if tag is None && conds.len() == 0 {
                    None
                } else {
                    Some((CompoundM { tag: tag, conds: conds }, k))
                }
            },
            None => None,
        }
    }
}

/// Parse a whitespace-separated chain of compounds starting at `i`.
pub open spec fn parse_parts(s: Seq<char>, i: int) -> Option<(Seq<CompoundM>, int)>
    decreases s.len() - i,
{
    match parse_compound(s, i) {
        Some((c, j)) => {
            if i < j <= s.len() {
                let k = skip_ws(s, j);
                if k == s.len() {
                    Some((seq![c], k))
                } else if j < k < s.len() {
                    match parse_parts(s, k) {
                        Some((rest, end)) => Some((seq![c] + rest, end)),
                        None => None,
                    }
                } else {
                    None
                }
            } else {
                None
            }
        },
        None => None,
    }
}

/// Parse a whole selector string.
pub open spec fn parse_selector_spec(s: Seq<char>) -> Option<SelectorM> {
    let i = skip_ws(s, 0);
    if i < s.len() {
        match parse_parts(s, i) {
            Some((parts, _)) => Some(SelectorM { parts: parts }),
            None => None,
        }
    } else {
        None
    }
}

/// A condition holds of an element. As in CSS, an empty value under the
/// substring, prefix, suffix and word operators matches nothing.
pub open spec fn cond_matches(e: ElemM, c: CondM) -> bool {
    match c {
        CondM::Exists { name } => attr_of(e.attrs, name) is Some,
        CondM::Eq { name, value } => attr_of(e.attrs, name) == Some(value),
        CondM::Substr { name, value } => value.len() > 0 && (match attr_of(e.attrs, name) {
            Some(v) => contains_seq(v, value),
            None => false,
        }),
        CondM::Prefix { name, value } => value.len() > 0 && (match attr_of(e.attrs, name) {
            Some(v) => crate::text::starts_with(v, value),
            None => false,
        }),
        CondM::Suffix { name, value } => value.len() > 0 && (match attr_of(e.attrs, name) {
            Some(v) => crate::text::ends_with(v, value),
            None => false,
        }),
        CondM::WordAttr { name, value } => match attr_of(e.attrs, name) {
            Some(v) => has_word(v, value),
            None => false,
        },
        CondM::Dash { name, value } => match attr_of(e.attrs, name) {
            Some(v) => v == value || crate::text::starts_with(v, value + seq!['-']),
            None => false,
        },
        CondM::ClassWord { value } => match attr_of(e.attrs, "class"@) {
            Some(v) => has_word(v, value),
            None => false,
        },
    }
}

/// A compound selector matches an element.
pub open spec fn compound_matches(e: ElemM, c: CompoundM) -> bool {
    &&& (match c.tag {
        Some(t) => e.name == t,
        None => true,
    })
    &&& (forall|i: int| 0 <= i < c.conds.len() ==> cond_matches(e, #[trigger] c.conds[i]))
}

/// A condition holds of an element, executable form.
pub fn cond_matches_exec(e: &crate::dom::Elem, c: &Cond) -> (r: bool)
    ensures
        r == cond_matches(e@, c@),
{
    match c {
        Cond::Exists { name } => e.get_attr(name).is_some(),
        Cond::Eq { name, value } => {
            match e.get_attr(name) {
                Some(v) => chars_eq(&v, value),
                None => false,
            }
        },
        Cond::Substr { name, value } => {
            value.len() > 0 && match e.get_attr(name) {
                Some(v) => contains_exec(&v, value),
                None => false,
            }
        },
        Cond::Prefix { name, value } => {
            value.len() > 0 && match e.get_attr(name) {
                Some(v) => crate::text::starts_with_exec(&v, value),
                None => false,
            }
        },
        Cond::Suffix { name, value } => {
            value.len() > 0 && match e.get_attr(name) {
                Some(v) => crate::text::ends_with_exec(&v, value),
                None => false,
            }
        },
        Cond::WordAttr { name, value } => {
            match e.get_attr(name) {
                Some(v) => has_word_exec(&v, value),
                None => false,
            }
        },
        Cond::Dash { name, value } => {
            match e.get_attr(name) {
                Some(v) => {
                    if chars_eq(&v, value) {
                        true
                    } else {
                        let mut dashed = chars_clone(value);
                        dashed.push('-');
                        proof {
                            assert(dashed@ =~= value@ + seq!['-']);
                        }
                        crate::text::starts_with_exec(&v, &dashed)
                    }
                },
                None => false,
            }
        },
        Cond::ClassWord { value } => {
            let class_name = str_to_chars("class");
            match e.get_attr(&class_name) {
                Some(v) => has_word_exec(&v, value),
                None => false,
            }
        },
    }
}

/// A compound selector matches an element, executable form.
pub fn compound_matches_exec(e: &crate::dom::Elem, c: &Compound) -> (r: bool)
    ensures
        r == compound_matches(e@, c@),
{
    match &c.tag {
        Some(t) => {
            if !chars_eq(&e.name, t) {
                return false;
            }
        },
        None => {},
    }
    let ghost condsm = c@.conds;
    for i in 0..c.conds.len()
        invariant
            condsm == conds_view(c.conds@),
            forall|j: int| 0 <= j < i ==> cond_matches(e@, #[trigger] condsm[j]),
    {
        if !cond_matches_exec(e, &c.conds[i]) {
            proof {
                assert(c@.conds[i as int] == c.conds@[i as int]@);
                assert(!cond_matches(e@, c@.conds[i as int]));
            }
            return false;
        }
    }
    true
}

} // verus!
