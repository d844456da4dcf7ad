//! Character-level utilities shared by the extraction passes.
//!
//! The library works on `Vec<char>` internally so that every pass is plain
//! index arithmetic over a `Seq<char>` view.

use vstd::prelude::*;
use vstd::std_specs::iter::IteratorSpec;

verus! {

/// ASCII lower-casing of a single character; other characters are unchanged.
pub open spec fn lower_char(c: char) -> char {
    if 'A' <= c && c <= 'Z' {
        ((c as u32) + 32) as char
    } else {
        c
    }
}

/// ASCII lower-casing of a character sequence.
pub open spec fn lower_seq(s: Seq<char>) -> Seq<char> {
    s.map_values(|c: char| lower_char(c))
}

/// `needle` occurs contiguously inside `hay` starting at `i`.
pub open spec fn occurs_at(hay: Seq<char>, needle: Seq<char>, i: int) -> bool {
    0 <= i && i + needle.len() <= hay.len() && hay.subrange(i, i + needle.len()) == needle
}

/// `needle` occurs contiguously somewhere inside `hay`.
pub open spec fn contains_seq(hay: Seq<char>, needle: Seq<char>) -> bool {
    exists|i: int| occurs_at(hay, needle, i)
}

/// ASCII whitespace, as the noise and attribution passes understand it.
pub open spec fn is_space(c: char) -> bool {
    c == ' ' || c == '\t' || c == '\n' || c == '\r' || c == '\x0b' || c == '\x0c'
}

/// Decimal digit.
pub open spec fn is_digit(c: char) -> bool {
    '0' <= c && c <= '9'
}

/// Every character of `s` is whitespace.
pub open spec fn all_space(s: Seq<char>) -> bool {
    forall|i: int| 0 <= i < s.len() ==> is_space(#[trigger] s[i])
}

/// Turn a string slice into the vector of its characters.
pub fn str_to_chars(s: &str) -> (r: Vec<char>)
    ensures
        r@ == s@,
{
    let mut it = s.chars();
    let mut r: Vec<char> = Vec::new();
    loop
        invariant
            it.obeys_prophetic_iter_laws(),
            it.decrease() is Some,
            r@ + it.remaining() == s@,
        ensures
            r@ == s@,
        decreases it.decrease()->0,
    {
        match it.next() {
            Some(c) => {
                r.push(c);
            },
            None => {
                proof {
                    assert(r@ + it.remaining() =~= r@);
                }
                break ;
            },
        }
    }
    r
}

/// Relies on `String: FromIterator<char>`: collecting characters builds the
/// string holding exactly those characters in order.
#[verifier::external_body]
pub fn chars_to_string(v: &Vec<char>) -> (r: String)
    ensures
        r@ == v@,
{
    v.iter().collect()
}

/// ASCII lower-casing, executable form.
pub fn lower_char_exec(c: char) -> (r: char)
    ensures
        r == lower_char(c),
{
    if 'A' <= c && c <= 'Z' {
        let u = c as u32;
        proof {
            assert('A' <= c && c <= 'Z' ==> 65 <= c as u32 <= 90);
        }
        let l = u + 32;
        char_from_u32(l)
    } else {
        c
    }
}

/// Relies on `char::from_u32`: for a scalar value below the surrogate range
/// the conversion succeeds and yields the character with that code point.
#[verifier::external_body]
fn char_from_u32(u: u32) -> (r: char)
    requires
        u < 0xD800,
    ensures
        r as u32 == u,
{
    char::from_u32(u).unwrap()
}

/// Whitespace test, executable form.
pub fn is_space_exec(c: char) -> (r: bool)
    ensures
        r == is_space(c),
{
    c == ' ' || c == '\t' || c == '\n' || c == '\r' || c == '\x0b' || c == '\x0c'
}

/// ASCII lower-casing of a whole vector.
pub fn lower_vec(s: &Vec<char>) -> (r: Vec<char>)
    ensures
        r@ == lower_seq(s@),
{
    let mut r: Vec<char> = Vec::new();
    for i in 0..s.len()
        invariant
            r@ == lower_seq(s@.take(i as int)),
    {
        r.push(lower_char_exec(s[i]));
        proof {
            assert(r@ =~= lower_seq(s@.take(i + 1)));
        }
    }
    proof {
        assert(s@.take(s@.len() as int) =~= s@);
    }
    r
}

/// Equality of two character vectors.
pub fn chars_eq(a: &Vec<char>, b: &Vec<char>) -> (r: bool)
    ensures
        r == (a@ == b@),
{
    if a.len() != b.len() {
        proof {
            assert(a@.len() != b@.len());
        }
        return false;
    }
    for i in 0..a.len()
        invariant
            a@.len() == b@.len(),
            forall|j: int| 0 <= j < i ==> a@[j] == b@[j],
    {
        if a[i] != b[i] {
            return false;
        }
    }
    proof {
        assert(a@ =~= b@);
    }
    true
}

/// Equality of a character vector against a string slice.
pub fn chars_eq_str(a: &Vec<char>, s: &str) -> (r: bool)
    ensures
        r == (a@ == s@),
{
    let b = str_to_chars(s);
    chars_eq(a, &b)
}

/// `needle` occurs at position `i` of `hay`, executable form.
pub fn occurs_at_exec(hay: &Vec<char>, needle: &Vec<char>, i: usize) -> (r: bool)
    requires
        i + needle.len() <= hay.len(),
    ensures
        r == occurs_at(hay@, needle@, i as int),
{
    for k in 0..needle.len()
        invariant
            i + needle.len() <= hay.len(),
            forall|j: int| 0 <= j < k ==> hay@[i + j] == needle@[j],
    {
        if hay[i + k] != needle[k] {
            proof {
                assert(occurs_at(hay@, needle@, i as int) ==> hay@.subrange(
                    i as int,
                    i + needle@.len(),
                )[k as int] == needle@[k as int]);
            }
            return false;
        }
    }
    proof {
        assert(hay@.subrange(i as int, i + needle@.len()) =~= needle@);
    }
    true
}

/// Substring search.
pub fn contains_exec(hay: &Vec<char>, needle: &Vec<char>) -> (r: bool)
    ensures
        r == contains_seq(hay@, needle@),
{
    if needle.len() > hay.len() {
        proof {
            assert(forall|i: int| !occurs_at(hay@, needle@, i));
        }
        return false;
    }
    if needle.len() == 0 {
        proof {
            assert(hay@.subrange(0, 0) =~= needle@);
            assert(occurs_at(hay@, needle@, 0));
        }
        return true;
    }
    let last = hay.len() - needle.len();
    for i in 0..last + 1
        invariant
            0 < needle.len() <= hay.len(),
            last == hay.len() - needle.len(),
            forall|j: int| 0 <= j < i ==> !occurs_at(hay@, needle@, j),
    {
        if occurs_at_exec(hay, needle, i) {
            return true;
        }
    }
    proof {
        assert(forall|i: int| occurs_at(hay@, needle@, i) ==> 0 <= i <= last);
    }
    false
}

/// Every character of `s` is whitespace, executable form.
pub fn all_space_exec(s: &Vec<char>) -> (r: bool)
    ensures
        r == all_space(s@),
{
    for i in 0..s.len()
        invariant
            forall|j: int| 0 <= j < i ==> is_space(#[trigger] s@[j]),
    {
        if !is_space_exec(s[i]) {
            return false;
        }
    }
    true
}

/// Concatenate a prefix with the tail of `s` starting at `from`.
pub fn concat_from(prefix: &Vec<char>, s: &Vec<char>, from: usize) -> (r: Vec<char>)
    requires
        from <= s.len(),
    ensures
        r@ == prefix@ + s@.subrange(from as int, s@.len() as int),
{
    let mut out: Vec<char> = Vec::new();
    for i in 0..prefix.len()
        invariant
            out@ == prefix@.take(i as int),
    {
        out.push(prefix[i]);
        proof {
            assert(out@ =~= prefix@.take(i + 1));
        }
    }
    proof {
        assert(prefix@.take(prefix@.len() as int) =~= prefix@);
        assert(prefix@ + s@.subrange(from as int, from as int) =~= prefix@);
    }
    let mut i: usize = from;
    while i < s.len()
        invariant
            from <= i <= s.len(),
            out@ == prefix@ + s@.subrange(from as int, i as int),
        decreases s.len() - i,
    {
        out.push(s[i]);
        proof {
            assert(out@ =~= prefix@ + s@.subrange(from as int, i + 1));
        }
        i = i + 1;
    }
    proof {
        assert(out@ =~= prefix@ + s@.subrange(from as int, s@.len() as int));
    }
    out
}

/// Copy of a character vector.
pub fn chars_clone(s: &Vec<char>) -> (r: Vec<char>)
    ensures
        r@ == s@,
{
    let mut out: Vec<char> = Vec::new();
    for i in 0..s.len()
        invariant
            out@ == s@.take(i as int),
    {
        out.push(s[i]);
        proof {
            assert(out@ =~= s@.take(i + 1));
        }
    }
    proof {
        assert(s@.take(s@.len() as int) =~= s@);
    }
    out
}

/// A prefix test over sequences.
pub open spec fn starts_with(s: Seq<char>, prefix: Seq<char>) -> bool {
    occurs_at(s, prefix, 0)
}

/// A suffix test over sequences.
pub open spec fn ends_with(s: Seq<char>, suffix: Seq<char>) -> bool {
    occurs_at(s, suffix, s.len() - suffix.len())
}

/// Suffix test, executable form.
pub fn ends_with_exec(s: &Vec<char>, suffix: &Vec<char>) -> (r: bool)
    ensures
        r == ends_with(s@, suffix@),
{
    if suffix.len() > s.len() {
        return false;
    }
    occurs_at_exec(s, suffix, s.len() - suffix.len())
}

/// Prefix test, executable form.
pub fn starts_with_exec(s: &Vec<char>, prefix: &Vec<char>) -> (r: bool)
    ensures
        r == starts_with(s@, prefix@),
{
    if prefix.len() > s.len() {
        return false;
    }
    occurs_at_exec(s, prefix, 0)
}


/// Model of a list of texts.
pub open spec fn texts_view(vs: Seq<Vec<char>>) -> Seq<Seq<char>> {
    vs.map_values(|v: Vec<char>| v@)
}

/// Pushing a text appends to the model.
pub proof fn texts_view_push(vs: Seq<Vec<char>>, v: Vec<char>)
    ensures
        texts_view(vs.push(v)) == texts_view(vs) + seq![v@],
{
    assert(texts_view(vs.push(v)) =~= texts_view(vs) + seq![v@]);
}

/// Split on a separator character: the fields, in order; one more field than
/// separators, so the result is never empty.
pub open spec fn split_on(s: Seq<char>, c: char) -> Seq<Seq<char>>
    decreases s.len(),
{
    if s.len() == 0 {
        seq![s]
    } else if s[0] == c {
        seq![Seq::<char>::empty()] + split_on(s.subrange(1, s.len() as int), c)
    } else {
        let rest = split_on(s.subrange(1, s.len() as int), c);
        seq![seq![s[0]] + rest[0]] + rest.subrange(1, rest.len() as int)
    }
}

/// A split has at least one field.
pub proof fn split_on_len(s: Seq<char>, c: char)
    ensures
        split_on(s, c).len() >= 1,
    decreases s.len(),
{
    if s.len() > 0 {
        split_on_len(s.subrange(1, s.len() as int), c);
    }
}

/// Splitting at the first separator occurrence.
pub proof fn split_on_at(s: Seq<char>, c: char, idx: int)
    requires
        0 <= idx <= s.len(),
        forall|k: int| 0 <= k < idx ==> s[k] != c,
        idx < s.len() ==> s[idx] == c,
    ensures
        idx == s.len() ==> split_on(s, c) == seq![s],
        idx < s.len() ==> split_on(s, c) == seq![s.take(idx)] + split_on(
            s.subrange(idx + 1, s.len() as int),
            c,
        ),
    decreases idx,
{
    if idx == 0 {
        if s.len() == 0 {
        } else if idx < s.len() {
            assert(s.take(0) =~= Seq::<char>::empty());
            assert(split_on(s, c) =~= seq![s.take(0)] + split_on(
                s.subrange(1, s.len() as int),
                c,
            ));
        }
    } else {
        let tail = s.subrange(1, s.len() as int);
        assert(forall|k: int| 0 <= k < idx - 1 ==> tail[k] != c);
        split_on_at(tail, c, idx - 1);
        let r = split_on(tail, c);
        if idx == s.len() {
            assert(r == seq![tail]);
            assert(seq![s[0]] + tail =~= s);
            assert(split_on(s, c) =~= seq![s]);
        } else {
            assert(r == seq![tail.take(idx - 1)] + split_on(
                tail.subrange(idx, tail.len() as int),
                c,
            ));
            assert(seq![s[0]] + tail.take(idx - 1) =~= s.take(idx));
            assert(tail.subrange(idx, tail.len() as int) =~= s.subrange(idx + 1, s.len() as int));
            assert(r[0] == tail.take(idx - 1));
            assert(r.subrange(1, r.len() as int) =~= split_on(
                s.subrange(idx + 1, s.len() as int),
                c,
            ));
            assert(split_on(s, c) =~= seq![s.take(idx)] + split_on(
                s.subrange(idx + 1, s.len() as int),
                c,
            ));
        }
    }
}

/// Split on a separator character, executable form.
pub fn split_on_exec(s: &Vec<char>, c: char) -> (r: Vec<Vec<char>>)
    ensures
        texts_view(r@) == split_on(s@, c),
        r@.len() >= 1,
{
    let mut out: Vec<Vec<char>> = Vec::new();
    let mut i: usize = 0;
    proof {
        assert(s@.subrange(0, s@.len() as int) =~= s@);
        assert(texts_view(out@) + split_on(s@, c) =~= split_on(s@, c));
    }
    loop
        invariant_except_break
            i <= s.len(),
            texts_view(out@) + split_on(s@.subrange(i as int, s@.len() as int), c) == split_on(
                s@,
                c,
            ),
        ensures
            texts_view(out@) == split_on(s@, c),
        decreases s.len() - i,
    {
        let ghost rest = s@.subrange(i as int, s@.len() as int);
        // find the next separator
        let mut j: usize = i;
        while j < s.len() && s[j] != c
            invariant
                i <= j <= s.len(),
                forall|k: int| i <= k < j ==> s@[k] != c,
            decreases s.len() - j,
        {
            j = j + 1;
        }
        proof {
            assert(forall|k: int| 0 <= k < j - i ==> rest[k] != c);
            if j < s.len() {
                assert(rest[j - i] == s@[j as int]);
            }
            split_on_at(rest, c, j - i);
        }
        let mut field: Vec<char> = Vec::new();
        let mut k: usize = i;
        while k < j
            invariant
                i <= k <= j <= s.len(),
                field@ == s@.subrange(i as int, k as int),
            decreases j - k,
        {
            field.push(s[k]);
            proof {
                assert(field@ =~= s@.subrange(i as int, k + 1));
            }
            k = k + 1;
        }
        proof {
            texts_view_push(out@, field);
            assert(field@ =~= rest.take(j - i));
        }
        out.push(field);
        if j == s.len() {
            proof {
                assert(rest.take(j - i) =~= rest);
                assert(split_on(rest, c) == seq![rest]);
                assert(texts_view(out@) =~= split_on(s@, c));
            }
            break ;
        }
        proof {
            assert(rest.subrange(j - i + 1, rest.len() as int) =~= s@.subrange(
                j + 1,
                s@.len() as int,
            ));
            assert(texts_view(out@) + split_on(s@.subrange(j + 1, s@.len() as int), c)
                =~= split_on(s@, c));
        }
        i = j + 1;
    }
    proof {
        split_on_len(s@, c);
        assert(texts_view(out@).len() == out@.len());
    }
    out
}

/// Index of the first non-whitespace character.
pub open spec fn trim_from(s: Seq<char>, i: int) -> int
    decreases s.len() - i,
{
    if 0 <= i < s.len() && is_space(s[i]) {
        trim_from(s, i + 1)
    } else {
        i
    }
}

/// One past the last non-whitespace character at or before `j - 1`.
pub open spec fn trim_to(s: Seq<char>, j: int) -> int
    decreases j,
{
    if 0 < j <= s.len() && is_space(s[j - 1]) {
        trim_to(s, j - 1)
    } else {
        j
    }
}

/// Whitespace trimmed from both ends.
pub open spec fn trim_spec(s: Seq<char>) -> Seq<char> {
    let a = trim_from(s, 0);
    let b = trim_to(s, s.len() as int);
    if a <= b {
        s.subrange(a, b)
    } else {
        Seq::empty()
    }
}

/// Trim whitespace from both ends, executable form.
pub fn trim_exec(s: &Vec<char>) -> (r: Vec<char>)
    ensures
        r@ == trim_spec(s@),
{
    let mut a: usize = 0;
    while a < s.len() && is_space_exec(s[a])
        invariant
            a <= s.len(),
            trim_from(s@, 0) == trim_from(s@, a as int),
        decreases s.len() - a,
    {
        a = a + 1;
    }
    let mut b: usize = s.len();
    while b > 0 && is_space_exec(s[b - 1])
        invariant
            b <= s.len(),
            trim_to(s@, s@.len() as int) == trim_to(s@, b as int),
        decreases b,
    {
        b = b - 1;
    }
    if a <= b {
        let mut out: Vec<char> = Vec::new();
        let mut i = a;
        while i < b
            invariant
                a <= i <= b <= s.len(),
                out@ == s@.subrange(a as int, i as int),
            decreases b - i,
        {
            out.push(s[i]);
            proof {
                assert(out@ =~= s@.subrange(a as int, i + 1));
            }
            i = i + 1;
        }
        proof {
            assert(out@ =~= trim_spec(s@));
        }
        out
    } else {
        proof {
            assert(Seq::<char>::empty() =~= trim_spec(s@));
        }
        Vec::new()
    }
}

/// Join fields with a single space.
pub open spec fn join_sp(parts: Seq<Seq<char>>) -> Seq<char>
    decreases parts.len(),
{
    if parts.len() == 0 {
        Seq::empty()
    } else if parts.len() == 1 {
        parts[0]
    } else {
        parts[0] + seq![' '] + join_sp(parts.subrange(1, parts.len() as int))
    }
}

/// Join fields with a single space, executable form.
pub fn join_sp_exec(parts: &Vec<Vec<char>>) -> (r: Vec<char>)
    ensures
        r@ == join_sp(texts_view(parts@)),
{
    let mut out: Vec<char> = Vec::new();
    let ghost model = texts_view(parts@);
    proof {
        assert(model.subrange(0, model.len() as int) =~= model);
        assert(out@ + join_sp(model) =~= join_sp(model));
        assert(join_sp(Seq::<Seq<char>>::empty()) == Seq::<char>::empty());
        if model.len() == 0 {
            assert(out@ =~= join_sp(model));
        }
    }
    for i in 0..parts.len()
        invariant
            model == texts_view(parts@),
            model.len() == parts@.len(),
            out@ + join_sp(model.subrange(i as int, model.len() as int)) == join_sp(model),
    {
        let ghost rest = model.subrange(i as int, model.len() as int);
        proof {
            assert(rest[0] == parts@[i as int]@);
            assert(rest.subrange(1, rest.len() as int) =~= model.subrange(
                i + 1,
                model.len() as int,
            ));
        }
        let ghost mark = out@;
        let mut k: usize = 0;
        while k < parts[i].len()
            invariant
                i < parts@.len(),
                k <= parts@[i as int]@.len(),
                out@ == mark + parts@[i as int]@.take(k as int),
            decreases parts@[i as int]@.len() - k,
        {
            let c = parts[i][k];
            out.push(c);
            proof {
                assert(out@ =~= mark + parts@[i as int]@.take(k + 1));
            }
            k = k + 1;
        }
        proof {
            assert(parts@[i as int]@.take(parts@[i as int]@.len() as int) =~= parts@[i as int]@);
            assert(out@ =~= mark + rest[0]);
        }
        if i + 1 < parts.len() {
            out.push(' ');
            proof {
                assert(rest.len() > 1);
                assert(out@ =~= (mark + rest[0]) + seq![' ']);
                assert(out@ + join_sp(model.subrange(i + 1, model.len() as int)) =~= join_sp(
                    model,
                ));
            }
        } else {
            proof {
                assert(rest.len() == 1);
                assert(join_sp(rest) == rest[0]);
                assert(model.subrange(i + 1, model.len() as int) =~= Seq::<Seq<char>>::empty());
                assert(out@ + join_sp(model.subrange(i + 1, model.len() as int)) =~= join_sp(
                    model,
                ));
            }
        }
    }
    proof {
        assert(model.subrange(model.len() as int, model.len() as int)
            =~= Seq::<Seq<char>>::empty());
        assert(out@ + Seq::<char>::empty() =~= out@);
    }
    out
}


/// Model of a list of strings.
pub open spec fn strings_view(vs: Seq<String>) -> Seq<Seq<char>> {
    vs.map_values(|s: String| s@)
}

/// Pushing a string appends to the model.
pub proof fn strings_view_push(vs: Seq<String>, s: String)
    ensures
        strings_view(vs.push(s)) == strings_view(vs) + seq![s@],
{
    assert(strings_view(vs.push(s)) =~= strings_view(vs) + seq![s@]);
}

} // verus!
