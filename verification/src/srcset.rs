//! Srcset resolution: pick the candidate with the largest descriptor value
//! and write its URL back into `src`.

use vstd::prelude::*;

use crate::text::{
    is_digit, join_sp, join_sp_exec, split_on, split_on_exec, texts_view, trim_exec, trim_spec,
};

verus! {

broadcast use vstd::std_specs::vec::axiom_vec_index_decreases;

/// A descriptor value: a non-negative decimal scaled by a power of ten,
/// with its sign. The value is `num / 10^fl`, negated when `neg` holds.
#[derive(Clone, Copy)]
pub struct Desc {
    pub neg: bool,
    pub num: u64,
    pub fl: u8,
}

/// Powers of ten.
pub open spec fn pow10(e: nat) -> int
    decreases e,
{
    if e == 0 {
        1
    } else {
        10 * pow10((e - 1) as nat)
    }
}

/// Powers of ten are positive.
pub proof fn pow10_pos(e: nat)
    ensures
        pow10(e) >= 1,
    decreases e,
{
    if e > 0 {
        pow10_pos((e - 1) as nat);
    }
}

/// The signed numerator of a descriptor value.
pub open spec fn sval(d: Desc) -> int {
    if d.neg {
        -(d.num as int)
    } else {
        d.num as int
    }
}

/// Numeric order on descriptor values: `a <= b` as rationals.
pub open spec fn desc_le(a: Desc, b: Desc) -> bool {
    sval(a) * pow10(b.fl as nat) <= sval(b) * pow10(a.fl as nat)
}

/// Strict numeric order on descriptor values.
pub open spec fn desc_lt(a: Desc, b: Desc) -> bool {
    sval(a) * pow10(b.fl as nat) < sval(b) * pow10(a.fl as nat)
}

/// The numeric order is total: of two descriptor values one is less than or
/// equal to the other.
pub proof fn desc_le_total(a: Desc, b: Desc)
    ensures
        desc_le(a, b) || desc_le(b, a),
{
}

/// The numeric order is transitive.
pub proof fn desc_le_trans(a: Desc, b: Desc, c: Desc)
    requires
        desc_le(a, b),
        desc_le(b, c),
    ensures
        desc_le(a, c),
{
    let pa = pow10(a.fl as nat);
    let pb = pow10(b.fl as nat);
    let pc = pow10(c.fl as nat);
    pow10_pos(a.fl as nat);
    pow10_pos(b.fl as nat);
    pow10_pos(c.fl as nat);
    let x = sval(a);
    let y = sval(b);
    let z = sval(c);
    assert(x * pc * pb <= z * pa * pb) by (nonlinear_arith)
        requires
            x * pb <= y * pa,
            y * pc <= z * pb,
            pa >= 1,
            pb >= 1,
            pc >= 1,
    ;
    assert(x * pc <= z * pa) by (nonlinear_arith)
        requires
            x * pc * pb <= z * pa * pb,
            pb >= 1,
    ;
}

/// `pow10(19)` as a number.
pub proof fn pow10_19()
    ensures
        pow10(19) == 10000000000000000000,
{
    reveal_with_fuel(pow10, 21);
}

/// Powers of ten do not decrease.
pub proof fn pow10_mono(a: nat, b: nat)
    requires
        a <= b,
    ensures
        pow10(a) <= pow10(b),
    decreases b,
{
    if a < b {
        pow10_mono(a, (b - 1) as nat);
        pow10_pos((b - 1) as nat);
    }
}

/// `10^e` for `e <= 19`, executable form.
fn pow10_exec(e: u8) -> (r: u128)
    requires
        e <= 19,
    ensures
        r as int == pow10(e as nat),
{
    let mut r: u128 = 1;
    let mut i: u8 = 0;
    while i < e
        invariant
            i <= e <= 19,
            r as int == pow10(i as nat),
        decreases e - i,
    {
        proof {
            pow10_mono((i + 1) as nat, 19);
            pow10_19();
            pow10_pos(i as nat);
        }
        r = r * 10;
        i = i + 1;
    }
    r
}

/// Numeric comparison of two descriptor values, executable form.
pub fn desc_le_exec(a: &Desc, b: &Desc) -> (r: bool)
    requires
        a.num < 10000000000000000000,
        b.num < 10000000000000000000,
        a.fl <= 19,
        b.fl <= 19,
    ensures
        r == desc_le(*a, *b),
{
    let pa = pow10_exec(a.fl);
    let pb = pow10_exec(b.fl);
    proof {
        pow10_mono(a.fl as nat, 19);
        pow10_mono(b.fl as nat, 19);
        pow10_19();
        pow10_pos(a.fl as nat);
        pow10_pos(b.fl as nat);
        assert((a.num as int) * (pb as int) <= pow10(19) * pow10(19)) by (nonlinear_arith)
            requires
                0 <= a.num as int <= pow10(19),
                0 <= pb as int <= pow10(19),
        ;
        assert((b.num as int) * (pa as int) <= pow10(19) * pow10(19)) by (nonlinear_arith)
            requires
                0 <= b.num as int <= pow10(19),
                0 <= pa as int <= pow10(19),
        ;
        assert(pow10(19) * pow10(19) < 0x100000000000000000000000000000000int) by {
            pow10_19();
            assert(10000000000000000000int * 10000000000000000000int
                < 0x100000000000000000000000000000000int) by (nonlinear_arith);
        }
    }
    let ma = (a.num as u128) * pb;
    let mb = (b.num as u128) * pa;
    proof {
        let av = a.num as int;
        let bv = b.num as int;
        let pai = pow10(a.fl as nat);
        let pbi = pow10(b.fl as nat);
        assert((-av) * pbi == -(av * pbi)) by (nonlinear_arith);
        assert((-bv) * pai == -(bv * pai)) by (nonlinear_arith);
        assert(av * pbi >= 0) by (nonlinear_arith)
            requires
                av >= 0,
                pbi >= 1,
        ;
        assert(bv * pai >= 0) by (nonlinear_arith)
            requires
                bv >= 0,
                pai >= 1,
        ;
    }
    if a.neg && b.neg {
        mb <= ma
    } else if a.neg {
        true
    } else if b.neg {
        ma == 0 && mb == 0
    } else {
        ma <= mb
    }
}

/// One srcset candidate: a URL and its parsed descriptor value.
pub struct Cand {
    pub url: Vec<char>,
    pub val: Desc,
    pub is_x: bool,
}

/// Model of a candidate.
#[verifier::ext_equal]
pub struct CandM {
    pub url: Seq<char>,
    pub val: Desc,
    pub is_x: bool,
}

impl View for Cand {
    type V = CandM;

    open spec fn view(&self) -> CandM {
        CandM { url: self.url@, val: self.val, is_x: self.is_x }
    }
}

/// A descriptor value in range: numerator under `10^19`, scale at most 19.
pub open spec fn desc_ok(d: Desc) -> bool {
    d.num < 10000000000000000000 && d.fl <= 19
}

/// Parse the digits of a numeric descriptor prefix, folding them into a
/// scaled decimal; `fl` carries the count of fractional digits once a dot
/// was seen, and `saw` whether any digit was seen at all. A value needing
/// more than nineteen significant digits, a second dot, or any other
/// character is rejected.
pub open spec fn scan_num(s: Seq<char>, i: int, num: int, fl: Option<int>, saw: bool) -> Option<
    Desc,
>
    decreases s.len() - i,
{
    if i < 0 {
        None
    } else if i >= s.len() {
        if saw {
            Some(
                Desc {
                    neg: false,
                    num: num as u64,
                    fl: (match fl {
                        Some(f) => f,
                        None => 0,
                    }) as u8,
                },
            )
        } else {
            None
        }
    } else if is_digit(s[i]) {
        let num2 = num * 10 + (s[i] as int - '0' as int);
        if num2 >= 10000000000000000000 {
            None
        } else {
            match fl {
                Some(f) => {
                    if f >= 19 {
                        None
                    } else {
                        scan_num(s, i + 1, num2, Some(f + 1), true)
                    }
                },
                None => scan_num(s, i + 1, num2, None, true),
            }
        }
    } else if s[i] == '.' && fl is None {
        scan_num(s, i + 1, num, Some(0), saw)
    } else {
        None
    }
}

/// Parse a numeric descriptor prefix with an optional sign.
pub open spec fn parse_num(s: Seq<char>) -> Option<Desc> {
    if s.len() > 0 && (s[0] == '+' || s[0] == '-') {
        match scan_num(s, 1, 0, None, false) {
            Some(d) => Some(Desc { neg: s[0] == '-' && d.num != 0, ..d }),
            None => None,
        }
    } else {
        scan_num(s, 0, 0, None, false)
    }
}

/// A parsed descriptor value is in range.
pub proof fn scan_num_ok(s: Seq<char>, i: int, num: int, fl: Option<int>, saw: bool)
    requires
        0 <= num < 10000000000000000000,
        match fl {
            Some(f) => 0 <= f <= 19,
            None => true,
        },
    ensures
        match scan_num(s, i, num, fl, saw) {
            Some(d) => desc_ok(d),
            None => true,
        },
    decreases s.len() - i,
{
    if i < 0 {
    } else if i >= s.len() {
    } else if is_digit(s[i]) {
        let num2 = num * 10 + (s[i] as int - '0' as int);
        if num2 >= 10000000000000000000 {
        } else {
            match fl {
                Some(f) => {
                    if f < 19 {
                        scan_num_ok(s, i + 1, num2, Some(f + 1), true);
                    }
                },
                None => {
                    scan_num_ok(s, i + 1, num2, None, true);
                },
            }
        }
    } else if s[i] == '.' && fl is None {
        scan_num_ok(s, i + 1, num, Some(0), saw);
    } else {
    }
}

/// Scan digits, executable form.
fn scan_num_exec(s: &Vec<char>, i: usize, num: u64, fl: Option<u8>, saw: bool) -> (r: Option<
    Desc,
>)
    requires
        i <= s.len(),
        num < 10000000000000000000,
        match fl {
            Some(f) => f <= 19,
            None => true,
        },
    ensures
        r == scan_num(
            s@,
            i as int,
            num as int,
            match fl {
                Some(f) => Some(f as int),
                None => None,
            },
            saw,
        ),
    decreases s.len() - i,
{
    if i >= s.len() {
        if saw {
            Some(
                Desc {
                    neg: false,
                    num,
                    fl: (match fl {
                        Some(f) => f,
                        None => 0,
                    }),
                },
            )
        } else {
            None
        }
    } else {
        let c = s[i];
        if '0' <= c && c <= '9' {
            proof {
                assert(c as u32 >= '0' as u32 && c as u32 <= '9' as u32);
            }
            let d = (c as u32 - '0' as u32) as u64;
            let num2w = (num as u128) * 10 + (d as u128);
            if num2w >= 10000000000000000000u128 {
                None
            } else {
                let num2 = num2w as u64;
                proof {
                    assert(num2 as int == num as int * 10 + (c as int - '0' as int));
                }
                match fl {
                    Some(f) => {
                        if f >= 19 {
                            None
                        } else {
                            scan_num_exec(s, i + 1, num2, Some(f + 1), true)
                        }
                    },
                    None => scan_num_exec(s, i + 1, num2, None, true),
                }
            }
        } else if c == '.' && fl.is_none() {
            scan_num_exec(s, i + 1, num, Some(0), saw)
        } else {
            None
        }
    }
}

/// Parse a numeric descriptor prefix, executable form.
pub fn parse_num_exec(s: &Vec<char>) -> (r: Option<Desc>)
    ensures
        r == parse_num(s@),
        match r {
            Some(d) => desc_ok(d),
            None => true,
        },
{
    proof {
        scan_num_ok(s@, 0, 0, None, false);
        scan_num_ok(s@, 1, 0, None, false);
    }
    if s.len() > 0 && (s[0] == '+' || s[0] == '-') {
        match scan_num_exec(s, 1, 0, None, false) {
            Some(d) => Some(Desc { neg: s[0] == '-' && d.num != 0, num: d.num, fl: d.fl }),
            None => None,
        }
    } else {
        scan_num_exec(s, 0, 0, None, false)
    }
}

/// Parse one comma-separated srcset candidate. The candidate is trimmed and
/// split on single spaces; a last token ending in `x` or `w` is its
/// descriptor, otherwise the descriptor is an implicit `1x` and the URL is
/// the whole trimmed candidate. A candidate whose descriptor fails to parse
/// is dropped.
pub open spec fn parse_candidate(x: Seq<char>) -> Option<CandM> {
    let t = trim_spec(x);
    let toks = split_on(t, ' ');
    let last = toks[toks.len() - 1];
    if toks.len() > 1 && last.len() > 0 && (last[last.len() - 1] == 'x' || last[last.len() - 1]
        == 'w') {
        match parse_num(last.take(last.len() - 1)) {
            Some(v) => Some(
                CandM {
                    url: join_sp(toks.take(toks.len() - 1)),
                    val: v,
                    is_x: last[last.len() - 1] == 'x',
                },
            ),
            None => None,
        }
    } else {
        Some(CandM { url: t, val: Desc { neg: false, num: 1, fl: 0 }, is_x: true })
    }
}

/// Parse one candidate, executable form.
pub fn parse_candidate_exec(x: &Vec<char>) -> (r: Option<Cand>)
    ensures
        (match r {
            Some(c) => parse_candidate(x@) == Some(c@) && desc_ok(c.val),
            None => parse_candidate(x@) is None,
        }),
{
    let t = trim_exec(x);
    let toks = split_on_exec(&t, ' ');
    proof {
        assert(texts_view(toks@)[toks@.len() - 1] == toks@[toks@.len() - 1]@);
    }
    let last_ix = toks.len() - 1;
    let last_len = toks[last_ix].len();
    if toks.len() > 1 && last_len > 0 && (toks[last_ix][last_len - 1] == 'x'
        || toks[last_ix][last_len - 1] == 'w') {
        let is_x = toks[last_ix][last_len - 1] == 'x';
        let mut numpart: Vec<char> = Vec::new();
        for k in 0..last_len - 1
            invariant
                last_ix < toks@.len(),
                last_len == toks@[last_ix as int]@.len(),
                last_len > 0,
                numpart@ == toks@[last_ix as int]@.take(k as int),
        {
            numpart.push(toks[last_ix][k]);
            proof {
                assert(numpart@ =~= toks@[last_ix as int]@.take(k + 1));
            }
        }
        match parse_num_exec(&numpart) {
            Some(v) => {
                let mut head: Vec<Vec<char>> = Vec::new();
                for k in 0..last_ix
                    invariant
                        last_ix < toks@.len(),
                        texts_view(head@) == texts_view(toks@).take(k as int),
                {
                    let ghost before = head@;
                    let item = crate::text::chars_clone(&toks[k]);
                    proof {
                        crate::text::texts_view_push(before, item);
                    }
                    head.push(item);
                    proof {
                        assert(texts_view(toks@)[k as int] == toks@[k as int]@);
                        assert(texts_view(head@) =~= texts_view(toks@).take(k + 1));
                    }
                }
                let url = join_sp_exec(&head);
                let c = Cand { url, val: v, is_x };
                proof {
                    assert(texts_view(toks@).take(last_ix as int) =~= texts_view(toks@).take(
                        texts_view(toks@).len() - 1,
                    ));
                    assert(c@ =~= parse_candidate(x@)->0);
                }
                Some(c)
            },
            None => None,
        }
    } else {
        let c = Cand { url: t, val: Desc { neg: false, num: 1, fl: 0 }, is_x: true };
        proof {
            assert(c@ =~= parse_candidate(x@)->0);
        }
        Some(c)
    }
}

/// Model of a candidate list.
pub open spec fn cands_view(cs: Seq<Cand>) -> Seq<CandM> {
    cs.map_values(|c: Cand| c@)
}

/// Pushing a candidate appends to the model.
pub proof fn cands_view_push(cs: Seq<Cand>, c: Cand)
    ensures
        cands_view(cs.push(c)) == cands_view(cs) + seq![c@],
{
    assert(cands_view(cs.push(c)) =~= cands_view(cs) + seq![c@]);
}

/// The candidates parsed from an srcset attribute value.
pub open spec fn cands_of(s: Seq<char>) -> Seq<CandM>
    decreases split_on(s, ',').len(),
{
    cands_of_parts(split_on(s, ','))
}

/// Candidates of a list of comma-separated fields.
pub open spec fn cands_of_parts(parts: Seq<Seq<char>>) -> Seq<CandM>
    decreases parts.len(),
{
    if parts.len() == 0 {
        Seq::empty()
    } else {
        (match parse_candidate(parts[0]) {
            Some(c) => seq![c],
            None => Seq::<CandM>::empty(),
        }) + cands_of_parts(parts.subrange(1, parts.len() as int))
    }
}

/// Every parsed candidate has an in-range descriptor value.
pub open spec fn cands_ok(cs: Seq<CandM>) -> bool {
    forall|i: int| 0 <= i < cs.len() ==> desc_ok((#[trigger] cs[i]).val)
}

/// Splitting a field list splits its candidates.
pub proof fn cands_of_parts_concat(a: Seq<Seq<char>>, b: Seq<Seq<char>>)
    ensures
        cands_of_parts(a + b) == cands_of_parts(a) + cands_of_parts(b),
    decreases a.len(),
{
    if a.len() == 0 {
        assert(a + b =~= b);
        assert(cands_of_parts(a) + cands_of_parts(b) =~= cands_of_parts(b));
    } else {
        cands_of_parts_concat(a.subrange(1, a.len() as int), b);
        assert((a + b).subrange(1, (a + b).len() as int) =~= a.subrange(1, a.len() as int) + b);
        assert(cands_of_parts(a + b) =~= cands_of_parts(a) + cands_of_parts(b));
    }
}

/// Parse all candidates of an srcset attribute value, executable form.
pub fn cands_of_exec(s: &Vec<char>) -> (r: Vec<Cand>)
    ensures
        cands_view(r@) == cands_of(s@),
        forall|i: int| 0 <= i < r@.len() ==> desc_ok((#[trigger] r@[i]).val),
{
    let parts = split_on_exec(s, ',');
    let ghost model = texts_view(parts@);
    let mut out: Vec<Cand> = Vec::new();
    proof {
        assert(cands_view(out@) + cands_of_parts(model.take(0)) =~= cands_view(out@));
    }
    for i in 0..parts.len()
        invariant
            model == texts_view(parts@),
            model.len() == parts@.len(),
            cands_view(out@) == cands_of_parts(model.take(i as int)),
            forall|j: int| 0 <= j < out@.len() ==> desc_ok((#[trigger] out@[j]).val),
    {
        proof {
            assert(model[i as int] == parts@[i as int]@);
        }
        match parse_candidate_exec(&parts[i]) {
            Some(c) => {
                proof {
                    cands_view_push(out@, c);
                }
                out.push(c);
            },
            None => {},
        }
        proof {
            cands_of_parts_concat(model.take(i as int), seq![model[i as int]]);
            assert(model.take(i as int) + seq![model[i as int]] =~= model.take(i + 1));
            assert(seq![model[i as int]].subrange(1, 1) =~= Seq::<Seq<char>>::empty());
            assert(seq![model[i as int]][0] == model[i as int]);
            assert(cands_of_parts(Seq::<Seq<char>>::empty()) == Seq::<CandM>::empty());
            assert(cands_of_parts(seq![model[i as int]]) =~= (match parse_candidate(
                model[i as int],
            ) {
                Some(c) => seq![c],
                None => Seq::<CandM>::empty(),
            }));
            assert(cands_view(out@) =~= cands_of_parts(model.take(i + 1)));
        }
    }
    proof {
        assert(model.take(model.len() as int) =~= model);
    }
    out
}

/// The best candidate: the first one whose descriptor value no later
/// candidate strictly exceeds.
pub open spec fn best_from(cs: Seq<CandM>, i: int, cur: CandM) -> CandM
    decreases cs.len() - i,
{
    if i < 0 || i >= cs.len() {
        cur
    } else {
        best_from(
            cs,
            i + 1,
            if desc_lt(cur.val, cs[i].val) {
                cs[i]
            } else {
                cur
            },
        )
    }
}

/// The candidate with the numerically largest descriptor value, if any;
/// ties keep the earlier candidate.
pub open spec fn best_cand(cs: Seq<CandM>) -> Option<CandM> {
    if cs.len() == 0 {
        None
    } else {
        Some(best_from(cs, 1, cs[0]))
    }
}

/// The best candidate, executable form.
pub fn best_cand_exec(cs: &Vec<Cand>) -> (r: Option<Cand>)
    requires
        forall|i: int| 0 <= i < cs@.len() ==> desc_ok((#[trigger] cs@[i]).val),
    ensures
        (match r {
            Some(c) => best_cand(cands_view(cs@)) == Some(c@) && desc_ok(c.val),
            None => cs@.len() == 0,
        }),
{
    if cs.len() == 0 {
        return None;
    }
    let ghost model = cands_view(cs@);
    let mut cur = Cand {
        url: crate::text::chars_clone(&cs[0].url),
        val: cs[0].val,
        is_x: cs[0].is_x,
    };
    proof {
        assert(model[0] == cs@[0]@);
        assert(cur@ =~= model[0]);
    }
    for i in 1..cs.len()
        invariant
            model == cands_view(cs@),
            model.len() == cs@.len(),
            model.len() > 0,
            forall|j: int| 0 <= j < cs@.len() ==> desc_ok((#[trigger] cs@[j]).val),
            desc_ok(cur.val),
            best_from(model, i as int, cur@) == best_from(model, 1, model[0]),
    {
        proof {
            assert(model[i as int] == cs@[i as int]@);
            assert(desc_ok(cs@[i as int]@.val));
        }
        if !desc_le_exec(&cs[i].val, &cur.val) {
            cur = Cand {
                url: crate::text::chars_clone(&cs[i].url),
                val: cs[i].val,
                is_x: cs[i].is_x,
            };
            proof {
                assert(cur@ =~= model[i as int]);
            }
        } else {
            proof {
                assert(!desc_lt(cur@.val, model[i as int].val));
            }
        }
    }
    Some(cur)
}

/// The best candidate is one of the candidates and no candidate exceeds it.
pub proof fn lemma_best_from(cs: Seq<CandM>, i: int, cur: CandM)
    requires
        0 <= i <= cs.len(),
    ensures
        ({
            let b = best_from(cs, i, cur);
            &&& (b == cur || exists|k: int| i <= k < cs.len() && cs[k] == b)
            &&& desc_le(cur.val, b.val)
            &&& forall|k: int| i <= k < cs.len() ==> desc_le((#[trigger] cs[k]).val, b.val)
        }),
    decreases cs.len() - i,
{
    if i == cs.len() {
    } else {
        let next = if desc_lt(cur.val, cs[i].val) {
            cs[i]
        } else {
            cur
        };
        lemma_best_from(cs, i + 1, next);
        let b = best_from(cs, i, cur);
        assert(desc_le(cur.val, next.val));
        desc_le_trans(cur.val, next.val, b.val);
        assert(desc_le(cs[i].val, next.val));
        desc_le_trans(cs[i].val, next.val, b.val);
    }
}

/// Srcset resolution picks a candidate with the numerically largest
/// descriptor value; no candidate's value exceeds the chosen one's.
pub proof fn lemma_best_is_max(cs: Seq<CandM>)
    ensures
        match best_cand(cs) {
            Some(b) => (exists|k: int| 0 <= k < cs.len() && cs[k] == b) && forall|k: int|
                0 <= k < cs.len() ==> desc_le((#[trigger] cs[k]).val, b.val),
            None => cs.len() == 0,
        },
{
    if cs.len() > 0 {
        lemma_best_from(cs, 1, cs[0]);
    }
}

} // verus!
