//! A small JSON reader: enough of the grammar to walk the provider's
//! metadata and a ROLIE feed, ignoring unknown fields.
//!
//! The reader yields positions, not a tree: an object gives its members
//! as key/value-position pairs, an array the positions of its elements,
//! and any value can be skipped. Escaped strings are decoded; `\u`
//! escapes are not part of the grammar and are refused.

use vstd::prelude::*;
use crate::retrieve::ws_end;

verus! {

/// The byte an escape character stands for, or nothing.
pub open spec fn esc_code(c: u8) -> Option<u8> {
    if c == 34 {
        Option::Some(34u8)
    } else if c == 92 {
        Option::Some(92u8)
    } else if c == 47 {
        Option::Some(47u8)
    } else if c == 110 {
        Option::Some(10u8)
    } else if c == 116 {
        Option::Some(9u8)
    } else if c == 114 {
        Option::Some(13u8)
    } else if c == 98 {
        Option::Some(8u8)
    } else if c == 102 {
        Option::Some(12u8)
    } else {
        Option::None
    }
}

/// String content from `pos` (just after the opening quote): the decoded
/// bytes and the position after the closing quote.
pub open spec fn jstr(s: Seq<u8>, pos: int) -> Option<(Seq<u8>, int)>
    decreases s.len() - pos,
{
    if pos < 0 || pos >= s.len() {
        Option::None
    } else if s[pos] == 34 {
        Option::Some((seq![], pos + 1))
    } else if s[pos] == 92 {
        if pos + 1 < s.len() {
            match esc_code(s[pos + 1]) {
                Option::None => Option::None,
                Option::Some(e) => match jstr(s, pos + 2) {
                    Option::None => Option::None,
                    Option::Some((t, n)) => Option::Some((seq![e] + t, n)),
                },
            }
        } else {
            Option::None
        }
    } else if s[pos] >= 32 {
        match jstr(s, pos + 1) {
            Option::None => Option::None,
            Option::Some((t, n)) => Option::Some((seq![s[pos]] + t, n)),
        }
    } else {
        Option::None
    }
}

/// A decoded string ends after where it began, within the text.
pub proof fn lemma_jstr_advances(s: Seq<u8>, pos: int)
    ensures
        jstr(s, pos) matches Some(r) ==> pos < r.1 <= s.len(),
    decreases s.len() - pos,
{
    if 0 <= pos < s.len() {
        if s[pos] == 92 {
            if pos + 1 < s.len() {
                lemma_jstr_advances(s, pos + 2);
            }
        } else if s[pos] != 34 {
            lemma_jstr_advances(s, pos + 1);
        }
    }
}

/// Reading string content is position-independent: behind any prefix it
/// decodes the same text.
pub proof fn lemma_jstr_shift(x: Seq<u8>, y: Seq<u8>, i: int)
    requires
        0 <= i,
    ensures
        jstr(x + y, x.len() + i) == (match jstr(y, i) {
            Option::None => Option::<(Seq<u8>, int)>::None,
            Option::Some(t) => Option::Some((t.0, x.len() + t.1)),
        }),
    decreases y.len() - i,
{
    if i < y.len() {
        assert((x + y)[x.len() + i] == y[i]);
        if y[i] == 92 {
            if i + 1 < y.len() {
                assert((x + y)[x.len() + i + 1] == y[i + 1]);
                lemma_jstr_shift(x, y, i + 2);
            }
        } else if y[i] != 34 {
            lemma_jstr_shift(x, y, i + 1);
        }
    }
}

/// Is this byte part of a number literal?
pub open spec fn is_num_byte(c: u8) -> bool {
    (48 <= c <= 57) || c == 45 || c == 43 || c == 46 || c == 101 || c == 69
}

/// First index at or after `i` past the number bytes.
pub open spec fn num_end(s: Seq<u8>, i: int) -> int
    decreases s.len() - i,
{
    if i < 0 || i >= s.len() || !is_num_byte(s[i]) {
        i
    } else {
        num_end(s, i + 1)
    }
}

pub proof fn lemma_num_end_bounds(s: Seq<u8>, pos: int)
    requires
        0 <= pos <= s.len(),
    ensures
        pos <= num_end(s, pos) <= s.len(),
    decreases s.len() - pos,
{
    if pos < s.len() && is_num_byte(s[pos]) {
        lemma_num_end_bounds(s, pos + 1);
    }
}

/// One member of an object: its key and where its value starts.
pub ghost struct MemberModel {
    pub key: Seq<u8>,
    pub vstart: int,
}

/// Skip one value at `pos` (whitespace allowed): the position after it.
pub open spec fn skip_value(s: Seq<u8>, pos: int) -> Option<int>
    decreases s.len() - pos, 0int,
    when pos >= 0
    via skip_value_dec
{
    let p = ws_end(s, pos);
    if p >= s.len() {
        Option::None
    } else if s[p] == 34 {
        match jstr(s, p + 1) {
            Option::None => Option::None,
            Option::Some((t, n)) => Option::Some(n),
        }
    } else if s[p] == 123 {
        match members_from(s, p + 1, true) {
            Option::None => Option::None,
            Option::Some((m, n)) => Option::Some(n),
        }
    } else if s[p] == 91 {
        match elems_from(s, p + 1, true) {
            Option::None => Option::None,
            Option::Some((e, n)) => Option::Some(n),
        }
    } else if s[p] == 116 {
        if p + 4 <= s.len() && s[p + 1] == 114 && s[p + 2] == 117 && s[p + 3] == 101 {
            Option::Some(p + 4)
        } else {
            Option::None
        }
    } else if s[p] == 102 {
        if p + 5 <= s.len() && s[p + 1] == 97 && s[p + 2] == 108 && s[p + 3] == 115 && s[p + 4]
            == 101 {
            Option::Some(p + 5)
        } else {
            Option::None
        }
    } else if s[p] == 110 {
        if p + 4 <= s.len() && s[p + 1] == 117 && s[p + 2] == 108 && s[p + 3] == 108 {
            Option::Some(p + 4)
        } else {
            Option::None
        }
    } else if s[p] == 45 || (48 <= s[p] <= 57) {
        Option::Some(num_end(s, p))
    } else {
        Option::None
    }
}

/// The members of an object from `pos` (just after `{` or after a
/// member): the remaining members and the position after the `}`.
pub open spec fn members_from(s: Seq<u8>, pos: int, first: bool) -> Option<
    (Seq<MemberModel>, int),
>
    decreases s.len() - pos, 1int,
    when pos >= 0
    via members_from_dec
{
    let p = ws_end(s, pos);
    if p >= s.len() {
        Option::None
    } else if s[p] == 125 {
        Option::Some((seq![], p + 1))
    } else if !first && s[p] != 44 {
        Option::None
    } else {
        let q = if first {
            p
        } else {
            p + 1
        };
        let pk = ws_end(s, q);
        if pk >= s.len() || s[pk] != 34 {
            Option::None
        } else {
            match jstr(s, pk + 1) {
                Option::None => Option::None,
                Option::Some((k, n1)) => {
                    let pc = ws_end(s, n1);
                    if pc >= s.len() || s[pc] != 58 {
                        Option::None
                    } else {
                        match skip_value(s, pc + 1) {
                            Option::None => Option::None,
                            Option::Some(n2) => {
                                let next = if pos < n2 && n2 <= s.len() {
                                    n2
                                } else {
                                    pos + 1
                                };
                                match members_from(s, next, false) {
                                    Option::None => Option::None,
                                    Option::Some((rest, n3)) => Option::Some(
                                        (
                                            seq![MemberModel { key: k, vstart: pc + 1 }] + rest,
                                            n3,
                                        ),
                                    ),
                                }
                            },
                        }
                    }
                },
            }
        }
    }
}

/// The elements of an array from `pos` (just after `[` or after an
/// element): where each remaining element starts, and the position after
/// the `]`.
pub open spec fn elems_from(s: Seq<u8>, pos: int, first: bool) -> Option<(Seq<int>, int)>
    decreases s.len() - pos, 1int,
    when pos >= 0
    via elems_from_dec
{
    let p = ws_end(s, pos);
    if p >= s.len() {
        Option::None
    } else if s[p] == 93 {
        Option::Some((seq![], p + 1))
    } else if !first && s[p] != 44 {
        Option::None
    } else {
        let q = if first {
            p
        } else {
            p + 1
        };
        match skip_value(s, q) {
            Option::None => Option::None,
            Option::Some(n) => {
                let next = if pos < n && n <= s.len() {
                    n
                } else {
                    pos + 1
                };
                match elems_from(s, next, false) {
                    Option::None => Option::None,
                    Option::Some((rest, n2)) => Option::Some((seq![q as int] + rest, n2)),
                }
            },
        }
    }
}

#[via_fn]
proof fn skip_value_dec(s: Seq<u8>, pos: int) {
    lemma_ws_bounds_loose(s, pos);
}

#[via_fn]
proof fn members_from_dec(s: Seq<u8>, pos: int, first: bool) {
    lemma_ws_bounds_loose(s, pos);
    let p = ws_end(s, pos);
    if 0 <= p < s.len() {
        let q = if first {
            p
        } else {
            p + 1
        };
        lemma_ws_bounds_loose(s, q);
        let pk = ws_end(s, q);
        lemma_jstr_advances(s, pk + 1);
        if jstr(s, pk + 1) is Some {
            let n1 = jstr(s, pk + 1).unwrap().1;
            lemma_ws_bounds_loose(s, n1);
        }
    }
}

#[via_fn]
proof fn elems_from_dec(s: Seq<u8>, pos: int, first: bool) {
    lemma_ws_bounds_loose(s, pos);
}

/// Whitespace skipping never moves backward.
pub proof fn lemma_ws_bounds_loose(s: Seq<u8>, pos: int)
    requires
        pos >= 0,
    ensures
        pos <= ws_end(s, pos),
        pos <= s.len() ==> ws_end(s, pos) <= s.len(),
    decreases s.len() - pos,
{
    if 0 <= pos && pos < s.len() && crate::retrieve::is_ws(s[pos]) {
        lemma_ws_bounds_loose(s, pos + 1);
    }
}

/// A skipped value ends after where it began, within the text.
pub proof fn lemma_skip_value_advances(s: Seq<u8>, pos: int)
    requires
        pos >= 0,
    ensures
        skip_value(s, pos) matches Some(n) ==> pos < n <= s.len(),
    decreases s.len() - pos, 0int,
{
    lemma_ws_bounds_loose(s, pos);
    let p = ws_end(s, pos);
    if p < s.len() {
        if s[p] == 34 {
            lemma_jstr_advances(s, p + 1);
        } else if s[p] == 123 {
            lemma_members_from_advances(s, p + 1, true);
        } else if s[p] == 91 {
            lemma_elems_from_advances(s, p + 1, true);
        } else if s[p] == 45 || (48 <= s[p] <= 57) {
            lemma_num_end_bounds(s, p + 1);
        }
    }
}

/// Walking an object's members ends after where it began, within the text.
pub proof fn lemma_members_from_advances(s: Seq<u8>, pos: int, first: bool)
    requires
        pos >= 0,
    ensures
        members_from(s, pos, first) matches Some(r) ==> pos < r.1 <= s.len(),
        members_from(s, pos, first) matches Some(r) ==> forall|i: int|
            0 <= i < r.0.len() ==> 0 <= (#[trigger] r.0[i]).vstart <= s.len(),
    decreases s.len() - pos, 1int,
{
    lemma_ws_bounds_loose(s, pos);
    let p = ws_end(s, pos);
    if p < s.len() && s[p] != 125 && (first || s[p] == 44) {
        let q = if first {
            p
        } else {
            p + 1
        };
        lemma_ws_bounds_loose(s, q);
        let pk = ws_end(s, q);
        if pk < s.len() && s[pk] == 34 {
            lemma_jstr_advances(s, pk + 1);
            if jstr(s, pk + 1) is Some {
                let n1 = jstr(s, pk + 1).unwrap().1;
                lemma_ws_bounds_loose(s, n1);
                let pc = ws_end(s, n1);
                if pc < s.len() && s[pc] == 58 {
                    lemma_skip_value_advances(s, pc + 1);
                    if skip_value(s, pc + 1) is Some {
                        let n2 = skip_value(s, pc + 1).unwrap();
                        let next = if pos < n2 && n2 <= s.len() {
                            n2
                        } else {
                            pos + 1
                        };
                        lemma_members_from_advances(s, next, false);
                    }
                }
            }
        }
    }
}

/// Walking an array's elements ends after where it began, within the text.
pub proof fn lemma_elems_from_advances(s: Seq<u8>, pos: int, first: bool)
    requires
        pos >= 0,
    ensures
        elems_from(s, pos, first) matches Some(r) ==> pos < r.1 <= s.len(),
        elems_from(s, pos, first) matches Some(r) ==> forall|i: int|
            0 <= i < r.0.len() ==> pos <= #[trigger] r.0[i] < s.len(),
    decreases s.len() - pos, 1int,
{
    lemma_ws_bounds_loose(s, pos);
    let p = ws_end(s, pos);
    if p < s.len() && s[p] != 93 && (first || s[p] == 44) {
        let q = if first {
            p
        } else {
            p + 1
        };
        lemma_skip_value_advances(s, q);
        if skip_value(s, q) is Some {
            let n = skip_value(s, q).unwrap();
            let next = if pos < n && n <= s.len() {
                n
            } else {
                pos + 1
            };
            lemma_elems_from_advances(s, next, false);
        }
    }
}

/// Skip whitespace.
pub fn ws_x(s: &[u8], pos: usize) -> (r: usize)
    requires
        pos <= s@.len(),
    ensures
        r as int == ws_end(s@, pos as int),
        pos <= r <= s@.len(),
        r < s@.len() ==> !crate::retrieve::is_ws(s@[r as int]),
{
    let mut i: usize = pos;
    loop
        invariant_except_break
            pos <= i <= s@.len(),
            ws_end(s@, pos as int) == ws_end(s@, i as int),
        ensures
            pos <= i <= s@.len(),
            ws_end(s@, pos as int) == i as int,
            i < s@.len() ==> !crate::retrieve::is_ws(s@[i as int]),
        decreases s@.len() - i,
    {
        if i >= s.len() {
            proof {
                assert(ws_end(s@, i as int) == i as int);
            }
            break;
        }
        let c = s[i];
        if !(c == 32 || c == 9 || c == 10 || c == 13) {
            proof {
                assert(ws_end(s@, i as int) == i as int);
            }
            break;
        }
        i += 1;
    }
    i
}

/// Decode string content from just after the opening quote.
pub fn jstr_x(s: &[u8], pos: usize) -> (r: Option<(Vec<u8>, usize)>)
    requires
        pos <= s@.len(),
    ensures
        (match jstr(s@, pos as int) {
            Option::None => r is None,
            Option::Some(t) => r matches Some(p) && p.0@ == t.0 && p.1 as int == t.1,
        }),
{
    let mut acc: Vec<u8> = Vec::new();
    let mut cur: usize = pos;
    proof {
        assert(acc@ + jstr(s@, pos as int).unwrap().0 =~= jstr(s@, pos as int).unwrap().0);
    }
    loop
        invariant
            pos <= cur <= s@.len(),
            jstr(s@, cur as int) is None ==> jstr(s@, pos as int) is None,
            jstr(s@, cur as int) matches Some(t) ==> jstr(s@, pos as int) matches Some(w) && w.0
                == acc@ + t.0 && w.1 == t.1,
        decreases s@.len() - cur,
    {
        if cur >= s.len() {
            return Option::None;
        }
        let c = s[cur];
        if c == 34 {
            proof {
                let t = jstr(s@, cur as int).unwrap();
                assert(acc@ + t.0 =~= acc@);
            }
            return Option::Some((acc, cur + 1));
        }
        if c == 92 {
            if s.len() - cur < 2 {
                return Option::None;
            }
            let e = s[cur + 1];
            let decoded: u8 = if e == 34 {
                34
            } else if e == 92 {
                92
            } else if e == 47 {
                47
            } else if e == 110 {
                10
            } else if e == 116 {
                9
            } else if e == 114 {
                13
            } else if e == 98 {
                8
            } else if e == 102 {
                12
            } else {
                return Option::None;
            };
            let ghost old_acc = acc@;
            acc.push(decoded);
            proof {
                assert(acc@ =~= old_acc + seq![decoded]);
                if jstr(s@, cur + 2) is Some {
                    let t = jstr(s@, cur + 2).unwrap();
                    assert(old_acc + (seq![decoded] + t.0) =~= acc@ + t.0);
                }
            }
            cur += 2;
        } else if c >= 32 {
            let ghost old_acc = acc@;
            acc.push(c);
            proof {
                assert(acc@ =~= old_acc + seq![c]);
                if jstr(s@, cur + 1) is Some {
                    let t = jstr(s@, cur + 1).unwrap();
                    assert(old_acc + (seq![c] + t.0) =~= acc@ + t.0);
                }
            }
            cur += 1;
        } else {
            return Option::None;
        }
    }
}

/// One member of an object: its key and where its value starts.
pub struct MemberSpan {
    pub key: Vec<u8>,
    pub vstart: usize,
}

impl View for MemberSpan {
    type V = MemberModel;

    open spec fn view(&self) -> MemberModel {
        MemberModel { key: self.key@, vstart: self.vstart as int }
    }
}

/// Skip one value; the position after it.
pub fn skip_value_x(s: &[u8], pos: usize) -> (r: Option<usize>)
    requires
        pos <= s@.len(),
    ensures
        (match skip_value(s@, pos as int) {
            Option::None => r is None,
            Option::Some(n) => r matches Some(m) && m as int == n,
        }),
    decreases s@.len() - pos, 0int,
{
    let p = ws_x(s, pos);
    if p >= s.len() {
        return Option::None;
    }
    let c = s[p];
    if c == 34 {
        match jstr_x(s, p + 1) {
            Option::Some(t) => Option::Some(t.1),
            Option::None => Option::None,
        }
    } else if c == 123 {
        match members_from_x(s, p + 1, true) {
            Option::Some(t) => Option::Some(t.1),
            Option::None => Option::None,
        }
    } else if c == 91 {
        match elems_from_x(s, p + 1, true) {
            Option::Some(t) => Option::Some(t.1),
            Option::None => Option::None,
        }
    } else if c == 116 {
        if s.len() - p >= 4 && s[p + 1] == 114 && s[p + 2] == 117 && s[p + 3] == 101 {
            Option::Some(p + 4)
        } else {
            Option::None
        }
    } else if c == 102 {
        if s.len() - p >= 5 && s[p + 1] == 97 && s[p + 2] == 108 && s[p + 3] == 115 && s[p + 4]
            == 101 {
            Option::Some(p + 5)
        } else {
            Option::None
        }
    } else if c == 110 {
        if s.len() - p >= 4 && s[p + 1] == 117 && s[p + 2] == 108 && s[p + 3] == 108 {
            Option::Some(p + 4)
        } else {
            Option::None
        }
    } else if c == 45 || (48 <= c && c <= 57) {
        let mut i: usize = p;
        loop
            invariant_except_break
                p <= i <= s@.len(),
                num_end(s@, p as int) == num_end(s@, i as int),
            ensures
                p <= i <= s@.len(),
                num_end(s@, p as int) == i as int,
            decreases s@.len() - i,
        {
            if i >= s.len() {
                proof {
                    assert(num_end(s@, i as int) == i as int);
                }
                break;
            }
            let d = s[i];
            if !((48 <= d && d <= 57) || d == 45 || d == 43 || d == 46 || d == 101 || d == 69) {
                proof {
                    assert(num_end(s@, i as int) == i as int);
                }
                break;
            }
            i += 1;
        }
        Option::Some(i)
    } else {
        Option::None
    }
}

/// The members of an object from just after `{` or after a member.
pub fn members_from_x(s: &[u8], pos: usize, first: bool) -> (r: Option<(Vec<MemberSpan>, usize)>)
    requires
        pos <= s@.len(),
    ensures
        (match members_from(s@, pos as int, first) {
            Option::None => r is None,
            Option::Some(t) => r matches Some(p) && p.0@.map_values(|m: MemberSpan| m@) == t.0
                && p.1 as int == t.1,
        }),
    decreases s@.len() - pos, 1int,
{
    let p = ws_x(s, pos);
    if p >= s.len() {
        return Option::None;
    }
    if s[p] == 125 {
        let empty: Vec<MemberSpan> = Vec::new();
        proof {
            assert(empty@.map_values(|m: MemberSpan| m@) =~= Seq::<MemberModel>::empty());
        }
        return Option::Some((empty, p + 1));
    }
    if !first && s[p] != 44 {
        return Option::None;
    }
    let q: usize = if first {
        p
    } else {
        p + 1
    };
    let pk = ws_x(s, q);
    if pk >= s.len() {
        return Option::None;
    }
    if s[pk] != 34 {
        return Option::None;
    }
    let (key, n1) = match jstr_x(s, pk + 1) {
        Option::Some(t) => t,
        Option::None => {
            return Option::None;
        },
    };
    proof {
        lemma_jstr_advances(s@, pk + 1);
    }
    let pc = ws_x(s, n1);
    if pc >= s.len() {
        return Option::None;
    }
    if s[pc] != 58 {
        return Option::None;
    }
    let n2 = match skip_value_x(s, pc + 1) {
        Option::Some(n) => n,
        Option::None => {
            return Option::None;
        },
    };
    proof {
        lemma_skip_value_advances(s@, pc + 1);
    }
    let next: usize = if pos < n2 && n2 <= s.len() {
        n2
    } else {
        pos + 1
    };
    let (rest, n3) = match members_from_x(s, next, false) {
        Option::Some(t) => t,
        Option::None => {
            return Option::None;
        },
    };
    let mut out: Vec<MemberSpan> = Vec::new();
    out.push(MemberSpan { key, vstart: pc + 1 });
    let ghost first_model = out@.map_values(|m: MemberSpan| m@);
    let mut k: usize = 0;
    let ghost rest_models = rest@.map_values(|m: MemberSpan| m@);
    while k < rest.len()
        invariant
            k <= rest@.len(),
            rest_models == rest@.map_values(|m: MemberSpan| m@),
            first_model.len() == 1,
            out@.map_values(|m: MemberSpan| m@) == first_model + rest_models.subrange(0, k as int),
        decreases rest@.len() - k,
    {
        let m = MemberSpan { key: rest[k].key.clone(), vstart: rest[k].vstart };
        proof {
            assert(m@ == rest_models[k as int]);
        }
        let ghost before = out@.map_values(|m2: MemberSpan| m2@);
        out.push(m);
        k += 1;
        proof {
            assert(out@.map_values(|m2: MemberSpan| m2@) =~= before + seq![
                rest_models[k - 1],
            ]);
            assert(rest_models.subrange(0, k as int) =~= rest_models.subrange(0, k - 1) + seq![
                rest_models[k - 1],
            ]);
            assert((first_model + rest_models.subrange(0, k - 1)) + seq![rest_models[k - 1]]
                =~= first_model + rest_models.subrange(0, k as int));
        }
    }
    proof {
        assert(rest_models.subrange(0, rest_models.len() as int) =~= rest_models);
        let t = members_from(s@, pos as int, first).unwrap();
        assert(first_model + rest_models =~= t.0);
    }
    Option::Some((out, n3))
}

/// The elements of an array from just after `[` or after an element:
/// where each element starts.
pub fn elems_from_x(s: &[u8], pos: usize, first: bool) -> (r: Option<(Vec<usize>, usize)>)
    requires
        pos <= s@.len(),
    ensures
        (match elems_from(s@, pos as int, first) {
            Option::None => r is None,
            Option::Some(t) => r matches Some(p) && p.0@.map_values(|v: usize| v as int) == t.0
                && p.1 as int == t.1,
        }),
    decreases s@.len() - pos, 1int,
{
    let p = ws_x(s, pos);
    if p >= s.len() {
        return Option::None;
    }
    if s[p] == 93 {
        let empty: Vec<usize> = Vec::new();
        proof {
            assert(empty@.map_values(|v: usize| v as int) =~= Seq::<int>::empty());
        }
        return Option::Some((empty, p + 1));
    }
    if !first && s[p] != 44 {
        return Option::None;
    }
    let q: usize = if first {
        p
    } else {
        p + 1
    };
    let n = match skip_value_x(s, q) {
        Option::Some(n) => n,
        Option::None => {
            return Option::None;
        },
    };
    proof {
        lemma_skip_value_advances(s@, q as int);
    }
    let next: usize = if pos < n && n <= s.len() {
        n
    } else {
        pos + 1
    };
    let (rest, n2) = match elems_from_x(s, next, false) {
        Option::Some(t) => t,
        Option::None => {
            return Option::None;
        },
    };
    let mut out: Vec<usize> = Vec::new();
    out.push(q);
    let ghost first_model = out@.map_values(|v: usize| v as int);
    let ghost rest_models = rest@.map_values(|v: usize| v as int);
    let mut k: usize = 0;
    while k < rest.len()
        invariant
            k <= rest@.len(),
            rest_models == rest@.map_values(|v: usize| v as int),
            first_model.len() == 1,
            out@.map_values(|v: usize| v as int) == first_model + rest_models.subrange(
                0,
                k as int,
            ),
        decreases rest@.len() - k,
    {
        let v = rest[k];
        let ghost before = out@.map_values(|v2: usize| v2 as int);
        out.push(v);
        k += 1;
        proof {
            assert(out@.map_values(|v2: usize| v2 as int) =~= before + seq![
                rest_models[k - 1],
            ]);
            assert(rest_models.subrange(0, k as int) =~= rest_models.subrange(0, k - 1) + seq![
                rest_models[k - 1],
            ]);
            assert((first_model + rest_models.subrange(0, k - 1)) + seq![rest_models[k - 1]]
                =~= first_model + rest_models.subrange(0, k as int));
        }
    }
    proof {
        assert(rest_models.subrange(0, rest_models.len() as int) =~= rest_models);
        let t = elems_from(s@, pos as int, first).unwrap();
        assert(first_model + rest_models =~= t.0);
    }
    Option::Some((out, n2))
}

} // verus!
