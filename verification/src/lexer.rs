//! Recognising the tokens of the grammar in the source bytes.
use vstd::prelude::*;
use vstd::string::StringSliceAdditionalSpecFns;
use vstd::utf8::{encode_utf8_valid_utf8, valid_utf8};
use crate::ast::{name_v, Name, NameV, Spanned, Span};
use crate::grammar::{
    at_class, in_class, int_end, is_ws3, keyword, keyword_text, lit, lit2, name, run_end,
    skip_ws, ws_width, Class, Keyword, digits_value,
};
use crate::source::{lemma_boundary_after_ascii, lemma_boundary_at_ascii, sub_str, Input};

verus! {

fn is_ws3_exec(a: u8, b: u8, c: u8) -> (r: bool)
    ensures
        r == is_ws3(a, b, c),
{
    (a == 0xe1 && b == 0x9a && c == 0x80) || (a == 0xe2 && b == 0x80 && ((0x80 <= c && c <= 0x8a)
        || c == 0xa8 || c == 0xa9 || c == 0xaf)) || (a == 0xe2 && b == 0x81 && c == 0x9f) || (a
        == 0xe3 && b == 0x80 && c == 0x80)
}

fn ws_width_at(s: &[u8], p: usize) -> (w: usize)
    requires
        p <= s@.len(),
    ensures
        w == ws_width(s@, p as int),
        p + w <= s@.len() <= usize::MAX,
{
    if p >= s.len() {
        return 0;
    }
    let a = s[p];
    if a == 0x20 || (0x09 <= a && a <= 0x0d) {
        1
    } else if a == 0xc2 && s.len() - p > 1 && (s[p + 1] == 0x85 || s[p + 1] == 0xa0) {
        2
    } else if s.len() - p > 2 && is_ws3_exec(a, s[p + 1], s[p + 2]) {
        3
    } else {
        0
    }
}

/// Skips the whitespace at `p`.
pub fn skip_ws_at(s: &[u8], p: usize) -> (r: usize)
    requires
        p <= s@.len(),
    ensures
        r == skip_ws(s@, p as int),
        p <= r <= s@.len(),
{
    let mut q = p;
    loop
        invariant
            p <= q <= s@.len(),
            skip_ws(s@, q as int) == skip_ws(s@, p as int),
        decreases s@.len() - q,
    {
        let w = ws_width_at(s, q);
        if w == 0 {
            return q;
        }
        q = q + w;
    }
}

fn in_class_exec(c: Class, b: u8) -> (r: bool)
    ensures
        r == in_class(c, b),
{
    match c {
        Class::Upper => 0x41 <= b && b <= 0x5a,
        Class::Lower => 0x61 <= b && b <= 0x7a,
        Class::Digit => 0x30 <= b && b <= 0x39,
        Class::Alnum => (0x41 <= b && b <= 0x5a) || (0x61 <= b && b <= 0x7a) || (0x30 <= b && b
            <= 0x39),
        Class::Prime => b == 0x27,
        Class::IdentStart => (0x41 <= b && b <= 0x5a) || (0x61 <= b && b <= 0x7a) || b == 0x5f,
        Class::IdentCont => (0x41 <= b && b <= 0x5a) || (0x61 <= b && b <= 0x7a) || (0x30 <= b
            && b <= 0x39) || b == 0x5f,
    }
}

/// Whether the byte at `p` is of class `c`.
pub fn at_class_exec(s: &[u8], p: usize, c: Class) -> (r: bool)
    ensures
        r == at_class(s@, p as int, c),
        s@.len() <= usize::MAX,
{
    p < s.len() && in_class_exec(c, s[p])
}

/// The end of the run of bytes of class `c` from `p`.
pub fn run_end_at(s: &[u8], p: usize, c: Class) -> (r: usize)
    requires
        p <= s@.len(),
    ensures
        r == run_end(s@, p as int, c),
        p <= r <= s@.len(),
        forall|i: int| p <= i < r ==> in_class(c, #[trigger] s@[i]),
{
    let mut q = p;
    while q < s.len() && in_class_exec(c, s[q])
        invariant
            p <= q <= s@.len(),
            run_end(s@, q as int, c) == run_end(s@, p as int, c),
            forall|i: int| p <= i < q ==> in_class(c, #[trigger] s@[i]),
        decreases s@.len() - q,
    {
        q = q + 1;
    }
    q
}

/// Whether the byte at `p` is `b`.
pub fn lit_at(s: &[u8], p: usize, b: u8) -> (r: bool)
    ensures
        r == lit(s@, p as int, b),
        s@.len() <= usize::MAX,
{
    p < s.len() && s[p] == b
}

/// Whether the bytes at `p` are `a` and `b`.
pub fn lit2_at(s: &[u8], p: usize, a: u8, b: u8) -> (r: bool)
    ensures
        r == lit2(s@, p as int, a, b),
        s@.len() <= usize::MAX,
{
    p < s.len() && s.len() - p > 1 && s[p] == a && s[p + 1] == b
}

fn keyword_bytes(k: Keyword) -> (v: Vec<u8>)
    ensures
        v@ == keyword_text(k),
{
    let v = match k {
        Keyword::Int => vec![0x49u8, 0x6e, 0x74],
        Keyword::Unit => vec![0x55u8, 0x6e, 0x69, 0x74],
        Keyword::Fun => vec![0x66u8, 0x75, 0x6e],
        Keyword::Var => vec![0x76u8, 0x61, 0x72],
        Keyword::Print => vec![0x70u8, 0x72, 0x69, 0x6e, 0x74],
        Keyword::Struct => vec![0x73u8, 0x74, 0x72, 0x75, 0x63, 0x74],
    };
    assert(v@ =~= keyword_text(k));
    v
}

fn bytes_equal(s: &[u8], p: usize, e: usize, w: &Vec<u8>) -> (r: bool)
    requires
        p <= e <= s@.len(),
    ensures
        r == (s@.subrange(p as int, e as int) == w@),
{
    if e - p != w.len() {
        assert(s@.subrange(p as int, e as int).len() != w@.len());
        return false;
    }
    let mut i: usize = 0;
    while i < w.len()
        invariant
            i <= w@.len(),
            e - p == w@.len(),
            p <= e <= s@.len(),
            forall|j: int| 0 <= j < i ==> s@[p + j] == w@[j],
        decreases w@.len() - i,
    {
        if s[p + i] != w[i] {
            assert(s@.subrange(p as int, e as int)[i as int] != w@[i as int]);
            return false;
        }
        i = i + 1;
    }
    assert(s@.subrange(p as int, e as int) =~= w@);
    true
}

/// The keyword `k` at `p`.
pub fn keyword_at(s: &[u8], p: usize, k: Keyword) -> (r: Option<usize>)
    requires
        p <= s@.len(),
    ensures
        pos_v(r) == keyword(s@, p as int, k),
        r matches Some(e) ==> p < e <= s@.len(),
{
    if at_class_exec(s, p, Class::IdentStart) {
        let e = run_end_at(s, p + 1, Class::IdentCont);
        let w = keyword_bytes(k);
        if bytes_equal(s, p, e, &w) {
            Some(e)
        } else {
            None
        }
    } else {
        None
    }
}

pub open spec fn pos_v(r: Option<usize>) -> Option<int> {
    match r {
        Some(e) => Some(e as int),
        None => None,
    }
}

pub open spec fn name_res_v(r: Option<(Name, usize)>) -> Option<(NameV, int)> {
    match r {
        Some((n, e)) => Some((name_v(n), e as int)),
        None => None,
    }
}

/// A name whose first byte is of class `first` (upper or lower case).
pub fn name_at<'src>(inp: &Input<'src>, p: usize, first: Class) -> (r: Option<(Name<'src>, usize)>)
    requires
        inp.wf(),
        p <= inp.bytes@.len(),
        first is Upper || first is Lower,
    ensures
        name_res_v(r) == name(inp.bytes@, p as int, first),
        r matches Some((_, e)) ==> p < e <= inp.bytes@.len(),
{
    let s = inp.bytes;
    if at_class_exec(s, p, first) {
        let e1 = run_end_at(s, p + 1, Class::Alnum);
        let e = run_end_at(s, e1, Class::Prime);
        proof {
            broadcast use encode_utf8_valid_utf8;

            assert(valid_utf8(s@));
            lemma_boundary_at_ascii(s@, p as int);
            if e > e1 {
                assert(in_class(Class::Prime, s@[e - 1]));
            } else if e1 > p + 1 {
                assert(in_class(Class::Alnum, s@[e1 - 1]));
            }
            lemma_boundary_after_ascii(s@, e - 1);
        }
        let text = sub_str(inp.text, p, e);
        Some((Spanned { inner: text, span: Span { start: p, end: e } }, e))
    } else {
        None
    }
}

/// The value of the digits in `s[p..e]`, or `None` if it exceeds `u64::MAX`.
pub fn digits_value_at(s: &[u8], p: usize, e: usize) -> (r: Option<u64>)
    requires
        p <= e <= s@.len(),
        forall|i: int| p <= i < e ==> 0x30 <= #[trigger] s@[i] <= 0x39,
    ensures
        r matches Some(v) ==> v == digits_value(s@.subrange(p as int, e as int)),
        r is None ==> digits_value(s@.subrange(p as int, e as int)) > u64::MAX,
{
    let mut v: u64 = 0;
    let mut i = p;
    while i < e
        invariant
            p <= i <= e <= s@.len(),
            forall|j: int| p <= j < e ==> 0x30 <= #[trigger] s@[j] <= 0x39,
            v == digits_value(s@.subrange(p as int, i as int)),
        decreases e - i,
    {
        let d = (s[i] - 0x30) as u64;
        assert(s@.subrange(p as int, i + 1).drop_last() =~= s@.subrange(p as int, i as int));
        if v > (u64::MAX - d) / 10 {
            proof {
                lemma_digits_value_grows(s@, p as int, i as int + 1, e as int);
            }
            return None;
        }
        v = v * 10 + d;
        i = i + 1;
    }
    Some(v)
}

/// Extending a sequence of digits never lowers its value.
proof fn lemma_digits_value_grows(s: Seq<u8>, p: int, i: int, e: int)
    requires
        0 <= p <= i <= e <= s.len(),
        forall|j: int| p <= j < e ==> 0x30 <= #[trigger] s[j] <= 0x39,
    ensures
        digits_value(s.subrange(p, i)) <= digits_value(s.subrange(p, e)),
    decreases e - i,
{
    if i < e {
        lemma_digits_value_grows(s, p, i + 1, e);
        assert(s.subrange(p, i + 1).drop_last() =~= s.subrange(p, i));
    }
}

/// The end of the integer literal at `p`.
pub fn int_end_at(s: &[u8], p: usize) -> (r: Option<usize>)
    requires
        p <= s@.len(),
    ensures
        pos_v(r) == int_end(s@, p as int),
        r matches Some(e) ==> p < e <= s@.len() && forall|i: int| p <= i < e ==> 0x30
            <= #[trigger] s@[i] <= 0x39,
{
    if at_class_exec(s, p, Class::Digit) {
        Some(run_end_at(s, p + 1, Class::Digit))
    } else {
        None
    }
}

} // verus!
