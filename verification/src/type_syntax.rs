//! The text of a type is source syntax: it parses, with the grammar's
//! `Type`, and resolves back to the type.
use vstd::prelude::*;
use vstd::utf8::{char_u32_cast, decode_utf8, encode_scalar, encode_utf8, encode_utf8_decode_utf8};
use crate::ast::{NameV, TypeV};
use crate::grammar::{
    in_class, keyword_text, mk_span, run_end, skip_ws, ty, type_item, type_list,
    type_list_tail, ws_width, Class, Keyword,
};
use crate::laws::{all_from_table, from_table};
use crate::semantics::{resolve, resolve_all};
use crate::types::{type_list_text, type_text, RawTypeV};

verus! {

/// The bytes of a text of ASCII characters, one byte for each.
pub open spec fn ascii(x: Seq<char>) -> Seq<u8> {
    Seq::new(x.len(), |i: int| (x[i] as u32) as u8)
}

/// Every character is ASCII.
pub open spec fn all_ascii(x: Seq<char>) -> bool {
    forall|i: int| 0 <= i < x.len() ==> (#[trigger] x[i] as u32) < 0x80
}

pub open spec fn is_upper_char(c: char) -> bool {
    0x41 <= (c as u32) <= 0x5a
}

pub open spec fn is_alnum_char(c: char) -> bool {
    (0x41 <= (c as u32) <= 0x5a) || (0x61 <= (c as u32) <= 0x7a) || (0x30 <= (c as u32) <= 0x39)
}

/// `n` is an upper-case letter, then `k - 1` letters and digits, then
/// primes, and its part before the primes is neither `Int` nor `Unit`.
pub open spec fn name_split(n: Seq<char>, k: int) -> bool {
    &&& 1 <= k <= n.len()
    &&& is_upper_char(n[0])
    &&& forall|i: int| 1 <= i < k ==> is_alnum_char(#[trigger] n[i])
    &&& forall|i: int| k <= i < n.len() ==> #[trigger] n[i] == '\''
    &&& n.take(k) != "Int"@
    &&& n.take(k) != "Unit"@
}

/// A struct name that the grammar reads back as that name: a type name
/// whose part before its primes is no keyword.
pub open spec fn type_name_ok(n: Seq<char>) -> bool {
    exists|k: int| name_split(n, k)
}

/// Every struct name in `t` reads back as itself.
pub open spec fn names_ok(t: RawTypeV) -> bool
    decreases t,
{
    match t {
        RawTypeV::Struct(n, _) => type_name_ok(n),
        RawTypeV::FunPtr(ps, r) => all_names_ok(ps) && names_ok(*r),
        _ => true,
    }
}

pub open spec fn all_names_ok(ts: Seq<RawTypeV>) -> bool
    decreases ts,
{
    if ts.len() == 0 {
        true
    } else {
        all_names_ok(ts.drop_last()) && names_ok(ts.last())
    }
}

/// A byte that ends a type: no identifier byte and no prime.
pub open spec fn ends_type(s: Seq<u8>, q: int) -> bool {
    q == s.len() || (0 <= q < s.len() && !in_class(Class::IdentCont, s[q]) && s[q] != 0x27)
}

proof fn lemma_run_end_range(s: Seq<u8>, i: int, j: int, c: Class)
    requires
        0 <= i <= j <= s.len(),
        forall|x: int| i <= x < j ==> in_class(c, #[trigger] s[x]),
        j == s.len() || !in_class(c, s[j]),
    ensures
        run_end(s, i, c) == j,
    decreases j - i,
{
    if i < j {
        lemma_run_end_range(s, i + 1, j, c);
    }
}

/// No whitespace starts at an ASCII byte that is no space or control byte.
proof fn lemma_no_ws(s: Seq<u8>, p: int)
    requires
        0 <= p < s.len(),
        0x21 <= s[p] < 0x80,
    ensures
        skip_ws(s, p) == p,
{
    assert(ws_width(s, p) == 0);
}

/// One space, then a byte that starts no whitespace, is skipped.
proof fn lemma_one_space(s: Seq<u8>, p: int)
    requires
        0 <= p,
        p + 1 < s.len(),
        s[p] == 0x20,
        0x21 <= s[p + 1] < 0x80,
    ensures
        skip_ws(s, p) == p + 1,
{
    assert(ws_width(s, p) == 1);
    lemma_no_ws(s, p + 1);
}

/// The UTF-8 encoding of an ASCII text is one byte for each character.
proof fn lemma_encode_ascii(x: Seq<char>)
    requires
        all_ascii(x),
    ensures
        encode_utf8(x) == ascii(x),
    decreases x.len(),
{
    if x.len() > 0 {
        let rest = x.drop_first();
        assert(all_ascii(rest)) by {
            assert forall|i: int| 0 <= i < rest.len() implies (#[trigger] rest[i] as u32) < 0x80 by {
                assert(rest[i] == x[i + 1]);
            }
        }
        lemma_encode_ascii(rest);
        let v = x[0] as u32;
        assert(v < 0x80);
        assert((v & 0x7F) as u8 == v as u8) by (bit_vector)
            requires
                v < 0x80,
        ;
        assert(encode_scalar(v) =~= seq![v as u8]);
        assert(ascii(x) =~= seq![v as u8] + ascii(rest));
    }
}

/// Two ASCII texts with the same bytes are the same text.
proof fn lemma_ascii_injective(x: Seq<char>, y: Seq<char>)
    requires
        all_ascii(x),
        all_ascii(y),
        ascii(x) == ascii(y),
    ensures
        x == y,
{
    assert(x.len() == ascii(x).len());
    assert(y.len() == ascii(y).len());
    assert forall|i: int| 0 <= i < x.len() implies x[i] == y[i] by {
        assert(ascii(x)[i] == ascii(y)[i]);
        assert(ascii(x)[i] == (x[i] as u32) as u8);
        assert(ascii(y)[i] == (y[i] as u32) as u8);
        let a = x[i] as u32;
        let b = y[i] as u32;
        assert(a < 0x80 && b < 0x80);
        assert(a == b) by (bit_vector)
            requires
                a < 0x80,
                b < 0x80,
                a as u8 == b as u8,
        ;
        char_u32_cast(x[i], a);
        char_u32_cast(y[i], b);
    }
    assert(x =~= y);
}

proof fn lemma_keyword_texts()
    ensures
        keyword_text(Keyword::Int) == ascii("Int"@),
        keyword_text(Keyword::Unit) == ascii("Unit"@),
        keyword_text(Keyword::Fun) == ascii("fun"@),
        all_ascii("Int"@),
        all_ascii("Unit"@),
        all_ascii("fun"@),
{
    reveal_strlit("Int");
    reveal_strlit("Unit");
    reveal_strlit("fun");
    assert(keyword_text(Keyword::Int) =~= ascii("Int"@));
    assert(keyword_text(Keyword::Unit) =~= ascii("Unit"@));
    assert(keyword_text(Keyword::Fun) =~= ascii("fun"@));
}

/// A struct name at `p`, followed by a byte that ends a type, is read as
/// that name.
proof fn lemma_name_read(s: Seq<u8>, p: int, n: Seq<char>)
    requires
        type_name_ok(n),
        0 <= p,
        p + n.len() <= s.len(),
        s.subrange(p, p + n.len()) == ascii(n),
        ends_type(s, p + n.len()),
    ensures
        ty(s, p) == Some((TypeV::Named(NameV { text: n, span: mk_span(p, p + n.len()) }), p + n.len())),
        all_ascii(n),
{
    let k = choose|k: int| name_split(n, k);
    let e = p + n.len();
    assert(all_ascii(n)) by {
        assert forall|i: int| 0 <= i < n.len() implies (#[trigger] n[i] as u32) < 0x80 by {
            if i == 0 {
            } else if i < k {
                assert(is_alnum_char(n[i]));
            } else {
                assert(n[i] == '\'');
            }
        }
    }
    assert forall|i: int| 0 <= i < n.len() implies #[trigger] s[p + i] == (n[i] as u32) as u8 by {
        assert(s.subrange(p, e)[i] == s[p + i]);
    }
    assert forall|x: int| p + 1 <= x < p + k implies in_class(Class::IdentCont, #[trigger] s[x]) by {
        assert(s[p + (x - p)] == (n[x - p] as u32) as u8);
        assert(is_alnum_char(n[x - p]));
    }
    assert forall|x: int| p + 1 <= x < p + k implies in_class(Class::Alnum, #[trigger] s[x]) by {
        assert(s[p + (x - p)] == (n[x - p] as u32) as u8);
        assert(is_alnum_char(n[x - p]));
    }
    assert forall|x: int| p + k <= x < e implies in_class(Class::Prime, #[trigger] s[x]) by {
        assert(s[p + (x - p)] == (n[x - p] as u32) as u8);
        assert(n[x - p] == '\'');
    }
    if k < n.len() {
        assert(s[p + k] == (n[k] as u32) as u8);
        assert(n[k] == '\'');
    }
    lemma_run_end_range(s, p + 1, p + k, Class::IdentCont);
    lemma_run_end_range(s, p + 1, p + k, Class::Alnum);
    lemma_run_end_range(s, p + k, e, Class::Prime);
    assert(s[p] == (n[0] as u32) as u8);
    lemma_keyword_texts();
    let head = n.take(k);
    assert(all_ascii(head));
    assert(s.subrange(p, p + k) =~= ascii(head));
    if s.subrange(p, p + k) == keyword_text(Keyword::Int) {
        lemma_ascii_injective(head, "Int"@);
    }
    if s.subrange(p, p + k) == keyword_text(Keyword::Unit) {
        lemma_ascii_injective(head, "Unit"@);
    }
    lemma_encode_ascii(n);
    encode_utf8_decode_utf8(n);
    assert(decode_utf8(s.subrange(p, e)) == n);
}

/// The items of a list after the first, each written after ", ".
pub open spec fn tail_text(qs: Seq<RawTypeV>) -> Seq<char>
    decreases qs.len(),
{
    if qs.len() == 0 {
        seq![]
    } else {
        ", "@ + type_text(qs[0]) + tail_text(qs.drop_first())
    }
}

proof fn lemma_tail_text_push(qs: Seq<RawTypeV>, y: RawTypeV)
    ensures
        tail_text(qs.push(y)) == tail_text(qs) + ", "@ + type_text(y),
    decreases qs.len(),
{
    if qs.len() == 0 {
        assert(qs.push(y).drop_first() =~= Seq::<RawTypeV>::empty());
        assert(qs.push(y)[0] == y);
        assert(tail_text(qs.push(y)) == ", "@ + type_text(y) + tail_text(Seq::<RawTypeV>::empty()));
        assert(tail_text(qs.push(y)) =~= ", "@ + type_text(y));
        assert(tail_text(qs) =~= Seq::<char>::empty());
    } else {
        assert(qs.push(y).drop_first() =~= qs.drop_first().push(y));
        lemma_tail_text_push(qs.drop_first(), y);
        assert(tail_text(qs.push(y)) =~= tail_text(qs) + ", "@ + type_text(y));
    }
}

/// A list of types is its first type, then the others each after ", ".
proof fn lemma_list_text_front(ps: Seq<RawTypeV>)
    requires
        ps.len() > 0,
    ensures
        type_list_text(ps) == type_text(ps[0]) + tail_text(ps.drop_first()),
    decreases ps.len(),
{
    if ps.len() == 1 {
        assert(ps.drop_first() =~= Seq::<RawTypeV>::empty());
        assert(type_text(ps[0]) + tail_text(ps.drop_first()) =~= type_text(ps[0]));
    } else {
        let d = ps.drop_last();
        lemma_list_text_front(d);
        lemma_tail_text_push(d.drop_first(), ps.last());
        assert(d.drop_first().push(ps.last()) =~= ps.drop_first());
        assert(d[0] == ps[0]);
        assert(type_list_text(ps) =~= type_text(ps[0]) + tail_text(ps.drop_first()));
    }
}

proof fn lemma_all_names_at(ts: Seq<RawTypeV>, i: int)
    requires
        all_names_ok(ts),
        0 <= i < ts.len(),
    ensures
        names_ok(ts[i]),
    decreases ts.len(),
{
    if i < ts.len() - 1 {
        assert(ts.drop_last()[i] == ts[i]);
        lemma_all_names_at(ts.drop_last(), i);
    }
}

proof fn lemma_ascii_concat(a: Seq<char>, b: Seq<char>)
    ensures
        ascii(a + b) == ascii(a) + ascii(b),
{
    assert(ascii(a + b) =~= ascii(a) + ascii(b));
}

/// The text of a type is not empty and starts with a printable ASCII
/// character other than a comma or a closing parenthesis.
proof fn lemma_first_char(t: RawTypeV)
    requires
        names_ok(t),
    ensures
        type_text(t).len() > 0,
        0x30 <= (type_text(t)[0] as u32) < 0x80,
{
    reveal_strlit("Int");
    reveal_strlit("Unit");
    reveal_strlit("fun(");
    if let RawTypeV::Struct(n, _) = t {
        let k = choose|k: int| name_split(n, k);
    }
    if let RawTypeV::FunPtr(ps, r) = t {
        assert(type_text(t)[0] == "fun("@[0]);
    }
}

/// The bytes of `text` stand at `p` in `s`.
pub open spec fn at(s: Seq<u8>, p: int, text: Seq<char>) -> bool {
    0 <= p && p + text.len() <= s.len() && s.subrange(p, p + text.len()) == ascii(text)
}

proof fn lemma_at_byte(s: Seq<u8>, p: int, text: Seq<char>, i: int)
    requires
        at(s, p, text),
        0 <= i < text.len(),
    ensures
        s[p + i] == (text[i] as u32) as u8,
{
    assert(s.subrange(p, p + text.len())[i] == s[p + i]);
}

proof fn lemma_at_split(s: Seq<u8>, p: int, a: Seq<char>, b: Seq<char>)
    requires
        at(s, p, a + b),
    ensures
        at(s, p, a),
        at(s, p + a.len(), b),
{
    lemma_ascii_concat(a, b);
    let whole = s.subrange(p, p + (a + b).len());
    assert(whole == ascii(a) + ascii(b));
    assert(s.subrange(p, p + a.len()) =~= whole.subrange(0, a.len() as int));
    assert(whole.subrange(0, a.len() as int) =~= ascii(a));
    assert(s.subrange(p + a.len(), p + a.len() + b.len()) =~= whole.subrange(
        a.len() as int,
        (a + b).len() as int,
    ));
    assert(whole.subrange(a.len() as int, (a + b).len() as int) =~= ascii(b));
}

proof fn lemma_resolve_elems(types: Map<Seq<char>, RawTypeV>, tvs: Seq<TypeV>, ps: Seq<RawTypeV>)
    requires
        tvs.len() == ps.len(),
        forall|i: int| 0 <= i < ps.len() ==> resolve(types, #[trigger] tvs[i]) == Ok::<RawTypeV, crate::semantics::ErrV>(ps[i]),
    ensures
        resolve_all(types, tvs) == Ok::<Seq<RawTypeV>, crate::semantics::ErrV>(ps),
    decreases tvs.len(),
{
    if tvs.len() > 0 {
        assert forall|i: int| 0 <= i < ps.drop_last().len() implies resolve(types, #[trigger] tvs.drop_last()[i])
            == Ok::<RawTypeV, crate::semantics::ErrV>(ps.drop_last()[i]) by {
            assert(tvs.drop_last()[i] == tvs[i]);
        }
        lemma_resolve_elems(types, tvs.drop_last(), ps.drop_last());
        assert(resolve(types, tvs.last()) == Ok::<RawTypeV, crate::semantics::ErrV>(ps.last()));
        assert(ps.drop_last().push(ps.last()) =~= ps);
    } else {
        assert(ps =~= Seq::<RawTypeV>::empty());
    }
}

/// A type's text at `p`, followed by a byte that ends a type, is read as a
/// source type that resolves back to the type.
proof fn lemma_ty_read(s: Seq<u8>, p: int, t: RawTypeV, types: Map<Seq<char>, RawTypeV>)
    requires
        names_ok(t),
        at(s, p, type_text(t)),
        ends_type(s, p + type_text(t).len()),
    ensures
        ty(s, p) is Some,
        ty(s, p)->Some_0.1 == p + type_text(t).len(),
        from_table(types, t) ==> resolve(types, ty(s, p)->Some_0.0) == Ok::<RawTypeV, crate::semantics::ErrV>(t),
    decreases t,
{
    lemma_keyword_texts();
    match t {
        RawTypeV::Int => {
            reveal_strlit("Int");
            lemma_at_byte(s, p, type_text(t), 0);
            lemma_at_byte(s, p, type_text(t), 1);
            lemma_at_byte(s, p, type_text(t), 2);
            lemma_run_end_range(s, p + 1, p + 3, Class::IdentCont);
            assert(s.subrange(p, p + 3) == keyword_text(Keyword::Int));
        },
        RawTypeV::Unit => {
            reveal_strlit("Unit");
            lemma_at_byte(s, p, type_text(t), 0);
            lemma_at_byte(s, p, type_text(t), 1);
            lemma_at_byte(s, p, type_text(t), 2);
            lemma_at_byte(s, p, type_text(t), 3);
            lemma_run_end_range(s, p + 1, p + 4, Class::IdentCont);
            assert(s.subrange(p, p + 4) == keyword_text(Keyword::Unit));
            assert(s.subrange(p, p + 4).len() != keyword_text(Keyword::Int).len());
        },
        RawTypeV::Struct(n, _) => {
            lemma_name_read(s, p, n);
        },
        RawTypeV::FunPtr(ps, r) => {
            reveal_strlit("fun(");
            reveal_strlit("): ");
            let lt = type_list_text(ps);
            let rt = type_text(*r);
            let l1 = lt.len() as int;
            assert(type_text(t) == "fun("@ + lt + "): "@ + rt);
            lemma_at_split(s, p, "fun("@ + lt + "): "@, rt);
            lemma_at_split(s, p, "fun("@ + lt, "): "@);
            lemma_at_split(s, p, "fun("@, lt);
            let ft = "fun("@;
            lemma_at_byte(s, p, ft, 0);
            lemma_at_byte(s, p, ft, 1);
            lemma_at_byte(s, p, ft, 2);
            lemma_at_byte(s, p, ft, 3);
            let cl = "): "@;
            lemma_at_byte(s, p + 4 + l1, cl, 0);
            lemma_at_byte(s, p + 4 + l1, cl, 1);
            lemma_at_byte(s, p + 4 + l1, cl, 2);
            lemma_run_end_range(s, p + 1, p + 3, Class::IdentCont);
            assert(s.subrange(p, p + 3) == keyword_text(Keyword::Fun));
            assert(s.subrange(p, p + 3) != keyword_text(Keyword::Int)) by {
                assert(s.subrange(p, p + 3)[0] != keyword_text(Keyword::Int)[0]);
            }
            lemma_no_ws(s, p);
            lemma_no_ws(s, p + 3);
            // The list, closed by ")".
            lemma_list_read(s, p + 4, ps, types);
            if ps.len() == 0 {
                lemma_no_ws(s, p + 4);
            } else {
                lemma_list_text_front(ps);
                lemma_at_split(s, p + 4, type_text(ps[0]), tail_text(ps.drop_first()));
                lemma_all_names_at(ps, 0);
                lemma_first_char(ps[0]);
                lemma_at_byte(s, p + 4, type_text(ps[0]), 0);
                lemma_no_ws(s, p + 4);
            }
            let e2 = p + 4 + l1;
            lemma_no_ws(s, e2 + 1);
            lemma_first_char(*r);
            lemma_at_byte(s, e2 + 3, rt, 0);
            lemma_one_space(s, e2 + 2);
            lemma_ty_read(s, e2 + 3, *r, types);
            if from_table(types, t) {
            }
        },
    }
}

/// A list of types' text at `p`, followed by ")", is read as the list.
proof fn lemma_list_read(s: Seq<u8>, p: int, ps: Seq<RawTypeV>, types: Map<Seq<char>, RawTypeV>)
    requires
        all_names_ok(ps),
        at(s, p, type_list_text(ps)),
        p + type_list_text(ps).len() < s.len(),
        s[p + type_list_text(ps).len()] == 0x29,
    ensures
        type_list(s, p).1 == p + type_list_text(ps).len(),
        type_list(s, p).0.len() == ps.len(),
        all_from_table(types, ps) ==> resolve_all(types, type_list(s, p).0) == Ok::<
            Seq<RawTypeV>,
            crate::semantics::ErrV,
        >(ps),
    decreases ps,
{
    lemma_keyword_texts();
    if ps.len() == 0 {
        lemma_no_ws(s, p);
        assert(type_item(s, p) is None);
        assert(ps =~= Seq::<RawTypeV>::empty());
        assert(type_list(s, p).0 =~= Seq::<TypeV>::empty());
    } else {
        assert forall|i: int| 0 <= i < ps.len() implies names_ok(#[trigger] ps[i]) by {
            lemma_all_names_at(ps, i);
        }
        lemma_list_text_front(ps);
        let t0 = ps[0];
        let rest = ps.drop_first();
        let l0 = type_text(t0).len() as int;
        lemma_at_split(s, p, type_text(t0), tail_text(rest));
        lemma_first_char(t0);
        lemma_at_byte(s, p, type_text(t0), 0);
        lemma_no_ws(s, p);
        // What follows the first type: ", " or ")".
        if rest.len() > 0 {
            reveal_strlit(", ");
            assert(tail_text(rest) == ", "@ + type_text(rest[0]) + tail_text(rest.drop_first()));
            assert(tail_text(rest)[0] == ',');
            lemma_at_byte(s, p + l0, tail_text(rest), 0);
        }
        lemma_ty_read(s, p, t0, types);
        lemma_no_ws(s, p + l0);
        assert(type_item(s, p) == Some((ty(s, p)->Some_0.0, p + l0)));
        assert(forall|i: int| 0 <= i < rest.len() ==> names_ok(#[trigger] rest[i])) by {
            assert forall|i: int| 0 <= i < rest.len() implies names_ok(#[trigger] rest[i]) by {
                assert(rest[i] == ps[i + 1]);
            }
        }
        lemma_tail_read(s, p + l0, rest, types);
        let tl = type_list(s, p).0;
        if all_from_table(types, ps) {
            crate::laws::lemma_all_from_table_at(types, ps, 0);
            assert forall|i: int| 0 <= i < rest.len() implies from_table(types, #[trigger] rest[i]) by {
                crate::laws::lemma_all_from_table_at(types, ps, i + 1);
            }
            assert forall|i: int| 0 <= i < ps.len() implies resolve(types, #[trigger] tl[i]) == Ok::<
                RawTypeV,
                crate::semantics::ErrV,
            >(ps[i]) by {
                if i > 0 {
                    assert(ps[i] == rest[i - 1]);
                }
            }
            lemma_resolve_elems(types, tl, ps);
        }
    }
}

/// The text of the items after the first, at `p`, followed by ")", is read
/// as those items.
proof fn lemma_tail_read(s: Seq<u8>, p: int, qs: Seq<RawTypeV>, types: Map<Seq<char>, RawTypeV>)
    requires
        forall|i: int| 0 <= i < qs.len() ==> names_ok(#[trigger] qs[i]),
        at(s, p, tail_text(qs)),
        p + tail_text(qs).len() < s.len(),
        s[p + tail_text(qs).len()] == 0x29,
    ensures
        type_list_tail(s, p).1 == p + tail_text(qs).len(),
        type_list_tail(s, p).0.len() == qs.len(),
        forall|i: int|
            0 <= i < qs.len() ==> (from_table(types, #[trigger] qs[i]) ==> resolve(
                types,
                type_list_tail(s, p).0[i],
            ) == Ok::<RawTypeV, crate::semantics::ErrV>(qs[i])),
    decreases qs,
{
    if qs.len() == 0 {
        lemma_no_ws(s, p);
    } else {
        reveal_strlit(", ");
        let t0 = qs[0];
        let rest = qs.drop_first();
        let l0 = type_text(t0).len() as int;
        assert(tail_text(qs) == ", "@ + type_text(t0) + tail_text(rest));
        lemma_at_split(s, p, ", "@ + type_text(t0), tail_text(rest));
        lemma_at_split(s, p, ", "@, type_text(t0));
        lemma_at_byte(s, p, ", "@, 0);
        lemma_at_byte(s, p, ", "@, 1);
        lemma_first_char(t0);
        lemma_at_byte(s, p + 2, type_text(t0), 0);
        lemma_no_ws(s, p);
        lemma_one_space(s, p + 1);
        lemma_no_ws(s, p + 2);
        if rest.len() > 0 {
            assert(tail_text(rest) == ", "@ + type_text(rest[0]) + tail_text(rest.drop_first()));
            assert(tail_text(rest)[0] == ',');
            lemma_at_byte(s, p + 2 + l0, tail_text(rest), 0);
        }
        lemma_ty_read(s, p + 2, t0, types);
        lemma_no_ws(s, p + 2 + l0);
        assert(type_item(s, p + 2) == Some((ty(s, p + 2)->Some_0.0, p + 2 + l0)));
        assert forall|i: int| 0 <= i < rest.len() implies names_ok(#[trigger] rest[i]) by {
            assert(rest[i] == qs[i + 1]);
        }
        lemma_tail_read(s, p + 2 + l0, rest, types);
        let tl = type_list_tail(s, p).0;
        assert forall|i: int|
            0 <= i < qs.len() implies (from_table(types, #[trigger] qs[i]) ==> resolve(types, tl[i])
            == Ok::<RawTypeV, crate::semantics::ErrV>(qs[i])) by {
            if i > 0 {
                assert(qs[i] == rest[i - 1]);
            }
        }
    }
}

proof fn lemma_name_ascii(n: Seq<char>)
    requires
        type_name_ok(n),
    ensures
        all_ascii(n),
{
    let k = choose|k: int| name_split(n, k);
    assert forall|i: int| 0 <= i < n.len() implies (#[trigger] n[i] as u32) < 0x80 by {
        if i == 0 {
        } else if i < k {
            assert(is_alnum_char(n[i]));
        } else {
            assert(n[i] == '\'');
        }
    }
}

proof fn lemma_concat_ascii(a: Seq<char>, b: Seq<char>)
    requires
        all_ascii(a),
        all_ascii(b),
    ensures
        all_ascii(a + b),
{
    assert forall|i: int| 0 <= i < (a + b).len() implies (#[trigger] (a + b)[i] as u32) < 0x80 by {
        if i < a.len() {
            assert((a + b)[i] == a[i]);
        } else {
            assert((a + b)[i] == b[i - a.len()]);
        }
    }
}

proof fn lemma_text_ascii(t: RawTypeV)
    requires
        names_ok(t),
    ensures
        all_ascii(type_text(t)),
    decreases t,
{
    reveal_strlit("Int");
    reveal_strlit("Unit");
    reveal_strlit("fun(");
    reveal_strlit("): ");
    match t {
        RawTypeV::Struct(n, _) => lemma_name_ascii(n),
        RawTypeV::FunPtr(ps, r) => {
            lemma_list_ascii(ps);
            lemma_text_ascii(*r);
            lemma_concat_ascii("fun("@, type_list_text(ps));
            lemma_concat_ascii("fun("@ + type_list_text(ps), "): "@);
            lemma_concat_ascii("fun("@ + type_list_text(ps) + "): "@, type_text(*r));
        },
        _ => {},
    }
}

proof fn lemma_list_ascii(ps: Seq<RawTypeV>)
    requires
        all_names_ok(ps),
    ensures
        all_ascii(type_list_text(ps)),
    decreases ps,
{
    reveal_strlit(", ");
    if ps.len() == 1 {
        lemma_all_names_at(ps, 0);
        lemma_text_ascii(ps[0]);
    } else if ps.len() > 1 {
        lemma_list_ascii(ps.drop_last());
        lemma_text_ascii(ps.last());
        lemma_concat_ascii(type_list_text(ps.drop_last()), ", "@);
        lemma_concat_ascii(type_list_text(ps.drop_last()) + ", "@, type_text(ps.last()));
    }
}

/// The text of a type is source syntax for it: read with the grammar's
/// `Type`, the whole text is one source type, which resolves back to the
/// type in any table that holds its structs. This holds where every struct
/// name in the type is a type name whose part before its primes is neither
/// `Int` nor `Unit` (a struct called `Int` is written as the integer type).
pub proof fn law_type_text_reads_back(t: RawTypeV, types: Map<Seq<char>, RawTypeV>)
    requires
        names_ok(t),
        from_table(types, t),
    ensures
        ty(encode_utf8(type_text(t)), 0) matches Some((tv, e)) && e == type_text(t).len() && resolve(
            types,
            tv,
        ) == Ok::<RawTypeV, crate::semantics::ErrV>(t),
{
    let text = type_text(t);
    lemma_text_ascii(t);
    lemma_encode_ascii(text);
    let s = encode_utf8(text);
    assert(s.subrange(0, text.len() as int) =~= s);
    lemma_ty_read(s, 0, t, types);
}

} // verus!
