//! The parser: builds the syntax tree that the grammar describes.
use vstd::prelude::*;
use crate::spans::{defs_in, law_spans_within_source};
use vstd::string::StringSliceAdditionalSpecFns;
use crate::ast::{
    def_v, defs_v, expr_v, exprs_v, fields_v, name_v, params_v, ref_v, sexprs_v, type_v, types_v,
    BindingV, Def, DefV, Expr, ExprV, Field, Name, Param, Ref, RefV, SExprV, Span, Spanned,
    Type, TypeV,
};
use crate::error::Error;
use crate::grammar::{
    arg_item, arg_list, arg_tail, assign_expr, atom, call, call_tail, expr, fun_type, global_expr,
    add_tail, mk_span, paren_expr, print_expr, ref_tail, reference, sum_expr, ty, type_item,
    type_list, type_list_tail, var_expr, Class, Keyword, Outcome, field, fields, struct_def, param,
    param_item, param_list, param_tail, body_item, body_list, body_tail, fun_def, fun_body, def,
    defs, program_of, ProgramV,
};
use crate::lexer::{
    digits_value_at, int_end_at, keyword_at, lit2_at, lit_at, name_at, name_res_v, skip_ws_at,
};
use crate::source::Input;

verus! {

pub open spec fn ty_res_v(r: Option<(Type, usize)>) -> Option<(TypeV, int)> {
    match r {
        Some((t, e)) => Some((type_v(t), e as int)),
        None => None,
    }
}

proof fn lemma_types_cons(t: Type, v: Seq<Type>)
    ensures
        types_v(seq![t] + v) == seq![type_v(t)] + types_v(v),
{
    assert(types_v(seq![t] + v) =~= seq![type_v(t)] + types_v(v));
}

fn parse_ty<'src>(inp: &Input<'src>, p: usize) -> (r: Option<(Type<'src>, usize)>)
    requires
        inp.wf(),
        p <= inp.bytes@.len(),
    ensures
        ty_res_v(r) == ty(inp.bytes@, p as int),
        r matches Some((_, e)) ==> p < e <= inp.bytes@.len(),
    decreases inp.bytes@.len() - p, 3int,
{
    let s = inp.bytes;
    if let Some(e) = keyword_at(s, p, Keyword::Int) {
        Some((Type::Int, e))
    } else if let Some(e) = keyword_at(s, p, Keyword::Unit) {
        Some((Type::Unit, e))
    } else if let Some((n, e)) = name_at(inp, p, Class::Upper) {
        Some((Type::Named(n), e))
    } else {
        parse_fun_type(inp, p)
    }
}

fn parse_fun_type<'src>(inp: &Input<'src>, p: usize) -> (r: Option<(Type<'src>, usize)>)
    requires
        inp.wf(),
        p <= inp.bytes@.len(),
    ensures
        ty_res_v(r) == fun_type(inp.bytes@, p as int),
        r matches Some((_, e)) ==> p < e <= inp.bytes@.len(),
    decreases inp.bytes@.len() - p, 2int,
{
    let s = inp.bytes;
    let q = skip_ws_at(s, p);
    let e1 = match keyword_at(s, q, Keyword::Fun) {
        Some(e1) => e1,
        None => return None,
    };
    let q1 = skip_ws_at(s, e1);
    if !lit_at(s, q1, 0x28) {
        return None;
    }
    let q2 = skip_ws_at(s, q1 + 1);
    let (ps, e2) = parse_type_list(inp, q2);
    if !lit_at(s, e2, 0x29) {
        return None;
    }
    let q3 = skip_ws_at(s, e2 + 1);
    if !lit_at(s, q3, 0x3a) {
        return None;
    }
    let q4 = skip_ws_at(s, q3 + 1);
    match parse_ty(inp, q4) {
        Some((r, e)) => Some((Type::Fun(ps, Box::new(r)), e)),
        None => None,
    }
}

fn parse_type_item<'src>(inp: &Input<'src>, p: usize) -> (r: Option<(Type<'src>, usize)>)
    requires
        inp.wf(),
        p <= inp.bytes@.len(),
    ensures
        ty_res_v(r) == type_item(inp.bytes@, p as int),
        r matches Some((_, e)) ==> p < e <= inp.bytes@.len(),
    decreases inp.bytes@.len() - p, 4int,
{
    let s = inp.bytes;
    let q = skip_ws_at(s, p);
    match parse_ty(inp, q) {
        Some((t, e)) => Some((t, skip_ws_at(s, e))),
        None => None,
    }
}

fn parse_type_list<'src>(inp: &Input<'src>, p: usize) -> (r: (Vec<Type<'src>>, usize))
    requires
        inp.wf(),
        p <= inp.bytes@.len(),
    ensures
        (types_v(r.0@), r.1 as int) == type_list(inp.bytes@, p as int),
        p <= r.1 <= inp.bytes@.len(),
    decreases inp.bytes@.len() - p, 5int,
{
    match parse_type_item(inp, p) {
        Some((t, e)) => {
            let (mut ts, e2) = parse_type_list_tail(inp, e);
            proof {
                lemma_types_cons(t, ts@);
            }
            ts.insert(0, t);
            assert(ts@ =~= seq![t] + ts@.subrange(1, ts@.len() as int));
            (ts, e2)
        },
        None => {
            assert(types_v(Seq::<Type>::empty()) =~= Seq::<TypeV>::empty());
            (Vec::new(), p)
        },
    }
}

fn parse_type_list_tail<'src>(inp: &Input<'src>, p: usize) -> (r: (Vec<Type<'src>>, usize))
    requires
        inp.wf(),
        p <= inp.bytes@.len(),
    ensures
        (types_v(r.0@), r.1 as int) == type_list_tail(inp.bytes@, p as int),
        p <= r.1 <= inp.bytes@.len(),
    decreases inp.bytes@.len() - p, 0int,
{
    assert(types_v(Seq::<Type>::empty()) =~= Seq::<TypeV>::empty());
    let s = inp.bytes;
    let q = skip_ws_at(s, p);
    if !lit_at(s, q, 0x2c) {
        return (Vec::new(), p);
    }
    let q1 = skip_ws_at(s, q + 1);
    match parse_type_item(inp, q1) {
        Some((t, e)) => {
            let (mut ts, e2) = parse_type_list_tail(inp, e);
            let ghost old_ts = ts@;
            proof {
                lemma_types_cons(t, ts@);
            }
            ts.insert(0, t);
            assert(ts@ =~= seq![t] + old_ts);
            (ts, e2)
        },
        None => (Vec::new(), p),
    }
}

// ---------------------------------------------------------------------------
// References
pub open spec fn ref_res_v(r: Option<(Ref, usize)>) -> Option<(RefV, int)> {
    match r {
        Some((x, e)) => Some((ref_v(x), e as int)),
        None => None,
    }
}

fn parse_reference<'src>(inp: &Input<'src>, p: usize) -> (r: Option<(Ref<'src>, usize)>)
    requires
        inp.wf(),
        p <= inp.bytes@.len(),
    ensures
        ref_res_v(r) == reference(inp.bytes@, p as int),
        r matches Some((_, e)) ==> p < e <= inp.bytes@.len(),
{
    let s = inp.bytes;
    let q = skip_ws_at(s, p);
    match name_at(inp, q, Class::Lower) {
        Some((n, e)) => {
            let e1 = skip_ws_at(s, e);
            Some(parse_ref_tail(inp, e1, Ref::Var(n), Span { start: q, end: e }))
        },
        None => None,
    }
}

fn parse_ref_tail<'src>(inp: &Input<'src>, p: usize, acc: Ref<'src>, acc_span: Span) -> (r: (
    Ref<'src>,
    usize,
))
    requires
        inp.wf(),
        p <= inp.bytes@.len(),
    ensures
        (ref_v(r.0), r.1 as int) == ref_tail(inp.bytes@, p as int, ref_v(acc), acc_span),
        p <= r.1 <= inp.bytes@.len(),
    decreases inp.bytes@.len() - p,
{
    let s = inp.bytes;
    let q = skip_ws_at(s, p);
    if !lit_at(s, q, 0x2e) {
        return (acc, p);
    }
    match name_at(inp, skip_ws_at(s, q + 1), Class::Lower) {
        Some((n, e)) => {
            let e1 = skip_ws_at(s, e);
            let start = acc_span.start;
            parse_ref_tail(
                inp,
                e1,
                Ref::Access(Spanned { inner: Box::new(acc), span: acc_span }, n),
                Span { start, end: e },
            )
        },
        None => (acc, p),
    }
}

// ---------------------------------------------------------------------------
// Expressions
pub open spec fn expr_out_v(r: Outcome<Expr, usize>) -> Outcome<ExprV, int> {
    match r {
        Outcome::Done(x, e) => Outcome::Done(expr_v(x), e as int),
        Outcome::NoMatch => Outcome::NoMatch,
        Outcome::Overflow => Outcome::Overflow,
    }
}

pub open spec fn arg_out_v(r: Outcome<Spanned<Expr>, usize>) -> Outcome<SExprV, int> {
    match r {
        Outcome::Done(x, e) => Outcome::Done(SExprV { expr: expr_v(x.inner), span: x.span }, e as int),
        Outcome::NoMatch => Outcome::NoMatch,
        Outcome::Overflow => Outcome::Overflow,
    }
}

pub open spec fn args_out_v(r: Outcome<Vec<Spanned<Expr>>, usize>) -> Outcome<Seq<SExprV>, int> {
    match r {
        Outcome::Done(x, e) => Outcome::Done(sexprs_v(x@), e as int),
        Outcome::NoMatch => Outcome::NoMatch,
        Outcome::Overflow => Outcome::Overflow,
    }
}

proof fn lemma_sexprs_cons(a: Spanned<Expr>, v: Seq<Spanned<Expr>>)
    ensures
        sexprs_v(seq![a] + v) == seq![SExprV { expr: expr_v(a.inner), span: a.span }] + sexprs_v(
            v,
        ),
{
    assert(sexprs_v(seq![a] + v) =~= seq![SExprV { expr: expr_v(a.inner), span: a.span }]
        + sexprs_v(v));
}

fn parse_global<'src>(inp: &Input<'src>, p: usize) -> (r: Option<(Name<'src>, usize)>)
    requires
        inp.wf(),
        p <= inp.bytes@.len(),
    ensures
        name_res_v(r) == global_expr(inp.bytes@, p as int),
        r matches Some((_, e)) ==> p < e <= inp.bytes@.len(),
{
    let s = inp.bytes;
    let q = skip_ws_at(s, p);
    if lit_at(s, q, 0x40) {
        name_at(inp, skip_ws_at(s, q + 1), Class::Lower)
    } else {
        None
    }
}

fn parse_var_expr<'src>(inp: &Input<'src>, p: usize) -> (r: Option<(Expr<'src>, usize)>)
    requires
        inp.wf(),
        p <= inp.bytes@.len(),
    ensures
        match r {
            Some((x, e)) => var_expr(inp.bytes@, p as int) == Some((expr_v(x), e as int)),
            None => var_expr(inp.bytes@, p as int) is None,
        },
        r matches Some((_, e)) ==> p < e <= inp.bytes@.len(),
{
    let s = inp.bytes;
    let q = skip_ws_at(s, p);
    let e1 = match keyword_at(s, q, Keyword::Var) {
        Some(e1) => e1,
        None => return None,
    };
    let (n, e2) = match name_at(inp, skip_ws_at(s, e1), Class::Lower) {
        Some(x) => x,
        None => return None,
    };
    let q2 = skip_ws_at(s, e2);
    if !lit_at(s, q2, 0x3a) {
        return None;
    }
    match parse_ty(inp, skip_ws_at(s, q2 + 1)) {
        Some((t, e)) => Some((Expr::Var(n, t), e)),
        None => None,
    }
}

fn parse_expr<'src>(inp: &Input<'src>, p: usize) -> (r: Outcome<Expr<'src>, usize>)
    requires
        inp.wf(),
        p <= inp.bytes@.len(),
    ensures
        expr_out_v(r) == expr(inp.bytes@, p as int),
        r matches Outcome::Done(_, e) ==> p < e <= inp.bytes@.len(),
    decreases inp.bytes@.len() - p, 5int,
{
    parse_sum(inp, p)
}

fn parse_sum<'src>(inp: &Input<'src>, p: usize) -> (r: Outcome<Expr<'src>, usize>)
    requires
        inp.wf(),
        p <= inp.bytes@.len(),
    ensures
        expr_out_v(r) == sum_expr(inp.bytes@, p as int),
        r matches Outcome::Done(_, e) ==> p < e <= inp.bytes@.len(),
    decreases inp.bytes@.len() - p, 4int,
{
    let s = inp.bytes;
    let q = skip_ws_at(s, p);
    match parse_call(inp, q) {
        Outcome::Done(c, e) => {
            let e1 = skip_ws_at(s, e);
            parse_sum_tail(inp, e1, c, Span { start: q, end: e })
        },
        Outcome::NoMatch => Outcome::NoMatch,
        Outcome::Overflow => Outcome::Overflow,
    }
}

fn parse_sum_tail<'src>(inp: &Input<'src>, p: usize, acc: Expr<'src>, acc_span: Span) -> (r: Outcome<
    Expr<'src>,
    usize,
>)
    requires
        inp.wf(),
        p <= inp.bytes@.len(),
    ensures
        expr_out_v(r) == add_tail(inp.bytes@, p as int, expr_v(acc), acc_span),
        r matches Outcome::Done(_, e) ==> p <= e <= inp.bytes@.len(),
    decreases inp.bytes@.len() - p, 0int,
{
    let s = inp.bytes;
    let q = skip_ws_at(s, p);
    if !lit_at(s, q, 0x2b) {
        return Outcome::Done(acc, p);
    }
    let q1 = skip_ws_at(s, q + 1);
    match parse_call(inp, q1) {
        Outcome::Done(c, e) => {
            let e1 = skip_ws_at(s, e);
            let start = acc_span.start;
            parse_sum_tail(
                inp,
                e1,
                Expr::Add(
                    Spanned { inner: Box::new(acc), span: acc_span },
                    Spanned { inner: Box::new(c), span: Span { start: q, end: e } },
                ),
                Span { start, end: e },
            )
        },
        Outcome::NoMatch => Outcome::Done(acc, p),
        Outcome::Overflow => Outcome::Overflow,
    }
}

fn parse_call<'src>(inp: &Input<'src>, p: usize) -> (r: Outcome<Expr<'src>, usize>)
    requires
        inp.wf(),
        p <= inp.bytes@.len(),
    ensures
        expr_out_v(r) == call(inp.bytes@, p as int),
        r matches Outcome::Done(_, e) ==> p < e <= inp.bytes@.len(),
    decreases inp.bytes@.len() - p, 3int,
{
    let s = inp.bytes;
    let q = skip_ws_at(s, p);
    match parse_atom(inp, q) {
        Outcome::Done(a, e) => {
            let e1 = skip_ws_at(s, e);
            parse_call_tail(inp, e1, a, Span { start: q, end: e })
        },
        Outcome::NoMatch => Outcome::NoMatch,
        Outcome::Overflow => Outcome::Overflow,
    }
}

fn parse_call_tail<'src>(inp: &Input<'src>, p: usize, acc: Expr<'src>, acc_span: Span) -> (r:
    Outcome<Expr<'src>, usize>)
    requires
        inp.wf(),
        p <= inp.bytes@.len(),
    ensures
        expr_out_v(r) == call_tail(inp.bytes@, p as int, expr_v(acc), acc_span),
        r matches Outcome::Done(_, e) ==> p <= e <= inp.bytes@.len(),
    decreases inp.bytes@.len() - p, 0int,
{
    let s = inp.bytes;
    let q = skip_ws_at(s, p);
    if !lit_at(s, q, 0x28) {
        return Outcome::Done(acc, p);
    }
    let q1 = skip_ws_at(s, q + 1);
    match parse_arg_list(inp, q1) {
        Outcome::Done(args, e) => {
            if lit_at(s, e, 0x29) {
                let start = acc_span.start;
                parse_call_tail(
                    inp,
                    e + 1,
                    Expr::Call(
                        Spanned { inner: Box::new(acc), span: acc_span },
                        Spanned { inner: args, span: Span { start: p, end: e + 1 } },
                    ),
                    Span { start, end: e + 1 },
                )
            } else {
                Outcome::Done(acc, p)
            }
        },
        Outcome::NoMatch => Outcome::Done(acc, p),
        Outcome::Overflow => Outcome::Overflow,
    }
}

fn parse_arg_list<'src>(inp: &Input<'src>, p: usize) -> (r: Outcome<Vec<Spanned<Expr<'src>>>, usize>)
    requires
        inp.wf(),
        p <= inp.bytes@.len(),
    ensures
        args_out_v(r) == arg_list(inp.bytes@, p as int),
        r matches Outcome::Done(_, e) ==> p <= e <= inp.bytes@.len(),
    decreases inp.bytes@.len() - p, 7int,
{
    assert(sexprs_v(Seq::<Spanned<Expr>>::empty()) =~= Seq::<SExprV>::empty());
    match parse_arg_item(inp, p) {
        Outcome::Done(a, e) => match parse_arg_tail(inp, e) {
            Outcome::Done(mut rest, e2) => {
                let ghost old_rest = rest@;
                proof {
                    lemma_sexprs_cons(a, rest@);
                }
                rest.insert(0, a);
                assert(rest@ =~= seq![a] + old_rest);
                Outcome::Done(rest, e2)
            },
            Outcome::NoMatch => Outcome::NoMatch,
            Outcome::Overflow => Outcome::Overflow,
        },
        Outcome::NoMatch => Outcome::Done(Vec::new(), p),
        Outcome::Overflow => Outcome::Overflow,
    }
}

fn parse_arg_tail<'src>(inp: &Input<'src>, p: usize) -> (r: Outcome<Vec<Spanned<Expr<'src>>>, usize>)
    requires
        inp.wf(),
        p <= inp.bytes@.len(),
    ensures
        args_out_v(r) == arg_tail(inp.bytes@, p as int),
        r matches Outcome::Done(_, e) ==> p <= e <= inp.bytes@.len(),
    decreases inp.bytes@.len() - p, 0int,
{
    assert(sexprs_v(Seq::<Spanned<Expr>>::empty()) =~= Seq::<SExprV>::empty());
    let s = inp.bytes;
    let q = skip_ws_at(s, p);
    if !lit_at(s, q, 0x2c) {
        return Outcome::Done(Vec::new(), p);
    }
    let q1 = skip_ws_at(s, q + 1);
    match parse_arg_item(inp, q1) {
        Outcome::Done(a, e) => match parse_arg_tail(inp, e) {
            Outcome::Done(mut rest, e2) => {
                let ghost old_rest = rest@;
                proof {
                    lemma_sexprs_cons(a, rest@);
                }
                rest.insert(0, a);
                assert(rest@ =~= seq![a] + old_rest);
                Outcome::Done(rest, e2)
            },
            Outcome::NoMatch => Outcome::NoMatch,
            Outcome::Overflow => Outcome::Overflow,
        },
        Outcome::NoMatch => Outcome::Done(Vec::new(), p),
        Outcome::Overflow => Outcome::Overflow,
    }
}

fn parse_arg_item<'src>(inp: &Input<'src>, p: usize) -> (r: Outcome<Spanned<Expr<'src>>, usize>)
    requires
        inp.wf(),
        p <= inp.bytes@.len(),
    ensures
        arg_out_v(r) == arg_item(inp.bytes@, p as int),
        r matches Outcome::Done(_, e) ==> p < e <= inp.bytes@.len(),
    decreases inp.bytes@.len() - p, 6int,
{
    let s = inp.bytes;
    let q = skip_ws_at(s, p);
    match parse_expr(inp, q) {
        Outcome::Done(a, e) => Outcome::Done(
            Spanned { inner: a, span: Span { start: q, end: e } },
            skip_ws_at(s, e),
        ),
        Outcome::NoMatch => Outcome::NoMatch,
        Outcome::Overflow => Outcome::Overflow,
    }
}

fn parse_atom<'src>(inp: &Input<'src>, p: usize) -> (r: Outcome<Expr<'src>, usize>)
    requires
        inp.wf(),
        p <= inp.bytes@.len(),
    ensures
        expr_out_v(r) == atom(inp.bytes@, p as int),
        r matches Outcome::Done(_, e) ==> p < e <= inp.bytes@.len(),
    decreases inp.bytes@.len() - p, 1int,
{
    let s = inp.bytes;
    if let Some(e) = int_end_at(s, p) {
        match digits_value_at(s, p, e) {
            Some(v) => Outcome::Done(Expr::Int(v), e),
            None => Outcome::Overflow,
        }
    } else if let Some((n, e)) = parse_global(inp, p) {
        Outcome::Done(Expr::Global(n), e)
    } else if let Some((x, e)) = parse_var_expr(inp, p) {
        Outcome::Done(x, e)
    } else {
        match parse_print(inp, p) {
            Outcome::NoMatch => match parse_assign(inp, p) {
                Outcome::NoMatch => {
                    if let Some((r, e)) = parse_reference(inp, p) {
                        Outcome::Done(Expr::Deref(r), e)
                    } else {
                        parse_paren(inp, p)
                    }
                },
                other => other,
            },
            other => other,
        }
    }
}

fn parse_print<'src>(inp: &Input<'src>, p: usize) -> (r: Outcome<Expr<'src>, usize>)
    requires
        inp.wf(),
        p <= inp.bytes@.len(),
    ensures
        expr_out_v(r) == print_expr(inp.bytes@, p as int),
        r matches Outcome::Done(_, e) ==> p < e <= inp.bytes@.len(),
    decreases inp.bytes@.len() - p, 0int,
{
    let s = inp.bytes;
    let q = skip_ws_at(s, p);
    let e1 = match keyword_at(s, q, Keyword::Print) {
        Some(e1) => e1,
        None => return Outcome::NoMatch,
    };
    let q1 = skip_ws_at(s, e1);
    match parse_expr(inp, q1) {
        Outcome::Done(x, e) => Outcome::Done(
            Expr::Print(Spanned { inner: Box::new(x), span: Span { start: q1, end: e } }),
            e,
        ),
        Outcome::NoMatch => Outcome::NoMatch,
        Outcome::Overflow => Outcome::Overflow,
    }
}

fn parse_assign<'src>(inp: &Input<'src>, p: usize) -> (r: Outcome<Expr<'src>, usize>)
    requires
        inp.wf(),
        p <= inp.bytes@.len(),
    ensures
        expr_out_v(r) == assign_expr(inp.bytes@, p as int),
        r matches Outcome::Done(_, e) ==> p < e <= inp.bytes@.len(),
    decreases inp.bytes@.len() - p, 0int,
{
    let s = inp.bytes;
    let (target, e1) = match parse_reference(inp, p) {
        Some(x) => x,
        None => return Outcome::NoMatch,
    };
    let q1 = skip_ws_at(s, e1);
    if !lit2_at(s, q1, 0x3c, 0x2d) {
        return Outcome::NoMatch;
    }
    let q2 = skip_ws_at(s, q1 + 2);
    match parse_expr(inp, q2) {
        Outcome::Done(x, e) => Outcome::Done(
            Expr::Assign(target, Spanned { inner: Box::new(x), span: Span { start: q2, end: e } }),
            e,
        ),
        Outcome::NoMatch => Outcome::NoMatch,
        Outcome::Overflow => Outcome::Overflow,
    }
}

fn parse_paren<'src>(inp: &Input<'src>, p: usize) -> (r: Outcome<Expr<'src>, usize>)
    requires
        inp.wf(),
        p <= inp.bytes@.len(),
    ensures
        expr_out_v(r) == paren_expr(inp.bytes@, p as int),
        r matches Outcome::Done(_, e) ==> p < e <= inp.bytes@.len(),
    decreases inp.bytes@.len() - p, 0int,
{
    let s = inp.bytes;
    let q = skip_ws_at(s, p);
    if !lit_at(s, q, 0x28) {
        return Outcome::NoMatch;
    }
    let q1 = skip_ws_at(s, q + 1);
    match parse_expr(inp, q1) {
        Outcome::Done(x, e) => if lit_at(s, e, 0x29) {
            Outcome::Done(x, e + 1)
        } else {
            Outcome::NoMatch
        },
        Outcome::NoMatch => Outcome::NoMatch,
        Outcome::Overflow => Outcome::Overflow,
    }
}

// ---------------------------------------------------------------------------
// Definitions
pub open spec fn binding_res_v(n: Name, t: Type, e: usize) -> Option<(BindingV, int)> {
    Some((BindingV { name: name_v(n), ty: type_v(t) }, e as int))
}

proof fn lemma_fields_cons(f: Field, v: Seq<Field>)
    ensures
        fields_v(seq![f] + v) == seq![BindingV { name: name_v(f.name), ty: type_v(f.ty) }]
            + fields_v(v),
{
    assert(fields_v(seq![f] + v) =~= seq![BindingV { name: name_v(f.name), ty: type_v(f.ty) }]
        + fields_v(v));
}

proof fn lemma_params_cons(f: Param, v: Seq<Param>)
    ensures
        params_v(seq![f] + v) == seq![BindingV { name: name_v(f.name), ty: type_v(f.ty) }]
            + params_v(v),
{
    assert(params_v(seq![f] + v) =~= seq![BindingV { name: name_v(f.name), ty: type_v(f.ty) }]
        + params_v(v));
}

proof fn lemma_exprs_cons(x: Expr, v: Seq<Expr>)
    ensures
        exprs_v(seq![x] + v) == seq![expr_v(x)] + exprs_v(v),
{
    assert(exprs_v(seq![x] + v) =~= seq![expr_v(x)] + exprs_v(v));
}

proof fn lemma_defs_cons(d: Def, v: Seq<Def>)
    ensures
        defs_v(seq![d] + v) == seq![def_v(d)] + defs_v(v),
{
    assert(defs_v(seq![d] + v) =~= seq![def_v(d)] + defs_v(v));
}

fn parse_field<'src>(inp: &Input<'src>, p: usize) -> (r: Option<(Field<'src>, usize)>)
    requires
        inp.wf(),
        p <= inp.bytes@.len(),
    ensures
        match r {
            Some((f, e)) => field(inp.bytes@, p as int) == binding_res_v(f.name, f.ty, e),
            None => field(inp.bytes@, p as int) is None,
        },
        r matches Some((_, e)) ==> p < e <= inp.bytes@.len(),
{
    let s = inp.bytes;
    let q = skip_ws_at(s, p);
    let (n, e1) = match name_at(inp, q, Class::Lower) {
        Some(x) => x,
        None => return None,
    };
    let q1 = skip_ws_at(s, e1);
    if !lit_at(s, q1, 0x3a) {
        return None;
    }
    let (t, e2) = match parse_ty(inp, skip_ws_at(s, q1 + 1)) {
        Some(x) => x,
        None => return None,
    };
    let q3 = skip_ws_at(s, e2);
    if !lit_at(s, q3, 0x3b) {
        return None;
    }
    Some((Field { name: n, ty: t }, q3 + 1))
}

fn parse_fields<'src>(inp: &Input<'src>, p: usize) -> (r: (Vec<Field<'src>>, usize))
    requires
        inp.wf(),
        p <= inp.bytes@.len(),
    ensures
        (fields_v(r.0@), r.1 as int) == fields(inp.bytes@, p as int),
        p <= r.1 <= inp.bytes@.len(),
    decreases inp.bytes@.len() - p,
{
    assert(fields_v(Seq::<Field>::empty()) =~= Seq::<BindingV>::empty());
    let s = inp.bytes;
    match parse_field(inp, skip_ws_at(s, p)) {
        Some((f, e)) => {
            let e1 = skip_ws_at(s, e);
            let (mut fs, e2) = parse_fields(inp, e1);
            let ghost old_fs = fs@;
            proof {
                lemma_fields_cons(f, fs@);
            }
            fs.insert(0, f);
            assert(fs@ =~= seq![f] + old_fs);
            (fs, e2)
        },
        None => (Vec::new(), p),
    }
}

fn parse_struct_def<'src>(inp: &Input<'src>, p: usize) -> (r: Option<(Def<'src>, usize)>)
    requires
        inp.wf(),
        p <= inp.bytes@.len(),
    ensures
        match r {
            Some((d, e)) => struct_def(inp.bytes@, p as int) == Some((def_v(d), e as int)),
            None => struct_def(inp.bytes@, p as int) is None,
        },
        r matches Some((_, e)) ==> p < e <= inp.bytes@.len(),
{
    let s = inp.bytes;
    let q = skip_ws_at(s, p);
    let e1 = match keyword_at(s, q, Keyword::Struct) {
        Some(e1) => e1,
        None => return None,
    };
    let (n, e2) = match name_at(inp, skip_ws_at(s, e1), Class::Upper) {
        Some(x) => x,
        None => return None,
    };
    let q2 = skip_ws_at(s, e2);
    if !lit_at(s, q2, 0x7b) {
        return None;
    }
    let (fs, e3) = parse_fields(inp, skip_ws_at(s, q2 + 1));
    if !lit_at(s, e3, 0x7d) {
        return None;
    }
    Some((Def::Struct(n, fs), e3 + 1))
}

fn parse_param<'src>(inp: &Input<'src>, p: usize) -> (r: Option<(Param<'src>, usize)>)
    requires
        inp.wf(),
        p <= inp.bytes@.len(),
    ensures
        match r {
            Some((f, e)) => param(inp.bytes@, p as int) == binding_res_v(f.name, f.ty, e),
            None => param(inp.bytes@, p as int) is None,
        },
        r matches Some((_, e)) ==> p < e <= inp.bytes@.len(),
{
    let s = inp.bytes;
    let q = skip_ws_at(s, p);
    let (n, e1) = match name_at(inp, q, Class::Lower) {
        Some(x) => x,
        None => return None,
    };
    let q1 = skip_ws_at(s, e1);
    if !lit_at(s, q1, 0x3a) {
        return None;
    }
    match parse_ty(inp, skip_ws_at(s, q1 + 1)) {
        Some((t, e)) => Some((Param { name: n, ty: t }, e)),
        None => None,
    }
}

fn parse_param_item<'src>(inp: &Input<'src>, p: usize) -> (r: Option<(Param<'src>, usize)>)
    requires
        inp.wf(),
        p <= inp.bytes@.len(),
    ensures
        match r {
            Some((f, e)) => param_item(inp.bytes@, p as int) == binding_res_v(f.name, f.ty, e),
            None => param_item(inp.bytes@, p as int) is None,
        },
        r matches Some((_, e)) ==> p < e <= inp.bytes@.len(),
{
    let s = inp.bytes;
    match parse_param(inp, skip_ws_at(s, p)) {
        Some((b, e)) => Some((b, skip_ws_at(s, e))),
        None => None,
    }
}

fn parse_param_list<'src>(inp: &Input<'src>, p: usize) -> (r: (Vec<Param<'src>>, usize))
    requires
        inp.wf(),
        p <= inp.bytes@.len(),
    ensures
        (params_v(r.0@), r.1 as int) == param_list(inp.bytes@, p as int),
        p <= r.1 <= inp.bytes@.len(),
{
    assert(params_v(Seq::<Param>::empty()) =~= Seq::<BindingV>::empty());
    match parse_param_item(inp, p) {
        Some((b, e)) => {
            let (mut bs, e2) = parse_param_tail(inp, e);
            let ghost old_bs = bs@;
            proof {
                lemma_params_cons(b, bs@);
            }
            bs.insert(0, b);
            assert(bs@ =~= seq![b] + old_bs);
            (bs, e2)
        },
        None => (Vec::new(), p),
    }
}

fn parse_param_tail<'src>(inp: &Input<'src>, p: usize) -> (r: (Vec<Param<'src>>, usize))
    requires
        inp.wf(),
        p <= inp.bytes@.len(),
    ensures
        (params_v(r.0@), r.1 as int) == param_tail(inp.bytes@, p as int),
        p <= r.1 <= inp.bytes@.len(),
    decreases inp.bytes@.len() - p,
{
    assert(params_v(Seq::<Param>::empty()) =~= Seq::<BindingV>::empty());
    let s = inp.bytes;
    let q = skip_ws_at(s, p);
    if !lit_at(s, q, 0x2c) {
        return (Vec::new(), p);
    }
    match parse_param_item(inp, skip_ws_at(s, q + 1)) {
        Some((b, e)) => {
            let (mut bs, e2) = parse_param_tail(inp, e);
            let ghost old_bs = bs@;
            proof {
                lemma_params_cons(b, bs@);
            }
            bs.insert(0, b);
            assert(bs@ =~= seq![b] + old_bs);
            (bs, e2)
        },
        None => (Vec::new(), p),
    }
}

pub open spec fn body_out_v(r: Outcome<Vec<Expr>, usize>) -> Outcome<Seq<ExprV>, int> {
    match r {
        Outcome::Done(x, e) => Outcome::Done(exprs_v(x@), e as int),
        Outcome::NoMatch => Outcome::NoMatch,
        Outcome::Overflow => Outcome::Overflow,
    }
}

fn parse_body_item<'src>(inp: &Input<'src>, p: usize) -> (r: Outcome<Expr<'src>, usize>)
    requires
        inp.wf(),
        p <= inp.bytes@.len(),
    ensures
        expr_out_v(r) == body_item(inp.bytes@, p as int),
        r matches Outcome::Done(_, e) ==> p < e <= inp.bytes@.len(),
{
    let s = inp.bytes;
    match parse_expr(inp, skip_ws_at(s, p)) {
        Outcome::Done(x, e) => Outcome::Done(x, skip_ws_at(s, e)),
        Outcome::NoMatch => Outcome::NoMatch,
        Outcome::Overflow => Outcome::Overflow,
    }
}

fn parse_body_list<'src>(inp: &Input<'src>, p: usize) -> (r: Outcome<Vec<Expr<'src>>, usize>)
    requires
        inp.wf(),
        p <= inp.bytes@.len(),
    ensures
        body_out_v(r) == body_list(inp.bytes@, p as int),
        r matches Outcome::Done(_, e) ==> p <= e <= inp.bytes@.len(),
{
    assert(exprs_v(Seq::<Expr>::empty()) =~= Seq::<ExprV>::empty());
    match parse_body_item(inp, p) {
        Outcome::Done(x, e) => match parse_body_tail(inp, e) {
            Outcome::Done(mut xs, e2) => {
                let ghost old_xs = xs@;
                proof {
                    lemma_exprs_cons(x, xs@);
                }
                xs.insert(0, x);
                assert(xs@ =~= seq![x] + old_xs);
                Outcome::Done(xs, e2)
            },
            Outcome::NoMatch => Outcome::NoMatch,
            Outcome::Overflow => Outcome::Overflow,
        },
        Outcome::NoMatch => Outcome::Done(Vec::new(), p),
        Outcome::Overflow => Outcome::Overflow,
    }
}

#[verifier::rlimit(30)]
fn parse_body_tail<'src>(inp: &Input<'src>, p: usize) -> (r: Outcome<Vec<Expr<'src>>, usize>)
    requires
        inp.wf(),
        p <= inp.bytes@.len(),
    ensures
        body_out_v(r) == body_tail(inp.bytes@, p as int),
        r matches Outcome::Done(_, e) ==> p <= e <= inp.bytes@.len(),
    decreases inp.bytes@.len() - p,
{
    assert(exprs_v(Seq::<Expr>::empty()) =~= Seq::<ExprV>::empty());
    let s = inp.bytes;
    let q = skip_ws_at(s, p);
    if !lit_at(s, q, 0x3b) {
        return Outcome::Done(Vec::new(), p);
    }
    let q1 = skip_ws_at(s, q + 1);
    let item = parse_body_item(inp, q1);
    proof {
        assert(expr_out_v(item) == body_item(s@, q1 as int));
    }
    match item {
        Outcome::Done(x, e) => match parse_body_tail(inp, e) {
            Outcome::Done(mut xs, e2) => {
                let ghost old_xs = xs@;
                proof {
                    lemma_exprs_cons(x, xs@);
                }
                xs.insert(0, x);
                assert(xs@ =~= seq![x] + old_xs);
                Outcome::Done(xs, e2)
            },
            Outcome::NoMatch => Outcome::NoMatch,
            Outcome::Overflow => Outcome::Overflow,
        },
        Outcome::NoMatch => Outcome::Done(Vec::new(), p),
        Outcome::Overflow => Outcome::Overflow,
    }
}

pub open spec fn def_out_v(r: Outcome<Def, usize>) -> Outcome<DefV, int> {
    match r {
        Outcome::Done(d, e) => Outcome::Done(def_v(d), e as int),
        Outcome::NoMatch => Outcome::NoMatch,
        Outcome::Overflow => Outcome::Overflow,
    }
}

fn parse_fun_def<'src>(inp: &Input<'src>, p: usize) -> (r: Outcome<Def<'src>, usize>)
    requires
        inp.wf(),
        p <= inp.bytes@.len(),
    ensures
        def_out_v(r) == fun_def(inp.bytes@, p as int),
        r matches Outcome::Done(_, e) ==> p < e <= inp.bytes@.len(),
{
    let s = inp.bytes;
    let q = skip_ws_at(s, p);
    let e1 = match keyword_at(s, q, Keyword::Fun) {
        Some(e1) => e1,
        None => return Outcome::NoMatch,
    };
    let (n, e2) = match name_at(inp, skip_ws_at(s, e1), Class::Lower) {
        Some(x) => x,
        None => return Outcome::NoMatch,
    };
    let q2 = skip_ws_at(s, e2);
    if !lit_at(s, q2, 0x28) {
        return Outcome::NoMatch;
    }
    let (ps, e3) = parse_param_list(inp, skip_ws_at(s, q2 + 1));
    if !lit_at(s, e3, 0x29) {
        return Outcome::NoMatch;
    }
    let q5 = skip_ws_at(s, e3 + 1);
    if !lit_at(s, q5, 0x3a) {
        return Outcome::NoMatch;
    }
    let (rt, e5) = match parse_ty(inp, skip_ws_at(s, q5 + 1)) {
        Some(x) => x,
        None => return Outcome::NoMatch,
    };
    parse_fun_body(inp, skip_ws_at(s, e5), n, ps, rt)
}

fn parse_fun_body<'src>(
    inp: &Input<'src>,
    p: usize,
    n: Name<'src>,
    ps: Vec<Param<'src>>,
    rt: Type<'src>,
) -> (r: Outcome<Def<'src>, usize>)
    requires
        inp.wf(),
        p <= inp.bytes@.len(),
    ensures
        def_out_v(r) == fun_body(inp.bytes@, p as int, name_v(n), params_v(ps@), type_v(rt)),
        r matches Outcome::Done(_, e) ==> p < e <= inp.bytes@.len(),
{
    let s = inp.bytes;
    let short = if lit2_at(s, p, 0x3a, 0x3d) {
        parse_expr(inp, skip_ws_at(s, p + 2))
    } else {
        Outcome::NoMatch
    };
    match short {
        Outcome::Done(x, e) => {
            let body = vec![x];
            assert(exprs_v(body@) =~= seq![expr_v(x)]);
            Outcome::Done(Def::Fun(n, ps, rt, Spanned { inner: body, span: Span { start: p, end: e } }), e)
        },
        Outcome::Overflow => Outcome::Overflow,
        Outcome::NoMatch => {
            if !lit_at(s, p, 0x7b) {
                return Outcome::NoMatch;
            }
            match parse_body_list(inp, skip_ws_at(s, p + 1)) {
                Outcome::Done(xs, e) => if lit_at(s, e, 0x7d) {
                    Outcome::Done(
                        Def::Fun(n, ps, rt, Spanned { inner: xs, span: Span { start: p, end: e + 1 } }),
                        e + 1,
                    )
                } else {
                    Outcome::NoMatch
                },
                Outcome::NoMatch => Outcome::NoMatch,
                Outcome::Overflow => Outcome::Overflow,
            }
        },
    }
}

fn parse_def<'src>(inp: &Input<'src>, p: usize) -> (r: Outcome<Def<'src>, usize>)
    requires
        inp.wf(),
        p <= inp.bytes@.len(),
    ensures
        def_out_v(r) == def(inp.bytes@, p as int),
        r matches Outcome::Done(_, e) ==> p < e <= inp.bytes@.len(),
{
    match parse_struct_def(inp, p) {
        Some((d, e)) => Outcome::Done(d, e),
        None => parse_fun_def(inp, p),
    }
}

pub open spec fn defs_out_v(r: Outcome<Vec<Def>, usize>) -> Outcome<Seq<DefV>, int> {
    match r {
        Outcome::Done(x, e) => Outcome::Done(defs_v(x@), e as int),
        Outcome::NoMatch => Outcome::NoMatch,
        Outcome::Overflow => Outcome::Overflow,
    }
}

fn parse_defs<'src>(inp: &Input<'src>, p: usize) -> (r: Outcome<Vec<Def<'src>>, usize>)
    requires
        inp.wf(),
        p <= inp.bytes@.len(),
    ensures
        defs_out_v(r) == defs(inp.bytes@, p as int),
        r matches Outcome::Done(_, e) ==> p <= e <= inp.bytes@.len(),
    decreases inp.bytes@.len() - p,
{
    assert(defs_v(Seq::<Def>::empty()) =~= Seq::<DefV>::empty());
    let s = inp.bytes;
    match parse_def(inp, skip_ws_at(s, p)) {
        Outcome::Done(d, e) => {
            let e1 = skip_ws_at(s, e);
            match parse_defs(inp, e1) {
                Outcome::Done(mut ds, e2) => {
                    let ghost old_ds = ds@;
                    proof {
                        lemma_defs_cons(d, ds@);
                    }
                    ds.insert(0, d);
                    assert(ds@ =~= seq![d] + old_ds);
                    Outcome::Done(ds, e2)
                },
                Outcome::NoMatch => Outcome::NoMatch,
                Outcome::Overflow => Outcome::Overflow,
            }
        },
        Outcome::NoMatch => Outcome::Done(Vec::new(), p),
        Outcome::Overflow => Outcome::Overflow,
    }
}

/// What a parse of a whole program gives: the definitions, an error, or
/// `None` when an integer literal exceeds `u64::MAX`.
pub open spec fn program_result_matches(src: &str, r: Option<Result<Vec<Def>, Error>>) -> bool {
    match program_of(src.spec_bytes()) {
        ProgramV::Parsed(ds) => r matches Some(Ok(v)) && defs_v(v@) == ds,
        ProgramV::Rejected(e) => r matches Some(Err(err)) && err.span == mk_span(
            e,
            src.spec_bytes().len() as int,
        ) && err.message@ == "unexpected input"@,
        ProgramV::Overflow => r is None,
    }
}

/// Parses a whole program; `None` when an integer literal in it does not fit
/// in `u64`.
pub fn program_checked<'src>(src: &'src str) -> (r: Option<Result<Vec<Def<'src>>, Error>>)
    ensures
        program_result_matches(src, r),
        r matches Some(Ok(ds)) ==> defs_in(defs_v(ds@), src.spec_bytes()),
{
    let inp = Input::new(src);
    let len = inp.bytes.len();
    proof {
        law_spans_within_source(src.spec_bytes());
    }
    match parse_defs(&inp, 0) {
        Outcome::Done(ds, e) => {
            if e == len {
                Some(Ok(ds))
            } else {
                Some(Err(Error { span: Span { start: e, end: len }, message: "unexpected input".to_owned() }))
            }
        },
        Outcome::NoMatch => Some(
            Err(Error { span: Span { start: 0, end: len }, message: "unexpected input".to_owned() }),
        ),
        Outcome::Overflow => None,
    }
}

/// Parses a whole program: the definitions that make up the text, or an
/// error at the position where they stop.
pub fn program<'src>(src: &'src str) -> (r: Result<Vec<Def<'src>>, Error>)
    requires
        !(program_of(src.spec_bytes()) is Overflow),
    ensures
        program_result_matches(src, Some(r)),
        r matches Ok(ds) ==> defs_in(defs_v(ds@), src.spec_bytes()),
{
    match program_checked(src) {
        Some(r) => r,
        None => Err(Error { span: Span { start: 0, end: 0 }, message: "unexpected input".to_owned() }),
    }
}

} // verus!
