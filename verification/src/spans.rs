//! Spans point into the source: every span of a parsed program lies within
//! the source text, every name is the text at its span, and every error that
//! compiling a parsed program reports lies within the text too.
use vstd::prelude::*;
use vstd::utf8::decode_utf8;
use crate::ast::{BindingV, DefV, ExprV, NameV, RefV, SExprV, Span, TypeV};
use crate::ir::FunctionCodeV;
use crate::semantics::{
    binding_types, c_args, c_body, c_def, c_defs, c_expr, c_fields, c_fun, c_params, c_program,
    c_ref, check_args, resolve, resolve_all, Env, ErrV, FnState,
};
use crate::types::RawTypeV;
use crate::grammar::{
    ahead, arg_item, arg_list, arg_tail, assign_expr, at_class, atom, body_item, body_list,
    body_tail, call, call_tail, def, defs, expr, field, fields, fun_body, fun_def, fun_type,
    global_expr, int_end, keyword, lit, lit2, mk_span, name, param, param_item,
    param_list, param_tail, paren_expr, print_expr, program_of, ref_tail, reference, run_end,
    skip_ws, struct_def, sum_expr, add_tail, ty, type_item, type_list, type_list_tail, var_expr,
    within, ws_width, Class, Keyword, Outcome, ProgramV,
};

verus! {

/// A span within the text `s`.
pub open spec fn span_in(sp: Span, s: Seq<u8>) -> bool {
    sp.start <= sp.end <= s.len()
}

/// A name within the text `s`, whose characters are those at its span.
pub open spec fn name_in(n: NameV, s: Seq<u8>) -> bool {
    span_in(n.span, s) && n.text == decode_utf8(
        s.subrange(n.span.start as int, n.span.end as int),
    )
}

/// Every name of the type lies within the text `s`.
pub open spec fn type_in(t: TypeV, s: Seq<u8>) -> bool
    decreases t,
{
    match t {
        TypeV::Named(n) => name_in(n, s),
        TypeV::Fun(ps, r) => (forall|k: int| 0 <= k < ps.len() ==> type_in(#[trigger] ps[k], s))
            && type_in(*r, s),
        _ => true,
    }
}

pub open spec fn types_in(ts: Seq<TypeV>, s: Seq<u8>) -> bool {
    forall|k: int| 0 <= k < ts.len() ==> type_in(#[trigger] ts[k], s)
}

/// Every name and span of the reference lies within the text `s`.
pub open spec fn ref_in(r: RefV, s: Seq<u8>) -> bool
    decreases r,
{
    match r {
        RefV::Var(n) => name_in(n, s),
        RefV::Access(inner, sp, f) => ref_in(*inner, s) && span_in(sp, s) && name_in(f, s),
    }
}

/// Every name and span of the expression lies within the text `s`.
pub open spec fn expr_in(e: ExprV, s: Seq<u8>) -> bool
    decreases e, 1int,
{
    match e {
        ExprV::Int(_) => true,
        ExprV::Global(n) => name_in(n, s),
        ExprV::Var(n, t) => name_in(n, s) && type_in(t, s),
        ExprV::Print(x, sp) => expr_in(*x, s) && span_in(sp, s),
        ExprV::Assign(r, x, sp) => ref_in(r, s) && expr_in(*x, s) && span_in(sp, s),
        ExprV::Deref(r) => ref_in(r, s),
        ExprV::Call(c, csp, args, asp) => expr_in(*c, s) && span_in(csp, s) && sexprs_in(args, s)
            && span_in(asp, s),
        ExprV::Add(l, lsp, r, rsp) => expr_in(*l, s) && span_in(lsp, s) && expr_in(*r, s)
            && span_in(rsp, s),
    }
}

pub open spec fn sexprs_in(args: Seq<SExprV>, s: Seq<u8>) -> bool
    decreases args, 0int,
{
    if args.len() == 0 {
        true
    } else {
        sexprs_in(args.drop_last(), s) && expr_in(args.last().expr, s) && span_in(
            args.last().span,
            s,
        )
    }
}

pub open spec fn exprs_in(xs: Seq<ExprV>, s: Seq<u8>) -> bool {
    forall|k: int| 0 <= k < xs.len() ==> expr_in(#[trigger] xs[k], s)
}

pub open spec fn binding_in(b: BindingV, s: Seq<u8>) -> bool {
    name_in(b.name, s) && type_in(b.ty, s)
}

pub open spec fn bindings_in(bs: Seq<BindingV>, s: Seq<u8>) -> bool {
    forall|k: int| 0 <= k < bs.len() ==> binding_in(#[trigger] bs[k], s)
}

/// Every name and span of the definition lies within the text `s`.
pub open spec fn def_in(d: DefV, s: Seq<u8>) -> bool {
    match d {
        DefV::Struct(n, fs) => name_in(n, s) && bindings_in(fs, s),
        DefV::Fun(n, ps, rt, body, sp) => name_in(n, s) && bindings_in(ps, s) && type_in(rt, s)
            && exprs_in(body, s) && span_in(sp, s),
    }
}

/// Every name and span of the definitions lies within the text `s`.
pub open spec fn defs_in(ds: Seq<DefV>, s: Seq<u8>) -> bool {
    forall|k: int| 0 <= k < ds.len() ==> def_in(#[trigger] ds[k], s)
}

proof fn lemma_sexprs_cons(a: SExprV, rest: Seq<SExprV>, s: Seq<u8>)
    requires
        expr_in(a.expr, s),
        span_in(a.span, s),
        sexprs_in(rest, s),
    ensures
        sexprs_in(seq![a] + rest, s),
    decreases rest.len(),
{
    let all = seq![a] + rest;
    if rest.len() == 0 {
        assert(all.drop_last() =~= Seq::<SExprV>::empty());
        assert(all.last() == a);
        assert(sexprs_in(all.drop_last(), s));
    } else {
        lemma_sexprs_cons(a, rest.drop_last(), s);
        assert(all.drop_last() =~= seq![a] + rest.drop_last());
        assert(all.last() == rest.last());
    }
}

// ---------------------------------------------------------------------------
// Tokens
proof fn lemma_skip_ws(s: Seq<u8>, p: int)
    requires
        0 <= p <= s.len(),
    ensures
        p <= skip_ws(s, p) <= s.len(),
    decreases s.len() - p,
{
    if ws_width(s, p) > 0 {
        lemma_skip_ws(s, p + ws_width(s, p));
    }
}

proof fn lemma_run_end(s: Seq<u8>, p: int, c: Class)
    requires
        0 <= p <= s.len(),
    ensures
        p <= run_end(s, p, c) <= s.len(),
    decreases s.len() - p,
{
    if at_class(s, p, c) {
        lemma_run_end(s, p + 1, c);
    }
}

proof fn lemma_name(s: Seq<u8>, p: int, first: Class)
    requires
        0 <= p <= s.len() <= usize::MAX,
    ensures
        name(s, p, first) matches Some((n, e)) ==> p < e <= s.len() && name_in(n, s)
            && n.span.start == p,
{
    if at_class(s, p, first) {
        lemma_run_end(s, p + 1, Class::Alnum);
        lemma_run_end(s, run_end(s, p + 1, Class::Alnum), Class::Prime);
    }
}

proof fn lemma_keyword(s: Seq<u8>, p: int, k: Keyword)
    requires
        0 <= p <= s.len(),
    ensures
        keyword(s, p, k) matches Some(e) ==> p < e <= s.len(),
{
    if at_class(s, p, Class::IdentStart) {
        lemma_run_end(s, p + 1, Class::IdentCont);
    }
}

proof fn lemma_int_end(s: Seq<u8>, p: int)
    requires
        0 <= p <= s.len(),
    ensures
        int_end(s, p) matches Some(e) ==> p < e <= s.len(),
{
    if at_class(s, p, Class::Digit) {
        lemma_run_end(s, p + 1, Class::Digit);
    }
}

// ---------------------------------------------------------------------------
// Types
proof fn lemma_ty(s: Seq<u8>, p: int)
    requires
        0 <= p <= s.len() <= usize::MAX,
    ensures
        ty(s, p) matches Some((t, e)) ==> p < e <= s.len() && type_in(t, s),
    decreases s.len() - p, 3int,
{
    lemma_keyword(s, p, Keyword::Int);
    lemma_keyword(s, p, Keyword::Unit);
    lemma_name(s, p, Class::Upper);
    lemma_fun_type(s, p);
}

proof fn lemma_fun_type(s: Seq<u8>, p: int)
    requires
        0 <= p <= s.len() <= usize::MAX,
    ensures
        fun_type(s, p) matches Some((t, e)) ==> p < e <= s.len() && type_in(t, s),
    decreases s.len() - p, 2int,
{
    let q = skip_ws(s, p);
    lemma_skip_ws(s, p);
    lemma_keyword(s, q, Keyword::Fun);
    if let Some(e1) = keyword(s, q, Keyword::Fun) {
        let q1 = skip_ws(s, e1);
        lemma_skip_ws(s, e1);
        if lit(s, q1, 0x28) {
            let q2 = skip_ws(s, q1 + 1);
            lemma_skip_ws(s, q1 + 1);
            if ahead(s, p, q2) {
                lemma_type_list(s, q2);
                let (ps, e2) = type_list(s, q2);
                if lit(s, e2, 0x29) {
                    let q3 = skip_ws(s, e2 + 1);
                    lemma_skip_ws(s, e2 + 1);
                    if lit(s, q3, 0x3a) {
                        let q4 = skip_ws(s, q3 + 1);
                        lemma_skip_ws(s, q3 + 1);
                        if ahead(s, p, q4) {
                            lemma_ty(s, q4);
                        }
                    }
                }
            }
        }
    }
}

proof fn lemma_type_item(s: Seq<u8>, p: int)
    requires
        0 <= p <= s.len() <= usize::MAX,
    ensures
        type_item(s, p) matches Some((t, e)) ==> p < e <= s.len() && type_in(t, s),
    decreases s.len() - p, 4int,
{
    let q = skip_ws(s, p);
    lemma_skip_ws(s, p);
    if within(s, p, q) {
        lemma_ty(s, q);
        if let Some((t, e)) = ty(s, q) {
            lemma_skip_ws(s, e);
        }
    }
}

proof fn lemma_type_list(s: Seq<u8>, p: int)
    requires
        0 <= p <= s.len() <= usize::MAX,
    ensures
        ({
            let (ts, e) = type_list(s, p);
            p <= e <= s.len() && types_in(ts, s)
        }),
    decreases s.len() - p, 5int,
{
    lemma_type_item(s, p);
    if let Some((t, e)) = type_item(s, p) {
        if ahead(s, p, e) {
            lemma_type_list_tail(s, e);
            let (ts, e2) = type_list_tail(s, e);
            assert(types_in(seq![t] + ts, s)) by {
                assert forall|k: int| 0 <= k < (seq![t] + ts).len() implies type_in(
                    #[trigger] (seq![t] + ts)[k],
                    s,
                ) by {
                    if k > 0 {
                        assert((seq![t] + ts)[k] == ts[k - 1]);
                    }
                }
            }
        }
    }
}

proof fn lemma_type_list_tail(s: Seq<u8>, p: int)
    requires
        0 <= p <= s.len() <= usize::MAX,
    ensures
        ({
            let (ts, e) = type_list_tail(s, p);
            p <= e <= s.len() && types_in(ts, s)
        }),
    decreases s.len() - p, 0int,
{
    let q = skip_ws(s, p);
    lemma_skip_ws(s, p);
    if lit(s, q, 0x2c) {
        let q1 = skip_ws(s, q + 1);
        lemma_skip_ws(s, q + 1);
        if ahead(s, p, q1) {
            lemma_type_item(s, q1);
            if let Some((t, e)) = type_item(s, q1) {
                if ahead(s, p, e) {
                    lemma_type_list_tail(s, e);
                    let (ts, e2) = type_list_tail(s, e);
                    assert(types_in(seq![t] + ts, s)) by {
                        assert forall|k: int| 0 <= k < (seq![t] + ts).len() implies type_in(
                            #[trigger] (seq![t] + ts)[k],
                            s,
                        ) by {
                            if k > 0 {
                                assert((seq![t] + ts)[k] == ts[k - 1]);
                            }
                        }
                    }
                }
            }
        }
    }
}

// ---------------------------------------------------------------------------
// References and expressions
proof fn lemma_reference(s: Seq<u8>, p: int)
    requires
        0 <= p <= s.len() <= usize::MAX,
    ensures
        reference(s, p) matches Some((r, e)) ==> p <= e <= s.len() && ref_in(r, s),
{
    let q = skip_ws(s, p);
    lemma_skip_ws(s, p);
    lemma_name(s, q, Class::Lower);
    if let Some((n, e)) = name(s, q, Class::Lower) {
        lemma_skip_ws(s, e);
        lemma_ref_tail(s, skip_ws(s, e), RefV::Var(n), mk_span(q, e));
    }
}

proof fn lemma_ref_tail(s: Seq<u8>, p: int, acc: RefV, acc_span: Span)
    requires
        0 <= p <= s.len() <= usize::MAX,
        ref_in(acc, s),
        span_in(acc_span, s),
        acc_span.start <= p,
    ensures
        ({
            let (r, e) = ref_tail(s, p, acc, acc_span);
            p <= e <= s.len() && ref_in(r, s)
        }),
    decreases s.len() - p,
{
    let q = skip_ws(s, p);
    lemma_skip_ws(s, p);
    if lit(s, q, 0x2e) {
        lemma_skip_ws(s, q + 1);
        lemma_name(s, skip_ws(s, q + 1), Class::Lower);
        if let Some((n, e)) = name(s, skip_ws(s, q + 1), Class::Lower) {
            let e1 = skip_ws(s, e);
            lemma_skip_ws(s, e);
            if ahead(s, p, e1) {
                lemma_ref_tail(
                    s,
                    e1,
                    RefV::Access(Box::new(acc), acc_span, n),
                    mk_span(acc_span.start as int, e),
                );
            }
        }
    }
}

proof fn lemma_global_expr(s: Seq<u8>, p: int)
    requires
        0 <= p <= s.len() <= usize::MAX,
    ensures
        global_expr(s, p) matches Some((n, e)) ==> p <= e <= s.len() && name_in(n, s),
{
    let q = skip_ws(s, p);
    lemma_skip_ws(s, p);
    if lit(s, q, 0x40) {
        lemma_skip_ws(s, q + 1);
        lemma_name(s, skip_ws(s, q + 1), Class::Lower);
    }
}

proof fn lemma_var_expr(s: Seq<u8>, p: int)
    requires
        0 <= p <= s.len() <= usize::MAX,
    ensures
        var_expr(s, p) matches Some((x, e)) ==> p <= e <= s.len() && expr_in(x, s),
{
    let q = skip_ws(s, p);
    lemma_skip_ws(s, p);
    lemma_keyword(s, q, Keyword::Var);
    if let Some(e1) = keyword(s, q, Keyword::Var) {
        lemma_skip_ws(s, e1);
        lemma_name(s, skip_ws(s, e1), Class::Lower);
        if let Some((n, e2)) = name(s, skip_ws(s, e1), Class::Lower) {
            let q2 = skip_ws(s, e2);
            lemma_skip_ws(s, e2);
            if lit(s, q2, 0x3a) {
                lemma_skip_ws(s, q2 + 1);
                lemma_ty(s, skip_ws(s, q2 + 1));
            }
        }
    }
}

proof fn lemma_expr(s: Seq<u8>, p: int)
    requires
        0 <= p <= s.len() <= usize::MAX,
    ensures
        expr(s, p) matches Outcome::Done(x, e) ==> p <= e <= s.len() && expr_in(x, s),
    decreases s.len() - p, 5int,
{
    lemma_sum_expr(s, p);
}

proof fn lemma_sum_expr(s: Seq<u8>, p: int)
    requires
        0 <= p <= s.len() <= usize::MAX,
    ensures
        sum_expr(s, p) matches Outcome::Done(x, e) ==> p <= e <= s.len() && expr_in(x, s),
    decreases s.len() - p, 4int,
{
    let q = skip_ws(s, p);
    lemma_skip_ws(s, p);
    if within(s, p, q) {
        lemma_call(s, q);
        if let Outcome::Done(c, e) = call(s, q) {
            let e1 = skip_ws(s, e);
            lemma_skip_ws(s, e);
            if ahead(s, p, e1) {
                lemma_add_tail(s, e1, c, mk_span(q, e));
            }
        }
    }
}

proof fn lemma_add_tail(s: Seq<u8>, p: int, acc: ExprV, acc_span: Span)
    requires
        0 <= p <= s.len() <= usize::MAX,
        expr_in(acc, s),
        span_in(acc_span, s),
        acc_span.start <= p,
    ensures
        add_tail(s, p, acc, acc_span) matches Outcome::Done(x, e) ==> p <= e <= s.len() && expr_in(
            x,
            s,
        ),
    decreases s.len() - p, 0int,
{
    let q = skip_ws(s, p);
    lemma_skip_ws(s, p);
    if lit(s, q, 0x2b) {
        let q1 = skip_ws(s, q + 1);
        lemma_skip_ws(s, q + 1);
        if ahead(s, p, q1) {
            lemma_call(s, q1);
            if let Outcome::Done(c, e) = call(s, q1) {
                let e1 = skip_ws(s, e);
                lemma_skip_ws(s, e);
                if ahead(s, p, e1) {
                    lemma_add_tail(
                        s,
                        e1,
                        ExprV::Add(Box::new(acc), acc_span, Box::new(c), mk_span(q, e)),
                        mk_span(acc_span.start as int, e),
                    );
                }
            }
        }
    }
}

proof fn lemma_call(s: Seq<u8>, p: int)
    requires
        0 <= p <= s.len() <= usize::MAX,
    ensures
        call(s, p) matches Outcome::Done(x, e) ==> p <= e <= s.len() && expr_in(x, s),
    decreases s.len() - p, 3int,
{
    let q = skip_ws(s, p);
    lemma_skip_ws(s, p);
    if within(s, p, q) {
        lemma_atom(s, q);
        if let Outcome::Done(a, e) = atom(s, q) {
            let e1 = skip_ws(s, e);
            lemma_skip_ws(s, e);
            if ahead(s, p, e1) {
                lemma_call_tail(s, e1, a, mk_span(q, e));
            }
        }
    }
}

proof fn lemma_call_tail(s: Seq<u8>, p: int, acc: ExprV, acc_span: Span)
    requires
        0 <= p <= s.len() <= usize::MAX,
        expr_in(acc, s),
        span_in(acc_span, s),
        acc_span.start <= p,
    ensures
        call_tail(s, p, acc, acc_span) matches Outcome::Done(x, e) ==> p <= e <= s.len()
            && expr_in(x, s),
    decreases s.len() - p, 0int,
{
    let q = skip_ws(s, p);
    lemma_skip_ws(s, p);
    if lit(s, q, 0x28) {
        let q1 = skip_ws(s, q + 1);
        lemma_skip_ws(s, q + 1);
        if ahead(s, p, q1) {
            lemma_arg_list(s, q1);
            if let Outcome::Done(args, e) = arg_list(s, q1) {
                if lit(s, e, 0x29) && ahead(s, p, e + 1) {
                    lemma_call_tail(
                        s,
                        e + 1,
                        ExprV::Call(Box::new(acc), acc_span, args, mk_span(p, e + 1)),
                        mk_span(acc_span.start as int, e + 1),
                    );
                }
            }
        }
    }
}

proof fn lemma_arg_list(s: Seq<u8>, p: int)
    requires
        0 <= p <= s.len() <= usize::MAX,
    ensures
        arg_list(s, p) matches Outcome::Done(args, e) ==> p <= e <= s.len() && sexprs_in(args, s),
    decreases s.len() - p, 7int,
{
    lemma_arg_item(s, p);
    if let Outcome::Done(a, e) = arg_item(s, p) {
        if ahead(s, p, e) {
            lemma_arg_tail(s, e);
            if let Outcome::Done(rest, e2) = arg_tail(s, e) {
                lemma_sexprs_cons(a, rest, s);
            }
        }
    }
}

proof fn lemma_arg_tail(s: Seq<u8>, p: int)
    requires
        0 <= p <= s.len() <= usize::MAX,
    ensures
        arg_tail(s, p) matches Outcome::Done(args, e) ==> p <= e <= s.len() && sexprs_in(args, s),
    decreases s.len() - p, 0int,
{
    let q = skip_ws(s, p);
    lemma_skip_ws(s, p);
    if lit(s, q, 0x2c) {
        let q1 = skip_ws(s, q + 1);
        lemma_skip_ws(s, q + 1);
        if ahead(s, p, q1) {
            lemma_arg_item(s, q1);
            if let Outcome::Done(a, e) = arg_item(s, q1) {
                if ahead(s, p, e) {
                    lemma_arg_tail(s, e);
                    if let Outcome::Done(rest, e2) = arg_tail(s, e) {
                        lemma_sexprs_cons(a, rest, s);
                    }
                }
            }
        }
    }
}

proof fn lemma_arg_item(s: Seq<u8>, p: int)
    requires
        0 <= p <= s.len() <= usize::MAX,
    ensures
        arg_item(s, p) matches Outcome::Done(a, e) ==> p <= e <= s.len() && expr_in(a.expr, s)
            && span_in(a.span, s),
    decreases s.len() - p, 6int,
{
    let q = skip_ws(s, p);
    lemma_skip_ws(s, p);
    if within(s, p, q) {
        lemma_expr(s, q);
        if let Outcome::Done(a, e) = expr(s, q) {
            lemma_skip_ws(s, e);
        }
    }
}

proof fn lemma_atom(s: Seq<u8>, p: int)
    requires
        0 <= p <= s.len() <= usize::MAX,
    ensures
        atom(s, p) matches Outcome::Done(x, e) ==> p <= e <= s.len() && expr_in(x, s),
    decreases s.len() - p, 1int,
{
    lemma_int_end(s, p);
    lemma_global_expr(s, p);
    lemma_var_expr(s, p);
    lemma_print_expr(s, p);
    lemma_assign_expr(s, p);
    lemma_reference(s, p);
    lemma_paren_expr(s, p);
}

proof fn lemma_print_expr(s: Seq<u8>, p: int)
    requires
        0 <= p <= s.len() <= usize::MAX,
    ensures
        print_expr(s, p) matches Outcome::Done(x, e) ==> p <= e <= s.len() && expr_in(x, s),
    decreases s.len() - p, 0int,
{
    let q = skip_ws(s, p);
    lemma_skip_ws(s, p);
    lemma_keyword(s, q, Keyword::Print);
    if let Some(e1) = keyword(s, q, Keyword::Print) {
        let q1 = skip_ws(s, e1);
        lemma_skip_ws(s, e1);
        if ahead(s, p, q1) {
            lemma_expr(s, q1);
        }
    }
}

proof fn lemma_assign_expr(s: Seq<u8>, p: int)
    requires
        0 <= p <= s.len() <= usize::MAX,
    ensures
        assign_expr(s, p) matches Outcome::Done(x, e) ==> p <= e <= s.len() && expr_in(x, s),
    decreases s.len() - p, 0int,
{
    lemma_reference(s, p);
    if let Some((r, e1)) = reference(s, p) {
        let q1 = skip_ws(s, e1);
        lemma_skip_ws(s, e1);
        if lit2(s, q1, 0x3c, 0x2d) {
            let q2 = skip_ws(s, q1 + 2);
            lemma_skip_ws(s, q1 + 2);
            if ahead(s, p, q2) {
                lemma_expr(s, q2);
            }
        }
    }
}

proof fn lemma_paren_expr(s: Seq<u8>, p: int)
    requires
        0 <= p <= s.len() <= usize::MAX,
    ensures
        paren_expr(s, p) matches Outcome::Done(x, e) ==> p <= e <= s.len() && expr_in(x, s),
    decreases s.len() - p, 0int,
{
    let q = skip_ws(s, p);
    lemma_skip_ws(s, p);
    if lit(s, q, 0x28) {
        let q1 = skip_ws(s, q + 1);
        lemma_skip_ws(s, q + 1);
        if ahead(s, p, q1) {
            lemma_expr(s, q1);
        }
    }
}

// ---------------------------------------------------------------------------
// Definitions
proof fn lemma_bindings_cons(b: BindingV, rest: Seq<BindingV>, s: Seq<u8>)
    requires
        binding_in(b, s),
        bindings_in(rest, s),
    ensures
        bindings_in(seq![b] + rest, s),
{
    assert forall|k: int| 0 <= k < (seq![b] + rest).len() implies binding_in(
        #[trigger] (seq![b] + rest)[k],
        s,
    ) by {
        if k > 0 {
            assert((seq![b] + rest)[k] == rest[k - 1]);
        }
    }
}

proof fn lemma_exprs_cons(x: ExprV, rest: Seq<ExprV>, s: Seq<u8>)
    requires
        expr_in(x, s),
        exprs_in(rest, s),
    ensures
        exprs_in(seq![x] + rest, s),
{
    assert forall|k: int| 0 <= k < (seq![x] + rest).len() implies expr_in(
        #[trigger] (seq![x] + rest)[k],
        s,
    ) by {
        if k > 0 {
            assert((seq![x] + rest)[k] == rest[k - 1]);
        }
    }
}

proof fn lemma_field(s: Seq<u8>, p: int)
    requires
        0 <= p <= s.len() <= usize::MAX,
    ensures
        field(s, p) matches Some((b, e)) ==> p <= e <= s.len() && binding_in(b, s),
{
    let q = skip_ws(s, p);
    lemma_skip_ws(s, p);
    lemma_name(s, q, Class::Lower);
    if let Some((n, e1)) = name(s, q, Class::Lower) {
        let q1 = skip_ws(s, e1);
        lemma_skip_ws(s, e1);
        if lit(s, q1, 0x3a) {
            lemma_skip_ws(s, q1 + 1);
            lemma_ty(s, skip_ws(s, q1 + 1));
            if let Some((t, e2)) = ty(s, skip_ws(s, q1 + 1)) {
                lemma_skip_ws(s, e2);
            }
        }
    }
}

proof fn lemma_fields(s: Seq<u8>, p: int)
    requires
        0 <= p <= s.len() <= usize::MAX,
    ensures
        ({
            let (fs, e) = fields(s, p);
            p <= e <= s.len() && bindings_in(fs, s)
        }),
    decreases s.len() - p,
{
    lemma_skip_ws(s, p);
    lemma_field(s, skip_ws(s, p));
    if let Some((f, e)) = field(s, skip_ws(s, p)) {
        let e1 = skip_ws(s, e);
        lemma_skip_ws(s, e);
        if ahead(s, p, e1) {
            lemma_fields(s, e1);
            let (fs, e2) = fields(s, e1);
            lemma_bindings_cons(f, fs, s);
        }
    }
}

proof fn lemma_struct_def(s: Seq<u8>, p: int)
    requires
        0 <= p <= s.len() <= usize::MAX,
    ensures
        struct_def(s, p) matches Some((d, e)) ==> p <= e <= s.len() && def_in(d, s),
{
    let q = skip_ws(s, p);
    lemma_skip_ws(s, p);
    lemma_keyword(s, q, Keyword::Struct);
    if let Some(e1) = keyword(s, q, Keyword::Struct) {
        lemma_skip_ws(s, e1);
        lemma_name(s, skip_ws(s, e1), Class::Upper);
        if let Some((n, e2)) = name(s, skip_ws(s, e1), Class::Upper) {
            let q2 = skip_ws(s, e2);
            lemma_skip_ws(s, e2);
            if lit(s, q2, 0x7b) {
                lemma_skip_ws(s, q2 + 1);
                lemma_fields(s, skip_ws(s, q2 + 1));
            }
        }
    }
}

proof fn lemma_param(s: Seq<u8>, p: int)
    requires
        0 <= p <= s.len() <= usize::MAX,
    ensures
        param(s, p) matches Some((b, e)) ==> p <= e <= s.len() && binding_in(b, s),
{
    let q = skip_ws(s, p);
    lemma_skip_ws(s, p);
    lemma_name(s, q, Class::Lower);
    if let Some((n, e1)) = name(s, q, Class::Lower) {
        let q1 = skip_ws(s, e1);
        lemma_skip_ws(s, e1);
        if lit(s, q1, 0x3a) {
            lemma_skip_ws(s, q1 + 1);
            lemma_ty(s, skip_ws(s, q1 + 1));
        }
    }
}

proof fn lemma_param_item(s: Seq<u8>, p: int)
    requires
        0 <= p <= s.len() <= usize::MAX,
    ensures
        param_item(s, p) matches Some((b, e)) ==> p <= e <= s.len() && binding_in(b, s),
{
    lemma_skip_ws(s, p);
    lemma_param(s, skip_ws(s, p));
    if let Some((b, e)) = param(s, skip_ws(s, p)) {
        lemma_skip_ws(s, e);
    }
}

proof fn lemma_param_tail(s: Seq<u8>, p: int)
    requires
        0 <= p <= s.len() <= usize::MAX,
    ensures
        ({
            let (bs, e) = param_tail(s, p);
            p <= e <= s.len() && bindings_in(bs, s)
        }),
    decreases s.len() - p,
{
    let q = skip_ws(s, p);
    lemma_skip_ws(s, p);
    if lit(s, q, 0x2c) {
        lemma_skip_ws(s, q + 1);
        lemma_param_item(s, skip_ws(s, q + 1));
        if let Some((b, e)) = param_item(s, skip_ws(s, q + 1)) {
            if ahead(s, p, e) {
                lemma_param_tail(s, e);
                let (bs, e2) = param_tail(s, e);
                lemma_bindings_cons(b, bs, s);
            }
        }
    }
}

proof fn lemma_param_list(s: Seq<u8>, p: int)
    requires
        0 <= p <= s.len() <= usize::MAX,
    ensures
        ({
            let (bs, e) = param_list(s, p);
            p <= e <= s.len() && bindings_in(bs, s)
        }),
{
    lemma_param_item(s, p);
    if let Some((b, e)) = param_item(s, p) {
        if ahead(s, p, e) {
            lemma_param_tail(s, e);
            let (bs, e2) = param_tail(s, e);
            lemma_bindings_cons(b, bs, s);
        }
    }
}

/// Each name ends before the next one starts: the bindings come in the
/// order of their names in the source.
pub open spec fn names_in_order(bs: Seq<BindingV>) -> bool {
    forall|i: int, j: int|
        0 <= i < j < bs.len() ==> (#[trigger] bs[i]).name.span.end <= (#[trigger] bs[j]).name.span.start
}

/// Every name lies between the positions `p` and `e`.
pub open spec fn names_between(bs: Seq<BindingV>, p: int, e: int) -> bool {
    forall|i: int|
        0 <= i < bs.len() ==> p <= (#[trigger] bs[i]).name.span.start && bs[i].name.span.end <= e
}

proof fn lemma_param_item_order(s: Seq<u8>, p: int)
    requires
        0 <= p <= s.len() <= usize::MAX,
    ensures
        param_item(s, p) matches Some((b, e)) ==> p <= b.name.span.start <= b.name.span.end <= e,
{
    let x = skip_ws(s, p);
    lemma_skip_ws(s, p);
    let q = skip_ws(s, x);
    lemma_skip_ws(s, x);
    lemma_name(s, q, Class::Lower);
    if let Some((n, e1)) = name(s, q, Class::Lower) {
        let q1 = skip_ws(s, e1);
        lemma_skip_ws(s, e1);
        if lit(s, q1, 0x3a) {
            lemma_skip_ws(s, q1 + 1);
            lemma_ty(s, skip_ws(s, q1 + 1));
            if let Some((t, e0)) = ty(s, skip_ws(s, q1 + 1)) {
                lemma_skip_ws(s, e0);
                assert(n.span == mk_span(q, e1));
            }
        }
    }
}

proof fn lemma_param_tail_order(s: Seq<u8>, p: int)
    requires
        0 <= p <= s.len() <= usize::MAX,
    ensures
        ({
            let (bs, e) = param_tail(s, p);
            names_in_order(bs) && names_between(bs, p, e)
        }),
    decreases s.len() - p,
{
    let q = skip_ws(s, p);
    lemma_skip_ws(s, p);
    if lit(s, q, 0x2c) {
        lemma_skip_ws(s, q + 1);
        lemma_param_item_order(s, skip_ws(s, q + 1));
        lemma_param_item(s, skip_ws(s, q + 1));
        if let Some((b, e)) = param_item(s, skip_ws(s, q + 1)) {
            if ahead(s, p, e) {
                lemma_param_tail_order(s, e);
                lemma_param_tail(s, e);
                let (bs, e2) = param_tail(s, e);
                let all = seq![b] + bs;
                assert forall|i: int, j: int| 0 <= i < j < all.len() implies (#[trigger] all[i]).name.span.end
                    <= (#[trigger] all[j]).name.span.start by {
                    if i > 0 {
                        assert(all[i] == bs[i - 1] && all[j] == bs[j - 1]);
                    } else {
                        assert(all[j] == bs[j - 1]);
                    }
                }
                assert forall|i: int| 0 <= i < all.len() implies p <= (#[trigger] all[i]).name.span.start
                    && all[i].name.span.end <= e2 by {
                    if i > 0 {
                        assert(all[i] == bs[i - 1]);
                    }
                }
            }
        }
    }
}

/// The parameters of a list come out in the order they are written: each
/// parameter's name ends before the next one's starts, and all lie between
/// where the list starts and where it ends.
pub proof fn law_params_in_source_order(s: Seq<u8>, p: int)
    requires
        0 <= p <= s.len() <= usize::MAX,
    ensures
        ({
            let (bs, e) = param_list(s, p);
            names_in_order(bs) && names_between(bs, p, e)
        }),
{
    lemma_param_item_order(s, p);
    lemma_param_item(s, p);
    if let Some((b, e)) = param_item(s, p) {
        if ahead(s, p, e) {
            lemma_param_tail_order(s, e);
            lemma_param_tail(s, e);
            let (bs, e2) = param_tail(s, e);
            let all = seq![b] + bs;
            assert forall|i: int, j: int| 0 <= i < j < all.len() implies (#[trigger] all[i]).name.span.end
                <= (#[trigger] all[j]).name.span.start by {
                if i > 0 {
                    assert(all[i] == bs[i - 1] && all[j] == bs[j - 1]);
                } else {
                    assert(all[j] == bs[j - 1]);
                }
            }
            assert forall|i: int| 0 <= i < all.len() implies p <= (#[trigger] all[i]).name.span.start
                && all[i].name.span.end <= e2 by {
                if i > 0 {
                    assert(all[i] == bs[i - 1]);
                }
            }
        }
    }
}

proof fn lemma_field_order(s: Seq<u8>, p: int)
    requires
        0 <= p <= s.len() <= usize::MAX,
    ensures
        field(s, p) matches Some((b, e)) ==> p <= b.name.span.start <= b.name.span.end <= e,
{
    let q = skip_ws(s, p);
    lemma_skip_ws(s, p);
    lemma_name(s, q, Class::Lower);
    if let Some((n, e1)) = name(s, q, Class::Lower) {
        let q1 = skip_ws(s, e1);
        lemma_skip_ws(s, e1);
        if lit(s, q1, 0x3a) {
            lemma_skip_ws(s, q1 + 1);
            lemma_ty(s, skip_ws(s, q1 + 1));
            if let Some((t, e2)) = ty(s, skip_ws(s, q1 + 1)) {
                lemma_skip_ws(s, e2);
                assert(n.span == mk_span(q, e1));
            }
        }
    }
}

/// The fields of a struct come out in the order they are written: each
/// field's name ends before the next one's starts, and all lie between where
/// the fields start and where they end.
pub proof fn law_fields_in_source_order(s: Seq<u8>, p: int)
    requires
        0 <= p <= s.len() <= usize::MAX,
    ensures
        ({
            let (fs, e) = fields(s, p);
            names_in_order(fs) && names_between(fs, p, e)
        }),
    decreases s.len() - p,
{
    lemma_skip_ws(s, p);
    lemma_field_order(s, skip_ws(s, p));
    lemma_field(s, skip_ws(s, p));
    if let Some((f, e)) = field(s, skip_ws(s, p)) {
        let e1 = skip_ws(s, e);
        lemma_skip_ws(s, e);
        if ahead(s, p, e1) {
            law_fields_in_source_order(s, e1);
            lemma_fields(s, e1);
            let (fs, e2) = fields(s, e1);
            let all = seq![f] + fs;
            assert forall|i: int, j: int| 0 <= i < j < all.len() implies (#[trigger] all[i]).name.span.end
                <= (#[trigger] all[j]).name.span.start by {
                if i > 0 {
                    assert(all[i] == fs[i - 1] && all[j] == fs[j - 1]);
                } else {
                    assert(all[j] == fs[j - 1]);
                }
            }
            assert forall|i: int| 0 <= i < all.len() implies p <= (#[trigger] all[i]).name.span.start
                && all[i].name.span.end <= e2 by {
                if i > 0 {
                    assert(all[i] == fs[i - 1]);
                }
            }
        }
    }
}

/// Each argument ends before the next one starts.
pub open spec fn args_in_order(args: Seq<SExprV>) -> bool {
    forall|i: int, j: int| 0 <= i < j < args.len() ==> (#[trigger] args[i]).span.end <= (#[trigger] args[j]).span.start
}

/// Every argument lies between the positions `p` and `e`.
pub open spec fn args_between(args: Seq<SExprV>, p: int, e: int) -> bool {
    forall|i: int| 0 <= i < args.len() ==> p <= (#[trigger] args[i]).span.start && args[i].span.end <= e
}

proof fn lemma_arg_item_order(s: Seq<u8>, p: int)
    requires
        0 <= p <= s.len() <= usize::MAX,
    ensures
        arg_item(s, p) matches Outcome::Done(a, e) ==> p <= a.span.start <= a.span.end <= e,
{
    let q = skip_ws(s, p);
    lemma_skip_ws(s, p);
    if within(s, p, q) {
        lemma_expr(s, q);
        if let Outcome::Done(a, e) = expr(s, q) {
            lemma_skip_ws(s, e);
        }
    }
}

proof fn lemma_args_cons_order(a: SExprV, rest: Seq<SExprV>, p: int, e: int, e2: int)
    requires
        p <= a.span.start <= a.span.end <= e,
        args_in_order(rest),
        args_between(rest, e, e2),
        e <= e2,
    ensures
        args_in_order(seq![a] + rest),
        args_between(seq![a] + rest, p, e2),
{
    let all = seq![a] + rest;
    assert forall|i: int, j: int| 0 <= i < j < all.len() implies (#[trigger] all[i]).span.end
        <= (#[trigger] all[j]).span.start by {
        if i > 0 {
            assert(all[i] == rest[i - 1] && all[j] == rest[j - 1]);
        } else {
            assert(all[j] == rest[j - 1]);
        }
    }
    assert forall|i: int| 0 <= i < all.len() implies p <= (#[trigger] all[i]).span.start && all[i].span.end
        <= e2 by {
        if i > 0 {
            assert(all[i] == rest[i - 1]);
        }
    }
}

proof fn lemma_arg_tail_order(s: Seq<u8>, p: int)
    requires
        0 <= p <= s.len() <= usize::MAX,
    ensures
        arg_tail(s, p) matches Outcome::Done(rest, e) ==> p <= e && args_in_order(rest) && args_between(rest, p, e),
    decreases s.len() - p,
{
    let q = skip_ws(s, p);
    lemma_skip_ws(s, p);
    if lit(s, q, 0x2c) {
        let q1 = skip_ws(s, q + 1);
        lemma_skip_ws(s, q + 1);
        if ahead(s, p, q1) {
            lemma_arg_item_order(s, q1);
            lemma_arg_item(s, q1);
            if let Outcome::Done(a, e) = arg_item(s, q1) {
                if ahead(s, p, e) {
                    lemma_arg_tail_order(s, e);
                    if let Outcome::Done(rest, e2) = arg_tail(s, e) {
                        lemma_args_cons_order(a, rest, p, e, e2);
                        let all = seq![a] + rest;
                        assert forall|i: int| 0 <= i < all.len() implies p <= (#[trigger] all[i]).span.start
                            && all[i].span.end <= e2 by {
                            if i > 0 {
                                assert(all[i] == rest[i - 1]);
                            }
                        }
                    }
                }
            }
        }
    }
}

/// The arguments of a call come out in the order they are written: each
/// argument ends before the next one starts, and all lie between where the
/// list starts and where it ends.
pub proof fn law_args_in_source_order(s: Seq<u8>, p: int)
    requires
        0 <= p <= s.len() <= usize::MAX,
    ensures
        arg_list(s, p) matches Outcome::Done(args, e) ==> args_in_order(args) && args_between(args, p, e),
{
    lemma_arg_item_order(s, p);
    lemma_arg_item(s, p);
    if let Outcome::Done(a, e) = arg_item(s, p) {
        if ahead(s, p, e) {
            lemma_arg_tail_order(s, e);
            if let Outcome::Done(rest, e2) = arg_tail(s, e) {
                lemma_args_cons_order(a, rest, p, e, e2);
                let all = seq![a] + rest;
                assert forall|i: int| 0 <= i < all.len() implies p <= (#[trigger] all[i]).span.start
                    && all[i].span.end <= e2 by {
                    if i > 0 {
                        assert(all[i] == rest[i - 1]);
                    }
                }
            }
        }
    }
}

proof fn lemma_body_item(s: Seq<u8>, p: int)
    requires
        0 <= p <= s.len() <= usize::MAX,
    ensures
        body_item(s, p) matches Outcome::Done(x, e) ==> p <= e <= s.len() && expr_in(x, s),
{
    lemma_skip_ws(s, p);
    lemma_expr(s, skip_ws(s, p));
    if let Outcome::Done(x, e) = expr(s, skip_ws(s, p)) {
        lemma_skip_ws(s, e);
    }
}

proof fn lemma_body_tail(s: Seq<u8>, p: int)
    requires
        0 <= p <= s.len() <= usize::MAX,
    ensures
        body_tail(s, p) matches Outcome::Done(xs, e) ==> p <= e <= s.len() && exprs_in(xs, s),
    decreases s.len() - p,
{
    let q = skip_ws(s, p);
    lemma_skip_ws(s, p);
    if lit(s, q, 0x3b) {
        lemma_skip_ws(s, q + 1);
        lemma_body_item(s, skip_ws(s, q + 1));
        if let Outcome::Done(x, e) = body_item(s, skip_ws(s, q + 1)) {
            if ahead(s, p, e) {
                lemma_body_tail(s, e);
                if let Outcome::Done(xs, e2) = body_tail(s, e) {
                    lemma_exprs_cons(x, xs, s);
                }
            }
        }
    }
}

proof fn lemma_body_list(s: Seq<u8>, p: int)
    requires
        0 <= p <= s.len() <= usize::MAX,
    ensures
        body_list(s, p) matches Outcome::Done(xs, e) ==> p <= e <= s.len() && exprs_in(xs, s),
{
    lemma_body_item(s, p);
    if let Outcome::Done(x, e) = body_item(s, p) {
        if ahead(s, p, e) {
            lemma_body_tail(s, e);
            if let Outcome::Done(xs, e2) = body_tail(s, e) {
                lemma_exprs_cons(x, xs, s);
            }
        }
    }
}

proof fn lemma_fun_body(s: Seq<u8>, p: int, n: NameV, ps: Seq<BindingV>, rt: TypeV)
    requires
        0 <= p <= s.len() <= usize::MAX,
        name_in(n, s),
        bindings_in(ps, s),
        type_in(rt, s),
    ensures
        fun_body(s, p, n, ps, rt) matches Outcome::Done(d, e) ==> p <= e <= s.len() && def_in(d, s),
{
    if lit2(s, p, 0x3a, 0x3d) {
        lemma_skip_ws(s, p + 2);
        lemma_expr(s, skip_ws(s, p + 2));
        if let Outcome::Done(x, e) = expr(s, skip_ws(s, p + 2)) {
            lemma_exprs_cons(x, Seq::<ExprV>::empty(), s);
            assert(seq![x] + Seq::<ExprV>::empty() =~= seq![x]);
        }
    }
    if lit(s, p, 0x7b) {
        lemma_skip_ws(s, p + 1);
        lemma_body_list(s, skip_ws(s, p + 1));
    }
}

proof fn lemma_fun_def(s: Seq<u8>, p: int)
    requires
        0 <= p <= s.len() <= usize::MAX,
    ensures
        fun_def(s, p) matches Outcome::Done(d, e) ==> p <= e <= s.len() && def_in(d, s),
{
    let q = skip_ws(s, p);
    lemma_skip_ws(s, p);
    lemma_keyword(s, q, Keyword::Fun);
    if let Some(e1) = keyword(s, q, Keyword::Fun) {
        lemma_skip_ws(s, e1);
        lemma_name(s, skip_ws(s, e1), Class::Lower);
        if let Some((n, e2)) = name(s, skip_ws(s, e1), Class::Lower) {
            let q2 = skip_ws(s, e2);
            lemma_skip_ws(s, e2);
            if lit(s, q2, 0x28) {
                lemma_skip_ws(s, q2 + 1);
                lemma_param_list(s, skip_ws(s, q2 + 1));
                let (ps, e3) = param_list(s, skip_ws(s, q2 + 1));
                if lit(s, e3, 0x29) {
                    let q5 = skip_ws(s, e3 + 1);
                    lemma_skip_ws(s, e3 + 1);
                    if lit(s, q5, 0x3a) {
                        lemma_skip_ws(s, q5 + 1);
                        lemma_ty(s, skip_ws(s, q5 + 1));
                        if let Some((rt, e5)) = ty(s, skip_ws(s, q5 + 1)) {
                            lemma_skip_ws(s, e5);
                            lemma_fun_body(s, skip_ws(s, e5), n, ps, rt);
                        }
                    }
                }
            }
        }
    }
}

proof fn lemma_defs(s: Seq<u8>, p: int)
    requires
        0 <= p <= s.len() <= usize::MAX,
    ensures
        defs(s, p) matches Outcome::Done(ds, e) ==> p <= e <= s.len() && defs_in(ds, s),
    decreases s.len() - p,
{
    let q = skip_ws(s, p);
    lemma_skip_ws(s, p);
    lemma_struct_def(s, q);
    lemma_fun_def(s, q);
    if let Outcome::Done(d, e) = def(s, q) {
        let e1 = skip_ws(s, e);
        lemma_skip_ws(s, e);
        if ahead(s, p, e1) {
            lemma_defs(s, e1);
            if let Outcome::Done(ds, e2) = defs(s, e1) {
                assert forall|k: int| 0 <= k < (seq![d] + ds).len() implies def_in(
                    #[trigger] (seq![d] + ds)[k],
                    s,
                ) by {
                    if k > 0 {
                        assert((seq![d] + ds)[k] == ds[k - 1]);
                    }
                }
            }
        }
    }
}

/// Every span of a parsed program lies within the source text, and every
/// name of it is the text at its span.
pub proof fn law_spans_within_source(s: Seq<u8>)
    requires
        s.len() <= usize::MAX,
    ensures
        program_of(s) matches ProgramV::Parsed(ds) ==> defs_in(ds, s),
{
    lemma_defs(s, 0);
}

// ---------------------------------------------------------------------------
// Errors of compiling
/// An error within the text `s`, if there is one.
pub open spec fn err_in<T>(r: Result<T, ErrV>, s: Seq<u8>) -> bool {
    r matches Err(e) ==> span_in(e.span, s)
}

proof fn lemma_resolve_in(types: Map<Seq<char>, RawTypeV>, t: TypeV, s: Seq<u8>)
    requires
        type_in(t, s),
    ensures
        err_in(resolve(types, t), s),
    decreases t,
{
    if let TypeV::Fun(ps, r) = t {
        lemma_resolve_all_in(types, ps, s);
        lemma_resolve_in(types, *r, s);
    }
}

proof fn lemma_resolve_all_in(types: Map<Seq<char>, RawTypeV>, ts: Seq<TypeV>, s: Seq<u8>)
    requires
        types_in(ts, s),
    ensures
        err_in(resolve_all(types, ts), s),
    decreases ts,
{
    if ts.len() > 0 {
        lemma_resolve_all_in(types, ts.drop_last(), s);
        lemma_resolve_in(types, ts.last(), s);
    }
}

proof fn lemma_c_ref_in(st: FnState, r: RefV, s: Seq<u8>)
    requires
        ref_in(r, s),
    ensures
        err_in(c_ref(st, r), s),
    decreases r,
{
    if let RefV::Access(inner, _, _) = r {
        lemma_c_ref_in(st, *inner, s);
    }
}

proof fn lemma_check_args_in(tys: Seq<(RawTypeV, Span)>, ps: Seq<RawTypeV>, s: Seq<u8>)
    requires
        forall|k: int| 0 <= k < tys.len() ==> span_in(#[trigger] tys[k].1, s),
    ensures
        check_args(tys, ps) matches Some(e) ==> span_in(e.span, s),
    decreases tys.len(),
{
    if tys.len() > 0 {
        lemma_check_args_in(tys.drop_last(), ps, s);
    }
}

proof fn lemma_c_expr_in(env: Env, st: FnState, e: ExprV, s: Seq<u8>)
    requires
        expr_in(e, s),
    ensures
        err_in(c_expr(env, st, e), s),
    decreases e,
{
    match e {
        ExprV::Var(_, t) => {
            lemma_resolve_in(env.types, t, s);
        },
        ExprV::Print(x, _) => {
            lemma_c_expr_in(env, st, *x, s);
        },
        ExprV::Assign(r, x, _) => {
            lemma_c_ref_in(st, r, s);
            if let Ok((_, st1)) = c_ref(st, r) {
                lemma_c_expr_in(env, st1, *x, s);
            }
        },
        ExprV::Deref(r) => {
            lemma_c_ref_in(st, r, s);
        },
        ExprV::Call(callee, _, args, _) => {
            lemma_c_expr_in(env, st, *callee, s);
            if let Ok((_, st1)) = c_expr(env, st, *callee) {
                lemma_c_args_in(env, st1, args, s);
                if let Ok((_, tys, _)) = c_args(env, st1, args) {
                    if let RawTypeV::FunPtr(ps, _) = c_expr(env, st, *callee)->Ok_0.0.ty {
                        lemma_check_args_in(tys, ps, s);
                    }
                }
            }
        },
        ExprV::Add(l, _, r, _) => {
            lemma_c_expr_in(env, st, *l, s);
            if let Ok((_, st1)) = c_expr(env, st, *l) {
                lemma_c_expr_in(env, st1, *r, s);
            }
        },
        _ => {},
    }
}

proof fn lemma_c_args_in(env: Env, st: FnState, args: Seq<SExprV>, s: Seq<u8>)
    requires
        sexprs_in(args, s),
    ensures
        err_in(c_args(env, st, args), s),
        c_args(env, st, args) matches Ok((_, tys, _)) ==> forall|k: int|
            0 <= k < tys.len() ==> span_in(#[trigger] tys[k].1, s),
    decreases args,
{
    if args.len() > 0 {
        lemma_c_args_in(env, st, args.drop_last(), s);
        if let Ok((vs, ts, st1)) = c_args(env, st, args.drop_last()) {
            lemma_c_expr_in(env, st1, args.last().expr, s);
            if let Ok((v, st2)) = c_expr(env, st1, args.last().expr) {
                let ts2 = ts.push((v.ty, args.last().span));
                assert forall|k: int| 0 <= k < ts2.len() implies span_in(#[trigger] ts2[k].1, s) by {
                    if k < ts.len() {
                        assert(ts2[k] == ts[k]);
                    }
                }
            }
        }
    }
}

proof fn lemma_c_body_in(env: Env, st: FnState, xs: Seq<ExprV>, s: Seq<u8>)
    requires
        exprs_in(xs, s),
    ensures
        err_in(c_body(env, st, xs), s),
    decreases xs.len(),
{
    if xs.len() > 0 {
        assert(exprs_in(xs.drop_last(), s)) by {
            assert forall|k: int| 0 <= k < xs.drop_last().len() implies expr_in(
                #[trigger] xs.drop_last()[k],
                s,
            ) by {
                assert(xs.drop_last()[k] == xs[k]);
            }
        }
        lemma_c_body_in(env, st, xs.drop_last(), s);
        if let Ok((_, st1)) = c_body(env, st, xs.drop_last()) {
            lemma_c_expr_in(env, st1, xs.last(), s);
        }
    }
}

proof fn lemma_c_fields_in(types: Map<Seq<char>, RawTypeV>, fs: Seq<BindingV>, s: Seq<u8>)
    requires
        bindings_in(fs, s),
    ensures
        err_in(c_fields(types, fs), s),
    decreases fs.len(),
{
    if fs.len() > 0 {
        assert(bindings_in(fs.drop_last(), s)) by {
            assert forall|k: int| 0 <= k < fs.drop_last().len() implies binding_in(
                #[trigger] fs.drop_last()[k],
                s,
            ) by {
                assert(fs.drop_last()[k] == fs[k]);
            }
        }
        lemma_c_fields_in(types, fs.drop_last(), s);
        assert(binding_in(fs.last(), s));
        lemma_resolve_in(types, fs.last().ty, s);
    }
}

proof fn lemma_c_params_in(ps: Seq<BindingV>, rps: Seq<RawTypeV>, s: Seq<u8>)
    requires
        bindings_in(ps, s),
    ensures
        err_in(c_params(ps, rps), s),
    decreases ps.len(),
{
    if ps.len() > 0 {
        assert(bindings_in(ps.drop_last(), s)) by {
            assert forall|k: int| 0 <= k < ps.drop_last().len() implies binding_in(
                #[trigger] ps.drop_last()[k],
                s,
            ) by {
                assert(ps.drop_last()[k] == ps[k]);
            }
        }
        lemma_c_params_in(ps.drop_last(), rps, s);
        assert(binding_in(ps[ps.len() - 1], s));
    }
}

proof fn lemma_c_def_in(env: Env, code: Seq<FunctionCodeV>, d: DefV, s: Seq<u8>)
    requires
        def_in(d, s),
    ensures
        err_in(c_def(env, code, d).2, s),
{
    match d {
        DefV::Struct(n, fs) => {
            lemma_c_fields_in(env.types, fs, s);
        },
        DefV::Fun(n, ps, rt, body, span) => {
            let bts = binding_types(ps);
            assert(types_in(bts, s)) by {
                assert forall|k: int| 0 <= k < bts.len() implies type_in(#[trigger] bts[k], s) by {
                    assert(binding_in(ps[k], s));
                }
            }
            lemma_resolve_all_in(env.types, bts, s);
            lemma_resolve_in(env.types, rt, s);
            if let Ok(rps) = resolve_all(env.types, bts) {
                if let Ok(rr) = resolve(env.types, rt) {
                    lemma_c_params_in(ps, rps, s);
                    let (env1, _, _) = c_fun(env, code.len(), n, ps, rt, body, span);
                    if let Ok(st) = c_params(ps, rps) {
                        lemma_c_body_in(env1, st, body, s);
                    }
                }
            }
        },
    }
}

proof fn lemma_c_defs_in(env: Env, code: Seq<FunctionCodeV>, ds: Seq<DefV>, s: Seq<u8>)
    requires
        defs_in(ds, s),
    ensures
        err_in(c_defs(env, code, ds).2, s),
    decreases ds.len(),
{
    if ds.len() > 0 {
        assert(defs_in(ds.drop_last(), s)) by {
            assert forall|k: int| 0 <= k < ds.drop_last().len() implies def_in(
                #[trigger] ds.drop_last()[k],
                s,
            ) by {
                assert(ds.drop_last()[k] == ds[k]);
            }
        }
        lemma_c_defs_in(env, code, ds.drop_last(), s);
        let (env1, code1, r) = c_defs(env, code, ds.drop_last());
        if r is Ok {
            lemma_c_def_in(env1, code1, ds.last(), s);
        }
    }
}

/// Every error that compiling a parsed program reports lies within the
/// source text, so that it can be shown there.
pub proof fn law_errors_within_source(s: Seq<u8>, env: Env, code: Seq<FunctionCodeV>)
    requires
        s.len() <= usize::MAX,
    ensures
        program_of(s) matches ProgramV::Parsed(ds) ==> err_in(c_program(env, code, ds).2, s),
{
    lemma_defs(s, 0);
    if let ProgramV::Parsed(ds) = program_of(s) {
        lemma_c_defs_in(env, code, ds, s);
    }
}

} // verus!
