//! Properties of the language that hold of every program.
use vstd::prelude::*;
use vstd::map_lib::lemma_submap_of_trans;
use crate::ast::{BindingV, DefV, ExprV, NameV, RefV, SExprV, Span, TypeV};
use crate::compile::{lemma_field_index_absent, lemma_field_index_none, lemma_resolve_all_len};
use crate::ir::{FunctionCodeV, InstV, Value};
use crate::semantics::{
    args_state, body_state, c_args, c_body, c_def, c_defs, c_expr, c_fields, c_fun, c_params,
    c_program, c_ref, c_struct, emit, expr_state, ref_state,
    binding_types, check_args, field_index, main_type, next_reg, resolve, resolve_all, Env, FnState,
    RefInfo, ValInfo,
};
use crate::types::{fields_in, lemma_field_index_first, ll_of, ll_of_all, same_type, same_types, RawTypeV};

verus! {

/// `b` keeps every definition of `a` unchanged.
pub open spec fn extends(a: Env, b: Env) -> bool {
    a.types.submap_of(b.types) && a.globals.submap_of(b.globals)
}

proof fn lemma_def_persists(env: Env, code: Seq<FunctionCodeV>, d: DefV)
    ensures
        ({
            let (env1, code1, _) = c_def(env, code, d);
            extends(env, env1) && code.is_prefix_of(code1)
        }),
{
    match d {
        DefV::Struct(n, fs) => {
            let (env1, _) = c_struct(env, n, fs);
            assert(code.is_prefix_of(code)) by {
                assert(code =~= code.subrange(0, code.len() as int));
            }
        },
        DefV::Fun(n, ps, rt, body, span) => {
            let (env1, f, r) = c_fun(env, code.len(), n, ps, rt, body, span);
            assert(code.is_prefix_of(code)) by {
                assert(code =~= code.subrange(0, code.len() as int));
            }
            if let Some(f) = f {
                assert(code.is_prefix_of(code.push(f))) by {
                    assert(code =~= code.push(f).subrange(0, code.len() as int));
                }
            }
        },
    }
}

proof fn lemma_defs_persist(env: Env, code: Seq<FunctionCodeV>, ds: Seq<DefV>)
    ensures
        ({
            let (env1, code1, _) = c_defs(env, code, ds);
            extends(env, env1) && code.is_prefix_of(code1)
        }),
    decreases ds.len(),
{
    if ds.len() == 0 {
        assert(code =~= code.subrange(0, code.len() as int));
    } else {
        lemma_defs_persist(env, code, ds.drop_last());
        let (env1, code1, r) = c_defs(env, code, ds.drop_last());
        if r is Ok {
            lemma_def_persists(env1, code1, ds.last());
            let (env2, code2, _) = c_def(env1, code1, ds.last());
            lemma_submap_of_trans(env.types, env1.types, env2.types);
            lemma_submap_of_trans(env.globals, env1.globals, env2.globals);
            assert(code =~= code2.subrange(0, code.len() as int)) by {
                assert(code =~= code1.subrange(0, code.len() as int));
                assert(code1 =~= code2.subrange(0, code1.len() as int));
            }
        }
    }
}

/// Compiling definitions never changes nor removes a type or a function
/// defined before, nor the code of a function compiled before: a name, once
/// defined, keeps its definition.
pub proof fn law_definitions_persist(env: Env, code: Seq<FunctionCodeV>, ds: Seq<DefV>)
    ensures
        ({
            let (env1, code1, _) = c_program(env, code, ds);
            extends(env, env1) && code.is_prefix_of(code1)
        }),
{
    lemma_defs_persist(env, code, ds);
}

/// A program that compiles defines a function `main` of type `fun(): Unit`.
pub proof fn law_compiled_program_has_main(env: Env, code: Seq<FunctionCodeV>, ds: Seq<DefV>)
    ensures
        ({
            let (env1, _, r) = c_program(env, code, ds);
            r is Ok ==> env1.globals.contains_key("main"@) && env1.globals["main"@].ty == main_type()
        }),
{
    let (env1, _, r) = c_program(env, code, ds);
    if r is Ok {
        let t = env1.globals["main"@].ty;
        assert(same_type(t, main_type()));
        if let RawTypeV::FunPtr(ps, ret) = t {
            let qs: Seq<RawTypeV> = seq![];
            assert(same_types(ps, qs) && same_type(*ret, RawTypeV::Unit));
            assert(ps.len() == 0);
            assert(ps =~= qs);
            assert(*ret == RawTypeV::Unit);
        }
    }
}

// ---------------------------------------------------------------------------
// Well-formed code
/// Whether an instruction gives a value.
pub open spec fn gives_value(i: InstV) -> bool {
    i is Alloca || i is Load || i is StructGep || i is Add || i is Call
}

/// An operand refers to something that exists where it is used: an earlier
/// instruction of `before` that gives a value, one of the `np` parameters,
/// or one of the first `nf` functions of the code plan.
pub open spec fn value_ok(v: Value, before: Seq<InstV>, np: nat, nf: nat) -> bool {
    match v {
        Value::Reg(i) => i < before.len() && gives_value(before[i as int]),
        Value::Param(i) => i < np,
        Value::Function(i) => i < nf,
        _ => true,
    }
}

/// Every operand of the instruction refers to something that exists.
pub open spec fn inst_ok(i: InstV, before: Seq<InstV>, np: nat, nf: nat) -> bool {
    match i {
        InstV::Alloca(_, _) => true,
        InstV::Store(p, v) => value_ok(p, before, np, nf) && value_ok(v, before, np, nf),
        InstV::Load(_, p) => value_ok(p, before, np, nf),
        InstV::StructGep(_, p, _) => value_ok(p, before, np, nf),
        InstV::Add(a, b) => value_ok(a, before, np, nf) && value_ok(b, before, np, nf),
        InstV::Print(v) => value_ok(v, before, np, nf),
        InstV::Call(_, _, c, args) => value_ok(c, before, np, nf) && forall|k: int|
            0 <= k < args.len() ==> value_ok(#[trigger] args[k], before, np, nf),
        InstV::Return(v) => value_ok(v, before, np, nf),
    }
}

/// Every instruction of `body` uses only what exists before it.
pub open spec fn body_ok(body: Seq<InstV>, np: nat, nf: nat) -> bool {
    forall|j: int| 0 <= j < body.len() ==> inst_ok(#[trigger] body[j], body.take(j), np, nf)
}

/// A body small enough that the index of each of its instructions fits in
/// a `usize`.
pub open spec fn fits(body: Seq<InstV>) -> bool {
    body.len() <= usize::MAX
}

/// Every function of the code plan that fits is well formed: its
/// instructions use only earlier results, its own parameters, and the
/// functions up to itself.
pub open spec fn code_ok(code: Seq<FunctionCodeV>) -> bool {
    forall|i: int|
        0 <= i < code.len() && fits(#[trigger] code[i].body) ==> body_ok(
            code[i].body,
            code[i].params.len(),
            (i + 1) as nat,
        )
}

/// Every function name denotes one of the first `nf` functions of the plan.
pub open spec fn env_ok(env: Env, nf: nat) -> bool {
    forall|k: Seq<char>|
        #[trigger] env.globals.contains_key(k) ==> (env.globals[k].ptr matches Value::Function(i)
            && i < nf)
}

/// The code emitted so far is well formed and every local variable denotes a
/// place that exists.
pub open spec fn state_ok(st: FnState, np: nat, nf: nat) -> bool {
    &&& body_ok(st.body, np, nf)
    &&& forall|k: Seq<char>|
        #[trigger] st.locals.contains_key(k) ==> value_ok(st.locals[k].ptr, st.body, np, nf)
}

/// `b2` starts with `b1`.
pub open spec fn grows(b1: Seq<InstV>, b2: Seq<InstV>) -> bool {
    b1.len() <= b2.len() && forall|i: int| 0 <= i < b1.len() ==> #[trigger] b2[i] == b1[i]
}

pub(crate) proof fn lemma_grows_trans(a: Seq<InstV>, b: Seq<InstV>, c: Seq<InstV>)
    requires
        grows(a, b),
        grows(b, c),
    ensures
        grows(a, c),
{
    assert forall|i: int| 0 <= i < a.len() implies #[trigger] c[i] == a[i] by {
        assert(c[i] == b[i]);
    }
}

proof fn lemma_value_grows(v: Value, b1: Seq<InstV>, b2: Seq<InstV>, np: nat, nf: nat)
    requires
        value_ok(v, b1, np, nf),
        grows(b1, b2),
    ensures
        value_ok(v, b2, np, nf),
{
    if let Value::Reg(i) = v {
        assert(b2[i as int] == b1[i as int]);
    }
}

proof fn lemma_emit_ok(st: FnState, i: InstV, np: nat, nf: nat)
    requires
        state_ok(st, np, nf),
        inst_ok(i, st.body, np, nf),
    ensures
        state_ok(emit(st, i), np, nf),
        grows(st.body, emit(st, i).body),
        emit(st, i).body[st.body.len() as int] == i,
{
    let b = st.body;
    let b2 = b.push(i);
    assert(grows(b, b2));
    assert forall|j: int| 0 <= j < b2.len() implies inst_ok(#[trigger] b2[j], b2.take(j), np, nf) by {
        if j < b.len() {
            assert(b2.take(j) =~= b.take(j));
        } else {
            assert(b2.take(j) =~= b);
        }
    }
    assert forall|k: Seq<char>| #[trigger] st.locals.contains_key(k) implies value_ok(
        st.locals[k].ptr,
        b2,
        np,
        nf,
    ) by {
        lemma_value_grows(st.locals[k].ptr, b, b2, np, nf);
    }
}

/// A new local variable at a stack slot that was just allocated.
proof fn lemma_bind_ok(st: FnState, name: Seq<char>, info: RefInfo, np: nat, nf: nat)
    requires
        state_ok(st, np, nf),
        value_ok(info.ptr, st.body, np, nf),
    ensures
        state_ok(FnState { locals: st.locals.insert(name, info), body: st.body }, np, nf),
{
    let st2 = FnState { locals: st.locals.insert(name, info), body: st.body };
    assert forall|k: Seq<char>| #[trigger] st2.locals.contains_key(k) implies value_ok(
        st2.locals[k].ptr,
        st2.body,
        np,
        nf,
    ) by {
        if k != name {
            assert(st.locals.contains_key(k));
        }
    }
}

/// What compiling a reference keeps: code is only appended, the variables
/// stay, and a well-formed state gives a well-formed state and a place that
/// exists.
pub open spec fn ref_kept(st: FnState, out: (RefInfo, FnState), np: nat, nf: nat) -> bool {
    &&& grows(st.body, out.1.body)
    &&& out.1.locals == st.locals
    &&& state_ok(st, np, nf) && fits(out.1.body) ==> state_ok(out.1, np, nf) && value_ok(
        out.0.ptr,
        out.1.body,
        np,
        nf,
    )
}

/// What compiling an expression keeps.
pub open spec fn expr_kept(env: Env, st: FnState, out: (ValInfo, FnState), np: nat, nf: nat) -> bool {
    &&& grows(st.body, out.1.body)
    &&& state_ok(st, np, nf) && env_ok(env, nf) && fits(out.1.body) ==> state_ok(out.1, np, nf)
        && value_ok(out.0.value, out.1.body, np, nf)
}

/// What compiling the arguments of a call keeps.
pub open spec fn args_kept(
    env: Env,
    st: FnState,
    out: (Seq<Value>, Seq<(RawTypeV, Span)>, FnState),
    np: nat,
    nf: nat,
) -> bool {
    &&& grows(st.body, out.2.body)
    &&& state_ok(st, np, nf) && env_ok(env, nf) && fits(out.2.body) ==> state_ok(out.2, np, nf)
        && forall|k: int| 0 <= k < out.0.len() ==> value_ok(#[trigger] out.0[k], out.2.body, np, nf)
}

pub(crate) proof fn lemma_ref_ok(st: FnState, r: RefV, np: nat, nf: nat)
    ensures
        c_ref(st, r) is Ok ==> ref_kept(st, c_ref(st, r)->Ok_0, np, nf),
    decreases r,
{
    match r {
        RefV::Var(n) => {
            assert(grows(st.body, st.body));
        },
        RefV::Access(inner, _, f) => {
            lemma_ref_ok(st, *inner, np, nf);
            if let Ok((rr, st1)) = c_ref(st, *inner) {
                if let RawTypeV::Struct(_, fs) = rr.ty {
                    if let Some(i) = field_index(fs, f.text) {
                        let g = InstV::StructGep(ll_of(rr.ty), rr.ptr, i as nat);
                        let st2 = emit(st1, g);
                        assert(grows(st1.body, st2.body));
                        lemma_grows_trans(st.body, st1.body, st2.body);
                        if state_ok(st, np, nf) && fits(st2.body) {
                            lemma_emit_ok(st1, g, np, nf);
                        }
                    }
                }
            }
        },
    }
}

pub(crate) proof fn lemma_expr_ok(env: Env, st: FnState, e: ExprV, np: nat, nf: nat)
    ensures
        c_expr(env, st, e) is Ok ==> expr_kept(env, st, c_expr(env, st, e)->Ok_0, np, nf),
    decreases e,
{
    let pre = state_ok(st, np, nf) && env_ok(env, nf);
    match e {
        ExprV::Int(_) => {
            assert(grows(st.body, st.body));
        },
        ExprV::Global(n) => {
            assert(grows(st.body, st.body));
            if env.globals.contains_key(n.text) {
                assert(env_ok(env, nf) ==> value_ok(env.globals[n.text].ptr, st.body, np, nf));
            }
        },
        ExprV::Var(n, t) => {
            if let Ok(rt) = crate::semantics::resolve(env.types, t) {
                let st1 = emit(st, InstV::Alloca(ll_of(rt), n.text));
                assert(grows(st.body, st1.body));
                if pre && fits(st1.body) {
                    lemma_emit_ok(st, InstV::Alloca(ll_of(rt), n.text), np, nf);
                    lemma_bind_ok(st1, n.text, RefInfo { ptr: next_reg(st), ty: rt }, np, nf);
                }
            }
        },
        ExprV::Print(x, _) => {
            lemma_expr_ok(env, st, *x, np, nf);
            if let Ok((v, st1)) = c_expr(env, st, *x) {
                let st2 = emit(st1, InstV::Print(v.value));
                assert(grows(st1.body, st2.body));
                lemma_grows_trans(st.body, st1.body, st2.body);
                if pre && fits(st2.body) {
                    lemma_emit_ok(st1, InstV::Print(v.value), np, nf);
                }
            }
        },
        ExprV::Assign(r, x, _) => {
            lemma_ref_ok(st, r, np, nf);
            if let Ok((rr, st1)) = c_ref(st, r) {
                lemma_expr_ok(env, st1, *x, np, nf);
                if let Ok((v, st2)) = c_expr(env, st1, *x) {
                    let g = InstV::Store(rr.ptr, v.value);
                    let st3 = emit(st2, g);
                    assert(grows(st2.body, st3.body));
                    lemma_grows_trans(st.body, st1.body, st2.body);
                    lemma_grows_trans(st.body, st2.body, st3.body);
                    if pre && fits(st3.body) {
                        lemma_value_grows(rr.ptr, st1.body, st2.body, np, nf);
                        lemma_emit_ok(st2, g, np, nf);
                    }
                }
            }
        },
        ExprV::Deref(r) => {
            lemma_ref_ok(st, r, np, nf);
            if let Ok((rr, st1)) = c_ref(st, r) {
                let g = InstV::Load(ll_of(rr.ty), rr.ptr);
                let st2 = emit(st1, g);
                assert(grows(st1.body, st2.body));
                lemma_grows_trans(st.body, st1.body, st2.body);
                if pre && fits(st2.body) {
                    lemma_emit_ok(st1, g, np, nf);
                }
            }
        },
        ExprV::Call(callee, _, args, _) => {
            lemma_expr_ok(env, st, *callee, np, nf);
            if let Ok((cv, st1)) = c_expr(env, st, *callee) {
                lemma_args_ok(env, st1, args, np, nf);
                if let RawTypeV::FunPtr(ps, ret) = cv.ty {
                    if let Ok((vals, tys, st2)) = c_args(env, st1, args) {
                        let g = InstV::Call(ll_of(*ret), ll_of_all(ps), cv.value, vals);
                        let st3 = emit(st2, g);
                        assert(grows(st2.body, st3.body));
                        lemma_grows_trans(st.body, st1.body, st2.body);
                        lemma_grows_trans(st.body, st2.body, st3.body);
                        if pre && fits(st3.body) {
                            lemma_value_grows(cv.value, st1.body, st2.body, np, nf);
                            lemma_emit_ok(st2, g, np, nf);
                        }
                    }
                }
            }
        },
        ExprV::Add(l, _, r, _) => {
            lemma_expr_ok(env, st, *l, np, nf);
            if let Ok((lv, st1)) = c_expr(env, st, *l) {
                lemma_expr_ok(env, st1, *r, np, nf);
                if let Ok((rv, st2)) = c_expr(env, st1, *r) {
                    let g = InstV::Add(lv.value, rv.value);
                    let st3 = emit(st2, g);
                    assert(grows(st2.body, st3.body));
                    lemma_grows_trans(st.body, st1.body, st2.body);
                    lemma_grows_trans(st.body, st2.body, st3.body);
                    if pre && fits(st3.body) {
                        lemma_value_grows(lv.value, st1.body, st2.body, np, nf);
                        lemma_emit_ok(st2, g, np, nf);
                    }
                }
            }
        },
    }
}

pub(crate) proof fn lemma_args_ok(env: Env, st: FnState, args: Seq<SExprV>, np: nat, nf: nat)
    ensures
        c_args(env, st, args) is Ok ==> args_kept(env, st, c_args(env, st, args)->Ok_0, np, nf),
    decreases args,
{
    if args.len() == 0 {
        assert(grows(st.body, st.body));
    } else {
        lemma_args_ok(env, st, args.drop_last(), np, nf);
        if let Ok((vs, ts, st1)) = c_args(env, st, args.drop_last()) {
            lemma_expr_ok(env, st1, args.last().expr, np, nf);
            if let Ok((v, st2)) = c_expr(env, st1, args.last().expr) {
                lemma_grows_trans(st.body, st1.body, st2.body);
                if state_ok(st, np, nf) && env_ok(env, nf) && fits(st2.body) {
                    let vs2 = vs.push(v.value);
                    assert forall|k: int| 0 <= k < vs2.len() implies value_ok(
                        #[trigger] vs2[k],
                        st2.body,
                        np,
                        nf,
                    ) by {
                        if k < vs.len() {
                            lemma_value_grows(vs[k], st1.body, st2.body, np, nf);
                        }
                    }
                }
            }
        }
    }
}

pub(crate) proof fn lemma_body_ok(env: Env, st: FnState, xs: Seq<ExprV>, np: nat, nf: nat)
    ensures
        c_body(env, st, xs) is Ok ==> expr_kept(env, st, c_body(env, st, xs)->Ok_0, np, nf),
    decreases xs.len(),
{
    if xs.len() == 0 {
        assert(grows(st.body, st.body));
    } else {
        lemma_body_ok(env, st, xs.drop_last(), np, nf);
        if let Ok((_, st1)) = c_body(env, st, xs.drop_last()) {
            lemma_expr_ok(env, st1, xs.last(), np, nf);
            if let Ok((v, st2)) = c_expr(env, st1, xs.last()) {
                lemma_grows_trans(st.body, st1.body, st2.body);
            }
        }
    }
}

pub(crate) proof fn lemma_params_ok(ps: Seq<BindingV>, rps: Seq<RawTypeV>, np: nat, nf: nat)
    ensures
        c_params(ps, rps) matches Ok(st) ==> st.body.len() == 2 * ps.len() && (fits(st.body)
            && ps.len() <= np ==> state_ok(st, np, nf)),
    decreases ps.len(),
{
    if ps.len() > 0 {
        lemma_params_ok(ps.drop_last(), rps, np, nf);
        if let Ok(st) = c_params(ps.drop_last(), rps) {
            let i = ps.len() - 1;
            let slot = next_reg(st);
            let a = InstV::Alloca(ll_of(rps[i]), "param"@);
            let st1 = emit(st, a);
            let sti = FnState {
                locals: st.locals.insert(ps[i].name.text, RefInfo { ptr: slot, ty: rps[i] }),
                body: st1.body,
            };
            let g = InstV::Store(slot, Value::Param(i as usize));
            if st.body.len() + 2 <= usize::MAX && ps.len() <= np {
                assert(ps.drop_last().len() <= np);
                lemma_emit_ok(st, a, np, nf);
                lemma_bind_ok(st1, ps[i].name.text, RefInfo { ptr: slot, ty: rps[i] }, np, nf);
                lemma_emit_ok(sti, g, np, nf);
            }
        }
    }
}

/// What compiling a function definition keeps: every function name denotes
/// one of the functions up to the new one, and the new function's code is
/// well formed when it fits.
proof fn lemma_fun_ok(
    env: Env,
    index: nat,
    n: NameV,
    ps: Seq<BindingV>,
    rt: TypeV,
    body: Seq<ExprV>,
    span: Span,
)
    requires
        env_ok(env, index),
        index <= usize::MAX,
    ensures
        ({
            let (env1, f, r) = c_fun(env, index, n, ps, rt, body, span);
            &&& f is None ==> env1 == env
            &&& f matches Some(fc) ==> env_ok(env1, index + 1) && (fits(fc.body) ==> body_ok(
                fc.body,
                fc.params.len(),
                index + 1,
            ))
        }),
{
    let (env1, f, r) = c_fun(env, index, n, ps, rt, body, span);
    if let Some(fc) = f {
        let bts = binding_types(ps);
        let rps = resolve_all(env.types, bts)->Ok_0;
        let rr = resolve(env.types, rt)->Ok_0;
        lemma_resolve_all_len(env.types, bts);
        let nf = index + 1;
        let np = rps.len();
        assert(fc.params.len() == np);
        assert forall|k: Seq<char>| #[trigger] env1.globals.contains_key(k) implies (
        env1.globals[k].ptr matches Value::Function(i) && i < nf) by {
            if k != n.text {
                assert(env.globals.contains_key(k));
            }
        }
        if r is Ok {
            let st = c_params(ps, rps)->Ok_0;
            lemma_params_ok(ps, rps, np, nf);
            lemma_body_ok(env1, st, body, np, nf);
            let (v, st2) = c_body(env1, st, body)->Ok_0;
            if fits(fc.body) {
                assert(state_ok(st, np, nf));
                lemma_emit_ok(st2, InstV::Return(v.value), np, nf);
            }
        }
    }
}

/// What compiling one more definition keeps.
proof fn lemma_def_ok(env: Env, code: Seq<FunctionCodeV>, d: DefV)
    requires
        code_ok(code),
        env_ok(env, code.len()),
        code.len() < usize::MAX,
    ensures
        ({
            let (env1, code1, r) = c_def(env, code, d);
            code_ok(code1) && env_ok(env1, code1.len()) && code1.len() <= code.len() + 1
        }),
{
    match d {
        DefV::Struct(n, fs) => {
            let (env1, r) = c_struct(env, n, fs);
            assert forall|k: Seq<char>| #[trigger] env1.globals.contains_key(k) implies (
            env1.globals[k].ptr matches Value::Function(i) && i < code.len()) by {
                assert(env.globals.contains_key(k));
            }
        },
        DefV::Fun(n, ps, rt, body, span) => {
            lemma_fun_ok(env, code.len(), n, ps, rt, body, span);
            let (env1, f, r) = c_fun(env, code.len(), n, ps, rt, body, span);
            if let Some(fc) = f {
                let code1 = code.push(fc);
                assert forall|i: int|
                    0 <= i < code1.len() && fits(#[trigger] code1[i].body) implies body_ok(
                    code1[i].body,
                    code1[i].params.len(),
                    (i + 1) as nat,
                ) by {
                    if i < code.len() {
                        assert(code1[i] == code[i]);
                    }
                }
            }
        },
    }
}

proof fn lemma_defs_ok(env: Env, code: Seq<FunctionCodeV>, ds: Seq<DefV>)
    requires
        code_ok(code),
        env_ok(env, code.len()),
        code.len() + ds.len() <= usize::MAX,
    ensures
        ({
            let (env1, code1, r) = c_defs(env, code, ds);
            code_ok(code1) && env_ok(env1, code1.len()) && code1.len() <= code.len() + ds.len()
        }),
    decreases ds.len(),
{
    if ds.len() > 0 {
        lemma_defs_ok(env, code, ds.drop_last());
        let (env1, code1, r) = c_defs(env, code, ds.drop_last());
        if r is Ok {
            lemma_def_ok(env1, code1, ds.last());
        }
    }
}

/// Compiling keeps the code plan well formed: each function of the plan
/// (that fits in memory) uses only results of its earlier instructions, its
/// own parameters, itself and the functions compiled before it; and every
/// function name denotes a function of the plan, whether the program
/// compiles or not.
pub proof fn law_code_well_formed(env: Env, code: Seq<FunctionCodeV>, ds: Seq<DefV>)
    requires
        code_ok(code),
        env_ok(env, code.len()),
        code.len() + ds.len() <= usize::MAX,
    ensures
        ({
            let (env1, code1, r) = c_program(env, code, ds);
            code_ok(code1) && env_ok(env1, code1.len())
        }),
{
    lemma_defs_ok(env, code, ds);
}


// ---------------------------------------------------------------------------
// What a failed compilation leaves behind
/// `st2` holds every instruction of `st1` at its place, and every local
/// variable of `st1` with its place and type.
pub open spec fn appends(st1: FnState, st2: FnState) -> bool {
    grows(st1.body, st2.body) && st1.locals.submap_of(st2.locals)
}

proof fn lemma_appends_trans(a: FnState, b: FnState, c: FnState)
    requires
        appends(a, b),
        appends(b, c),
    ensures
        appends(a, c),
{
    lemma_grows_trans(a.body, b.body, c.body);
    lemma_submap_of_trans(a.locals, b.locals, c.locals);
}

proof fn lemma_emit_appends(st: FnState, i: InstV)
    ensures
        appends(st, emit(st, i)),
{
    assert(grows(st.body, st.body.push(i)));
}

proof fn lemma_ref_appends(st: FnState, r: RefV)
    ensures
        c_ref(st, r) matches Ok((_, st1)) ==> appends(st, st1) && st1.locals == st.locals,
        appends(st, ref_state(st, r)),
        ref_state(st, r).locals == st.locals,
    decreases r,
{
    lemma_ref_ok(st, r, 0, 0);
    if let RefV::Access(inner, _, _) = r {
        lemma_ref_appends(st, *inner);
    } else {
        assert(grows(st.body, st.body));
    }
}

/// The names of the variables that `e` declares.
pub open spec fn declared(e: ExprV) -> Set<Seq<char>>
    decreases e,
{
    match e {
        ExprV::Var(n, _) => set![n.text],
        ExprV::Print(x, _) => declared(*x),
        ExprV::Assign(_, x, _) => declared(*x),
        ExprV::Call(callee, _, args, _) => declared(*callee).union(declared_args(args)),
        ExprV::Add(l, _, r, _) => declared(*l).union(declared(*r)),
        _ => Set::empty(),
    }
}

/// The names of the variables that the arguments of a call declare.
pub open spec fn declared_args(args: Seq<SExprV>) -> Set<Seq<char>>
    decreases args,
{
    if args.len() == 0 {
        Set::empty()
    } else {
        declared_args(args.drop_last()).union(declared(args.last().expr))
    }
}

/// The names of the variables that the expressions of a body declare.
pub open spec fn declared_body(xs: Seq<ExprV>) -> Set<Seq<char>>
    decreases xs.len(),
{
    if xs.len() == 0 {
        Set::empty()
    } else {
        declared_body(xs.drop_last()).union(declared(xs.last()))
    }
}

/// Every local variable of `st2` was one of `st1` or has one of `names`.
pub open spec fn new_locals_in(st1: FnState, st2: FnState, names: Set<Seq<char>>) -> bool {
    forall|k: Seq<char>|
        #[trigger] st2.locals.contains_key(k) ==> st1.locals.contains_key(k) || names.contains(k)
}

proof fn lemma_expr_appends(env: Env, st: FnState, e: ExprV)
    ensures
        c_expr(env, st, e) matches Ok((_, st1)) ==> appends(st, st1) && new_locals_in(st, st1, declared(e)),
        appends(st, expr_state(env, st, e)),
        new_locals_in(st, expr_state(env, st, e), declared(e)),
    decreases e,
{
    lemma_expr_ok(env, st, e, 0, 0);
    assert(grows(st.body, st.body));
    match e {
        ExprV::Var(n, t) => {
            if let Ok(rt) = resolve(env.types, t) {
                lemma_emit_appends(st, InstV::Alloca(ll_of(rt), n.text));
            }
        },
        ExprV::Print(x, _) => {
            lemma_expr_appends(env, st, *x);
            if let Ok((v, st1)) = c_expr(env, st, *x) {
                lemma_emit_appends(st1, InstV::Print(v.value));
                lemma_appends_trans(st, st1, emit(st1, InstV::Print(v.value)));
            }
        },
        ExprV::Assign(r, x, _) => {
            lemma_ref_appends(st, r);
            if let Ok((rr, st1)) = c_ref(st, r) {
                lemma_expr_appends(env, st1, *x);
                lemma_appends_trans(st, st1, expr_state(env, st1, *x));
                if let Ok((v, st2)) = c_expr(env, st1, *x) {
                    lemma_appends_trans(st, st1, st2);
                    lemma_emit_appends(st2, InstV::Store(rr.ptr, v.value));
                    lemma_appends_trans(st, st2, emit(st2, InstV::Store(rr.ptr, v.value)));
                }
            }
        },
        ExprV::Deref(r) => {
            lemma_ref_appends(st, r);
            if let Ok((rr, st1)) = c_ref(st, r) {
                lemma_emit_appends(st1, InstV::Load(ll_of(rr.ty), rr.ptr));
                lemma_appends_trans(st, st1, emit(st1, InstV::Load(ll_of(rr.ty), rr.ptr)));
            }
        },
        ExprV::Call(callee, _, args, _) => {
            lemma_expr_appends(env, st, *callee);
            if let Ok((cv, st1)) = c_expr(env, st, *callee) {
                lemma_args_appends(env, st1, args);
                lemma_appends_trans(st, st1, args_state(env, st1, args));
                if let Ok((vals, _, st2)) = c_args(env, st1, args) {
                    lemma_appends_trans(st, st1, st2);
                    if let RawTypeV::FunPtr(ps, ret) = cv.ty {
                        let g = InstV::Call(ll_of(*ret), ll_of_all(ps), cv.value, vals);
                        lemma_emit_appends(st2, g);
                        lemma_appends_trans(st, st2, emit(st2, g));
                    }
                }
            }
        },
        ExprV::Add(l, _, r, _) => {
            lemma_expr_appends(env, st, *l);
            if let Ok((lv, st1)) = c_expr(env, st, *l) {
                lemma_expr_appends(env, st1, *r);
                lemma_appends_trans(st, st1, expr_state(env, st1, *r));
                if let Ok((rv, st2)) = c_expr(env, st1, *r) {
                    lemma_appends_trans(st, st1, st2);
                    lemma_emit_appends(st2, InstV::Add(lv.value, rv.value));
                    lemma_appends_trans(st, st2, emit(st2, InstV::Add(lv.value, rv.value)));
                }
            }
        },
        _ => {},
    }
}

proof fn lemma_args_appends(env: Env, st: FnState, args: Seq<SExprV>)
    ensures
        c_args(env, st, args) matches Ok((_, _, st1)) ==> appends(st, st1) && new_locals_in(
            st,
            st1,
            declared_args(args),
        ),
        appends(st, args_state(env, st, args)),
        new_locals_in(st, args_state(env, st, args), declared_args(args)),
    decreases args,
{
    assert(grows(st.body, st.body));
    if args.len() > 0 {
        lemma_args_appends(env, st, args.drop_last());
        if let Ok((_, _, st1)) = c_args(env, st, args.drop_last()) {
            lemma_expr_appends(env, st1, args.last().expr);
            lemma_appends_trans(st, st1, expr_state(env, st1, args.last().expr));
            if let Ok((_, st2)) = c_expr(env, st1, args.last().expr) {
                lemma_appends_trans(st, st1, st2);
            }
        }
    }
}

proof fn lemma_body_appends(env: Env, st: FnState, xs: Seq<ExprV>)
    ensures
        c_body(env, st, xs) matches Ok((_, st1)) ==> appends(st, st1) && new_locals_in(
            st,
            st1,
            declared_body(xs),
        ),
        appends(st, body_state(env, st, xs)),
        new_locals_in(st, body_state(env, st, xs), declared_body(xs)),
    decreases xs.len(),
{
    assert(grows(st.body, st.body));
    if xs.len() > 0 {
        lemma_body_appends(env, st, xs.drop_last());
        if let Ok((_, st1)) = c_body(env, st, xs.drop_last()) {
            lemma_expr_appends(env, st1, xs.last());
            lemma_appends_trans(st, st1, expr_state(env, st1, xs.last()));
            if let Ok((_, st2)) = c_expr(env, st1, xs.last()) {
                lemma_appends_trans(st, st1, st2);
            }
        }
    }
}

/// Compiling an expression only appends to the function being compiled,
/// whether it succeeds or stops at an error: the instructions emitted before
/// stay in place, every local variable declared before keeps its place and
/// its type, and each new local variable is one that the expression declares.
pub proof fn law_expression_only_appends(env: Env, st: FnState, e: ExprV)
    ensures
        appends(st, expr_state(env, st, e)),
        new_locals_in(st, expr_state(env, st, e), declared(e)),
        c_expr(env, st, e) matches Ok((_, st1)) ==> st1 == expr_state(env, st, e),
{
    lemma_expr_appends(env, st, e);
}

/// Compiling the expressions of a function body only appends to the
/// function, whether it succeeds or stops at an error; each new local
/// variable is one that the body declares.
pub proof fn law_body_only_appends(env: Env, st: FnState, xs: Seq<ExprV>)
    ensures
        appends(st, body_state(env, st, xs)),
        new_locals_in(st, body_state(env, st, xs), declared_body(xs)),
        c_body(env, st, xs) matches Ok((_, st1)) ==> st1 == body_state(env, st, xs),
{
    lemma_body_appends(env, st, xs);
}

// ---------------------------------------------------------------------------
// The table of struct types
/// Each struct that occurs in `t` is the entry of the type table under its
/// own name.
pub open spec fn from_table(types: Map<Seq<char>, RawTypeV>, t: RawTypeV) -> bool
    decreases t,
{
    match t {
        RawTypeV::Struct(n, _) => types.contains_key(n) && types[n] == t,
        RawTypeV::FunPtr(ps, r) => all_from_table(types, ps) && from_table(types, *r),
        _ => true,
    }
}

pub open spec fn all_from_table(types: Map<Seq<char>, RawTypeV>, ts: Seq<RawTypeV>) -> bool
    decreases ts,
{
    if ts.len() == 0 {
        true
    } else {
        all_from_table(types, ts.drop_last()) && from_table(types, ts.last())
    }
}

/// No two fields have the same name.
pub open spec fn names_distinct(fs: Seq<(Seq<char>, RawTypeV)>) -> bool {
    forall|i: int, j: int| 0 <= i < j < fs.len() ==> #[trigger] fs[i].0 != #[trigger] fs[j].0
}

/// The type of every field is built from the type table.
pub open spec fn fields_from_table(types: Map<Seq<char>, RawTypeV>, fs: Seq<(Seq<char>, RawTypeV)>) -> bool {
    forall|i: int| 0 <= i < fs.len() ==> from_table(types, #[trigger] fs[i].1)
}

/// Every entry of the type table is a struct under its own name, whose
/// fields have distinct names and types built from the table.
pub open spec fn table_ok(types: Map<Seq<char>, RawTypeV>) -> bool {
    forall|k: Seq<char>|
        #[trigger] types.contains_key(k) ==> match types[k] {
            RawTypeV::Struct(n, fs) => n == k && names_distinct(fs) && fields_from_table(types, fs),
            _ => false,
        }
}

proof fn lemma_from_table_extends(t1: Map<Seq<char>, RawTypeV>, t2: Map<Seq<char>, RawTypeV>, t: RawTypeV)
    requires
        t1.submap_of(t2),
        from_table(t1, t),
    ensures
        from_table(t2, t),
    decreases t,
{
    match t {
        RawTypeV::Struct(n, _) => {
            assert(t1.contains_key(n));
        },
        RawTypeV::FunPtr(ps, r) => {
            lemma_all_from_table_extends(t1, t2, ps);
            lemma_from_table_extends(t1, t2, *r);
        },
        _ => {},
    }
}

proof fn lemma_all_from_table_extends(
    t1: Map<Seq<char>, RawTypeV>,
    t2: Map<Seq<char>, RawTypeV>,
    ts: Seq<RawTypeV>,
)
    requires
        t1.submap_of(t2),
        all_from_table(t1, ts),
    ensures
        all_from_table(t2, ts),
    decreases ts,
{
    if ts.len() > 0 {
        lemma_all_from_table_extends(t1, t2, ts.drop_last());
        lemma_from_table_extends(t1, t2, ts.last());
    }
}

proof fn lemma_fields_from_table_extends(
    t1: Map<Seq<char>, RawTypeV>,
    t2: Map<Seq<char>, RawTypeV>,
    fs: Seq<(Seq<char>, RawTypeV)>,
)
    requires
        t1.submap_of(t2),
        fields_from_table(t1, fs),
    ensures
        fields_from_table(t2, fs),
{
    assert forall|i: int| 0 <= i < fs.len() implies from_table(t2, #[trigger] fs[i].1) by {
        lemma_from_table_extends(t1, t2, fs[i].1);
    }
}

pub(crate) proof fn lemma_resolve_from_table(types: Map<Seq<char>, RawTypeV>, t: TypeV)
    requires
        table_ok(types),
    ensures
        resolve(types, t) matches Ok(rt) ==> from_table(types, rt),
    decreases t,
{
    match t {
        TypeV::Named(n) => {
            if types.contains_key(n.text) {
                assert(types[n.text] is Struct);
            }
        },
        TypeV::Fun(ps, r) => {
            lemma_resolve_all_from_table(types, ps);
            lemma_resolve_from_table(types, *r);
        },
        _ => {},
    }
}

pub(crate) proof fn lemma_resolve_all_from_table(types: Map<Seq<char>, RawTypeV>, ts: Seq<TypeV>)
    requires
        table_ok(types),
    ensures
        resolve_all(types, ts) matches Ok(a) ==> all_from_table(types, a),
    decreases ts,
{
    if ts.len() > 0 {
        lemma_resolve_all_from_table(types, ts.drop_last());
        lemma_resolve_from_table(types, ts.last());
        if let Ok(a) = resolve_all(types, ts.drop_last()) {
            if let Ok(b) = resolve(types, ts.last()) {
                assert(a.push(b).drop_last() =~= a);
            }
        }
    }
}

proof fn lemma_fields_ok(types: Map<Seq<char>, RawTypeV>, bs: Seq<BindingV>)
    requires
        table_ok(types),
    ensures
        c_fields(types, bs) matches Ok(fs) ==> names_distinct(fs) && fields_from_table(types, fs),
    decreases bs.len(),
{
    if bs.len() > 0 {
        lemma_fields_ok(types, bs.drop_last());
        if let Ok(rfs) = c_fields(types, bs.drop_last()) {
            let f = bs.last();
            lemma_field_index_absent(rfs, f.name.text);
            lemma_resolve_from_table(types, f.ty);
            if let Ok(fs) = c_fields(types, bs) {
                assert(fs == rfs.push((f.name.text, fs.last().1)));
                assert forall|i: int, j: int| 0 <= i < j < fs.len() implies #[trigger] fs[i].0
                    != #[trigger] fs[j].0 by {
                    if j < rfs.len() {
                        assert(fs[i] == rfs[i] && fs[j] == rfs[j]);
                    } else {
                        assert(fs[i] == rfs[i]);
                    }
                }
                assert forall|i: int| 0 <= i < fs.len() implies from_table(types, #[trigger] fs[i].1) by {
                    if i < rfs.len() {
                        assert(fs[i] == rfs[i]);
                    }
                }
            }
        }
    }
}

proof fn lemma_struct_table_ok(env: Env, n: NameV, bs: Seq<BindingV>)
    requires
        table_ok(env.types),
    ensures
        table_ok(c_struct(env, n, bs).0.types),
{
    if !env.types.contains_key(n.text) {
        lemma_fields_ok(env.types, bs);
        if let Ok(rfs) = c_fields(env.types, bs) {
            let types = env.types;
            let types2 = types.insert(n.text, RawTypeV::Struct(n.text, rfs));
            assert(types.submap_of(types2));
            lemma_fields_from_table_extends(types, types2, rfs);
            assert forall|k: Seq<char>| #[trigger] types2.contains_key(k) implies match types2[k] {
                RawTypeV::Struct(m, fs) => m == k && names_distinct(fs) && fields_from_table(types2, fs),
                _ => false,
            } by {
                if k != n.text {
                    assert(types.contains_key(k));
                    if let RawTypeV::Struct(m, fs) = types[k] {
                        lemma_fields_from_table_extends(types, types2, fs);
                    }
                }
            }
        }
    }
}

proof fn lemma_defs_table_ok(env: Env, code: Seq<FunctionCodeV>, ds: Seq<DefV>)
    requires
        table_ok(env.types),
    ensures
        table_ok(c_defs(env, code, ds).0.types),
    decreases ds.len(),
{
    if ds.len() > 0 {
        lemma_defs_table_ok(env, code, ds.drop_last());
        let (env1, code1, r) = c_defs(env, code, ds.drop_last());
        if r is Ok {
            if let DefV::Struct(n, fs) = ds.last() {
                lemma_struct_table_ok(env1, n, fs);
            }
        }
    }
}

/// A struct definition adds one entry to the type table, under a name that
/// was not there before, and every struct that occurs in its fields was
/// already in the table: a struct is built only from structs defined before
/// it, so no struct contains itself.
pub proof fn law_struct_uses_earlier_structs(env: Env, n: NameV, fs: Seq<BindingV>)
    requires
        table_ok(env.types),
    ensures
        c_struct(env, n, fs).1 is Ok ==> {
            let types1 = c_struct(env, n, fs).0.types;
            &&& !env.types.contains_key(n.text)
            &&& types1 == env.types.insert(n.text, types1[n.text])
            &&& types1[n.text] matches RawTypeV::Struct(m, rfs) && m == n.text && fields_from_table(
                env.types,
                rfs,
            )
        },
{
    lemma_fields_ok(env.types, fs);
}

/// The type table only ever holds struct types, each under its own name,
/// with distinct field names, and with field types built from the structs
/// already in the table: compiling definitions, whether or not they all
/// compile, keeps it so.
pub proof fn law_type_table_well_formed(env: Env, code: Seq<FunctionCodeV>, ds: Seq<DefV>)
    requires
        table_ok(env.types),
    ensures
        table_ok(c_program(env, code, ds).0.types),
{
    lemma_defs_table_ok(env, code, ds);
}

/// Two struct types built from the type table are the same type exactly
/// when they have the same name: a name fixes the fields, so the order in
/// which fields are compared never decides whether two types agree.
pub proof fn law_struct_types_equal_by_name(types: Map<Seq<char>, RawTypeV>, t1: RawTypeV, t2: RawTypeV)
    requires
        from_table(types, t1),
        from_table(types, t2),
        t1 is Struct,
        t2 is Struct,
    ensures
        t1 == t2 <==> t1->Struct_0 == t2->Struct_0,
{
}

// ---------------------------------------------------------------------------
// Types from the table
/// The type of every function name is built from the type table.
pub open spec fn globals_from_table(env: Env) -> bool {
    forall|k: Seq<char>|
        #[trigger] env.globals.contains_key(k) ==> from_table(env.types, env.globals[k].ty)
}

/// The type of every local variable is built from the type table.
pub open spec fn locals_from_table(types: Map<Seq<char>, RawTypeV>, st: FnState) -> bool {
    forall|k: Seq<char>| #[trigger] st.locals.contains_key(k) ==> from_table(types, st.locals[k].ty)
}

/// The type table is well formed and every function name has a type built
/// from it.
pub open spec fn env_from_table(env: Env) -> bool {
    table_ok(env.types) && globals_from_table(env)
}

pub(crate) proof fn lemma_all_from_table_at(types: Map<Seq<char>, RawTypeV>, ts: Seq<RawTypeV>, i: int)
    requires
        all_from_table(types, ts),
        0 <= i < ts.len(),
    ensures
        from_table(types, ts[i]),
    decreases ts.len(),
{
    if i < ts.len() - 1 {
        assert(ts.drop_last()[i] == ts[i]);
        lemma_all_from_table_at(types, ts.drop_last(), i);
    }
}

/// Two types built from the table that are the same are equal.
pub(crate) proof fn lemma_same_type_eq(types: Map<Seq<char>, RawTypeV>, a: RawTypeV, b: RawTypeV)
    requires
        from_table(types, a),
        from_table(types, b),
        same_type(a, b),
    ensures
        a == b,
    decreases a,
{
    match a {
        RawTypeV::FunPtr(ps, r) => {
            if let RawTypeV::FunPtr(qs, s) = b {
                lemma_same_types_eq(types, ps, qs);
                lemma_same_type_eq(types, *r, *s);
            }
        },
        _ => {},
    }
}

pub(crate) proof fn lemma_same_types_eq(types: Map<Seq<char>, RawTypeV>, ps: Seq<RawTypeV>, qs: Seq<RawTypeV>)
    requires
        all_from_table(types, ps),
        all_from_table(types, qs),
        same_types(ps, qs),
    ensures
        ps == qs,
    decreases ps,
{
    if ps.len() > 0 {
        lemma_same_types_eq(types, ps.drop_last(), qs.drop_last());
        lemma_same_type_eq(types, ps.last(), qs.last());
        assert(ps =~= ps.drop_last().push(ps.last()));
        assert(qs =~= qs.drop_last().push(qs.last()));
    }
}

pub(crate) proof fn lemma_ref_from_table(types: Map<Seq<char>, RawTypeV>, st: FnState, r: RefV)
    requires
        table_ok(types),
        locals_from_table(types, st),
    ensures
        c_ref(st, r) matches Ok((rr, st1)) ==> from_table(types, rr.ty) && st1.locals == st.locals,
    decreases r,
{
    lemma_ref_ok(st, r, 0, 0);
    if let RefV::Access(inner, _, f) = r {
        lemma_ref_from_table(types, st, *inner);
        if let Ok((rr, st1)) = c_ref(st, *inner) {
            if let RawTypeV::Struct(n, fs) = rr.ty {
                lemma_field_index_none(fs, f.text);
                assert(types.contains_key(n));
            }
        }
    }
}

pub(crate) proof fn lemma_expr_from_table(env: Env, st: FnState, e: ExprV)
    requires
        env_from_table(env),
        locals_from_table(env.types, st),
    ensures
        c_expr(env, st, e) matches Ok((v, st1)) ==> from_table(env.types, v.ty) && locals_from_table(
            env.types,
            st1,
        ),
    decreases e,
{
    match e {
        ExprV::Global(n) => {
            if env.globals.contains_key(n.text) {
                assert(from_table(env.types, env.globals[n.text].ty));
            }
        },
        ExprV::Var(n, t) => {
            lemma_resolve_from_table(env.types, t);
        },
        ExprV::Print(x, _) => {
            lemma_expr_from_table(env, st, *x);
        },
        ExprV::Assign(r, x, _) => {
            lemma_ref_from_table(env.types, st, r);
            if let Ok((rr, st1)) = c_ref(st, r) {
                lemma_expr_from_table(env, st1, *x);
            }
        },
        ExprV::Deref(r) => {
            lemma_ref_from_table(env.types, st, r);
        },
        ExprV::Call(callee, _, args, _) => {
            lemma_expr_from_table(env, st, *callee);
            if let Ok((cv, st1)) = c_expr(env, st, *callee) {
                lemma_args_from_table(env, st1, args);
            }
        },
        ExprV::Add(l, _, r, _) => {
            lemma_expr_from_table(env, st, *l);
            if let Ok((lv, st1)) = c_expr(env, st, *l) {
                lemma_expr_from_table(env, st1, *r);
            }
        },
        _ => {},
    }
}

pub(crate) proof fn lemma_args_from_table(env: Env, st: FnState, args: Seq<SExprV>)
    requires
        env_from_table(env),
        locals_from_table(env.types, st),
    ensures
        c_args(env, st, args) matches Ok((_, tys, st1)) ==> locals_from_table(env.types, st1)
            && forall|k: int| 0 <= k < tys.len() ==> from_table(env.types, (#[trigger] tys[k]).0),
    decreases args,
{
    if args.len() > 0 {
        lemma_args_from_table(env, st, args.drop_last());
        if let Ok((vs, ts, st1)) = c_args(env, st, args.drop_last()) {
            lemma_expr_from_table(env, st1, args.last().expr);
            if let Ok((v, st2)) = c_expr(env, st1, args.last().expr) {
                let ts2 = ts.push((v.ty, args.last().span));
                assert forall|k: int| 0 <= k < ts2.len() implies from_table(env.types, (#[trigger] ts2[k]).0) by {
                    if k < ts.len() {
                        assert(ts2[k] == ts[k]);
                    }
                }
            }
        }
    }
}

pub(crate) proof fn lemma_body_from_table(env: Env, st: FnState, xs: Seq<ExprV>)
    requires
        env_from_table(env),
        locals_from_table(env.types, st),
    ensures
        c_body(env, st, xs) matches Ok((v, st1)) ==> from_table(env.types, v.ty) && locals_from_table(
            env.types,
            st1,
        ),
    decreases xs.len(),
{
    if xs.len() > 0 {
        lemma_body_from_table(env, st, xs.drop_last());
        if let Ok((_, st1)) = c_body(env, st, xs.drop_last()) {
            lemma_expr_from_table(env, st1, xs.last());
        }
    }
}

pub(crate) proof fn lemma_params_from_table(types: Map<Seq<char>, RawTypeV>, ps: Seq<BindingV>, rps: Seq<RawTypeV>)
    requires
        all_from_table(types, rps),
        ps.len() <= rps.len(),
    ensures
        c_params(ps, rps) matches Ok(st) ==> locals_from_table(types, st),
    decreases ps.len(),
{
    if ps.len() > 0 {
        lemma_params_from_table(types, ps.drop_last(), rps);
        lemma_all_from_table_at(types, rps, ps.len() - 1);
    }
}

/// The arguments that pass the check have the types of the parameters.
pub(crate) proof fn lemma_check_args_same(tys: Seq<(RawTypeV, Span)>, ps: Seq<RawTypeV>, k: int)
    requires
        0 <= k < tys.len(),
        check_args(tys, ps) is None,
    ensures
        same_type(tys[k].0, ps[k]),
    decreases tys.len(),
{
    if k < tys.len() - 1 {
        lemma_check_args_same(tys.drop_last(), ps, k);
    }
}

/// Compiling definitions keeps the type table well formed and the type of
/// every function name built from it.
pub(crate) proof fn lemma_defs_from_table(env: Env, code: Seq<FunctionCodeV>, ds: Seq<DefV>)
    requires
        env_from_table(env),
    ensures
        env_from_table(c_defs(env, code, ds).0),
    decreases ds.len(),
{
    if ds.len() > 0 {
        lemma_defs_from_table(env, code, ds.drop_last());
        let (env1, code1, r) = c_defs(env, code, ds.drop_last());
        if r is Ok {
            lemma_def_from_table(env1, code1, ds.last());
        }
    }
}

pub(crate) proof fn lemma_def_from_table(env: Env, code: Seq<FunctionCodeV>, d: DefV)
    requires
        env_from_table(env),
    ensures
        env_from_table(c_def(env, code, d).0),
{
    match d {
        DefV::Struct(n, fs) => {
            lemma_struct_table_ok(env, n, fs);
            let (env1, _) = c_struct(env, n, fs);
            assert(env.types.submap_of(env1.types));
            assert forall|k: Seq<char>| #[trigger] env1.globals.contains_key(k) implies from_table(
                env1.types,
                env1.globals[k].ty,
            ) by {
                lemma_from_table_extends(env.types, env1.types, env.globals[k].ty);
            }
        },
        DefV::Fun(n, ps, rt, body, span) => {
            let (env1, f, r) = c_fun(env, code.len(), n, ps, rt, body, span);
            lemma_resolve_all_from_table(env.types, binding_types(ps));
            lemma_resolve_from_table(env.types, rt);
            assert forall|k: Seq<char>| #[trigger] env1.globals.contains_key(k) implies from_table(
                env1.types,
                env1.globals[k].ty,
            ) by {
                if k != n.text {
                    assert(env.globals.contains_key(k));
                }
            }
        },
    }
}

/// Every type that compiling gives to a function name is built from the
/// type table, and the table stays well formed.
pub proof fn law_types_from_table(env: Env, code: Seq<FunctionCodeV>, ds: Seq<DefV>)
    requires
        env_from_table(env),
    ensures
        env_from_table(c_program(env, code, ds).0),
{
    lemma_defs_from_table(env, code, ds);
}

/// The number of fields of a struct type, or of parameters of a function
/// type; 0 for other types.
pub open spec fn field_count(t: RawTypeV) -> nat {
    match t {
        RawTypeV::Struct(_, fs) => fs.len(),
        RawTypeV::FunPtr(ps, _) => ps.len(),
        _ => 0,
    }
}

proof fn lemma_same_type_refl(types: Map<Seq<char>, RawTypeV>, a: RawTypeV)
    requires
        table_ok(types),
        from_table(types, a),
    ensures
        same_type(a, a),
    decreases a, field_count(a) + 2,
{
    match a {
        RawTypeV::FunPtr(ps, r) => {
            assert(ps =~= ps.take(ps.len() as int));
            lemma_same_types_refl(types, a, ps);
            lemma_same_type_refl(types, *r);
        },
        RawTypeV::Struct(n, fs) => {
            assert(types.contains_key(n));
            lemma_fields_in_refl(types, a, fs.len() as int);
            assert(fs.take(fs.len() as int) =~= fs);
        },
        _ => {},
    }
}

proof fn lemma_same_types_refl(types: Map<Seq<char>, RawTypeV>, a: RawTypeV, ps: Seq<RawTypeV>)
    requires
        table_ok(types),
        a matches RawTypeV::FunPtr(qs, _) && ps.len() <= qs.len() && ps == qs.take(ps.len() as int),
        all_from_table(types, a->FunPtr_0),
    ensures
        same_types(ps, ps),
    decreases a, ps.len() + 1,
{
    if ps.len() > 0 {
        let qs = a->FunPtr_0;
        assert(ps.drop_last() == qs.take(ps.len() - 1));
        lemma_same_types_refl(types, a, ps.drop_last());
        assert(ps.last() == qs[ps.len() - 1]);
        lemma_all_from_table_at(types, qs, ps.len() - 1);
        assert(decreases_to!(a => qs));
        assert(decreases_to!(qs => qs[ps.len() - 1]));
        lemma_same_type_refl(types, ps.last());
    }
}

proof fn lemma_fields_in_refl(types: Map<Seq<char>, RawTypeV>, a: RawTypeV, k: int)
    requires
        table_ok(types),
        from_table(types, a),
        a is Struct,
        0 <= k <= field_count(a),
    ensures
        fields_in(a->Struct_1.take(k), a->Struct_1),
    decreases a, k + 1,
{
    let fs = a->Struct_1;
    if k > 0 {
        assert(fs.take(k).drop_last() =~= fs.take(k - 1));
        assert(fs.take(k).last() == fs[k - 1]);
        lemma_fields_in_refl(types, a, k - 1);
        let n = a->Struct_0;
        assert(types.contains_key(n));
        assert(names_distinct(fs) && fields_from_table(types, fs));
        assert forall|j: int| 0 <= j < k - 1 implies (#[trigger] fs[j]).0 != fs[k - 1].0 by {
            assert(fs[j].0 != fs[k - 1].0);
        }
        lemma_field_index_first(fs, fs[k - 1].0, k - 1);
        assert(from_table(types, fs[k - 1].1));
        assert(decreases_to!(a => fs));
        assert(decreases_to!(fs => fs[k - 1]));
        lemma_same_type_refl(types, fs[k - 1].1);
    }
}

/// For the types the compiler makes (built from a well-formed type table),
/// being the same type is being equal: it is reflexive, symmetric and
/// transitive, and two struct types agree exactly when they are one type.
pub proof fn law_same_type_is_equality(types: Map<Seq<char>, RawTypeV>, a: RawTypeV, b: RawTypeV)
    requires
        table_ok(types),
        from_table(types, a),
        from_table(types, b),
    ensures
        same_type(a, b) <==> a == b,
        same_type(a, b) <==> same_type(b, a),
{
    lemma_same_type_refl(types, a);
    lemma_same_type_refl(types, b);
    if same_type(a, b) {
        lemma_same_type_eq(types, a, b);
    }
    if same_type(b, a) {
        lemma_same_type_eq(types, b, a);
    }
}

// ---------------------------------------------------------------------------
// Function names
/// Every function name denotes the function of the code plan that was
/// compiled under that name.
pub open spec fn globals_name_code(env: Env, code: Seq<FunctionCodeV>) -> bool {
    forall|k: Seq<char>|
        #[trigger] env.globals.contains_key(k) ==> (env.globals[k].ptr matches Value::Function(i)
            && i < code.len() && code[i as int].name == k)
}

proof fn lemma_def_names_code(env: Env, code: Seq<FunctionCodeV>, d: DefV)
    requires
        globals_name_code(env, code),
        code.len() < usize::MAX,
    ensures
        ({
            let (env1, code1, _) = c_def(env, code, d);
            globals_name_code(env1, code1) && code1.len() <= code.len() + 1
        }),
{
    if let DefV::Fun(n, ps, rt, body, span) = d {
        let (env1, f, r) = c_fun(env, code.len(), n, ps, rt, body, span);
        if let Some(fc) = f {
            let code1 = code.push(fc);
            assert forall|k: Seq<char>| #[trigger] env1.globals.contains_key(k) implies (
            env1.globals[k].ptr matches Value::Function(i) && i < code1.len() && code1[i as int].name
                == k) by {
                if k != n.text {
                    assert(env.globals.contains_key(k));
                    if let Value::Function(i) = env.globals[k].ptr {
                        assert(code1[i as int] == code[i as int]);
                    }
                }
            }
        }
    }
}

proof fn lemma_defs_names_code(env: Env, code: Seq<FunctionCodeV>, ds: Seq<DefV>)
    requires
        globals_name_code(env, code),
        code.len() + ds.len() <= usize::MAX,
    ensures
        ({
            let (env1, code1, _) = c_defs(env, code, ds);
            globals_name_code(env1, code1) && code1.len() <= code.len() + ds.len()
        }),
    decreases ds.len(),
{
    if ds.len() > 0 {
        lemma_defs_names_code(env, code, ds.drop_last());
        let (env1, code1, r) = c_defs(env, code, ds.drop_last());
        if r is Ok {
            lemma_def_names_code(env1, code1, ds.last());
        }
    }
}

/// Each function name denotes its own function: after compiling, whether or
/// not every definition compiles, the name of a function stands for the
/// function of the code plan at an index that holds the code compiled under
/// that very name.
pub proof fn law_globals_denote_their_functions(env: Env, code: Seq<FunctionCodeV>, ds: Seq<DefV>)
    requires
        globals_name_code(env, code),
        code.len() + ds.len() <= usize::MAX,
    ensures
        ({
            let (env1, code1, _) = c_program(env, code, ds);
            globals_name_code(env1, code1)
        }),
{
    lemma_defs_names_code(env, code, ds);
}

} // verus!
