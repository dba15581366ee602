//! The code plan is well typed: every instruction gets operands of the
//! low-level types it needs, so a code generator may emit it as it is.
use vstd::prelude::*;
use crate::ast::{BindingV, DefV, ExprV, NameV, RefV, SExprV, Span, TypeV};
use crate::compile::{lemma_field_index_none, lemma_resolve_all_len};
use crate::ir::{FunctionCodeV, InstV, Value};
use crate::laws::{
    all_from_table, env_from_table, fits, from_table, grows, lemma_all_from_table_at,
    lemma_args_from_table, lemma_args_ok, lemma_body_from_table, lemma_body_ok,
    lemma_check_args_same, lemma_def_from_table, lemma_expr_from_table, lemma_expr_ok,
    lemma_params_from_table, lemma_params_ok, lemma_ref_from_table, lemma_ref_ok,
    lemma_resolve_all_from_table, lemma_resolve_from_table, lemma_same_type_eq, locals_from_table,
};
use crate::semantics::{
    binding_types, c_args, c_body, c_def, c_defs, c_expr, c_fun, c_params, c_program, c_ref,
    c_struct, check_args, emit, field_index, next_reg, resolve, resolve_all, Env, FnState,
    RefInfo, ValInfo,
};
use crate::types::{ll_of, ll_of_all, ll_of_fields, same_type, LlTypeV, RawTypeV};

verus! {

/// The low-level type of an operand: a value of a type, or the address of a
/// place that holds a value of a type.
pub enum OperandType {
    Val(LlTypeV),
    PtrTo(LlTypeV),
}

/// The type of what an instruction gives, if it gives something.
pub open spec fn result_type(i: InstV) -> Option<OperandType> {
    match i {
        InstV::Alloca(t, _) => Some(OperandType::PtrTo(t)),
        InstV::Load(t, _) => Some(OperandType::Val(t)),
        InstV::StructGep(t, _, k) => match t {
            LlTypeV::Struct(fs) => if k < fs.len() {
                Some(OperandType::PtrTo(fs[k as int]))
            } else {
                None
            },
            _ => None,
        },
        InstV::Add(_, _) => Some(OperandType::Val(LlTypeV::I64)),
        InstV::Call(ret, _, _, _) => Some(OperandType::Val(ret)),
        _ => None,
    }
}

/// The type of an operand after the instructions `before`, in a function
/// whose parameters have the types `params`. Functions are untyped pointers.
pub open spec fn operand_type(v: Value, before: Seq<InstV>, params: Seq<LlTypeV>) -> Option<
    OperandType,
> {
    match v {
        Value::Reg(i) => if i < before.len() {
            result_type(before[i as int])
        } else {
            None
        },
        Value::Int(_) => Some(OperandType::Val(LlTypeV::I64)),
        Value::Unit => Some(OperandType::Val(LlTypeV::EmptyStruct)),
        Value::Function(_) => Some(OperandType::Val(LlTypeV::Ptr)),
        Value::Param(i) => if i < params.len() {
            Some(OperandType::Val(params[i as int]))
        } else {
            None
        },
    }
}

/// The operand is a value of type `t`.
pub open spec fn has_type(v: Value, before: Seq<InstV>, params: Seq<LlTypeV>, t: LlTypeV) -> bool {
    operand_type(v, before, params) == Some(OperandType::Val(t))
}

/// The operand is the address of a place of type `t`.
pub open spec fn points_to(v: Value, before: Seq<InstV>, params: Seq<LlTypeV>, t: LlTypeV) -> bool {
    operand_type(v, before, params) == Some(OperandType::PtrTo(t))
}

/// An instruction's operands have the types it needs, in a function that
/// returns `ret`.
pub open spec fn inst_typed(i: InstV, before: Seq<InstV>, params: Seq<LlTypeV>, ret: LlTypeV) -> bool {
    match i {
        InstV::Alloca(_, _) => true,
        InstV::Store(p, v) => match operand_type(v, before, params) {
            Some(OperandType::Val(t)) => points_to(p, before, params, t),
            _ => false,
        },
        InstV::Load(t, p) => points_to(p, before, params, t),
        InstV::StructGep(t, p, k) => points_to(p, before, params, t) && (t matches LlTypeV::Struct(
            fs,
        ) && k < fs.len()),
        InstV::Add(a, b) => has_type(a, before, params, LlTypeV::I64) && has_type(
            b,
            before,
            params,
            LlTypeV::I64,
        ),
        InstV::Print(v) => has_type(v, before, params, LlTypeV::I64),
        InstV::Call(_, ps, c, args) => has_type(c, before, params, LlTypeV::Ptr) && args.len()
            == ps.len() && forall|k: int|
            0 <= k < args.len() ==> has_type(#[trigger] args[k], before, params, ps[k]),
        InstV::Return(v) => has_type(v, before, params, ret),
    }
}

/// Every instruction of `body` is well typed.
pub open spec fn body_typed(body: Seq<InstV>, params: Seq<LlTypeV>, ret: LlTypeV) -> bool {
    forall|j: int|
        0 <= j < body.len() ==> inst_typed(#[trigger] body[j], body.take(j), params, ret)
}

/// Every function of the plan that fits in memory is well typed.
pub open spec fn code_typed(code: Seq<FunctionCodeV>) -> bool {
    forall|i: int|
        0 <= i < code.len() && fits(#[trigger] code[i].body) ==> body_typed(
            code[i].body,
            code[i].params,
            code[i].ret,
        )
}

/// Every function name denotes a function and has a function type, built,
/// like every type of the table, from the table.
pub open spec fn env_typed(env: Env) -> bool {
    &&& forall|k: Seq<char>|
        #[trigger] env.globals.contains_key(k) ==> env.globals[k].ptr is Function
            && env.globals[k].ty is FunPtr
    &&& env_from_table(env)
}

/// The code emitted so far is well typed, and every local variable is the
/// address of a place of its type.
pub open spec fn state_typed(st: FnState, params: Seq<LlTypeV>, ret: LlTypeV) -> bool {
    &&& body_typed(st.body, params, ret)
    &&& forall|k: Seq<char>|
        #[trigger] st.locals.contains_key(k) ==> points_to(
            st.locals[k].ptr,
            st.body,
            params,
            ll_of(st.locals[k].ty),
        )
}

proof fn lemma_type_grows(v: Value, b1: Seq<InstV>, b2: Seq<InstV>, params: Seq<LlTypeV>)
    requires
        operand_type(v, b1, params) is Some,
        grows(b1, b2),
    ensures
        operand_type(v, b2, params) == operand_type(v, b1, params),
{
    if let Value::Reg(i) = v {
        assert(b2[i as int] == b1[i as int]);
    }
}

proof fn lemma_emit_typed(st: FnState, i: InstV, params: Seq<LlTypeV>, ret: LlTypeV)
    requires
        state_typed(st, params, ret),
        inst_typed(i, st.body, params, ret),
    ensures
        state_typed(emit(st, i), params, ret),
        emit(st, i).body[st.body.len() as int] == i,
        grows(st.body, emit(st, i).body),
{
    let b = st.body;
    let b2 = b.push(i);
    assert(grows(b, b2));
    assert forall|j: int| 0 <= j < b2.len() implies inst_typed(
        #[trigger] b2[j],
        b2.take(j),
        params,
        ret,
    ) by {
        if j < b.len() {
            assert(b2.take(j) =~= b.take(j));
        } else {
            assert(b2.take(j) =~= b);
        }
    }
    assert forall|k: Seq<char>| #[trigger] st.locals.contains_key(k) implies points_to(
        st.locals[k].ptr,
        b2,
        params,
        ll_of(st.locals[k].ty),
    ) by {
        lemma_type_grows(st.locals[k].ptr, b, b2, params);
    }
}

/// A new local variable at a place of its type.
proof fn lemma_bind_typed(st: FnState, name: Seq<char>, info: RefInfo, params: Seq<LlTypeV>, ret: LlTypeV)
    requires
        state_typed(st, params, ret),
        points_to(info.ptr, st.body, params, ll_of(info.ty)),
    ensures
        state_typed(FnState { locals: st.locals.insert(name, info), body: st.body }, params, ret),
{
    let st2 = FnState { locals: st.locals.insert(name, info), body: st.body };
    assert forall|k: Seq<char>| #[trigger] st2.locals.contains_key(k) implies points_to(
        st2.locals[k].ptr,
        st2.body,
        params,
        ll_of(st2.locals[k].ty),
    ) by {
        if k != name {
            assert(st.locals.contains_key(k));
        }
    }
}

pub open spec fn ref_typed(st: FnState, out: (RefInfo, FnState), params: Seq<LlTypeV>, ret: LlTypeV) -> bool {
    state_typed(st, params, ret) && fits(out.1.body) ==> state_typed(out.1, params, ret) && points_to(
        out.0.ptr,
        out.1.body,
        params,
        ll_of(out.0.ty),
    )
}

pub open spec fn expr_typed(
    env: Env,
    st: FnState,
    out: (ValInfo, FnState),
    params: Seq<LlTypeV>,
    ret: LlTypeV,
) -> bool {
    state_typed(st, params, ret) && env_typed(env) && locals_from_table(env.types, st) && fits(
        out.1.body,
    ) ==> state_typed(out.1, params, ret) && has_type(out.0.value, out.1.body, params, ll_of(out.0.ty))
}

pub open spec fn args_typed(
    env: Env,
    st: FnState,
    out: (Seq<Value>, Seq<(RawTypeV, Span)>, FnState),
    params: Seq<LlTypeV>,
    ret: LlTypeV,
) -> bool {
    &&& out.0.len() == out.1.len()
    &&& state_typed(st, params, ret) && env_typed(env) && locals_from_table(env.types, st) && fits(
        out.2.body,
    ) ==> state_typed(
        out.2,
        params,
        ret,
    ) && forall|k: int|
        0 <= k < out.0.len() ==> has_type(#[trigger] out.0[k], out.2.body, params, ll_of(out.1[k].0))
}

proof fn lemma_ref_typed(st: FnState, r: RefV, params: Seq<LlTypeV>, ret: LlTypeV)
    ensures
        c_ref(st, r) is Ok ==> ref_typed(st, c_ref(st, r)->Ok_0, params, ret),
    decreases r,
{
    if let RefV::Access(inner, _, f) = r {
        lemma_ref_typed(st, *inner, params, ret);
        lemma_ref_ok(st, *inner, 0, 0);
        if let Ok((rr, st1)) = c_ref(st, *inner) {
            if let RawTypeV::Struct(_, fs) = rr.ty {
                if let Some(i) = field_index(fs, f.text) {
                    lemma_field_index_none(fs, f.text);
                    let g = InstV::StructGep(ll_of(rr.ty), rr.ptr, i as nat);
                    let st2 = emit(st1, g);
                    if state_typed(st, params, ret) && fits(st2.body) {
                        assert(ll_of_fields(fs)[i] == ll_of(fs[i].1));
                        lemma_emit_typed(st1, g, params, ret);
                    }
                }
            }
        }
    }
}

proof fn lemma_expr_typed(env: Env, st: FnState, e: ExprV, params: Seq<LlTypeV>, ret: LlTypeV)
    ensures
        c_expr(env, st, e) is Ok ==> expr_typed(env, st, c_expr(env, st, e)->Ok_0, params, ret),
    decreases e,
{
    let pre = state_typed(st, params, ret) && env_typed(env) && locals_from_table(env.types, st);
    if pre {
        lemma_expr_from_table(env, st, e);
    }
    match e {
        ExprV::Int(_) => {},
        ExprV::Global(n) => {
            if env.globals.contains_key(n.text) {
                assert(env_typed(env) ==> env.globals[n.text].ty is FunPtr);
            }
        },
        ExprV::Var(n, t) => {
            if let Ok(rt) = resolve(env.types, t) {
                let a = InstV::Alloca(ll_of(rt), n.text);
                let st1 = emit(st, a);
                if pre && fits(st1.body) {
                    lemma_emit_typed(st, a, params, ret);
                    lemma_bind_typed(st1, n.text, RefInfo { ptr: next_reg(st), ty: rt }, params, ret);
                }
            }
        },
        ExprV::Print(x, _) => {
            lemma_expr_typed(env, st, *x, params, ret);
            if pre {
                lemma_expr_from_table(env, st, *x);
            }
            if let Ok((v, st1)) = c_expr(env, st, *x) {
                let st2 = emit(st1, InstV::Print(v.value));
                if pre && fits(st2.body) && same_type(v.ty, RawTypeV::Int) {
                    assert(v.ty == RawTypeV::Int);
                    lemma_emit_typed(st1, InstV::Print(v.value), params, ret);
                }
            }
        },
        ExprV::Assign(r, x, _) => {
            lemma_ref_typed(st, r, params, ret);
            lemma_ref_ok(st, r, 0, 0);
            if pre {
                lemma_ref_from_table(env.types, st, r);
            }
            if let Ok((rr, st1)) = c_ref(st, r) {
                lemma_expr_typed(env, st1, *x, params, ret);
                lemma_expr_ok(env, st1, *x, 0, 0);
                if pre {
                    lemma_expr_from_table(env, st1, *x);
                }
                if let Ok((v, st2)) = c_expr(env, st1, *x) {
                    let g = InstV::Store(rr.ptr, v.value);
                    let st3 = emit(st2, g);
                    if pre && fits(st3.body) && same_type(rr.ty, v.ty) {
                        lemma_same_type_eq(env.types, rr.ty, v.ty);
                        lemma_type_grows(rr.ptr, st1.body, st2.body, params);
                        lemma_emit_typed(st2, g, params, ret);
                    }
                }
            }
        },
        ExprV::Deref(r) => {
            lemma_ref_typed(st, r, params, ret);
            if let Ok((rr, st1)) = c_ref(st, r) {
                let g = InstV::Load(ll_of(rr.ty), rr.ptr);
                let st2 = emit(st1, g);
                if pre && fits(st2.body) {
                    lemma_emit_typed(st1, g, params, ret);
                }
            }
        },
        ExprV::Call(callee, _, args, _) => {
            lemma_expr_typed(env, st, *callee, params, ret);
            lemma_expr_ok(env, st, *callee, 0, 0);
            if pre {
                lemma_expr_from_table(env, st, *callee);
            }
            if let Ok((cv, st1)) = c_expr(env, st, *callee) {
                lemma_args_typed(env, st1, args, params, ret);
                if pre {
                    lemma_args_from_table(env, st1, args);
                }
                lemma_args_ok(env, st1, args, 0, 0);
                if let RawTypeV::FunPtr(ps, r) = cv.ty {
                    if let Ok((vals, tys, st2)) = c_args(env, st1, args) {
                        if tys.len() == ps.len() && check_args(tys, ps) is None {
                            let g = InstV::Call(ll_of(*r), ll_of_all(ps), cv.value, vals);
                            let st3 = emit(st2, g);
                            if pre && fits(st3.body) {
                                lemma_type_grows(cv.value, st1.body, st2.body, params);
                                assert forall|k: int| 0 <= k < vals.len() implies has_type(
                                    #[trigger] vals[k],
                                    st2.body,
                                    params,
                                    ll_of_all(ps)[k],
                                ) by {
                                    lemma_check_args_same(tys, ps, k);
                                    lemma_all_from_table_at(env.types, ps, k);
                                    lemma_same_type_eq(env.types, tys[k].0, ps[k]);
                                }
                                lemma_emit_typed(st2, g, params, ret);
                            }
                        }
                    }
                }
            }
        },
        ExprV::Add(l, _, r, _) => {
            lemma_expr_typed(env, st, *l, params, ret);
            lemma_expr_ok(env, st, *l, 0, 0);
            if pre {
                lemma_expr_from_table(env, st, *l);
            }
            if let Ok((lv, st1)) = c_expr(env, st, *l) {
                lemma_expr_typed(env, st1, *r, params, ret);
                lemma_expr_ok(env, st1, *r, 0, 0);
                if let Ok((rv, st2)) = c_expr(env, st1, *r) {
                    let g = InstV::Add(lv.value, rv.value);
                    let st3 = emit(st2, g);
                    if pre && fits(st3.body) && same_type(lv.ty, RawTypeV::Int) && same_type(
                        rv.ty,
                        RawTypeV::Int,
                    ) {
                        assert(lv.ty == RawTypeV::Int && rv.ty == RawTypeV::Int);
                        lemma_type_grows(lv.value, st1.body, st2.body, params);
                        lemma_emit_typed(st2, g, params, ret);
                    }
                }
            }
        },
    }
}

proof fn lemma_args_typed(env: Env, st: FnState, args: Seq<SExprV>, params: Seq<LlTypeV>, ret: LlTypeV)
    ensures
        c_args(env, st, args) is Ok ==> args_typed(env, st, c_args(env, st, args)->Ok_0, params, ret),
    decreases args,
{
    if args.len() > 0 {
        lemma_args_typed(env, st, args.drop_last(), params, ret);
        lemma_args_ok(env, st, args.drop_last(), 0, 0);
        if let Ok((vs, ts, st1)) = c_args(env, st, args.drop_last()) {
            lemma_expr_typed(env, st1, args.last().expr, params, ret);
            lemma_expr_ok(env, st1, args.last().expr, 0, 0);
            if env_typed(env) && locals_from_table(env.types, st) {
                lemma_args_from_table(env, st, args.drop_last());
            }
            if let Ok((v, st2)) = c_expr(env, st1, args.last().expr) {
                if state_typed(st, params, ret) && env_typed(env) && locals_from_table(env.types, st)
                    && fits(st2.body) {
                    let vs2 = vs.push(v.value);
                    let ts2 = ts.push((v.ty, args.last().span));
                    assert forall|k: int| 0 <= k < vs2.len() implies has_type(
                        #[trigger] vs2[k],
                        st2.body,
                        params,
                        ll_of(ts2[k].0),
                    ) by {
                        if k < vs.len() {
                            lemma_type_grows(vs[k], st1.body, st2.body, params);
                        }
                    }
                }
            }
        }
    }
}

proof fn lemma_body_typed(env: Env, st: FnState, xs: Seq<ExprV>, params: Seq<LlTypeV>, ret: LlTypeV)
    ensures
        c_body(env, st, xs) is Ok ==> expr_typed(env, st, c_body(env, st, xs)->Ok_0, params, ret),
    decreases xs.len(),
{
    if xs.len() > 0 {
        lemma_body_typed(env, st, xs.drop_last(), params, ret);
        lemma_body_ok(env, st, xs.drop_last(), 0, 0);
        if env_typed(env) && locals_from_table(env.types, st) {
            lemma_body_from_table(env, st, xs.drop_last());
        }
        if let Ok((_, st1)) = c_body(env, st, xs.drop_last()) {
            lemma_expr_typed(env, st1, xs.last(), params, ret);
            lemma_expr_ok(env, st1, xs.last(), 0, 0);
        }
    }
}

proof fn lemma_params_typed(ps: Seq<BindingV>, rps: Seq<RawTypeV>, ret: LlTypeV)
    requires
        ps.len() <= rps.len(),
    ensures
        c_params(ps, rps) matches Ok(st) ==> (fits(st.body) ==> state_typed(
            st,
            ll_of_all(rps),
            ret,
        )),
    decreases ps.len(),
{
    let params = ll_of_all(rps);
    lemma_params_ok(ps, rps, 0, 0);
    if ps.len() > 0 {
        lemma_params_typed(ps.drop_last(), rps, ret);
        lemma_params_ok(ps.drop_last(), rps, 0, 0);
        if let Ok(st) = c_params(ps.drop_last(), rps) {
            let i = ps.len() - 1;
            let slot = next_reg(st);
            let a = InstV::Alloca(ll_of(rps[i]), "param"@);
            let st1 = emit(st, a);
            let info = RefInfo { ptr: slot, ty: rps[i] };
            let sti = FnState { locals: st.locals.insert(ps[i].name.text, info), body: st1.body };
            let g = InstV::Store(slot, Value::Param(i as usize));
            if st.body.len() + 2 <= usize::MAX {
                lemma_emit_typed(st, a, params, ret);
                lemma_bind_typed(st1, ps[i].name.text, info, params, ret);
                assert(params[i] == ll_of(rps[i]));
                lemma_emit_typed(sti, g, params, ret);
            }
        }
    }
}

/// What compiling a function definition keeps: every function name has a
/// function type, and the new function's code is well typed when it fits.
proof fn lemma_fun_typed(
    env: Env,
    index: nat,
    n: NameV,
    ps: Seq<BindingV>,
    rt: TypeV,
    body: Seq<ExprV>,
    span: Span,
)
    requires
        env_typed(env),
    ensures
        ({
            let (env1, f, r) = c_fun(env, index, n, ps, rt, body, span);
            &&& env_typed(env1)
            &&& f matches Some(fc) ==> (fits(fc.body) ==> body_typed(fc.body, fc.params, fc.ret))
        }),
{
    let (env1, f, r) = c_fun(env, index, n, ps, rt, body, span);
    if let Some(fc) = f {
        let bts = binding_types(ps);
        let rps = resolve_all(env.types, bts)->Ok_0;
        let rr = resolve(env.types, rt)->Ok_0;
        lemma_resolve_all_len(env.types, bts);
        assert forall|k: Seq<char>| #[trigger] env1.globals.contains_key(k) implies env1.globals[k].ptr
            is Function && env1.globals[k].ty is FunPtr by {
            if k != n.text {
                assert(env.globals.contains_key(k));
            }
        }
        lemma_resolve_all_from_table(env.types, bts);
        lemma_resolve_from_table(env.types, rt);
        assert forall|k: Seq<char>| #[trigger] env1.globals.contains_key(k) implies from_table(
            env1.types,
            env1.globals[k].ty,
        ) by {
            if k != n.text {
                assert(env.globals.contains_key(k));
            }
        }
        assert(env_from_table(env1));
        if r is Ok {
            let params = ll_of_all(rps);
            let st = c_params(ps, rps)->Ok_0;
            lemma_params_typed(ps, rps, ll_of(rr));
            lemma_params_ok(ps, rps, 0, 0);
            lemma_params_from_table(env.types, ps, rps);
            lemma_body_typed(env1, st, body, params, ll_of(rr));
            lemma_body_ok(env1, st, body, 0, 0);
            lemma_body_from_table(env1, st, body);
            let (v, st2) = c_body(env1, st, body)->Ok_0;
            lemma_same_type_eq(env.types, v.ty, rr);
            if fits(fc.body) {
                lemma_emit_typed(st2, InstV::Return(v.value), params, ll_of(rr));
            }
        }
    }
}

proof fn lemma_def_typed(env: Env, code: Seq<FunctionCodeV>, d: DefV)
    requires
        code_typed(code),
        env_typed(env),
    ensures
        ({
            let (env1, code1, r) = c_def(env, code, d);
            code_typed(code1) && env_typed(env1)
        }),
{
    match d {
        DefV::Struct(n, fs) => {
            lemma_def_from_table(env, code, d);
            let (env1, r) = c_struct(env, n, fs);
            assert forall|k: Seq<char>| #[trigger] env1.globals.contains_key(k) implies env1.globals[k].ptr
                is Function && env1.globals[k].ty is FunPtr by {
                assert(env.globals.contains_key(k));
            }
        },
        DefV::Fun(n, ps, rt, body, span) => {
            lemma_fun_typed(env, code.len(), n, ps, rt, body, span);
            let (env1, f, r) = c_fun(env, code.len(), n, ps, rt, body, span);
            if let Some(fc) = f {
                let code1 = code.push(fc);
                assert forall|i: int|
                    0 <= i < code1.len() && fits(#[trigger] code1[i].body) implies body_typed(
                    code1[i].body,
                    code1[i].params,
                    code1[i].ret,
                ) by {
                    if i < code.len() {
                        assert(code1[i] == code[i]);
                    }
                }
            }
        },
    }
}

proof fn lemma_defs_typed(env: Env, code: Seq<FunctionCodeV>, ds: Seq<DefV>)
    requires
        code_typed(code),
        env_typed(env),
    ensures
        ({
            let (env1, code1, r) = c_defs(env, code, ds);
            code_typed(code1) && env_typed(env1)
        }),
    decreases ds.len(),
{
    if ds.len() > 0 {
        lemma_defs_typed(env, code, ds.drop_last());
        let (env1, code1, r) = c_defs(env, code, ds.drop_last());
        if r is Ok {
            lemma_def_typed(env1, code1, ds.last());
        }
    }
}

/// Compiling keeps the code plan well typed: in each function of the plan
/// (that fits in memory) every instruction gets operands of the low-level
/// types it needs and returns a value of the function's return type; and
/// every function name keeps a function type.
pub proof fn law_code_well_typed(env: Env, code: Seq<FunctionCodeV>, ds: Seq<DefV>)
    requires
        code_typed(code),
        env_typed(env),
    ensures
        ({
            let (env1, code1, r) = c_program(env, code, ds);
            code_typed(code1) && env_typed(env1)
        }),
{
    lemma_defs_typed(env, code, ds);
}

} // verus!
