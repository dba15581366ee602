//! What compiling a program means: which programs are accepted, the first
//! error of those that are not, and the code plan of those that are.
//!
//! Everything is checked in source order and the first error stops
//! compilation. Definitions are compiled one after the other: a struct may
//! use the structs defined before it, a function may call any function
//! defined before it and itself.
use vstd::prelude::*;
use crate::ast::{BindingV, DefV, ExprV, NameV, RefV, SExprV, Span, TypeV};
use crate::ir::{FunctionCodeV, InstV, Value};
use crate::types::{ll_of, ll_of_all, same_type, type_text, RawTypeV};

verus! {

/// An error: where, and what.
pub struct ErrV {
    pub span: Span,
    pub msg: Seq<char>,
}

pub open spec fn err(span: Span, msg: Seq<char>) -> ErrV {
    ErrV { span, msg }
}

/// The error for a value of type `found` where `expected` is required.
pub open spec fn mismatch(found: RawTypeV, expected: RawTypeV, span: Span) -> ErrV {
    ErrV { span, msg: "type mismatch "@ + type_text(found) + " and "@ + type_text(expected) }
}

/// A place in memory that holds a value of type `ty`.
pub struct RefInfo {
    pub ptr: Value,
    pub ty: RawTypeV,
}

/// A value of type `ty`.
pub struct ValInfo {
    pub value: Value,
    pub ty: RawTypeV,
}

/// The definitions seen so far: struct types by name, and functions by name.
pub struct Env {
    pub types: Map<Seq<char>, RawTypeV>,
    pub globals: Map<Seq<char>, RefInfo>,
}

/// The state of the function being compiled: its local variables and the
/// instructions emitted so far.
pub struct FnState {
    pub locals: Map<Seq<char>, RefInfo>,
    pub body: Seq<InstV>,
}

/// The state after appending the instruction `i` to the body.
pub open spec fn emit(st: FnState, i: InstV) -> FnState {
    FnState { locals: st.locals, body: st.body.push(i) }
}

/// The value produced by the instruction that is emitted next.
pub open spec fn next_reg(st: FnState) -> Value {
    Value::Reg(st.body.len() as usize)
}

pub open spec fn unit_val() -> ValInfo {
    ValInfo { value: Value::Unit, ty: RawTypeV::Unit }
}

// ---------------------------------------------------------------------------
// Types
/// The resolved form of a source type.
pub open spec fn resolve(types: Map<Seq<char>, RawTypeV>, t: TypeV) -> Result<RawTypeV, ErrV>
    decreases t,
{
    match t {
        TypeV::Int => Ok(RawTypeV::Int),
        TypeV::Unit => Ok(RawTypeV::Unit),
        TypeV::Named(n) => if types.contains_key(n.text) {
            Ok(types[n.text])
        } else {
            Err(err(n.span, "undefined type"@))
        },
        TypeV::Fun(ps, r) => match resolve_all(types, ps) {
            Ok(rps) => match resolve(types, *r) {
                Ok(rr) => Ok(RawTypeV::FunPtr(rps, Box::new(rr))),
                Err(e) => Err(e),
            },
            Err(e) => Err(e),
        },
    }
}

/// The resolved forms of several types, or the error of the first that fails.
pub open spec fn resolve_all(types: Map<Seq<char>, RawTypeV>, ts: Seq<TypeV>) -> Result<
    Seq<RawTypeV>,
    ErrV,
>
    decreases ts,
{
    if ts.len() == 0 {
        Ok(seq![])
    } else {
        match resolve_all(types, ts.drop_last()) {
            Ok(a) => match resolve(types, ts.last()) {
                Ok(b) => Ok(a.push(b)),
                Err(e) => Err(e),
            },
            Err(e) => Err(e),
        }
    }
}

/// The index of the field called `name`.
pub open spec fn field_index(fs: Seq<(Seq<char>, RawTypeV)>, name: Seq<char>) -> Option<int>
    decreases fs.len(),
{
    if fs.len() == 0 {
        None
    } else if fs[0].0 == name {
        Some(0)
    } else {
        match field_index(fs.drop_first(), name) {
            Some(i) => Some(i + 1),
            None => None,
        }
    }
}

// ---------------------------------------------------------------------------
// References and expressions
/// The place a reference denotes. A field access emits the address
/// computation of the field.
pub open spec fn c_ref(st: FnState, r: RefV) -> Result<(RefInfo, FnState), ErrV>
    decreases r,
{
    match r {
        RefV::Var(n) => if st.locals.contains_key(n.text) {
            Ok((st.locals[n.text], st))
        } else {
            Err(err(n.span, "undefined variable"@))
        },
        RefV::Access(inner, inner_span, f) => match c_ref(st, *inner) {
            Ok((rr, st1)) => match rr.ty {
                RawTypeV::Struct(_, fs) => match field_index(fs, f.text) {
                    Some(i) => Ok(
                        (
                            RefInfo { ptr: next_reg(st1), ty: fs[i].1 },
                            emit(st1, InstV::StructGep(ll_of(rr.ty), rr.ptr, i as nat)),
                        ),
                    ),
                    None => Err(err(f.span, "no field"@)),
                },
                _ => Err(err(inner_span, "not an struct"@)),
            },
            Err(e) => Err(e),
        },
    }
}

/// The value of an expression, and the state after emitting its code.
pub open spec fn c_expr(env: Env, st: FnState, e: ExprV) -> Result<(ValInfo, FnState), ErrV>
    decreases e,
{
    match e {
        ExprV::Int(v) => Ok((ValInfo { value: Value::Int(v), ty: RawTypeV::Int }, st)),
        ExprV::Global(n) => if env.globals.contains_key(n.text) {
            Ok((ValInfo { value: env.globals[n.text].ptr, ty: env.globals[n.text].ty }, st))
        } else {
            Err(err(n.span, "undefined global variable"@))
        },
        ExprV::Var(n, t) => match resolve(env.types, t) {
            Ok(rt) => {
                let st1 = emit(st, InstV::Alloca(ll_of(rt), n.text));
                if st.locals.contains_key(n.text) {
                    Err(err(n.span, "variable redefinition"@))
                } else {
                    Ok(
                        (
                            unit_val(),
                            FnState {
                                locals: st.locals.insert(n.text, RefInfo { ptr: next_reg(st), ty: rt }),
                                body: st1.body,
                            },
                        ),
                    )
                }
            },
            Err(e) => Err(e),
        },
        ExprV::Print(x, span) => match c_expr(env, st, *x) {
            Ok((v, st1)) => if !same_type(v.ty, RawTypeV::Int) {
                Err(mismatch(v.ty, RawTypeV::Int, span))
            } else {
                Ok((unit_val(), emit(st1, InstV::Print(v.value))))
            },
            Err(e) => Err(e),
        },
        ExprV::Assign(r, x, span) => match c_ref(st, r) {
            Ok((rr, st1)) => match c_expr(env, st1, *x) {
                Ok((v, st2)) => if !same_type(rr.ty, v.ty) {
                    Err(mismatch(rr.ty, v.ty, span))
                } else {
                    Ok((unit_val(), emit(st2, InstV::Store(rr.ptr, v.value))))
                },
                Err(e) => Err(e),
            },
            Err(e) => Err(e),
        },
        ExprV::Deref(r) => match c_ref(st, r) {
            Ok((rr, st1)) => Ok(
                (
                    ValInfo { value: next_reg(st1), ty: rr.ty },
                    emit(st1, InstV::Load(ll_of(rr.ty), rr.ptr)),
                ),
            ),
            Err(e) => Err(e),
        },
        ExprV::Call(callee, callee_span, args, args_span) => match c_expr(env, st, *callee) {
            Ok((cv, st1)) => match cv.ty {
                RawTypeV::FunPtr(ps, ret) => match c_args(env, st1, args) {
                    Ok((vals, tys, st2)) => if tys.len() != ps.len() {
                        Err(err(args_span, "the number of arguments does not match"@))
                    } else {
                        match check_args(tys, ps) {
                            Some(e) => Err(e),
                            None => Ok(
                                (
                                    ValInfo { value: next_reg(st2), ty: *ret },
                                    emit(st2, InstV::Call(ll_of(*ret), ll_of_all(ps), cv.value, vals)),
                                ),
                            ),
                        }
                    },
                    Err(e) => Err(e),
                },
                _ => Err(err(callee_span, "not a function"@)),
            },
            Err(e) => Err(e),
        },
        ExprV::Add(l, l_span, r, r_span) => match c_expr(env, st, *l) {
            Ok((lv, st1)) => match c_expr(env, st1, *r) {
                Ok((rv, st2)) => if !same_type(lv.ty, RawTypeV::Int) {
                    Err(mismatch(lv.ty, RawTypeV::Int, l_span))
                } else if !same_type(rv.ty, RawTypeV::Int) {
                    Err(mismatch(rv.ty, RawTypeV::Int, r_span))
                } else {
                    Ok(
                        (
                            ValInfo { value: next_reg(st2), ty: RawTypeV::Int },
                            emit(st2, InstV::Add(lv.value, rv.value)),
                        ),
                    )
                },
                Err(e) => Err(e),
            },
            Err(e) => Err(e),
        },
    }
}

/// The values of the arguments, in order, with their types and spans.
pub open spec fn c_args(env: Env, st: FnState, args: Seq<SExprV>) -> Result<
    (Seq<Value>, Seq<(RawTypeV, Span)>, FnState),
    ErrV,
>
    decreases args,
{
    if args.len() == 0 {
        Ok((seq![], seq![], st))
    } else {
        match c_args(env, st, args.drop_last()) {
            Ok((vs, ts, st1)) => match c_expr(env, st1, args.last().expr) {
                Ok((v, st2)) => Ok((vs.push(v.value), ts.push((v.ty, args.last().span)), st2)),
                Err(e) => Err(e),
            },
            Err(e) => Err(e),
        }
    }
}

/// The error for the first argument whose type is not that of its parameter.
pub open spec fn check_args(tys: Seq<(RawTypeV, Span)>, ps: Seq<RawTypeV>) -> Option<ErrV>
    decreases tys.len(),
{
    if tys.len() == 0 {
        None
    } else {
        match check_args(tys.drop_last(), ps) {
            Some(e) => Some(e),
            None => {
                let i = tys.len() - 1;
                if !same_type(tys[i].0, ps[i]) {
                    Some(mismatch(tys[i].0, ps[i], tys[i].1))
                } else {
                    None
                }
            },
        }
    }
}

/// The value of a body: that of its last expression, or unit when empty.
pub open spec fn c_body(env: Env, st: FnState, xs: Seq<ExprV>) -> Result<(ValInfo, FnState), ErrV>
    decreases xs.len(),
{
    if xs.len() == 0 {
        Ok((unit_val(), st))
    } else {
        match c_body(env, st, xs.drop_last()) {
            Ok((_, st1)) => c_expr(env, st1, xs.last()),
            Err(e) => Err(e),
        }
    }
}

// ---------------------------------------------------------------------------
// The state after compiling, whether or not compiling fails: what was
// emitted and declared before the error stays.
/// The state after compiling a reference.
pub open spec fn ref_state(st: FnState, r: RefV) -> FnState
    decreases r,
{
    match c_ref(st, r) {
        Ok((_, st1)) => st1,
        Err(_) => match r {
            RefV::Var(_) => st,
            RefV::Access(inner, _, _) => match c_ref(st, *inner) {
                Ok((_, st1)) => st1,
                Err(_) => ref_state(st, *inner),
            },
        },
    }
}

/// The state after compiling an expression. A variable whose name is
/// taken keeps its stack slot; an operation whose operands have the wrong
/// types keeps the code of its operands; a call of what is not a function
/// compiles no argument.
pub open spec fn expr_state(env: Env, st: FnState, e: ExprV) -> FnState
    decreases e,
{
    match c_expr(env, st, e) {
        Ok((_, st1)) => st1,
        Err(_) => match e {
            ExprV::Var(n, t) => match resolve(env.types, t) {
                Ok(rt) => emit(st, InstV::Alloca(ll_of(rt), n.text)),
                Err(_) => st,
            },
            ExprV::Print(x, _) => match c_expr(env, st, *x) {
                Ok((_, st1)) => st1,
                Err(_) => expr_state(env, st, *x),
            },
            ExprV::Assign(r, x, _) => match c_ref(st, r) {
                Ok((_, st1)) => match c_expr(env, st1, *x) {
                    Ok((_, st2)) => st2,
                    Err(_) => expr_state(env, st1, *x),
                },
                Err(_) => ref_state(st, r),
            },
            ExprV::Deref(r) => ref_state(st, r),
            ExprV::Call(callee, _, args, _) => match c_expr(env, st, *callee) {
                Ok((cv, st1)) => match cv.ty {
                    RawTypeV::FunPtr(_, _) => match c_args(env, st1, args) {
                        Ok((_, _, st2)) => st2,
                        Err(_) => args_state(env, st1, args),
                    },
                    _ => st1,
                },
                Err(_) => expr_state(env, st, *callee),
            },
            ExprV::Add(l, _, r, _) => match c_expr(env, st, *l) {
                Ok((_, st1)) => match c_expr(env, st1, *r) {
                    Ok((_, st2)) => st2,
                    Err(_) => expr_state(env, st1, *r),
                },
                Err(_) => expr_state(env, st, *l),
            },
            _ => st,
        },
    }
}

/// The state after compiling the arguments of a call.
pub open spec fn args_state(env: Env, st: FnState, args: Seq<SExprV>) -> FnState
    decreases args,
{
    match c_args(env, st, args) {
        Ok((_, _, st1)) => st1,
        Err(_) => if args.len() == 0 {
            st
        } else {
            match c_args(env, st, args.drop_last()) {
                Ok((_, _, st1)) => expr_state(env, st1, args.last().expr),
                Err(_) => args_state(env, st, args.drop_last()),
            }
        },
    }
}

/// The state after compiling the expressions of a body.
pub open spec fn body_state(env: Env, st: FnState, xs: Seq<ExprV>) -> FnState
    decreases xs.len(),
{
    match c_body(env, st, xs) {
        Ok((_, st1)) => st1,
        Err(_) => if xs.len() == 0 {
            st
        } else {
            match c_body(env, st, xs.drop_last()) {
                Ok((_, st1)) => expr_state(env, st1, xs.last()),
                Err(_) => body_state(env, st, xs.drop_last()),
            }
        },
    }
}

// ---------------------------------------------------------------------------
// Definitions
/// The fields of a struct, resolved in order.
pub open spec fn c_fields(types: Map<Seq<char>, RawTypeV>, fs: Seq<BindingV>) -> Result<
    Seq<(Seq<char>, RawTypeV)>,
    ErrV,
>
    decreases fs.len(),
{
    if fs.len() == 0 {
        Ok(seq![])
    } else {
        match c_fields(types, fs.drop_last()) {
            Ok(rfs) => {
                let f = fs.last();
                if field_index(rfs, f.name.text) is Some {
                    Err(err(f.name.span, "field redefinition"@))
                } else {
                    match resolve(types, f.ty) {
                        Ok(t) => Ok(rfs.push((f.name.text, t))),
                        Err(e) => Err(e),
                    }
                }
            },
            Err(e) => Err(e),
        }
    }
}

/// A struct definition: a new type name with its fields, resolved in
/// order.
pub open spec fn c_struct(env: Env, n: NameV, fs: Seq<BindingV>) -> (Env, Result<(), ErrV>) {
    if env.types.contains_key(n.text) {
        (env, Err(err(n.span, "type redefinition"@)))
    } else {
        match c_fields(env.types, fs) {
            Ok(rfs) => (
                Env {
                    types: env.types.insert(n.text, RawTypeV::Struct(n.text, rfs)),
                    globals: env.globals,
                },
                Ok(()),
            ),
            Err(e) => (env, Err(e)),
        }
    }
}

/// The types of fields or parameters.
pub open spec fn binding_types(bs: Seq<BindingV>) -> Seq<TypeV> {
    Seq::new(bs.len(), |i: int| bs[i].ty)
}

/// The entry of a function: a stack slot for each parameter, holding the
/// parameter's value.
pub open spec fn c_params(ps: Seq<BindingV>, rps: Seq<RawTypeV>) -> Result<FnState, ErrV>
    decreases ps.len(),
{
    if ps.len() == 0 {
        Ok(FnState { locals: Map::empty(), body: seq![] })
    } else {
        match c_params(ps.drop_last(), rps) {
            Ok(st) => {
                let i = ps.len() - 1;
                let slot = next_reg(st);
                let st1 = emit(st, InstV::Alloca(ll_of(rps[i]), "param"@));
                if st.locals.contains_key(ps[i].name.text) {
                    Err(err(ps[i].name.span, "variable redefinition"@))
                } else {
                    Ok(
                        emit(
                            FnState {
                                locals: st.locals.insert(
                                    ps[i].name.text,
                                    RefInfo { ptr: slot, ty: rps[i] },
                                ),
                                body: st1.body,
                            },
                            InstV::Store(slot, Value::Param(i as usize)),
                        ),
                    )
                }
            },
            Err(e) => Err(e),
        }
    }
}

/// The code of a function's body: the entry that keeps each parameter in a
/// stack slot, the body, and the return of the body's value, which must have
/// the return type `rr`.
pub open spec fn c_fun_body(
    env: Env,
    ps: Seq<BindingV>,
    rps: Seq<RawTypeV>,
    rr: RawTypeV,
    body: Seq<ExprV>,
    body_span: Span,
) -> Result<Seq<InstV>, ErrV> {
    match c_params(ps, rps) {
        Ok(st) => match c_body(env, st, body) {
            Ok((v, st2)) => if !same_type(v.ty, rr) {
                Err(mismatch(v.ty, rr, body_span))
            } else {
                Ok(st2.body.push(InstV::Return(v.value)))
            },
            Err(e) => Err(e),
        },
        Err(e) => Err(e),
    }
}

/// A function definition, compiled as the function at index `index` of the
/// code plan. Once its types resolve and its name is new, the name denotes
/// the function, in its own body too, and the function joins the plan; if
/// its body does not compile, it joins the plan without instructions.
pub open spec fn c_fun(
    env: Env,
    index: nat,
    n: NameV,
    ps: Seq<BindingV>,
    rt: TypeV,
    body: Seq<ExprV>,
    body_span: Span,
) -> (Env, Option<FunctionCodeV>, Result<(), ErrV>) {
    match resolve_all(env.types, binding_types(ps)) {
        Ok(rps) => match resolve(env.types, rt) {
            Ok(rr) => if env.globals.contains_key(n.text) {
                (env, None, Err(err(n.span, "global variable redefinition"@)))
            } else {
                let env1 = Env {
                    types: env.types,
                    globals: env.globals.insert(
                        n.text,
                        RefInfo {
                            ptr: Value::Function(index as usize),
                            ty: RawTypeV::FunPtr(rps, Box::new(rr)),
                        },
                    ),
                };
                match c_fun_body(env1, ps, rps, rr, body, body_span) {
                    Ok(insts) => (
                        env1,
                        Some(
                            FunctionCodeV {
                                name: n.text,
                                ret: ll_of(rr),
                                params: ll_of_all(rps),
                                body: insts,
                            },
                        ),
                        Ok(()),
                    ),
                    Err(e) => (
                        env1,
                        Some(
                            FunctionCodeV {
                                name: n.text,
                                ret: ll_of(rr),
                                params: ll_of_all(rps),
                                body: seq![],
                            },
                        ),
                        Err(e),
                    ),
                }
            },
            Err(e) => (env, None, Err(e)),
        },
        Err(e) => (env, None, Err(e)),
    }
}

/// The definitions seen and the code plan after one more definition.
pub open spec fn c_def(env: Env, code: Seq<FunctionCodeV>, d: DefV) -> (
    Env,
    Seq<FunctionCodeV>,
    Result<(), ErrV>,
) {
    match d {
        DefV::Struct(n, fs) => {
            let (env1, r) = c_struct(env, n, fs);
            (env1, code, r)
        },
        DefV::Fun(n, ps, rt, body, span) => {
            let (env1, f, r) = c_fun(env, code.len(), n, ps, rt, body, span);
            match f {
                Some(f) => (env1, code.push(f), r),
                None => (env1, code, r),
            }
        },
    }
}

/// The definitions, compiled in order up to the first error.
pub open spec fn c_defs(env: Env, code: Seq<FunctionCodeV>, ds: Seq<DefV>) -> (
    Env,
    Seq<FunctionCodeV>,
    Result<(), ErrV>,
)
    decreases ds.len(),
{
    if ds.len() == 0 {
        (env, code, Ok(()))
    } else {
        let (env1, code1, r) = c_defs(env, code, ds.drop_last());
        match r {
            Ok(()) => c_def(env1, code1, ds.last()),
            Err(e) => (env1, code1, Err(e)),
        }
    }
}

/// The type that `main` must have.
pub open spec fn main_type() -> RawTypeV {
    RawTypeV::FunPtr(seq![], Box::new(RawTypeV::Unit))
}

/// The span of an error that no part of the source causes.
pub open spec fn no_span() -> Span {
    Span { start: 0, end: 0 }
}

/// A whole program: its definitions, then a function `main` of type
/// `fun(): Unit`.
pub open spec fn c_program(env: Env, code: Seq<FunctionCodeV>, ds: Seq<DefV>) -> (
    Env,
    Seq<FunctionCodeV>,
    Result<(), ErrV>,
) {
    let (env1, code1, r) = c_defs(env, code, ds);
    match r {
        Ok(()) => if !env1.globals.contains_key("main"@) {
            (env1, code1, Err(err(no_span(), "undefined global variable"@)))
        } else if !same_type(env1.globals["main"@].ty, main_type()) {
            (env1, code1, Err(mismatch(env1.globals["main"@].ty, main_type(), no_span())))
        } else {
            (env1, code1, Ok(()))
        },
        Err(e) => (env1, code1, Err(e)),
    }
}

} // verus!
