//! The compiler: checks the definitions of a program and builds its code plan.
use vstd::prelude::*;
use vstd::hash_map::StringHashMap;
use vstd::string::StringExecFns;
use crate::ast::{
    def_v, defs_v,
    expr_v, exprs_v, fields_v, name_v, params_v, ref_v, sexprs_v, type_v, types_v,
    BindingV, Def, DefV, Expr, ExprV, Field, Name, Param, Ref, RefV, SExprV, Span, Spanned, Type,
    TypeV,
};
use crate::error::Error;
use crate::ir::{fcode_v, fcodes_v, inst_v, insts_v, FunctionCode, FunctionCodeV, Inst, InstV, Value};
use crate::semantics::{
    binding_types, c_args, c_body, c_def, c_defs, c_expr, c_fields, c_fun, c_fun_body, c_params,
    c_program, c_ref, c_struct, check_args, args_state, body_state, expr_state, ref_state, emit, err, field_index, main_type, mismatch, next_reg,
    resolve, resolve_all, unit_val, Env, ErrV, FnState, RefInfo, ValInfo,
};
use crate::types::{
    duplicate_all, fields_view, same_type, ll_of, ll_of_all, ll_v, lls_v, rt_v, rts_v, Fields, LlType,
    RawType, RawTypeV,
};

verus! {

/// A place in memory holding a value of a resolved type.
pub struct RawRef {
    pub ptr_value: Value,
    pub raw_type: RawType,
}

/// A value of a resolved type.
pub struct RawValue {
    pub value: Value,
    pub raw_type: RawType,
}

pub open spec fn ref_info(r: RawRef) -> RefInfo {
    RefInfo { ptr: r.ptr_value, ty: rt_v(r.raw_type) }
}

pub open spec fn val_info(v: RawValue) -> ValInfo {
    ValInfo { value: v.value, ty: rt_v(v.raw_type) }
}

pub open spec fn refs_map(m: Map<Seq<char>, RawRef>) -> Map<Seq<char>, RefInfo> {
    Map::new(|k: Seq<char>| m.contains_key(k), |k: Seq<char>| ref_info(m[k]))
}

pub open spec fn types_map(m: Map<Seq<char>, RawType>) -> Map<Seq<char>, RawTypeV> {
    Map::new(|k: Seq<char>| m.contains_key(k), |k: Seq<char>| rt_v(m[k]))
}

pub open spec fn err_v(e: Error) -> ErrV {
    ErrV { span: e.span, msg: e.message@ }
}

proof fn lemma_refs_insert(m: Map<Seq<char>, RawRef>, k: Seq<char>, v: RawRef)
    ensures
        refs_map(m.insert(k, v)) == refs_map(m).insert(k, ref_info(v)),
{
    assert(refs_map(m.insert(k, v)) =~= refs_map(m).insert(k, ref_info(v)));
}

proof fn lemma_types_insert(m: Map<Seq<char>, RawType>, k: Seq<char>, v: RawType)
    ensures
        types_map(m.insert(k, v)) == types_map(m).insert(k, rt_v(v)),
{
    assert(types_map(m.insert(k, v)) =~= types_map(m).insert(k, rt_v(v)));
}

/// Once some types fail to resolve, all the types fail with the same error.
proof fn lemma_resolve_all_prefix(types: Map<Seq<char>, RawTypeV>, ts: Seq<TypeV>, k: int)
    requires
        0 <= k <= ts.len(),
        resolve_all(types, ts.take(k)) is Err,
    ensures
        resolve_all(types, ts) == resolve_all(types, ts.take(k)),
    decreases ts.len() - k,
{
    if k == ts.len() {
        assert(ts.take(k) =~= ts);
    } else {
        assert(ts.take(k + 1).drop_last() =~= ts.take(k));
        lemma_resolve_all_prefix(types, ts, k + 1);
    }
}

/// Resolving gives one type for each type given.
pub(crate) proof fn lemma_resolve_all_len(types: Map<Seq<char>, RawTypeV>, ts: Seq<TypeV>)
    ensures
        resolve_all(types, ts) matches Ok(rs) ==> rs.len() == ts.len(),
    decreases ts.len(),
{
    if ts.len() > 0 {
        lemma_resolve_all_len(types, ts.drop_last());
    }
}

/// The function being compiled: its local variables and its instructions.
pub struct FnBuilder {
    pub locals: StringHashMap<RawRef>,
    pub body: Vec<Inst>,
}

impl FnBuilder {
    pub open spec fn state(&self) -> FnState {
        FnState { locals: refs_map(self.locals@), body: insts_v(self.body@) }
    }

    /// Appends an instruction; gives the value it produces.
    fn emit(&mut self, inst: Inst) -> (r: Value)
        ensures
            final(self).state() == emit(old(self).state(), inst_v(inst)),
            r == next_reg(old(self).state()),
    {
        let r = Value::Reg(self.body.len());
        self.body.push(inst);
        assert(insts_v(self.body@) =~= insts_v(old(self).body@).push(inst_v(inst)));
        r
    }
}

fn copy_ref(r: &RawRef) -> (c: RawRef)
    ensures
        ref_info(c) == ref_info(*r),
{
    RawRef { ptr_value: r.ptr_value, raw_type: r.raw_type.duplicate() }
}

fn unit_value() -> (v: RawValue)
    ensures
        val_info(v) == unit_val(),
{
    RawValue { value: Value::Unit, raw_type: RawType::Unit }
}

fn error(span: Span, message: &str) -> (e: Error)
    ensures
        err_v(e) == err(span, message@),
{
    Error { span, message: message.to_owned() }
}

/// The error for a value of type `found` where `expected` is required.
fn mismatch_error(found: &RawType, expected: &RawType, span: Span) -> (e: Error)
    ensures
        err_v(e) == mismatch(rt_v(*found), rt_v(*expected), span),
{
    let mut message = "type mismatch ".to_owned();
    let a = found.to_string();
    message.append(a.as_str());
    message.append(" and ");
    let b = expected.to_string();
    message.append(b.as_str());
    Error { span, message }
}

/// Checks that two types are the same.
fn check_type(type1: &RawType, type2: &RawType, span: Span) -> (r: Result<(), Error>)
    ensures
        r is Ok <==> same_type(rt_v(*type1), rt_v(*type2)),
        r matches Err(e) ==> err_v(e) == mismatch(rt_v(*type1), rt_v(*type2), span),
{
    if !type1.same(type2) {
        return Err(mismatch_error(type1, type2, span));
    }
    Ok(())
}

/// Declares a local variable; a second declaration of a name is an error.
fn define_local(name: &Name, raw_ref: RawRef, locals: &mut StringHashMap<RawRef>) -> (r: Result<(), Error>)
    ensures
        old(locals)@.contains_key(name.inner@) ==> (r matches Err(e) && err_v(e) == err(
            name.span,
            "variable redefinition"@,
        ) && final(locals)@ == old(locals)@),
        !old(locals)@.contains_key(name.inner@) ==> (r is Ok && final(locals)@ == old(
            locals,
        )@.insert(name.inner@, raw_ref)),
{
    if locals.contains_key(name.inner) {
        return Err(error(name.span, "variable redefinition"));
    }
    locals.insert(name.inner.to_owned(), raw_ref);
    Ok(())
}

/// The local variable called `name`.
fn get_local<'a>(name: &Name, locals: &'a StringHashMap<RawRef>) -> (r: Result<&'a RawRef, Error>)
    ensures
        locals@.contains_key(name.inner@) ==> (r matches Ok(x) && *x == locals@[name.inner@]),
        !locals@.contains_key(name.inner@) ==> (r matches Err(e) && err_v(e) == err(
            name.span,
            "undefined variable"@,
        )),
{
    match locals.get(name.inner) {
        Some(r) => Ok(r),
        None => Err(error(name.span, "undefined variable")),
    }
}

/// Checks the definitions of a program and builds its code plan.
pub struct Compiler {
    globals: StringHashMap<RawRef>,
    types: StringHashMap<RawType>,
    functions: Vec<FunctionCode>,
}

impl Compiler {
    /// The definitions seen so far.
    pub closed spec fn env(&self) -> Env {
        Env { types: types_map(self.types@), globals: refs_map(self.globals@) }
    }

    /// The code plan built so far.
    pub closed spec fn code(&self) -> Seq<FunctionCodeV> {
        fcodes_v(self.functions@)
    }

    /// A compiler that has seen no definition.
    pub fn new() -> (c: Compiler)
        ensures
            c.env().types == Map::<Seq<char>, RawTypeV>::empty(),
            c.env().globals == Map::<Seq<char>, RefInfo>::empty(),
            c.code() == Seq::<FunctionCodeV>::empty(),
    {
        let c = Compiler { globals: StringHashMap::new(), types: StringHashMap::new(), functions: Vec::new() };
        assert(types_map(c.types@) =~= Map::<Seq<char>, RawTypeV>::empty());
        assert(refs_map(c.globals@) =~= Map::<Seq<char>, RefInfo>::empty());
        assert(fcodes_v(c.functions@) =~= Seq::<FunctionCodeV>::empty());
        c
    }

    /// The code plan: the functions compiled so far, in order of definition.
    pub fn functions(&self) -> (r: &Vec<FunctionCode>)
        ensures
            fcodes_v(r@) == self.code(),
    {
        &self.functions
    }

    /// The resolved form of a source type.
    #[verifier::loop_isolation(false)]
    fn raw_type_of(&self, ty: &Type) -> (r: Result<RawType, Error>)
        ensures
            match resolve(self.env().types, type_v(*ty)) {
                Ok(t) => r matches Ok(x) && rt_v(x) == t,
                Err(e) => r matches Err(x) && err_v(x) == e,
            },
        decreases ty,
    {
        match ty {
            Type::Int => Ok(RawType::Int),
            Type::Unit => Ok(RawType::Unit),
            Type::Named(name) => match self.types.get(name.inner) {
                Some(t) => Ok(t.duplicate()),
                None => Err(error(name.span, "undefined type")),
            },
            Type::Fun(params, body) => {
                let ghost ts = types_v(params@);
                let mut out: Vec<RawType> = Vec::new();
                let mut i: usize = 0;
                assert(ts.take(0) =~= Seq::<TypeV>::empty());
                assert(rts_v(out@) =~= Seq::<RawTypeV>::empty());
                while i < params.len()
                    invariant
                        i <= params@.len(),
                        resolve_all(self.env().types, ts.take(i as int)) == Ok::<Seq<RawTypeV>, ErrV>(rts_v(out@)),
                    decreases params@.len() - i,
                {
                    assert(decreases_to!(*ty => *params));
                    assert(decreases_to!(params@ => params@[i as int]));
                    assert(ts.take(i + 1).drop_last() =~= ts.take(i as int));
                    let t = match self.raw_type_of(&params[i]) {
                        Ok(t) => t,
                        Err(e) => {
                            proof {
                                lemma_resolve_all_prefix(self.env().types, ts, i + 1);
                            }
                            return Err(e);
                        },
                    };
                    let ghost before = out@;
                    out.push(t);
                    assert(rts_v(out@) =~= rts_v(before).push(rt_v(t)));
                    i = i + 1;
                }
                assert(ts.take(params@.len() as int) =~= ts);
                assert(decreases_to!(*ty => *body));
                let r = self.raw_type_of(body)?;
                Ok(RawType::FunPtr(out, Box::new(r)))
            },
        }
    }
}

pub open spec fn ref_res_ok(r: Result<RawRef, Error>, expected: Result<(RefInfo, FnState), ErrV>, after: FnState) -> bool {
    match expected {
        Ok((ri, st)) => r matches Ok(x) && ref_info(x) == ri && after == st,
        Err(e) => r matches Err(x) && err_v(x) == e,
    }
}

pub open spec fn val_res_ok(r: Result<RawValue, Error>, expected: Result<(ValInfo, FnState), ErrV>, after: FnState) -> bool {
    match expected {
        Ok((vi, st)) => r matches Ok(x) && val_info(x) == vi && after == st,
        Err(e) => r matches Err(x) && err_v(x) == e,
    }
}

pub open spec fn tys_v(v: Seq<Spanned<RawType>>) -> Seq<(RawTypeV, Span)> {
    Seq::new(v.len(), |i: int| (rt_v(v[i].inner), v[i].span))
}

/// The field called `name` is at the first index that holds it.
proof fn lemma_field_index(fs: Seq<(Seq<char>, RawTypeV)>, name: Seq<char>, i: int)
    requires
        0 <= i <= fs.len(),
        forall|j: int| 0 <= j < i ==> (#[trigger] fs[j]).0 != name,
    ensures
        i < fs.len() && fs[i].0 == name ==> field_index(fs, name) == Some(i),
        i == fs.len() ==> field_index(fs, name) is None,
    decreases i,
{
    if i > 0 {
        let rest = fs.drop_first();
        assert forall|j: int| 0 <= j < i - 1 implies (#[trigger] rest[j]).0 != name by {
            assert(rest[j] == fs[j + 1]);
        }
        lemma_field_index(rest, name, i - 1);
    } else if fs.len() > 0 {
        let rest = fs.drop_first();
        if fs[0].0 != name {
            lemma_field_index_none(rest, name);
        }
    }
}

pub(crate) proof fn lemma_field_index_none(fs: Seq<(Seq<char>, RawTypeV)>, name: Seq<char>)
    ensures
        field_index(fs, name) matches Some(i) ==> 0 <= i < fs.len() && fs[i].0 == name,
    decreases fs.len(),
{
    if fs.len() > 0 {
        lemma_field_index_none(fs.drop_first(), name);
    }
}

/// A name that no field has is not found, and a name that is not found is
/// had by no field.
pub(crate) proof fn lemma_field_index_absent(fs: Seq<(Seq<char>, RawTypeV)>, name: Seq<char>)
    ensures
        field_index(fs, name) is None <==> forall|j: int|
            0 <= j < fs.len() ==> (#[trigger] fs[j]).0 != name,
    decreases fs.len(),
{
    if fs.len() > 0 {
        let rest = fs.drop_first();
        lemma_field_index_absent(rest, name);
        assert forall|j: int| 0 < j < fs.len() implies #[trigger] fs[j] == rest[j - 1] by {}
        if field_index(fs, name) is None {
            assert forall|j: int| 0 <= j < fs.len() implies (#[trigger] fs[j]).0 != name by {
                if j > 0 {
                    assert(fs[j] == rest[j - 1]);
                }
            }
        } else if forall|j: int| 0 <= j < fs.len() ==> (#[trigger] fs[j]).0 != name {
            assert(fs[0].0 != name);
            assert forall|j: int| 0 <= j < rest.len() implies (#[trigger] rest[j]).0 != name by {
                assert(rest[j] == fs[j + 1]);
            }
        }
    }
}

proof fn lemma_c_args_prefix(env: Env, st: FnState, args: Seq<SExprV>, k: int)
    requires
        0 <= k <= args.len(),
        c_args(env, st, args.take(k)) is Err,
    ensures
        c_args(env, st, args) == c_args(env, st, args.take(k)),
    decreases args.len() - k,
{
    if k == args.len() {
        assert(args.take(k) =~= args);
    } else {
        assert(args.take(k + 1).drop_last() =~= args.take(k));
        lemma_c_args_prefix(env, st, args, k + 1);
    }
}

proof fn lemma_check_args_prefix(tys: Seq<(RawTypeV, Span)>, ps: Seq<RawTypeV>, k: int)
    requires
        0 <= k <= tys.len(),
        check_args(tys.take(k), ps) is Some,
    ensures
        check_args(tys, ps) == check_args(tys.take(k), ps),
    decreases tys.len() - k,
{
    if k == tys.len() {
        assert(tys.take(k) =~= tys);
    } else {
        assert(tys.take(k + 1).drop_last() =~= tys.take(k));
        lemma_check_args_prefix(tys, ps, k + 1);
    }
}

/// Once the arguments before the end fail, the rest are not compiled.
proof fn lemma_args_state_prefix(env: Env, st: FnState, args: Seq<SExprV>, k: int)
    requires
        0 <= k <= args.len(),
        c_args(env, st, args.take(k)) is Err,
    ensures
        args_state(env, st, args) == args_state(env, st, args.take(k)),
    decreases args.len() - k,
{
    if k == args.len() {
        assert(args.take(k) =~= args);
    } else {
        assert(args.take(k + 1).drop_last() =~= args.take(k));
        lemma_c_args_prefix(env, st, args, k);
        lemma_args_state_prefix(env, st, args, k + 1);
    }
}

/// Once the expressions before the end fail, the rest are not compiled.
proof fn lemma_body_state_prefix(env: Env, st: FnState, xs: Seq<ExprV>, k: int)
    requires
        0 <= k <= xs.len(),
        c_body(env, st, xs.take(k)) is Err,
    ensures
        body_state(env, st, xs) == body_state(env, st, xs.take(k)),
    decreases xs.len() - k,
{
    if k == xs.len() {
        assert(xs.take(k) =~= xs);
    } else {
        assert(xs.take(k + 1).drop_last() =~= xs.take(k));
        lemma_c_body_prefix(env, st, xs, k);
        lemma_body_state_prefix(env, st, xs, k + 1);
    }
}

proof fn lemma_c_body_prefix(env: Env, st: FnState, xs: Seq<ExprV>, k: int)
    requires
        0 <= k <= xs.len(),
        c_body(env, st, xs.take(k)) is Err,
    ensures
        c_body(env, st, xs) == c_body(env, st, xs.take(k)),
    decreases xs.len() - k,
{
    if k == xs.len() {
        assert(xs.take(k) =~= xs);
    } else {
        assert(xs.take(k + 1).drop_last() =~= xs.take(k));
        lemma_c_body_prefix(env, st, xs, k + 1);
    }
}

/// The layouts of a list of types.
fn llvm_types(ts: &Vec<RawType>) -> (r: Vec<LlType>)
    ensures
        lls_v(r@) == ll_of_all(rts_v(ts@)),
{
    let mut out: Vec<LlType> = Vec::new();
    let mut i: usize = 0;
    while i < ts.len()
        invariant
            i <= ts@.len(),
            out@.len() == i,
            forall|j: int| 0 <= j < i ==> ll_v(#[trigger] out@[j]) == ll_of(rt_v(ts@[j])),
        decreases ts@.len() - i,
    {
        out.push(ts[i].llvm_type());
        i = i + 1;
    }
    assert(lls_v(out@) =~= ll_of_all(rts_v(ts@)));
    out
}

impl Compiler {
    /// The function called `name`.
    fn get_global(&self, name: &Name) -> (r: Result<&RawRef, Error>)
        ensures
            self.env().globals.contains_key(name.inner@) ==> (r matches Ok(x) && ref_info(*x)
                == self.env().globals[name.inner@]),
            !self.env().globals.contains_key(name.inner@) ==> (r matches Err(e) && err_v(e) == err(
                name.span,
                "undefined global variable"@,
            )),
    {
        match self.globals.get(name.inner) {
            Some(r) => Ok(r),
            None => Err(error(name.span, "undefined global variable")),
        }
    }

    /// Declares a function; a second declaration of a name is an error.
    fn define_global(&mut self, name: &Name, raw_ref: RawRef) -> (r: Result<(), Error>)
        ensures
            old(self).env().globals.contains_key(name.inner@) ==> (r matches Err(e) && err_v(e)
                == err(name.span, "global variable redefinition"@) && final(self).env() == old(
                self,
            ).env()),
            !old(self).env().globals.contains_key(name.inner@) ==> (r is Ok && final(self).env()
                == (Env {
                types: old(self).env().types,
                globals: old(self).env().globals.insert(name.inner@, ref_info(raw_ref)),
            })),
            final(self).code() == old(self).code(),
    {
        if self.globals.contains_key(name.inner) {
            return Err(error(name.span, "global variable redefinition"));
        }
        proof {
            lemma_refs_insert(self.globals@, name.inner@, raw_ref);
        }
        self.globals.insert(name.inner.to_owned(), raw_ref);
        Ok(())
    }

    fn compile_var_ref(&self, name: &Name, fb: &FnBuilder) -> (r: Result<RawRef, Error>)
        ensures
            ref_res_ok(r, c_ref(fb.state(), RefV::Var(name_v(*name))), fb.state()),
    {
        let r = get_local(name, &fb.locals)?;
        Ok(copy_ref(r))
    }

    #[verifier::loop_isolation(false)]
    fn compile_access_ref(
        &self,
        reference: &Spanned<Box<Ref>>,
        field_name: &Name,
        fb: &mut FnBuilder,
    ) -> (r: Result<RawRef, Error>)
        ensures
            ref_res_ok(
                r,
                c_ref(
                    old(fb).state(),
                    RefV::Access(Box::new(ref_v(*reference.inner)), reference.span, name_v(*field_name)),
                ),
                final(fb).state(),
            ),
            final(fb).state() == ref_state(
                old(fb).state(),
                RefV::Access(Box::new(ref_v(*reference.inner)), reference.span, name_v(*field_name)),
            ),
        decreases RefV::Access(Box::new(ref_v(*reference.inner)), reference.span, name_v(*field_name)), 0int,
    {
        let raw_ref = self.compile_ref(&reference.inner, fb)?;
        match &raw_ref.raw_type {
            RawType::Struct(_, fields) => {
                let (i, field_type) = match field_position(fields, field_name.inner) {
                    Some(found) => found,
                    None => return Err(error(field_name.span, "no field")),
                };
                let ty = raw_ref.raw_type.llvm_type();
                let ptr = fb.emit(Inst::StructGep { ty, ptr: raw_ref.ptr_value, index: i });
                Ok(RawRef { ptr_value: ptr, raw_type: field_type.duplicate() })
            },
            _ => Err(error(reference.span, "not an struct")),
        }
    }

    fn compile_ref(&self, reference: &Ref, fb: &mut FnBuilder) -> (r: Result<RawRef, Error>)
        ensures
            ref_res_ok(r, c_ref(old(fb).state(), ref_v(*reference)), final(fb).state()),
            final(fb).state() == ref_state(old(fb).state(), ref_v(*reference)),
        decreases ref_v(*reference), 1int,
    {
        match reference {
            Ref::Var(name) => self.compile_var_ref(name, fb),
            Ref::Access(inner, field_name) => self.compile_access_ref(inner, field_name, fb),
        }
    }
}

impl Compiler {
    fn compile_int_expr(&self, value: &u64) -> (r: Result<RawValue, Error>)
        ensures
            r matches Ok(v) && val_info(v) == (ValInfo { value: Value::Int(*value), ty: RawTypeV::Int }),
    {
        Ok(RawValue { value: Value::Int(*value), raw_type: RawType::Int })
    }

    fn compile_global(&self, name: &Name) -> (r: Result<RawValue, Error>)
        ensures
            forall|st: FnState|
                #![trigger c_expr(self.env(), st, ExprV::Global(name_v(*name)))]
                val_res_ok(r, c_expr(self.env(), st, ExprV::Global(name_v(*name))), st),
    {
        let r = self.get_global(name)?;
        Ok(RawValue { value: r.ptr_value, raw_type: r.raw_type.duplicate() })
    }

    fn compile_var_expr(&self, name: &Name, ty: &Type, fb: &mut FnBuilder) -> (r: Result<RawValue, Error>)
        ensures
            val_res_ok(
                r,
                c_expr(self.env(), old(fb).state(), ExprV::Var(name_v(*name), type_v(*ty))),
                final(fb).state(),
            ),
            final(fb).state() == expr_state(self.env(), old(fb).state(), ExprV::Var(name_v(*name), type_v(*ty))),
    {
        let raw_type = self.raw_type_of(ty)?;
        let ghost st = fb.state();
        let ptr_value = fb.emit(Inst::Alloca { ty: raw_type.llvm_type(), name: name.inner.to_owned() });
        let ghost rr = RawRef { ptr_value, raw_type };
        proof {
            lemma_refs_insert(fb.locals@, name.inner@, rr);
        }
        define_local(name, RawRef { ptr_value, raw_type }, &mut fb.locals)?;
        Ok(unit_value())
    }

    fn compile_print_expr(&self, expr: &Spanned<Box<Expr>>, fb: &mut FnBuilder) -> (r: Result<
        RawValue,
        Error,
    >)
        ensures
            val_res_ok(
                r,
                c_expr(self.env(), old(fb).state(), ExprV::Print(Box::new(expr_v(*expr.inner)), expr.span)),
                final(fb).state(),
            ),
            final(fb).state() == expr_state(
                self.env(),
                old(fb).state(),
                ExprV::Print(Box::new(expr_v(*expr.inner)), expr.span),
            ),
        decreases ExprV::Print(Box::new(expr_v(*expr.inner)), expr.span), 0int,
    {
        let raw_value = self.compile_expr(&expr.inner, fb)?;
        check_type(&raw_value.raw_type, &RawType::Int, expr.span)?;
        fb.emit(Inst::Print { value: raw_value.value });
        Ok(unit_value())
    }

    fn compile_assign_expr(&self, reference: &Ref, expr: &Spanned<Box<Expr>>, fb: &mut FnBuilder) -> (r:
        Result<RawValue, Error>)
        ensures
            val_res_ok(
                r,
                c_expr(
                    self.env(),
                    old(fb).state(),
                    ExprV::Assign(ref_v(*reference), Box::new(expr_v(*expr.inner)), expr.span),
                ),
                final(fb).state(),
            ),
            final(fb).state() == expr_state(
                self.env(),
                old(fb).state(),
                ExprV::Assign(ref_v(*reference), Box::new(expr_v(*expr.inner)), expr.span),
            ),
        decreases ExprV::Assign(ref_v(*reference), Box::new(expr_v(*expr.inner)), expr.span), 0int,
    {
        let raw_ref = self.compile_ref(reference, fb)?;
        let raw_value = self.compile_expr(&expr.inner, fb)?;
        check_type(&raw_ref.raw_type, &raw_value.raw_type, expr.span)?;
        fb.emit(Inst::Store { ptr: raw_ref.ptr_value, value: raw_value.value });
        Ok(unit_value())
    }

    fn compile_deref_expr(&self, reference: &Ref, fb: &mut FnBuilder) -> (r: Result<RawValue, Error>)
        ensures
            val_res_ok(r, c_expr(self.env(), old(fb).state(), ExprV::Deref(ref_v(*reference))), final(fb).state()),
            final(fb).state() == expr_state(self.env(), old(fb).state(), ExprV::Deref(ref_v(*reference))),
    {
        let raw_ref = self.compile_ref(reference, fb)?;
        let ty = raw_ref.raw_type.llvm_type();
        let value = fb.emit(Inst::Load { ty, ptr: raw_ref.ptr_value });
        Ok(RawValue { value, raw_type: raw_ref.raw_type })
    }

    #[verifier::loop_isolation(false)]
    fn compile_call_expr(
        &self,
        callee: &Spanned<Box<Expr>>,
        args: &Spanned<Vec<Spanned<Expr>>>,
        fb: &mut FnBuilder,
    ) -> (r: Result<RawValue, Error>)
        ensures
            val_res_ok(
                r,
                c_expr(
                    self.env(),
                    old(fb).state(),
                    ExprV::Call(Box::new(expr_v(*callee.inner)), callee.span, sexprs_v(args.inner@), args.span),
                ),
                final(fb).state(),
            ),
            final(fb).state() == expr_state(
                self.env(),
                old(fb).state(),
                ExprV::Call(Box::new(expr_v(*callee.inner)), callee.span, sexprs_v(args.inner@), args.span),
            ),
        decreases ExprV::Call(Box::new(expr_v(*callee.inner)), callee.span, sexprs_v(args.inner@), args.span), 0int,
    {
        let raw_callee_value = self.compile_expr(&callee.inner, fb)?;
        let (raw_param_types, raw_return_type) = match raw_callee_value.raw_type {
            RawType::FunPtr(ps, ret) => (ps, ret),
            _ => return Err(error(callee.span, "not a function")),
        };
        let ghost sargs = sexprs_v(args.inner@);
        let ghost st1 = fb.state();
        let mut arg_values: Vec<Value> = Vec::new();
        let mut arg_types: Vec<Spanned<RawType>> = Vec::new();
        let mut i: usize = 0;
        assert(sargs.take(0) =~= Seq::<SExprV>::empty());
        assert(tys_v(arg_types@) =~= Seq::<(RawTypeV, Span)>::empty());
        while i < args.inner.len()
            invariant
                i <= args.inner@.len(),
                sargs.len() == args.inner@.len(),
                c_args(self.env(), st1, sargs.take(i as int)) == Ok::<_, ErrV>(
                    (arg_values@, tys_v(arg_types@), fb.state()),
                ),
            decreases args.inner@.len() - i,
        {
            assert(sargs.take(i + 1).drop_last() =~= sargs.take(i as int));
            assert(sargs.take(i + 1).last() == sargs[i as int]);
            assert(sargs[i as int].expr == expr_v(args.inner@[i as int].inner));
            assert(decreases_to!(sargs => sargs[i as int]));
            let v = match self.compile_expr(&args.inner[i].inner, fb) {
                Ok(v) => v,
                Err(e) => {
                    proof {
                        lemma_c_args_prefix(self.env(), st1, sargs, i + 1);
                        lemma_args_state_prefix(self.env(), st1, sargs, i + 1);
                    }
                    return Err(e);
                },
            };
            let ghost before_types = arg_types@;
            arg_values.push(v.value);
            arg_types.push(Spanned { inner: v.raw_type, span: args.inner[i].span });
            assert(tys_v(arg_types@) =~= tys_v(before_types).push((rt_v(v.raw_type), sargs[i as int].span)));
            i = i + 1;
        }
        assert(sargs.take(args.inner@.len() as int) =~= sargs);
        if arg_types.len() != raw_param_types.len() {
            assert(tys_v(arg_types@).len() != rts_v(raw_param_types@).len());
            return Err(error(args.span, "the number of arguments does not match"));
        }
        let ghost tys = tys_v(arg_types@);
        let ghost ps = rts_v(raw_param_types@);
        let mut k: usize = 0;
        assert(tys.take(0) =~= Seq::<(RawTypeV, Span)>::empty());
        while k < arg_types.len()
            invariant
                k <= arg_types@.len(),
                arg_types@.len() == raw_param_types@.len(),
                check_args(tys.take(k as int), ps) is None,
            decreases arg_types@.len() - k,
        {
            assert(tys.take(k + 1).drop_last() =~= tys.take(k as int));
            match check_type(&arg_types[k].inner, &raw_param_types[k], arg_types[k].span) {
                Ok(()) => {},
                Err(e) => {
                    proof {
                        lemma_check_args_prefix(tys, ps, k + 1);
                    }
                    return Err(e);
                },
            }
            k = k + 1;
        }
        assert(tys.take(arg_types@.len() as int) =~= tys);
        let llvm_param_types = llvm_types(&raw_param_types);
        let ret = raw_return_type.llvm_type();
        let value = fb.emit(
            Inst::Call { ret, params: llvm_param_types, callee: raw_callee_value.value, args: arg_values },
        );
        Ok(RawValue { value, raw_type: *raw_return_type })
    }

    fn compile_add_expr(&self, lhs: &Spanned<Box<Expr>>, rhs: &Spanned<Box<Expr>>, fb: &mut FnBuilder) -> (r:
        Result<RawValue, Error>)
        ensures
            val_res_ok(
                r,
                c_expr(
                    self.env(),
                    old(fb).state(),
                    ExprV::Add(Box::new(expr_v(*lhs.inner)), lhs.span, Box::new(expr_v(*rhs.inner)), rhs.span),
                ),
                final(fb).state(),
            ),
            final(fb).state() == expr_state(
                self.env(),
                old(fb).state(),
                ExprV::Add(Box::new(expr_v(*lhs.inner)), lhs.span, Box::new(expr_v(*rhs.inner)), rhs.span),
            ),
        decreases ExprV::Add(Box::new(expr_v(*lhs.inner)), lhs.span, Box::new(expr_v(*rhs.inner)), rhs.span), 0int,
    {
        let raw_lhs_value = self.compile_expr(&lhs.inner, fb)?;
        let raw_rhs_value = self.compile_expr(&rhs.inner, fb)?;
        check_type(&raw_lhs_value.raw_type, &RawType::Int, lhs.span)?;
        check_type(&raw_rhs_value.raw_type, &RawType::Int, rhs.span)?;
        let value = fb.emit(Inst::Add { lhs: raw_lhs_value.value, rhs: raw_rhs_value.value });
        Ok(RawValue { value, raw_type: RawType::Int })
    }

    fn compile_expr(&self, expr: &Expr, fb: &mut FnBuilder) -> (r: Result<RawValue, Error>)
        ensures
            val_res_ok(r, c_expr(self.env(), old(fb).state(), expr_v(*expr)), final(fb).state()),
            final(fb).state() == expr_state(self.env(), old(fb).state(), expr_v(*expr)),
        decreases expr_v(*expr), 1int,
    {
        match expr {
            Expr::Int(value) => self.compile_int_expr(value),
            Expr::Global(name) => self.compile_global(name),
            Expr::Var(name, ty) => self.compile_var_expr(name, ty, fb),
            Expr::Print(x) => self.compile_print_expr(x, fb),
            Expr::Assign(reference, x) => self.compile_assign_expr(reference, x, fb),
            Expr::Deref(reference) => self.compile_deref_expr(reference, fb),
            Expr::Call(callee, args) => self.compile_call_expr(callee, args, fb),
            Expr::Add(lhs, rhs) => self.compile_add_expr(lhs, rhs, fb),
        }
    }
}

/// The position and type of the field called `name`.
fn field_position<'a>(fields: &'a Fields, name: &str) -> (r: Option<(usize, &'a RawType)>)
    ensures
        match field_index(fields_view(*fields), name@) {
            Some(i) => r matches Some((j, t)) && j == i && 0 <= i < fields_view(*fields).len()
                && rt_v(*t) == fields_view(*fields)[i].1,
            None => r is None,
        },
{
    let r = fields.get_full(name);
    proof {
        let fv = fields_view(*fields);
        match r {
            Some((i, _)) => lemma_field_index(fv, name@, i as int),
            None => lemma_field_index(fv, name@, fv.len() as int),
        }
    }
    r
}

pub open spec fn unit_res_ok(r: Result<(), Error>, expected: Result<(), ErrV>) -> bool {
    match expected {
        Ok(()) => r is Ok,
        Err(e) => r matches Err(x) && err_v(x) == e,
    }
}

proof fn lemma_c_fields_prefix(types: Map<Seq<char>, RawTypeV>, fs: Seq<BindingV>, k: int)
    requires
        0 <= k <= fs.len(),
        c_fields(types, fs.take(k)) is Err,
    ensures
        c_fields(types, fs) == c_fields(types, fs.take(k)),
    decreases fs.len() - k,
{
    if k == fs.len() {
        assert(fs.take(k) =~= fs);
    } else {
        assert(fs.take(k + 1).drop_last() =~= fs.take(k));
        lemma_c_fields_prefix(types, fs, k + 1);
    }
}

proof fn lemma_c_params_prefix(ps: Seq<BindingV>, rps: Seq<RawTypeV>, k: int)
    requires
        0 <= k <= ps.len(),
        c_params(ps.take(k), rps) is Err,
    ensures
        c_params(ps, rps) == c_params(ps.take(k), rps),
    decreases ps.len() - k,
{
    if k == ps.len() {
        assert(ps.take(k) =~= ps);
    } else {
        assert(ps.take(k + 1).drop_last() =~= ps.take(k));
        lemma_c_params_prefix(ps, rps, k + 1);
    }
}

proof fn lemma_c_defs_prefix(env: Env, code: Seq<FunctionCodeV>, ds: Seq<DefV>, k: int)
    requires
        0 <= k <= ds.len(),
        c_defs(env, code, ds.take(k)).2 is Err,
    ensures
        c_defs(env, code, ds) == c_defs(env, code, ds.take(k)),
    decreases ds.len() - k,
{
    if k == ds.len() {
        assert(ds.take(k) =~= ds);
    } else {
        assert(ds.take(k + 1).drop_last() =~= ds.take(k));
        lemma_c_defs_prefix(env, code, ds, k + 1);
    }
}

impl Compiler {
    #[verifier::loop_isolation(false)]
    fn compile_struct_def(&mut self, name: &Name, fields: &Vec<Field>) -> (r: Result<(), Error>)
        ensures
            ({
                let (env1, res) = c_struct(old(self).env(), name_v(*name), fields_v(fields@));
                final(self).env() == env1 && unit_res_ok(r, res)
            }),
            final(self).code() == old(self).code(),
    {
        if self.types.contains_key(name.inner) {
            return Err(error(name.span, "type redefinition"));
        }
        let ghost types = self.env().types;
        let ghost fv = fields_v(fields@);
        let mut raw_fields = Fields::new();
        let mut i: usize = 0;
        assert(fv.take(0) =~= Seq::<BindingV>::empty());
        while i < fields.len()
            invariant
                i <= fields@.len(),
                fv.len() == fields@.len(),
                types == self.env().types,
                self.env() == old(self).env(),
                self.code() == old(self).code(),
                c_fields(types, fv.take(i as int)) == Ok::<_, ErrV>(fields_view(raw_fields)),
            decreases fields@.len() - i,
        {
            assert(fv.take(i + 1).drop_last() =~= fv.take(i as int));
            assert(fv.take(i + 1).last() == fv[i as int]);
            let key = fields[i].name.inner.to_owned();
            assert(fv[i as int].name.text == key@);
            proof {
                lemma_field_index_none(fields_view(raw_fields), key@);
                lemma_field_index_absent(fields_view(raw_fields), key@);
            }
            if raw_fields.contains(key.as_str()) {
                proof {
                    lemma_c_fields_prefix(types, fv, i + 1);
                }
                return Err(error(fields[i].name.span, "field redefinition"));
            }
            let t = match self.raw_type_of(&fields[i].ty) {
                Ok(t) => t,
                Err(e) => {
                    proof {
                        lemma_c_fields_prefix(types, fv, i + 1);
                    }
                    return Err(e);
                },
            };
            raw_fields.insert(key, t);
            i = i + 1;
        }
        assert(fv.take(fields@.len() as int) =~= fv);
        let raw_type = RawType::Struct(name.inner.to_owned(), raw_fields);
        proof {
            lemma_types_insert(self.types@, name.inner@, raw_type);
        }
        self.types.insert(name.inner.to_owned(), raw_type);
        Ok(())
    }

    /// The resolved types of the parameters.
    #[verifier::loop_isolation(false)]
    fn raw_param_types_of(&self, params: &Vec<Param>) -> (r: Result<Vec<RawType>, Error>)
        ensures
            match resolve_all(self.env().types, binding_types(params_v(params@))) {
                Ok(ts) => r matches Ok(x) && rts_v(x@) == ts,
                Err(e) => r matches Err(x) && err_v(x) == e,
            },
    {
        let ghost bts = binding_types(params_v(params@));
        let mut raw_param_types: Vec<RawType> = Vec::new();
        let mut i: usize = 0;
        assert(bts.take(0) =~= Seq::<TypeV>::empty());
        assert(rts_v(raw_param_types@) =~= Seq::<RawTypeV>::empty());
        while i < params.len()
            invariant
                i <= params@.len(),
                resolve_all(self.env().types, bts.take(i as int)) == Ok::<_, ErrV>(rts_v(raw_param_types@)),
            decreases params@.len() - i,
        {
            assert(bts.take(i + 1).drop_last() =~= bts.take(i as int));
            assert(bts[i as int] == type_v(params@[i as int].ty));
            let t = match self.raw_type_of(&params[i].ty) {
                Ok(t) => t,
                Err(e) => {
                    proof {
                        lemma_resolve_all_prefix(self.env().types, bts, i + 1);
                    }
                    return Err(e);
                },
            };
            let ghost before = raw_param_types@;
            raw_param_types.push(t);
            assert(rts_v(raw_param_types@) =~= rts_v(before).push(rt_v(t)));
            i = i + 1;
        }
        assert(bts.take(params@.len() as int) =~= bts);
        Ok(raw_param_types)
    }

    /// The entry of a function: a stack slot for each parameter.
    #[verifier::loop_isolation(false)]
    fn compile_params(params: &Vec<Param>, raw_param_types: &Vec<RawType>) -> (r: Result<FnBuilder, Error>)
        requires
            raw_param_types@.len() == params@.len(),
        ensures
            match c_params(params_v(params@), rts_v(raw_param_types@)) {
                Ok(st) => r matches Ok(fb) && fb.state() == st,
                Err(e) => r matches Err(x) && err_v(x) == e,
            },
    {
        let ghost pv = params_v(params@);
        let ghost rps = rts_v(raw_param_types@);
        let mut fb = FnBuilder { locals: StringHashMap::new(), body: Vec::new() };
        assert(fb.state().locals =~= Map::<Seq<char>, RefInfo>::empty());
        assert(fb.state().body =~= Seq::<InstV>::empty());
        let mut i: usize = 0;
        assert(pv.take(0) =~= Seq::<BindingV>::empty());
        while i < params.len()
            invariant
                i <= params@.len(),
                c_params(pv.take(i as int), rps) == Ok::<_, ErrV>(fb.state()),
            decreases params@.len() - i,
        {
            assert(pv.take(i + 1).drop_last() =~= pv.take(i as int));
            assert(pv.take(i + 1)[i as int] == pv[i as int]);
            let raw_type = raw_param_types[i].duplicate();
            let ptr_value = fb.emit(Inst::Alloca { ty: raw_type.llvm_type(), name: "param".to_owned() });
            let ghost rr = RawRef { ptr_value, raw_type };
            proof {
                lemma_refs_insert(fb.locals@, params@[i as int].name.inner@, rr);
            }
            match define_local(&params[i].name, RawRef { ptr_value, raw_type }, &mut fb.locals) {
                Ok(()) => {},
                Err(e) => {
                    proof {
                        lemma_c_params_prefix(pv, rps, i + 1);
                    }
                    return Err(e);
                },
            }
            fb.emit(Inst::Store { ptr: ptr_value, value: Value::Param(i) });
            i = i + 1;
        }
        assert(pv.take(params@.len() as int) =~= pv);
        Ok(fb)
    }

    /// The value of a function body.
    #[verifier::loop_isolation(false)]
    fn compile_body(&self, body: &Vec<Expr>, fb: &mut FnBuilder) -> (r: Result<RawValue, Error>)
        ensures
            val_res_ok(r, c_body(self.env(), old(fb).state(), exprs_v(body@)), final(fb).state()),
            final(fb).state() == body_state(self.env(), old(fb).state(), exprs_v(body@)),
    {
        let ghost st0 = fb.state();
        let ghost xs = exprs_v(body@);
        let mut value = unit_value();
        let mut j: usize = 0;
        assert(xs.take(0) =~= Seq::<ExprV>::empty());
        while j < body.len()
            invariant
                j <= body@.len(),
                c_body(self.env(), st0, xs.take(j as int)) == Ok::<_, ErrV>((val_info(value), fb.state())),
            decreases body@.len() - j,
        {
            assert(xs.take(j + 1).drop_last() =~= xs.take(j as int));
            assert(xs.take(j + 1).last() == expr_v(body@[j as int]));
            value = match self.compile_expr(&body[j], fb) {
                Ok(v) => v,
                Err(e) => {
                    proof {
                        lemma_c_body_prefix(self.env(), st0, xs, j + 1);
                        lemma_body_state_prefix(self.env(), st0, xs, j + 1);
                    }
                    return Err(e);
                },
            };
            j = j + 1;
        }
        assert(xs.take(body@.len() as int) =~= xs);
        Ok(value)
    }

    /// The instructions of a function's body, its parameters having the
    /// resolved types `raw_param_types`.
    fn compile_fun_body(
        &self,
        params: &Vec<Param>,
        raw_param_types: &Vec<RawType>,
        raw_return_type: &RawType,
        body: &Spanned<Vec<Expr>>,
    ) -> (r: Result<Vec<Inst>, Error>)
        requires
            raw_param_types@.len() == params@.len(),
        ensures
            match c_fun_body(
                self.env(),
                params_v(params@),
                rts_v(raw_param_types@),
                rt_v(*raw_return_type),
                exprs_v(body.inner@),
                body.span,
            ) {
                Ok(insts) => r matches Ok(x) && insts_v(x@) == insts,
                Err(e) => r matches Err(x) && err_v(x) == e,
            },
    {
        let mut fb = Self::compile_params(params, raw_param_types)?;
        let value = self.compile_body(&body.inner, &mut fb)?;
        check_type(&value.raw_type, raw_return_type, body.span)?;
        fb.emit(Inst::Return { value: value.value });
        Ok(fb.body)
    }

    fn compile_fun_def(
        &mut self,
        name: &Name,
        params: &Vec<Param>,
        return_type: &Type,
        body: &Spanned<Vec<Expr>>,
    ) -> (r: Result<(), Error>)
        ensures
            ({
                let (env1, f, res) = c_fun(
                    old(self).env(),
                    old(self).code().len(),
                    name_v(*name),
                    params_v(params@),
                    type_v(*return_type),
                    exprs_v(body.inner@),
                    body.span,
                );
                &&& final(self).env() == env1
                &&& unit_res_ok(r, res)
                &&& match f {
                    Some(f) => final(self).code() == old(self).code().push(f),
                    None => final(self).code() == old(self).code(),
                }
            }),
    {
        let raw_param_types = self.raw_param_types_of(params)?;
        let raw_return_type = self.raw_type_of(return_type)?;
        proof {
            lemma_resolve_all_len(self.env().types, binding_types(params_v(params@)));
        }
        let index = self.functions.len();
        let fun_type = RawType::FunPtr(duplicate_all(&raw_param_types), Box::new(raw_return_type.duplicate()));
        self.define_global(name, RawRef { ptr_value: Value::Function(index), raw_type: fun_type })?;
        let (insts, r) = match self.compile_fun_body(params, &raw_param_types, &raw_return_type, body) {
            Ok(insts) => (insts, Ok(())),
            Err(e) => (Vec::new(), Err(e)),
        };
        let code = FunctionCode {
            name: name.inner.to_owned(),
            ret: raw_return_type.llvm_type(),
            params: llvm_types(&raw_param_types),
            body: insts,
        };
        let ghost before = self.functions@;
        self.functions.push(code);
        assert(insts_v(Seq::<Inst>::empty()) =~= Seq::<InstV>::empty());
        assert(fcodes_v(self.functions@) =~= fcodes_v(before).push(fcode_v(code)));
        r
    }

    fn compile_def(&mut self, def: &Def) -> (r: Result<(), Error>)
        ensures
            ({
                let (env1, code1, res) = c_def(old(self).env(), old(self).code(), def_v(*def));
                final(self).env() == env1 && final(self).code() == code1 && unit_res_ok(r, res)
            }),
    {
        match def {
            Def::Struct(name, fields) => self.compile_struct_def(name, fields),
            Def::Fun(name, params, return_type, body) => self.compile_fun_def(name, params, return_type, body),
        }
    }

    /// Compiles the definitions of a program in order, then checks that it
    /// defines a function `main` of type `fun(): Unit`. The code plan gets
    /// the functions compiled before the first error, if there is one.
    #[verifier::loop_isolation(false)]
    pub fn compile(&mut self, defs: &Vec<Def>) -> (r: Result<(), Error>)
        ensures
            ({
                let (env1, code1, res) = c_program(old(self).env(), old(self).code(), defs_v(defs@));
                final(self).env() == env1 && final(self).code() == code1 && unit_res_ok(r, res)
            }),
    {
        let ghost env0 = self.env();
        let ghost code0 = self.code();
        let ghost dv = defs_v(defs@);
        let mut i: usize = 0;
        assert(dv.take(0) =~= Seq::<DefV>::empty());
        while i < defs.len()
            invariant
                i <= defs@.len(),
                dv.len() == defs@.len(),
                c_defs(env0, code0, dv.take(i as int)) == (self.env(), self.code(), Ok::<(), ErrV>(())),
            decreases defs@.len() - i,
        {
            assert(dv.take(i + 1).drop_last() =~= dv.take(i as int));
            assert(dv.take(i + 1).last() == def_v(defs@[i as int]));
            match self.compile_def(&defs[i]) {
                Ok(()) => {},
                Err(e) => {
                    proof {
                        lemma_c_defs_prefix(env0, code0, dv, i + 1);
                    }
                    return Err(e);
                },
            }
            i = i + 1;
        }
        assert(dv.take(defs@.len() as int) =~= dv);
        let main_name: Name = Spanned { inner: "main", span: Span { start: 0, end: 0 } };
        let raw_main_ref = self.get_global(&main_name)?;
        let no_params: Vec<RawType> = Vec::new();
        assert(rts_v(no_params@) =~= Seq::<RawTypeV>::empty());
        let expected = RawType::FunPtr(no_params, Box::new(RawType::Unit));
        assert(rt_v(RawType::Unit) == RawTypeV::Unit);
        assert(rt_v(expected) == main_type());
        check_type(&raw_main_ref.raw_type, &expected, Span { start: 0, end: 0 })?;
        Ok(())
    }
}

} // verus!
