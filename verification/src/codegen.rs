//! Emits the code plan as an LLVM module, through inkwell.
//!
//! Each instruction of the plan is first turned into the LLVM instruction
//! that `lower::lower_inst` gives for it, with an exact contract; the emitter
//! then builds that instruction. The `llvm::Emitter` records everything built
//! in the module, and `emit_module` states what that record holds: the
//! declarations, and for each instruction the LLVM instruction handed the
//! values that its operands stand for. LLVM values and types themselves stay
//! opaque, so which LLVM type each value has is not stated, and whether LLVM
//! accepts an instruction with operands of the wrong kind is LLVM's to say.
use vstd::prelude::*;
use inkwell::basic_block::BasicBlock;
use inkwell::builder::Builder;
use inkwell::context::Context;
use inkwell::module::Module;
use inkwell::types::{BasicMetadataTypeEnum, BasicType, BasicTypeEnum, FunctionType};
use inkwell::values::{BasicValueEnum, FunctionValue};
use inkwell::AddressSpace;
use crate::ir::{fcode_v, fcodes_v, inst_v, insts_v, FunctionCode, FunctionCodeV, Inst, InstV, Value};
use crate::laws::{body_ok, code_ok, gives_value, inst_ok, value_ok};
use crate::lower::{carries, llvm_inst_v, llvm_of, llvm_operand, llvm_operands, lower_inst, LlvmInst, LlvmInstV, LlvmOperand};
use crate::types::{ll_v, lls_v, LlType, LlTypeV};
use crate::llvm::{
    makes,
    add_function, append_basic_block, build_alloca, build_direct_call, build_global_string_ptr,
    build_int_add, build_load, build_pointer_call, build_pointer_cast, build_return, build_store,
    build_struct_gep, const_i64, const_unit, function_address, get_nth_param, position_at_end, Built,
    Emitter, Made,
};

verus! {

/// inkwell's `Context`, opaque here.
#[verifier::external_type_specification]
#[verifier::external_body]
pub struct ExContext(Context);

/// inkwell's `Module`, opaque here.
#[verifier::external_type_specification]
#[verifier::external_body]
pub struct ExModule<'ctx>(Module<'ctx>);

/// inkwell's `Builder`, opaque here.
#[verifier::external_type_specification]
#[verifier::external_body]
pub struct ExBuilder<'ctx>(Builder<'ctx>);

/// inkwell's `BasicBlock`, opaque here.
#[verifier::external_type_specification]
#[verifier::external_body]
pub struct ExBasicBlock<'ctx>(BasicBlock<'ctx>);

/// inkwell's `FunctionValue`, opaque here.
#[verifier::external_type_specification]
#[verifier::external_body]
pub struct ExFunctionValue<'ctx>(FunctionValue<'ctx>);

/// inkwell's `BasicValueEnum`, opaque here.
#[verifier::external_type_specification]
#[verifier::external_body]
pub struct ExBasicValueEnum<'ctx>(BasicValueEnum<'ctx>);

/// inkwell's `BasicTypeEnum`, opaque here.
#[verifier::external_type_specification]
#[verifier::external_body]
pub struct ExBasicTypeEnum<'ctx>(BasicTypeEnum<'ctx>);

/// inkwell's `FunctionType`, opaque here.
#[verifier::external_type_specification]
#[verifier::external_body]
pub struct ExFunctionType<'ctx>(FunctionType<'ctx>);

// ---------------------------------------------------------------------------
// LLVM types, from inkwell. Each is recorded among the types made for the
// module.
/// `Context::i64_type`.
#[verifier::external_body]
fn i64_type<'ctx>(em: &mut Emitter<'ctx>) -> (r: BasicTypeEnum<'ctx>)
    ensures
        makes(*old(em), *final(em), Made::I64Type(r)),
{
    em.context().i64_type().into()
}

/// `Context::struct_type`, not packed: the struct whose fields have the
/// types `fields`, in order.
#[verifier::external_body]
fn struct_type<'ctx>(em: &mut Emitter<'ctx>, fields: &Vec<BasicTypeEnum<'ctx>>) -> (r: BasicTypeEnum<'ctx>)
    ensures
        makes(*old(em), *final(em), Made::StructType(fields@, r)),
{
    em.context().struct_type(fields.as_slice(), false).into()
}

/// `IntType::ptr_type` of `Context::i8_type`: the type `i8*` that stands for
/// any pointer (this LLVM has typed pointers).
#[verifier::external_body]
fn byte_ptr_type<'ctx>(em: &mut Emitter<'ctx>) -> (r: BasicTypeEnum<'ctx>)
    ensures
        makes(*old(em), *final(em), Made::BytePtrType(r)),
{
    em.context().i8_type().ptr_type(AddressSpace::default()).into()
}

/// `BasicType::fn_type`: the type of functions from `params` to `ret`,
/// without variable arguments.
#[verifier::external_body]
fn fn_type<'ctx>(em: &mut Emitter<'ctx>, ret: BasicTypeEnum<'ctx>, params: &Vec<BasicTypeEnum<'ctx>>) -> (r:
    FunctionType<'ctx>)
    ensures
        makes(*old(em), *final(em), Made::FnType(ret, params@, r)),
{
    let params: Vec<BasicMetadataTypeEnum<'ctx>> = params.iter().map(|p| (*p).into()).collect();
    ret.fn_type(&params, false)
}

/// `VoidType::fn_type` of `Context::void_type`: the type of functions that
/// take `params` and then variable arguments, and return nothing.
#[verifier::external_body]
fn void_var_args_fn_type<'ctx>(em: &mut Emitter<'ctx>, params: &Vec<BasicTypeEnum<'ctx>>) -> (r:
    FunctionType<'ctx>)
    ensures
        makes(*old(em), *final(em), Made::VarArgsFnType(params@, r)),
{
    let params: Vec<BasicMetadataTypeEnum<'ctx>> = params.iter().map(|p| (*p).into()).collect();
    em.context().void_type().fn_type(&params, true)
}

/// `FunctionType::ptr_type`: the type of pointers to functions of type `ty`.
#[verifier::external_body]
fn fn_ptr_type<'ctx>(em: &mut Emitter<'ctx>, ty: FunctionType<'ctx>) -> (r: BasicTypeEnum<'ctx>)
    ensures
        makes(*old(em), *final(em), Made::FnPtrType(ty, r)),
{
    ty.ptr_type(AddressSpace::default()).into()
}

// ---------------------------------------------------------------------------
/// Why a code plan could not be emitted.
#[derive(Debug)]
pub enum EmitError {
    /// An operand refers to nothing that exists where it is used.
    BadOperand,
    /// LLVM did not build an instruction.
    Builder,
    /// An index does not fit LLVM's 32-bit numbers.
    TooLarge,
}

/// `ty` is the LLVM type of the low-level type `t`, as the types made for
/// the module (`made`) show: `i64`, the empty struct, `i8*` for every
/// pointer, or the struct whose fields have, in order, the types of the
/// fields of `t`.
pub open spec fn type_of<'ctx>(made: Set<Made<'ctx>>, t: LlTypeV, ty: BasicTypeEnum<'ctx>) -> bool
    decreases t,
{
    match t {
        LlTypeV::I64 => made.contains(Made::I64Type(ty)),
        LlTypeV::EmptyStruct => made.contains(Made::StructType(Seq::empty(), ty)),
        LlTypeV::Ptr => made.contains(Made::BytePtrType(ty)),
        LlTypeV::Struct(fs) => exists|es: Seq<BasicTypeEnum<'ctx>>|
            #![trigger made.contains(Made::StructType(es, ty))]
            made.contains(Made::StructType(es, ty)) && types_of(made, fs, es),
    }
}

/// `tys` are the LLVM types of the low-level types `ts`, one for one.
pub open spec fn types_of<'ctx>(made: Set<Made<'ctx>>, ts: Seq<LlTypeV>, tys: Seq<BasicTypeEnum<'ctx>>) -> bool
    decreases ts,
{
    if ts.len() == 0 {
        tys.len() == 0
    } else {
        tys.len() == ts.len() && types_of(made, ts.drop_last(), tys.drop_last()) && type_of(
            made,
            ts.last(),
            tys.last(),
        )
    }
}

/// `fty` is the LLVM type of functions from `params` to `ret`: its return
/// type is the type of `ret`, and its parameter types are those of
/// `params`, in order.
pub open spec fn fn_type_of<'ctx>(
    made: Set<Made<'ctx>>,
    ret: LlTypeV,
    params: Seq<LlTypeV>,
    fty: FunctionType<'ctx>,
) -> bool {
    exists|r: BasicTypeEnum<'ctx>, es: Seq<BasicTypeEnum<'ctx>>|
        #![trigger made.contains(Made::FnType(r, es, fty))]
        made.contains(Made::FnType(r, es, fty)) && type_of(made, ret, r) && types_of(made, params, es)
}

proof fn lemma_type_of_grows<'ctx>(m1: Set<Made<'ctx>>, m2: Set<Made<'ctx>>, t: LlTypeV, ty: BasicTypeEnum<'ctx>)
    requires
        m1.subset_of(m2),
        type_of(m1, t, ty),
    ensures
        type_of(m2, t, ty),
    decreases t,
{
    if let LlTypeV::Struct(fs) = t {
        let es = choose|es: Seq<BasicTypeEnum<'ctx>>|
            #![trigger m1.contains(Made::StructType(es, ty))]
            m1.contains(Made::StructType(es, ty)) && types_of(m1, fs, es);
        lemma_types_of_grows(m1, m2, fs, es);
        assert(m2.contains(Made::StructType(es, ty)));
    }
}

proof fn lemma_types_of_grows<'ctx>(
    m1: Set<Made<'ctx>>,
    m2: Set<Made<'ctx>>,
    ts: Seq<LlTypeV>,
    tys: Seq<BasicTypeEnum<'ctx>>,
)
    requires
        m1.subset_of(m2),
        types_of(m1, ts, tys),
    ensures
        types_of(m2, ts, tys),
    decreases ts,
{
    if ts.len() > 0 {
        lemma_types_of_grows(m1, m2, ts.drop_last(), tys.drop_last());
        lemma_type_of_grows(m1, m2, ts.last(), tys.last());
    }
}

proof fn lemma_fn_type_of_grows<'ctx>(
    m1: Set<Made<'ctx>>,
    m2: Set<Made<'ctx>>,
    ret: LlTypeV,
    params: Seq<LlTypeV>,
    fty: FunctionType<'ctx>,
)
    requires
        m1.subset_of(m2),
        fn_type_of(m1, ret, params, fty),
    ensures
        fn_type_of(m2, ret, params, fty),
{
    let (r, es) = choose|r: BasicTypeEnum<'ctx>, es: Seq<BasicTypeEnum<'ctx>>|
        #![trigger m1.contains(Made::FnType(r, es, fty))]
        m1.contains(Made::FnType(r, es, fty)) && type_of(m1, ret, r) && types_of(m1, params, es);
    lemma_type_of_grows(m1, m2, ret, r);
    lemma_types_of_grows(m1, m2, params, es);
    assert(m2.contains(Made::FnType(r, es, fty)));
}

/// `types_of` pairs the types one for one: the `k`-th LLVM type is the
/// type of the `k`-th low-level type.
proof fn lemma_types_of_index<'ctx>(made: Set<Made<'ctx>>, ts: Seq<LlTypeV>, tys: Seq<BasicTypeEnum<'ctx>>)
    ensures
        types_of(made, ts, tys) <==> (tys.len() == ts.len() && forall|k: int|
            0 <= k < ts.len() ==> type_of(made, #[trigger] ts[k], tys[k])),
    decreases ts.len(),
{
    if ts.len() > 0 {
        lemma_types_of_index(made, ts.drop_last(), tys.drop_last());
        if tys.len() == ts.len() && forall|k: int| 0 <= k < ts.len() ==> type_of(made, #[trigger] ts[k], tys[k]) {
            assert forall|k: int| 0 <= k < ts.drop_last().len() implies type_of(
                made,
                #[trigger] ts.drop_last()[k],
                tys.drop_last()[k],
            ) by {
                assert(ts.drop_last()[k] == ts[k]);
                assert(tys.drop_last()[k] == tys[k]);
                assert(type_of(made, ts[k], tys[k]));
            }
            assert(type_of(made, ts[ts.len() - 1], tys[ts.len() - 1]));
        }
        if types_of(made, ts, tys) {
            assert forall|k: int| 0 <= k < ts.len() implies type_of(made, #[trigger] ts[k], tys[k]) by {
                if k < ts.len() - 1 {
                    assert(ts.drop_last()[k] == ts[k]);
                    assert(tys.drop_last()[k] == tys[k]);
                }
            }
        }
    } else {
        if tys.len() == 0 {
        }
    }
}

/// The LLVM type of a struct layout is a struct, not packed, with as many
/// fields as the layout, whose field `k` has the LLVM type of the layout's
/// field `k`, for every `k`: the fields keep their order.
pub proof fn law_struct_type_fields<'ctx>(made: Set<Made<'ctx>>, fs: Seq<LlTypeV>, ty: BasicTypeEnum<'ctx>)
    requires
        type_of(made, LlTypeV::Struct(fs), ty),
    ensures
        exists|es: Seq<BasicTypeEnum<'ctx>>|
            #![trigger made.contains(Made::StructType(es, ty))]
            made.contains(Made::StructType(es, ty)) && es.len() == fs.len() && forall|k: int|
                0 <= k < fs.len() ==> type_of(made, #[trigger] fs[k], es[k]),
{
    let es = choose|es: Seq<BasicTypeEnum<'ctx>>|
        #![trigger made.contains(Made::StructType(es, ty))]
        made.contains(Made::StructType(es, ty)) && types_of(made, fs, es);
    lemma_types_of_index(made, fs, es);
}

/// The LLVM type of functions from `params` to `ret` returns the LLVM type of
/// `ret` and takes, as its parameter `k`, the LLVM type of `params[k]`, for
/// every `k`: the parameters keep their order.
pub proof fn law_fn_type_params<'ctx>(
    made: Set<Made<'ctx>>,
    ret: LlTypeV,
    params: Seq<LlTypeV>,
    fty: FunctionType<'ctx>,
)
    requires
        fn_type_of(made, ret, params, fty),
    ensures
        exists|r: BasicTypeEnum<'ctx>, es: Seq<BasicTypeEnum<'ctx>>|
            #![trigger made.contains(Made::FnType(r, es, fty))]
            made.contains(Made::FnType(r, es, fty)) && type_of(made, ret, r) && es.len() == params.len()
                && forall|k: int| 0 <= k < params.len() ==> type_of(made, #[trigger] params[k], es[k]),
{
    let (r, es) = choose|r: BasicTypeEnum<'ctx>, es: Seq<BasicTypeEnum<'ctx>>|
        #![trigger made.contains(Made::FnType(r, es, fty))]
        made.contains(Made::FnType(r, es, fty)) && type_of(made, ret, r) && types_of(made, params, es);
    lemma_types_of_index(made, params, es);
}

/// The LLVM type of a low-level type: `i64`, an empty struct, `i8*` for
/// every pointer, or a struct of the fields' types, in order.
#[verifier::loop_isolation(false)]
fn llvm_type<'ctx>(em: &mut Emitter<'ctx>, ty: &LlType) -> (r: BasicTypeEnum<'ctx>)
    ensures
        type_of(final(em).made(), ll_v(*ty), r),
        old(em).made().subset_of(final(em).made()),
        final(em).built() == old(em).built(),
        final(em).ctx() == old(em).ctx(),
    decreases ty,
{
    match ty {
        LlType::I64 => i64_type(em),
        LlType::EmptyStruct => {
            let none: Vec<BasicTypeEnum<'ctx>> = Vec::new();
            assert(none@ =~= Seq::<BasicTypeEnum<'ctx>>::empty());
            struct_type(em, &none)
        },
        LlType::Ptr => byte_ptr_type(em),
        LlType::Struct(fields) => {
            let ghost fs = lls_v(fields@);
            let mut types: Vec<BasicTypeEnum<'ctx>> = Vec::new();
            let mut i: usize = 0;
            assert(fs.take(0) =~= Seq::<LlTypeV>::empty());
            while i < fields.len()
                invariant
                    i <= fields@.len(),
                    fs == lls_v(fields@),
                    fs.len() == fields@.len(),
                    types@.len() == i,
                    types_of(em.made(), fs.take(i as int), types@),
                    old(em).made().subset_of(em.made()),
                    em.built() == old(em).built(),
                    em.ctx() == old(em).ctx(),
                decreases fields@.len() - i,
            {
                assert(decreases_to!(*ty => *fields));
                assert(decreases_to!(fields@ => fields@[i as int]));
                let ghost m1 = em.made();
                let ghost before = types@;
                let t = llvm_type(em, &fields[i]);
                proof {
                    lemma_types_of_grows(m1, em.made(), fs.take(i as int), before);
                }
                types.push(t);
                proof {
                    assert(fs.take(i + 1).drop_last() =~= fs.take(i as int));
                    assert(types@.drop_last() =~= before);
                    assert(fs.take(i + 1).last() == fs[i as int]);
                    assert(fs[i as int] == ll_v(fields@[i as int]));
                }
                i = i + 1;
            }
            assert(fs.take(fields@.len() as int) =~= fs);
            let ghost m1 = em.made();
            let r = struct_type(em, &types);
            proof {
                lemma_types_of_grows(m1, em.made(), fs, types@);
                assert(em.made().contains(Made::StructType(types@, r)));
            }
            r
        },
    }
}

/// The LLVM type of functions from `params` to `ret`.
fn llvm_fn_type<'ctx>(em: &mut Emitter<'ctx>, ret: &LlType, params: &Vec<LlType>) -> (r: FunctionType<'ctx>)
    ensures
        fn_type_of(final(em).made(), ll_v(*ret), lls_v(params@), r),
        old(em).made().subset_of(final(em).made()),
        final(em).built() == old(em).built(),
        final(em).ctx() == old(em).ctx(),
{
    let ghost ps = lls_v(params@);
    let mut types: Vec<BasicTypeEnum<'ctx>> = Vec::new();
    let mut i: usize = 0;
    assert(ps.take(0) =~= Seq::<LlTypeV>::empty());
    while i < params.len()
        invariant
            i <= params@.len(),
            ps == lls_v(params@),
            ps.len() == params@.len(),
            types@.len() == i,
            types_of(em.made(), ps.take(i as int), types@),
            old(em).made().subset_of(em.made()),
            em.built() == old(em).built(),
            em.ctx() == old(em).ctx(),
        decreases params@.len() - i,
    {
        let ghost m1 = em.made();
        let ghost before = types@;
        let t = llvm_type(em, &params[i]);
        proof {
            lemma_types_of_grows(m1, em.made(), ps.take(i as int), before);
        }
        types.push(t);
        proof {
            assert(ps.take(i + 1).drop_last() =~= ps.take(i as int));
            assert(types@.drop_last() =~= before);
            assert(ps.take(i + 1).last() == ps[i as int]);
        }
        i = i + 1;
    }
    assert(ps.take(params@.len() as int) =~= ps);
    let ghost m1 = em.made();
    let rt = llvm_type(em, ret);
    proof {
        lemma_types_of_grows(m1, em.made(), ps, types@);
    }
    let ghost m2 = em.made();
    let r = fn_type(em, rt, &types);
    proof {
        lemma_types_of_grows(m2, em.made(), ps, types@);
        lemma_type_of_grows(m2, em.made(), ll_v(*ret), rt);
        assert(em.made().contains(Made::FnType(rt, types@, r)));
    }
    r
}

/// The values of the instructions emitted so far: exactly those that give a
/// value have one.
pub open spec fn regs_match<'ctx>(regs: Seq<Option<BasicValueEnum<'ctx>>>, before: Seq<InstV>) -> bool {
    &&& regs.len() == before.len()
    &&& forall|k: int| 0 <= k < regs.len() ==> ((#[trigger] regs[k]) is Some <==> gives_value(before[k]))
}

/// Whether the emitter finds an operand after the instructions `before`
/// among `nf` declared functions: an earlier instruction that gives a value,
/// or a declared function. Constants and parameters are always looked up.
pub open spec fn value_found(v: Value, before: Seq<InstV>, nf: nat) -> bool {
    match v {
        Value::Reg(i) => i < before.len() && gives_value(before[i as int]),
        Value::Function(i) => i < nf,
        _ => true,
    }
}

/// Whether the emitter finds every operand of an instruction.
pub open spec fn inst_found(i: InstV, before: Seq<InstV>, nf: nat) -> bool {
    match i {
        InstV::Alloca(_, _) => true,
        InstV::Store(p, v) => value_found(p, before, nf) && value_found(v, before, nf),
        InstV::Load(_, p) => value_found(p, before, nf),
        InstV::StructGep(_, p, _) => value_found(p, before, nf),
        InstV::Add(a, b) => value_found(a, before, nf) && value_found(b, before, nf),
        InstV::Print(v) => value_found(v, before, nf),
        InstV::Call(_, _, c, args) => value_found(c, before, nf) && forall|k: int|
            0 <= k < args.len() ==> value_found(#[trigger] args[k], before, nf),
        InstV::Return(v) => value_found(v, before, nf),
    }
}

/// Whether the emitter finds every operand of every instruction of a body.
pub open spec fn operands_found(body: Seq<InstV>, nf: nat) -> bool {
    forall|j: int| 0 <= j < body.len() ==> inst_found(#[trigger] body[j], body.take(j), nf)
}

/// Whether the emitter finds an LLVM operand after the instructions
/// `before` among `nf` declared functions.
pub open spec fn operand_found(o: LlvmOperand, before: Seq<InstV>, nf: nat) -> bool {
    match o {
        LlvmOperand::Value(i) => i < before.len() && gives_value(before[i as int]),
        LlvmOperand::FunctionPtr(i) => i < nf,
        _ => true,
    }
}

/// Whether the emitter finds every operand of an LLVM instruction.
pub open spec fn llvm_found(c: LlvmInstV, before: Seq<InstV>, nf: nat) -> bool {
    match c {
        LlvmInstV::Alloca(_, _) => true,
        LlvmInstV::Store(p, v) => operand_found(p, before, nf) && operand_found(v, before, nf),
        LlvmInstV::Load(p, _) => operand_found(p, before, nf),
        LlvmInstV::StructGep(p, _, _) => operand_found(p, before, nf),
        LlvmInstV::WrappingAdd(a, b, _) => operand_found(a, before, nf) && operand_found(b, before, nf),
        LlvmInstV::Printf(_, _, v, _) => operand_found(v, before, nf),
        LlvmInstV::CallPtr(_, _, c, args, _) => operand_found(c, before, nf) && forall|k: int|
            0 <= k < args.len() ==> operand_found(#[trigger] args[k], before, nf),
        LlvmInstV::Return(v) => operand_found(v, before, nf),
    }
}

/// Whether an LLVM instruction gives a value.
pub open spec fn llvm_gives_value(c: LlvmInstV) -> bool {
    c is Alloca || c is Load || c is StructGep || c is WrappingAdd || c is CallPtr
}

proof fn lemma_operand_found(v: Value, before: Seq<InstV>, nf: nat)
    ensures
        llvm_operand(v) matches Some(o) ==> (operand_found(o, before, nf) <==> value_found(
            v,
            before,
            nf,
        )),
{
}

/// The LLVM instruction finds its operands exactly when the plan's does, and
/// gives a value exactly when the plan's does.
proof fn lemma_llvm_of(i: InstV, before: Seq<InstV>, nf: nat)
    ensures
        llvm_of(i) matches Some(c) ==> (llvm_found(c, before, nf) <==> inst_found(i, before, nf))
            && (llvm_gives_value(c) <==> gives_value(i)),
{
    match i {
        InstV::Store(p, v) => {
            lemma_operand_found(p, before, nf);
            lemma_operand_found(v, before, nf);
        },
        InstV::Load(_, p) => lemma_operand_found(p, before, nf),
        InstV::StructGep(_, p, _) => lemma_operand_found(p, before, nf),
        InstV::Add(a, b) => {
            lemma_operand_found(a, before, nf);
            lemma_operand_found(b, before, nf);
        },
        InstV::Print(v) => lemma_operand_found(v, before, nf),
        InstV::Return(v) => lemma_operand_found(v, before, nf),
        InstV::Call(_, _, c, args) => {
            lemma_operand_found(c, before, nf);
            if let Some(os) = llvm_operands(args) {
                assert forall|k: int| 0 <= k < args.len() implies (operand_found(
                    #[trigger] os[k],
                    before,
                    nf,
                ) <==> value_found(args[k], before, nf)) by {
                    assert(llvm_operand(args[k]) is Some);
                    lemma_operand_found(args[k], before, nf);
                }
                if inst_found(i, before, nf) {
                    assert forall|k: int| 0 <= k < os.len() implies operand_found(
                        #[trigger] os[k],
                        before,
                        nf,
                    ) by {
                        assert(value_found(args[k], before, nf));
                    }
                }
                if let Some(co) = llvm_operand(c) {
                    if let InstV::Call(ret, ps, _, _) = i {
                        let cmd = LlvmInstV::CallPtr(ret, ps, co, os, "call"@);
                        assert(llvm_of(i) == Some(cmd));
                        if llvm_found(cmd, before, nf) {
                            assert forall|k: int| 0 <= k < args.len() implies value_found(
                                #[trigger] args[k],
                                before,
                                nf,
                            ) by {
                                assert(os.len() == args.len());
                                assert(cmd->CallPtr_3 == os);
                                assert(cmd->CallPtr_3[k] == os[k]);
                                assert(operand_found(cmd->CallPtr_3[k], before, nf));
                                assert(operand_found(os[k], before, nf));
                            }
                        }
                    }
                }
            }
        },
        _ => {},
    }
}

/// An instruction whose operands exist, among functions no more than are
/// declared, has its operands found.
proof fn lemma_inst_ok_found(i: InstV, before: Seq<InstV>, np: nat, nf: nat, nd: nat)
    requires
        nf <= nd,
    ensures
        inst_ok(i, before, np, nf) ==> inst_found(i, before, nd),
{
    if let InstV::Call(_, _, c, args) = i {
        if inst_ok(i, before, np, nf) {
            assert forall|k: int| 0 <= k < args.len() implies value_found(
                #[trigger] args[k],
                before,
                nd,
            ) by {
                assert(value_ok(args[k], before, np, nf));
            }
        }
    }
}

/// Whether every instruction of a body has an LLVM instruction.
pub open spec fn lowerable(body: Seq<InstV>) -> bool {
    forall|j: int| 0 <= j < body.len() ==> (#[trigger] llvm_of(body[j])) is Some
}

// ---------------------------------------------------------------------------
// What the emitter builds
/// The LLVM value `x` is what the operand `o` stands for, where `regs` are
/// the values of the earlier instructions of the function `fun`, `funs` the
/// declared functions, and `made` the constants made: the value of an
/// earlier instruction, the constant, the address of the declared function,
/// or the parameter of `fun`.
pub open spec fn denotes<'ctx>(
    o: LlvmOperand,
    regs: Seq<Option<BasicValueEnum<'ctx>>>,
    fun: FunctionValue<'ctx>,
    funs: Seq<FunctionValue<'ctx>>,
    made: Set<Made<'ctx>>,
    x: BasicValueEnum<'ctx>,
) -> bool {
    match o {
        LlvmOperand::Value(i) => i < regs.len() && regs[i as int] == Some(x),
        LlvmOperand::ConstI64(n) => made.contains(Made::ConstInt(n, x)),
        LlvmOperand::ConstUnit => made.contains(Made::ConstUnit(x)),
        LlvmOperand::FunctionPtr(i) => i < funs.len() && made.contains(Made::Address(funs[i as int], x)),
        LlvmOperand::Param(n) => made.contains(Made::Param(fun, n, x)),
    }
}

/// How many things building an LLVM instruction builds: a call of `printf`
/// also builds its format string, and a call through a pointer the cast of
/// the pointer to the callee's type.
pub open spec fn cmd_len(c: LlvmInstV) -> nat {
    match c {
        LlvmInstV::Printf(_, _, _, _) => 2,
        LlvmInstV::CallPtr(_, _, _, _, _) => 2,
        _ => 1,
    }
}

/// The value that something built gives, if any.
pub open spec fn result_of<'ctx>(b: Built<'ctx>) -> Option<BasicValueEnum<'ctx>> {
    match b {
        Built::Alloca { result, .. } => Some(result),
        Built::Load { result, .. } => Some(result),
        Built::StructGep { result, .. } => Some(result),
        Built::IntAdd { result, .. } => Some(result),
        Built::PointerCall { result, .. } => Some(result),
        _ => None,
    }
}

/// `seg` is what building the LLVM instruction `c` builds: the instruction,
/// handed the values that its operands stand for.
pub open spec fn cmd_built<'ctx>(
    c: LlvmInstV,
    regs: Seq<Option<BasicValueEnum<'ctx>>>,
    fun: FunctionValue<'ctx>,
    funs: Seq<FunctionValue<'ctx>>,
    printf: FunctionValue<'ctx>,
    made: Set<Made<'ctx>>,
    seg: Seq<Built<'ctx>>,
) -> bool {
    &&& seg.len() == cmd_len(c)
    &&& match c {
        LlvmInstV::Alloca(t, name) => seg[0] matches Built::Alloca { ty, name: n, .. } && n == name
            && type_of(made, t, ty),
        LlvmInstV::Store(p, v) => seg[0] matches Built::Store { ptr, value } && denotes(
            p,
            regs,
            fun,
            funs,
            made,
            ptr,
        ) && denotes(v, regs, fun, funs, made, value),
        LlvmInstV::Load(p, name) => seg[0] matches Built::Load { ptr, name: n, .. } && n == name
            && denotes(p, regs, fun, funs, made, ptr),
        LlvmInstV::StructGep(p, k, name) => seg[0] matches Built::StructGep { ptr, index, name: n, .. }
            && index == k && n == name && denotes(p, regs, fun, funs, made, ptr),
        LlvmInstV::WrappingAdd(a, b, name) => seg[0] matches Built::IntAdd { lhs, rhs, name: n, .. }
            && n == name && denotes(a, regs, fun, funs, made, lhs) && denotes(b, regs, fun, funs, made, rhs),
        LlvmInstV::Printf(fmt, fname, v, name) => match (seg[0], seg[1]) {
            (
                Built::GlobalString { value: f, name: n0, result: g },
                Built::DirectCall { fun: pf, args, name: n1 },
            ) => f == fmt && n0 == fname && pf == printf && n1 == name && args.len() == 2 && args[0] == g
                && denotes(v, regs, fun, funs, made, args[1]),
            _ => false,
        },
        LlvmInstV::CallPtr(_, _, callee, args, name) => match (seg[0], seg[1]) {
            (
                Built::PointerCast { value: cv, name: n0, result: t },
                Built::PointerCall { callee: t2, args: xs, name: n1, .. },
            ) => n0 == "callee"@ && denotes(callee, regs, fun, funs, made, cv) && t2 == t && n1 == name
                && xs.len() == args.len() && forall|k: int|
                0 <= k < args.len() ==> denotes(#[trigger] args[k], regs, fun, funs, made, xs[k]),
            _ => false,
        },
        LlvmInstV::Return(v) => seg[0] matches Built::Return { value } && denotes(
            v,
            regs,
            fun,
            funs,
            made,
            value,
        ),
    }
}

/// How many things building a body builds.
pub open spec fn body_len(b: Seq<InstV>) -> nat
    decreases b.len(),
{
    if b.len() == 0 {
        0
    } else {
        body_len(b.drop_last()) + match llvm_of(b.last()) {
            Some(c) => cmd_len(c),
            None => 0,
        }
    }
}

/// The values of the instructions of a body, read from what was built.
pub open spec fn body_regs<'ctx>(b: Seq<InstV>, log: Seq<Built<'ctx>>) -> Seq<Option<BasicValueEnum<'ctx>>>
    decreases b.len(),
{
    if b.len() == 0 {
        seq![]
    } else {
        body_regs(b.drop_last(), log.take(body_len(b.drop_last()) as int)).push(result_of(log.last()))
    }
}

/// `log` is what building the body `b` of `fun` builds: for each
/// instruction in turn, what building its LLVM instruction builds.
pub open spec fn body_built<'ctx>(
    b: Seq<InstV>,
    fun: FunctionValue<'ctx>,
    funs: Seq<FunctionValue<'ctx>>,
    printf: FunctionValue<'ctx>,
    made: Set<Made<'ctx>>,
    log: Seq<Built<'ctx>>,
) -> bool
    decreases b.len(),
{
    if b.len() == 0 {
        log.len() == 0
    } else {
        let n = body_len(b.drop_last()) as int;
        &&& llvm_of(b.last()) is Some
        &&& log.len() == body_len(b)
        &&& body_built(b.drop_last(), fun, funs, printf, made, log.take(n))
        &&& cmd_built(
            llvm_of(b.last())->Some_0,
            body_regs(b.drop_last(), log.take(n)),
            fun,
            funs,
            printf,
            made,
            log.skip(n),
        )
    }
}

/// `log` is what building the function `code` as `fun` builds: its entry
/// block, the builder placed there, then its body.
pub open spec fn fun_built<'ctx>(
    code: FunctionCodeV,
    fun: FunctionValue<'ctx>,
    funs: Seq<FunctionValue<'ctx>>,
    printf: FunctionValue<'ctx>,
    made: Set<Made<'ctx>>,
    log: Seq<Built<'ctx>>,
) -> bool {
    &&& log.len() == 2 + body_len(code.body)
    &&& log[0] matches Built::AppendBlock { fun: f, name, result: block } && f == fun && name == "entry"@
        && log[1] == Built::PositionAtEnd { block }
    &&& body_built(code.body, fun, funs, printf, made, log.skip(2))
}

/// How many things building functions builds.
pub open spec fn funcs_len(plan: Seq<FunctionCodeV>) -> nat
    decreases plan.len(),
{
    if plan.len() == 0 {
        0
    } else {
        funcs_len(plan.drop_last()) + 2 + body_len(plan.last().body)
    }
}

/// `log` is what building the functions of `plan` as `funs` builds, in
/// order.
pub open spec fn funcs_built<'ctx>(
    plan: Seq<FunctionCodeV>,
    funs: Seq<FunctionValue<'ctx>>,
    printf: FunctionValue<'ctx>,
    made: Set<Made<'ctx>>,
    log: Seq<Built<'ctx>>,
) -> bool
    decreases plan.len(),
{
    if plan.len() == 0 {
        log.len() == 0
    } else {
        let n = funcs_len(plan.drop_last()) as int;
        &&& log.len() == funcs_len(plan)
        &&& funcs_built(plan.drop_last(), funs, printf, made, log.take(n))
        &&& fun_built(plan.last(), funs[plan.len() - 1], funs, printf, made, log.skip(n))
    }
}

/// The function that a declaration gives.
pub open spec fn declared<'ctx>(b: Built<'ctx>) -> FunctionValue<'ctx> {
    b->AddFunction_result
}

/// The functions of the plan, as declared after `printf`.
pub open spec fn declared_funs<'ctx>(built: Seq<Built<'ctx>>, n: nat) -> Seq<FunctionValue<'ctx>> {
    Seq::new(n, |i: int| declared(built[1 + i]))
}

/// `fty` is the type of `printf`: it takes an `i8*` and then variable
/// arguments, and returns nothing.
pub open spec fn printf_type<'ctx>(made: Set<Made<'ctx>>, fty: FunctionType<'ctx>) -> bool {
    exists|bp: BasicTypeEnum<'ctx>|
        #![trigger made.contains(Made::BytePtrType(bp))]
        made.contains(Made::BytePtrType(bp)) && made.contains(Made::VarArgsFnType(seq![bp], fty))
}

/// `built` is what emitting `plan` builds: the declaration of `printf`, the
/// declaration of each function of the plan under its name and with the
/// LLVM type of its return and parameter types, in order, and then each
/// function, in order.
pub open spec fn module_built<'ctx>(plan: Seq<FunctionCodeV>, built: Seq<Built<'ctx>>, made: Set<Made<'ctx>>) -> bool {
    let p = plan.len() as int;
    &&& built.len() >= p + 1
    &&& built[0] matches Built::AddFunction { name, ty, .. } && name == "printf"@ && printf_type(made, ty)
    &&& forall|i: int|
        0 <= i < p ==> ((#[trigger] built[1 + i]) matches Built::AddFunction { name, ty, .. } && name
            == plan[i].name && fn_type_of(made, plan[i].ret, plan[i].params, ty))
    &&& funcs_built(plan, declared_funs(built, p as nat), declared(built[0]), made, built.skip(p + 1))
}

proof fn lemma_denotes_grows<'ctx>(
    o: LlvmOperand,
    regs: Seq<Option<BasicValueEnum<'ctx>>>,
    fun: FunctionValue<'ctx>,
    funs: Seq<FunctionValue<'ctx>>,
    m1: Set<Made<'ctx>>,
    m2: Set<Made<'ctx>>,
    x: BasicValueEnum<'ctx>,
)
    requires
        m1.subset_of(m2),
        denotes(o, regs, fun, funs, m1, x),
    ensures
        denotes(o, regs, fun, funs, m2, x),
{
}

proof fn lemma_cmd_built_grows<'ctx>(
    c: LlvmInstV,
    regs: Seq<Option<BasicValueEnum<'ctx>>>,
    fun: FunctionValue<'ctx>,
    funs: Seq<FunctionValue<'ctx>>,
    printf: FunctionValue<'ctx>,
    m1: Set<Made<'ctx>>,
    m2: Set<Made<'ctx>>,
    seg: Seq<Built<'ctx>>,
)
    requires
        m1.subset_of(m2),
        cmd_built(c, regs, fun, funs, printf, m1, seg),
    ensures
        cmd_built(c, regs, fun, funs, printf, m2, seg),
{
    if let LlvmInstV::Alloca(t, _) = c {
        if let Built::Alloca { ty, .. } = seg[0] {
            lemma_type_of_grows(m1, m2, t, ty);
        }
    }
    if let LlvmInstV::CallPtr(_, _, callee, args, _) = c {
        if let Built::PointerCall { args: xs, .. } = seg[1] {
            assert forall|k: int| 0 <= k < args.len() implies denotes(
                #[trigger] args[k],
                regs,
                fun,
                funs,
                m2,
                xs[k],
            ) by {
                lemma_denotes_grows(args[k], regs, fun, funs, m1, m2, xs[k]);
            }
        }
    }
}

proof fn lemma_body_built_grows<'ctx>(
    b: Seq<InstV>,
    fun: FunctionValue<'ctx>,
    funs: Seq<FunctionValue<'ctx>>,
    printf: FunctionValue<'ctx>,
    m1: Set<Made<'ctx>>,
    m2: Set<Made<'ctx>>,
    log: Seq<Built<'ctx>>,
)
    requires
        m1.subset_of(m2),
        body_built(b, fun, funs, printf, m1, log),
    ensures
        body_built(b, fun, funs, printf, m2, log),
    decreases b.len(),
{
    if b.len() > 0 {
        let n = body_len(b.drop_last()) as int;
        lemma_body_built_grows(b.drop_last(), fun, funs, printf, m1, m2, log.take(n));
        lemma_cmd_built_grows(
            llvm_of(b.last())->Some_0,
            body_regs(b.drop_last(), log.take(n)),
            fun,
            funs,
            printf,
            m1,
            m2,
            log.skip(n),
        );
    }
}

proof fn lemma_funcs_built_grows<'ctx>(
    plan: Seq<FunctionCodeV>,
    funs: Seq<FunctionValue<'ctx>>,
    printf: FunctionValue<'ctx>,
    m1: Set<Made<'ctx>>,
    m2: Set<Made<'ctx>>,
    log: Seq<Built<'ctx>>,
)
    requires
        m1.subset_of(m2),
        funcs_built(plan, funs, printf, m1, log),
    ensures
        funcs_built(plan, funs, printf, m2, log),
    decreases plan.len(),
{
    if plan.len() > 0 {
        let n = funcs_len(plan.drop_last()) as int;
        lemma_funcs_built_grows(plan.drop_last(), funs, printf, m1, m2, log.take(n));
        lemma_body_built_grows(
            plan.last().body,
            funs[plan.len() - 1],
            funs,
            printf,
            m1,
            m2,
            log.skip(n).skip(2),
        );
    }
}

/// A parameter operand has an index below `u32::MAX`.
pub open spec fn operand_fits(o: LlvmOperand) -> bool {
    o matches LlvmOperand::Param(n) ==> n < u32::MAX
}

/// Every parameter operand of an LLVM instruction has an index below
/// `u32::MAX`, as `lower_inst` gives them.
pub open spec fn operands_fit(c: LlvmInstV) -> bool {
    match c {
        LlvmInstV::Alloca(_, _) => true,
        LlvmInstV::Store(p, v) => operand_fits(p) && operand_fits(v),
        LlvmInstV::Load(p, _) => operand_fits(p),
        LlvmInstV::StructGep(p, _, _) => operand_fits(p),
        LlvmInstV::WrappingAdd(a, b, _) => operand_fits(a) && operand_fits(b),
        LlvmInstV::Printf(_, _, v, _) => operand_fits(v),
        LlvmInstV::CallPtr(_, _, c, args, _) => operand_fits(c) && forall|k: int|
            0 <= k < args.len() ==> operand_fits(#[trigger] args[k]),
        LlvmInstV::Return(v) => operand_fits(v),
    }
}

proof fn lemma_llvm_of_fits(i: InstV)
    ensures
        llvm_of(i) matches Some(c) ==> operands_fit(c),
{
    if let InstV::Call(_, _, _, args) = i {
        if let Some(os) = llvm_operands(args) {
            assert forall|k: int| 0 <= k < os.len() implies operand_fits(#[trigger] os[k]) by {
                assert(llvm_operand(args[k]) is Some);
            }
        }
    }
}

/// A builder error comes only after inkwell refused a call: the record then
/// ends with the refusal.
pub open spec fn ends_refused<'ctx>(built: Seq<Built<'ctx>>) -> bool {
    built.len() > 0 && built.last() == Built::Refused
}

/// In an emitted module, the function `i` of the plan is declared under its
/// name with the LLVM type whose return type is that of its return type and
/// whose parameter `k` has the LLVM type of its parameter `k`, in order; and
/// `printf` takes an `i8*` and then variable arguments, and returns nothing.
pub proof fn law_declarations_have_their_types<'ctx>(
    plan: Seq<FunctionCodeV>,
    built: Seq<Built<'ctx>>,
    made: Set<Made<'ctx>>,
    i: int,
)
    requires
        module_built(plan, built, made),
        0 <= i < plan.len(),
    ensures
        built[1 + i] matches Built::AddFunction { name, ty, .. } && name == plan[i].name && exists|
            r: BasicTypeEnum<'ctx>,
            es: Seq<BasicTypeEnum<'ctx>>,
        |
            #![trigger made.contains(Made::FnType(r, es, ty))]
            made.contains(Made::FnType(r, es, ty)) && type_of(made, plan[i].ret, r) && es.len()
                == plan[i].params.len() && forall|k: int|
                0 <= k < es.len() ==> type_of(made, #[trigger] plan[i].params[k], es[k]),
        built[0] matches Built::AddFunction { name, ty, .. } && name == "printf"@ && printf_type(made, ty),
{
    assert(built[1 + i] matches Built::AddFunction { .. });
    if let Built::AddFunction { name, ty, .. } = built[1 + i] {
        law_fn_type_params(made, plan[i].ret, plan[i].params, ty);
    }
}

proof fn lemma_body_len_prefix(b: Seq<InstV>, j: int)
    requires
        0 <= j < b.len(),
    ensures
        body_len(b.take(j)) <= body_len(b.take(j + 1)),
{
    assert(b.take(j + 1).drop_last() =~= b.take(j));
}

/// What building instruction `j` of a body built: the part of the record
/// from where the instructions before it end to where it ends, built with
/// the values of the instructions before it.
pub proof fn law_instruction_built<'ctx>(
    b: Seq<InstV>,
    fun: FunctionValue<'ctx>,
    funs: Seq<FunctionValue<'ctx>>,
    printf: FunctionValue<'ctx>,
    made: Set<Made<'ctx>>,
    log: Seq<Built<'ctx>>,
    j: int,
)
    requires
        body_built(b, fun, funs, printf, made, log),
        0 <= j < b.len(),
    ensures
        body_len(b.take(j)) <= body_len(b.take(j + 1)) <= log.len(),
        llvm_of(b[j]) is Some,
        cmd_built(
            llvm_of(b[j])->Some_0,
            body_regs(b.take(j), log.take(body_len(b.take(j)) as int)),
            fun,
            funs,
            printf,
            made,
            log.subrange(body_len(b.take(j)) as int, body_len(b.take(j + 1)) as int),
        ),
    decreases b.len(),
{
    lemma_body_len_prefix(b, j);
    let n = body_len(b.drop_last()) as int;
    if j == b.len() - 1 {
        assert(b.take(j) =~= b.drop_last());
        assert(b.take(j + 1) =~= b);
        assert(log.subrange(n, log.len() as int) =~= log.skip(n));
    } else {
        let d = b.drop_last();
        let l2 = log.take(n);
        law_instruction_built(d, fun, funs, printf, made, l2, j);
        assert(d.take(j) =~= b.take(j));
        assert(d.take(j + 1) =~= b.take(j + 1));
        assert(d[j] == b[j]);
        let x = body_len(b.take(j)) as int;
        let y = body_len(b.take(j + 1)) as int;
        assert(l2.subrange(x, y) =~= log.subrange(x, y));
        assert(l2.take(x) =~= log.take(x));
    }
}

proof fn lemma_funcs_len_prefix(plan: Seq<FunctionCodeV>, i: int)
    requires
        0 <= i < plan.len(),
    ensures
        funcs_len(plan.take(i)) + 2 + body_len(plan[i].body) == funcs_len(plan.take(i + 1)),
{
    assert(plan.take(i + 1).drop_last() =~= plan.take(i));
    assert(plan.take(i + 1).last() == plan[i]);
}

/// What building function `i` of the plan built: the part of the record
/// from where the functions before it end to where it ends.
pub proof fn law_function_built<'ctx>(
    plan: Seq<FunctionCodeV>,
    funs: Seq<FunctionValue<'ctx>>,
    printf: FunctionValue<'ctx>,
    made: Set<Made<'ctx>>,
    log: Seq<Built<'ctx>>,
    i: int,
)
    requires
        funcs_built(plan, funs, printf, made, log),
        0 <= i < plan.len(),
    ensures
        funcs_len(plan.take(i)) <= funcs_len(plan.take(i + 1)) <= log.len(),
        fun_built(
            plan[i],
            funs[i],
            funs,
            printf,
            made,
            log.subrange(funcs_len(plan.take(i)) as int, funcs_len(plan.take(i + 1)) as int),
        ),
    decreases plan.len(),
{
    lemma_funcs_len_prefix(plan, i);
    let n = funcs_len(plan.drop_last()) as int;
    if i == plan.len() - 1 {
        assert(plan.take(i) =~= plan.drop_last());
        assert(plan.take(i + 1) =~= plan);
        assert(log.subrange(n, log.len() as int) =~= log.skip(n));
    } else {
        let d = plan.drop_last();
        let l2 = log.take(n);
        law_function_built(d, funs, printf, made, l2, i);
        assert(d.take(i) =~= plan.take(i));
        assert(d.take(i + 1) =~= plan.take(i + 1));
        assert(d[i] == plan[i]);
        let x = funcs_len(plan.take(i)) as int;
        let y = funcs_len(plan.take(i + 1)) as int;
        assert(l2.subrange(x, y) =~= log.subrange(x, y));
    }
}

/// In an emitted module, instruction `j` of function `i` of the plan was
/// built as an LLVM instruction that carries it (the same operation, on the
/// same operands in their places, with the same field index, types and
/// names), in the part of the record that building function `i` built,
/// after the parts of the instructions before it, handed the values that its
/// operands stand for.
pub proof fn law_emitted_instruction<'ctx>(
    plan: Seq<FunctionCodeV>,
    built: Seq<Built<'ctx>>,
    made: Set<Made<'ctx>>,
    i: int,
    j: int,
)
    requires
        module_built(plan, built, made),
        0 <= i < plan.len(),
        0 <= j < plan[i].body.len(),
    ensures
        ({
            let p = plan.len() as int;
            let funs = declared_funs(built, p as nat);
            let flog = built.skip(p + 1).subrange(
                funcs_len(plan.take(i)) as int,
                funcs_len(plan.take(i + 1)) as int,
            );
            let blog = flog.skip(2);
            let b = plan[i].body;
            &&& flog[0] matches Built::AppendBlock { fun, .. } && fun == funs[i]
            &&& llvm_of(b[j]) is Some
            &&& carries(b[j], llvm_of(b[j])->Some_0)
            &&& cmd_built(
                llvm_of(b[j])->Some_0,
                body_regs(b.take(j), blog.take(body_len(b.take(j)) as int)),
                funs[i],
                funs,
                declared(built[0]),
                made,
                blog.subrange(body_len(b.take(j)) as int, body_len(b.take(j + 1)) as int),
            )
        }),
{
    let p = plan.len() as int;
    let funs = declared_funs(built, p as nat);
    law_function_built(plan, funs, declared(built[0]), made, built.skip(p + 1), i);
    let flog = built.skip(p + 1).subrange(funcs_len(plan.take(i)) as int, funcs_len(plan.take(i + 1)) as int);
    law_instruction_built(plan[i].body, funs[i], funs, declared(built[0]), made, flog.skip(2), j);
    crate::lower::law_lowering_keeps_the_instruction(plan[i].body[j]);
}

/// The places where an instruction's operands are found: the values of the
/// earlier instructions, the function's parameters, the declared functions.
struct Frame<'a, 'ctx> {
    fun: FunctionValue<'ctx>,
    funs: &'a Vec<FunctionValue<'ctx>>,
    printf: FunctionValue<'ctx>,
}

impl<'a, 'ctx> Frame<'a, 'ctx> {
    /// The LLVM value of an operand: the value of an earlier instruction, a
    /// constant, the address of a declared function cast to `i8*`, or a
    /// parameter.
    fn operand(&self, em: &mut Emitter<'ctx>, regs: &Vec<Option<BasicValueEnum<'ctx>>>, o: &LlvmOperand) -> (r: Result<
        BasicValueEnum<'ctx>,
        EmitError,
    >)
        requires
            operand_fits(*o),
        ensures
            match *o {
                LlvmOperand::Value(i) => if i < regs@.len() && regs@[i as int] is Some {
                    r == Ok::<BasicValueEnum<'ctx>, EmitError>(regs@[i as int]->Some_0)
                } else {
                    r matches Err(EmitError::BadOperand)
                },
                LlvmOperand::ConstI64(_) => r is Ok,
                LlvmOperand::ConstUnit => r is Ok,
                LlvmOperand::FunctionPtr(i) => (r matches Err(EmitError::BadOperand)) <==> i
                    >= self.funs@.len(),
                LlvmOperand::Param(_) => !(r matches Err(EmitError::BadOperand)),
            },
            !(r matches Err(EmitError::TooLarge)),
            r matches Ok(x) ==> denotes(*o, regs@, self.fun, self.funs@, final(em).made(), x),
            r matches Err(EmitError::Builder) ==> final(em).built() == old(em).built().push(Built::Refused),
            !(r matches Err(EmitError::Builder)) ==> final(em).built() == old(em).built(),
            old(em).made().subset_of(final(em).made()),
            final(em).ctx() == old(em).ctx(),
    {
        match o {
            LlvmOperand::Value(i) => {
                if *i < regs.len() {
                    match regs[*i] {
                        Some(x) => Ok(x),
                        None => Err(EmitError::BadOperand),
                    }
                } else {
                    Err(EmitError::BadOperand)
                }
            },
            LlvmOperand::ConstI64(n) => Ok(const_i64(em, *n)),
            LlvmOperand::ConstUnit => Ok(const_unit(em)),
            LlvmOperand::FunctionPtr(i) => {
                if *i < self.funs.len() {
                    let to = byte_ptr_type(em);
                    match function_address(em, self.funs[*i], to) {
                        Some(p) => Ok(p),
                        None => Err(EmitError::Builder),
                    }
                } else {
                    Err(EmitError::BadOperand)
                }
            },
            LlvmOperand::Param(i) => {
                match get_nth_param(em, self.fun, *i) {
                    Some(p) => Ok(p),
                    None => Err(EmitError::Builder),
                }
            },
        }
    }

    /// Builds one LLVM instruction; gives its value, if it gives one.
    #[verifier::loop_isolation(false)]
    fn run(
        &self,
        em: &mut Emitter<'ctx>,
        regs: &Vec<Option<BasicValueEnum<'ctx>>>,
        cmd: &LlvmInst,
        Ghost(before): Ghost<Seq<InstV>>,
    ) -> (r: Result<Option<BasicValueEnum<'ctx>>, EmitError>)
        requires
            operands_fit(llvm_inst_v(*cmd)),
        ensures
            r matches Err(EmitError::Builder) ==> ends_refused(final(em).built()),
            r matches Ok(v) ==> (v is Some <==> llvm_gives_value(llvm_inst_v(*cmd))),
            !(r matches Err(EmitError::TooLarge)),
            regs_match(regs@, before) ==> (r is Ok ==> llvm_found(
                llvm_inst_v(*cmd),
                before,
                self.funs@.len(),
            )) && (r matches Err(EmitError::BadOperand) ==> !llvm_found(
                llvm_inst_v(*cmd),
                before,
                self.funs@.len(),
            )),
            r matches Ok(v) ==> {
                let n = old(em).built().len() as int;
                &&& final(em).built().len() == n + cmd_len(llvm_inst_v(*cmd))
                &&& final(em).built().take(n) == old(em).built()
                &&& cmd_built(
                    llvm_inst_v(*cmd),
                    regs@,
                    self.fun,
                    self.funs@,
                    self.printf,
                    final(em).made(),
                    final(em).built().skip(n),
                )
                &&& v == result_of(final(em).built().last())
            },
            old(em).made().subset_of(final(em).made()),
            final(em).ctx() == old(em).ctx(),
    {
        let ghost nf = self.funs@.len();
        let ghost b0 = em.built();
        let ghost n = b0.len() as int;
        match cmd {
            LlvmInst::Alloca { ty, name } => {
                let t = llvm_type(em, ty);
                match build_alloca(em, t, name.as_str()) {
                    Some(p) => {
                        assert(em.built().skip(n) =~= seq![em.built()[n]]);
                        assert(em.built().take(n) =~= b0);
                        Ok(Some(p))
                    },
                    None => Err(EmitError::Builder),
                }
            },
            LlvmInst::Store { ptr, value } => {
                let p = self.operand(em, regs, ptr)?;
                let ghost m1 = em.made();
                let v = self.operand(em, regs, value)?;
                proof {
                    lemma_denotes_grows(*ptr, regs@, self.fun, self.funs@, m1, em.made(), p);
                }
                if build_store(em, p, v) {
                    assert(em.built().skip(n) =~= seq![em.built()[n]]);
                    assert(em.built().take(n) =~= b0);
                    Ok(None)
                } else {
                    Err(EmitError::Builder)
                }
            },
            LlvmInst::Load { ptr, name } => {
                let p = self.operand(em, regs, ptr)?;
                match build_load(em, p, name.as_str()) {
                    Some(v) => {
                        assert(em.built().skip(n) =~= seq![em.built()[n]]);
                        assert(em.built().take(n) =~= b0);
                        Ok(Some(v))
                    },
                    None => Err(EmitError::Builder),
                }
            },
            LlvmInst::StructGep { ptr, index, name } => {
                let p = self.operand(em, regs, ptr)?;
                match build_struct_gep(em, p, *index, name.as_str()) {
                    Some(v) => {
                        assert(em.built().skip(n) =~= seq![em.built()[n]]);
                        assert(em.built().take(n) =~= b0);
                        Ok(Some(v))
                    },
                    None => Err(EmitError::Builder),
                }
            },
            LlvmInst::WrappingAdd { lhs, rhs, name } => {
                let l = self.operand(em, regs, lhs)?;
                let ghost m1 = em.made();
                let r = self.operand(em, regs, rhs)?;
                proof {
                    lemma_denotes_grows(*lhs, regs@, self.fun, self.funs@, m1, em.made(), l);
                }
                match build_int_add(em, l, r, name.as_str()) {
                    Some(v) => {
                        assert(em.built().skip(n) =~= seq![em.built()[n]]);
                        assert(em.built().take(n) =~= b0);
                        Ok(Some(v))
                    },
                    None => Err(EmitError::Builder),
                }
            },
            LlvmInst::Printf { format, format_name, value, name } => {
                let v = self.operand(em, regs, value)?;
                let fmt = match build_global_string_ptr(em, format.as_str(), format_name.as_str()) {
                    Some(f) => f,
                    None => return Err(EmitError::Builder),
                };
                let args = vec![fmt, v];
                if build_direct_call(em, self.printf, &args, name.as_str()) {
                    assert(em.built().skip(n) =~= seq![em.built()[n], em.built()[n + 1]]);
                    assert(em.built().take(n) =~= b0);
                    assert(args@ == seq![fmt, v]);
                    Ok(None)
                } else {
                    Err(EmitError::Builder)
                }
            },
            LlvmInst::CallPtr { ret, params, callee, args, name } => {
                let c = self.operand(em, regs, callee)?;
                let mut values: Vec<BasicValueEnum<'ctx>> = Vec::new();
                let mut i: usize = 0;
                while i < args.len()
                    invariant
                        i <= args@.len(),
                        values@.len() == i,
                        em.built() == b0,
                        em.ctx() == old(em).ctx(),
                        old(em).made().subset_of(em.made()),
                        llvm_inst_v(*cmd) == LlvmInstV::CallPtr(
                            ll_v(*ret),
                            lls_v(params@),
                            *callee,
                            args@,
                            name@,
                        ),
                        denotes(*callee, regs@, self.fun, self.funs@, em.made(), c),
                        forall|k: int|
                            0 <= k < i ==> denotes(
                                #[trigger] args@[k],
                                regs@,
                                self.fun,
                                self.funs@,
                                em.made(),
                                values@[k],
                            ),
                        regs_match(regs@, before) ==> operand_found(*callee, before, nf)
                            && forall|k: int|
                            0 <= k < i ==> operand_found(#[trigger] args@[k], before, nf),
                    decreases args@.len() - i,
                {
                    let ghost m1 = em.made();
                    assert(llvm_inst_v(*cmd)->CallPtr_3[i as int] == args@[i as int]);
                    assert(operand_fits(args@[i as int]));
                    let a = match self.operand(em, regs, &args[i]) {
                        Ok(a) => a,
                        Err(e) => {
                            assert(llvm_inst_v(*cmd)->CallPtr_3[i as int] == args@[i as int]);
                            assert(regs_match(regs@, before) && e is BadOperand ==> !llvm_found(
                                llvm_inst_v(*cmd),
                                before,
                                nf,
                            ));
                            return Err(e);
                        },
                    };
                    proof {
                        lemma_denotes_grows(*callee, regs@, self.fun, self.funs@, m1, em.made(), c);
                        assert forall|k: int| 0 <= k < i implies denotes(
                            #[trigger] args@[k],
                            regs@,
                            self.fun,
                            self.funs@,
                            em.made(),
                            values@[k],
                        ) by {
                            lemma_denotes_grows(args@[k], regs@, self.fun, self.funs@, m1, em.made(), values@[k]);
                        }
                    }
                    values.push(a);
                    i = i + 1;
                }
                let ghost m2 = em.made();
                let ty = llvm_fn_type(em, ret, params);
                let pty = fn_ptr_type(em, ty);
                proof {
                    lemma_denotes_grows(*callee, regs@, self.fun, self.funs@, m2, em.made(), c);
                    assert forall|k: int| 0 <= k < args@.len() implies denotes(
                        #[trigger] args@[k],
                        regs@,
                        self.fun,
                        self.funs@,
                        em.made(),
                        values@[k],
                    ) by {
                        lemma_denotes_grows(args@[k], regs@, self.fun, self.funs@, m2, em.made(), values@[k]);
                    }
                }
                let typed = match build_pointer_cast(em, c, pty, "callee") {
                    Some(t) => t,
                    None => return Err(EmitError::Builder),
                };
                match build_pointer_call(em, typed, &values, name.as_str()) {
                    Some(v) => {
                        assert(em.built().skip(n) =~= seq![em.built()[n], em.built()[n + 1]]);
                        assert(em.built().take(n) =~= b0);
                        Ok(Some(v))
                    },
                    None => Err(EmitError::Builder),
                }
            },
            LlvmInst::Return { value } => {
                let v = self.operand(em, regs, value)?;
                if build_return(em, v) {
                    assert(em.built().skip(n) =~= seq![em.built()[n]]);
                    assert(em.built().take(n) =~= b0);
                    Ok(None)
                } else {
                    Err(EmitError::Builder)
                }
            },
        }
    }

    /// Emits one instruction of the plan: builds the LLVM instruction that
    /// `lower_inst` gives for it; gives its value, if it gives one.
    fn inst(
        &self,
        em: &mut Emitter<'ctx>,
        regs: &Vec<Option<BasicValueEnum<'ctx>>>,
        inst: &Inst,
        Ghost(before): Ghost<Seq<InstV>>,
        Ghost(np): Ghost<nat>,
        Ghost(nf): Ghost<nat>,
    ) -> (r: Result<Option<BasicValueEnum<'ctx>>, EmitError>)
        ensures
            r matches Ok(v) ==> (v is Some <==> gives_value(inst_v(*inst))),
            r is Ok ==> llvm_of(inst_v(*inst)) is Some,
            (r matches Err(EmitError::TooLarge)) <==> llvm_of(inst_v(*inst)) is None,
            r matches Err(EmitError::Builder) ==> ends_refused(final(em).built()),
            inst_ok(inst_v(*inst), before, np, nf) && regs_match(regs@, before) && nf
                <= self.funs@.len() ==> !(r matches Err(EmitError::BadOperand)),
            regs_match(regs@, before) ==> (r is Ok ==> inst_found(
                inst_v(*inst),
                before,
                self.funs@.len(),
            )) && (r matches Err(EmitError::BadOperand) ==> !inst_found(
                inst_v(*inst),
                before,
                self.funs@.len(),
            )),
            r matches Ok(v) ==> {
                let n = old(em).built().len() as int;
                let c = llvm_of(inst_v(*inst))->Some_0;
                &&& final(em).built().len() == n + cmd_len(c)
                &&& final(em).built().take(n) == old(em).built()
                &&& cmd_built(c, regs@, self.fun, self.funs@, self.printf, final(em).made(), final(em).built().skip(n))
                &&& v == result_of(final(em).built().last())
            },
            old(em).made().subset_of(final(em).made()),
            final(em).ctx() == old(em).ctx(),
    {
        let cmd = match lower_inst(inst) {
            Some(c) => c,
            None => return Err(EmitError::TooLarge),
        };
        proof {
            lemma_llvm_of_fits(inst_v(*inst));
            lemma_llvm_of(inst_v(*inst), before, nf);
            lemma_llvm_of(inst_v(*inst), before, self.funs@.len());
            if nf <= self.funs@.len() {
                lemma_inst_ok_found(inst_v(*inst), before, np, nf, self.funs@.len());
            }
        }
        self.run(em, regs, &cmd, Ghost(before))
    }

    /// Emits the body of a function into its entry block.
    #[verifier::loop_isolation(false)]
    fn body(&self, em: &mut Emitter<'ctx>, code: &FunctionCode, Ghost(nf): Ghost<nat>) -> (r: Result<(), EmitError>)
        ensures
            body_ok(insts_v(code.body@), code.params@.len(), nf) && nf <= self.funs@.len() ==> !(
            r matches Err(EmitError::BadOperand)),
            r is Ok ==> operands_found(insts_v(code.body@), self.funs@.len()),
            code.body@.len() == 0 ==> r is Ok,
            r matches Err(EmitError::Builder) ==> ends_refused(final(em).built()),
            r is Ok ==> lowerable(insts_v(code.body@)),
            r matches Err(EmitError::TooLarge) ==> !lowerable(insts_v(code.body@)),
            r matches Err(EmitError::BadOperand) ==> !operands_found(
                insts_v(code.body@),
                self.funs@.len(),
            ),
            r is Ok ==> {
                let n = old(em).built().len() as int;
                &&& final(em).built().len() == n + 2 + body_len(insts_v(code.body@))
                &&& final(em).built().take(n) == old(em).built()
                &&& fun_built(
                    fcode_v(*code),
                    self.fun,
                    self.funs@,
                    self.printf,
                    final(em).made(),
                    final(em).built().skip(n),
                )
            },
            old(em).made().subset_of(final(em).made()),
            final(em).ctx() == old(em).ctx(),
    {
        let ghost b0 = em.built();
        let ghost n0 = b0.len() as int;
        let block = append_basic_block(em, self.fun, "entry");
        position_at_end(em, block);
        let ghost b = insts_v(code.body@);
        let ghost np = code.params@.len();
        let mut regs: Vec<Option<BasicValueEnum<'ctx>>> = Vec::new();
        let mut j: usize = 0;
        assert(b.take(0) =~= Seq::<InstV>::empty());
        assert(em.built().skip(n0 + 2) =~= Seq::<Built<'ctx>>::empty());
        while j < code.body.len()
            invariant
                j <= code.body@.len(),
                b.len() == code.body@.len(),
                b == insts_v(code.body@),
                regs_match(regs@, b.take(j as int)),
                forall|k: int| 0 <= k < j ==> inst_found(#[trigger] b[k], b.take(k), self.funs@.len()),
                forall|k: int| 0 <= k < j ==> (#[trigger] llvm_of(b[k])) is Some,
                em.built().len() == n0 + 2 + body_len(b.take(j as int)),
                em.built().take(n0) == b0,
                em.built()[n0] == (Built::AppendBlock { fun: self.fun, name: "entry"@, result: block }),
                em.built()[n0 + 1] == (Built::PositionAtEnd { block }),
                body_built(b.take(j as int), self.fun, self.funs@, self.printf, em.made(), em.built().skip(n0 + 2)),
                regs@ == body_regs(b.take(j as int), em.built().skip(n0 + 2)),
                old(em).made().subset_of(em.made()),
                em.ctx() == old(em).ctx(),
            decreases code.body@.len() - j,
        {
            assert(b[j as int] == inst_v(code.body@[j as int]));
            let ghost bj = em.built();
            let ghost m1 = em.made();
            let v = match self.inst(em, &regs, &code.body[j], Ghost(b.take(j as int)), Ghost(np), Ghost(nf)) {
                Ok(v) => v,
                Err(e) => {
                    assert(!inst_found(b[j as int], b.take(j as int), self.funs@.len()) ==> !operands_found(
                        b,
                        self.funs@.len(),
                    ));
                    assert(llvm_of(b[j as int]) is None ==> !lowerable(b));
                    return Err(e);
                },
            };
            proof {
                let t = b.take(j + 1);
                let c = llvm_of(b[j as int])->Some_0;
                let log = em.built().skip(n0 + 2);
                let oldlog = bj.skip(n0 + 2);
                let nb = body_len(b.take(j as int)) as int;
                assert(t.drop_last() =~= b.take(j as int));
                assert(t.last() == b[j as int]);
                assert(log.take(nb) =~= oldlog) by {
                    assert forall|k: int| 0 <= k < nb implies log[k] == oldlog[k] by {
                        assert(em.built().take(bj.len() as int)[n0 + 2 + k] == bj[n0 + 2 + k]);
                    }
                }
                assert(log.skip(nb) =~= em.built().skip(bj.len() as int));
                lemma_body_built_grows(b.take(j as int), self.fun, self.funs@, self.printf, m1, em.made(), oldlog);
                assert(log.last() == em.built().last());
                assert(em.built().take(n0) =~= b0) by {
                    assert forall|k: int| 0 <= k < n0 implies em.built()[k] == b0[k] by {
                        assert(em.built().take(bj.len() as int)[k] == bj[k]);
                    }
                }
                assert(em.built()[n0] == bj[n0]) by {
                    assert(em.built().take(bj.len() as int)[n0] == bj[n0]);
                }
                assert(em.built()[n0 + 1] == bj[n0 + 1]) by {
                    assert(em.built().take(bj.len() as int)[n0 + 1] == bj[n0 + 1]);
                }
            }
            regs.push(v);
            assert forall|k: int| 0 <= k < regs@.len() implies ((#[trigger] regs@[k]) is Some
                <==> gives_value(b.take(j + 1)[k])) by {
                if k < j {
                    assert(b.take(j + 1)[k] == b.take(j as int)[k]);
                }
            }
            j = j + 1;
        }
        assert(operands_found(b, self.funs@.len()));
        assert(b.take(code.body@.len() as int) =~= b);
        assert(fcode_v(*code).body == b);
        assert(em.built().skip(n0).skip(2) =~= em.built().skip(n0 + 2));
        Ok(())
    }
}

/// Emits a code plan as an LLVM module called `main`: a declaration of
/// `printf`, then a declaration of each function of the plan, in order and
/// under its name, then the body of each, in order, with, for each
/// instruction, the LLVM instruction that `lower_inst` gives, handed the
/// values that its operands stand for; the emitter, given back with the
/// outcome, records all of it. A builder error comes only after inkwell
/// refused a call. A plan
/// in which every operand refers to something that exists (as compiling
/// always leaves it) never meets a missing operand, a plan whose
/// instructions all have an LLVM instruction never meets one that is too
/// large, and a plan whose functions have no instructions is always emitted.
pub fn emit_module<'ctx>(context: &'ctx Context, plan: &Vec<FunctionCode>) -> (r: (Emitter<'ctx>, Result<(), EmitError>))
    ensures
        code_ok(fcodes_v(plan@)) ==> !(r.1 matches Err(EmitError::BadOperand)),
        (forall|i: int| 0 <= i < plan@.len() ==> operands_found(insts_v((#[trigger] plan@[i]).body@), plan@.len()))
            ==> !(r.1 matches Err(EmitError::BadOperand)),
        (forall|i: int| 0 <= i < plan@.len() ==> lowerable(insts_v((#[trigger] plan@[i]).body@))) ==> !(
        r.1 matches Err(EmitError::TooLarge)),
        r.1 is Ok ==> forall|i: int|
            0 <= i < plan@.len() ==> operands_found(insts_v((#[trigger] plan@[i]).body@), plan@.len()),
        (forall|i: int| 0 <= i < plan@.len() ==> (#[trigger] plan@[i]).body@.len() == 0) ==> r.1 is Ok,
        r.1 is Ok ==> forall|i: int|
            0 <= i < plan@.len() ==> lowerable(insts_v((#[trigger] plan@[i]).body@)),
        r.1 matches Err(EmitError::TooLarge) ==> exists|i: int|
            0 <= i < plan@.len() && !lowerable(insts_v((#[trigger] plan@[i]).body@)),
        r.1 matches Err(EmitError::BadOperand) ==> exists|i: int|
            0 <= i < plan@.len() && !operands_found(insts_v((#[trigger] plan@[i]).body@), plan@.len()),
        r.1 matches Err(EmitError::Builder) ==> ends_refused(r.0.built()),
        r.1 is Ok ==> module_built(fcodes_v(plan@), r.0.built(), r.0.made()),
{
    let mut em = Emitter::new(context);
    let bp = byte_ptr_type(&mut em);
    let printf_params = vec![bp];
    let pty = void_var_args_fn_type(&mut em, &printf_params);
    assert(printf_params@ =~= seq![bp]);
    let printf = add_function(&mut em, "printf", pty);
    let ghost mut ftys: Seq<FunctionType<'ctx>> = Seq::empty();
    let ghost code = fcodes_v(plan@);
    let ghost p: int = plan@.len() as int;
    let mut funs: Vec<FunctionValue<'ctx>> = Vec::new();
    let mut i: usize = 0;
    while i < plan.len()
        invariant
            i <= plan@.len(),
            funs@.len() == i,
            code == fcodes_v(plan@),
            em.ctx() == context,
            em.built().len() == 1 + i,
            em.built()[0] == (Built::AddFunction { name: "printf"@, ty: pty, result: printf }),
            em.made().contains(Made::BytePtrType(bp)),
            em.made().contains(Made::VarArgsFnType(seq![bp], pty)),
            ftys.len() == i,
            forall|k: int|
                0 <= k < i ==> #[trigger] em.built()[1 + k] == (Built::AddFunction {
                    name: code[k].name,
                    ty: ftys[k],
                    result: funs@[k],
                }),
            forall|k: int|
                0 <= k < i ==> fn_type_of(em.made(), code[k].ret, code[k].params, #[trigger] ftys[k]),
        decreases plan@.len() - i,
    {
        let f = &plan[i];
        let ghost m1 = em.made();
        let ty = llvm_fn_type(&mut em, &f.ret, &f.params);
        proof {
            assert forall|k: int| 0 <= k < i implies fn_type_of(em.made(), code[k].ret, code[k].params, #[trigger] ftys[k]) by {
                lemma_fn_type_of_grows(m1, em.made(), code[k].ret, code[k].params, ftys[k]);
            }
            assert(code[i as int] == crate::ir::fcode_v(plan@[i as int]));
        }
        assert(code[i as int].name == plan@[i as int].name@);
        let fv = add_function(&mut em, f.name.as_str(), ty);
        funs.push(fv);
        proof {
            ftys = ftys.push(ty);
        }
        i = i + 1;
    }
    let ghost mdecl = em.made();
    let ghost decls = em.built();
    assert(declared_funs(decls, p as nat) =~= funs@);
    let mut i: usize = 0;
    assert(code.take(0) =~= Seq::<FunctionCodeV>::empty());
    assert(em.built().skip(p + 1) =~= Seq::<Built<'ctx>>::empty());
    while i < plan.len()
        invariant
            i <= plan@.len(),
            funs@.len() == plan@.len(),
            code == fcodes_v(plan@),
            em.ctx() == context,
            p == plan@.len(),
            em.built().len() == p + 1 + funcs_len(code.take(i as int)),
            em.built().take(p + 1) == decls,
            funcs_built(code.take(i as int), funs@, printf, em.made(), em.built().skip(p + 1)),
            mdecl.subset_of(em.made()),
            ftys.len() == p,
            decls[0] == (Built::AddFunction { name: "printf"@, ty: pty, result: printf }),
            mdecl.contains(Made::BytePtrType(bp)),
            mdecl.contains(Made::VarArgsFnType(seq![bp], pty)),
            forall|k: int|
                0 <= k < p ==> #[trigger] decls[1 + k] == (Built::AddFunction {
                    name: code[k].name,
                    ty: ftys[k],
                    result: funs@[k],
                }),
            forall|k: int| 0 <= k < p ==> fn_type_of(mdecl, code[k].ret, code[k].params, #[trigger] ftys[k]),
            forall|k: int|
                0 <= k < i ==> operands_found(insts_v((#[trigger] plan@[k]).body@), plan@.len()),
            forall|k: int| 0 <= k < i ==> lowerable(insts_v((#[trigger] plan@[k]).body@)),
        decreases plan@.len() - i,
    {
        let frame = Frame { fun: funs[i], funs: &funs, printf };
        proof {
            if code_ok(code) {
                assert(code[i as int] == crate::ir::fcode_v(plan@[i as int]));
                assert(plan@[i as int].body@.len() == plan@[i as int].body.len());
                assert(crate::laws::fits(code[i as int].body));
            }
        }
        let ghost bi = em.built();
        let ghost m1 = em.made();
        match frame.body(&mut em, &plan[i], Ghost((i + 1) as nat)) {
            Ok(()) => {},
            Err(e) => {
                assert(e is BadOperand ==> !operands_found(
                    insts_v(plan@[i as int].body@),
                    plan@.len(),
                ));
                assert(e is TooLarge ==> !lowerable(insts_v(plan@[i as int].body@)));
                return (em, Err(e));
            },
        }
        proof {
            let t = code.take(i + 1);
            let nb = bi.len() as int;
            let log = em.built().skip(p + 1);
            let oldlog = bi.skip(p + 1);
            let nf = funcs_len(code.take(i as int)) as int;
            assert(t.drop_last() =~= code.take(i as int));
            assert(t.last() == code[i as int]);
            assert(code[i as int] == fcode_v(plan@[i as int]));
            let eb = em.built();
            assert(bi.len() == p + 1 + nf);
            assert(eb.len() >= nb);
            assert(eb.take(nb) == bi);
            assert(log.take(nf) =~= oldlog) by {
                assert forall|k: int| 0 <= k < nf implies log[k] == oldlog[k] by {
                    let idx = p + 1 + k;
                    assert(0 <= idx < nb);
                    assert(eb.take(nb)[idx] == eb[idx]);
                    assert(log[k] == eb[idx]);
                }
            }
            assert(log.skip(nf) =~= em.built().skip(nb));
            lemma_funcs_built_grows(code.take(i as int), funs@, printf, m1, em.made(), oldlog);
            assert(mdecl.subset_of(em.made())) by {
                assert forall|x: Made<'ctx>| mdecl.contains(x) implies em.made().contains(x) by {
                    assert(m1.contains(x));
                }
            }
            assert(em.built().take(p + 1) =~= decls) by {
                assert forall|k: int| 0 <= k < p + 1 implies em.built()[k] == decls[k] by {
                    assert(em.built().take(nb)[k] == bi[k]);
                }
            }
        }
        i = i + 1;
    }
    proof {
        assert(code.take(plan@.len() as int) =~= code);
        assert forall|k: int| 0 <= k < p implies ((#[trigger] em.built()[1 + k]) matches Built::AddFunction {
            name,
            ty,
            ..
        } && name == code[k].name && fn_type_of(em.made(), code[k].ret, code[k].params, ty)) by {
            assert(em.built().take(p + 1)[1 + k] == decls[1 + k]);
            lemma_fn_type_of_grows(mdecl, em.made(), code[k].ret, code[k].params, ftys[k]);
        }
        assert(em.made().contains(Made::BytePtrType(bp)));
        assert(printf_type(em.made(), pty));
        assert(em.built()[0] == decls[0]) by {
            assert(em.built().take(p + 1)[0] == decls[0]);
        }
        assert(declared_funs(em.built(), p as nat) =~= funs@) by {
            assert forall|k: int| 0 <= k < p implies #[trigger] em.built()[1 + k] == decls[1 + k] by {
                assert(em.built().take(p + 1)[1 + k] == decls[1 + k]);
            }
        }
    }
    (em, Ok(()))
}
} // verus!
