//! What is handed to LLVM for each instruction of the code plan: the LLVM
//! instruction, its operands, the names of its results, and the constants
//! it needs. The emitter (`codegen::emit_module`) states, over the record of
//! what it built, that for each instruction it built this LLVM instruction,
//! handed the values of its operands.
use vstd::prelude::*;
use crate::ir::{inst_v, Inst, InstV, Value};
use crate::types::{ll_v, lls_v, LlType, LlTypeV};

verus! {

/// An operand of an LLVM instruction.
#[derive(Clone, Copy, Debug, PartialEq, Eq)]
pub enum LlvmOperand {
    /// The value of the instruction at this index of the same function.
    Value(usize),
    /// An `i64` constant.
    ConstI64(u64),
    /// The empty-struct constant `{}`.
    ConstUnit,
    /// The address of the function at this index of the module, cast to
    /// `i8*`.
    FunctionPtr(usize),
    /// The parameter at this index of the function.
    Param(u32),
}

/// An LLVM instruction, as it is handed to the builder.
#[derive(Debug)]
pub enum LlvmInst {
    /// `alloca` of a slot of type `ty`, its result named `name`.
    Alloca { ty: LlType, name: String },
    /// `store` of `value` at `ptr`.
    Store { ptr: LlvmOperand, value: LlvmOperand },
    /// `load` of the value at `ptr`.
    Load { ptr: LlvmOperand, name: String },
    /// `getelementptr` of field `index` of the struct at `ptr`.
    StructGep { ptr: LlvmOperand, index: u32, name: String },
    /// `add` of two `i64`, with neither `nsw` nor `nuw`: the sum modulo
    /// 2^64.
    WrappingAdd { lhs: LlvmOperand, rhs: LlvmOperand, name: String },
    /// A call of `printf` with a global constant format string and a value.
    Printf { format: String, format_name: String, value: LlvmOperand, name: String },
    /// A call through a function pointer, of a function from `params` to `ret`.
    CallPtr {
        ret: LlType,
        params: Vec<LlType>,
        callee: LlvmOperand,
        args: Vec<LlvmOperand>,
        name: String,
    },
    /// `ret` of a value.
    Return { value: LlvmOperand },
}

/// The model of an `LlvmInst`.
pub enum LlvmInstV {
    Alloca(LlTypeV, Seq<char>),
    Store(LlvmOperand, LlvmOperand),
    Load(LlvmOperand, Seq<char>),
    StructGep(LlvmOperand, u32, Seq<char>),
    WrappingAdd(LlvmOperand, LlvmOperand, Seq<char>),
    Printf(Seq<char>, Seq<char>, LlvmOperand, Seq<char>),
    CallPtr(LlTypeV, Seq<LlTypeV>, LlvmOperand, Seq<LlvmOperand>, Seq<char>),
    Return(LlvmOperand),
}

/// The model of an LLVM instruction.
pub open spec fn llvm_inst_v(i: LlvmInst) -> LlvmInstV {
    match i {
        LlvmInst::Alloca { ty, name } => LlvmInstV::Alloca(ll_v(ty), name@),
        LlvmInst::Store { ptr, value } => LlvmInstV::Store(ptr, value),
        LlvmInst::Load { ptr, name } => LlvmInstV::Load(ptr, name@),
        LlvmInst::StructGep { ptr, index, name } => LlvmInstV::StructGep(ptr, index, name@),
        LlvmInst::WrappingAdd { lhs, rhs, name } => LlvmInstV::WrappingAdd(lhs, rhs, name@),
        LlvmInst::Printf { format, format_name, value, name } => LlvmInstV::Printf(
            format@,
            format_name@,
            value,
            name@,
        ),
        LlvmInst::CallPtr { ret, params, callee, args, name } => LlvmInstV::CallPtr(
            ll_v(ret),
            lls_v(params@),
            callee,
            args@,
            name@,
        ),
        LlvmInst::Return { value } => LlvmInstV::Return(value),
    }
}

/// The LLVM operand of an operand of the plan; `None` for a parameter whose
/// index does not fit LLVM's 32-bit parameter numbers.
pub open spec fn llvm_operand(v: Value) -> Option<LlvmOperand> {
    match v {
        Value::Reg(i) => Some(LlvmOperand::Value(i)),
        Value::Int(n) => Some(LlvmOperand::ConstI64(n)),
        Value::Unit => Some(LlvmOperand::ConstUnit),
        Value::Function(i) => Some(LlvmOperand::FunctionPtr(i)),
        Value::Param(i) => if i < u32::MAX {
            Some(LlvmOperand::Param(i as u32))
        } else {
            None
        },
    }
}

/// The LLVM operands of several operands, if each has one.
pub open spec fn llvm_operands(vs: Seq<Value>) -> Option<Seq<LlvmOperand>> {
    if forall|k: int| 0 <= k < vs.len() ==> (#[trigger] llvm_operand(vs[k])) is Some {
        Some(Seq::new(vs.len(), |k: int| llvm_operand(vs[k])->Some_0))
    } else {
        None
    }
}

/// The LLVM instruction for an instruction of the plan. A load is named
/// "deref", a field address "struct_ref", a sum "add" and a call "call"; a
/// print calls `printf` with the format "%d\n" held in a global named "fmt".
/// `None` where an index does not fit LLVM's 32-bit numbers.
pub open spec fn llvm_of(i: InstV) -> Option<LlvmInstV> {
    match i {
        InstV::Alloca(t, n) => Some(LlvmInstV::Alloca(t, n)),
        InstV::Store(p, v) => match (llvm_operand(p), llvm_operand(v)) {
            (Some(a), Some(b)) => Some(LlvmInstV::Store(a, b)),
            _ => None,
        },
        InstV::Load(_, p) => match llvm_operand(p) {
            Some(a) => Some(LlvmInstV::Load(a, "deref"@)),
            None => None,
        },
        InstV::StructGep(_, p, k) => match llvm_operand(p) {
            Some(a) => if k <= u32::MAX {
                Some(LlvmInstV::StructGep(a, k as u32, "struct_ref"@))
            } else {
                None
            },
            None => None,
        },
        InstV::Add(l, r) => match (llvm_operand(l), llvm_operand(r)) {
            (Some(a), Some(b)) => Some(LlvmInstV::WrappingAdd(a, b, "add"@)),
            _ => None,
        },
        InstV::Print(v) => match llvm_operand(v) {
            Some(a) => Some(LlvmInstV::Printf("%d\n"@, "fmt"@, a, "call"@)),
            None => None,
        },
        InstV::Call(ret, ps, c, args) => match (llvm_operand(c), llvm_operands(args)) {
            (Some(a), Some(bs)) => Some(LlvmInstV::CallPtr(ret, ps, a, bs, "call"@)),
            _ => None,
        },
        InstV::Return(v) => match llvm_operand(v) {
            Some(a) => Some(LlvmInstV::Return(a)),
            None => None,
        },
    }
}

/// The operand of the plan that an LLVM operand stands for.
pub open spec fn plan_operand(o: LlvmOperand) -> Value {
    match o {
        LlvmOperand::Value(i) => Value::Reg(i),
        LlvmOperand::ConstI64(n) => Value::Int(n),
        LlvmOperand::ConstUnit => Value::Unit,
        LlvmOperand::FunctionPtr(i) => Value::Function(i),
        LlvmOperand::Param(n) => Value::Param(n as usize),
    }
}

/// The LLVM instruction `c` does what the plan's instruction `i` says: the
/// same kind of instruction, on the operands of `i` in their places, with
/// the same types, field index and variable name, and a print of `i`'s
/// value with the format "%d\n".
pub open spec fn carries(i: InstV, c: LlvmInstV) -> bool {
    match (i, c) {
        (InstV::Alloca(t, n), LlvmInstV::Alloca(t2, n2)) => t2 == t && n2 == n,
        (InstV::Store(p, v), LlvmInstV::Store(a, b)) => plan_operand(a) == p && plan_operand(b) == v,
        (InstV::Load(_, p), LlvmInstV::Load(a, _)) => plan_operand(a) == p,
        (InstV::StructGep(_, p, k), LlvmInstV::StructGep(a, idx, _)) => plan_operand(a) == p && idx == k,
        (InstV::Add(l, r), LlvmInstV::WrappingAdd(a, b, _)) => plan_operand(a) == l && plan_operand(b) == r,
        (InstV::Print(v), LlvmInstV::Printf(fmt, _, a, _)) => fmt == "%d\n"@ && plan_operand(a) == v,
        (InstV::Call(ret, ps, f, args), LlvmInstV::CallPtr(r, qs, a, bs, _)) => r == ret && qs == ps
            && plan_operand(a) == f && bs.len() == args.len() && forall|k: int|
            0 <= k < args.len() ==> plan_operand(#[trigger] bs[k]) == args[k],
        (InstV::Return(v), LlvmInstV::Return(a)) => plan_operand(a) == v,
        _ => false,
    }
}

/// A parameter operand's index is below `u32::MAX`.
pub open spec fn value_fits(v: Value) -> bool {
    v matches Value::Param(n) ==> n < u32::MAX
}

/// Every operand and field index of the instruction fits LLVM's 32-bit
/// numbers.
pub open spec fn inst_fits(i: InstV) -> bool {
    match i {
        InstV::Alloca(_, _) => true,
        InstV::Store(p, v) => value_fits(p) && value_fits(v),
        InstV::Load(_, p) => value_fits(p),
        InstV::StructGep(_, p, k) => value_fits(p) && k <= u32::MAX,
        InstV::Add(l, r) => value_fits(l) && value_fits(r),
        InstV::Print(v) => value_fits(v),
        InstV::Call(_, _, f, args) => value_fits(f) && forall|k: int|
            0 <= k < args.len() ==> value_fits(#[trigger] args[k]),
        InstV::Return(v) => value_fits(v),
    }
}

proof fn lemma_operand_back(v: Value)
    ensures
        llvm_operand(v) is Some <==> value_fits(v),
        llvm_operand(v) matches Some(o) ==> plan_operand(o) == v,
{
}

/// Lowering keeps an instruction: every instruction whose numbers fit has an
/// LLVM instruction, and that LLVM instruction is the same operation on the
/// same operands, in their places, with the same field index.
pub proof fn law_lowering_keeps_the_instruction(i: InstV)
    ensures
        llvm_of(i) is Some <==> inst_fits(i),
        llvm_of(i) matches Some(c) ==> carries(i, c),
{
    match i {
        InstV::Store(p, v) => {
            lemma_operand_back(p);
            lemma_operand_back(v);
            assert(inst_fits(i) == (value_fits(p) && value_fits(v)));
            assert(llvm_operand(p) is Some <==> value_fits(p));
            if llvm_operand(p) is Some && llvm_operand(v) is Some {
                assert(llvm_of(i) == Some(LlvmInstV::Store(llvm_operand(p)->Some_0, llvm_operand(v)->Some_0)));
            } else {
                assert(llvm_of(i) is None);
            }
        },
        InstV::Load(_, p) => lemma_operand_back(p),
        InstV::StructGep(_, p, _) => lemma_operand_back(p),
        InstV::Add(l, r) => {
            lemma_operand_back(l);
            lemma_operand_back(r);
            if llvm_operand(l) is Some && llvm_operand(r) is Some {
                assert(llvm_of(i) == Some(
                    LlvmInstV::WrappingAdd(llvm_operand(l)->Some_0, llvm_operand(r)->Some_0, "add"@),
                ));
            } else {
                assert(llvm_of(i) is None);
            }
        },
        InstV::Print(v) => lemma_operand_back(v),
        InstV::Return(v) => lemma_operand_back(v),
        InstV::Call(_, _, f, args) => {
            lemma_operand_back(f);
            assert forall|k: int| 0 <= k < args.len() implies (#[trigger] llvm_operand(args[k]) is Some
                <==> value_fits(args[k])) by {
                lemma_operand_back(args[k]);
            }
            if let Some(bs) = llvm_operands(args) {
                assert forall|k: int| 0 <= k < args.len() implies plan_operand(#[trigger] bs[k]) == args[k] by {
                    lemma_operand_back(args[k]);
                }
            }
            if !(llvm_operands(args) is Some) {
                let k = choose|k: int| 0 <= k < args.len() && !(#[trigger] llvm_operand(args[k]) is Some);
                lemma_operand_back(args[k]);
                assert(!value_fits(args[k]));
            } else {
                assert forall|k: int| 0 <= k < args.len() implies value_fits(#[trigger] args[k]) by {
                    assert(llvm_operand(args[k]) is Some);
                }
            }
            if llvm_operand(f) is Some && llvm_operands(args) is Some {
                assert(llvm_of(i) is Some);
            } else {
                assert(llvm_of(i) is None);
            }
        },
        _ => {},
    }
}

fn lower_operand(v: &Value) -> (r: Option<LlvmOperand>)
    ensures
        r == llvm_operand(*v),
{
    match v {
        Value::Reg(i) => Some(LlvmOperand::Value(*i)),
        Value::Int(n) => Some(LlvmOperand::ConstI64(*n)),
        Value::Unit => Some(LlvmOperand::ConstUnit),
        Value::Function(i) => Some(LlvmOperand::FunctionPtr(*i)),
        Value::Param(i) => if *i < 0xffff_ffffusize {
            Some(LlvmOperand::Param(*i as u32))
        } else {
            None
        },
    }
}

#[verifier::loop_isolation(false)]
fn lower_type(t: &LlType) -> (r: LlType)
    ensures
        ll_v(r) == ll_v(*t),
    decreases t,
{
    match t {
        LlType::I64 => LlType::I64,
        LlType::EmptyStruct => LlType::EmptyStruct,
        LlType::Ptr => LlType::Ptr,
        LlType::Struct(fs) => {
            let mut out: Vec<LlType> = Vec::new();
            let mut i: usize = 0;
            while i < fs.len()
                invariant
                    i <= fs@.len(),
                    out@.len() == i,
                    forall|j: int| 0 <= j < i ==> ll_v(#[trigger] out@[j]) == ll_v(fs@[j]),
                decreases fs@.len() - i,
            {
                assert(decreases_to!(*t => *fs));
                assert(decreases_to!(fs@ => fs@[i as int]));
                out.push(lower_type(&fs[i]));
                i = i + 1;
            }
            assert(lls_v(out@) =~= lls_v(fs@));
            LlType::Struct(out)
        },
    }
}

fn lower_types(ts: &Vec<LlType>) -> (r: Vec<LlType>)
    ensures
        lls_v(r@) == lls_v(ts@),
{
    let mut out: Vec<LlType> = Vec::new();
    let mut i: usize = 0;
    while i < ts.len()
        invariant
            i <= ts@.len(),
            out@.len() == i,
            forall|j: int| 0 <= j < i ==> ll_v(#[trigger] out@[j]) == ll_v(ts@[j]),
        decreases ts@.len() - i,
    {
        out.push(lower_type(&ts[i]));
        i = i + 1;
    }
    assert(lls_v(out@) =~= lls_v(ts@));
    out
}

/// The LLVM instruction for an instruction of the plan, as `llvm_of` says.
#[verifier::loop_isolation(false)]
pub fn lower_inst(inst: &Inst) -> (r: Option<LlvmInst>)
    ensures
        match llvm_of(inst_v(*inst)) {
            Some(c) => r matches Some(x) && llvm_inst_v(x) == c,
            None => r is None,
        },
{
    match inst {
        Inst::Alloca { ty, name } => Some(LlvmInst::Alloca { ty: lower_type(ty), name: name.clone() }),
        Inst::Store { ptr, value } => match (lower_operand(ptr), lower_operand(value)) {
            (Some(a), Some(b)) => Some(LlvmInst::Store { ptr: a, value: b }),
            _ => None,
        },
        Inst::Load { ptr, .. } => match lower_operand(ptr) {
            Some(a) => Some(LlvmInst::Load { ptr: a, name: "deref".to_owned() }),
            None => None,
        },
        Inst::StructGep { ptr, index, .. } => match lower_operand(ptr) {
            Some(a) => if *index <= 0xffff_ffffusize {
                Some(LlvmInst::StructGep { ptr: a, index: *index as u32, name: "struct_ref".to_owned() })
            } else {
                None
            },
            None => None,
        },
        Inst::Add { lhs, rhs } => match (lower_operand(lhs), lower_operand(rhs)) {
            (Some(a), Some(b)) => Some(LlvmInst::WrappingAdd { lhs: a, rhs: b, name: "add".to_owned() }),
            _ => None,
        },
        Inst::Print { value } => match lower_operand(value) {
            Some(a) => Some(
                LlvmInst::Printf {
                    format: "%d\n".to_owned(),
                    format_name: "fmt".to_owned(),
                    value: a,
                    name: "call".to_owned(),
                },
            ),
            None => None,
        },
        Inst::Call { ret, params, callee, args } => {
            let c = match lower_operand(callee) {
                Some(c) => c,
                None => return None,
            };
            let mut out: Vec<LlvmOperand> = Vec::new();
            let mut i: usize = 0;
            while i < args.len()
                invariant
                    i <= args@.len(),
                    out@.len() == i,
                    forall|j: int| 0 <= j < i ==> llvm_operand(args@[j]) == Some(#[trigger] out@[j]),
                decreases args@.len() - i,
            {
                match lower_operand(&args[i]) {
                    Some(a) => out.push(a),
                    None => {
                        assert(llvm_operands(args@) is None);
                        return None;
                    },
                }
                i = i + 1;
            }
            assert(llvm_operands(args@) == Some(out@)) by {
                assert forall|k: int| 0 <= k < args@.len() implies (#[trigger] llvm_operand(
                    args@[k],
                )) is Some by {
                    assert(llvm_operand(args@[k]) == Some(out@[k]));
                }
                assert(Seq::new(args@.len(), |k: int| llvm_operand(args@[k])->Some_0) =~= out@);
            }
            Some(
                LlvmInst::CallPtr {
                    ret: lower_type(ret),
                    params: lower_types(params),
                    callee: c,
                    args: out,
                    name: "call".to_owned(),
                },
            )
        },
        Inst::Return { value } => match lower_operand(value) {
            Some(a) => Some(LlvmInst::Return { value: a }),
            None => None,
        },
    }
}

} // verus!
