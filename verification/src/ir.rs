//! The code plan that the compiler produces: functions made of low-level
//! instructions, ready to be handed to a code generator.
use vstd::prelude::*;
use crate::types::{ll_v, lls_v, LlType, LlTypeV};

verus! {

/// An operand of an instruction.
#[derive(Clone, Copy, Debug, PartialEq, Eq)]
pub enum Value {
    /// The result of the instruction at this index of the same function body.
    Reg(usize),
    /// A 64-bit integer constant.
    Int(u64),
    /// The empty-struct constant.
    Unit,
    /// A pointer to the function at this index of the code plan.
    Function(usize),
    /// The parameter at this index of the enclosing function.
    Param(usize),
}

/// An instruction of a function body. Instructions that give a value
/// (`Alloca`, `Load`, `StructGep`, `Add`, `Call`) are referred to by their
/// index in the body (`Value::Reg`).
#[derive(Debug)]
pub enum Inst {
    /// A stack slot of the given type, named for readability; gives a pointer.
    Alloca { ty: LlType, name: String },
    Store { ptr: Value, value: Value },
    /// Reads a value of the given type; gives that value.
    Load { ty: LlType, ptr: Value },
    /// Gives a pointer to the field `index` of the struct of type `ty` at `ptr`.
    StructGep { ty: LlType, ptr: Value, index: usize },
    /// Gives the sum of two 64-bit integers.
    Add { lhs: Value, rhs: Value },
    /// Prints a 64-bit integer and a newline (`printf("%d\n", value)`).
    Print { value: Value },
    /// Calls the function pointer `callee` of the given signature; gives its result.
    Call { ret: LlType, params: Vec<LlType>, callee: Value, args: Vec<Value> },
    Return { value: Value },
}

/// The model of an `Inst`.
pub enum InstV {
    Alloca(LlTypeV, Seq<char>),
    Store(Value, Value),
    Load(LlTypeV, Value),
    StructGep(LlTypeV, Value, nat),
    Add(Value, Value),
    Print(Value),
    Call(LlTypeV, Seq<LlTypeV>, Value, Seq<Value>),
    Return(Value),
}

pub open spec fn inst_v(i: Inst) -> InstV {
    match i {
        Inst::Alloca { ty, name } => InstV::Alloca(ll_v(ty), name@),
        Inst::Store { ptr, value } => InstV::Store(ptr, value),
        Inst::Load { ty, ptr } => InstV::Load(ll_v(ty), ptr),
        Inst::StructGep { ty, ptr, index } => InstV::StructGep(ll_v(ty), ptr, index as nat),
        Inst::Add { lhs, rhs } => InstV::Add(lhs, rhs),
        Inst::Print { value } => InstV::Print(value),
        Inst::Call { ret, params, callee, args } => InstV::Call(
            ll_v(ret),
            lls_v(params@),
            callee,
            args@,
        ),
        Inst::Return { value } => InstV::Return(value),
    }
}

pub open spec fn insts_v(b: Seq<Inst>) -> Seq<InstV> {
    Seq::new(b.len(), |i: int| inst_v(b[i]))
}

/// A function of the code plan: its name, signature and instructions.
#[derive(Debug)]
pub struct FunctionCode {
    pub name: String,
    pub ret: LlType,
    pub params: Vec<LlType>,
    pub body: Vec<Inst>,
}

/// The model of a `FunctionCode`.
pub struct FunctionCodeV {
    pub name: Seq<char>,
    pub ret: LlTypeV,
    pub params: Seq<LlTypeV>,
    pub body: Seq<InstV>,
}

pub open spec fn fcode_v(f: FunctionCode) -> FunctionCodeV {
    FunctionCodeV { name: f.name@, ret: ll_v(f.ret), params: lls_v(f.params@), body: insts_v(f.body@) }
}

pub open spec fn fcodes_v(fs: Seq<FunctionCode>) -> Seq<FunctionCodeV> {
    Seq::new(fs.len(), |i: int| fcode_v(fs[i]))
}

} // verus!
