//! The LLVM module being built, with a record of what was built in it.
//!
//! An `Emitter` owns the module and the builder. Each inkwell call that
//! adds to the module goes through a function of this file, which appends
//! to the record what inkwell's source shows the call to build: a function,
//! a block, an instruction with the values it was handed, or a constant.
//! Nothing else can change the record, so what it holds is what was built.
use vstd::prelude::*;
use inkwell::basic_block::BasicBlock;
use inkwell::builder::Builder;
use inkwell::context::Context;
use inkwell::module::Module;
use inkwell::types::{BasicTypeEnum, FunctionType};
use inkwell::values::{BasicMetadataValueEnum, BasicValueEnum, CallableValue, FunctionValue};

verus! {

/// Something built in the module, with the LLVM values it was handed and
/// the value it gives.
pub enum Built<'ctx> {
    /// A function of type `ty` declared under `name`.
    AddFunction { name: Seq<char>, ty: FunctionType<'ctx>, result: FunctionValue<'ctx> },
    /// A block appended to `fun`.
    AppendBlock { fun: FunctionValue<'ctx>, name: Seq<char>, result: BasicBlock<'ctx> },
    /// The builder placed at the end of `block`.
    PositionAtEnd { block: BasicBlock<'ctx> },
    /// `alloca` of a slot of type `ty`.
    Alloca { ty: BasicTypeEnum<'ctx>, name: Seq<char>, result: BasicValueEnum<'ctx> },
    /// `store` of `value` at `ptr`.
    Store { ptr: BasicValueEnum<'ctx>, value: BasicValueEnum<'ctx> },
    /// `load` from `ptr`.
    Load { ptr: BasicValueEnum<'ctx>, name: Seq<char>, result: BasicValueEnum<'ctx> },
    /// `getelementptr` of field `index` of the struct at `ptr`.
    StructGep { ptr: BasicValueEnum<'ctx>, index: u32, name: Seq<char>, result: BasicValueEnum<'ctx> },
    /// `add` of two integers, with neither `nsw` nor `nuw`.
    IntAdd { lhs: BasicValueEnum<'ctx>, rhs: BasicValueEnum<'ctx>, name: Seq<char>, result: BasicValueEnum<'ctx> },
    /// A global constant string, and a pointer to it.
    GlobalString { value: Seq<char>, name: Seq<char>, result: BasicValueEnum<'ctx> },
    /// A call of the function `fun`.
    DirectCall { fun: FunctionValue<'ctx>, args: Seq<BasicValueEnum<'ctx>>, name: Seq<char> },
    /// A cast of the pointer `value` to another pointer type.
    PointerCast { value: BasicValueEnum<'ctx>, name: Seq<char>, result: BasicValueEnum<'ctx> },
    /// A call through the function pointer `callee`.
    PointerCall {
        callee: BasicValueEnum<'ctx>,
        args: Seq<BasicValueEnum<'ctx>>,
        name: Seq<char>,
        result: BasicValueEnum<'ctx>,
    },
    /// `ret` of `value`.
    Return { value: BasicValueEnum<'ctx> },
    /// A call that gave nothing: inkwell refused it, an argument was not of
    /// the kind the call takes, or no value came where one was asked for.
    /// Nothing more is recorded of it.
    Refused,
}

/// A constant or a type made for the module.
pub enum Made<'ctx> {
    /// The type `i64`.
    I64Type(BasicTypeEnum<'ctx>),
    /// The struct type, not packed, whose fields have the types `fields`, in
    /// order.
    StructType(Seq<BasicTypeEnum<'ctx>>, BasicTypeEnum<'ctx>),
    /// The type `i8*`.
    BytePtrType(BasicTypeEnum<'ctx>),
    /// The type of functions from `params` to `ret`, without variable
    /// arguments.
    FnType(BasicTypeEnum<'ctx>, Seq<BasicTypeEnum<'ctx>>, FunctionType<'ctx>),
    /// The type of functions that take `params` and then variable arguments,
    /// and return nothing.
    VarArgsFnType(Seq<BasicTypeEnum<'ctx>>, FunctionType<'ctx>),
    /// The type of pointers to functions of the given type.
    FnPtrType(FunctionType<'ctx>, BasicTypeEnum<'ctx>),
    /// The `i64` constant `n`.
    ConstInt(u64, BasicValueEnum<'ctx>),
    /// The empty-struct constant.
    ConstUnit(BasicValueEnum<'ctx>),
    /// The address of `fun`, cast to `i8*`.
    Address(FunctionValue<'ctx>, BasicValueEnum<'ctx>),
    /// Parameter `n` of `fun`.
    Param(FunctionValue<'ctx>, u32, BasicValueEnum<'ctx>),
}

/// An LLVM module called `main` under construction, its builder, and the
/// record of what was built in it and which constants were made.
pub struct Emitter<'ctx> {
    context: &'ctx Context,
    module: Module<'ctx>,
    builder: Builder<'ctx>,
    built: Ghost<Seq<Built<'ctx>>>,
    made: Ghost<Set<Made<'ctx>>>,
}

/// `Context::create_module`.
#[verifier::external_body]
fn create_module<'ctx>(context: &'ctx Context, name: &str) -> Module<'ctx> {
    context.create_module(name)
}

/// `Context::create_builder`.
#[verifier::external_body]
fn create_builder<'ctx>(context: &'ctx Context) -> Builder<'ctx> {
    context.create_builder()
}

impl<'ctx> Emitter<'ctx> {
    /// What was built in the module, in order.
    pub closed spec fn built(&self) -> Seq<Built<'ctx>> {
        self.built@
    }

    /// The constants made for the module.
    pub closed spec fn made(&self) -> Set<Made<'ctx>> {
        self.made@
    }

    /// A new empty module called `main`, with its builder.
    pub fn new(context: &'ctx Context) -> (e: Emitter<'ctx>)
        ensures
            e.built() == Seq::<Built<'ctx>>::empty(),
            e.made() == Set::<Made<'ctx>>::empty(),
            e.ctx() == context,
    {
        Emitter {
            context,
            module: create_module(context, "main"),
            builder: create_builder(context),
            built: Ghost(Seq::empty()),
            made: Ghost(Set::empty()),
        }
    }

    /// The context the module lives in.
    pub closed spec fn ctx(&self) -> &'ctx Context {
        self.context
    }

    /// The context the module lives in.
    pub fn context(&self) -> (c: &'ctx Context)
        ensures
            c == self.ctx(),
    {
        self.context
    }

    /// The module built.
    pub fn into_module(self) -> Module<'ctx> {
        self.module
    }
}

/// The record grows by `b`; the constants and the context stay.
pub open spec fn adds<'ctx>(before: Emitter<'ctx>, after: Emitter<'ctx>, b: Built<'ctx>) -> bool {
    after.built() == before.built().push(b) && after.made() == before.made() && after.ctx() == before.ctx()
}

/// The constants grow by `m`; the record and the context stay.
pub open spec fn makes<'ctx>(before: Emitter<'ctx>, after: Emitter<'ctx>, m: Made<'ctx>) -> bool {
    after.built() == before.built() && after.made() == before.made().insert(m) && after.ctx() == before.ctx()
}

/// A call that fails is recorded as refused.
pub open spec fn refuses<'ctx>(before: Emitter<'ctx>, after: Emitter<'ctx>) -> bool {
    adds(before, after, Built::Refused)
}

/// `Module::add_function`, with the default linkage: declares a function.
#[verifier::external_body]
pub(crate) fn add_function<'ctx>(em: &mut Emitter<'ctx>, name: &str, ty: FunctionType<'ctx>) -> (r: FunctionValue<
    'ctx,
>)
    ensures
        adds(*old(em), *final(em), Built::AddFunction { name: name@, ty, result: r }),
{
    em.module.add_function(name, ty, None)
}

/// `Context::append_basic_block`: a new block at the end of `fun`.
#[verifier::external_body]
pub(crate) fn append_basic_block<'ctx>(em: &mut Emitter<'ctx>, fun: FunctionValue<'ctx>, name: &str) -> (r:
    BasicBlock<'ctx>)
    ensures
        adds(*old(em), *final(em), Built::AppendBlock { fun, name: name@, result: r }),
{
    em.context.append_basic_block(fun, name)
}

/// `Builder::position_at_end`.
#[verifier::external_body]
pub(crate) fn position_at_end<'ctx>(em: &mut Emitter<'ctx>, block: BasicBlock<'ctx>)
    ensures
        adds(*old(em), *final(em), Built::PositionAtEnd { block }),
{
    em.builder.position_at_end(block)
}

/// `Builder::build_alloca`: a stack slot of type `ty`.
#[verifier::external_body]
pub(crate) fn build_alloca<'ctx>(em: &mut Emitter<'ctx>, ty: BasicTypeEnum<'ctx>, name: &str) -> (r: Option<
    BasicValueEnum<'ctx>,
>)
    ensures
        r is None ==> refuses(*old(em), *final(em)),
        r matches Some(p) ==> adds(*old(em), *final(em), Built::Alloca { ty, name: name@, result: p }),
{
    em.builder.build_alloca(ty, name).ok().map(|p| p.into())
}

/// `Builder::build_store` of `value` at `ptr`; `false` where `ptr` is not a
/// pointer. LLVM here is built without assertions: a value whose type is not
/// the pointee's builds ill-typed IR rather than aborting.
#[verifier::external_body]
pub(crate) fn build_store<'ctx>(em: &mut Emitter<'ctx>, ptr: BasicValueEnum<'ctx>, value: BasicValueEnum<'ctx>) -> (r:
    bool)
    ensures
        !r ==> refuses(*old(em), *final(em)),
        r ==> adds(*old(em), *final(em), Built::Store { ptr, value }),
{
    match ptr {
        BasicValueEnum::PointerValue(p) => em.builder.build_store(p, value).is_ok(),
        _ => false,
    }
}

/// `Builder::build_load` of the value that `ptr` points to; `None` where
/// `ptr` is not a pointer, or points to a function or to nothing, whose
/// values cannot be loaded.
#[verifier::external_body]
pub(crate) fn build_load<'ctx>(em: &mut Emitter<'ctx>, ptr: BasicValueEnum<'ctx>, name: &str) -> (r: Option<
    BasicValueEnum<'ctx>,
>)
    ensures
        r is None ==> refuses(*old(em), *final(em)),
        r matches Some(v) ==> adds(*old(em), *final(em), Built::Load { ptr, name: name@, result: v }),
{
    match ptr {
        BasicValueEnum::PointerValue(p) => match p.get_type().get_element_type() {
            inkwell::types::AnyTypeEnum::FunctionType(_) => None,
            inkwell::types::AnyTypeEnum::VoidType(_) => None,
            _ => em.builder.build_load(p, name).ok(),
        },
        _ => None,
    }
}

/// `Builder::build_struct_gep`: a pointer to field `index` of the struct
/// that `ptr` points to.
#[verifier::external_body]
pub(crate) fn build_struct_gep<'ctx>(
    em: &mut Emitter<'ctx>,
    ptr: BasicValueEnum<'ctx>,
    index: u32,
    name: &str,
) -> (r: Option<BasicValueEnum<'ctx>>)
    ensures
        r is None ==> refuses(*old(em), *final(em)),
        r matches Some(q) ==> adds(
            *old(em),
            *final(em),
            Built::StructGep { ptr, index, name: name@, result: q },
        ),
{
    match ptr {
        BasicValueEnum::PointerValue(p) => em.builder.build_struct_gep(p, index, name).ok().map(|q| q.into()),
        _ => None,
    }
}

/// `Builder::build_int_add` of two integers, with neither `nsw` nor `nuw`.
/// LLVM here is built without assertions: integers of different widths
/// build ill-typed IR rather than aborting.
#[verifier::external_body]
pub(crate) fn build_int_add<'ctx>(
    em: &mut Emitter<'ctx>,
    lhs: BasicValueEnum<'ctx>,
    rhs: BasicValueEnum<'ctx>,
    name: &str,
) -> (r: Option<BasicValueEnum<'ctx>>)
    ensures
        r is None ==> refuses(*old(em), *final(em)),
        r matches Some(v) ==> adds(*old(em), *final(em), Built::IntAdd { lhs, rhs, name: name@, result: v }),
{
    match (lhs, rhs) {
        (BasicValueEnum::IntValue(a), BasicValueEnum::IntValue(b)) => em.builder.build_int_add(a, b, name).ok().map(
            |v| v.into(),
        ),
        _ => None,
    }
}

/// `Builder::build_global_string_ptr`: a global constant string, and a
/// pointer to it.
#[verifier::external_body]
pub(crate) fn build_global_string_ptr<'ctx>(em: &mut Emitter<'ctx>, value: &str, name: &str) -> (r: Option<
    BasicValueEnum<'ctx>,
>)
    ensures
        r is None ==> refuses(*old(em), *final(em)),
        r matches Some(g) ==> adds(
            *old(em),
            *final(em),
            Built::GlobalString { value: value@, name: name@, result: g },
        ),
{
    em.builder.build_global_string_ptr(value, name).ok().map(|g| g.as_pointer_value().into())
}

/// `Builder::build_call` of the function `fun`. LLVM here is built without
/// assertions: arguments that do not match the signature build ill-typed IR
/// rather than aborting.
#[verifier::external_body]
pub(crate) fn build_direct_call<'ctx>(
    em: &mut Emitter<'ctx>,
    fun: FunctionValue<'ctx>,
    args: &Vec<BasicValueEnum<'ctx>>,
    name: &str,
) -> (r: bool)
    ensures
        !r ==> refuses(*old(em), *final(em)),
        r ==> adds(*old(em), *final(em), Built::DirectCall { fun, args: args@, name: name@ }),
{
    let args: Vec<BasicMetadataValueEnum<'ctx>> = args.iter().map(|a| (*a).into()).collect();
    em.builder.build_call(fun, &args, name).is_ok()
}

/// `Builder::build_pointer_cast` of the pointer `value` to the pointer type
/// `to`.
#[verifier::external_body]
pub(crate) fn build_pointer_cast<'ctx>(
    em: &mut Emitter<'ctx>,
    value: BasicValueEnum<'ctx>,
    to: BasicTypeEnum<'ctx>,
    name: &str,
) -> (r: Option<BasicValueEnum<'ctx>>)
    ensures
        r is None ==> refuses(*old(em), *final(em)),
        r matches Some(q) ==> adds(*old(em), *final(em), Built::PointerCast { value, name: name@, result: q }),
{
    match (value, to) {
        (BasicValueEnum::PointerValue(p), BasicTypeEnum::PointerType(t)) => em.builder.build_pointer_cast(
            p,
            t,
            name,
        ).ok().map(|q| q.into()),
        _ => None,
    }
}

/// `Builder::build_call` through `callee`, a pointer to a function; the
/// value the call gives. LLVM here is built without assertions: arguments
/// that do not match the signature build ill-typed IR rather than aborting.
#[verifier::external_body]
pub(crate) fn build_pointer_call<'ctx>(
    em: &mut Emitter<'ctx>,
    callee: BasicValueEnum<'ctx>,
    args: &Vec<BasicValueEnum<'ctx>>,
    name: &str,
) -> (r: Option<BasicValueEnum<'ctx>>)
    ensures
        r is None ==> refuses(*old(em), *final(em)),
        r matches Some(v) ==> adds(
            *old(em),
            *final(em),
            Built::PointerCall { callee, args: args@, name: name@, result: v },
        ),
{
    let callable = match callee {
        BasicValueEnum::PointerValue(p) => CallableValue::try_from(p).ok()?,
        _ => return None,
    };
    let args: Vec<BasicMetadataValueEnum<'ctx>> = args.iter().map(|a| (*a).into()).collect();
    em.builder.build_call(callable, &args, name).ok()?.try_as_basic_value().basic()
}

/// `Builder::build_return` of a value.
#[verifier::external_body]
pub(crate) fn build_return<'ctx>(em: &mut Emitter<'ctx>, value: BasicValueEnum<'ctx>) -> (r: bool)
    ensures
        !r ==> refuses(*old(em), *final(em)),
        r ==> adds(*old(em), *final(em), Built::Return { value }),
{
    em.builder.build_return(Some(&value)).is_ok()
}

/// `IntType::const_int` of `Context::i64_type`: the 64-bit constant `n`.
#[verifier::external_body]
pub(crate) fn const_i64<'ctx>(em: &mut Emitter<'ctx>, n: u64) -> (r: BasicValueEnum<'ctx>)
    ensures
        makes(*old(em), *final(em), Made::ConstInt(n, r)),
{
    em.context.i64_type().const_int(n, false).into()
}

/// `Context::const_struct` with no field: the unit value.
#[verifier::external_body]
pub(crate) fn const_unit<'ctx>(em: &mut Emitter<'ctx>) -> (r: BasicValueEnum<'ctx>)
    ensures
        makes(*old(em), *final(em), Made::ConstUnit(r)),
{
    em.context.const_struct(&[], false).into()
}

/// `PointerValue::const_cast` of the address of `fun` (`as_global_value`,
/// `as_pointer_value`) to the pointer type `to`; `None` where `to` is not a
/// pointer type.
#[verifier::external_body]
pub(crate) fn function_address<'ctx>(em: &mut Emitter<'ctx>, fun: FunctionValue<'ctx>, to: BasicTypeEnum<'ctx>) -> (r:
    Option<BasicValueEnum<'ctx>>)
    ensures
        r is None ==> refuses(*old(em), *final(em)),
        r matches Some(p) ==> makes(*old(em), *final(em), Made::Address(fun, p)),
{
    match to {
        BasicTypeEnum::PointerType(t) => Some(fun.as_global_value().as_pointer_value().const_cast(t).into()),
        _ => None,
    }
}

/// `FunctionValue::get_nth_param`.
#[verifier::external_body]
pub(crate) fn get_nth_param<'ctx>(em: &mut Emitter<'ctx>, fun: FunctionValue<'ctx>, nth: u32) -> (r: Option<
    BasicValueEnum<'ctx>,
>)
    requires
        nth < u32::MAX,
    ensures
        r is None ==> refuses(*old(em), *final(em)),
        r matches Some(p) ==> makes(*old(em), *final(em), Made::Param(fun, nth, p)),
{
    fun.get_nth_param(nth)
}

} // verus!
