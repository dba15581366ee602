use inkwell::context::Context;
use minilang::codegen::{emit_module, EmitError};
use minilang::lower::{lower_inst, LlvmInst, LlvmOperand};
use minilang::compile::Compiler;
use minilang::ir::{FunctionCode, Inst, Value};
use minilang::parse::program;
use minilang::types::LlType;

fn emit_ir(src: &str) -> String {
    let defs = program(src).unwrap();
    let mut c = Compiler::new();
    c.compile(&defs).unwrap();
    let context = Context::create();
    let (em, r) = emit_module(&context, c.functions());
    r.unwrap();
    let module = em.into_module();
    assert!(module.verify().is_ok());
    module.print_to_string().to_string()
}

#[test]
fn emits_printf_and_main() {
    let ir = emit_ir("fun main(): Unit := print 1");
    assert!(ir.contains("declare void @printf(i8*, ...)"));
    assert!(ir.contains("define {} @main()"));
    assert!(ir.contains("%d\\0A"));
    assert!(ir.contains("call void (i8*, ...) @printf"));
}

#[test]
fn emits_functions_in_order_with_their_signatures() {
    let ir = emit_ir("fun add(a: Int, b: Int): Int := a + b fun main(): Unit := print @add(1, 2)");
    let f = ir.find("define i64 @add(i64 %0, i64 %1)").unwrap();
    let m = ir.find("define {} @main()").unwrap();
    assert!(f < m);
    assert!(ir.contains("alloca i64"));
    assert!(ir.contains("add i64"));
}

#[test]
fn emits_struct_access() {
    let ir = emit_ir(
        "struct P { x: Int; y: Int; } fun main(): Unit { var p: P; p.y <- 3; print p.y }",
    );
    assert!(ir.contains("alloca { i64, i64 }"));
    assert!(ir.contains("getelementptr inbounds { i64, i64 }"));
}

#[test]
fn rejects_an_operand_that_does_not_exist() {
    let plan = vec![FunctionCode {
        name: "main".to_string(),
        ret: LlType::EmptyStruct,
        params: vec![],
        body: vec![Inst::Print { value: Value::Reg(0) }],
    }];
    let context = Context::create();
    assert!(matches!(emit_module(&context, &plan).1, Err(EmitError::BadOperand)));
}

#[test]
fn rejects_a_call_of_a_missing_function() {
    let plan = vec![FunctionCode {
        name: "main".to_string(),
        ret: LlType::EmptyStruct,
        params: vec![],
        body: vec![Inst::Call { ret: LlType::I64, params: vec![], callee: Value::Function(3), args: vec![] }],
    }];
    let context = Context::create();
    assert!(matches!(emit_module(&context, &plan).1, Err(EmitError::BadOperand)));
}

#[test]
fn empty_functions_are_always_emitted() {
    let plan = vec![FunctionCode { name: "f".to_string(), ret: LlType::I64, params: vec![LlType::Ptr], body: vec![] }];
    let context = Context::create();
    assert!(emit_module(&context, &plan).1.is_ok());
}

#[test]
fn plan_instructions_become_llvm_instructions() {
    match lower_inst(&Inst::Add { lhs: Value::Reg(0), rhs: Value::Int(5) }) {
        Some(LlvmInst::WrappingAdd { lhs, rhs, name }) => {
            assert_eq!(lhs, LlvmOperand::Value(0));
            assert_eq!(rhs, LlvmOperand::ConstI64(5));
            assert_eq!(name, "add");
        }
        other => panic!("unexpected {:?}", other),
    }
    match lower_inst(&Inst::Print { value: Value::Param(1) }) {
        Some(LlvmInst::Printf { format, format_name, value, name }) => {
            assert_eq!(format, "%d\n");
            assert_eq!(format_name, "fmt");
            assert_eq!(value, LlvmOperand::Param(1));
            assert_eq!(name, "call");
        }
        other => panic!("unexpected {:?}", other),
    }
    match lower_inst(&Inst::Call {
        ret: LlType::I64,
        params: vec![LlType::I64],
        callee: Value::Function(2),
        args: vec![Value::Unit],
    }) {
        Some(LlvmInst::CallPtr { callee, args, name, .. }) => {
            assert_eq!(callee, LlvmOperand::FunctionPtr(2));
            assert_eq!(args, vec![LlvmOperand::ConstUnit]);
            assert_eq!(name, "call");
        }
        other => panic!("unexpected {:?}", other),
    }
    assert!(lower_inst(&Inst::Load { ty: LlType::I64, ptr: Value::Param(u32::MAX as usize) }).is_none());
}

#[test]
fn sums_wrap_around() {
    let ir = emit_ir("fun main(): Unit := print 18446744073709551615 + 1");
    assert!(ir.contains("call void (i8*, ...) @printf"));
    assert!(!ir.contains("nsw"));
    assert!(!ir.contains("nuw"));
}

#[test]
fn nested_arguments_are_emitted() {
    let ir = emit_ir("fun f(a: Int): Int := a fun main(): Unit := print @f(@f(1) + 2)");
    assert!(ir.contains("define i64 @f(i64 %0)"));
}
