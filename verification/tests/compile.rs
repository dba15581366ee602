use minilang::ast::Span;
use minilang::compile::Compiler;
use minilang::error::Error;
use minilang::ir::{FunctionCode, Inst, Value};
use minilang::parse::program;
use minilang::types::{LlType, RawType};

fn compile_src(src: &str) -> (Compiler, Result<(), Error>) {
    let defs = program(src).unwrap();
    let mut c = Compiler::new();
    let r = c.compile(&defs);
    (c, r)
}

fn compile_err(src: &str) -> (String, Span) {
    let (_, r) = compile_src(src);
    let e = r.unwrap_err();
    (e.message, e.span)
}

fn span(start: usize, end: usize) -> Span {
    Span { start, end }
}

fn gives_value(i: &Inst) -> bool {
    matches!(
        i,
        Inst::Alloca { .. } | Inst::Load { .. } | Inst::StructGep { .. } | Inst::Add { .. } | Inst::Call { .. }
    )
}

fn operands(i: &Inst) -> Vec<Value> {
    match i {
        Inst::Alloca { .. } => vec![],
        Inst::Store { ptr, value } => vec![*ptr, *value],
        Inst::Load { ptr, .. } => vec![*ptr],
        Inst::StructGep { ptr, .. } => vec![*ptr],
        Inst::Add { lhs, rhs } => vec![*lhs, *rhs],
        Inst::Print { value } => vec![*value],
        Inst::Call { callee, args, .. } => {
            let mut v = vec![*callee];
            v.extend(args.iter().copied());
            v
        }
        Inst::Return { value } => vec![*value],
    }
}

/// Every operand refers to an earlier result, a parameter of the function,
/// or a function up to the current one.
fn plan_is_well_formed(fs: &Vec<FunctionCode>) -> bool {
    for (fi, f) in fs.iter().enumerate() {
        for (ii, inst) in f.body.iter().enumerate() {
            for v in operands(inst) {
                let ok = match v {
                    Value::Reg(r) => r < ii && gives_value(&f.body[r]),
                    Value::Param(p) => p < f.params.len(),
                    Value::Function(g) => g <= fi,
                    Value::Int(_) | Value::Unit => true,
                };
                if !ok {
                    return false;
                }
            }
        }
    }
    true
}

#[test]
fn compiles_print_of_constant() {
    let (c, r) = compile_src("fun main(): Unit := print 1");
    assert!(r.is_ok());
    let fs = c.functions();
    assert_eq!(fs.len(), 1);
    assert_eq!(fs[0].name, "main");
    assert!(fs[0].params.is_empty());
    assert!(matches!(fs[0].ret, LlType::EmptyStruct));
    assert_eq!(fs[0].body.len(), 2);
    assert!(matches!(fs[0].body[0], Inst::Print { value: Value::Int(1) }));
    assert!(matches!(fs[0].body[1], Inst::Return { value: Value::Unit }));
}

#[test]
fn parameters_get_stack_slots() {
    let (c, r) = compile_src("fun f(a: Int): Int := a fun main(): Unit := print @f(2)");
    assert!(r.is_ok());
    let fs = c.functions();
    assert_eq!(fs.len(), 2);
    let f = &fs[0];
    assert_eq!(f.name, "f");
    assert_eq!(f.params.len(), 1);
    assert!(matches!(f.params[0], LlType::I64));
    assert!(matches!(f.ret, LlType::I64));
    assert_eq!(f.body.len(), 4);
    match &f.body[0] {
        Inst::Alloca { ty: LlType::I64, name } => assert_eq!(name, "param"),
        other => panic!("unexpected {:?}", other),
    }
    assert!(matches!(f.body[1], Inst::Store { ptr: Value::Reg(0), value: Value::Param(0) }));
    assert!(matches!(f.body[2], Inst::Load { ty: LlType::I64, ptr: Value::Reg(0) }));
    assert!(matches!(f.body[3], Inst::Return { value: Value::Reg(2) }));
    let m = &fs[1];
    assert_eq!(m.body.len(), 3);
    match &m.body[0] {
        Inst::Call { ret: LlType::I64, params, callee: Value::Function(0), args } => {
            assert_eq!(params.len(), 1);
            assert_eq!(args, &vec![Value::Int(2)]);
        }
        other => panic!("unexpected {:?}", other),
    }
    assert!(matches!(m.body[1], Inst::Print { value: Value::Reg(0) }));
    assert!(matches!(m.body[2], Inst::Return { value: Value::Unit }));
}

#[test]
fn struct_fields_are_addressed_by_position() {
    let src = "struct P { x: Int; y: Int; } fun main(): Unit { var p: P; p.y <- 3; print p.y }";
    let (c, r) = compile_src(src);
    assert!(r.is_ok());
    let b = &c.functions()[0].body;
    assert_eq!(b.len(), 7);
    match &b[0] {
        Inst::Alloca { ty: LlType::Struct(fs), name } => {
            assert_eq!(fs.len(), 2);
            assert_eq!(name, "p");
        }
        other => panic!("unexpected {:?}", other),
    }
    assert!(matches!(b[1], Inst::StructGep { ptr: Value::Reg(0), index: 1, .. }));
    assert!(matches!(b[2], Inst::Store { ptr: Value::Reg(1), value: Value::Int(3) }));
    assert!(matches!(b[3], Inst::StructGep { ptr: Value::Reg(0), index: 1, .. }));
    assert!(matches!(b[4], Inst::Load { ty: LlType::I64, ptr: Value::Reg(3) }));
    assert!(matches!(b[5], Inst::Print { value: Value::Reg(4) }));
    assert!(matches!(b[6], Inst::Return { value: Value::Unit }));
}

#[test]
fn addition_of_two_values() {
    let (c, r) = compile_src("fun main(): Unit := print 1 + 2");
    assert!(r.is_ok());
    let b = &c.functions()[0].body;
    assert!(matches!(b[0], Inst::Add { lhs: Value::Int(1), rhs: Value::Int(2) }));
    assert!(matches!(b[1], Inst::Print { value: Value::Reg(0) }));
}

#[test]
fn a_function_may_call_itself() {
    let (c, r) = compile_src("fun f(a: Int): Int := @f(a) fun main(): Unit := print @f(1)");
    assert!(r.is_ok());
    assert!(matches!(c.functions()[0].body[3], Inst::Call { callee: Value::Function(0), .. }));
}

#[test]
fn missing_main_is_reported() {
    assert_eq!(compile_err(""), ("undefined global variable".to_string(), span(0, 0)));
}

#[test]
fn main_must_take_nothing_and_return_unit() {
    assert_eq!(
        compile_err("fun main(): Int := 1"),
        ("type mismatch fun(): Int and fun(): Unit".to_string(), span(0, 0))
    );
}

#[test]
fn undefined_type_is_reported() {
    assert_eq!(
        compile_err("fun main(x: Foo): Unit := print 1"),
        ("undefined type".to_string(), span(12, 15))
    );
}

#[test]
fn type_redefinition_is_reported() {
    assert_eq!(
        compile_err("struct A { } struct A { }"),
        ("type redefinition".to_string(), span(20, 21))
    );
}

#[test]
fn field_redefinition_is_reported() {
    assert_eq!(
        compile_err("struct A { x: Int; x: Unit; }"),
        ("field redefinition".to_string(), span(19, 20))
    );
}

#[test]
fn variable_redefinition_is_reported() {
    assert_eq!(
        compile_err("fun main(): Unit { var x: Int; var x: Int }"),
        ("variable redefinition".to_string(), span(35, 36))
    );
}

#[test]
fn parameter_redefinition_is_reported() {
    assert_eq!(
        compile_err("fun f(a: Int, a: Int): Int := 1"),
        ("variable redefinition".to_string(), span(14, 15))
    );
}

#[test]
fn undefined_variable_is_reported() {
    assert_eq!(
        compile_err("fun main(): Unit := print x"),
        ("undefined variable".to_string(), span(26, 27))
    );
}

#[test]
fn undefined_global_is_reported() {
    assert_eq!(
        compile_err("fun main(): Unit := @g()"),
        ("undefined global variable".to_string(), span(21, 22))
    );
}

#[test]
fn global_redefinition_is_reported() {
    assert_eq!(
        compile_err("fun f(): Int := 1 fun f(): Int := 2"),
        ("global variable redefinition".to_string(), span(22, 23))
    );
}

#[test]
fn field_of_a_non_struct_is_reported() {
    assert_eq!(
        compile_err("fun main(): Unit { var x: Int; x.y <- 1 }"),
        ("not an struct".to_string(), span(31, 32))
    );
}

#[test]
fn missing_field_is_reported() {
    assert_eq!(
        compile_err("struct P { x: Int; } fun main(): Unit { var p: P; p.y <- 1 }"),
        ("no field".to_string(), span(52, 53))
    );
}

#[test]
fn calling_a_non_function_is_reported() {
    assert_eq!(
        compile_err("fun main(): Unit := 1()"),
        ("not a function".to_string(), span(20, 21))
    );
}

#[test]
fn argument_count_is_checked() {
    assert_eq!(
        compile_err("fun f(a: Int): Int := a fun main(): Unit := print @f()"),
        ("the number of arguments does not match".to_string(), span(52, 54))
    );
}

#[test]
fn argument_types_are_checked() {
    assert_eq!(
        compile_err("fun f(a: Int): Int := a fun main(): Unit := print @f(@main)"),
        ("type mismatch fun(): Unit and Int".to_string(), span(53, 58))
    );
}

#[test]
fn print_needs_an_integer() {
    assert_eq!(
        compile_err("fun main(): Unit := print @main"),
        ("type mismatch fun(): Unit and Int".to_string(), span(26, 31))
    );
}

#[test]
fn addition_needs_integers() {
    assert_eq!(
        compile_err("fun main(): Unit := print 1 + @main"),
        ("type mismatch fun(): Unit and Int".to_string(), span(28, 35))
    );
}

#[test]
fn assignment_needs_matching_types() {
    assert_eq!(
        compile_err("fun main(): Unit { var x: Int; x <- @main }"),
        ("type mismatch Int and fun(): Unit".to_string(), span(36, 42))
    );
}

#[test]
fn body_must_have_the_return_type() {
    assert_eq!(
        compile_err("fun f(): Int := print 1 fun main(): Unit := print @f()"),
        ("type mismatch Unit and Int".to_string(), span(13, 24))
    );
}

#[test]
fn first_error_stops_compilation() {
    let (c, r) = compile_src("fun f(): Int := 1 fun g(): Int := x fun h(): Int := y");
    let e = r.unwrap_err();
    assert_eq!(e.message, "undefined variable");
    assert_eq!(e.span, span(34, 35));
    assert_eq!(c.functions().len(), 2);
    assert_eq!(c.functions()[0].name, "f");
    assert_eq!(c.functions()[1].name, "g");
    assert!(c.functions()[1].body.is_empty());
}

#[test]
fn a_function_that_fails_keeps_its_place() {
    let mut c = Compiler::new();
    let e = c.compile(&program("fun f(a: Int): Int := x").unwrap()).unwrap_err();
    assert_eq!(e.message, "undefined variable");
    assert_eq!(c.functions().len(), 1);
    assert_eq!(c.functions()[0].name, "f");
    assert_eq!(c.functions()[0].params.len(), 1);
    assert!(c.functions()[0].body.is_empty());
    assert!(c.compile(&program("fun main(): Unit := print @f(1)").unwrap()).is_ok());
    assert_eq!(c.functions().len(), 2);
    assert!(matches!(c.functions()[1].body[0], Inst::Call { callee: Value::Function(0), .. }));
    assert!(plan_is_well_formed(c.functions()));
}

#[test]
fn definitions_persist_across_compilations() {
    let defs = program("fun f(): Int := 7").unwrap();
    let mut c = Compiler::new();
    let e = c.compile(&defs).unwrap_err();
    assert_eq!(e.message, "undefined global variable");
    assert_eq!(c.functions().len(), 1);
    let more = program("fun main(): Unit := print @f()").unwrap();
    assert!(c.compile(&more).is_ok());
    assert_eq!(c.functions().len(), 2);
    assert_eq!(c.functions()[0].name, "f");
    assert_eq!(c.functions()[1].name, "main");
    let again = program("fun f(): Int := 8").unwrap();
    let e = c.compile(&again).unwrap_err();
    assert_eq!(e.message, "global variable redefinition");
    assert_eq!(c.functions().len(), 2);
}

#[test]
fn compiled_program_has_main() {
    let (c, r) = compile_src("fun a(): Unit := print 1 fun main(): Unit := @a()");
    assert!(r.is_ok());
    assert!(c.functions().iter().any(|f| f.name == "main" && f.params.is_empty()));
}

#[test]
fn code_plan_is_well_formed() {
    let src = "struct P { x: Int; f: fun(Int): Int; } \
               fun inc(a: Int): Int := a + 1 \
               fun apply(p: P): Int { var g: fun(Int): Int; g <- p.f; g(p.x) } \
               fun main(): Unit { var p: P; p.x <- 41; p.f <- @inc; print @apply(p) }";
    let (c, r) = compile_src(src);
    assert!(r.is_ok());
    assert_eq!(c.functions().len(), 3);
    assert!(plan_is_well_formed(c.functions()));
}

#[test]
fn raw_types_are_written_as_in_source() {
    let t = RawType::FunPtr(vec![RawType::Int, RawType::Unit], Box::new(RawType::Int));
    assert_eq!(t.to_string(), "fun(Int, Unit): Int");
    let f = RawType::FunPtr(vec![], Box::new(RawType::FunPtr(vec![RawType::Int], Box::new(RawType::Unit))));
    assert_eq!(f.to_string(), "fun(): fun(Int): Unit");
}

#[test]
fn struct_types_are_written_by_name() {
    assert_eq!(
        compile_err("struct Point { } fun main(): Unit { var p: Point; print p }"),
        ("type mismatch Point and Int".to_string(), span(56, 58))
    );
}

#[test]
fn struct_layout_follows_field_order() {
    let src = "struct P { a: Int; b: Unit; c: fun(): Int; } fun main(): Unit { var p: P }";
    let (c, r) = compile_src(src);
    assert!(r.is_ok());
    match &c.functions()[0].body[0] {
        Inst::Alloca { ty: LlType::Struct(fs), .. } => {
            assert_eq!(fs.len(), 3);
            assert!(matches!(fs[0], LlType::I64));
            assert!(matches!(fs[1], LlType::EmptyStruct));
            assert!(matches!(fs[2], LlType::Ptr));
        }
        other => panic!("unexpected {:?}", other),
    }
}

#[test]
fn nested_struct_fields() {
    let src = "struct A { x: Int; } struct B { a: A; y: Int; } \
               fun main(): Unit { var b: B; b.a.x <- 5; print b.a.x + b.y }";
    let (c, r) = compile_src(src);
    assert!(r.is_ok());
    let b = &c.functions()[0].body;
    match &b[0] {
        Inst::Alloca { ty: LlType::Struct(fs), .. } => {
            assert_eq!(fs.len(), 2);
            assert!(matches!(&fs[0], LlType::Struct(inner) if inner.len() == 1));
        }
        other => panic!("unexpected {:?}", other),
    }
    assert!(matches!(b[1], Inst::StructGep { ptr: Value::Reg(0), index: 0, .. }));
    assert!(matches!(b[2], Inst::StructGep { ptr: Value::Reg(1), index: 0, .. }));
    assert!(matches!(b[3], Inst::Store { ptr: Value::Reg(2), value: Value::Int(5) }));
    assert!(plan_is_well_formed(c.functions()));
}

#[test]
fn raw_type_equality_is_structural() {
    let a = RawType::FunPtr(vec![RawType::Int], Box::new(RawType::Unit));
    let b = a.duplicate();
    assert!(a.same(&b));
    let c = RawType::FunPtr(vec![RawType::Unit], Box::new(RawType::Unit));
    assert!(!a.same(&c));
    assert!(!RawType::Int.same(&RawType::Unit));
}

#[test]
fn struct_values_of_one_type_can_be_assigned() {
    let src = "struct P { x: Int; } struct Q { x: Int; } fun main(): Unit { var a: P; var b: P; a <- b }";
    let (_, r) = compile_src(src);
    assert!(r.is_ok());
    let src = "struct P { x: Int; } struct Q { x: Int; } fun main(): Unit { var a: P; var b: Q; a <- b }";
    let (message, _) = compile_err(src);
    assert_eq!(message, "type mismatch P and Q");
}

#[test]
fn field_types_are_looked_up_by_name() {
    let src = "struct P { x: Int; f: fun(): Unit; } fun main(): Unit { var p: P; p.f <- @main; print p.x }";
    let (c, r) = compile_src(src);
    assert!(r.is_ok());
    let b = &c.functions()[0].body;
    assert!(matches!(b[1], Inst::StructGep { index: 1, .. }));
    assert!(matches!(b[3], Inst::StructGep { index: 0, .. }));
    let src = "struct P { x: Int; f: fun(): Unit; } fun main(): Unit { var p: P; p.x <- @main }";
    let (message, _) = compile_err(src);
    assert_eq!(message, "type mismatch Int and fun(): Unit");
}

#[test]
fn errors_lie_within_the_source() {
    let sources = [
        "fun main(): Unit := print x",
        "fun main(x: Foo): Unit := print 1",
        "struct A { x: Int; x: Int; }",
        "fun main(): Unit { var x: Int; x.y <- 1 }",
        "fun f(a: Int): Int := a fun main(): Unit := print @f(@main)",
        "fun f(): Int := print 1 fun main(): Unit := print @f()",
        "fun f(): Int := 1",
    ];
    for src in sources {
        let (_, r) = compile_src(src);
        let e = r.unwrap_err();
        assert!(e.span.start <= e.span.end && e.span.end <= src.len(), "{}", src);
    }
}

#[test]
fn arguments_may_be_any_expression() {
    let src = "fun add(a: Int, b: Int): Int := a + b fun main(): Unit := print @add(1 + 2, @add(3, 4))";
    let (c, r) = compile_src(src);
    assert!(r.is_ok());
    let b = &c.functions()[1].body;
    assert!(matches!(b[0], Inst::Add { lhs: Value::Int(1), rhs: Value::Int(2) }));
    assert!(matches!(b[1], Inst::Call { callee: Value::Function(0), .. }));
    match &b[2] {
        Inst::Call { callee: Value::Function(0), args, .. } => {
            assert_eq!(args, &vec![Value::Reg(0), Value::Reg(1)]);
        }
        other => panic!("unexpected {:?}", other),
    }
}

#[test]
fn a_struct_may_only_use_earlier_structs() {
    assert_eq!(
        compile_err("struct A { b: B; } struct B { }"),
        ("undefined type".to_string(), span(14, 15))
    );
    assert_eq!(
        compile_err("struct A { a: A; }"),
        ("undefined type".to_string(), span(14, 15))
    );
}

#[test]
fn right_operand_is_compiled_before_types_are_checked() {
    assert_eq!(
        compile_err("fun main(): Unit := print @main + x"),
        ("undefined variable".to_string(), span(34, 35))
    );
}

#[test]
fn type_text_reads_back() {
    let (msg, _) = compile_err("struct A { } fun f(x: fun(Int, A): Unit): Unit := print x");
    let text = msg
        .strip_prefix("type mismatch ")
        .unwrap()
        .strip_suffix(" and Int")
        .unwrap()
        .to_string();
    assert_eq!(text, "fun(Int, A): Unit");
    let src = format!(
        "struct A {{ }} fun f(x: {}): Unit {{ var y: {}; y <- x }} fun main(): Unit := print 1",
        text, text
    );
    let (_, r) = compile_src(&src);
    assert!(r.is_ok());
}
