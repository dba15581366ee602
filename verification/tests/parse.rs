use minilang::ast::{Def, Expr, Ref, Span, Type};
use minilang::parse::{program, program_checked};

fn span(start: usize, end: usize) -> Span {
    Span { start, end }
}

#[test]
fn parses_expression_body() {
    let src = "fun main(): Unit := print 1";
    let defs = program(src).unwrap();
    assert_eq!(defs.len(), 1);
    match &defs[0] {
        Def::Fun(name, params, ret, body) => {
            assert_eq!(name.inner, "main");
            assert_eq!(name.span, span(4, 8));
            assert!(params.is_empty());
            assert!(matches!(ret, Type::Unit));
            assert_eq!(body.span, span(17, 27));
            assert_eq!(body.inner.len(), 1);
            match &body.inner[0] {
                Expr::Print(e) => {
                    assert_eq!(e.span, span(26, 27));
                    assert!(matches!(*e.inner, Expr::Int(1)));
                }
                other => panic!("unexpected {:?}", other),
            }
        }
        other => panic!("unexpected {:?}", other),
    }
}

#[test]
fn parses_struct_fields_in_order() {
    let src = "struct Point { x: Int; y: Unit; }";
    let defs = program(src).unwrap();
    assert_eq!(defs.len(), 1);
    match &defs[0] {
        Def::Struct(name, fields) => {
            assert_eq!(name.inner, "Point");
            assert_eq!(name.span, span(7, 12));
            assert_eq!(fields.len(), 2);
            assert_eq!(fields[0].name.inner, "x");
            assert_eq!(fields[0].name.span, span(15, 16));
            assert!(matches!(fields[0].ty, Type::Int));
            assert_eq!(fields[1].name.inner, "y");
            assert_eq!(fields[1].name.span, span(23, 24));
            assert!(matches!(fields[1].ty, Type::Unit));
        }
        other => panic!("unexpected {:?}", other),
    }
}

#[test]
fn parses_block_body_with_addition() {
    let src = "fun f(a: Int, b: Int): Int { a + b }";
    let defs = program(src).unwrap();
    match &defs[0] {
        Def::Fun(name, params, ret, body) => {
            assert_eq!(name.inner, "f");
            assert_eq!(params.len(), 2);
            assert_eq!(params[0].name.inner, "a");
            assert_eq!(params[0].name.span, span(6, 7));
            assert_eq!(params[1].name.inner, "b");
            assert_eq!(params[1].name.span, span(14, 15));
            assert!(matches!(ret, Type::Int));
            assert_eq!(body.span, span(27, 36));
            assert_eq!(body.inner.len(), 1);
            match &body.inner[0] {
                Expr::Add(l, r) => {
                    assert_eq!(l.span, span(29, 31));
                    assert_eq!(r.span, span(31, 35));
                    match (&*l.inner, &*r.inner) {
                        (Expr::Deref(Ref::Var(a)), Expr::Deref(Ref::Var(b))) => {
                            assert_eq!(a.inner, "a");
                            assert_eq!(a.span, span(29, 30));
                            assert_eq!(b.inner, "b");
                            assert_eq!(b.span, span(33, 34));
                        }
                        other => panic!("unexpected {:?}", other),
                    }
                }
                other => panic!("unexpected {:?}", other),
            }
        }
        other => panic!("unexpected {:?}", other),
    }
}

#[test]
fn parses_several_body_expressions() {
    let src = "fun main(): Unit { var x: Int; x <- 2; print x }";
    let defs = program(src).unwrap();
    match &defs[0] {
        Def::Fun(_, _, _, body) => {
            assert_eq!(body.inner.len(), 3);
            match &body.inner[0] {
                Expr::Var(n, Type::Int) => assert_eq!(n.inner, "x"),
                other => panic!("unexpected {:?}", other),
            }
            match &body.inner[1] {
                Expr::Assign(Ref::Var(n), e) => {
                    assert_eq!(n.inner, "x");
                    assert!(matches!(*e.inner, Expr::Int(2)));
                }
                other => panic!("unexpected {:?}", other),
            }
            assert!(matches!(&body.inner[2], Expr::Print(_)));
        }
        other => panic!("unexpected {:?}", other),
    }
}

#[test]
fn parses_field_access_chain() {
    let src = "fun g(p: P): Int := p.q.r";
    let defs = program(src).unwrap();
    match &defs[0] {
        Def::Fun(_, params, _, body) => {
            match &params[0].ty {
                Type::Named(n) => {
                    assert_eq!(n.inner, "P");
                    assert_eq!(n.span, span(9, 10));
                }
                other => panic!("unexpected {:?}", other),
            }
            match &body.inner[0] {
                Expr::Deref(Ref::Access(inner, r)) => {
                    assert_eq!(r.inner, "r");
                    assert_eq!(r.span, span(24, 25));
                    match &*inner.inner {
                        Ref::Access(inner2, q) => {
                            assert_eq!(q.inner, "q");
                            match &*inner2.inner {
                                Ref::Var(p) => assert_eq!(p.inner, "p"),
                                other => panic!("unexpected {:?}", other),
                            }
                        }
                        other => panic!("unexpected {:?}", other),
                    }
                }
                other => panic!("unexpected {:?}", other),
            }
        }
        other => panic!("unexpected {:?}", other),
    }
}

#[test]
fn parses_function_types_and_calls() {
    let src = "fun h(f: fun(Int, Unit): Int): Int := f(1, ())";
    let defs = program(src);
    // `()` is not an expression: the argument list does not parse.
    assert!(defs.is_err());
    let src = "fun h(f: fun(Int): Int): Int := f(1)(2)";
    let defs = program(src).unwrap();
    match &defs[0] {
        Def::Fun(_, params, _, body) => {
            match &params[0].ty {
                Type::Fun(ps, r) => {
                    assert_eq!(ps.len(), 1);
                    assert!(matches!(ps[0], Type::Int));
                    assert!(matches!(**r, Type::Int));
                }
                other => panic!("unexpected {:?}", other),
            }
            match &body.inner[0] {
                Expr::Call(callee, args) => {
                    assert_eq!(args.inner.len(), 1);
                    assert!(matches!(args.inner[0].inner, Expr::Int(2)));
                    assert!(matches!(*callee.inner, Expr::Call(_, _)));
                }
                other => panic!("unexpected {:?}", other),
            }
        }
        other => panic!("unexpected {:?}", other),
    }
}

#[test]
fn parses_global_reference() {
    let src = "fun main(): Unit := @main()";
    let defs = program(src).unwrap();
    match &defs[0] {
        Def::Fun(_, _, _, body) => match &body.inner[0] {
            Expr::Call(callee, args) => {
                assert!(args.inner.is_empty());
                match &*callee.inner {
                    Expr::Global(n) => {
                        assert_eq!(n.inner, "main");
                        assert_eq!(n.span, span(21, 25));
                    }
                    other => panic!("unexpected {:?}", other),
                }
            }
            other => panic!("unexpected {:?}", other),
        },
        other => panic!("unexpected {:?}", other),
    }
}

#[test]
fn empty_source_has_no_definitions() {
    assert!(program("").unwrap().is_empty());
}

#[test]
fn blank_source_is_rejected() {
    // Whitespace is only skipped around a definition.
    let err = program(" \n\t ").unwrap_err();
    assert_eq!(err.span, span(0, 4));
    assert_eq!(err.message, "unexpected input");
}

#[test]
fn rejects_text_after_the_definitions() {
    let src = "fun main(): Unit := print 1 $";
    let err = program(src).unwrap_err();
    assert_eq!(err.span, span(28, 29));
    assert_eq!(err.message, "unexpected input");
}

#[test]
fn rejects_a_source_without_definitions() {
    let err = program("hello").unwrap_err();
    assert_eq!(err.span, span(0, 5));
    assert_eq!(err.message, "unexpected input");
}

#[test]
fn keyword_needs_a_word_boundary() {
    // `funmain` is not the keyword `fun` followed by a name.
    assert!(program("funmain(): Unit := 1").is_err());
}

#[test]
fn names_may_end_with_primes() {
    let src = "fun f''(x': Int): Int := x'";
    let defs = program(src).unwrap();
    match &defs[0] {
        Def::Fun(name, params, _, _) => {
            assert_eq!(name.inner, "f''");
            assert_eq!(params[0].name.inner, "x'");
        }
        other => panic!("unexpected {:?}", other),
    }
}

#[test]
fn integer_literal_out_of_range_is_reported() {
    assert!(program_checked("fun f(): Int := 18446744073709551616").is_none());
    let defs = program_checked("fun f(): Int := 18446744073709551615").unwrap().unwrap();
    match &defs[0] {
        Def::Fun(_, _, _, body) => assert!(matches!(body.inner[0], Expr::Int(18446744073709551615))),
        other => panic!("unexpected {:?}", other),
    }
}

#[test]
fn unicode_whitespace_separates_tokens() {
    let src = "fun\u{3000}main():\u{a0}Unit := print 1";
    let defs = program(src).unwrap();
    match &defs[0] {
        Def::Fun(name, _, _, _) => {
            assert_eq!(name.inner, "main");
            assert_eq!(name.span, span(6, 10));
        }
        other => panic!("unexpected {:?}", other),
    }
}

fn check_name(src: &str, n: &minilang::ast::Name) {
    assert!(n.span.start <= n.span.end && n.span.end <= src.len());
    assert_eq!(&src[n.span.start..n.span.end], n.inner);
}

fn check_type(src: &str, t: &Type) {
    match t {
        Type::Named(n) => check_name(src, n),
        Type::Fun(ps, r) => {
            for p in ps {
                check_type(src, p);
            }
            check_type(src, r);
        }
        _ => {}
    }
}

fn check_ref(src: &str, r: &Ref) {
    match r {
        Ref::Var(n) => check_name(src, n),
        Ref::Access(inner, f) => {
            assert!(inner.span.end <= src.len());
            check_ref(src, &inner.inner);
            check_name(src, f);
        }
    }
}

fn check_expr(src: &str, e: &Expr) {
    match e {
        Expr::Int(_) => {}
        Expr::Global(n) => check_name(src, n),
        Expr::Var(n, t) => {
            check_name(src, n);
            check_type(src, t);
        }
        Expr::Print(x) => {
            assert!(x.span.start <= x.span.end && x.span.end <= src.len());
            check_expr(src, &x.inner);
        }
        Expr::Assign(r, x) => {
            check_ref(src, r);
            assert!(x.span.end <= src.len());
            check_expr(src, &x.inner);
        }
        Expr::Deref(r) => check_ref(src, r),
        Expr::Call(c, args) => {
            assert!(c.span.end <= src.len() && args.span.end <= src.len());
            check_expr(src, &c.inner);
            for a in &args.inner {
                assert!(a.span.start <= a.span.end && a.span.end <= src.len());
                check_expr(src, &a.inner);
            }
        }
        Expr::Add(l, r) => {
            assert!(l.span.end <= src.len() && r.span.end <= src.len());
            check_expr(src, &l.inner);
            check_expr(src, &r.inner);
        }
    }
}

#[test]
fn names_are_the_text_at_their_spans() {
    let src = "struct Pair { a: Int; b: fun(Int): Unit; }\n\
               fun go(p: Pair, f: fun(Int): Unit): Unit {\n\
               \u{3000}var x: Int; x <- p.a + 2; @go(p, f); f(x); print (x + 1)\n\
               }";
    let defs = program(src).unwrap();
    assert_eq!(defs.len(), 2);
    for d in &defs {
        match d {
            Def::Struct(n, fs) => {
                check_name(src, n);
                for f in fs {
                    check_name(src, &f.name);
                    check_type(src, &f.ty);
                }
            }
            Def::Fun(n, ps, rt, body) => {
                check_name(src, n);
                for p in ps {
                    check_name(src, &p.name);
                    check_type(src, &p.ty);
                }
                check_type(src, rt);
                assert!(body.span.end <= src.len());
                for x in &body.inner {
                    check_expr(src, x);
                }
            }
        }
    }
}

#[test]
fn integer_literals_are_runs_of_digits() {
    let defs = program("fun f(): Int := 007").unwrap();
    match &defs[0] {
        Def::Fun(_, _, _, body) => {
            assert_eq!(body.inner.len(), 1);
            assert!(matches!(body.inner[0], Expr::Int(7)));
        }
        other => panic!("unexpected {:?}", other),
    }
    let defs = program("fun f(): Int := 0").unwrap();
    match &defs[0] {
        Def::Fun(_, _, _, body) => assert!(matches!(body.inner[0], Expr::Int(0))),
        other => panic!("unexpected {:?}", other),
    }
}

#[test]
fn call_arguments_are_expressions() {
    let src = "fun main(): Unit := @f(1 + 2, @g(1))";
    let defs = program(src).unwrap();
    match &defs[0] {
        Def::Fun(_, _, _, body) => match &body.inner[0] {
            Expr::Call(callee, args) => {
                assert!(matches!(*callee.inner, Expr::Global(_)));
                assert_eq!(args.inner.len(), 2);
                assert!(matches!(args.inner[0].inner, Expr::Add(_, _)));
                assert_eq!(args.inner[0].span, span(23, 28));
                match &args.inner[1].inner {
                    Expr::Call(g, inner) => {
                        assert!(matches!(*g.inner, Expr::Global(_)));
                        assert_eq!(inner.inner.len(), 1);
                        assert!(matches!(inner.inner[0].inner, Expr::Int(1)));
                    }
                    other => panic!("unexpected {:?}", other),
                }
                assert_eq!(args.inner[1].span, span(30, 35));
            }
            other => panic!("unexpected {:?}", other),
        },
        other => panic!("unexpected {:?}", other),
    }
}
