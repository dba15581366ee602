//! The grammar of the language, as a parsing-expression grammar over the
//! UTF-8 bytes of the source text.
//!
//! Each function reads the bytes `s` from position `p` and gives what it
//! recognises there and the position after it. Alternatives are ordered and
//! backtrack; repetitions are greedy and stop, without consuming, at the first
//! item that does not parse. Whitespace is skipped exactly where the grammar
//! says so, and spans cover exactly what the spanned part consumed.
//!
//! An integer literal whose value exceeds `u64::MAX` makes parsing stop at
//! once, wherever the literal is reached (`Outcome::Overflow`).
//!
//! Recursive calls are guarded by `ahead`/`within`: positions never move
//! backwards nor past the end, so the guards always hold (the parser proves
//! this); they only make the termination of these definitions evident.
use vstd::prelude::*;
use vstd::utf8::decode_utf8;
use crate::ast::{BindingV, DefV, ExprV, NameV, RefV, SExprV, Span, TypeV};

verus! {

/// What a parser that may meet an integer literal gives.
pub enum Outcome<T, P> {
    Done(T, P),
    NoMatch,
    Overflow,
}

pub open spec fn ahead(s: Seq<u8>, p: int, q: int) -> bool {
    p < q <= s.len()
}

pub open spec fn within(s: Seq<u8>, p: int, q: int) -> bool {
    p <= q <= s.len()
}

pub open spec fn mk_span(a: int, b: int) -> Span {
    Span { start: a as usize, end: b as usize }
}

// ---------------------------------------------------------------------------
// Characters
/// Width in bytes of the UTF-8 encoding of a character with the Unicode
/// `White_Space` property that starts at `p`, or 0 if there is none.
pub open spec fn ws_width(s: Seq<u8>, p: int) -> int {
    if 0 <= p < s.len() {
        let a = s[p];
        if a == 0x20 || (0x09 <= a <= 0x0d) {
            1
        } else if a == 0xc2 && p + 1 < s.len() && (s[p + 1] == 0x85 || s[p + 1] == 0xa0) {
            2
        } else if p + 2 < s.len() && is_ws3(a, s[p + 1], s[p + 2]) {
            3
        } else {
            0
        }
    } else {
        0
    }
}

/// The three-byte encodings of U+1680, U+2000..=U+200A, U+2028, U+2029,
/// U+202F, U+205F and U+3000.
pub open spec fn is_ws3(a: u8, b: u8, c: u8) -> bool {
    ||| a == 0xe1 && b == 0x9a && c == 0x80
    ||| a == 0xe2 && b == 0x80 && ((0x80 <= c <= 0x8a) || c == 0xa8 || c == 0xa9 || c == 0xaf)
    ||| a == 0xe2 && b == 0x81 && c == 0x9f
    ||| a == 0xe3 && b == 0x80 && c == 0x80
}

/// The position after the whitespace that starts at `p`.
pub open spec fn skip_ws(s: Seq<u8>, p: int) -> int
    decreases s.len() - p,
{
    if ws_width(s, p) > 0 {
        skip_ws(s, p + ws_width(s, p))
    } else {
        p
    }
}

#[derive(Clone, Copy)]
pub enum Class {
    Upper,
    Lower,
    Digit,
    Alnum,
    Prime,
    IdentStart,
    IdentCont,
}

pub open spec fn in_class(c: Class, b: u8) -> bool {
    match c {
        Class::Upper => 0x41 <= b <= 0x5a,
        Class::Lower => 0x61 <= b <= 0x7a,
        Class::Digit => 0x30 <= b <= 0x39,
        Class::Alnum => (0x41 <= b <= 0x5a) || (0x61 <= b <= 0x7a) || (0x30 <= b <= 0x39),
        Class::Prime => b == 0x27,
        Class::IdentStart => (0x41 <= b <= 0x5a) || (0x61 <= b <= 0x7a) || b == 0x5f,
        Class::IdentCont => (0x41 <= b <= 0x5a) || (0x61 <= b <= 0x7a) || (0x30 <= b <= 0x39)
            || b == 0x5f,
    }
}

pub open spec fn at_class(s: Seq<u8>, p: int, c: Class) -> bool {
    0 <= p < s.len() && in_class(c, s[p])
}

/// The end of the longest run of bytes of class `c` from `p`.
pub open spec fn run_end(s: Seq<u8>, p: int, c: Class) -> int
    decreases s.len() - p,
{
    if at_class(s, p, c) {
        run_end(s, p + 1, c)
    } else {
        p
    }
}

/// The byte `b` at `p`.
pub open spec fn lit(s: Seq<u8>, p: int, b: u8) -> bool {
    0 <= p < s.len() && s[p] == b
}

/// The two bytes `a`, `b` at `p`.
pub open spec fn lit2(s: Seq<u8>, p: int, a: u8, b: u8) -> bool {
    0 <= p && p + 1 < s.len() && s[p] == a && s[p + 1] == b
}

// ---------------------------------------------------------------------------
// Tokens
#[derive(Clone, Copy)]
pub enum Keyword {
    Int,
    Unit,
    Fun,
    Var,
    Print,
    Struct,
}

pub open spec fn keyword_text(k: Keyword) -> Seq<u8> {
    match k {
        Keyword::Int => seq![0x49u8, 0x6e, 0x74],
        Keyword::Unit => seq![0x55u8, 0x6e, 0x69, 0x74],
        Keyword::Fun => seq![0x66u8, 0x75, 0x6e],
        Keyword::Var => seq![0x76u8, 0x61, 0x72],
        Keyword::Print => seq![0x70u8, 0x72, 0x69, 0x6e, 0x74],
        Keyword::Struct => seq![0x73u8, 0x74, 0x72, 0x75, 0x63, 0x74],
    }
}

/// An identifier `[a-zA-Z_][a-zA-Z0-9_]*` that is exactly the keyword `k`.
pub open spec fn keyword(s: Seq<u8>, p: int, k: Keyword) -> Option<int> {
    if at_class(s, p, Class::IdentStart) {
        let e = run_end(s, p + 1, Class::IdentCont);
        if s.subrange(p, e) == keyword_text(k) {
            Some(e)
        } else {
            None
        }
    } else {
        None
    }
}

/// A name: one byte of class `first`, then alphanumerics, then primes.
pub open spec fn name(s: Seq<u8>, p: int, first: Class) -> Option<(NameV, int)> {
    if at_class(s, p, first) {
        let e = run_end(s, run_end(s, p + 1, Class::Alnum), Class::Prime);
        Some((NameV { text: decode_utf8(s.subrange(p, e)), span: mk_span(p, e) }, e))
    } else {
        None
    }
}

/// The end of an integer literal: one or more decimal digits.
pub open spec fn int_end(s: Seq<u8>, p: int) -> Option<int> {
    if at_class(s, p, Class::Digit) {
        Some(run_end(s, p + 1, Class::Digit))
    } else {
        None
    }
}

/// The value of a sequence of decimal digits.
pub open spec fn digits_value(d: Seq<u8>) -> nat
    decreases d.len(),
{
    if d.len() == 0 {
        0
    } else {
        digits_value(d.drop_last()) * 10 + (d.last() - 0x30) as nat
    }
}

// ---------------------------------------------------------------------------
// Types
/// Type := "Int" | "Unit" | TypeName | FunType
pub open spec fn ty(s: Seq<u8>, p: int) -> Option<(TypeV, int)>
    decreases s.len() - p, 3int,
{
    if let Some(e) = keyword(s, p, Keyword::Int) {
        Some((TypeV::Int, e))
    } else if let Some(e) = keyword(s, p, Keyword::Unit) {
        Some((TypeV::Unit, e))
    } else if let Some((n, e)) = name(s, p, Class::Upper) {
        Some((TypeV::Named(n), e))
    } else {
        fun_type(s, p)
    }
}

/// FunType := "fun" "(" (Type ("," Type)*)? ")" ":" Type, with whitespace
/// allowed between the parts.
pub open spec fn fun_type(s: Seq<u8>, p: int) -> Option<(TypeV, int)>
    decreases s.len() - p, 2int,
{
    let q = skip_ws(s, p);
    if let Some(e1) = keyword(s, q, Keyword::Fun) {
        let q1 = skip_ws(s, e1);
        if lit(s, q1, 0x28) {
            let q2 = skip_ws(s, q1 + 1);
            if ahead(s, p, q2) {
                let (ps, e2) = type_list(s, q2);
                if lit(s, e2, 0x29) {
                    let q3 = skip_ws(s, e2 + 1);
                    if lit(s, q3, 0x3a) {
                        let q4 = skip_ws(s, q3 + 1);
                        if ahead(s, p, q4) {
                            if let Some((r, e)) = ty(s, q4) {
                                Some((TypeV::Fun(ps, Box::new(r)), e))
                            } else {
                                None
                            }
                        } else {
                            None
                        }
                    } else {
                        None
                    }
                } else {
                    None
                }
            } else {
                None
            }
        } else {
            None
        }
    } else {
        None
    }
}

/// A type with whitespace around it, as an item of a list.
pub open spec fn type_item(s: Seq<u8>, p: int) -> Option<(TypeV, int)>
    decreases s.len() - p, 4int,
{
    let q = skip_ws(s, p);
    if within(s, p, q) {
        if let Some((t, e)) = ty(s, q) {
            Some((t, skip_ws(s, e)))
        } else {
            None
        }
    } else {
        None
    }
}

/// Zero or more list items separated by commas.
pub open spec fn type_list(s: Seq<u8>, p: int) -> (Seq<TypeV>, int)
    decreases s.len() - p, 5int,
{
    if let Some((t, e)) = type_item(s, p) {
        if ahead(s, p, e) {
            let (ts, e2) = type_list_tail(s, e);
            (seq![t] + ts, e2)
        } else {
            (seq![], p)
        }
    } else {
        (seq![], p)
    }
}

/// The items after the first: each one preceded by a comma. A comma that is
/// not followed by an item is not consumed.
pub open spec fn type_list_tail(s: Seq<u8>, p: int) -> (Seq<TypeV>, int)
    decreases s.len() - p, 0int,
{
    let q = skip_ws(s, p);
    if lit(s, q, 0x2c) {
        let q1 = skip_ws(s, q + 1);
        if ahead(s, p, q1) {
            if let Some((t, e)) = type_item(s, q1) {
                if ahead(s, p, e) {
                    let (ts, e2) = type_list_tail(s, e);
                    (seq![t] + ts, e2)
                } else {
                    (seq![], p)
                }
            } else {
                (seq![], p)
            }
        } else {
            (seq![], p)
        }
    } else {
        (seq![], p)
    }
}

// ---------------------------------------------------------------------------
// References
/// Ref := VarName ("." VarName)*
pub open spec fn reference(s: Seq<u8>, p: int) -> Option<(RefV, int)> {
    let q = skip_ws(s, p);
    if let Some((n, e)) = name(s, q, Class::Lower) {
        Some(ref_tail(s, skip_ws(s, e), RefV::Var(n), mk_span(q, e)))
    } else {
        None
    }
}

/// The field accesses after a reference `acc` whose span is `acc_span`.
pub open spec fn ref_tail(s: Seq<u8>, p: int, acc: RefV, acc_span: Span) -> (RefV, int)
    decreases s.len() - p,
{
    let q = skip_ws(s, p);
    if lit(s, q, 0x2e) {
        if let Some((n, e)) = name(s, skip_ws(s, q + 1), Class::Lower) {
            let e1 = skip_ws(s, e);
            if ahead(s, p, e1) {
                ref_tail(
                    s,
                    e1,
                    RefV::Access(Box::new(acc), acc_span, n),
                    mk_span(acc_span.start as int, e),
                )
            } else {
                (acc, p)
            }
        } else {
            (acc, p)
        }
    } else {
        (acc, p)
    }
}

// ---------------------------------------------------------------------------
// Expressions
/// "@" VarName
pub open spec fn global_expr(s: Seq<u8>, p: int) -> Option<(NameV, int)> {
    let q = skip_ws(s, p);
    if lit(s, q, 0x40) {
        name(s, skip_ws(s, q + 1), Class::Lower)
    } else {
        None
    }
}

/// "var" VarName ":" Type
pub open spec fn var_expr(s: Seq<u8>, p: int) -> Option<(ExprV, int)> {
    let q = skip_ws(s, p);
    if let Some(e1) = keyword(s, q, Keyword::Var) {
        if let Some((n, e2)) = name(s, skip_ws(s, e1), Class::Lower) {
            let q2 = skip_ws(s, e2);
            if lit(s, q2, 0x3a) {
                if let Some((t, e)) = ty(s, skip_ws(s, q2 + 1)) {
                    Some((ExprV::Var(n, t), e))
                } else {
                    None
                }
            } else {
                None
            }
        } else {
            None
        }
    } else {
        None
    }
}

/// Expr := Call ("+" Call)*, folded to the left.
pub open spec fn expr(s: Seq<u8>, p: int) -> Outcome<ExprV, int>
    decreases s.len() - p, 5int,
{
    sum_expr(s, p)
}

pub open spec fn sum_expr(s: Seq<u8>, p: int) -> Outcome<ExprV, int>
    decreases s.len() - p, 4int,
{
    let q = skip_ws(s, p);
    if within(s, p, q) {
        match call(s, q) {
            Outcome::Done(c, e) => {
                let e1 = skip_ws(s, e);
                if ahead(s, p, e1) {
                    add_tail(s, e1, c, mk_span(q, e))
                } else {
                    Outcome::NoMatch
                }
            },
            Outcome::NoMatch => Outcome::NoMatch,
            Outcome::Overflow => Outcome::Overflow,
        }
    } else {
        Outcome::NoMatch
    }
}

/// The "+" operands after a left operand `acc` whose span is `acc_span`.
/// The span of each right operand starts at its "+".
pub open spec fn add_tail(s: Seq<u8>, p: int, acc: ExprV, acc_span: Span) -> Outcome<ExprV, int>
    decreases s.len() - p, 0int,
{
    let q = skip_ws(s, p);
    if lit(s, q, 0x2b) {
        let q1 = skip_ws(s, q + 1);
        if ahead(s, p, q1) {
            match call(s, q1) {
                Outcome::Done(c, e) => {
                    let e1 = skip_ws(s, e);
                    if ahead(s, p, e1) {
                        add_tail(
                            s,
                            e1,
                            ExprV::Add(Box::new(acc), acc_span, Box::new(c), mk_span(q, e)),
                            mk_span(acc_span.start as int, e),
                        )
                    } else {
                        Outcome::Done(acc, p)
                    }
                },
                Outcome::NoMatch => Outcome::Done(acc, p),
                Outcome::Overflow => Outcome::Overflow,
            }
        } else {
            Outcome::Done(acc, p)
        }
    } else {
        Outcome::Done(acc, p)
    }
}

/// Call := Atom ("(" (Expr ("," Expr)*)? ")")*, folded to the left.
pub open spec fn call(s: Seq<u8>, p: int) -> Outcome<ExprV, int>
    decreases s.len() - p, 3int,
{
    let q = skip_ws(s, p);
    if within(s, p, q) {
        match atom(s, q) {
            Outcome::Done(a, e) => {
                let e1 = skip_ws(s, e);
                if ahead(s, p, e1) {
                    call_tail(s, e1, a, mk_span(q, e))
                } else {
                    Outcome::NoMatch
                }
            },
            Outcome::NoMatch => Outcome::NoMatch,
            Outcome::Overflow => Outcome::Overflow,
        }
    } else {
        Outcome::NoMatch
    }
}

/// The argument lists after a callee `acc` whose span is `acc_span`. The
/// span of an argument list runs from where the previous part ended to ")".
pub open spec fn call_tail(s: Seq<u8>, p: int, acc: ExprV, acc_span: Span) -> Outcome<ExprV, int>
    decreases s.len() - p, 0int,
{
    let q = skip_ws(s, p);
    if lit(s, q, 0x28) {
        let q1 = skip_ws(s, q + 1);
        if ahead(s, p, q1) {
            match arg_list(s, q1) {
                Outcome::Done(args, e) => {
                    if lit(s, e, 0x29) && ahead(s, p, e + 1) {
                        call_tail(
                            s,
                            e + 1,
                            ExprV::Call(Box::new(acc), acc_span, args, mk_span(p, e + 1)),
                            mk_span(acc_span.start as int, e + 1),
                        )
                    } else {
                        Outcome::Done(acc, p)
                    }
                },
                Outcome::NoMatch => Outcome::Done(acc, p),
                Outcome::Overflow => Outcome::Overflow,
            }
        } else {
            Outcome::Done(acc, p)
        }
    } else {
        Outcome::Done(acc, p)
    }
}

/// Zero or more arguments separated by commas.
pub open spec fn arg_list(s: Seq<u8>, p: int) -> Outcome<Seq<SExprV>, int>
    decreases s.len() - p, 7int,
{
    match arg_item(s, p) {
        Outcome::Done(a, e) => {
            if ahead(s, p, e) {
                match arg_tail(s, e) {
                    Outcome::Done(rest, e2) => Outcome::Done(seq![a] + rest, e2),
                    Outcome::NoMatch => Outcome::NoMatch,
                    Outcome::Overflow => Outcome::Overflow,
                }
            } else {
                Outcome::Done(seq![], p)
            }
        },
        Outcome::NoMatch => Outcome::Done(seq![], p),
        Outcome::Overflow => Outcome::Overflow,
    }
}

pub open spec fn arg_tail(s: Seq<u8>, p: int) -> Outcome<Seq<SExprV>, int>
    decreases s.len() - p, 0int,
{
    let q = skip_ws(s, p);
    if lit(s, q, 0x2c) {
        let q1 = skip_ws(s, q + 1);
        if ahead(s, p, q1) {
            match arg_item(s, q1) {
                Outcome::Done(a, e) => {
                    if ahead(s, p, e) {
                        match arg_tail(s, e) {
                            Outcome::Done(rest, e2) => Outcome::Done(seq![a] + rest, e2),
                            Outcome::NoMatch => Outcome::NoMatch,
                            Outcome::Overflow => Outcome::Overflow,
                        }
                    } else {
                        Outcome::Done(seq![], p)
                    }
                },
                Outcome::NoMatch => Outcome::Done(seq![], p),
                Outcome::Overflow => Outcome::Overflow,
            }
        } else {
            Outcome::Done(seq![], p)
        }
    } else {
        Outcome::Done(seq![], p)
    }
}

/// An argument: an expression with its span, and whitespace around it.
pub open spec fn arg_item(s: Seq<u8>, p: int) -> Outcome<SExprV, int>
    decreases s.len() - p, 6int,
{
    let q = skip_ws(s, p);
    if within(s, p, q) {
        match expr(s, q) {
            Outcome::Done(a, e) => Outcome::Done(SExprV { expr: a, span: mk_span(q, e) }, skip_ws(s, e)),
            Outcome::NoMatch => Outcome::NoMatch,
            Outcome::Overflow => Outcome::Overflow,
        }
    } else {
        Outcome::NoMatch
    }
}

/// Atom := Int | "@" VarName | "var" VarName ":" Type | "print" Expr
///       | Ref "<-" Expr | Ref | "(" Expr ")", tried in this order.
pub open spec fn atom(s: Seq<u8>, p: int) -> Outcome<ExprV, int>
    decreases s.len() - p, 1int,
{
    if let Some(e) = int_end(s, p) {
        let v = digits_value(s.subrange(p, e));
        if v > u64::MAX {
            Outcome::Overflow
        } else {
            Outcome::Done(ExprV::Int(v as u64), e)
        }
    } else if let Some((n, e)) = global_expr(s, p) {
        Outcome::Done(ExprV::Global(n), e)
    } else if let Some((x, e)) = var_expr(s, p) {
        Outcome::Done(x, e)
    } else {
        match print_expr(s, p) {
            Outcome::NoMatch => match assign_expr(s, p) {
                Outcome::NoMatch => if let Some((r, e)) = reference(s, p) {
                    Outcome::Done(ExprV::Deref(r), e)
                } else {
                    paren_expr(s, p)
                },
                other => other,
            },
            other => other,
        }
    }
}

/// "print" Expr; the span is that of the printed expression.
pub open spec fn print_expr(s: Seq<u8>, p: int) -> Outcome<ExprV, int>
    decreases s.len() - p, 0int,
{
    let q = skip_ws(s, p);
    if let Some(e1) = keyword(s, q, Keyword::Print) {
        let q1 = skip_ws(s, e1);
        if ahead(s, p, q1) {
            match expr(s, q1) {
                Outcome::Done(x, e) => Outcome::Done(ExprV::Print(Box::new(x), mk_span(q1, e)), e),
                Outcome::NoMatch => Outcome::NoMatch,
                Outcome::Overflow => Outcome::Overflow,
            }
        } else {
            Outcome::NoMatch
        }
    } else {
        Outcome::NoMatch
    }
}

/// Ref "<-" Expr; the span is that of the assigned expression.
pub open spec fn assign_expr(s: Seq<u8>, p: int) -> Outcome<ExprV, int>
    decreases s.len() - p, 0int,
{
    if let Some((r, e1)) = reference(s, p) {
        let q1 = skip_ws(s, e1);
        if lit2(s, q1, 0x3c, 0x2d) {
            let q2 = skip_ws(s, q1 + 2);
            if ahead(s, p, q2) {
                match expr(s, q2) {
                    Outcome::Done(x, e) => Outcome::Done(
                        ExprV::Assign(r, Box::new(x), mk_span(q2, e)),
                        e,
                    ),
                    Outcome::NoMatch => Outcome::NoMatch,
                    Outcome::Overflow => Outcome::Overflow,
                }
            } else {
                Outcome::NoMatch
            }
        } else {
            Outcome::NoMatch
        }
    } else {
        Outcome::NoMatch
    }
}

/// "(" Expr ")", giving the inner expression.
pub open spec fn paren_expr(s: Seq<u8>, p: int) -> Outcome<ExprV, int>
    decreases s.len() - p, 0int,
{
    let q = skip_ws(s, p);
    if lit(s, q, 0x28) {
        let q1 = skip_ws(s, q + 1);
        if ahead(s, p, q1) {
            match expr(s, q1) {
                Outcome::Done(x, e) => if lit(s, e, 0x29) {
                    Outcome::Done(x, e + 1)
                } else {
                    Outcome::NoMatch
                },
                Outcome::NoMatch => Outcome::NoMatch,
                Outcome::Overflow => Outcome::Overflow,
            }
        } else {
            Outcome::NoMatch
        }
    } else {
        Outcome::NoMatch
    }
}

// ---------------------------------------------------------------------------
// Definitions
/// Field := VarName ":" Type ";"
pub open spec fn field(s: Seq<u8>, p: int) -> Option<(BindingV, int)> {
    let q = skip_ws(s, p);
    if let Some((n, e1)) = name(s, q, Class::Lower) {
        let q1 = skip_ws(s, e1);
        if lit(s, q1, 0x3a) {
            if let Some((t, e2)) = ty(s, skip_ws(s, q1 + 1)) {
                let q3 = skip_ws(s, e2);
                if lit(s, q3, 0x3b) {
                    Some((BindingV { name: n, ty: t }, q3 + 1))
                } else {
                    None
                }
            } else {
                None
            }
        } else {
            None
        }
    } else {
        None
    }
}

/// Zero or more fields, each with whitespace around it.
pub open spec fn fields(s: Seq<u8>, p: int) -> (Seq<BindingV>, int)
    decreases s.len() - p,
{
    if let Some((f, e)) = field(s, skip_ws(s, p)) {
        let e1 = skip_ws(s, e);
        if ahead(s, p, e1) {
            let (fs, e2) = fields(s, e1);
            (seq![f] + fs, e2)
        } else {
            (seq![], p)
        }
    } else {
        (seq![], p)
    }
}

/// StructDef := "struct" TypeName "{" Field* "}"
pub open spec fn struct_def(s: Seq<u8>, p: int) -> Option<(DefV, int)> {
    let q = skip_ws(s, p);
    if let Some(e1) = keyword(s, q, Keyword::Struct) {
        if let Some((n, e2)) = name(s, skip_ws(s, e1), Class::Upper) {
            let q2 = skip_ws(s, e2);
            if lit(s, q2, 0x7b) {
                let (fs, e3) = fields(s, skip_ws(s, q2 + 1));
                if lit(s, e3, 0x7d) {
                    Some((DefV::Struct(n, fs), e3 + 1))
                } else {
                    None
                }
            } else {
                None
            }
        } else {
            None
        }
    } else {
        None
    }
}

/// Param := VarName ":" Type
pub open spec fn param(s: Seq<u8>, p: int) -> Option<(BindingV, int)> {
    let q = skip_ws(s, p);
    if let Some((n, e1)) = name(s, q, Class::Lower) {
        let q1 = skip_ws(s, e1);
        if lit(s, q1, 0x3a) {
            if let Some((t, e)) = ty(s, skip_ws(s, q1 + 1)) {
                Some((BindingV { name: n, ty: t }, e))
            } else {
                None
            }
        } else {
            None
        }
    } else {
        None
    }
}

/// A parameter with whitespace around it, as an item of a list.
pub open spec fn param_item(s: Seq<u8>, p: int) -> Option<(BindingV, int)> {
    if let Some((b, e)) = param(s, skip_ws(s, p)) {
        Some((b, skip_ws(s, e)))
    } else {
        None
    }
}

/// Zero or more parameters separated by commas.
pub open spec fn param_list(s: Seq<u8>, p: int) -> (Seq<BindingV>, int) {
    if let Some((b, e)) = param_item(s, p) {
        if ahead(s, p, e) {
            let (bs, e2) = param_tail(s, e);
            (seq![b] + bs, e2)
        } else {
            (seq![], p)
        }
    } else {
        (seq![], p)
    }
}

pub open spec fn param_tail(s: Seq<u8>, p: int) -> (Seq<BindingV>, int)
    decreases s.len() - p,
{
    let q = skip_ws(s, p);
    if lit(s, q, 0x2c) {
        if let Some((b, e)) = param_item(s, skip_ws(s, q + 1)) {
            if ahead(s, p, e) {
                let (bs, e2) = param_tail(s, e);
                (seq![b] + bs, e2)
            } else {
                (seq![], p)
            }
        } else {
            (seq![], p)
        }
    } else {
        (seq![], p)
    }
}

/// An expression of a body, with whitespace around it.
pub open spec fn body_item(s: Seq<u8>, p: int) -> Outcome<ExprV, int> {
    match expr(s, skip_ws(s, p)) {
        Outcome::Done(x, e) => Outcome::Done(x, skip_ws(s, e)),
        Outcome::NoMatch => Outcome::NoMatch,
        Outcome::Overflow => Outcome::Overflow,
    }
}

/// Zero or more expressions separated by semicolons.
pub open spec fn body_list(s: Seq<u8>, p: int) -> Outcome<Seq<ExprV>, int> {
    match body_item(s, p) {
        Outcome::Done(x, e) => {
            if ahead(s, p, e) {
                match body_tail(s, e) {
                    Outcome::Done(xs, e2) => Outcome::Done(seq![x] + xs, e2),
                    Outcome::NoMatch => Outcome::NoMatch,
                    Outcome::Overflow => Outcome::Overflow,
                }
            } else {
                Outcome::Done(seq![], p)
            }
        },
        Outcome::NoMatch => Outcome::Done(seq![], p),
        Outcome::Overflow => Outcome::Overflow,
    }
}

pub open spec fn body_tail(s: Seq<u8>, p: int) -> Outcome<Seq<ExprV>, int>
    decreases s.len() - p,
{
    let q = skip_ws(s, p);
    if lit(s, q, 0x3b) {
        match body_item(s, skip_ws(s, q + 1)) {
            Outcome::Done(x, e) => {
                if ahead(s, p, e) {
                    match body_tail(s, e) {
                        Outcome::Done(xs, e2) => Outcome::Done(seq![x] + xs, e2),
                        Outcome::NoMatch => Outcome::NoMatch,
                        Outcome::Overflow => Outcome::Overflow,
                    }
                } else {
                    Outcome::Done(seq![], p)
                }
            },
            Outcome::NoMatch => Outcome::Done(seq![], p),
            Outcome::Overflow => Outcome::Overflow,
        }
    } else {
        Outcome::Done(seq![], p)
    }
}

/// FunDef := "fun" VarName "(" (Param ("," Param)*)? ")" ":" Type FunBody
/// FunBody := ":=" Expr | "{" (Expr (";" Expr)*)? "}"
/// The span of the body starts where the body starts and ends after the
/// expression, or after "}".
pub open spec fn fun_def(s: Seq<u8>, p: int) -> Outcome<DefV, int> {
    let q = skip_ws(s, p);
    if let Some(e1) = keyword(s, q, Keyword::Fun) {
        if let Some((n, e2)) = name(s, skip_ws(s, e1), Class::Lower) {
            let q2 = skip_ws(s, e2);
            if lit(s, q2, 0x28) {
                let (ps, e3) = param_list(s, skip_ws(s, q2 + 1));
                if lit(s, e3, 0x29) {
                    let q5 = skip_ws(s, e3 + 1);
                    if lit(s, q5, 0x3a) {
                        if let Some((rt, e5)) = ty(s, skip_ws(s, q5 + 1)) {
                            fun_body(s, skip_ws(s, e5), n, ps, rt)
                        } else {
                            Outcome::NoMatch
                        }
                    } else {
                        Outcome::NoMatch
                    }
                } else {
                    Outcome::NoMatch
                }
            } else {
                Outcome::NoMatch
            }
        } else {
            Outcome::NoMatch
        }
    } else {
        Outcome::NoMatch
    }
}

pub open spec fn fun_body(s: Seq<u8>, p: int, n: NameV, ps: Seq<BindingV>, rt: TypeV) -> Outcome<
    DefV,
    int,
> {
    let short = if lit2(s, p, 0x3a, 0x3d) {
        expr(s, skip_ws(s, p + 2))
    } else {
        Outcome::NoMatch
    };
    match short {
        Outcome::Done(x, e) => Outcome::Done(DefV::Fun(n, ps, rt, seq![x], mk_span(p, e)), e),
        Outcome::Overflow => Outcome::Overflow,
        Outcome::NoMatch => {
            if lit(s, p, 0x7b) {
                match body_list(s, skip_ws(s, p + 1)) {
                    Outcome::Done(xs, e) => if lit(s, e, 0x7d) {
                        Outcome::Done(DefV::Fun(n, ps, rt, xs, mk_span(p, e + 1)), e + 1)
                    } else {
                        Outcome::NoMatch
                    },
                    Outcome::NoMatch => Outcome::NoMatch,
                    Outcome::Overflow => Outcome::Overflow,
                }
            } else {
                Outcome::NoMatch
            }
        },
    }
}

/// Def := StructDef | FunDef
pub open spec fn def(s: Seq<u8>, p: int) -> Outcome<DefV, int> {
    if let Some((d, e)) = struct_def(s, p) {
        Outcome::Done(d, e)
    } else {
        fun_def(s, p)
    }
}

/// Zero or more definitions, each with whitespace around it.
pub open spec fn defs(s: Seq<u8>, p: int) -> Outcome<Seq<DefV>, int>
    decreases s.len() - p,
{
    match def(s, skip_ws(s, p)) {
        Outcome::Done(d, e) => {
            let e1 = skip_ws(s, e);
            if ahead(s, p, e1) {
                match defs(s, e1) {
                    Outcome::Done(ds, e2) => Outcome::Done(seq![d] + ds, e2),
                    Outcome::NoMatch => Outcome::NoMatch,
                    Outcome::Overflow => Outcome::Overflow,
                }
            } else {
                Outcome::Done(seq![], p)
            }
        },
        Outcome::NoMatch => Outcome::Done(seq![], p),
        Outcome::Overflow => Outcome::Overflow,
    }
}

/// What parsing a whole source text gives.
pub enum ProgramV {
    /// The definitions, when they make up the whole text.
    Parsed(Seq<DefV>),
    /// The definitions end at this position, before the end of the text.
    Rejected(int),
    /// An integer literal exceeds `u64::MAX`.
    Overflow,
}

/// Program := Def*, covering the whole text.
pub open spec fn program_of(s: Seq<u8>) -> ProgramV {
    match defs(s, 0) {
        Outcome::Done(ds, e) => if e == s.len() {
            ProgramV::Parsed(ds)
        } else {
            ProgramV::Rejected(e)
        },
        Outcome::NoMatch => ProgramV::Rejected(0),
        Outcome::Overflow => ProgramV::Overflow,
    }
}

} // verus!
