//! Syntax tree of the language, with its mathematical model.
//!
//! Every node that the source text names carries its span: a range of byte
//! offsets into the source. Names borrow their text from the source.
use vstd::prelude::*;

verus! {

/// A range of byte offsets into the source text.
#[derive(Clone, Copy, Debug, PartialEq, Eq)]
pub struct Span {
    pub start: usize,
    pub end: usize,
}

/// A value together with the span of source text it was parsed from.
#[derive(Debug)]
pub struct Spanned<T> {
    pub inner: T,
    pub span: Span,
}

/// An identifier, borrowed from the source text.
pub type Name<'src> = Spanned<&'src str>;

/// A type as written: `Int`, `Unit`, the name of a struct, or
/// `fun(P1, P2): R`.
#[derive(Debug)]
pub enum Type<'src> {
    Int,
    Unit,
    Named(Name<'src>),
    Fun(Vec<Type<'src>>, Box<Type<'src>>),
}

/// A reference to a place: a local variable, or a field of a place.
#[derive(Debug)]
pub enum Ref<'src> {
    Var(Name<'src>),
    Access(Spanned<Box<Ref<'src>>>, Name<'src>),
}

/// An expression. The spanned parts keep where they were written, for
/// error messages.
#[derive(Debug)]
pub enum Expr<'src> {
    Int(u64),
    Global(Name<'src>),
    Var(Name<'src>, Type<'src>),
    Print(Spanned<Box<Expr<'src>>>),
    Assign(Ref<'src>, Spanned<Box<Expr<'src>>>),
    Deref(Ref<'src>),
    Call(Spanned<Box<Expr<'src>>>, Spanned<Vec<Spanned<Expr<'src>>>>),
    Add(Spanned<Box<Expr<'src>>>, Spanned<Box<Expr<'src>>>),
}

/// A field of a struct definition.
#[derive(Debug)]
pub struct Field<'src> {
    pub name: Name<'src>,
    pub ty: Type<'src>,
}

/// A parameter of a function definition.
#[derive(Debug)]
pub struct Param<'src> {
    pub name: Name<'src>,
    pub ty: Type<'src>,
}

/// A definition: a struct with its fields, or a function with its
/// parameters, return type and body (its expressions, with their span).
#[derive(Debug)]
pub enum Def<'src> {
    Struct(Name<'src>, Vec<Field<'src>>),
    Fun(Name<'src>, Vec<Param<'src>>, Type<'src>, Spanned<Vec<Expr<'src>>>),
}

// ---------------------------------------------------------------------------
// The mathematical model of the tree.
/// A name: its characters and its span.
pub struct NameV {
    pub text: Seq<char>,
    pub span: Span,
}

/// The model of a `Type`.
pub enum TypeV {
    Int,
    Unit,
    Named(NameV),
    Fun(Seq<TypeV>, Box<TypeV>),
}

/// The model of a `Ref`.
pub enum RefV {
    Var(NameV),
    /// The accessed reference, its span, and the field name.
    Access(Box<RefV>, Span, NameV),
}

/// An expression together with its span.
pub struct SExprV {
    pub expr: ExprV,
    pub span: Span,
}

/// The model of an `Expr`.
pub enum ExprV {
    Int(u64),
    Global(NameV),
    Var(NameV, TypeV),
    /// The printed expression and its span.
    Print(Box<ExprV>, Span),
    /// The target, the assigned expression and its span.
    Assign(RefV, Box<ExprV>, Span),
    Deref(RefV),
    /// The callee and its span, the arguments and the span of the argument list.
    Call(Box<ExprV>, Span, Seq<SExprV>, Span),
    /// The two operands, each with its span.
    Add(Box<ExprV>, Span, Box<ExprV>, Span),
}

/// A field of a struct, or a parameter of a function.
pub struct BindingV {
    pub name: NameV,
    pub ty: TypeV,
}

/// The model of a `Def`.
pub enum DefV {
    Struct(NameV, Seq<BindingV>),
    /// Name, parameters, return type, body and the span of the body.
    Fun(NameV, Seq<BindingV>, TypeV, Seq<ExprV>, Span),
}

/// The model of a name: its characters and its span.
pub open spec fn name_v(n: Name) -> NameV {
    NameV { text: n.inner@, span: n.span }
}

/// The model of a type.
pub open spec fn type_v(t: Type) -> TypeV
    decreases t,
{
    match t {
        Type::Int => TypeV::Int,
        Type::Unit => TypeV::Unit,
        Type::Named(n) => TypeV::Named(name_v(n)),
        Type::Fun(ps, r) => TypeV::Fun(types_v(ps@), Box::new(type_v(*r))),
    }
}

pub open spec fn types_v(ts: Seq<Type>) -> Seq<TypeV>
    decreases ts,
{
    Seq::new(ts.len(), |i: int| if 0 <= i < ts.len() { type_v(ts[i]) } else { TypeV::Int })
}

/// The model of a reference.
pub open spec fn ref_v(r: Ref) -> RefV
    decreases r,
{
    match r {
        Ref::Var(n) => RefV::Var(name_v(n)),
        Ref::Access(b, n) => RefV::Access(Box::new(ref_v(*b.inner)), b.span, name_v(n)),
    }
}

/// The model of an expression.
pub open spec fn expr_v(e: Expr) -> ExprV
    decreases e,
{
    match e {
        Expr::Int(v) => ExprV::Int(v),
        Expr::Global(n) => ExprV::Global(name_v(n)),
        Expr::Var(n, t) => ExprV::Var(name_v(n), type_v(t)),
        Expr::Print(x) => ExprV::Print(Box::new(expr_v(*x.inner)), x.span),
        Expr::Assign(r, x) => ExprV::Assign(ref_v(r), Box::new(expr_v(*x.inner)), x.span),
        Expr::Deref(r) => ExprV::Deref(ref_v(r)),
        Expr::Call(c, args) => ExprV::Call(
            Box::new(expr_v(*c.inner)),
            c.span,
            sexprs_v(args.inner@),
            args.span,
        ),
        Expr::Add(l, r) => ExprV::Add(
            Box::new(expr_v(*l.inner)),
            l.span,
            Box::new(expr_v(*r.inner)),
            r.span,
        ),
    }
}

pub open spec fn sexprs_v(es: Seq<Spanned<Expr>>) -> Seq<SExprV>
    decreases es,
{
    Seq::new(
        es.len(),
        |i: int|
            if 0 <= i < es.len() {
                SExprV { expr: expr_v(es[i].inner), span: es[i].span }
            } else {
                SExprV { expr: ExprV::Int(0), span: Span { start: 0, end: 0 } }
            },
    )
}

pub open spec fn exprs_v(es: Seq<Expr>) -> Seq<ExprV>
    decreases es,
{
    Seq::new(es.len(), |i: int| if 0 <= i < es.len() { expr_v(es[i]) } else { ExprV::Int(0) })
}

pub open spec fn fields_v(fs: Seq<Field>) -> Seq<BindingV> {
    Seq::new(fs.len(), |i: int| BindingV { name: name_v(fs[i].name), ty: type_v(fs[i].ty) })
}

pub open spec fn params_v(ps: Seq<Param>) -> Seq<BindingV> {
    Seq::new(ps.len(), |i: int| BindingV { name: name_v(ps[i].name), ty: type_v(ps[i].ty) })
}

/// The model of a definition.
pub open spec fn def_v(d: Def) -> DefV {
    match d {
        Def::Struct(n, fs) => DefV::Struct(name_v(n), fields_v(fs@)),
        Def::Fun(n, ps, t, body) => DefV::Fun(
            name_v(n),
            params_v(ps@),
            type_v(t),
            exprs_v(body.inner@),
            body.span,
        ),
    }
}

/// The model of a list of definitions.
pub open spec fn defs_v(ds: Seq<Def>) -> Seq<DefV> {
    Seq::new(ds.len(), |i: int| def_v(ds[i]))
}

} // verus!
