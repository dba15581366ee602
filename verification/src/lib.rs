//! A small compiled language: a parser from source text to a syntax tree, and
//! a type-checking compiler from the tree to a low-level code plan.
pub mod ast;
pub mod grammar;
pub mod source;
pub mod lexer;
pub mod error;
pub mod parse;
pub mod types;

pub mod ir;
pub mod semantics;
pub mod compile;
pub mod laws;
pub mod lower;
pub mod llvm;
pub mod codegen;
pub mod typing;
pub mod type_syntax;
pub mod spans;
