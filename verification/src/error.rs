//! Errors reported to the user, located in the source text.
use vstd::prelude::*;
use crate::ast::Span;

verus! {

/// A message about the source text at `span`.
#[derive(Debug)]
pub struct Error {
    pub span: Span,
    pub message: String,
}

} // verus!
