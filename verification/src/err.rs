//! The errors of compilation.

use crate::seq::Span;
use vstd::prelude::*;

verus! {

/// Why a source text cannot be compiled.
#[derive(Debug, PartialEq, Eq)]
pub enum CompileError {
    /// A character that the language has no use for, at the given place.
    /// The lexer refuses none, so nothing in the library gives this error.
    InvalidChar(Span),
}

} // verus!
