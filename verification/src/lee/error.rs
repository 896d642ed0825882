//! Errors of the filter language.

use vstd::prelude::*;

verus! {

/// A lexing or parsing failure, with the character position it was noticed
/// at and a human-readable message.
#[derive(Debug)]
pub struct ParseError {
    pub pos: usize,
    pub msg: String,
}

/// A compilation failure: the expression names a field that pilots do not
/// have.
#[derive(Debug)]
pub struct CompileError {
    pub msg: String,
}

} // verus!
