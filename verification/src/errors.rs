//! Error types.
use vstd::prelude::*;

verus! {

/// The result of a parse operation.
pub type ParseResult<T> = Result<T, ParseError>;

/// The single way in which parsing fails: at some point of the input no rule
/// of the grammar applies.
#[derive(Debug, Clone, Copy, PartialEq, Eq)]
pub enum ParseError {
    /// The parser encountered an unexpected token.
    UnexpectedToken,
}

} // verus!
