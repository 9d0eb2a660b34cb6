//! The symbolic reader: values, entity forms and query forms in EDN
//! notation.

pub mod clauses;
pub mod entities;
pub mod float_text;
pub mod grammar;
pub mod lexical;
pub mod parse;
pub mod print;
pub mod query;
pub mod query_grammar;
pub mod query_parse;
pub mod round_trip;
pub mod source;
pub mod tx_grammar;
pub mod tx_parse;
pub mod types;

use vstd::prelude::*;

verus! {

/// A place in a text: line and column count from one, the offset counts
/// bytes from zero.
#[derive(Debug, Clone, Copy, PartialEq, Eq, Structural)]
pub struct LineCol {
    pub line: usize,
    pub column: usize,
    pub offset: usize,
}

/// Why a text could not be read: the place where reading stopped.
#[derive(Debug, Clone, Copy, PartialEq, Eq, Structural)]
pub struct ParseError {
    pub location: LineCol,
}

} // verus!
