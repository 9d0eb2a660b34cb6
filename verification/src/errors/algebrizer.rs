//! The ways in which lowering a query into a plan can fail.

use vstd::prelude::*;

verus! {

/// Why a query could not be lowered into a plan.
#[derive(Debug, PartialEq, Eq)]
pub enum AlgebrizerError {
    /// A predicate refers to a variable that no pattern binds.
    UnboundVariable(String),
    /// The patterns ask two different types of one variable.
    ConflictingTypes(String),
    /// A reversed attribute stands where the value is not a reference.
    ReversedAttributeOnNonRef(String),
    /// The query calls a function that is not known.
    UnknownFunction(String),
}

} // verus!
