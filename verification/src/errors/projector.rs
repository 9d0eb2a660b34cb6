//! The ways in which projecting the rows of a query can fail.

use vstd::prelude::*;
use vstd::std_specs::convert::FromSpecImpl;
use crate::db::DbError;
use crate::errors::pull::PullError;
use crate::values::ValueType;

verus! {

/// The aggregates over one column.
#[derive(Debug, Clone, Copy, PartialEq, Eq, Structural)]
pub enum SimpleAggregationOp {
    Avg,
    Count,
    Max,
    Min,
    Sum,
}

/// Why a projection failed.
#[derive(Debug, PartialEq, Eq)]
pub enum ProjectorErrorKind {
    /// The feature is recognised but there is no code for it yet.
    NotYetImplemented(String),
    /// The argument of the aggregate can have no type at all.
    CannotProjectImpossibleBinding(SimpleAggregationOp),
    /// The aggregate cannot be applied to values of these types.
    CannotApplyAggregateOperationToTypes(SimpleAggregationOp, Vec<ValueType>),
    InvalidProjection(String),
    /// A variable of the find spec is not bound.
    UnboundVariable(String),
    NoTypeAvailableForVariable(String),
    /// The results have another shape than the caller asked for: what
    /// was expected, and what was got.
    UnexpectedResultsType(String, String),
    /// The tuple has another length than the caller asked for.
    UnexpectedResultsTupleLength(usize, usize),
    /// The numbers of min/max expressions and of corresponding
    /// variables.
    AmbiguousAggregates(usize, usize),
    /// The SQL engine failed; its message.
    RusqliteError(String),
    DbError(DbError),
    PullError(PullError),
}

/// An error of a projection.
#[derive(Debug, PartialEq, Eq)]
pub struct ProjectorError {
    pub kind: ProjectorErrorKind,
}

impl ProjectorError {
    /// The kind of the error.
    pub fn kind(&self) -> (r: &ProjectorErrorKind)
        ensures
            *r == self.kind,
    {
        &self.kind
    }
}

impl From<ProjectorErrorKind> for ProjectorError {
    fn from(error: ProjectorErrorKind) -> (r: ProjectorError) {
        ProjectorError { kind: error }
    }
}

impl FromSpecImpl<ProjectorErrorKind> for ProjectorError {
    open spec fn obeys_from_spec() -> bool {
        true
    }

    open spec fn from_spec(error: ProjectorErrorKind) -> ProjectorError {
        ProjectorError { kind: error }
    }
}

impl From<DbError> for ProjectorErrorKind {
    fn from(error: DbError) -> (r: ProjectorErrorKind) {
        ProjectorErrorKind::DbError(error)
    }
}

impl FromSpecImpl<DbError> for ProjectorErrorKind {
    open spec fn obeys_from_spec() -> bool {
        true
    }

    open spec fn from_spec(error: DbError) -> ProjectorErrorKind {
        ProjectorErrorKind::DbError(error)
    }
}

impl From<PullError> for ProjectorErrorKind {
    fn from(error: PullError) -> (r: ProjectorErrorKind) {
        ProjectorErrorKind::PullError(error)
    }
}

impl FromSpecImpl<PullError> for ProjectorErrorKind {
    open spec fn obeys_from_spec() -> bool {
        true
    }

    open spec fn from_spec(error: PullError) -> ProjectorErrorKind {
        ProjectorErrorKind::PullError(error)
    }
}

impl From<DbError> for ProjectorError {
    fn from(error: DbError) -> (r: ProjectorError) {
        ProjectorError { kind: ProjectorErrorKind::DbError(error) }
    }
}

impl FromSpecImpl<DbError> for ProjectorError {
    open spec fn obeys_from_spec() -> bool {
        true
    }

    open spec fn from_spec(error: DbError) -> ProjectorError {
        ProjectorError { kind: ProjectorErrorKind::DbError(error) }
    }
}

impl From<PullError> for ProjectorError {
    fn from(error: PullError) -> (r: ProjectorError) {
        ProjectorError { kind: ProjectorErrorKind::PullError(error) }
    }
}

impl FromSpecImpl<PullError> for ProjectorError {
    open spec fn obeys_from_spec() -> bool {
        true
    }

    open spec fn from_spec(error: PullError) -> ProjectorError {
        ProjectorError { kind: ProjectorErrorKind::PullError(error) }
    }
}

} // verus!
