//! The ways in which pulling the attributes of an entity can fail.

use vstd::prelude::*;
use vstd::std_specs::convert::FromSpecImpl;
use crate::db::{DbError, Entid};

verus! {

/// Why a pull failed.
#[derive(Debug, PartialEq, Eq)]
pub enum PullErrorKind {
    /// An attribute that was asked for has no ident.
    UnnamedAttribute(Entid),
    /// `:db/id` was asked for twice.
    RepeatedDbId,
    /// The store failed.
    DbError(DbError),
}

/// An error of a pull.
#[derive(Debug, PartialEq, Eq)]
pub struct PullError {
    pub kind: PullErrorKind,
}

impl PullError {
    /// The kind of the error.
    pub fn kind(&self) -> (r: &PullErrorKind)
        ensures
            *r == self.kind,
    {
        &self.kind
    }
}

impl From<PullErrorKind> for PullError {
    fn from(error: PullErrorKind) -> (r: PullError) {
        PullError { kind: error }
    }
}

impl FromSpecImpl<PullErrorKind> for PullError {
    open spec fn obeys_from_spec() -> bool {
        true
    }

    open spec fn from_spec(error: PullErrorKind) -> PullError {
        PullError { kind: error }
    }
}

impl From<DbError> for PullErrorKind {
    fn from(error: DbError) -> (r: PullErrorKind) {
        PullErrorKind::DbError(error)
    }
}

impl FromSpecImpl<DbError> for PullErrorKind {
    open spec fn obeys_from_spec() -> bool {
        true
    }

    open spec fn from_spec(error: DbError) -> PullErrorKind {
        PullErrorKind::DbError(error)
    }
}

impl From<DbError> for PullError {
    fn from(error: DbError) -> (r: PullError) {
        PullError { kind: PullErrorKind::DbError(error) }
    }
}

impl FromSpecImpl<DbError> for PullError {
    open spec fn obeys_from_spec() -> bool {
        true
    }

    open spec fn from_spec(error: DbError) -> PullError {
        PullError { kind: PullErrorKind::DbError(error) }
    }
}

} // verus!
