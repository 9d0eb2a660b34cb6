//! The ways in which synchronising with a remote log can fail.

use vstd::prelude::*;
use vstd::std_specs::convert::FromSpecImpl;
use crate::db::DbError;
use crate::values::UuidError;

verus! {

/// Why a synchronisation failed.
#[derive(Debug, PartialEq, Eq)]
pub enum TolstoyError {
    BadRemoteResponse(String),
    BadRemoteState(String),
    /// A metadata key has more than one value, or none.
    DuplicateMetadata(String),
    TxProcessorUnfinished,
    /// A transaction has this many identifiers instead of one.
    TxIncorrectlyMapped(usize),
    UnexpectedState(String),
    /// The feature is recognised but there is no code for it yet.
    NotYetImplemented(String),
    DbError(DbError),
    /// A value could not be written or read as JSON; the message.
    SerializationError(String),
    /// The SQL engine failed; its message and that of the cause.
    RusqliteError(String, String),
    /// Reading or writing failed; the message.
    IoError(String),
    UuidError(UuidError),
    /// The network failed; the message.
    NetworkError(String),
    /// An address could not be read; the message.
    UriError(String),
}

impl TolstoyError {
    /// The error for a failure of the SQL engine, from its message and
    /// that of its cause, which is empty where no cause is known.
    pub fn rusqlite(description: String, cause: Option<String>) -> (r: TolstoyError)
        ensures
            r matches TolstoyError::RusqliteError(d, c) && d == description && c@ == (match cause {
                Some(text) => text@,
                None => Seq::<char>::empty(),
            }),
    {
        let cause = match cause {
            Some(text) => text,
            None => String::new(),
        };
        TolstoyError::RusqliteError(description, cause)
    }
}

impl From<DbError> for TolstoyError {
    fn from(error: DbError) -> (r: TolstoyError) {
        TolstoyError::DbError(error)
    }
}

impl FromSpecImpl<DbError> for TolstoyError {
    open spec fn obeys_from_spec() -> bool {
        true
    }

    open spec fn from_spec(error: DbError) -> TolstoyError {
        TolstoyError::DbError(error)
    }
}

impl From<UuidError> for TolstoyError {
    fn from(error: UuidError) -> (r: TolstoyError) {
        TolstoyError::UuidError(error)
    }
}

impl FromSpecImpl<UuidError> for TolstoyError {
    open spec fn obeys_from_spec() -> bool {
        true
    }

    open spec fn from_spec(error: UuidError) -> TolstoyError {
        TolstoyError::UuidError(error)
    }
}

} // verus!
