//! The errors of the store as a whole, and those of its parts.

pub mod algebrizer;
pub mod projector;
pub mod pull;
pub mod tolstoy;

use vstd::prelude::*;
use vstd::std_specs::convert::FromSpecImpl;
use crate::db::DbError;
use crate::edn::ParseError;
use crate::errors::algebrizer::AlgebrizerError;
use crate::errors::projector::ProjectorError;
use crate::errors::pull::PullError;
use crate::errors::tolstoy::TolstoyError;
use crate::schema::Attribute;
use crate::sql::errors::SQLError;
use crate::symbols::Keyword;
use crate::values::{UuidError, ValueType};

verus! {

/// Why an operation of the store failed.
#[derive(Debug, PartialEq, Eq)]
pub enum MentatErrorKind {
    BadUuid(String),
    PathAlreadyExists(String),
    /// Variables that are unbound when the query is run.
    UnboundVariables(Vec<String>),
    InvalidArgumentName(String),
    UnknownAttribute(String),
    InvalidVocabularyVersion,
    /// The vocabulary, its version and the attribute whose stored
    /// definition differs from the one asked for.
    ConflictingAttributeDefinitions(String, u32, String, Attribute, Attribute),
    /// The vocabulary, the version wanted and the version found.
    ExistingVocabularyTooNew(String, u32, u32),
    /// The version of the core schema wanted and the one found.
    UnexpectedCoreSchema(u32, Option<u32>),
    UnexpectedLostTransactRace,
    MissingCoreVocabulary(Keyword),
    PreparedQuerySchemaMismatch,
    /// The type of the value given and that of the attribute.
    ValueTypeMismatch(ValueType, ValueType),
    /// Reading or writing failed; the message.
    IoError(String),
    /// The feature is recognised but there is no code for it yet.
    NotYetImplemented(String),
    /// The SQL engine failed; its message and that of the cause.
    RusqliteError(String, String),
    EdnParseError(ParseError),
    DbError(DbError),
    AlgebrizerError(AlgebrizerError),
    ProjectorError(ProjectorError),
    PullError(PullError),
    SQLError(SQLError),
    UuidError(UuidError),
    TolstoyError(TolstoyError),
    /// The network failed; the message.
    NetworkError(String),
    /// An address could not be read; the message.
    UriError(String),
    /// A value could not be written or read as JSON; the message.
    SerializationError(String),
}

impl MentatErrorKind {
    /// The error for a failure of the SQL engine, from its message and
    /// that of its cause, which is empty where no cause is known.
    pub fn rusqlite(description: String, cause: Option<String>) -> (r: MentatErrorKind)
        ensures
            r matches MentatErrorKind::RusqliteError(d, c) && d == description && c@ == (
            match cause {
                Some(text) => text@,
                None => Seq::<char>::empty(),
            }),
    {
        let cause = match cause {
            Some(text) => text,
            None => String::new(),
        };
        MentatErrorKind::RusqliteError(description, cause)
    }
}

/// An error of the store.
#[derive(Debug, PartialEq, Eq)]
pub struct MentatError {
    pub kind: MentatErrorKind,
}

impl MentatError {
    /// The kind of the error.
    pub fn kind(&self) -> (r: &MentatErrorKind)
        ensures
            *r == self.kind,
    {
        &self.kind
    }
}

impl From<MentatErrorKind> for MentatError {
    fn from(error: MentatErrorKind) -> (r: MentatError) {
        MentatError { kind: error }
    }
}

impl FromSpecImpl<MentatErrorKind> for MentatError {
    open spec fn obeys_from_spec() -> bool {
        true
    }

    open spec fn from_spec(error: MentatErrorKind) -> MentatError {
        MentatError { kind: error }
    }
}

impl From<ParseError> for MentatErrorKind {
    fn from(error: ParseError) -> (r: MentatErrorKind) {
        MentatErrorKind::EdnParseError(error)
    }
}

impl FromSpecImpl<ParseError> for MentatErrorKind {
    open spec fn obeys_from_spec() -> bool {
        true
    }

    open spec fn from_spec(error: ParseError) -> MentatErrorKind {
        MentatErrorKind::EdnParseError(error)
    }
}

impl From<DbError> for MentatErrorKind {
    fn from(error: DbError) -> (r: MentatErrorKind) {
        MentatErrorKind::DbError(error)
    }
}

impl FromSpecImpl<DbError> for MentatErrorKind {
    open spec fn obeys_from_spec() -> bool {
        true
    }

    open spec fn from_spec(error: DbError) -> MentatErrorKind {
        MentatErrorKind::DbError(error)
    }
}

impl From<AlgebrizerError> for MentatErrorKind {
    fn from(error: AlgebrizerError) -> (r: MentatErrorKind) {
        MentatErrorKind::AlgebrizerError(error)
    }
}

impl FromSpecImpl<AlgebrizerError> for MentatErrorKind {
    open spec fn obeys_from_spec() -> bool {
        true
    }

    open spec fn from_spec(error: AlgebrizerError) -> MentatErrorKind {
        MentatErrorKind::AlgebrizerError(error)
    }
}

impl From<ProjectorError> for MentatErrorKind {
    fn from(error: ProjectorError) -> (r: MentatErrorKind) {
        MentatErrorKind::ProjectorError(error)
    }
}

impl FromSpecImpl<ProjectorError> for MentatErrorKind {
    open spec fn obeys_from_spec() -> bool {
        true
    }

    open spec fn from_spec(error: ProjectorError) -> MentatErrorKind {
        MentatErrorKind::ProjectorError(error)
    }
}

impl From<PullError> for MentatErrorKind {
    fn from(error: PullError) -> (r: MentatErrorKind) {
        MentatErrorKind::PullError(error)
    }
}

impl FromSpecImpl<PullError> for MentatErrorKind {
    open spec fn obeys_from_spec() -> bool {
        true
    }

    open spec fn from_spec(error: PullError) -> MentatErrorKind {
        MentatErrorKind::PullError(error)
    }
}

impl From<SQLError> for MentatErrorKind {
    fn from(error: SQLError) -> (r: MentatErrorKind) {
        MentatErrorKind::SQLError(error)
    }
}

impl FromSpecImpl<SQLError> for MentatErrorKind {
    open spec fn obeys_from_spec() -> bool {
        true
    }

    open spec fn from_spec(error: SQLError) -> MentatErrorKind {
        MentatErrorKind::SQLError(error)
    }
}

impl From<UuidError> for MentatErrorKind {
    fn from(error: UuidError) -> (r: MentatErrorKind) {
        MentatErrorKind::UuidError(error)
    }
}

impl FromSpecImpl<UuidError> for MentatErrorKind {
    open spec fn obeys_from_spec() -> bool {
        true
    }

    open spec fn from_spec(error: UuidError) -> MentatErrorKind {
        MentatErrorKind::UuidError(error)
    }
}

impl From<TolstoyError> for MentatErrorKind {
    fn from(error: TolstoyError) -> (r: MentatErrorKind) {
        MentatErrorKind::TolstoyError(error)
    }
}

impl FromSpecImpl<TolstoyError> for MentatErrorKind {
    open spec fn obeys_from_spec() -> bool {
        true
    }

    open spec fn from_spec(error: TolstoyError) -> MentatErrorKind {
        MentatErrorKind::TolstoyError(error)
    }
}

impl From<ParseError> for MentatError {
    fn from(error: ParseError) -> (r: MentatError) {
        MentatError { kind: MentatErrorKind::EdnParseError(error) }
    }
}

impl FromSpecImpl<ParseError> for MentatError {
    open spec fn obeys_from_spec() -> bool {
        true
    }

    open spec fn from_spec(error: ParseError) -> MentatError {
        MentatError { kind: MentatErrorKind::EdnParseError(error) }
    }
}

impl From<DbError> for MentatError {
    fn from(error: DbError) -> (r: MentatError) {
        MentatError { kind: MentatErrorKind::DbError(error) }
    }
}

impl FromSpecImpl<DbError> for MentatError {
    open spec fn obeys_from_spec() -> bool {
        true
    }

    open spec fn from_spec(error: DbError) -> MentatError {
        MentatError { kind: MentatErrorKind::DbError(error) }
    }
}

impl From<AlgebrizerError> for MentatError {
    fn from(error: AlgebrizerError) -> (r: MentatError) {
        MentatError { kind: MentatErrorKind::AlgebrizerError(error) }
    }
}

impl FromSpecImpl<AlgebrizerError> for MentatError {
    open spec fn obeys_from_spec() -> bool {
        true
    }

    open spec fn from_spec(error: AlgebrizerError) -> MentatError {
        MentatError { kind: MentatErrorKind::AlgebrizerError(error) }
    }
}

impl From<ProjectorError> for MentatError {
    fn from(error: ProjectorError) -> (r: MentatError) {
        MentatError { kind: MentatErrorKind::ProjectorError(error) }
    }
}

impl FromSpecImpl<ProjectorError> for MentatError {
    open spec fn obeys_from_spec() -> bool {
        true
    }

    open spec fn from_spec(error: ProjectorError) -> MentatError {
        MentatError { kind: MentatErrorKind::ProjectorError(error) }
    }
}

impl From<PullError> for MentatError {
    fn from(error: PullError) -> (r: MentatError) {
        MentatError { kind: MentatErrorKind::PullError(error) }
    }
}

impl FromSpecImpl<PullError> for MentatError {
    open spec fn obeys_from_spec() -> bool {
        true
    }

    open spec fn from_spec(error: PullError) -> MentatError {
        MentatError { kind: MentatErrorKind::PullError(error) }
    }
}

impl From<SQLError> for MentatError {
    fn from(error: SQLError) -> (r: MentatError) {
        MentatError { kind: MentatErrorKind::SQLError(error) }
    }
}

impl FromSpecImpl<SQLError> for MentatError {
    open spec fn obeys_from_spec() -> bool {
        true
    }

    open spec fn from_spec(error: SQLError) -> MentatError {
        MentatError { kind: MentatErrorKind::SQLError(error) }
    }
}

impl From<UuidError> for MentatError {
    fn from(error: UuidError) -> (r: MentatError) {
        MentatError { kind: MentatErrorKind::UuidError(error) }
    }
}

impl FromSpecImpl<UuidError> for MentatError {
    open spec fn obeys_from_spec() -> bool {
        true
    }

    open spec fn from_spec(error: UuidError) -> MentatError {
        MentatError { kind: MentatErrorKind::UuidError(error) }
    }
}

impl From<TolstoyError> for MentatError {
    fn from(error: TolstoyError) -> (r: MentatError) {
        MentatError { kind: MentatErrorKind::TolstoyError(error) }
    }
}

impl FromSpecImpl<TolstoyError> for MentatError {
    open spec fn obeys_from_spec() -> bool {
        true
    }

    open spec fn from_spec(error: TolstoyError) -> MentatError {
        MentatError { kind: MentatErrorKind::TolstoyError(error) }
    }
}

/// What the operations of the store return.
pub type Result<T> = std::result::Result<T, MentatError>;

} // verus!
