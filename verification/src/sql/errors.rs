//! The ways in which assembling an SQL statement can fail.

use vstd::prelude::*;
use vstd::std_specs::convert::FromSpecImpl;
use vstd::string::StringExecFns;

verus! {

/// Why a bind parameter was refused.
#[derive(Debug, PartialEq, Eq)]
pub enum SQLErrorKind {
    /// The name holds a character that is neither alphanumeric nor an
    /// underscore.
    InvalidParameterName(String),
    /// The name could be one that the builder generates itself.
    BindParamCouldBeGenerated(String),
}

/// What an [`SQLErrorKind`] holds.
pub enum SQLErrorKindView {
    InvalidParameterName(Seq<char>),
    BindParamCouldBeGenerated(Seq<char>),
}

impl View for SQLErrorKind {
    type V = SQLErrorKindView;

    open spec fn view(&self) -> SQLErrorKindView {
        match self {
            SQLErrorKind::InvalidParameterName(name) => SQLErrorKindView::InvalidParameterName(
                name@,
            ),
            SQLErrorKind::BindParamCouldBeGenerated(name) =>
                SQLErrorKindView::BindParamCouldBeGenerated(name@),
        }
    }
}

impl SQLErrorKindView {
    /// The message of the error.
    pub open spec fn message(self) -> Seq<char> {
        match self {
            SQLErrorKindView::InvalidParameterName(name) => "invalid parameter name: "@ + name,
            SQLErrorKindView::BindParamCouldBeGenerated(name) =>
                "parameter name could be generated: '"@ + name + "'"@,
        }
    }
}

impl SQLErrorKind {
    /// The message of the error, which quotes the offending name.
    pub fn message(&self) -> (r: String)
        ensures
            r@ == self@.message(),
    {
        match self {
            SQLErrorKind::InvalidParameterName(name) => {
                let mut out = String::from_str("invalid parameter name: ");
                out.append(name.as_str());
                out
            },
            SQLErrorKind::BindParamCouldBeGenerated(name) => {
                let mut out = String::from_str("parameter name could be generated: '");
                out.append(name.as_str());
                out.append("'");
                out
            },
        }
    }
}

/// An error of the SQL builder.
#[derive(Debug, PartialEq, Eq)]
pub struct SQLError {
    kind: SQLErrorKind,
}

impl View for SQLError {
    type V = SQLErrorKindView;

    closed spec fn view(&self) -> SQLErrorKindView {
        self.kind@
    }
}

impl SQLError {
    /// The error of the given kind.
    pub fn new(kind: SQLErrorKind) -> (r: SQLError)
        ensures
            r@ == kind@,
    {
        SQLError { kind }
    }

    /// The kind of the error.
    pub fn kind(&self) -> (r: &SQLErrorKind)
        ensures
            r@ == self@,
    {
        &self.kind
    }

    /// The message of the error.
    pub fn message(&self) -> (r: String)
        ensures
            r@ == self@.message(),
    {
        self.kind.message()
    }
}

impl From<SQLErrorKind> for SQLError {
    fn from(kind: SQLErrorKind) -> (r: SQLError) {
        SQLError { kind }
    }
}

impl FromSpecImpl<SQLErrorKind> for SQLError {
    open spec fn obeys_from_spec() -> bool {
        true
    }

    closed spec fn from_spec(kind: SQLErrorKind) -> SQLError {
        SQLError { kind }
    }
}

/// What the builder's operations return.
pub type BuildQueryResult = Result<(), SQLError>;

} // verus!
