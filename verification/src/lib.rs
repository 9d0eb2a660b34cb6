//! An embedded, schema-aware triple store: the value model, the reader of
//! its notation, the schema and the partitions, the assembly of SQL, the
//! transactor with its observers and caches, and the answers to queries.

pub mod conn;
pub mod db;
pub mod edn;
pub mod errors;
pub mod partition;
pub mod query;
pub mod schema;
pub mod sql;
pub mod symbols;
pub mod text;
pub mod tolstoy;
pub mod transactor;
pub mod values;

pub use crate::conn::Conn;
pub use crate::db::{
    repeat_values, to_namespaced_keyword, Entid, CORE_SCHEMA_VERSION, DB_SCHEMA_CORE,
};
pub use crate::edn::clauses::FindSpec;
pub use crate::edn::query::Variable;
pub use crate::edn::ParseError;
pub use crate::errors::algebrizer::AlgebrizerError;
pub use crate::errors::projector::ProjectorError;
pub use crate::errors::pull::PullError;
pub use crate::errors::{MentatError, Result};
pub use crate::query::answers::QueryOutput;
pub use crate::schema::{Attribute, Schema};
pub use crate::sql::errors::SQLError;
pub use crate::symbols::{Keyword, PlainSymbol};
pub use crate::transactor::store::{Store, TxReport};
pub use crate::values::{TypedValue, Uuid, ValueType};
