//! The mapping between local transactions and their identifiers in the
//! remote log.

use vstd::prelude::*;
use vstd::string::StringExecFns;
use crate::db::Entid;
use crate::errors::tolstoy::TolstoyError;
use crate::errors::{MentatError, MentatErrorKind};
use crate::sql::{values_view, SqlValue, SqlValueView, Statement};
use crate::tolstoy::LocalGlobalTxMapping;
use crate::values::Uuid;

verus! {

/// Maps local transactions to remote identifiers and back.
#[derive(Debug, Clone, Copy, PartialEq, Eq, Structural)]
pub struct TxMapper {}

/// Whether `e` says that a transaction has `found` mappings instead of
/// one.
pub open spec fn is_incorrectly_mapped(e: MentatError, found: int) -> bool {
    &&& e.kind matches MentatErrorKind::TolstoyError(TolstoyError::TxIncorrectlyMapped(n))
    &&& n == found
}

/// What a query for the one match of a key gives: nothing where no row
/// matched, an error where several did, and else what the row holds, which
/// is an error if the row could not be read.
pub open spec fn single_match<T>(rows: Seq<Result<T, MentatError>>, r: Result<
    Option<T>,
    MentatError,
>) -> bool {
    if rows.len() == 0 {
        r == Ok::<Option<T>, MentatError>(None)
    } else if rows.len() > 1 {
        r is Err && is_incorrectly_mapped(r->Err_0, rows.len() as int)
    } else {
        r == (match rows[0] {
            Ok(found) => Ok::<Option<T>, MentatError>(Some(found)),
            Err(e) => Err(e),
        })
    }
}

fn only_row<T>(rows: Vec<Result<T, MentatError>>) -> (r: Result<Option<T>, MentatError>)
    ensures
        single_match(rows@, r),
{
    let mut rows = rows;
    if rows.len() == 0 {
        return Ok(None);
    } else if rows.len() > 1 {
        return Err(
            MentatError {
                kind: MentatErrorKind::TolstoyError(TolstoyError::TxIncorrectlyMapped(rows.len())),
            },
        );
    }
    match rows.remove(0) {
        Ok(found) => Ok(Some(found)),
        Err(e) => Err(e),
    }
}

impl TxMapper {
    /// The text of the statement that stores a mapping, replacing the one
    /// that the transaction had.
    pub fn set_lg_mappings_sql() -> (r: String)
        ensures
            r@ == "INSERT OR REPLACE INTO tolstoy_tu (tx, uuid) VALUES (?, ?)"@,
    {
        String::from_str("INSERT OR REPLACE INTO tolstoy_tu (tx, uuid) VALUES (?, ?)")
    }

    /// The parameters with which the statement that stores a mapping is to
    /// be run, once for each mapping and in their order: the local
    /// transaction, then the bytes of the remote identifier.
    pub fn set_lg_mappings(mappings: &Vec<LocalGlobalTxMapping>) -> (r: Vec<Vec<SqlValue>>)
        ensures
            r@.len() == mappings@.len(),
            forall|i: int|
                0 <= i < mappings@.len() ==> values_view((#[trigger] r@[i])@) == seq![
                    SqlValueView::Integer(mappings@[i].local as int),
                    SqlValueView::Blob(mappings@[i].remote@),
                ],
    {
        let mut out: Vec<Vec<SqlValue>> = Vec::new();
        let mut i: usize = 0;
        while i < mappings.len()
            invariant
                i <= mappings.len(),
                out@.len() == i,
                forall|j: int|
                    0 <= j < i ==> values_view((#[trigger] out@[j])@) == seq![
                        SqlValueView::Integer(mappings@[j].local as int),
                        SqlValueView::Blob(mappings@[j].remote@),
                    ],
            decreases mappings.len() - i,
        {
            let mut params: Vec<SqlValue> = Vec::new();
            params.push(SqlValue::Integer(mappings[i].local));
            params.push(SqlValue::Blob(mappings[i].remote.to_vec()));
            assert(values_view(params@) =~= seq![
                SqlValueView::Integer(mappings@[i as int].local as int),
                SqlValueView::Blob(mappings@[i as int].remote@),
            ]);
            out.push(params);
            i += 1;
        }
        out
    }

    /// The parameters with which the statement that stores a mapping is to
    /// be run for one mapping.
    pub fn set_lg_mapping(mapping: LocalGlobalTxMapping) -> (r: Vec<Vec<SqlValue>>)
        ensures
            r@.len() == 1,
            values_view(r@[0]@) == seq![
                SqlValueView::Integer(mapping.local as int),
                SqlValueView::Blob(mapping.remote@),
            ],
    {
        let mut mappings: Vec<LocalGlobalTxMapping> = Vec::new();
        mappings.push(mapping);
        TxMapper::set_lg_mappings(&mappings)
    }

    /// The identifier to use for a transaction, and the statement to run
    /// if it is to be stored: the identifier that the transaction has, or
    /// else the fresh one, which is then stored.
    pub fn get_or_set_uuid_for_tx(tx: Entid, existing: Option<Uuid>, fresh: Uuid) -> (r: (
        Uuid,
        Option<Statement>,
    ))
        ensures
            match existing {
                Some(uuid) => r.0 == uuid && r.1 is None,
                None => {
                    &&& r.0 == fresh
                    &&& r.1 matches Some(insert)
                    &&& insert@.sql == "INSERT INTO tolstoy_tu (tx, uuid) VALUES (?, ?)"@
                    &&& insert@.params == seq![
                        SqlValueView::Integer(tx as int),
                        SqlValueView::Blob(fresh@),
                    ]
                },
            },
    {
        match existing {
            Some(uuid) => (uuid, None),
            None => {
                let mut params: Vec<SqlValue> = Vec::new();
                params.push(SqlValue::Integer(tx));
                params.push(SqlValue::Blob(fresh.to_vec()));
                let insert = Statement {
                    sql: String::from_str("INSERT INTO tolstoy_tu (tx, uuid) VALUES (?, ?)"),
                    params,
                };
                assert(insert@.params =~= seq![
                    SqlValueView::Integer(tx as int),
                    SqlValueView::Blob(fresh@),
                ]);
                (fresh, Some(insert))
            },
        }
    }

    /// The statement that reads the transaction of a remote identifier.
    pub fn get_tx_for_uuid_query(uuid: &Uuid) -> (r: Statement)
        ensures
            r@.sql == "SELECT tx FROM tolstoy_tu WHERE uuid = ?"@,
            r@.params == seq![SqlValueView::Blob(uuid@)],
    {
        let mut params: Vec<SqlValue> = Vec::new();
        params.push(SqlValue::Blob(uuid.to_vec()));
        let r = Statement { sql: String::from_str("SELECT tx FROM tolstoy_tu WHERE uuid = ?"), params };
        assert(r@.params =~= seq![SqlValueView::Blob(uuid@)]);
        r
    }

    /// The transaction of a remote identifier, from the rows that match
    /// it: none where there is no row, an error where there are several.
    pub fn get_tx_for_uuid(rows: Vec<Result<Entid, MentatError>>) -> (r: Result<
        Option<Entid>,
        MentatError,
    >)
        ensures
            single_match(rows@, r),
    {
        only_row(rows)
    }

    /// The statement that reads the remote identifier of a transaction.
    pub fn get_query(tx: Entid) -> (r: Statement)
        ensures
            r@.sql == "SELECT uuid FROM tolstoy_tu WHERE tx = ?"@,
            r@.params == seq![SqlValueView::Integer(tx as int)],
    {
        let mut params: Vec<SqlValue> = Vec::new();
        params.push(SqlValue::Integer(tx));
        let r = Statement { sql: String::from_str("SELECT uuid FROM tolstoy_tu WHERE tx = ?"), params };
        assert(r@.params =~= seq![SqlValueView::Integer(tx as int)]);
        r
    }

    /// The remote identifier of a transaction, from the rows that match
    /// it: none where there is no row, an error where there are several.
    pub fn get(rows: Vec<Result<Uuid, MentatError>>) -> (r: Result<Option<Uuid>, MentatError>)
        ensures
            single_match(rows@, r),
    {
        only_row(rows)
    }
}

} // verus!
