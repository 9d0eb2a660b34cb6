//! The metadata of a synchronised store: root and head of the local log,
//! and the head that the remote log had when it was last seen.

use vstd::prelude::*;
use vstd::string::StringExecFns;
use crate::db::{Entid, TIMELINE_MAIN};
use crate::errors::tolstoy::TolstoyError;
use crate::errors::{MentatError, MentatErrorKind};
use crate::partition::{map_well_formed, rows_view, PartitionMap, PartitionRow};
use crate::sql::{values_view, SqlValue, SqlValueView, Statement};
use crate::tolstoy::tx_mapper::TxMapper;
use crate::tolstoy::LocalGlobalTxMapping;
use crate::text::{decimal_int, push_decimal_i64};
use crate::values::Uuid;

verus! {

/// Whether a row of the table of transactions, a transaction and its
/// timeline, is a local transaction after `after`: it is of the main
/// timeline, and comes after `after` where that is given.
pub open spec fn is_local(row: (Entid, Entid), after: Option<Entid>) -> bool {
    row.1 == TIMELINE_MAIN && (after matches Some(a) ==> row.0 > a)
}

/// Whether a transaction is a local transaction after `after` among the
/// rows of the table of transactions.
pub open spec fn is_local_among(table: Seq<(Entid, Entid)>, after: Option<Entid>, t: Entid)
    -> bool {
    exists|w: int| 0 <= w < table.len() && (#[trigger] table[w]).0 == t && is_local(table[w], after)
}

/// The key under which the head of the remote log is stored.
pub const REMOTE_HEAD_KEY: &'static str = "remote_head";

/// The root and the head of the local log. The head is the latest
/// transaction in the store; it has no global identifier until it has been
/// synchronised.
#[derive(Debug, Clone, Copy, PartialEq, Eq, Structural)]
pub struct SyncMetadata {
    pub root: Entid,
    pub head: Entid,
}

/// The two tables that hold partitions: that of the store itself, and the
/// copy that was taken at the last synchronisation.
#[derive(Debug, Clone, Copy, PartialEq, Eq, Structural)]
pub enum PartitionsTable {
    Core,
    Tolstoy,
}

/// The values of the rows, where every row was read.
pub open spec fn row_values(rows: Seq<Result<Entid, MentatError>>) -> Seq<Entid> {
    Seq::new(rows.len(), |i: int| rows[i]->Ok_0)
}

/// Whether `e` is the error that says that the log has no root.
pub open spec fn is_missing_root(e: MentatError) -> bool {
    &&& e.kind matches MentatErrorKind::TolstoyError(TolstoyError::UnexpectedState(message))
    &&& message@ == "Could not get root tx"@
}

/// Whether `e` is the error that says that the head of the remote log is
/// not stored exactly once.
pub open spec fn is_duplicate_head(e: MentatError) -> bool {
    &&& e.kind matches MentatErrorKind::TolstoyError(TolstoyError::DuplicateMetadata(key))
    &&& key@ == REMOTE_HEAD_KEY@
}

/// The text of the query for the local transactions after `after`, or for
/// all of them.
pub open spec fn local_txs_text(after: Option<Entid>) -> Seq<char> {
    "SELECT tx FROM timelined_transactions "@ + (match after {
        Some(t) => "WHERE timeline = 0 AND tx > "@ + decimal_int(t as int),
        None => "WHERE timeline = 0"@,
    }) + " GROUP BY tx ORDER BY tx"@
}

impl SyncMetadata {
    pub fn new(root: Entid, head: Entid) -> (r: SyncMetadata)
        ensures
            r == (SyncMetadata { root, head }),
    {
        SyncMetadata { root, head }
    }

    /// The statement that reads the head of the remote log.
    pub fn remote_head_query() -> (r: Statement)
        ensures
            r@.sql == "SELECT value FROM tolstoy_metadata WHERE key = ?"@,
            r@.params == seq![SqlValueView::Text(REMOTE_HEAD_KEY@)],
    {
        let mut params: Vec<SqlValue> = Vec::new();
        params.push(SqlValue::Text(String::from_str(REMOTE_HEAD_KEY)));
        let r = Statement {
            sql: String::from_str("SELECT value FROM tolstoy_metadata WHERE key = ?"),
            params,
        };
        assert(r@.params =~= seq![SqlValueView::Text(REMOTE_HEAD_KEY@)]);
        r
    }

    /// The head of the remote log, from the bytes that are stored for it:
    /// sixteen bytes make the identifier, any other number is an error.
    pub fn remote_head(uuid_bytes: &[u8]) -> (r: Result<Uuid, MentatError>)
        ensures
            match r {
                Ok(uuid) => uuid_bytes@.len() == 16 && uuid@ == uuid_bytes@,
                Err(e) => {
                    &&& uuid_bytes@.len() != 16
                    &&& e.kind matches MentatErrorKind::UuidError(cause)
                    &&& cause.expected == 16
                    &&& cause.found == uuid_bytes@.len()
                },
            },
    {
        match Uuid::from_slice(uuid_bytes) {
            Ok(uuid) => Ok(uuid),
            Err(e) => Err(MentatError { kind: MentatErrorKind::UuidError(e) }),
        }
    }

    /// The statement that stores `uuid` as the head of the remote log.
    pub fn set_remote_head_statement(uuid: &Uuid) -> (r: Statement)
        ensures
            r@.sql == "UPDATE tolstoy_metadata SET value = ? WHERE key = ?"@,
            r@.params == seq![SqlValueView::Blob(uuid@), SqlValueView::Text(REMOTE_HEAD_KEY@)],
    {
        let mut params: Vec<SqlValue> = Vec::new();
        params.push(SqlValue::Blob(uuid.to_vec()));
        params.push(SqlValue::Text(String::from_str(REMOTE_HEAD_KEY)));
        let r = Statement {
            sql: String::from_str("UPDATE tolstoy_metadata SET value = ? WHERE key = ?"),
            params,
        };
        assert(r@.params =~= seq![
            SqlValueView::Blob(uuid@),
            SqlValueView::Text(REMOTE_HEAD_KEY@),
        ]);
        r
    }

    /// Whether the head of the remote log was stored: the update must have
    /// changed exactly one row.
    pub fn set_remote_head(updated: usize) -> (r: Result<(), MentatError>)
        ensures
            match r {
                Ok(_) => updated == 1,
                Err(e) => updated != 1 && is_duplicate_head(e),
            },
    {
        if updated != 1 {
            return Err(
                MentatError {
                    kind: MentatErrorKind::TolstoyError(
                        TolstoyError::DuplicateMetadata(String::from_str(REMOTE_HEAD_KEY)),
                    ),
                },
            );
        }
        Ok(())
    }

    /// What is to be run to store the head of the remote log together
    /// with the mapping that leads to it: first the statement that stores
    /// the remote identifier of the mapping as the head, then the
    /// statement that stores a mapping, with the parameters of this one.
    pub fn set_remote_head_and_map(mapping: LocalGlobalTxMapping) -> (r: (
        Statement,
        Vec<Vec<SqlValue>>,
    ))
        ensures
            r.0@.sql == "UPDATE tolstoy_metadata SET value = ? WHERE key = ?"@,
            r.0@.params == seq![
                SqlValueView::Blob(mapping.remote@),
                SqlValueView::Text(REMOTE_HEAD_KEY@),
            ],
            r.1@.len() == 1,
            values_view(r.1@[0]@) == seq![
                SqlValueView::Integer(mapping.local as int),
                SqlValueView::Blob(mapping.remote@),
            ],
    {
        let head = SyncMetadata::set_remote_head_statement(&mapping.remote);
        let rows = TxMapper::set_lg_mapping(mapping);
        (head, rows)
    }

    /// The query for partitions that were copied at the last
    /// synchronisation. The partitions of the store itself are read by the
    /// store.
    pub fn partitions_query(parts_table: PartitionsTable) -> (r: Option<String>)
        ensures
            match r {
                Some(sql) => parts_table == PartitionsTable::Tolstoy && sql@
                    == "SELECT part, start, end, idx, allow_excision FROM tolstoy_parts"@,
                None => parts_table == PartitionsTable::Core,
            },
    {
        match parts_table {
            PartitionsTable::Core => None,
            PartitionsTable::Tolstoy => Some(
                String::from_str("SELECT part, start, end, idx, allow_excision FROM tolstoy_parts"),
            ),
        }
    }

    /// The partitions that were copied at the last synchronisation, from
    /// the rows of their table. The rows must make a map that is in order;
    /// [`PartitionMap::from_rows`] tells whether they do.
    pub fn get_partitions(rows: &Vec<PartitionRow>) -> (r: PartitionMap)
        requires
            map_well_formed(rows_view(rows@)),
        ensures
            r.well_formed(),
            r@ == rows_view(rows@),
    {
        match PartitionMap::from_rows(rows) {
            Some(map) => map,
            None => {
                proof {
                    assert(false);
                }
                PartitionMap::new()
            },
        }
    }

    /// The query for the transactions of the main timeline, oldest first.
    pub fn root_and_head_tx_query() -> (r: String)
        ensures
            r@
                == "SELECT tx FROM timelined_transactions WHERE timeline = 0 GROUP BY tx ORDER BY tx"@,
    {
        String::from_str(
            "SELECT tx FROM timelined_transactions WHERE timeline = 0 GROUP BY tx ORDER BY tx",
        )
    }

    /// The root and the head of the log, from the rows of its transactions,
    /// oldest first. The first row is the root, the last one the head; a
    /// log of one transaction has it for both. Only those two rows are
    /// looked at: if one of them could not be read, its error is returned,
    /// that of the first row before that of the last. A log without
    /// transactions has no root, which is an error.
    pub fn root_and_head_tx(rows: Vec<Result<Entid, MentatError>>) -> (r: Result<
        (Entid, Entid),
        MentatError,
    >)
        ensures
            rows@.len() == 0 ==> r is Err && is_missing_root(r->Err_0),
            rows@.len() > 0 ==> r == (match (rows@.first(), rows@.last()) {
                (Err(e), _) => Err::<(Entid, Entid), MentatError>(e),
                (Ok(_), Err(e)) => Err(e),
                (Ok(root), Ok(head)) => Ok((root, head)),
            }),
    {
        let mut rows = rows;
        let last = rows.pop();
        match last {
            None => Err(
                MentatError {
                    kind: MentatErrorKind::TolstoyError(
                        TolstoyError::UnexpectedState(String::from_str("Could not get root tx")),
                    ),
                },
            ),
            Some(last) => {
                if rows.len() == 0 {
                    match last {
                        Ok(root) => Ok((root, root)),
                        Err(e) => Err(e),
                    }
                } else {
                    let first = rows.remove(0);
                    match first {
                        Err(e) => Err(e),
                        Ok(root) => match last {
                            Ok(head) => Ok((root, head)),
                            Err(e) => Err(e),
                        },
                    }
                }
            },
        }
    }

    /// The query for the local transactions after `after`, or for all of
    /// them, oldest first.
    pub fn local_txs_query(after: Option<Entid>) -> (r: String)
        ensures
            r@ == local_txs_text(after),
    {
        let mut sql = String::from_str("SELECT tx FROM timelined_transactions ");
        match after {
            Some(t) => {
                sql.append("WHERE timeline = 0 AND tx > ");
                push_decimal_i64(&mut sql, t);
            },
            None => {
                sql.append("WHERE timeline = 0");
            },
        }
        sql.append(" GROUP BY tx ORDER BY tx");
        proof {
            assert(sql@ =~= local_txs_text(after));
        }
        sql
    }

    /// The local transactions, from the rows that the query gave: all of
    /// them in order, or the error of the first row that could not be read.
    pub fn local_txs(rows: Vec<Result<Entid, MentatError>>) -> (r: Result<Vec<Entid>, MentatError>)
        ensures
            match r {
                Ok(all) => {
                    &&& forall|i: int| 0 <= i < rows@.len() ==> rows@[i] is Ok
                    &&& all@ == row_values(rows@)
                },
                Err(e) => exists|i: int|
                    {
                        &&& 0 <= i < rows@.len()
                        &&& rows@[i] == Err::<Entid, MentatError>(e)
                        &&& forall|j: int| 0 <= j < i ==> rows@[j] is Ok
                    },
            },
    {
        let mut all: Vec<Entid> = Vec::new();
        for row in it: rows
            invariant
                it.seq() == rows@,
                forall|j: int| 0 <= j < it.index() ==> rows@[j] is Ok,
                all@ == row_values(rows@.take(it.index() as int)),
        {
            match row {
                Ok(tx) => {
                    all.push(tx);
                    assert(all@ =~= row_values(rows@.take(it.index() + 1)));
                },
                Err(e) => {
                    return Err(e);
                },
            }
        }
        assert(rows@.take(rows@.len() as int) =~= rows@);
        Ok(all)
    }

    /// The local transactions among the rows of the table of
    /// transactions, each row a transaction and its timeline: what the
    /// query for the local transactions selects. They are the
    /// transactions of the main timeline that come after `after`, or all
    /// of that timeline; each once, in rising order.
    pub fn local_txs_among(table: &Vec<(Entid, Entid)>, after: Option<Entid>) -> (r: Vec<Entid>)
        ensures
            forall|i: int, j: int| 0 <= i < j < r@.len() ==> r@[i] < r@[j],
            forall|t: Entid| r@.contains(t) <==> is_local_among(table@, after, t),
    {
        let mut out: Vec<Entid> = Vec::new();
        let mut k: usize = 0;
        while k < table.len()
            invariant
                k <= table@.len(),
                forall|i: int, j: int| 0 <= i < j < out@.len() ==> out@[i] < out@[j],
                forall|t: Entid| out@.contains(t) <==> is_local_among(table@.take(k as int), after, t),
            decreases table@.len() - k,
        {
            let (tx, timeline) = table[k];
            let ghost before = out@;
            let ghost seen = table@.take(k as int);
            let ghost more = table@.take(k + 1);
            proof {
                assert(more.drop_last() =~= seen);
                assert(more.last() == table@[k as int]);
                assert forall|t: Entid| is_local_among(more, after, t) <==> is_local_among(
                    seen,
                    after,
                    t,
                ) || (t == tx && is_local((tx, timeline), after)) by {
                    if is_local_among(seen, after, t) {
                        let w = choose|w: int|
                            0 <= w < seen.len() && seen[w].0 == t && is_local(seen[w], after);
                        assert(more[w] == seen[w]);
                    }
                    if t == tx && is_local((tx, timeline), after) {
                        assert(more[k as int].0 == t);
                    }
                    if is_local_among(more, after, t) {
                        let w = choose|w: int|
                            0 <= w < more.len() && more[w].0 == t && is_local(more[w], after);
                        if w < k {
                            assert(seen[w] == more[w]);
                        }
                    }
                }
            }
            let wanted = timeline == TIMELINE_MAIN && match after {
                Some(a) => tx > a,
                None => true,
            };
            if wanted {
                let mut at: usize = 0;
                while at < out.len() && out[at] < tx
                    invariant
                        at <= out@.len(),
                        out@ == before,
                        forall|i: int| 0 <= i < at ==> out@[i] < tx,
                    decreases out@.len() - at,
                {
                    at += 1;
                }
                if at < out.len() && out[at] == tx {
                    proof {
                        assert(before.contains(tx));
                    }
                } else {
                    out.insert(at, tx);
                    proof {
                        let now = out@;
                        assert(now == before.insert(at as int, tx));
                        assert forall|i: int, j: int| 0 <= i < j < now.len() implies now[i]
                            < now[j] by {
                            if j < at {
                                assert(now[i] == before[i] && now[j] == before[j]);
                            } else if j == at {
                                assert(now[i] == before[i]);
                            } else if i < at {
                                assert(now[i] == before[i] && now[j] == before[j - 1]);
                            } else if i == at {
                                assert(now[j] == before[j - 1]);
                                assert(before[at as int] <= before[j - 1]);
                            } else {
                                assert(now[i] == before[i - 1] && now[j] == before[j - 1]);
                            }
                        }
                        assert forall|t: Entid| now.contains(t) <==> before.contains(t) || t
                            == tx by {
                            if before.contains(t) {
                                let w = choose|w: int| 0 <= w < before.len() && before[w] == t;
                                if w < at {
                                    assert(now[w] == t);
                                } else {
                                    assert(now[w + 1] == t);
                                }
                            }
                            if t == tx {
                                assert(now[at as int] == t);
                            }
                            if now.contains(t) {
                                let w = choose|w: int| 0 <= w < now.len() && now[w] == t;
                                if w < at {
                                    assert(before[w] == t);
                                } else if w > at {
                                    assert(before[w - 1] == t);
                                }
                            }
                        }
                    }
                }
            }
            k += 1;
        }
        proof {
            assert(table@.take(k as int) =~= table@);
        }
        out
    }

    /// The statement that counts the datoms of a transaction that are not
    /// about the transaction itself.
    pub fn is_tx_empty_query(tx_id: Entid) -> (r: Statement)
        ensures
            r@.sql
                == "SELECT count(rowid) FROM timelined_transactions WHERE timeline = 0 AND tx = ? AND e != ?"@,
            r@.params == seq![
                SqlValueView::Integer(tx_id as int),
                SqlValueView::Integer(tx_id as int),
            ],
    {
        let mut params: Vec<SqlValue> = Vec::new();
        params.push(SqlValue::Integer(tx_id));
        params.push(SqlValue::Integer(tx_id));
        let r = Statement {
            sql: String::from_str(
                "SELECT count(rowid) FROM timelined_transactions WHERE timeline = 0 AND tx = ? AND e != ?",
            ),
            params,
        };
        assert(r@.params =~= seq![
            SqlValueView::Integer(tx_id as int),
            SqlValueView::Integer(tx_id as int),
        ]);
        r
    }

    /// Whether a transaction is empty, from the number of its datoms that
    /// are not about the transaction itself.
    pub fn is_tx_empty(count: i64) -> (r: bool)
        ensures
            r == (count == 0),
    {
        count == 0
    }

    /// The statement that counts the datoms of a transaction that are
    /// about the entity `e`.
    pub fn has_entity_assertions_in_tx_query(e: Entid, tx_id: Entid) -> (r: Statement)
        ensures
            r@.sql
                == "SELECT count(rowid) FROM timelined_transactions WHERE timeline = 0 AND tx = ? AND e = ?"@,
            r@.params == seq![SqlValueView::Integer(tx_id as int), SqlValueView::Integer(e as int)],
    {
        let mut params: Vec<SqlValue> = Vec::new();
        params.push(SqlValue::Integer(tx_id));
        params.push(SqlValue::Integer(e));
        let r = Statement {
            sql: String::from_str(
                "SELECT count(rowid) FROM timelined_transactions WHERE timeline = 0 AND tx = ? AND e = ?",
            ),
            params,
        };
        assert(r@.params =~= seq![
            SqlValueView::Integer(tx_id as int),
            SqlValueView::Integer(e as int),
        ]);
        r
    }

    /// Whether a transaction says anything about an entity, from the
    /// number of its datoms that are about the entity.
    pub fn has_entity_assertions_in_tx(count: i64) -> (r: bool)
        ensures
            r == (count > 0),
    {
        count > 0
    }
}

} // verus!
