use mentat::errors::tolstoy::TolstoyError;
use mentat::errors::{MentatError, MentatErrorKind};
use mentat::partition::{Partition, PartitionMap, PartitionRow};
use mentat::sql::SqlValue;
use mentat::tolstoy::metadata::REMOTE_HEAD_KEY;
use mentat::tolstoy::{LocalGlobalTxMapping, PartitionsTable, RemoteClient, SyncMetadata, TxMapper};
use mentat::values::{Uuid, UuidError};

/// The rows of the table that maps transactions to identifiers, as the
/// statements of the mapper change and read them.
struct Table {
    rows: Vec<(i64, Vec<u8>)>,
}

impl Table {
    fn new() -> Table {
        Table { rows: vec![] }
    }

    fn insert_or_replace(&mut self, params: &[SqlValue]) {
        match (&params[0], &params[1]) {
            (SqlValue::Integer(tx), SqlValue::Blob(uuid)) => {
                self.rows.retain(|(t, _)| t != tx);
                self.rows.push((*tx, uuid.clone()));
            }
            other => panic!("unexpected parameters {:?}", other),
        }
    }

    fn uuids_of(&self, params: &[SqlValue]) -> Vec<Result<Uuid, MentatError>> {
        match &params[0] {
            SqlValue::Integer(tx) => self
                .rows
                .iter()
                .filter(|(t, _)| t == tx)
                .map(|(_, u)| Ok(Uuid::from_slice(u).unwrap()))
                .collect(),
            other => panic!("unexpected parameter {:?}", other),
        }
    }
}

fn new_uuid() -> Uuid {
    Uuid::from_bytes(*uuid::Uuid::new_v4().as_bytes())
}

fn get(table: &Table, tx: i64) -> Result<Option<Uuid>, MentatError> {
    let query = TxMapper::get_query(tx);
    assert_eq!(query.sql, "SELECT uuid FROM tolstoy_tu WHERE tx = ?");
    TxMapper::get(table.uuids_of(&query.params))
}

#[test]
fn test_get_remote_head_default() {
    let stored = vec![0u8; 16];
    assert_eq!(
        Uuid::nil(),
        SyncMetadata::remote_head(&stored).expect("fetch succeeded")
    );
}

#[test]
fn test_set_and_get_remote_head() {
    let uuid = new_uuid();
    let update = SyncMetadata::set_remote_head_statement(&uuid);
    assert_eq!(
        update.sql,
        "UPDATE tolstoy_metadata SET value = ? WHERE key = ?"
    );
    assert_eq!(
        update.params,
        vec![
            SqlValue::Blob(uuid.as_bytes().to_vec()),
            SqlValue::Text("remote_head".to_string())
        ]
    );
    SyncMetadata::set_remote_head(1).expect("update succeeded");
    let stored = match &update.params[0] {
        SqlValue::Blob(bytes) => bytes.clone(),
        other => panic!("unexpected parameter {:?}", other),
    };
    assert_eq!(
        uuid,
        SyncMetadata::remote_head(&stored).expect("fetch succeeded")
    );
}

#[test]
fn remote_head_must_be_stored_once_and_whole() {
    for updated in [0usize, 2, 17] {
        let e = SyncMetadata::set_remote_head(updated).unwrap_err();
        assert_eq!(
            e.kind(),
            &MentatErrorKind::TolstoyError(TolstoyError::DuplicateMetadata(
                REMOTE_HEAD_KEY.to_string()
            ))
        );
    }
    let e = SyncMetadata::remote_head(&[1, 2, 3]).unwrap_err();
    assert_eq!(
        e.kind(),
        &MentatErrorKind::UuidError(UuidError {
            expected: 16,
            found: 3
        })
    );
    let query = SyncMetadata::remote_head_query();
    assert_eq!(query.sql, "SELECT value FROM tolstoy_metadata WHERE key = ?");
    assert_eq!(query.params, vec![SqlValue::Text("remote_head".to_string())]);
}

#[test]
fn test_root_and_head_tx() {
    assert_eq!(
        SyncMetadata::root_and_head_tx_query(),
        "SELECT tx FROM timelined_transactions WHERE timeline = 0 GROUP BY tx ORDER BY tx"
    );
    // The table of transactions of a store as it is first opened: a row
    // for each datom of the first transaction, on the main timeline.
    let opened = mentat::Store::open(1529971773701000).0;
    let mut table: Vec<(i64, i64)> = opened.datoms().iter().map(|d| (d.tx, 0)).collect();
    let selected = |table: &Vec<(i64, i64)>| -> Vec<Result<i64, MentatError>> {
        SyncMetadata::local_txs_among(table, None)
            .into_iter()
            .map(Ok)
            .collect()
    };
    let (root_tx, last_tx) = SyncMetadata::root_and_head_tx(selected(&table)).expect("last tx");
    assert_eq!(268435456, root_tx);
    assert_eq!(268435456, last_tx);

    // A transaction 268435457 at time 1529971773701734, which defines the
    // entity `:person/name`, which has the type of strings, is unique, and
    // is indexed: five rows, each of the main timeline.
    let inserted: [(i64, i64, &str); 5] = [
        (268435457, 3, "1529971773701734"),
        (65536, 1, ":person/name"),
        (65536, 7, "27"),
        (65536, 9, "36"),
        (65536, 11, "1"),
    ];
    for (_e, _a, _v) in inserted.iter() {
        table.push((268435457, 0));
    }
    assert_eq!(table.len(), opened.datoms().len() + 5);

    let (root_tx, last_tx) = SyncMetadata::root_and_head_tx(selected(&table)).expect("last tx");
    assert_eq!(268435456, root_tx);
    assert_eq!(268435457, last_tx);
}

fn failure(text: &str) -> MentatError {
    MentatError::from(MentatErrorKind::rusqlite(text.to_string(), None))
}

#[test]
fn root_and_head_look_at_the_first_and_last_row() {
    let e = SyncMetadata::root_and_head_tx(vec![]).unwrap_err();
    assert_eq!(
        e.kind(),
        &MentatErrorKind::TolstoyError(TolstoyError::UnexpectedState(
            "Could not get root tx".to_string()
        ))
    );
    assert_eq!(
        SyncMetadata::root_and_head_tx(vec![Ok(1), Err(failure("middle")), Ok(3)]),
        Ok((1, 3))
    );
    assert_eq!(
        SyncMetadata::root_and_head_tx(vec![Err(failure("first")), Ok(2), Err(failure("last"))]),
        Err(failure("first"))
    );
    assert_eq!(
        SyncMetadata::root_and_head_tx(vec![Ok(1), Ok(2), Err(failure("last"))]),
        Err(failure("last"))
    );
    assert_eq!(
        SyncMetadata::root_and_head_tx(vec![Err(failure("only"))]),
        Err(failure("only"))
    );
}

#[test]
fn local_transactions() {
    assert_eq!(
        SyncMetadata::local_txs_query(None),
        "SELECT tx FROM timelined_transactions WHERE timeline = 0 GROUP BY tx ORDER BY tx"
    );
    assert_eq!(
        SyncMetadata::local_txs_query(Some(268435457)),
        "SELECT tx FROM timelined_transactions WHERE timeline = 0 AND tx > 268435457 GROUP BY tx ORDER BY tx"
    );
    assert_eq!(
        SyncMetadata::local_txs_query(Some(-5)),
        "SELECT tx FROM timelined_transactions WHERE timeline = 0 AND tx > -5 GROUP BY tx ORDER BY tx"
    );
    assert_eq!(
        SyncMetadata::local_txs(vec![Ok(3), Ok(4), Ok(9)]),
        Ok(vec![3, 4, 9])
    );
    assert_eq!(SyncMetadata::local_txs(vec![]), Ok(vec![]));
    assert_eq!(
        SyncMetadata::local_txs(vec![Ok(3), Err(failure("a")), Ok(9), Err(failure("b"))]),
        Err(failure("a"))
    );
}

#[test]
fn counts_decide_emptiness() {
    assert!(SyncMetadata::is_tx_empty(0));
    assert!(!SyncMetadata::is_tx_empty(1));
    assert!(SyncMetadata::has_entity_assertions_in_tx(1));
    assert!(!SyncMetadata::has_entity_assertions_in_tx(0));
    let q = SyncMetadata::is_tx_empty_query(7);
    assert_eq!(q.sql, "SELECT count(rowid) FROM timelined_transactions WHERE timeline = 0 AND tx = ? AND e != ?");
    assert_eq!(q.params, vec![SqlValue::Integer(7), SqlValue::Integer(7)]);
    let q = SyncMetadata::has_entity_assertions_in_tx_query(65536, 7);
    assert_eq!(q.sql, "SELECT count(rowid) FROM timelined_transactions WHERE timeline = 0 AND tx = ? AND e = ?");
    assert_eq!(q.params, vec![SqlValue::Integer(7), SqlValue::Integer(65536)]);
    assert_eq!(SyncMetadata::new(1, 2), SyncMetadata { root: 1, head: 2 });
}

#[test]
fn test_getters() {
    let mut table = Table::new();
    assert_eq!(None, get(&table, 1).expect("success"));
    let (set_uuid, insert) =
        TxMapper::get_or_set_uuid_for_tx(1, get(&table, 1).expect("success"), new_uuid());
    let insert = insert.expect("an insert");
    assert_eq!(insert.sql, "INSERT INTO tolstoy_tu (tx, uuid) VALUES (?, ?)");
    table.insert_or_replace(&insert.params);
    assert_eq!(Some(set_uuid), get(&table, 1).expect("success"));
    let (again, nothing) =
        TxMapper::get_or_set_uuid_for_tx(1, get(&table, 1).expect("success"), new_uuid());
    assert_eq!(again, set_uuid);
    assert_eq!(nothing, None);
}

fn set_lg_mappings(table: &mut Table, mappings: Vec<LocalGlobalTxMapping>) {
    assert_eq!(
        TxMapper::set_lg_mappings_sql(),
        "INSERT OR REPLACE INTO tolstoy_tu (tx, uuid) VALUES (?, ?)"
    );
    for params in TxMapper::set_lg_mappings(&mappings) {
        table.insert_or_replace(&params);
    }
}

#[test]
fn test_bulk_setter() {
    let mut table = Table::new();

    set_lg_mappings(&mut table, vec![]);

    let uuid1 = new_uuid();
    let uuid2 = new_uuid();

    set_lg_mappings(
        &mut table,
        vec![
            LocalGlobalTxMapping::new(1, uuid1),
            LocalGlobalTxMapping::new(2, uuid2),
        ],
    );
    assert_eq!(Some(uuid1), get(&table, 1).expect("success"));
    assert_eq!(Some(uuid2), get(&table, 2).expect("success"));

    // Now let's replace one of the mappings.
    let new_uuid2 = new_uuid();

    set_lg_mappings(
        &mut table,
        vec![
            LocalGlobalTxMapping::new(1, uuid1),
            LocalGlobalTxMapping::new(2, new_uuid2),
        ],
    );
    assert_eq!(Some(uuid1), get(&table, 1).expect("success"));
    assert_eq!(Some(new_uuid2), get(&table, 2).expect("success"));

    let one = TxMapper::set_lg_mapping(LocalGlobalTxMapping::new(3, uuid1));
    assert_eq!(
        one,
        vec![vec![
            SqlValue::Integer(3),
            SqlValue::Blob(uuid1.as_bytes().to_vec())
        ]]
    );
}

#[test]
fn a_key_matches_one_row_at_most() {
    let u = new_uuid();
    let e = TxMapper::get(vec![Ok(u), Ok(u)]).unwrap_err();
    assert_eq!(
        e.kind(),
        &MentatErrorKind::TolstoyError(TolstoyError::TxIncorrectlyMapped(2))
    );
    let e = TxMapper::get_tx_for_uuid(vec![Ok(1), Err(failure("x")), Ok(3)]).unwrap_err();
    assert_eq!(
        e.kind(),
        &MentatErrorKind::TolstoyError(TolstoyError::TxIncorrectlyMapped(3))
    );
    assert_eq!(TxMapper::get_tx_for_uuid(vec![]), Ok(None));
    assert_eq!(TxMapper::get_tx_for_uuid(vec![Ok(5)]), Ok(Some(5)));
    assert_eq!(
        TxMapper::get_tx_for_uuid(vec![Err(failure("x"))]),
        Err(failure("x"))
    );
    let q = TxMapper::get_tx_for_uuid_query(&u);
    assert_eq!(q.sql, "SELECT tx FROM tolstoy_tu WHERE uuid = ?");
    assert_eq!(q.params, vec![SqlValue::Blob(u.as_bytes().to_vec())]);
}

#[test]
fn test_remote_client_bound_uri() {
    let user_uuid = Uuid::parse_str("316ea470-ce35-4adf-9c61-e0de6e289c59").expect("uuid");
    let server_uri = String::from("https://example.com/api/0.1");
    let remote_client = RemoteClient::new(server_uri, user_uuid);
    assert_eq!(
        "https://example.com/api/0.1/316ea470-ce35-4adf-9c61-e0de6e289c59",
        remote_client.bound_base_uri()
    );
}

#[test]
fn remote_addresses() {
    let user = Uuid::parse_str("316ea470-ce35-4adf-9c61-e0de6e289c59").unwrap();
    let other = Uuid::parse_str("00112233-4455-6677-8899-AABBCCDDEEFF").unwrap();
    let client = RemoteClient::new("http://h".to_string(), user);
    let base = "http://h/316ea470-ce35-4adf-9c61-e0de6e289c59";
    assert_eq!(client.head_uri(), format!("{}/head", base));
    assert_eq!(
        client.transactions_uri(&other),
        format!(
            "{}/transactions?from=00112233-4455-6677-8899-aabbccddeeff",
            base
        )
    );
    assert_eq!(
        client.transaction_uri(&other),
        format!("{}/transactions/00112233-4455-6677-8899-aabbccddeeff", base)
    );
    assert_eq!(
        client.chunk_uri(&other),
        format!("{}/chunks/00112233-4455-6677-8899-aabbccddeeff", base)
    );
}

#[test]
fn identifiers_read_and_write_like_the_uuid_crate() {
    for _ in 0..20 {
        let theirs = uuid::Uuid::new_v4();
        let ours = Uuid::from_bytes(*theirs.as_bytes());
        assert_eq!(ours.to_hyphenated_string(), theirs.to_string());
        assert_eq!(Uuid::parse_str(&theirs.to_string()), Some(ours));
        assert_eq!(ours.to_vec(), theirs.as_bytes().to_vec());
    }
    assert_eq!(Uuid::parse_str("not a uuid"), None);
    assert_eq!(
        Uuid::parse_str("316ea470ce354adf9c61e0de6e289c59"),
        Uuid::parse_str("316ea470-ce35-4adf-9c61-e0de6e289c59")
    );
    assert_eq!(
        Uuid::from_slice(&[0; 15]),
        Err(UuidError {
            expected: 16,
            found: 15
        })
    );
}

#[test]
fn partitions_from_rows() {
    assert_eq!(
        SyncMetadata::partitions_query(PartitionsTable::Tolstoy),
        Some("SELECT part, start, end, idx, allow_excision FROM tolstoy_parts".to_string())
    );
    assert_eq!(SyncMetadata::partitions_query(PartitionsTable::Core), None);
    let row = |name: &str, start: i64, end: i64, next: i64| PartitionRow {
        name: name.to_string(),
        start,
        end,
        next,
        allow_excision: false,
    };
    let rows = vec![
        row(":db.part/db", 0, 65536, 41),
        row(":db.part/user", 65536, 268435456, 65540),
        row(":db.part/tx", 268435456, i64::MAX, 268435460),
    ];
    assert!(PartitionMap::from_rows(&rows).is_some());
    let map = SyncMetadata::get_partitions(&rows);
    assert_eq!(map.len(), 3);
    assert_eq!(
        map.get(":db.part/user"),
        Some(Partition::new(65536, 268435456, 65540, false))
    );
    assert_eq!(map.get(":db.part/none"), None);
    assert!(PartitionMap::from_rows(&vec![row("a", 0, 10, 11)]).is_none());
    assert!(PartitionMap::from_rows(&vec![row("a", 0, 10, 1), row("a", 20, 30, 20)]).is_none());
    assert!(PartitionMap::from_rows(&vec![row("a", 0, 10, 1), row("b", 9, 30, 20)]).is_none());
}

#[test]
fn the_head_is_stored_with_its_mapping() {
    let remote = Uuid::from_bytes([7u8; 16]);
    let (head, rows) = SyncMetadata::set_remote_head_and_map(LocalGlobalTxMapping::new(
        268435457, remote,
    ));
    assert_eq!(head.sql, "UPDATE tolstoy_metadata SET value = ? WHERE key = ?");
    assert_eq!(
        head.params,
        vec![
            SqlValue::Blob(vec![7u8; 16]),
            SqlValue::Text(REMOTE_HEAD_KEY.to_string())
        ]
    );
    assert_eq!(head, SyncMetadata::set_remote_head_statement(&remote));
    assert_eq!(
        rows,
        vec![vec![SqlValue::Integer(268435457), SqlValue::Blob(vec![7u8; 16])]]
    );
    assert_eq!(
        rows,
        TxMapper::set_lg_mapping(LocalGlobalTxMapping::new(268435457, remote))
    );
}

#[test]
fn identifiers_are_read_in_three_forms() {
    let hyphenated = Uuid::parse_str("316ea470-ce35-4adf-9c61-e0de6e289c59").unwrap();
    assert_eq!(hyphenated.as_bytes()[0], 0x31);
    assert_eq!(hyphenated.as_bytes()[15], 0x59);
    assert_eq!(
        Uuid::parse_str("316EA470-CE35-4ADF-9C61-E0DE6E289C59"),
        Some(hyphenated)
    );
    assert_eq!(
        Uuid::parse_str("316ea470ce354adf9c61e0de6e289c59"),
        Some(hyphenated)
    );
    assert_eq!(
        Uuid::parse_str("urn:uuid:316ea470-ce35-4adf-9c61-e0de6e289c59"),
        Some(hyphenated)
    );
    for bad in [
        "",
        "316ea470-ce35-4adf-9c61-e0de6e289c5",
        "316ea470-ce35-4adf-9c61-e0de6e289c599",
        "316ea470ce35-4adf-9c61-e0de6e289c59-",
        "316ea470-ce354adf-9c61-e0de6e289c59-",
        "316ea470-ce35-4adf-9c61-e0de6e289c5g",
        "urn:uuid:316ea470ce354adf9c61e0de6e289c59",
        "URN:UUID:316ea470-ce35-4adf-9c61-e0de6e289c59",
        "316ea470ce354adf9c61e0de6e289c5-",
        "316ea470-ce35-4adf-9c61-e0de6e289c5\u{e9}",
        "{316ea470-ce35-4adf-9c61-e0de6e289c59}",
    ] {
        assert_eq!(Uuid::parse_str(bad), None, "{}", bad);
    }
}

#[test]
fn local_transactions_are_selected_from_the_table() {
    let table = vec![
        (268435458, 0),
        (268435456, 0),
        (268435457, 1),
        (268435458, 0),
        (268435459, 0),
        (268435456, 0),
        (268435460, 2),
    ];
    assert_eq!(
        SyncMetadata::local_txs_among(&table, None),
        vec![268435456, 268435458, 268435459]
    );
    assert_eq!(
        SyncMetadata::local_txs_among(&table, Some(268435456)),
        vec![268435458, 268435459]
    );
    assert_eq!(
        SyncMetadata::local_txs_among(&table, Some(268435458)),
        vec![268435459]
    );
    assert_eq!(SyncMetadata::local_txs_among(&table, Some(268435459)), vec![]);
    assert_eq!(SyncMetadata::local_txs_among(&vec![], None), vec![]);
}
