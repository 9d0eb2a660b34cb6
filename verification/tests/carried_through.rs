use mentat::conn::Conn;
use mentat::db::{DbErrorKind, TX0, USER0};
use mentat::symbols::Keyword;
use mentat::tolstoy::SyncMetadata;
use mentat::transactor::normalize::{NormalizeError, NormalizeErrorKind};
use mentat::transactor::store::{Store, TransactionError};
use mentat::values::TypedValue;

fn text(s: &str) -> TypedValue {
    TypedValue::String(s.to_string())
}

fn entid(s: &Store, namespace: &str, name: &str) -> i64 {
    s.schema()
        .get_entid(&Keyword::namespaced(namespace, name))
        .expect("an ident")
}

fn holds(s: &Store, e: i64, a: i64, v: TypedValue) -> bool {
    s.datoms().iter().any(|d| d.e == e && d.a == a && d.v == v)
}

fn holders(s: &Store, a: i64, v: TypedValue) -> Vec<i64> {
    s.datoms()
        .iter()
        .filter(|d| d.a == a && d.v == v)
        .map(|d| d.e)
        .collect()
}

fn people() -> Store {
    let mut s = Store::open(1000).0;
    s.commit_text(
        "[[:db/add \"n\" :db/ident :person/name]
          [:db/add \"n\" :db/valueType :db.type/string]
          [:db/add \"e\" :db/ident :person/email]
          [:db/add \"e\" :db/valueType :db.type/string]
          [:db/add \"e\" :db/index true]
          [:db/add \"e\" :db/unique :db.unique/identity]
          [:db/add \"a\" :db/ident :person/age]
          [:db/add \"a\" :db/valueType :db.type/long]
          [:db/add \"r\" :db/ident :extra/ref]
          [:db/add \"r\" :db/valueType :db.type/ref]
          [:db/add \"r\" :db/cardinality :db.cardinality/many]
          [:db/add \"y\" :db/ident :x/y]
          [:db/add \"y\" :db/valueType :db.type/ref]]",
        2000,
    )
    .expect("the schema");
    s
}

fn root_and_head(s: &Store) -> (i64, i64) {
    let rows = s.local_txs(None).into_iter().map(Ok).collect();
    SyncMetadata::root_and_head_tx(rows).expect("root and head")
}

fn cursors(s: &Store) -> (i64, i64) {
    let parts = s.partitions();
    (
        parts.get(":db.part/user").unwrap().next_entid(),
        parts.get(":db.part/tx").unwrap().next_entid(),
    )
}

#[test]
fn an_opened_connection_holds_the_first_transaction() {
    let c = Conn::open(77);
    let (s, report) = Store::open(77);
    assert_eq!(c.store().datoms(), s.datoms());
    assert_eq!(c.store().datoms(), &report.datoms);
    assert_eq!(c.store().schema(), s.schema());
    assert!(Conn::open(78).store().datoms() != c.store().datoms());
    assert_eq!(
        c.store().datoms().last().map(|d| d.v.clone()),
        Some(TypedValue::Instant(77))
    );
}

#[test]
fn a_value_of_a_unique_attribute_is_refused_to_another_entity() {
    let mut s = people();
    let email = entid(&s, "person", "email");
    let first = s
        .commit_text("[[:db/add \"a\" :person/email \"a@b\"] [:db/add \"z\" :person/name \"Z\"]]", 3000)
        .expect("two entities");
    let (e1, e2) = (first.entids[0], first.entids[1]);
    assert!(e1 != e2);
    let before = root_and_head(&s);
    let datoms = s.datoms().len();
    let refused = s.commit_text(&format!("[[:db/add {} :person/email \"a@b\"]]", e2), 4000);
    assert_eq!(
        refused,
        Err(TransactionError::Db(DbErrorKind::UniquenessConflict(email, e1)))
    );
    // No transaction was committed, and the entity is still the only one with the value.
    assert_eq!(root_and_head(&s), before);
    assert_eq!(s.datoms().len(), datoms);
    assert_eq!(holders(&s, email, text("a@b")), vec![e1]);
}

#[test]
fn a_reversed_attribute_writes_the_forward_datom() {
    let mut s = people();
    let xy = entid(&s, "x", "y");
    let made = s
        .commit_text("[[:db/add \"e\" :person/name \"E\"] [:db/add \"v\" :person/name \"V\"]]", 3000)
        .expect("two entities");
    let (e, v) = (made.entids[0], made.entids[1]);
    let mut forward = s.copy();
    let mut mapped = s.copy();
    let done = s
        .commit_text(&format!("[[:db/add {} :x/_y {}]]", e, v), 4000)
        .expect("the reversed form");
    let t = done.report.tx_id;
    assert!(done.report.has_entity_assertions(v));
    assert!(!done.report.has_entity_assertions(e));
    assert!(done.report.has_entity_assertions(t));
    assert!(!done.report.is_empty());
    assert_eq!(done.report.datoms.len(), 2);
    assert!(holds(&s, v, xy, TypedValue::Ref(e)));
    // The forward form writes the same.
    let same = forward
        .commit_text(&format!("[[:db/add {} :x/y {}]]", v, e), 4000)
        .expect("the forward form");
    assert_eq!(same.report, done.report);
    assert_eq!(forward.datoms(), s.datoms());
    // On an attribute that is no reference the reversed form is refused:
    // read as the forward form, its value is no value of the attribute.
    assert_eq!(
        s.commit_text(&format!("[[:db/add {} :person/_name {}]]", e, v), 5000),
        Err(TransactionError::Normalize(NormalizeError {
            index: 0,
            kind: NormalizeErrorKind::BadTypeCoercion
        }))
    );
    // In a map the attribute is turned around when the map is applied.
    assert_eq!(
        s.commit_text(&format!("[{{:db/id {} :person/_name {}}}]", e, v), 5000),
        Err(TransactionError::Normalize(NormalizeError {
            index: 0,
            kind: NormalizeErrorKind::ReversedNotRef
        }))
    );
    let by_map = mapped
        .commit_text(&format!("[{{:db/id {} :x/_y {}}}]", e, v), 4000)
        .expect("the map");
    assert_eq!(by_map.report, done.report);
}

#[test]
fn temporary_ids_of_one_upsert_take_one_id() {
    let mut s = people();
    let email = entid(&s, "person", "email");
    let name = entid(&s, "person", "name");
    let age = entid(&s, "person", "age");
    let (n, tx_before) = cursors(&s);
    let done = s
        .commit_text(
            "[[:db/add \"x\" :person/email \"a@b\"]
              [:db/add \"y\" :person/email \"a@b\"]
              [:db/add \"x\" :person/name \"A\"]
              [:db/add \"y\" :person/age 30]]",
            3000,
        )
        .expect("the upsert");
    assert_eq!(done.entids, vec![n, n]);
    assert_eq!(cursors(&s), (n + 1, tx_before + 1));
    assert!(done.report.has_entity_assertions(n));
    assert!(!done.report.has_entity_assertions(n + 1));
    assert_eq!(holders(&s, email, text("a@b")), vec![n]);
    assert!(holds(&s, n, name, text("A")));
    assert!(holds(&s, n, age, TypedValue::Long(30)));
}

#[test]
fn an_upsert_that_finds_an_entity_takes_no_id() {
    let mut s = people();
    let email = entid(&s, "person", "email");
    let name = entid(&s, "person", "name");
    let e1 = s
        .commit_text("[[:db/add \"e\" :person/email \"a@b\"]]", 3000)
        .expect("the entity")
        .entids[0];
    let (u, tx_before) = cursors(&s);
    let done = s
        .commit_text(
            "[[:db/add \"n\" :person/email \"a@b\"] [:db/add \"n\" :person/name \"B\"]]",
            4000,
        )
        .expect("the upsert");
    assert_eq!(done.entids, vec![e1]);
    assert!(done.report.has_entity_assertions(e1));
    assert!(!done.report.has_entity_assertions(u));
    assert!(done
        .report
        .datoms
        .iter()
        .any(|d| d.e == e1 && d.a == name && d.v == text("B") && d.added));
    assert_eq!(cursors(&s), (u, tx_before + 1));
    assert_eq!(holders(&s, email, text("a@b")), vec![e1]);

    // The entity takes another ident; nothing is allocated.
    let parts_before = s.partitions();
    let alias = s
        .commit_text(
            "[[:db/add \"m\" :person/email \"a@b\"] [:db/add \"m\" :db/ident :person/e1alias]]",
            5000,
        )
        .expect("the alias");
    assert_eq!(alias.entids, vec![e1]);
    assert_eq!(cursors(&s), (u, tx_before + 2));
    let parts = s.partitions();
    for name in [":db.part/db", ":db.part/user", ":db.part/tx"] {
        let (was, is) = (parts_before.get(name).unwrap(), parts.get(name).unwrap());
        assert_eq!((was.start, was.end), (is.start, is.end));
    }
    assert_eq!(entid(&s, "person", "e1alias"), e1);

    // Two temporary ids that both find the entity, and a reference between them.
    let reference = entid(&s, "extra", "ref");
    let three = "[[:db/add \"p\" :person/email \"a@b\"]
                  [:db/add \"q\" :person/email \"a@b\"]
                  [:db/add \"p\" :extra/ref \"q\"]]";
    let first = s.commit_text(three, 6000).expect("the reference");
    assert_eq!(first.entids, vec![e1, e1]);
    assert!(!first.report.is_empty());
    assert!(holds(&s, e1, reference, TypedValue::Ref(e1)));
    // Once the datom is live, the same transaction is empty.
    let again = s.commit_text(three, 7000).expect("nothing new");
    assert!(again.report.is_empty());
    assert!(SyncMetadata::is_tx_empty(
        again.report.datoms.iter().filter(|d| d.e != again.report.tx_id).count() as i64
    ));
    assert_eq!(holders(&s, email, text("a@b")), vec![e1]);
    assert!(USER0 <= e1 && e1 < TX0);
}
