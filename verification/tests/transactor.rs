use mentat::db::{DbErrorKind, DB_TX_INSTANT, TX0, USER0};
use mentat::edn::entities::OpType;
use mentat::schema::{Attribute, Schema, Unique};
use mentat::transactor::store::{Datom, Store, Term};
use mentat::transactor::upsert::{EntityRef, Form, ValueRef};
use mentat::values::{TypedValue, ValueType};

const NAME: i64 = 100;
const EMAIL: i64 = 101;
const AGE: i64 = 102;
const TAGS: i64 = 103;
const HANDLE: i64 = 104;

fn attribute(value_type: ValueType) -> Attribute {
    Attribute {
        value_type,
        multival: false,
        unique: None,
        index: false,
        fulltext: false,
        component: false,
        no_history: false,
    }
}

fn store() -> Store {
    let mut schema = Schema::new();
    let mut instant = attribute(ValueType::Instant);
    instant.index = true;
    assert!(schema.define_attribute(DB_TX_INSTANT, instant));
    assert!(schema.define_attribute(NAME, attribute(ValueType::String)));
    let mut identity = attribute(ValueType::String);
    identity.unique = Some(Unique::Identity);
    identity.index = true;
    assert!(schema.define_attribute(EMAIL, identity));
    assert!(schema.define_attribute(AGE, attribute(ValueType::Long)));
    let mut many = attribute(ValueType::String);
    many.multival = true;
    assert!(schema.define_attribute(TAGS, many));
    assert!(schema.define_attribute(HANDLE, identity));
    Store::new(schema)
}

fn text(s: &str) -> TypedValue {
    TypedValue::String(s.to_string())
}

fn add(e: &str, a: i64, v: TypedValue) -> Form {
    Form {
        op: OpType::Add,
        e: EntityRef::TempId(e.to_string()),
        a,
        v: ValueRef::Value(v),
    }
}

fn add_to(e: i64, a: i64, v: TypedValue) -> Term {
    Term {
        op: OpType::Add,
        e,
        a,
        v,
    }
}

fn datom(e: i64, a: i64, v: TypedValue, tx: i64, added: bool) -> Datom {
    Datom { e, a, v, tx, added }
}

#[test]
fn first_transaction_takes_tx0() {
    let mut s = store();
    assert_eq!(TX0, 268435456);
    let report = s.transact(&vec![], 1000).unwrap();
    assert_eq!(report.tx_id, 268435456);
    assert_eq!(
        report.datoms,
        vec![datom(TX0, DB_TX_INSTANT, TypedValue::Instant(1000), TX0, true)]
    );
    assert_eq!(s.next_tx(), TX0 + 1);
}

#[test]
fn transaction_ids_increase() {
    let mut s = store();
    let mut last = 0;
    for i in 0..5 {
        let report = s.transact(&vec![], i).unwrap();
        assert!(report.tx_id > last);
        last = report.tx_id;
    }
    assert_eq!(last, TX0 + 4);
}

#[test]
fn upsert_merges_tempids() {
    let mut s = store();
    let done = s
        .transact_forms(
            &vec![
                add("x", EMAIL, text("a@b")),
                add("y", EMAIL, text("a@b")),
                add("x", NAME, text("A")),
                add("y", AGE, TypedValue::Long(30)),
            ],
            7,
        )
        .unwrap();
    assert_eq!(done.tempids, vec!["x".to_string(), "y".to_string()]);
    assert_eq!(done.labels, vec![0, 0]);
    assert_eq!(done.entids, vec![USER0, USER0]);
    assert_eq!(s.next_user(), USER0 + 1);
    assert_eq!(
        s.datoms(),
        &vec![
            datom(USER0, EMAIL, text("a@b"), TX0, true),
            datom(USER0, NAME, text("A"), TX0, true),
            datom(USER0, AGE, TypedValue::Long(30), TX0, true),
            datom(TX0, DB_TX_INSTANT, TypedValue::Instant(7), TX0, true),
        ]
    );
    assert_eq!(done.report.datoms, s.datoms().clone());
}

#[test]
fn chains_of_shared_identities_make_one_class() {
    let mut s = store();
    let done = s
        .transact_forms(
            &vec![
                add("z", HANDLE, text("k2")),
                add("x", EMAIL, text("k1")),
                add("w", NAME, text("alone")),
                add("y", EMAIL, text("k1")),
                add("y", HANDLE, text("k2")),
            ],
            1,
        )
        .unwrap();
    assert_eq!(
        done.tempids,
        vec![
            "z".to_string(),
            "x".to_string(),
            "w".to_string(),
            "y".to_string()
        ]
    );
    assert_eq!(done.labels, vec![0, 0, 2, 0]);
    assert_eq!(done.entids, vec![USER0, USER0, USER0 + 1, USER0]);
    assert_eq!(s.next_user(), USER0 + 2);
}

#[test]
fn upsert_finds_the_entity_that_holds_the_value() {
    let mut s = store();
    let first = s
        .transact_forms(&vec![add("n", EMAIL, text("a@b"))], 1)
        .unwrap();
    let e1 = first.entids[0];
    let second = s
        .transact_forms(
            &vec![add("m", EMAIL, text("a@b")), add("m", NAME, text("B"))],
            2,
        )
        .unwrap();
    assert_eq!(second.entids, vec![e1]);
    assert_eq!(
        second.report.datoms,
        vec![
            datom(e1, NAME, text("B"), TX0 + 1, true),
            datom(TX0 + 1, DB_TX_INSTANT, TypedValue::Instant(2), TX0 + 1, true),
        ]
    );
    assert_eq!(s.next_user(), USER0 + 1);
}

#[test]
fn the_same_upsert_twice_writes_nothing_the_second_time() {
    let mut s = store();
    let forms = vec![add("t", EMAIL, text("a@b"))];
    let first = s.transact_forms(&forms, 1).unwrap();
    let second = s.transact_forms(&forms, 2).unwrap();
    assert_eq!(first.entids, second.entids);
    assert_eq!(
        second.report.datoms,
        vec![datom(
            TX0 + 1,
            DB_TX_INSTANT,
            TypedValue::Instant(2),
            TX0 + 1,
            true
        )]
    );
    assert_eq!(s.datoms().len(), 3);
}

#[test]
fn upserts_that_find_two_entities_conflict() {
    let mut s = store();
    let a = s
        .transact_forms(&vec![add("a", EMAIL, text("a@b"))], 1)
        .unwrap()
        .entids[0];
    let b = s
        .transact_forms(&vec![add("b", HANDLE, text("bee"))], 2)
        .unwrap()
        .entids[0];
    assert!(a != b);
    let before = s.datoms().clone();
    let r = s.transact_forms(
        &vec![add("t", EMAIL, text("a@b")), add("t", HANDLE, text("bee"))],
        3,
    );
    assert_eq!(r, Err(DbErrorKind::UpsertConflict(a, b)));
    assert_eq!(s.datoms(), &before);
    assert_eq!(s.next_tx(), TX0 + 2);
    assert_eq!(s.next_user(), USER0 + 2);
}

#[test]
fn cardinality_one_replaces_the_value() {
    let mut s = store();
    let e = s.allocate_entid().unwrap();
    s.transact(&vec![add_to(e, NAME, text("A"))], 1).unwrap();
    let report = s.transact(&vec![add_to(e, NAME, text("B"))], 2).unwrap();
    assert_eq!(
        report.datoms,
        vec![
            datom(e, NAME, text("A"), TX0 + 1, false),
            datom(e, NAME, text("B"), TX0 + 1, true),
            datom(TX0 + 1, DB_TX_INSTANT, TypedValue::Instant(2), TX0 + 1, true),
        ]
    );
    let names: Vec<&Datom> = s.datoms().iter().filter(|d| d.a == NAME).collect();
    assert_eq!(names, vec![&datom(e, NAME, text("B"), TX0 + 1, true)]);
}

#[test]
fn cardinality_many_keeps_every_value() {
    let mut s = store();
    let e = s.allocate_entid().unwrap();
    s.transact(
        &vec![
            add_to(e, TAGS, text("a")),
            add_to(e, TAGS, text("b")),
            add_to(e, TAGS, text("a")),
        ],
        1,
    )
    .unwrap();
    let tags: Vec<&Datom> = s.datoms().iter().filter(|d| d.a == TAGS).collect();
    assert_eq!(
        tags,
        vec![
            &datom(e, TAGS, text("a"), TX0, true),
            &datom(e, TAGS, text("b"), TX0, true)
        ]
    );
}

#[test]
fn refuses_what_breaks_the_rules() {
    let mut s = store();
    let e1 = s.allocate_entid().unwrap();
    let e2 = s.allocate_entid().unwrap();
    s.transact(&vec![add_to(e1, EMAIL, text("a@b"))], 1).unwrap();
    let before = s.datoms().clone();
    assert_eq!(
        s.transact(&vec![add_to(e2, EMAIL, text("a@b"))], 2),
        Err(DbErrorKind::UniquenessConflict(EMAIL, e1))
    );
    assert_eq!(
        s.transact(
            &vec![add_to(e2, NAME, text("A")), add_to(e2, NAME, text("B"))],
            2
        ),
        Err(DbErrorKind::CardinalityConflict(e2, NAME))
    );
    assert_eq!(
        s.transact(&vec![add_to(e2, 999, text("A"))], 2),
        Err(DbErrorKind::UnknownAttribute(999))
    );
    assert_eq!(
        s.transact(&vec![add_to(e2, AGE, text("old"))], 2),
        Err(DbErrorKind::BadTypeCoercion(AGE))
    );
    assert_eq!(
        s.transact(&vec![add_to(e2 + 1, AGE, TypedValue::Long(3))], 2),
        Err(DbErrorKind::UnallocatedEntid(e2 + 1))
    );
    assert_eq!(s.datoms(), &before);
    assert_eq!(s.next_tx(), TX0 + 1);
}

#[test]
fn retraction_removes_a_live_datom_only() {
    let mut s = store();
    let e = s.allocate_entid().unwrap();
    s.transact(&vec![add_to(e, NAME, text("A"))], 1).unwrap();
    let retract = |v: &str| Term {
        op: OpType::Retract,
        e,
        a: NAME,
        v: text(v),
    };
    let nothing = s.transact(&vec![retract("B")], 2).unwrap();
    assert_eq!(nothing.datoms.len(), 1);
    let gone = s.transact(&vec![retract("A")], 3).unwrap();
    assert_eq!(
        gone.datoms,
        vec![
            datom(e, NAME, text("A"), TX0 + 2, false),
            datom(TX0 + 2, DB_TX_INSTANT, TypedValue::Instant(3), TX0 + 2, true),
        ]
    );
    assert!(s.datoms().iter().all(|d| d.a != NAME));
}

#[test]
fn a_term_can_give_the_instant() {
    let mut s = store();
    let report = s
        .transact(
            &vec![add_to(TX0, DB_TX_INSTANT, TypedValue::Instant(42))],
            1000,
        )
        .unwrap();
    assert_eq!(
        report.datoms,
        vec![datom(TX0, DB_TX_INSTANT, TypedValue::Instant(42), TX0, true)]
    );
}

#[test]
fn a_temporary_id_without_an_id_left_is_unresolved() {
    let mut s = store();
    // Every id of the partition of users is taken.
    let mut taken: i64 = 0;
    while s.allocate_entid().is_some() {
        taken += 1;
    }
    assert_eq!(taken, TX0 - USER0);
    assert_eq!(s.next_user(), TX0);
    let refused = s.transact_forms(
        &vec![add("x", NAME, text("A")), add("y", NAME, text("B"))],
        7,
    );
    assert_eq!(refused, Err(DbErrorKind::UnresolvedTempid("x".to_string())));
    assert_eq!(s.next_tx(), TX0);
    assert_eq!(s.datoms().len(), 0);
}
