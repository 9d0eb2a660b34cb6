use mentat::db::{DbErrorKind, DB_IDENT, DB_TX_INSTANT, TX0, USER0};
use mentat::schema::{Attribute, Schema, Unique};
use mentat::symbols::Keyword;
use mentat::transactor::normalize::{NormalizeError, NormalizeErrorKind};
use mentat::transactor::observer::{Delivery, TxObservationService};
use mentat::transactor::store::{Datom, Store, TransactionError};
use mentat::values::{TypedValue, ValueType};

fn attribute(value_type: ValueType) -> Attribute {
    Attribute {
        value_type,
        multival: false,
        unique: None,
        index: false,
        fulltext: false,
        component: false,
        no_history: false,
    }
}

fn identity(value_type: ValueType) -> Attribute {
    let mut a = attribute(value_type);
    a.unique = Some(Unique::Identity);
    a.index = true;
    a
}

fn many(value_type: ValueType) -> Attribute {
    let mut a = attribute(value_type);
    a.multival = true;
    a
}

fn base() -> Store {
    let mut schema = Schema::new();
    assert!(schema.define_attribute(DB_IDENT, identity(ValueType::Keyword)));
    assert!(schema.add_ident(Keyword::namespaced("db", "ident"), DB_IDENT));
    let mut instant = attribute(ValueType::Instant);
    instant.index = true;
    assert!(schema.define_attribute(DB_TX_INSTANT, instant));
    assert!(schema.add_ident(Keyword::namespaced("db", "txInstant"), DB_TX_INSTANT));
    Store::new(schema)
}

fn people() -> (Store, i64, i64, i64, i64, i64) {
    let mut s = base();
    let name = s
        .define_attribute(Keyword::namespaced("person", "name"), attribute(ValueType::String))
        .unwrap();
    let email = s
        .define_attribute(Keyword::namespaced("person", "email"), identity(ValueType::String))
        .unwrap();
    let age = s
        .define_attribute(Keyword::namespaced("person", "age"), attribute(ValueType::Long))
        .unwrap();
    let tags = s
        .define_attribute(Keyword::namespaced("a", "tags"), many(ValueType::String))
        .unwrap();
    let friend = s
        .define_attribute(Keyword::namespaced("extra", "ref"), many(ValueType::Ref))
        .unwrap();
    (s, name, email, age, tags, friend)
}

fn text(s: &str) -> TypedValue {
    TypedValue::String(s.to_string())
}

fn datom(e: i64, a: i64, v: TypedValue, tx: i64, added: bool) -> Datom {
    Datom { e, a, v, tx, added }
}

fn holds(s: &Store, e: i64, a: i64, v: TypedValue) -> bool {
    s.datoms().iter().any(|d| d.e == e && d.a == a && d.v == v)
}

#[test]
fn attributes_get_fresh_ids_and_idents() {
    let (s, name, email, age, tags, friend) = people();
    assert_eq!(
        vec![name, email, age, tags, friend],
        vec![USER0, USER0 + 1, USER0 + 2, USER0 + 3, USER0 + 4]
    );
    assert_eq!(
        s.schema().get_entid(&Keyword::namespaced("person", "name")),
        Some(name)
    );
    assert_eq!(
        s.schema().get_ident(email),
        Some(&Keyword::namespaced("person", "email"))
    );
    assert_eq!(
        s.schema().attribute_for_entid(tags),
        Some(many(ValueType::String))
    );
    assert_eq!(s.schema().attribute_for_entid(12345), None);
    assert_eq!(s.next_user(), USER0 + 5);
}

#[test]
fn definitions_that_break_the_rules_are_refused() {
    let (mut s, name, ..) = people();
    let mut bad = many(ValueType::String);
    bad.unique = Some(Unique::Identity);
    bad.index = true;
    assert_eq!(
        s.define_attribute(Keyword::namespaced("x", "y"), bad),
        Err(DbErrorKind::InvalidAttribute)
    );
    let mut fulltext = attribute(ValueType::Long);
    fulltext.fulltext = true;
    fulltext.index = true;
    assert_eq!(
        s.define_attribute(Keyword::namespaced("x", "y"), fulltext),
        Err(DbErrorKind::InvalidAttribute)
    );
    let mut component = attribute(ValueType::String);
    component.component = true;
    assert_eq!(
        s.define_attribute(Keyword::namespaced("x", "y"), component),
        Err(DbErrorKind::InvalidAttribute)
    );
    let mut unindexed = attribute(ValueType::String);
    unindexed.unique = Some(Unique::Value);
    assert_eq!(
        s.define_attribute(Keyword::namespaced("x", "y"), unindexed),
        Err(DbErrorKind::InvalidAttribute)
    );
    assert_eq!(
        s.define_attribute(
            Keyword::namespaced("person", "name"),
            attribute(ValueType::String)
        ),
        Err(DbErrorKind::UniquenessConflict(DB_IDENT, name))
    );
    assert_eq!(s.next_user(), USER0 + 5);
}

#[test]
fn define_attribute_and_insert() {
    let (mut s, name, ..) = people();
    let done = s
        .transact_text(r#"[[:db/add "p" :person/name "Alice"]]"#, 10)
        .unwrap();
    let p = done.entids[0];
    assert_eq!(done.tempids, vec!["p".to_string()]);
    assert_eq!(p, USER0 + 5);
    assert!(holds(&s, p, name, text("Alice")));
    assert_eq!(done.report.tx_id, TX0);
}

#[test]
fn upsert_merges_tempids_from_text() {
    let (mut s, name, email, age, ..) = people();
    let done = s
        .transact_text(
            r#"[[:db/add "x" :person/email "a@b"]
                [:db/add "y" :person/email "a@b"]
                [:db/add "x" :person/name "A"]
                [:db/add "y" :person/age 30]]"#,
            10,
        )
        .unwrap();
    assert_eq!(done.entids[0], done.entids[1]);
    let e = done.entids[0];
    assert!(holds(&s, e, email, text("a@b")));
    assert!(holds(&s, e, name, text("A")));
    assert!(holds(&s, e, age, TypedValue::Long(30)));
    let with_email: Vec<&Datom> = s.datoms().iter().filter(|d| d.a == email).collect();
    assert_eq!(with_email.len(), 1);
}

#[test]
fn upserts_merge_into_the_entity_that_exists() {
    let (mut s, name, email, _, _, friend) = people();
    let e1 = s
        .transact_text(r#"[[:db/add "first" :person/email "a@b"]]"#, 1)
        .unwrap()
        .entids[0];
    let second = s
        .transact_text(
            r#"[[:db/add "n" :person/email "a@b"] [:db/add "n" :person/name "B"]]"#,
            2,
        )
        .unwrap();
    assert_eq!(second.entids, vec![e1]);
    assert!(holds(&s, e1, name, text("B")));
    let third = s
        .transact_text(
            r#"[[:db/add "p" :person/email "a@b"]
                [:db/add "q" :person/email "a@b"]
                [:db/add "p" :extra/ref "q"]]"#,
            3,
        )
        .unwrap();
    assert_eq!(third.entids, vec![e1, e1]);
    assert!(holds(&s, e1, friend, TypedValue::Ref(e1)));
    assert!(holds(&s, e1, email, text("a@b")));
}

#[test]
fn cardinality_change_is_refused_while_an_entity_holds_two_values() {
    let (mut s, _, _, _, tags, _) = people();
    s.transact_text(
        r#"[[:db/add "e" :a/tags "one"] [:db/add "e" :a/tags "two"]]"#,
        1,
    )
    .unwrap();
    assert_eq!(
        s.alter_attribute(tags, attribute(ValueType::String)),
        Err(DbErrorKind::SchemaAlterationConflict(tags))
    );
    assert_eq!(s.schema().attribute_for_entid(tags), Some(many(ValueType::String)));
    s.transact_text(r#"[[:db/retract 65541 :a/tags "two"]]"#, 2)
        .unwrap();
    assert_eq!(s.alter_attribute(tags, attribute(ValueType::String)), Ok(()));
    assert_eq!(
        s.schema().attribute_for_entid(tags),
        Some(attribute(ValueType::String))
    );
}

#[test]
fn other_alterations_follow_the_data() {
    let (mut s, name, email, age, ..) = people();
    s.transact_text(
        r#"[[:db/add "a" :person/name "Same"] [:db/add "b" :person/name "Same"] [:db/add "a" :person/age 3]]"#,
        1,
    )
    .unwrap();
    assert_eq!(
        s.alter_attribute(name, identity(ValueType::String)),
        Err(DbErrorKind::SchemaAlterationConflict(name))
    );
    assert_eq!(
        s.alter_attribute(age, attribute(ValueType::String)),
        Err(DbErrorKind::SchemaAlterationConflict(age))
    );
    assert_eq!(s.alter_attribute(age, identity(ValueType::Long)), Ok(()));
    assert_eq!(s.alter_attribute(email, attribute(ValueType::Long)), Ok(()));
    assert_eq!(
        s.alter_attribute(DB_TX_INSTANT, attribute(ValueType::Instant)),
        Err(DbErrorKind::SchemaAlterationConflict(DB_TX_INSTANT))
    );
    assert_eq!(
        s.alter_attribute(999, attribute(ValueType::Long)),
        Err(DbErrorKind::UnknownAttribute(999))
    );
}

#[test]
fn maps_and_reversed_attributes() {
    let (mut s, name, _, _, tags, friend) = people();
    let done = s
        .transact_text(
            r#"[{:db/id "child" :person/name "C" :a/tags ["x" "y"] :extra/_ref "parent"}
                [:db/add "other" :extra/_ref "child"]]"#,
            1,
        )
        .unwrap();
    assert_eq!(
        done.tempids,
        vec![
            "child".to_string(),
            "parent".to_string(),
            "other".to_string()
        ]
    );
    let (child, parent, other) = (done.entids[0], done.entids[1], done.entids[2]);
    assert!(holds(&s, child, name, text("C")));
    assert!(holds(&s, child, tags, text("x")));
    assert!(holds(&s, child, tags, text("y")));
    assert!(holds(&s, parent, friend, TypedValue::Ref(child)));
    assert!(holds(&s, child, friend, TypedValue::Ref(other)));
}

#[test]
fn reversed_form_is_the_forward_form_turned_around() {
    let (mut a, ..) = people();
    let (mut b, ..) = people();
    let one = a
        .transact_text(r#"[[:db/add "e" :extra/_ref "v"]]"#, 1)
        .unwrap();
    let two = b
        .transact_text(r#"[[:db/add "v" :extra/ref "e"]]"#, 1)
        .unwrap();
    assert_eq!(one.tempids, vec!["v".to_string(), "e".to_string()]);
    assert_eq!(one.tempids, two.tempids);
    assert_eq!(one.report, two.report);
    assert_eq!(a.datoms(), b.datoms());
}

#[test]
fn lookup_refs_and_the_transaction_itself() {
    let (mut s, name, email, _, _, friend) = people();
    let e = s
        .transact_text(r#"[[:db/add "e" :person/email "a@b"]]"#, 1)
        .unwrap()
        .entids[0];
    s.transact_text(
        r#"[[:db/add (lookup-ref :person/email "a@b") :person/name "Found"]
            [:db/add (lookup-ref :person/email "a@b") :extra/ref (transaction-tx)]
            [:db/retract (lookup-ref :person/email "nobody") :person/name "x"]]"#,
        2,
    )
    .unwrap();
    assert!(holds(&s, e, name, text("Found")));
    assert!(holds(&s, e, friend, TypedValue::Ref(TX0 + 1)));
    assert_eq!(
        s.transact_text(
            r#"[[:db/add (lookup-ref :person/email "nobody") :person/name "x"]]"#,
            3
        ),
        Err(TransactionError::Normalize(NormalizeError {
            index: 0,
            kind: NormalizeErrorKind::MissingLookupRef
        }))
    );
    assert_eq!(
        s.transact_text(
            r#"[[:db/add 1 :person/name "ok"] [:db/add (lookup-ref :person/name "x") :person/name "y"]]"#,
            3
        ),
        Err(TransactionError::Normalize(NormalizeError {
            index: 1,
            kind: NormalizeErrorKind::LookupRefNotUnique
        }))
    );
    let _ = email;
}

#[test]
fn forms_that_cannot_be_applied_are_told_apart() {
    let (mut s, ..) = people();
    let refused = |s: &mut Store, text: &str, kind: NormalizeErrorKind| {
        assert_eq!(
            s.transact_text(text, 1),
            Err(TransactionError::Normalize(NormalizeError { index: 0, kind }))
        );
    };
    refused(
        &mut s,
        r#"[[:db/add "e" :no/such 1]]"#,
        NormalizeErrorKind::UnrecognizedIdent,
    );
    refused(
        &mut s,
        r#"[[:db/add "e" 424242 1]]"#,
        NormalizeErrorKind::UnknownAttribute,
    );
    refused(
        &mut s,
        r#"[[:db/add "e" :person/age "old"]]"#,
        NormalizeErrorKind::BadTypeCoercion,
    );
    refused(
        &mut s,
        r#"[{:person/name "nobody"}]"#,
        NormalizeErrorKind::MissingDbId,
    );
    refused(
        &mut s,
        r#"[{:db/id "e" :person/_name "x"}]"#,
        NormalizeErrorKind::ReversedNotRef,
    );
    refused(
        &mut s,
        r#"[[:db/add "e" :person/name (nonsense)]]"#,
        NormalizeErrorKind::BadTypeCoercion,
    );
    refused(
        &mut s,
        r#"[[:db/add (nonsense) :person/name "x"]]"#,
        NormalizeErrorKind::NotSupported,
    );
    assert!(matches!(
        s.transact_text("[[:db/add", 1),
        Err(TransactionError::Parse(_))
    ));
    assert_eq!(s.next_tx(), TX0);
    assert!(s.datoms().is_empty());
}

#[test]
fn uniqueness_conflict_from_text() {
    let (mut s, ..) = people();
    let e1 = s
        .transact_text(r#"[[:db/add "e1" :person/email "a@b"]]"#, 1)
        .unwrap()
        .entids[0];
    let e2 = s.allocate_entid().unwrap();
    let email = s
        .schema()
        .get_entid(&Keyword::namespaced("person", "email"))
        .unwrap();
    assert_eq!(
        s.transact_text(&format!(r#"[[:db/add {} :person/email "a@b"]]"#, e2), 2),
        Err(TransactionError::Db(DbErrorKind::UniquenessConflict(
            email, e1
        )))
    );
}

#[test]
fn observers_are_told_of_their_attributes_only() {
    let (mut s, name, email, age, ..) = people();
    let mut service = TxObservationService::new();
    assert!(service.is_empty());
    service.register("names".to_string(), vec![name]);
    service.register("contact".to_string(), vec![email, name]);
    service.register("ages".to_string(), vec![age]);
    service.register("nothing".to_string(), vec![]);
    assert!(service.is_registered("ages"));
    assert!(!service.is_registered("age"));
    let done = s
        .transact_text(
            r#"[[:db/add "x" :person/email "a@b"] [:db/add "x" :person/name "A"]]"#,
            5,
        )
        .unwrap();
    let x = done.entids[0];
    let deliveries = service.dispatch(&done.report);
    assert_eq!(
        deliveries,
        vec![
            Delivery {
                key: "names".to_string(),
                tx_id: TX0,
                datoms: vec![datom(x, name, text("A"), TX0, true)],
            },
            Delivery {
                key: "contact".to_string(),
                tx_id: TX0,
                datoms: vec![
                    datom(x, email, text("a@b"), TX0, true),
                    datom(x, name, text("A"), TX0, true)
                ],
            },
        ]
    );
    service.deregister("names");
    service.register("contact".to_string(), vec![age]);
    assert!(!service.is_registered("names"));
    let second = s
        .transact_text(r#"[[:db/add "x" :person/email "a@b"] [:db/add "x" :person/age 4]]"#, 6)
        .unwrap();
    let deliveries = service.dispatch(&second.report);
    assert_eq!(
        deliveries,
        vec![
            Delivery {
                key: "contact".to_string(),
                tx_id: TX0 + 1,
                datoms: vec![datom(x, age, TypedValue::Long(4), TX0 + 1, true)],
            },
            Delivery {
                key: "ages".to_string(),
                tx_id: TX0 + 1,
                datoms: vec![datom(x, age, TypedValue::Long(4), TX0 + 1, true)],
            },
        ]
    );
}
