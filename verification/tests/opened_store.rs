use mentat::db::{
    DbError, DbErrorKind, CORE_SCHEMA_VERSION, DB_CARDINALITY, DB_CARDINALITY_MANY, DB_CARDINALITY_ONE,
    DB_IDENT, DB_INDEX, DB_SCHEMA_CORE, DB_TX_INSTANT, DB_TYPE_INSTANT, DB_TYPE_LONG,
    DB_TYPE_STRING, DB_UNIQUE, DB_UNIQUE_IDENTITY, DB_VALUE_TYPE, TX0, USER0,
};
use mentat::errors::MentatErrorKind;
use mentat::query::answers::QueryOutput;
use mentat::transactor::normalize::{NormalizeError, NormalizeErrorKind};
use mentat::schema::{Attribute, Unique};
use mentat::symbols::Keyword;
use mentat::transactor::bootstrap::{
    core_entid, core_keyword, core_schema, core_schema_terms, entid_of_type, CORE_ATTRIBUTES,
    CORE_IDENTS, CORE_TERMS,
};
use mentat::transactor::reflect::{value_type_named, SchemaFault};
use mentat::transactor::store::{Datom, Store, TransactionError};
use mentat::values::{TypedValue, ValueType};

fn kw(namespace: &str, name: &str) -> Keyword {
    Keyword::namespaced(namespace, name)
}

fn text(s: &str) -> TypedValue {
    TypedValue::String(s.to_string())
}

fn holds(s: &Store, e: i64, a: i64, v: TypedValue) -> bool {
    s.datoms().iter().any(|d| d.e == e && d.a == a && d.v == v)
}

fn values_of(s: &Store, e: i64, a: i64) -> Vec<TypedValue> {
    s.datoms()
        .iter()
        .filter(|d| d.e == e && d.a == a)
        .map(|d| d.v.clone())
        .collect()
}

fn entities_with(s: &Store, a: i64, v: TypedValue) -> Vec<i64> {
    s.datoms()
        .iter()
        .filter(|d| d.a == a && d.v == v)
        .map(|d| d.e)
        .collect()
}

fn entid(s: &Store, namespace: &str, name: &str) -> i64 {
    s.schema().get_entid(&kw(namespace, name)).expect("an ident")
}

fn opened() -> Store {
    Store::open(1000).0
}

fn people() -> Store {
    let mut s = opened();
    s.commit_text(
        "[[:db/add \"n\" :db/ident :person/name]
          [:db/add \"n\" :db/valueType :db.type/string]
          [:db/add \"n\" :db/cardinality :db.cardinality/one]
          [:db/add \"e\" :db/ident :person/email]
          [:db/add \"e\" :db/unique :db.unique/identity]
          [:db/add \"e\" :db/valueType :db.type/string]
          [:db/add \"e\" :db/index true]
          [:db/add \"a\" :db/ident :person/age]
          [:db/add \"a\" :db/valueType :db.type/long]
          [:db/add \"t\" :db/ident :a/tags]
          [:db/add \"t\" :db/valueType :db.type/string]
          [:db/add \"t\" :db/cardinality :db.cardinality/many]
          [:db/add \"r\" :db/ident :extra/ref]
          [:db/add \"r\" :db/valueType :db.type/ref]]",
        2000,
    )
    .expect("the schema of people");
    s
}

#[test]
fn bootstrap_open() {
    let (s, report) = Store::open(1000);
    assert_eq!(report.tx_id, 268435456);
    assert_eq!(report.tx_instant, 1000);
    assert_eq!(report.datoms.len(), CORE_TERMS + 1);
    assert_eq!(
        report.datoms.last(),
        Some(&Datom {
            e: TX0,
            a: DB_TX_INSTANT,
            v: TypedValue::Instant(1000),
            tx: TX0,
            added: true
        })
    );
    assert_eq!(&report.datoms, s.datoms());
    // Exactly one transaction exists.
    assert_eq!(s.next_tx(), TX0 + 1);
    assert_eq!(s.next_user(), USER0);
    assert!(s.datoms().iter().all(|d| d.tx == TX0 && d.added));
    assert_eq!(s.datoms().len(), 51);
    // The datoms of the core schema say what the schema holds.
    assert!(holds(&s, DB_IDENT, DB_IDENT, TypedValue::Keyword(kw("db", "ident"))));
    assert!(holds(&s, DB_TX_INSTANT, DB_IDENT, TypedValue::Keyword(kw("db", "txInstant"))));
    assert!(holds(&s, DB_TX_INSTANT, DB_VALUE_TYPE, TypedValue::Ref(DB_TYPE_INSTANT)));
    assert!(holds(&s, DB_TX_INSTANT, DB_INDEX, TypedValue::Boolean(true)));
    assert!(holds(&s, DB_IDENT, DB_UNIQUE, TypedValue::Ref(DB_UNIQUE_IDENTITY)));
    assert!(holds(&s, DB_CARDINALITY, DB_CARDINALITY, TypedValue::Ref(DB_CARDINALITY_ONE)));
    assert!(holds(&s, TX0, DB_SCHEMA_CORE, TypedValue::Long(CORE_SCHEMA_VERSION as i64)));
    // The ident of the ident is found by a query.
    assert_eq!(
        s.query_text("[:find ?e . :where [?e :db/ident :db/ident]]", &vec![]),
        Ok(QueryOutput::Scalar(Some(TypedValue::Ref(DB_IDENT))))
    );
    assert_eq!(
        s.query_text("[:find ?e . :where [?e :db/ident :db/txInstant]]", &vec![]),
        Ok(QueryOutput::Scalar(Some(TypedValue::Ref(DB_TX_INSTANT))))
    );
    // The datoms of the core schema ask for the schema that is there.
    let mut again = s.copy();
    assert_eq!(again.reflect(&report.datoms), Ok(()));
    assert_eq!(again.schema(), s.schema());
    // The instant of a transaction and the ident are defined.
    assert_eq!(s.schema().get_entid(&kw("db", "txInstant")), Some(DB_TX_INSTANT));
    assert_eq!(s.schema().get_entid(&kw("db", "ident")), Some(DB_IDENT));
    assert_eq!(s.schema().get_ident(DB_IDENT), Some(&kw("db", "ident")));
    assert_eq!(
        s.schema().attribute_for_entid(DB_IDENT),
        Some(Attribute {
            value_type: ValueType::Keyword,
            multival: false,
            unique: Some(Unique::Identity),
            index: true,
            fulltext: false,
            component: false,
            no_history: false,
        })
    );
    assert_eq!(
        s.schema().attribute_for_entid(DB_TX_INSTANT),
        Some(Attribute {
            value_type: ValueType::Instant,
            multival: false,
            unique: None,
            index: true,
            fulltext: false,
            component: false,
            no_history: false,
        })
    );
}

#[test]
fn core_schema_names_its_entities() {
    let schema = core_schema();
    assert_eq!(CORE_IDENTS, 26);
    assert_eq!(CORE_ATTRIBUTES, 10);
    for i in 0..CORE_IDENTS {
        assert_eq!(schema.get_entid(&core_keyword(i)), Some(core_entid(i)));
        assert_eq!(schema.get_ident(core_entid(i)), Some(&core_keyword(i)));
        assert!(core_entid(i) < USER0);
    }
    assert_eq!(schema.get_entid(&kw("db", "valueType")), Some(DB_VALUE_TYPE));
    assert_eq!(schema.get_entid(&kw("db", "cardinality")), Some(DB_CARDINALITY));
    assert_eq!(schema.get_entid(&kw("db.type", "string")), Some(DB_TYPE_STRING));
    assert_eq!(schema.get_entid(&kw("db.cardinality", "many")), Some(DB_CARDINALITY_MANY));
    assert_eq!(schema.get_entid(&kw("db.unique", "identity")), Some(DB_UNIQUE_IDENTITY));
    assert_eq!(schema.get_entid(&kw("db.schema", "core")), Some(DB_SCHEMA_CORE));
    assert_eq!(schema.get_entid(&kw("db", "nothing")), None);
    assert_eq!(
        schema.attribute_for_entid(DB_VALUE_TYPE).map(|a| a.value_type),
        Some(ValueType::Ref)
    );
    assert_eq!(
        schema.attribute_for_entid(DB_INDEX).map(|a| a.value_type),
        Some(ValueType::Boolean)
    );
    assert_eq!(
        schema.attribute_for_entid(DB_SCHEMA_CORE).map(|a| a.value_type),
        Some(ValueType::Long)
    );
    assert_eq!(schema.attribute_for_entid(DB_TYPE_STRING), None);
    assert_eq!(value_type_named(DB_TYPE_STRING), Some(ValueType::String));
    assert_eq!(value_type_named(DB_TYPE_LONG), Some(ValueType::Long));
    assert_eq!(value_type_named(DB_CARDINALITY_ONE), None);
    for t in [
        ValueType::Ref,
        ValueType::Boolean,
        ValueType::Instant,
        ValueType::Long,
        ValueType::Double,
        ValueType::String,
        ValueType::Keyword,
        ValueType::Uuid,
        ValueType::Bytes,
    ] {
        assert_eq!(value_type_named(entid_of_type(t)), Some(t));
    }
    assert_eq!(CORE_TERMS, 50);
    assert_eq!(core_schema_terms().len(), CORE_TERMS);
}

#[test]
fn define_attribute_by_transaction_and_insert() {
    let mut s = opened();
    let defined = s
        .commit_text(
            "[[:db/add \"a\" :db/ident :person/name]
              [:db/add \"a\" :db/valueType :db.type/string]
              [:db/add \"a\" :db/cardinality :db.cardinality/one]]",
            2000,
        )
        .expect("the definition");
    assert_eq!(defined.report.tx_id, TX0 + 1);
    assert_eq!(defined.entids, vec![USER0]);
    let name = entid(&s, "person", "name");
    assert_eq!(name, USER0);
    assert_eq!(
        s.schema().attribute_for_entid(name),
        Some(Attribute {
            value_type: ValueType::String,
            multival: false,
            unique: None,
            index: false,
            fulltext: false,
            component: false,
            no_history: false,
        })
    );
    assert!(holds(&s, name, DB_IDENT, TypedValue::Keyword(kw("person", "name"))));
    assert!(holds(&s, name, DB_VALUE_TYPE, TypedValue::Ref(DB_TYPE_STRING)));
    assert!(holds(&s, name, DB_CARDINALITY, TypedValue::Ref(DB_CARDINALITY_ONE)));

    let inserted = s
        .commit_text("[[:db/add \"p\" :person/name \"Alice\"]]", 3000)
        .expect("the insertion");
    assert_eq!(inserted.tempids, vec!["p".to_string()]);
    let p = inserted.entids[0];
    assert_eq!(p, USER0 + 1);
    assert_eq!(values_of(&s, p, name), vec![text("Alice")]);
    assert_eq!(
        s.query_text(
            "[:find ?n . :in $ ?p :where [?p :person/name ?n]]",
            &vec![TypedValue::Ref(p)]
        ),
        Ok(QueryOutput::Scalar(Some(text("Alice"))))
    );
}

#[test]
fn query_with_predicate() {
    let mut s = opened();
    s.commit_text(
        "[[:db/add \"a\" :db/ident :person/age] [:db/add \"a\" :db/valueType :db.type/long]]",
        2000,
    )
    .expect("the attribute");
    let done = s
        .commit_text(
            "[[:db/add \"e1\" :person/age 20] [:db/add \"e2\" :person/age 40]]",
            3000,
        )
        .expect("the data");
    let e2 = done.entids[1];
    assert_eq!(
        s.query_text("[:find [?e ...] :where [?e :person/age ?a] [(> ?a 30)]]", &vec![]),
        Ok(QueryOutput::Coll(vec![TypedValue::Ref(e2)]))
    );
}

#[test]
fn upsert_merges_tempids_of_a_transacted_schema() {
    let mut s = people();
    let email = entid(&s, "person", "email");
    let name = entid(&s, "person", "name");
    let age = entid(&s, "person", "age");
    assert_eq!(
        s.schema().attribute_for_entid(email).map(|a| (a.unique, a.index)),
        Some((Some(Unique::Identity), true))
    );
    let done = s
        .commit_text(
            "[[:db/add \"x\" :person/email \"a@b\"]
              [:db/add \"y\" :person/email \"a@b\"]
              [:db/add \"x\" :person/name \"A\"]
              [:db/add \"y\" :person/age 30]]",
            3000,
        )
        .expect("the upsert");
    assert_eq!(done.entids[0], done.entids[1]);
    let e = done.entids[0];
    assert_eq!(entities_with(&s, email, text("a@b")), vec![e]);
    assert_eq!(values_of(&s, e, name), vec![text("A")]);
    assert_eq!(values_of(&s, e, age), vec![TypedValue::Long(30)]);
}

#[test]
fn an_upsert_can_name_the_entity_that_it_finds() {
    let mut s = people();
    let email = entid(&s, "person", "email");
    let name = entid(&s, "person", "name");
    let first = s
        .commit_text("[[:db/add \"e\" :person/email \"a@b\"]]", 3000)
        .expect("the first");
    let e1 = first.entids[0];
    let second = s
        .commit_text(
            "[[:db/add \"n\" :person/email \"a@b\"] [:db/add \"n\" :person/name \"B\"]]",
            4000,
        )
        .expect("the second");
    assert_eq!(second.entids, vec![e1]);
    assert_eq!(values_of(&s, e1, name), vec![text("B")]);
    let third = s
        .commit_text(
            "[[:db/add \"m\" :person/email \"a@b\"] [:db/add \"m\" :db/ident :person/e1alias]]",
            5000,
        )
        .expect("the third");
    assert_eq!(third.entids, vec![e1]);
    assert_eq!(s.schema().get_entid(&kw("person", "e1alias")), Some(e1));
    assert_eq!(entities_with(&s, email, text("a@b")), vec![e1]);
    // Two temporary ids that both find the entity, and a reference between them.
    let fourth = s
        .commit_text(
            "[[:db/add \"p\" :person/email \"a@b\"]
              [:db/add \"q\" :person/email \"a@b\"]
              [:db/add \"p\" :extra/ref \"q\"]]",
            6000,
        )
        .expect("the fourth");
    assert_eq!(fourth.entids, vec![e1, e1]);
    assert!(holds(&s, e1, entid(&s, "extra", "ref"), TypedValue::Ref(e1)));
}

#[test]
fn cardinality_change_rejection() {
    let mut s = people();
    let tags = entid(&s, "a", "tags");
    let done = s
        .commit_text("[[:db/add \"e\" :a/tags \"x\"] [:db/add \"e\" :a/tags \"y\"]]", 3000)
        .expect("two values");
    let e1 = done.entids[0];
    assert_eq!(values_of(&s, e1, tags), vec![text("x"), text("y")]);
    let datoms_before = s.datoms().len();
    let next_before = s.next_tx();
    let refused = s.commit_text("[[:db/add :a/tags :db/cardinality :db.cardinality/one]]", 4000);
    assert_eq!(
        refused,
        Err(TransactionError::Schema(SchemaFault::AlterationConflict(tags)))
    );
    assert_eq!(
        SchemaFault::AlterationConflict(tags).error(),
        DbErrorKind::SchemaAlterationConflict(tags)
    );
    // Nothing has changed.
    assert_eq!(s.datoms().len(), datoms_before);
    assert_eq!(s.next_tx(), next_before);
    assert_eq!(s.schema().attribute_for_entid(tags).map(|a| a.multival), Some(true));
    assert!(holds(&s, tags, DB_CARDINALITY, TypedValue::Ref(DB_CARDINALITY_MANY)));
    assert!(!holds(&s, tags, DB_CARDINALITY, TypedValue::Ref(DB_CARDINALITY_ONE)));
    // Once the entity holds one value, the change is taken.
    s.commit_text(&format!("[[:db/retract {} :a/tags \"y\"]]", e1), 5000)
        .expect("the retraction");
    s.commit_text("[[:db/add :a/tags :db/cardinality :db.cardinality/one]]", 6000)
        .expect("the change");
    assert_eq!(s.schema().attribute_for_entid(tags).map(|a| a.multival), Some(false));
    assert!(holds(&s, tags, DB_CARDINALITY, TypedValue::Ref(DB_CARDINALITY_ONE)));
    assert!(!holds(&s, tags, DB_CARDINALITY, TypedValue::Ref(DB_CARDINALITY_MANY)));
    // An attribute of cardinality one replaces the value.
    s.commit_text(&format!("[[:db/add {} :a/tags \"z\"]]", e1), 7000)
        .expect("another value");
    assert_eq!(values_of(&s, e1, tags), vec![text("z")]);
}

#[test]
fn properties_can_be_written_in_any_order() {
    let mut s = opened();
    s.commit_text(
        "[[:db/add \"h\" :db/unique :db.unique/value]
          [:db/add \"h\" :db/index true]
          [:db/add \"h\" :db/valueType :db.type/string]
          [:db/add \"h\" :db/ident :person/handle]]",
        2000,
    )
    .expect("the definition");
    let handle = entid(&s, "person", "handle");
    assert_eq!(
        s.schema().attribute_for_entid(handle),
        Some(Attribute {
            value_type: ValueType::String,
            multival: false,
            unique: Some(Unique::Value),
            index: true,
            fulltext: false,
            component: false,
            no_history: false,
        })
    );
}

#[test]
fn a_definition_that_breaks_the_rules_is_undone() {
    let mut s = opened();
    // Unique without an index.
    let refused = s.commit_text(
        "[[:db/add \"h\" :db/ident :person/handle]
          [:db/add \"h\" :db/valueType :db.type/string]
          [:db/add \"h\" :db/unique :db.unique/value]]",
        2000,
    );
    assert_eq!(
        refused,
        Err(TransactionError::Schema(SchemaFault::AlterationConflict(USER0)))
    );
    assert_eq!(s.schema().get_entid(&kw("person", "handle")), None);
    assert_eq!(s.schema().attribute_for_entid(USER0), None);
    assert_eq!(s.next_user(), USER0);
    assert_eq!(s.next_tx(), TX0 + 1);
    assert_eq!(s.datoms().len(), CORE_TERMS + 1);
}

#[test]
fn properties_of_what_is_no_attribute_are_refused() {
    let mut s = opened();
    let refused = s.commit_text("[[:db/add \"x\" :db/cardinality :db.cardinality/many]]", 2000);
    assert_eq!(
        refused,
        Err(TransactionError::Schema(SchemaFault::BadAssertion(USER0)))
    );
    assert!(matches!(
        SchemaFault::BadAssertion(USER0).error(),
        DbErrorKind::BadSchemaAssertion(_)
    ));
    assert_eq!(s.next_user(), USER0);
    // A value that names no cardinality.
    let mut s = people();
    let tags = entid(&s, "a", "tags");
    let refused = s.commit_text("[[:db/add :a/tags :db/cardinality :db.type/string]]", 3000);
    assert_eq!(
        refused,
        Err(TransactionError::Schema(SchemaFault::BadAssertion(tags)))
    );
    // A value that names no type.
    let refused = s.commit_text(
        "[[:db/add \"v\" :db/valueType :db.cardinality/one]]",
        3000,
    );
    assert!(matches!(
        refused,
        Err(TransactionError::Schema(SchemaFault::BadAssertion(_)))
    ));
}

#[test]
fn the_type_of_an_attribute_stays() {
    let mut s = people();
    let name = entid(&s, "person", "name");
    let refused = s.commit_text("[[:db/add :person/name :db/valueType :db.type/long]]", 3000);
    assert_eq!(
        refused,
        Err(TransactionError::Schema(SchemaFault::AlterationConflict(name)))
    );
    assert_eq!(
        s.schema().attribute_for_entid(name).map(|a| a.value_type),
        Some(ValueType::String)
    );
    assert!(holds(&s, name, DB_VALUE_TYPE, TypedValue::Ref(DB_TYPE_STRING)));
    let refused = s.commit_text(
        "[[:db/retract :person/name :db/valueType :db.type/string]]",
        3000,
    );
    assert_eq!(
        refused,
        Err(TransactionError::Schema(SchemaFault::AlterationConflict(name)))
    );
    // Asserting the type that it has changes nothing.
    let before = s.datoms().len();
    s.commit_text("[[:db/add :person/name :db/valueType :db.type/string]]", 3000)
        .expect("nothing new");
    assert_eq!(s.datoms().len(), before + 1);
}

#[test]
fn idents_are_given_and_taken_away() {
    let mut s = people();
    let name = entid(&s, "person", "name");
    // An ident finds the entity that it names.
    let found = s
        .commit_text("[[:db/add \"x\" :db/ident :db/ident]]", 3000)
        .expect("nothing new");
    assert_eq!(found.entids, vec![DB_IDENT]);
    assert_eq!(found.report.datoms.len(), 1);
    // In a store whose schema was not written as datoms, the ident is taken.
    let mut bare = Store::new(core_schema());
    let refused = bare.commit_text("[[:db/add \"x\" :db/ident :db/ident]]", 3000);
    assert_eq!(
        refused,
        Err(TransactionError::Schema(SchemaFault::Reserved(DB_IDENT)))
    );
    assert_eq!(bare.datoms().len(), 0);
    assert_eq!(bare.next_tx(), TX0);
    assert_eq!(
        SchemaFault::Reserved(DB_IDENT).error(),
        DbErrorKind::ReservedIdent(DB_IDENT)
    );
    assert_eq!(
        SchemaFault::IdentTaken(USER0).error(),
        DbErrorKind::UniquenessConflict(DB_IDENT, USER0)
    );
    // Another ident for an attribute replaces the one it has.
    s.commit_text("[[:db/add :person/name :db/ident :person/called]]", 3000)
        .expect("the new ident");
    assert_eq!(s.schema().get_entid(&kw("person", "called")), Some(name));
    assert_eq!(s.schema().get_entid(&kw("person", "name")), None);
    assert_eq!(s.schema().get_ident(name), Some(&kw("person", "called")));
    // The ident that was taken away can name another entity.
    s.commit_text(
        "[[:db/add \"n\" :db/ident :person/name] [:db/add \"n\" :db/valueType :db.type/long]]",
        4000,
    )
    .expect("the ident again");
    let again = entid(&s, "person", "name");
    assert!(again != name);
    assert_eq!(
        s.schema().attribute_for_entid(again).map(|a| a.value_type),
        Some(ValueType::Long)
    );
    // Retracting the ident takes it away.
    s.commit_text("[[:db/retract :person/name :db/ident :person/name]]", 5000)
        .expect("the retraction");
    assert_eq!(s.schema().get_entid(&kw("person", "name")), None);
    assert_eq!(s.schema().get_ident(again), None);
}

#[test]
fn retracting_a_property_sets_it_back() {
    let mut s = people();
    let email = entid(&s, "person", "email");
    let tags = entid(&s, "a", "tags");
    s.commit_text(
        "[[:db/retract :person/email :db/unique :db.unique/identity]]",
        3000,
    )
    .expect("not unique any more");
    assert_eq!(
        s.schema().attribute_for_entid(email).map(|a| (a.unique, a.index)),
        Some((None, true))
    );
    s.commit_text(
        "[[:db/retract :a/tags :db/cardinality :db.cardinality/many]]",
        4000,
    )
    .expect("cardinality one again");
    assert_eq!(s.schema().attribute_for_entid(tags).map(|a| a.multival), Some(false));
    assert!(!holds(&s, email, DB_UNIQUE, TypedValue::Ref(DB_UNIQUE_IDENTITY)));
}

#[test]
fn reflecting_leaves_data_alone() {
    let mut s = people();
    let before = s.copy();
    let done = s
        .commit_text("[[:db/add \"p\" :person/name \"Alice\"]]", 3000)
        .expect("the insertion");
    assert_eq!(s.schema(), before.schema());
    assert_eq!(done.report.datoms.len(), 2);
    let mut again = before.copy();
    let same = again
        .transact_text("[[:db/add \"p\" :person/name \"Alice\"]]", 3000)
        .expect("the insertion");
    assert_eq!(same, done);
    assert_eq!(again.datoms(), s.datoms());
}

#[test]
fn the_partitions_of_a_store() {
    let mut s = opened();
    let parts = s.partitions();
    assert_eq!(parts.len(), 3);
    let system = parts.get(":db.part/db").expect("the partition of the system");
    assert_eq!((system.start, system.end, system.next_entid()), (0, USER0, 41));
    let users = parts.get(":db.part/user").expect("the partition of users");
    assert_eq!((users.start, users.end, users.next_entid()), (USER0, TX0, USER0));
    let transactions = parts.get(":db.part/tx").expect("the partition of transactions");
    assert_eq!(
        (transactions.start, transactions.end, transactions.next_entid()),
        (TX0, i64::MAX, TX0 + 1)
    );
    assert!(parts.contains_entid(DB_IDENT));
    assert!(parts.contains_entid(TX0));
    assert!(!parts.contains_entid(USER0));
    s.commit_text("[[:db/add \"a\" :db/ident :person/name]]", 2000)
        .expect("an entity");
    let parts = s.partitions();
    assert_eq!(parts.get(":db.part/user").map(|p| p.next_entid()), Some(USER0 + 1));
    assert_eq!(parts.get(":db.part/tx").map(|p| p.next_entid()), Some(TX0 + 2));
    assert!(parts.contains_entid(USER0));
}

#[test]
fn the_idents_of_the_system_are_reserved() {
    let mut s = people();
    let before = s.copy();
    // Another ident for an entity of the system.
    assert_eq!(
        s.commit_text("[[:db/add :db/txInstant :db/ident :my/instant]]", 3000),
        Err(TransactionError::Schema(SchemaFault::Reserved(DB_TX_INSTANT)))
    );
    // The ident of an entity of the system is not taken away.
    assert_eq!(
        s.commit_text("[[:db/retract :db/ident :db/ident :db/ident]]", 3000),
        Err(TransactionError::Schema(SchemaFault::Reserved(DB_IDENT)))
    );
    assert_eq!(s.schema(), before.schema());
    assert_eq!(s.datoms(), before.datoms());
    // Shown at the boundary, a refusal is an error of the datom store.
    let shown = TransactionError::Schema(SchemaFault::Reserved(DB_IDENT)).error();
    assert_eq!(
        shown.kind(),
        &MentatErrorKind::DbError(DbError {
            kind: DbErrorKind::ReservedIdent(DB_IDENT)
        })
    );
}

#[test]
fn refusals_are_shown_as_errors_of_the_store() {
    let mut s = people();
    let parse = s.commit_text("[[:db/add", 3000).unwrap_err();
    assert!(matches!(parse.error().kind(), MentatErrorKind::EdnParseError(_)));
    let missing = s
        .commit_text(
            "[[:db/add (lookup-ref :person/email \"no@one\") :person/name \"N\"]]",
            3000,
        )
        .unwrap_err();
    assert_eq!(
        missing.error().kind(),
        &MentatErrorKind::DbError(DbError {
            kind: DbErrorKind::MissingLookupRef(0)
        })
    );
    let unknown = s
        .commit_text("[[:db/add \"a\" :person/name \"A\"] [:db/add \"a\" :no/such 1]]", 3000)
        .unwrap_err();
    assert_eq!(
        unknown.error().kind(),
        &MentatErrorKind::DbError(DbError {
            kind: DbErrorKind::InputError(1, NormalizeErrorKind::UnrecognizedIdent)
        })
    );
    assert_eq!(
        NormalizeError {
            index: 4,
            kind: NormalizeErrorKind::MissingLookupRef
        }
        .error(),
        DbErrorKind::MissingLookupRef(4)
    );
    let conflict = TransactionError::Db(DbErrorKind::CardinalityConflict(1, 2)).error();
    assert_eq!(
        conflict.kind(),
        &MentatErrorKind::DbError(DbError {
            kind: DbErrorKind::CardinalityConflict(1, 2)
        })
    );
}

#[test]
fn the_transactions_of_a_store_rise() {
    let mut s = opened();
    assert_eq!(s.local_txs(None), vec![TX0]);
    s.commit_text("[]", 2000).expect("a transaction");
    s.commit_text("[]", 3000).expect("a transaction");
    assert_eq!(s.local_txs(None), vec![TX0, TX0 + 1, TX0 + 2]);
    assert_eq!(s.local_txs(Some(TX0)), vec![TX0 + 1, TX0 + 2]);
    assert_eq!(s.local_txs(Some(TX0 + 1)), vec![TX0 + 2]);
    assert_eq!(s.local_txs(Some(TX0 + 2)), vec![]);
    assert_eq!(s.local_txs(Some(TX0 + 9)), vec![]);
    assert_eq!(s.local_txs(Some(7)), vec![TX0, TX0 + 1, TX0 + 2]);
    assert_eq!(s.local_txs(Some(-1)), vec![TX0, TX0 + 1, TX0 + 2]);
    assert_eq!(s.local_txs(Some(i64::MAX)), vec![]);
}
