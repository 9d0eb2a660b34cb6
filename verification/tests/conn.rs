use mentat::conn::Conn;
use mentat::db::{DB_IDENT, TX0, USER0};
use mentat::query::answers::QueryOutput;
use mentat::symbols::Keyword;
use mentat::transactor::reflect::SchemaFault;
use mentat::transactor::store::TransactionError;
use mentat::values::TypedValue;

fn text(s: &str) -> TypedValue {
    TypedValue::String(s.to_string())
}

fn entid(c: &Conn, namespace: &str, name: &str) -> i64 {
    c.store()
        .schema()
        .get_entid(&Keyword::namespaced(namespace, name))
        .expect("an ident")
}

fn library() -> Conn {
    let mut c = Conn::open(1000);
    c.transact(
        "[[:db/add \"t\" :db/ident :book/title]
          [:db/add \"t\" :db/valueType :db.type/string]
          [:db/add \"g\" :db/ident :book/tag]
          [:db/add \"g\" :db/valueType :db.type/string]
          [:db/add \"g\" :db/cardinality :db.cardinality/many]]",
        2000,
    )
    .expect("the schema");
    c
}

#[test]
fn a_connection_opens_on_the_core_schema() {
    let c = Conn::open(1000);
    assert_eq!(c.store().next_tx(), TX0 + 1);
    assert_eq!(c.store().next_user(), USER0);
    assert!(c.cached(DB_IDENT).is_none());
    assert_eq!(
        c.query("[:find ?e . :where [?e :db/ident :db/ident]]", &vec![]),
        Ok(QueryOutput::Scalar(Some(TypedValue::Ref(DB_IDENT))))
    );
}

#[test]
fn observers_are_told_and_caches_follow() {
    let mut c = library();
    let title = entid(&c, "book", "title");
    let tag = entid(&c, "book", "tag");
    c.register_observer("titles".to_string(), vec![title]);
    c.register_observer("all".to_string(), vec![title, tag]);
    c.register_observer("idents".to_string(), vec![DB_IDENT]);
    c.cache_attribute(title);
    c.cache_attribute(tag);
    c.cache_attribute(title);
    assert_eq!(c.cached(title).map(|k| k.len()), Some(0));

    let done = c
        .transact(
            "[[:db/add \"a\" :book/title \"Emma\"] [:db/add \"a\" :book/tag \"novel\"]]",
            3000,
        )
        .expect("the book");
    let a = done.report.entids[0];
    // Each observer is told of the datoms about its attributes, in the
    // order of the observers; an observer with nothing to hear is not told.
    let told: Vec<(String, usize)> = done
        .deliveries
        .iter()
        .map(|d| (d.key.clone(), d.datoms.len()))
        .collect();
    assert_eq!(told, vec![("titles".to_string(), 1), ("all".to_string(), 2)]);
    assert!(done.deliveries.iter().all(|d| d.tx_id == done.report.report.tx_id));
    assert_eq!(done.deliveries[0].datoms[0].v, text("Emma"));
    // The caches hold what is live.
    assert_eq!(c.cached(title).unwrap().values_of(a), vec![text("Emma")]);
    assert_eq!(c.cached(tag).unwrap().entities_with(&text("novel")), vec![a]);
    assert_eq!(c.cached(title), Some(&c.store().cache(title)));

    // Another title takes the place of the first: the observers hear of both datoms.
    let again = c
        .transact(&format!("[[:db/add {} :book/title \"Emma.\"]]", a), 4000)
        .expect("the new title");
    assert_eq!(again.deliveries.len(), 2);
    assert_eq!(again.deliveries[0].datoms.len(), 2);
    assert!(!again.deliveries[0].datoms[0].added);
    assert!(again.deliveries[0].datoms[1].added);
    assert_eq!(c.cached(title).unwrap().values_of(a), vec![text("Emma.")]);
    assert_eq!(c.cached(title), Some(&c.store().cache(title)));
    assert_eq!(c.cached(tag), Some(&c.store().cache(tag)));
    assert_eq!(
        c.query("[:find ?t . :where [_ :book/title ?t]]", &vec![]),
        Ok(QueryOutput::Scalar(Some(text("Emma."))))
    );

    // Observers and caches can be taken away.
    c.unregister_observer("all");
    c.unregister_observer("nobody");
    c.uncache_attribute(tag);
    c.uncache_attribute(tag);
    assert!(c.cached(tag).is_none());
    let last = c
        .transact(&format!("[[:db/add {} :book/tag \"long\"]]", a), 5000)
        .expect("the tag");
    assert_eq!(last.deliveries.len(), 0);
    assert_eq!(c.cached(title), Some(&c.store().cache(title)));
}

#[test]
fn a_transaction_that_is_refused_tells_nobody() {
    let mut c = library();
    let title = entid(&c, "book", "title");
    c.register_observer("titles".to_string(), vec![title]);
    c.cache_attribute(title);
    c.transact("[[:db/add \"a\" :book/title \"Emma\"]]", 3000)
        .expect("the book");
    let datoms = c.store().datoms().len();
    let next = c.store().next_tx();
    assert!(matches!(
        c.transact("[[:db/add \"a\" :book/title", 4000),
        Err(TransactionError::Parse(_))
    ));
    assert!(matches!(
        c.transact("[[:db/add \"a\" :book/pages 7]]", 4000),
        Err(TransactionError::Normalize(_))
    ));
    assert!(matches!(
        c.transact("[[:db/add \"a\" :book/title 7]]", 4000),
        Err(TransactionError::Normalize(_))
    ));
    assert_eq!(
        c.transact("[[:db/add :book/title :db/valueType :db.type/long]]", 4000),
        Err(TransactionError::Schema(SchemaFault::AlterationConflict(title)))
    );
    assert_eq!(c.store().datoms().len(), datoms);
    assert_eq!(c.store().next_tx(), next);
    assert_eq!(c.cached(title), Some(&c.store().cache(title)));
    assert_eq!(c.cached(title).map(|k| k.len()), Some(1));
}

#[test]
fn a_cardinality_change_that_does_not_fit_is_an_error_of_the_store() {
    let mut c = library();
    let tag = entid(&c, "book", "tag");
    let done = c
        .commit(
            "[[:db/add \"a\" :book/tag \"novel\"] [:db/add \"a\" :book/tag \"long\"]]",
            3000,
        )
        .expect("two values");
    let a = done.report.entids[0];
    c.cache_attribute(tag);
    let datoms = c.store().datoms().len();
    let err = c
        .commit("[[:db/add :book/tag :db/cardinality :db.cardinality/one]]", 4000)
        .unwrap_err();
    assert_eq!(
        err.kind(),
        &mentat::errors::MentatErrorKind::DbError(mentat::db::DbError {
            kind: mentat::db::DbErrorKind::SchemaAlterationConflict(tag)
        })
    );
    // The attribute still takes several values, and both values are live.
    assert_eq!(
        c.store().schema().attribute_for_entid(tag).map(|x| x.multival),
        Some(true)
    );
    assert_eq!(c.store().datoms().len(), datoms);
    assert_eq!(
        c.cached(tag).unwrap().values_of(a),
        vec![text("novel"), text("long")]
    );
}
