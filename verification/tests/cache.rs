use mentat::symbols::Keyword;
use mentat::transactor::cache::AttributeCache;
use mentat::transactor::store::Store;
use mentat::values::TypedValue;

fn text(s: &str) -> TypedValue {
    TypedValue::String(s.to_string())
}

fn entid(s: &Store, namespace: &str, name: &str) -> i64 {
    s.schema()
        .get_entid(&Keyword::namespaced(namespace, name))
        .expect("an ident")
}

fn library() -> Store {
    let mut s = Store::open(1000).0;
    s.commit_text(
        "[[:db/add \"t\" :db/ident :book/title]
          [:db/add \"t\" :db/valueType :db.type/string]
          [:db/add \"g\" :db/ident :book/tag]
          [:db/add \"g\" :db/valueType :db.type/string]
          [:db/add \"g\" :db/cardinality :db.cardinality/many]]",
        2000,
    )
    .expect("the schema");
    s
}

#[test]
fn a_cache_is_filled_from_the_live_datoms() {
    let mut s = library();
    let done = s
        .commit_text(
            "[[:db/add \"a\" :book/title \"Emma\"]
              [:db/add \"b\" :book/title \"Ulysses\"]
              [:db/add \"a\" :book/tag \"novel\"]
              [:db/add \"b\" :book/tag \"novel\"]
              [:db/add \"b\" :book/tag \"long\"]]",
            3000,
        )
        .expect("the books");
    let (a, b) = (done.entids[0], done.entids[1]);
    let title = entid(&s, "book", "title");
    let tag = entid(&s, "book", "tag");
    let titles = s.cache(title);
    assert_eq!(titles.attribute(), title);
    assert_eq!(titles.len(), 2);
    assert_eq!(titles.values_of(a), vec![text("Emma")]);
    assert_eq!(titles.values_of(b), vec![text("Ulysses")]);
    assert_eq!(titles.values_of(a + 100), vec![]);
    assert_eq!(titles.entities_with(&text("Emma")), vec![a]);
    assert_eq!(titles.entities_with(&text("Persuasion")), vec![]);
    let tags = s.cache(tag);
    assert_eq!(tags.len(), 3);
    assert_eq!(tags.values_of(b), vec![text("novel"), text("long")]);
    assert_eq!(tags.entities_with(&text("novel")), vec![a, b]);
    assert_eq!(AttributeCache::fill(tag, s.datoms()), tags);
    assert_eq!(AttributeCache::fill(tag, &vec![]).len(), 0);
}

#[test]
fn a_cache_that_replays_what_was_written_holds_what_is_live() {
    let mut s = library();
    let title = entid(&s, "book", "title");
    let tag = entid(&s, "book", "tag");
    let mut titles = s.cache(title);
    let mut tags = s.cache(tag);
    assert_eq!(titles.len(), 0);
    let texts = [
        "[[:db/add \"a\" :book/title \"Emma\"] [:db/add \"a\" :book/tag \"novel\"]]",
        "[[:db/add \"b\" :book/title \"Ulysses\"] [:db/add \"b\" :book/tag \"novel\"]]",
        // Another title takes the place of the first.
        "[[:db/add 65538 :book/title \"Emma, a novel\"] [:db/add 65538 :book/tag \"long\"]]",
        "[[:db/retract 65538 :book/tag \"novel\"]]",
        // A retraction of what is not live, and an assertion of what is.
        "[[:db/retract 65538 :book/tag \"short\"] [:db/add 65539 :book/tag \"novel\"]]",
        "[[:db/retract 65539 :book/title \"Ulysses\"] [:db/add 65539 :book/title \"Dubliners\"]]",
        "[]",
    ];
    let mut instant = 3000;
    for t in texts.iter() {
        let done = s.commit_text(t, instant).expect("a transaction");
        instant += 1000;
        titles.replay(&done.report.datoms);
        tags.replay(&done.report.datoms);
        assert_eq!(titles, s.cache(title));
        assert_eq!(tags, s.cache(tag));
    }
    assert_eq!(titles.values_of(65538), vec![text("Emma, a novel")]);
    assert_eq!(titles.values_of(65539), vec![text("Dubliners")]);
    assert_eq!(tags.values_of(65538), vec![text("long")]);
    assert_eq!(tags.entities_with(&text("novel")), vec![65539]);
}

#[test]
fn a_cache_of_the_idents_follows_the_schema() {
    let mut s = Store::open(1000).0;
    let mut idents = s.cache(mentat::db::DB_IDENT);
    assert_eq!(idents.len(), 26);
    assert_eq!(
        idents.entities_with(&TypedValue::Keyword(Keyword::namespaced("db", "txInstant"))),
        vec![mentat::db::DB_TX_INSTANT]
    );
    let done = s
        .commit_text(
            "[[:db/add \"t\" :db/ident :book/title] [:db/add \"t\" :db/valueType :db.type/string]]",
            2000,
        )
        .expect("the schema");
    idents.replay(&done.report.datoms);
    assert_eq!(idents, s.cache(mentat::db::DB_IDENT));
    assert_eq!(
        idents.entities_with(&TypedValue::Keyword(Keyword::namespaced("book", "title"))),
        vec![done.entids[0]]
    );
}
