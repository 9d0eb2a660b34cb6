use mentat::edn::query_parse::parse_query;
use mentat::query::answers::{ClauseFault, QueryFault, QueryOutput};
use mentat::query::run::QueryError;
use mentat::transactor::store::Store;
use mentat::values::TypedValue;

fn text(s: &str) -> TypedValue {
    TypedValue::String(s.to_string())
}

fn long(n: i64) -> TypedValue {
    TypedValue::Long(n)
}

/// Three people: the names, ages and friends of Ada, Bob and Cy.
fn people() -> (Store, i64, i64, i64) {
    let mut s = Store::open(1000).0;
    s.commit_text(
        "[[:db/add \"n\" :db/ident :person/name]
          [:db/add \"n\" :db/valueType :db.type/string]
          [:db/add \"a\" :db/ident :person/age]
          [:db/add \"a\" :db/valueType :db.type/long]
          [:db/add \"f\" :db/ident :person/friend]
          [:db/add \"f\" :db/valueType :db.type/ref]
          [:db/add \"f\" :db/cardinality :db.cardinality/many]
          [:db/add \"l\" :db/ident :person/likes]
          [:db/add \"l\" :db/valueType :db.type/keyword]
          [:db/add \"l\" :db/cardinality :db.cardinality/many]]",
        2000,
    )
    .expect("the schema");
    let done = s
        .commit_text(
            "[[:db/add \"ada\" :person/name \"Ada\"]
              [:db/add \"ada\" :person/age 36]
              [:db/add \"bob\" :person/name \"Bob\"]
              [:db/add \"bob\" :person/age 20]
              [:db/add \"cy\" :person/name \"Cy\"]
              [:db/add \"cy\" :person/age 36]
              [:db/add \"ada\" :person/friend \"bob\"]
              [:db/add \"ada\" :person/friend \"cy\"]
              [:db/add \"bob\" :person/friend \"ada\"]
              [:db/add \"ada\" :person/likes :food/tea]
              [:db/add \"bob\" :person/likes :food/tea]
              [:db/add \"bob\" :person/likes :person/name]]",
            3000,
        )
        .expect("the people");
    assert_eq!(
        done.tempids,
        vec!["ada".to_string(), "bob".to_string(), "cy".to_string()]
    );
    (s, done.entids[0], done.entids[1], done.entids[2])
}

fn ask(s: &Store, query: &str) -> QueryOutput {
    s.query_text(query, &vec![]).expect("an answer")
}

#[test]
fn finds_rows_in_the_order_of_the_datoms() {
    let (s, ada, bob, cy) = people();
    assert_eq!(
        ask(&s, "[:find ?e ?n :where [?e :person/name ?n]]"),
        QueryOutput::Rel(vec![
            vec![TypedValue::Ref(ada), text("Ada")],
            vec![TypedValue::Ref(bob), text("Bob")],
            vec![TypedValue::Ref(cy), text("Cy")],
        ])
    );
    assert_eq!(
        ask(&s, "[:find [?n ...] :where [_ :person/name ?n]]"),
        QueryOutput::Coll(vec![text("Ada"), text("Bob"), text("Cy")])
    );
    assert_eq!(
        ask(&s, "[:find [?e ?n] :where [?e :person/name ?n]]"),
        QueryOutput::Tuple(Some(vec![TypedValue::Ref(ada), text("Ada")]))
    );
    assert_eq!(
        ask(&s, "[:find ?n . :where [_ :person/name ?n]]"),
        QueryOutput::Scalar(Some(text("Ada")))
    );
}

#[test]
fn finds_nothing_where_nothing_matches() {
    let (s, _, _, _) = people();
    assert_eq!(
        ask(&s, "[:find ?e ?n :where [?e :person/name \"Dee\"] [?e :person/age ?n]]"),
        QueryOutput::Rel(vec![])
    );
    assert_eq!(
        ask(&s, "[:find [?e ...] :where [?e :person/name \"Dee\"]]"),
        QueryOutput::Coll(vec![])
    );
    assert_eq!(
        ask(&s, "[:find [?e ?n] :where [?e :person/name ?n] [(> 1 2)]]"),
        QueryOutput::Tuple(None)
    );
    assert_eq!(
        ask(&s, "[:find ?e . :where [?e :person/unknown _]]"),
        QueryOutput::Scalar(None)
    );
}

#[test]
fn each_row_comes_once() {
    let (s, _, _, _) = people();
    assert_eq!(
        ask(&s, "[:find [?a ...] :where [_ :person/age ?a]]"),
        QueryOutput::Coll(vec![long(36), long(20)])
    );
    assert_eq!(
        ask(&s, "[:find ?a ?b :where [?x :person/age ?a] [?y :person/age ?b] [(< ?a ?b)]]"),
        QueryOutput::Rel(vec![vec![long(20), long(36)]])
    );
}

#[test]
fn patterns_join_on_their_variables() {
    let (s, ada, bob, cy) = people();
    // The names of the friends of Ada.
    assert_eq!(
        ask(
            &s,
            "[:find [?n ...] :where [?a :person/name \"Ada\"] [?a :person/friend ?f] [?f :person/name ?n]]"
        ),
        QueryOutput::Coll(vec![text("Bob"), text("Cy")])
    );
    // Friends both ways.
    assert_eq!(
        ask(
            &s,
            "[:find ?x ?y :where [?x :person/friend ?y] [?y :person/friend ?x]]"
        ),
        QueryOutput::Rel(vec![
            vec![TypedValue::Ref(ada), TypedValue::Ref(bob)],
            vec![TypedValue::Ref(bob), TypedValue::Ref(ada)],
        ])
    );
    // A reversed attribute is the forward one turned around.
    assert_eq!(
        ask(&s, "[:find [?x ...] :where [?c :person/name \"Cy\"] [?c :person/_friend ?x]]"),
        QueryOutput::Coll(vec![TypedValue::Ref(ada)])
    );
    // One variable twice in a pattern: nobody is their own friend.
    assert_eq!(
        ask(&s, "[:find [?x ...] :where [?x :person/friend ?x]]"),
        QueryOutput::Coll(vec![])
    );
    // Two people of the same age.
    assert_eq!(
        ask(
            &s,
            "[:find ?x ?y :where [?x :person/age ?a] [?y :person/age ?a] [?x :person/friend ?y]]"
        ),
        QueryOutput::Rel(vec![vec![TypedValue::Ref(ada), TypedValue::Ref(cy)]])
    );
}

#[test]
fn constants_stand_for_the_values_they_can_be() {
    let (s, ada, bob, _) = people();
    // An integer is a long, and a reference.
    assert_eq!(
        ask(&s, "[:find [?e ...] :where [?e :person/age 20]]"),
        QueryOutput::Coll(vec![TypedValue::Ref(bob)])
    );
    assert_eq!(
        ask(&s, &format!("[:find [?e ...] :where [?e :person/friend {}]]", bob)),
        QueryOutput::Coll(vec![TypedValue::Ref(ada)])
    );
    // An entity by its id, and an attribute by its id.
    let name = s
        .schema()
        .get_entid(&mentat::symbols::Keyword::namespaced("person", "name"))
        .unwrap();
    assert_eq!(
        ask(&s, &format!("[:find ?n . :where [{} {} ?n]]", ada, name)),
        QueryOutput::Scalar(Some(text("Ada")))
    );
    // A keyword is itself, and a reference to the entity that it names.
    assert_eq!(
        ask(&s, "[:find [?e ...] :where [?e :person/likes :food/tea]]"),
        QueryOutput::Coll(vec![TypedValue::Ref(ada), TypedValue::Ref(bob)])
    );
    assert_eq!(
        ask(&s, "[:find [?e ...] :where [?e :db/valueType :db.type/keyword]]"),
        QueryOutput::Coll(vec![
            TypedValue::Ref(mentat::db::DB_IDENT),
            TypedValue::Ref(s.schema()
                .get_entid(&mentat::symbols::Keyword::namespaced("person", "likes"))
                .unwrap()),
        ])
    );
    // An attribute can be a variable.
    assert_eq!(
        ask(&s, "[:find [?a ...] :where [_ ?a \"Bob\"]]"),
        QueryOutput::Coll(vec![TypedValue::Ref(name)])
    );
    // Booleans.
    assert_eq!(
        ask(&s, "[:find [?e ...] :where [?e :db/index true]]"),
        QueryOutput::Coll(vec![
            TypedValue::Ref(mentat::db::DB_IDENT),
            TypedValue::Ref(mentat::db::DB_TX_INSTANT)
        ])
    );
}

#[test]
fn the_transaction_of_a_datom_can_be_asked_for() {
    let (s, ada, _, _) = people();
    let tx0 = mentat::db::TX0;
    assert_eq!(
        ask(&s, "[:find ?t . :where [_ :person/name \"Ada\" ?t]]"),
        QueryOutput::Scalar(Some(TypedValue::Ref(tx0 + 2)))
    );
    assert_eq!(
        ask(&s, "[:find ?i . :where [_ :person/name \"Ada\" ?t] [?t :db/txInstant ?i]]"),
        QueryOutput::Scalar(Some(TypedValue::Instant(3000)))
    );
    assert_eq!(
        ask(
            &s,
            &format!("[:find [?e ...] :where [?e :person/name _ {}]]", tx0 + 2)
        )
        .clone_len(),
        3
    );
    assert_eq!(
        ask(&s, &format!("[:find [?e ...] :where [?e :person/age 36 {}]]", tx0 + 1)),
        QueryOutput::Coll(vec![])
    );
    let _ = ada;
}

trait Len {
    fn clone_len(&self) -> usize;
}

impl Len for QueryOutput {
    fn clone_len(&self) -> usize {
        match self {
            QueryOutput::Coll(values) => values.len(),
            QueryOutput::Rel(rows) => rows.len(),
            QueryOutput::Scalar(v) => v.iter().count(),
            QueryOutput::Tuple(row) => row.iter().count(),
        }
    }
}

#[test]
fn comparisons() {
    let (s, ada, bob, cy) = people();
    let who = |op: &str, n: i64| {
        ask(
            &s,
            &format!("[:find [?e ...] :where [?e :person/age ?a] [({} ?a {})]]", op, n),
        )
    };
    let refs = |es: Vec<i64>| QueryOutput::Coll(es.into_iter().map(TypedValue::Ref).collect());
    assert_eq!(who("<", 36), refs(vec![bob]));
    assert_eq!(who("<=", 36), refs(vec![ada, bob, cy]));
    assert_eq!(who(">", 20), refs(vec![ada, cy]));
    assert_eq!(who(">=", 37), refs(vec![]));
    assert_eq!(who("=", 20), refs(vec![bob]));
    assert_eq!(who("!=", 20), refs(vec![ada, cy]));
    // A value that is no long is not compared.
    assert_eq!(
        ask(&s, "[:find [?e ...] :where [?e :person/name ?n] [(< ?n 5)]]"),
        QueryOutput::Coll(vec![])
    );
}

#[test]
fn inputs_bind_the_variables_of_the_query() {
    let (s, ada, bob, _) = people();
    assert_eq!(
        s.query_text(
            "[:find ?n . :in $ ?p :where [?p :person/name ?n]]",
            &vec![TypedValue::Ref(bob)]
        ),
        Ok(QueryOutput::Scalar(Some(text("Bob"))))
    );
    assert_eq!(
        s.query_text(
            "[:find [?e ...] :in ?least ?n :where [?e :person/age ?a] [(>= ?a ?least)] [?e :person/name ?n]]",
            &vec![long(30), text("Ada")]
        ),
        Ok(QueryOutput::Coll(vec![TypedValue::Ref(ada)]))
    );
    // An input that no clause speaks of can be found.
    assert_eq!(
        s.query_text("[:find ?x . :in ?x :where [_ :person/name _]]", &vec![long(7)]),
        Ok(QueryOutput::Scalar(Some(long(7))))
    );
    assert_eq!(
        s.query_text("[:find ?n . :in $ ?p :where [?p :person/name ?n]]", &vec![]),
        Err(QueryError::Fault(QueryFault::Inputs))
    );
    assert_eq!(
        s.query_text(
            "[:find ?n . :where [?p :person/name ?n]]",
            &vec![TypedValue::Ref(bob)]
        ),
        Err(QueryError::Fault(QueryFault::Inputs))
    );
}

#[test]
fn queries_that_are_not_answered() {
    let (s, _, _, _) = people();
    let fault = |q: &str| match s.query_text(q, &vec![]) {
        Err(QueryError::Fault(f)) => f,
        other => panic!("no fault: {:?}", other),
    };
    assert_eq!(
        fault("[:find ?e :where [?e :person/age ?a] [(> ?b 30)]]"),
        QueryFault::Clause(1, ClauseFault::UnboundVariable)
    );
    assert_eq!(
        fault("[:find ?e :where [(> ?a 30)] [?e :person/age ?a]]"),
        QueryFault::Clause(0, ClauseFault::UnboundVariable)
    );
    assert_eq!(
        fault("[:find ?e :where [?e :person/age ?a] [(near ?a 30)]]"),
        QueryFault::Clause(1, ClauseFault::UnknownFunction)
    );
    assert_eq!(
        fault("[:find ?e :where [?e :person/age ?a] [(> ?a 30 40)]]"),
        QueryFault::Clause(1, ClauseFault::BadArguments)
    );
    assert_eq!(
        fault("[:find ?e :where [?e :person/age ?a] [(> ?a \"x\")]]"),
        QueryFault::Clause(1, ClauseFault::BadArguments)
    );
    assert_eq!(
        fault("[:find ?e :where [?e :person/age ?a] (not [?e :person/name \"Ada\"])]"),
        QueryFault::Clause(1, ClauseFault::NotAnswered)
    );
    assert_eq!(fault("[:find ?x :where [?e :person/age ?a]]"), QueryFault::Find);
    assert_eq!(
        fault("[:find (max ?a) :where [?e :person/age ?a]]"),
        QueryFault::Find
    );
    assert_eq!(
        fault("[:find ?e :in ?n :where [?e :person/age ?a] :limit ?n]"),
        QueryFault::Section
    );
    assert_eq!(
        fault("[:find ?e :with ?a :where [?e :person/age ?a]]"),
        QueryFault::Section
    );
    assert_eq!(
        fault("[:find ?e :where [?e :person/age ?a] :order ?a]"),
        QueryFault::Section
    );
    assert!(matches!(
        s.query_text("[:find ?e :where", &vec![]),
        Err(QueryError::Parse(_))
    ));
}

#[test]
fn a_query_that_was_read_is_answered_as_its_text() {
    let (s, _, _, _) = people();
    let text = "[:find ?e ?a :where [?e :person/age ?a] [(>= ?a 30)]]";
    let query = parse_query(text).expect("a query");
    assert_eq!(s.query(&query, &vec![]).ok(), s.query_text(text, &vec![]).ok());
}

#[test]
fn a_limit_gives_the_first_rows() {
    let (s, ada, bob, cy) = people();
    let rows = |n: usize| {
        ask(
            &s,
            &format!("[:find ?e ?n :where [?e :person/name ?n] :limit {}]", n),
        )
    };
    let all = vec![
        vec![TypedValue::Ref(ada), text("Ada")],
        vec![TypedValue::Ref(bob), text("Bob")],
        vec![TypedValue::Ref(cy), text("Cy")],
    ];
    assert_eq!(rows(1), QueryOutput::Rel(all[..1].to_vec()));
    assert_eq!(rows(2), QueryOutput::Rel(all[..2].to_vec()));
    assert_eq!(rows(3), QueryOutput::Rel(all.clone()));
    assert_eq!(rows(9), QueryOutput::Rel(all.clone()));
    // The limit counts rows after each row is taken once.
    assert_eq!(
        ask(&s, "[:find [?a ...] :where [_ :person/age ?a] :limit 2]"),
        QueryOutput::Coll(vec![long(36), long(20)])
    );
    assert_eq!(
        ask(&s, "[:find [?a ...] :where [_ :person/age ?a] :limit 1]"),
        QueryOutput::Coll(vec![long(36)])
    );
}
