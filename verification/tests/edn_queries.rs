use mentat::edn::clauses::{
    Aggregate, Binding, Direction, Element, FindSpec, Limit, NamedPullAttribute, NotJoin, OrJoin,
    OrWhereClause, Order, ParsedQuery, Predicate, Pull, PullAttributeSpec, PullConcreteAttribute,
    QueryFunction, QueryPart, QueryPartsError, Section, TypeAnnotation, UnifyVars,
    VariableOrPlaceholder, WhereClause, WhereFn,
};
use mentat::edn::query::{
    FnArg, NonIntegerConstant, Pattern, PatternNonValuePlace, PatternValuePlace, SrcVar, Variable,
};
use mentat::edn::query_parse::parse_query;
use mentat::symbols::{Keyword, PlainSymbol};

fn var(name: &str) -> Variable {
    Variable::from_valid_name(name)
}

fn pattern(e: &str, ns: &str, name: &str, v: PatternValuePlace) -> WhereClause {
    WhereClause::Pattern(Pattern {
        source: None,
        entity: PatternNonValuePlace::Variable(var(e)),
        attribute: PatternNonValuePlace::Ident(Keyword::namespaced(ns, name)),
        value: v,
        tx: PatternNonValuePlace::Placeholder,
    })
}

#[test]
fn test_var() {
    let foo_baz = var("?foo_baz");
    let vu = var("?vü");
    assert_eq!(foo_baz, Variable::from_valid_name("?foo_baz"));
    assert_eq!(vu, Variable::from_valid_name("?vü"));
    assert_eq!(foo_baz.as_str(), "?foo_baz");
}

#[test]
fn reads_scalar_find() {
    let q = parse_query("[:find ?e . :where [?e :db/ident :db/ident]]").unwrap();
    assert_eq!(q.find_spec, FindSpec::FindScalar(Element::Variable(var("?e"))));
    assert_eq!(
        q.where_clauses,
        vec![pattern(
            "?e",
            "db",
            "ident",
            PatternValuePlace::IdentOrKeyword(Keyword::namespaced("db", "ident"))
        )]
    );
    assert_eq!(q.limit, Limit::Unlimited);
    assert_eq!(q.order, None);
    assert_eq!(q.in_vars, vec![]);
    assert_eq!(q.with, vec![]);
    assert_eq!(q.default_source, SrcVar::DefaultSrc);
}

#[test]
fn reads_inputs_with_a_source() {
    let q = parse_query("[:find ?n . :in $ ?p :where [?p :person/name ?n]]").unwrap();
    assert_eq!(q.find_spec, FindSpec::FindScalar(Element::Variable(var("?n"))));
    assert_eq!(q.in_vars, vec![var("?p")]);
    assert_eq!(q.in_sources, vec![SrcVar::DefaultSrc]);
    assert_eq!(
        q.where_clauses,
        vec![pattern(
            "?p",
            "person",
            "name",
            PatternValuePlace::Variable(var("?n"))
        )]
    );
}

#[test]
fn reads_collection_find_with_predicate() {
    let q = parse_query("[:find [?e ...] :where [?e :age ?a] [(> ?a 30)]]");
    // A keyword without a namespace is no attribute of a pattern's value, but
    // it is one of its attribute place.
    let q = q.unwrap();
    assert_eq!(q.find_spec, FindSpec::FindColl(Element::Variable(var("?e"))));
    assert_eq!(
        q.where_clauses,
        vec![
            WhereClause::Pattern(Pattern {
                source: None,
                entity: PatternNonValuePlace::Variable(var("?e")),
                attribute: PatternNonValuePlace::Ident(Keyword::plain("age")),
                value: PatternValuePlace::Variable(var("?a")),
                tx: PatternNonValuePlace::Placeholder,
            }),
            WhereClause::Pred(Predicate {
                operator: PlainSymbol::plain(">"),
                args: vec![FnArg::Variable(var("?a")), FnArg::EntidOrInteger(30)],
            }),
        ]
    );
}

#[test]
fn reads_relation_and_tuple_find() {
    let q = parse_query("[:find ?x ?y :where [?x :foo/bar ?y]]").unwrap();
    assert_eq!(
        q.find_spec,
        FindSpec::FindRel(vec![
            Element::Variable(var("?x")),
            Element::Variable(var("?y"))
        ])
    );
    let q = parse_query("[:find [?x ?y] :where [?x :foo/bar ?y]]").unwrap();
    assert_eq!(
        q.find_spec,
        FindSpec::FindTuple(vec![
            Element::Variable(var("?x")),
            Element::Variable(var("?y"))
        ])
    );
}

#[test]
fn reads_aggregates_pulls_and_the() {
    let q = parse_query(
        "[:find (max ?x) (the ?y) (pull ?z [:foo/bar :as :baz * :foo/quux]) :where [?x :foo/bar ?y ?z]]",
    )
    .unwrap();
    assert_eq!(
        q.find_spec,
        FindSpec::FindRel(vec![
            Element::Aggregate(Aggregate {
                func: QueryFunction(PlainSymbol::plain("max")),
                args: vec![FnArg::Variable(var("?x"))],
            }),
            Element::Corresponding(var("?y")),
            Element::Pull(Pull {
                var: var("?z"),
                patterns: vec![
                    PullAttributeSpec::Attribute(NamedPullAttribute {
                        attribute: PullConcreteAttribute::Ident(Keyword::namespaced("foo", "bar")),
                        alias: Some(Keyword::plain("baz")),
                    }),
                    PullAttributeSpec::Wildcard,
                    PullAttributeSpec::Attribute(NamedPullAttribute {
                        attribute: PullConcreteAttribute::Ident(Keyword::namespaced(
                            "foo", "quux"
                        )),
                        alias: None,
                    }),
                ],
            }),
        ])
    );
    assert_eq!(
        q.where_clauses,
        vec![WhereClause::Pattern(Pattern {
            source: None,
            entity: PatternNonValuePlace::Variable(var("?x")),
            attribute: PatternNonValuePlace::Ident(Keyword::namespaced("foo", "bar")),
            value: PatternValuePlace::Variable(var("?y")),
            tx: PatternNonValuePlace::Variable(var("?z")),
        })]
    );
}

#[test]
fn reads_limit_order_and_with() {
    let q = parse_query(
        "[:find ?x :with ?w :where [?x :foo/bar ?w] :order (desc ?x) ?w (asc ?x) :limit 10]",
    )
    .unwrap();
    assert_eq!(q.with, vec![var("?w")]);
    assert_eq!(q.limit, Limit::Fixed(10));
    assert_eq!(
        q.order,
        Some(vec![
            Order(Direction::Descending, var("?x")),
            Order(Direction::Ascending, var("?w")),
            Order(Direction::Ascending, var("?x")),
        ])
    );
    let q = parse_query("[:find ?x :where [?x :foo/bar 1] :limit ?n]").unwrap();
    assert_eq!(q.limit, Limit::Variable(var("?n")));
    assert!(parse_query("[:find ?x :where [?x :foo/bar 1] :limit 0]").is_err());
    assert!(parse_query("[:find ?x :where [?x :foo/bar 1] :limit -3]").is_err());
}

#[test]
fn reversed_attribute_turns_the_pattern_around() {
    let backward = parse_query("[:find ?x :where [?x :foo/_bar ?y]]").unwrap();
    let forward = parse_query("[:find ?x :where [?y :foo/bar ?x]]").unwrap();
    assert_eq!(backward.where_clauses, forward.where_clauses);
    assert!(parse_query("[:find ?x :where [?x :foo/_bar 23.4]]").is_err());
    assert!(parse_query("[:find ?x :where [?x :foo/_bar \"text\"]]").is_err());
}

#[test]
fn reads_constants_and_sources_in_patterns() {
    let q = parse_query("[:find ?x :where [$b ?x :foo/bar \"v\" 42] [_ 17 true]]").unwrap();
    assert_eq!(
        q.where_clauses,
        vec![
            WhereClause::Pattern(Pattern {
                source: Some(SrcVar::NamedSrc("b".to_string())),
                entity: PatternNonValuePlace::Variable(var("?x")),
                attribute: PatternNonValuePlace::Ident(Keyword::namespaced("foo", "bar")),
                value: PatternValuePlace::Constant(NonIntegerConstant::Text("v".to_string())),
                tx: PatternNonValuePlace::Entid(42),
            }),
            WhereClause::Pattern(Pattern {
                source: None,
                entity: PatternNonValuePlace::Placeholder,
                attribute: PatternNonValuePlace::Entid(17),
                value: PatternValuePlace::Constant(NonIntegerConstant::Boolean(true)),
                tx: PatternNonValuePlace::Placeholder,
            }),
        ]
    );
}

#[test]
fn reads_or_and_not() {
    let q = parse_query(
        "[:find ?x :where (or [?x :foo/a 1] (and [?x :foo/b 2] [?x :foo/c 3])) (not [?x :foo/d 4]) (or-join [?x] [?x :foo/e ?y]) (not-join [?x ?y] [?x :foo/f ?y])]",
    )
    .unwrap();
    let p = |name: &str, v: PatternValuePlace| pattern("?x", "foo", name, v);
    assert_eq!(
        q.where_clauses,
        vec![
            WhereClause::OrJoin(OrJoin {
                unify_vars: UnifyVars::Implicit,
                clauses: vec![
                    OrWhereClause::Clause(p("a", PatternValuePlace::EntidOrInteger(1))),
                    OrWhereClause::And(vec![
                        p("b", PatternValuePlace::EntidOrInteger(2)),
                        p("c", PatternValuePlace::EntidOrInteger(3)),
                    ]),
                ],
            }),
            WhereClause::NotJoin(NotJoin {
                unify_vars: UnifyVars::Implicit,
                clauses: vec![p("d", PatternValuePlace::EntidOrInteger(4))],
            }),
            WhereClause::OrJoin(OrJoin {
                unify_vars: UnifyVars::Explicit(vec![var("?x")]),
                clauses: vec![OrWhereClause::Clause(p(
                    "e",
                    PatternValuePlace::Variable(var("?y"))
                ))],
            }),
            WhereClause::NotJoin(NotJoin {
                unify_vars: UnifyVars::Explicit(vec![var("?x"), var("?y")]),
                clauses: vec![p("f", PatternValuePlace::Variable(var("?y")))],
            }),
        ]
    );
    assert!(parse_query("[:find ?x :where (or-join [?x ?x] [?x :foo/e ?y])]").is_err());
}

#[test]
fn reads_type_annotations_and_functions() {
    let q = parse_query(
        "[:find ?x :where [(type ?x :db.type/string)] [(fulltext $ :foo/text \"term\") [[?x _ ?score]]] [(ground [1 2]) [?a ...]] [(f) [?b _]] [(g ?x) ?c]]",
    )
    .unwrap();
    assert_eq!(
        q.where_clauses,
        vec![
            WhereClause::TypeAnnotation(TypeAnnotation {
                value_type: Keyword::namespaced("db.type", "string"),
                variable: var("?x"),
            }),
            WhereClause::WhereFn(WhereFn {
                operator: PlainSymbol::plain("fulltext"),
                args: vec![
                    FnArg::SrcVar(SrcVar::DefaultSrc),
                    FnArg::IdentOrKeyword(Keyword::namespaced("foo", "text")),
                    FnArg::Constant(NonIntegerConstant::Text("term".to_string())),
                ],
                binding: Binding::BindRel(vec![
                    VariableOrPlaceholder::Variable(var("?x")),
                    VariableOrPlaceholder::Placeholder,
                    VariableOrPlaceholder::Variable(var("?score")),
                ]),
            }),
            WhereClause::WhereFn(WhereFn {
                operator: PlainSymbol::plain("ground"),
                args: vec![FnArg::Vector(vec![
                    FnArg::EntidOrInteger(1),
                    FnArg::EntidOrInteger(2)
                ])],
                binding: Binding::BindColl(var("?a")),
            }),
            WhereClause::WhereFn(WhereFn {
                operator: PlainSymbol::plain("f"),
                args: vec![],
                binding: Binding::BindTuple(vec![
                    VariableOrPlaceholder::Variable(var("?b")),
                    VariableOrPlaceholder::Placeholder,
                ]),
            }),
            WhereClause::WhereFn(WhereFn {
                operator: PlainSymbol::plain("g"),
                args: vec![FnArg::Variable(var("?x"))],
                binding: Binding::BindScalar(var("?c")),
            }),
        ]
    );
}

#[test]
fn sections_must_be_complete_and_single() {
    assert!(parse_query("[:find ?x]").is_err());
    assert!(parse_query("[:where [?x :foo/bar 1]]").is_err());
    assert!(parse_query("[:find ?x :find ?y :where [?x :foo/bar ?y]]").is_err());
    assert!(parse_query("[]").is_err());
    assert!(parse_query("[:find ?x :where [?x :foo/bar 1]] trailing").is_err());
    assert_eq!(
        ParsedQuery::from_parts(vec![QueryPart::Limit(Limit::Fixed(1))]),
        Err(QueryPartsError::ExpectedFind)
    );
    assert_eq!(
        ParsedQuery::from_parts(vec![QueryPart::FindSpec(FindSpec::FindScalar(
            Element::Variable(var("?x"))
        ))]),
        Err(QueryPartsError::ExpectedWhere)
    );
    assert_eq!(
        ParsedQuery::from_parts(vec![
            QueryPart::WithVars(vec![]),
            QueryPart::Limit(Limit::Fixed(1)),
            QueryPart::Limit(Limit::Fixed(2)),
            QueryPart::WithVars(vec![]),
        ]),
        Err(QueryPartsError::Repeated(Section::Limit))
    );
}
