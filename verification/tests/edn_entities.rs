use mentat::edn::entities::{
    AttributePlace, EntidOrIdent, Entity, EntityPlace, LookupRef, OpType, TempId, TxFunction,
    ValuePlace,
};
use mentat::edn::tx_parse::entities;
use mentat::edn::types::{Span, SpannedValue, ValueAndSpan};
use mentat::symbols::{Keyword, PlainSymbol};

fn spanned(inner: SpannedValue, start: usize, end: usize) -> ValueAndSpan {
    ValueAndSpan {
        inner,
        span: Span::new(start, end),
    }
}

fn ident(ns: &str, name: &str) -> EntidOrIdent {
    EntidOrIdent::Ident(Keyword::namespaced(ns, name))
}

#[test]
fn reads_add_and_retract() {
    let input = r#"[[:db/add 101 :test/a "v"] [:db/retract 102 :test/b "w"]]"#;
    assert_eq!(
        entities(input).unwrap(),
        vec![
            Entity::AddOrRetract {
                op: OpType::Add,
                e: EntityPlace::Entid(EntidOrIdent::Entid(101)),
                a: AttributePlace::Entid(ident("test", "a")),
                v: ValuePlace::Atom(spanned(SpannedValue::Text("v".to_string()), 22, 25)),
            },
            Entity::AddOrRetract {
                op: OpType::Retract,
                e: EntityPlace::Entid(EntidOrIdent::Entid(102)),
                a: AttributePlace::Entid(ident("test", "b")),
                v: ValuePlace::Atom(spanned(SpannedValue::Text("w".to_string()), 52, 55)),
            },
        ]
    );
}

#[test]
fn reads_temporary_ids_and_idents() {
    let input = r#"[[:db/add "a" :db/ident :person/name]]"#;
    assert_eq!(
        entities(input).unwrap(),
        vec![Entity::AddOrRetract {
            op: OpType::Add,
            e: EntityPlace::TempId(TempId::External("a".to_string())),
            a: AttributePlace::Entid(ident("db", "ident")),
            v: ValuePlace::Atom(spanned(
                SpannedValue::Keyword(Keyword::namespaced("person", "name")),
                24,
                36
            )),
        }]
    );
}

#[test]
fn reads_lookup_refs_and_functions() {
    let input = r#"[[:db/add (lookup-ref :test/a1 "v1") :test/a (transaction-tx)]]"#;
    assert_eq!(
        entities(input).unwrap(),
        vec![Entity::AddOrRetract {
            op: OpType::Add,
            e: EntityPlace::LookupRef(LookupRef {
                a: AttributePlace::Entid(ident("test", "a1")),
                v: spanned(SpannedValue::Text("v1".to_string()), 31, 35),
            }),
            a: AttributePlace::Entid(ident("test", "a")),
            v: ValuePlace::TxFunction(TxFunction {
                op: PlainSymbol::plain("transaction-tx"),
            }),
        }]
    );
}

#[test]
fn backward_attribute_exchanges_entity_and_value() {
    let backward = entities("[[:db/add 1 :x/_y 2]]").unwrap();
    assert_eq!(
        backward,
        vec![Entity::AddOrRetract {
            op: OpType::Add,
            e: EntityPlace::Entid(EntidOrIdent::Entid(2)),
            a: AttributePlace::Entid(ident("x", "y")),
            v: ValuePlace::Atom(spanned(SpannedValue::Integer(1), 10, 11)),
        }]
    );
    let forward = entities("[[:db/add 2 :x/y 1]]").unwrap();
    match (&backward[0], &forward[0]) {
        (
            Entity::AddOrRetract { op, e, a, v },
            Entity::AddOrRetract {
                op: op2,
                e: e2,
                a: a2,
                v: v2,
            },
        ) => {
            assert_eq!(op, op2);
            assert_eq!(e, e2);
            assert_eq!(a, a2);
            match (v, v2) {
                (ValuePlace::Atom(x), ValuePlace::Atom(y)) => assert_eq!(x.inner, y.inner),
                _ => panic!("not atoms"),
            }
        }
        _ => panic!("not assertions"),
    }
    assert!(entities("[[:db/add 1 :x/_ 2]]").is_err());
}

#[test]
fn reads_map_notation_and_vectors() {
    let input = "[{:db/id 1 :test/many [2 3] :test/_ref 5}]";
    assert_eq!(
        entities(input).unwrap(),
        vec![Entity::MapNotation(vec![
            (
                ident("db", "id"),
                ValuePlace::Atom(spanned(SpannedValue::Integer(1), 9, 10))
            ),
            (
                ident("test", "many"),
                ValuePlace::Vector(vec![
                    ValuePlace::Atom(spanned(SpannedValue::Integer(2), 23, 24)),
                    ValuePlace::Atom(spanned(SpannedValue::Integer(3), 25, 26)),
                ])
            ),
            (
                ident("test", "_ref"),
                ValuePlace::Atom(spanned(SpannedValue::Integer(5), 39, 40))
            ),
        ])]
    );
}

#[test]
fn reads_nested_maps_as_values() {
    let input = "[[:db/add 1 :test/component {:test/a 2}]]";
    assert_eq!(
        entities(input).unwrap(),
        vec![Entity::AddOrRetract {
            op: OpType::Add,
            e: EntityPlace::Entid(EntidOrIdent::Entid(1)),
            a: AttributePlace::Entid(ident("test", "component")),
            v: ValuePlace::MapNotation(vec![(
                ident("test", "a"),
                ValuePlace::Atom(spanned(SpannedValue::Integer(2), 37, 38))
            )]),
        }]
    );
}

#[test]
fn empty_transaction_and_blanks() {
    assert_eq!(entities("[]").unwrap(), vec![]);
    assert_eq!(entities(" ; nothing to do\n [ ] ").unwrap(), vec![]);
}

#[test]
fn refuses_what_is_no_transaction() {
    assert!(entities("").is_err());
    assert!(entities("[[:db/add 1 :test/a]]").is_err());
    assert!(entities("[[:db/bad 1 :test/a 2]]").is_err());
    assert!(entities("[[:db/add 1 :plain 2]]").is_err());
    assert!(entities("[[:db/add 1 :test/a (1 2)]]").is_err());
    let e = entities("[[:db/add 1 :test/a 2]\n [oops]]").unwrap_err();
    assert_eq!(e.location.line, 2);
    assert_eq!(e.location.column, 2);
    assert_eq!(e.location.offset, 24);
    let e = entities("[] x").unwrap_err();
    assert_eq!(e.location.offset, 3);
}
