use mentat::schema::Schema;
use mentat::symbols::Keyword;
use mentat::transactor::cascade::cascade;
use mentat::transactor::store::Store;
use mentat::values::TypedValue;

fn text(s: &str) -> TypedValue {
    TypedValue::String(s.to_string())
}

fn entid(s: &Store, namespace: &str, name: &str) -> i64 {
    s.schema()
        .get_entid(&Keyword::namespaced(namespace, name))
        .expect("an ident")
}

fn datoms_of(s: &Store, e: i64) -> usize {
    s.datoms().iter().filter(|d| d.e == e).count()
}

/// An order with two lines, and a note that refers to the first line.
fn orders() -> (Store, i64, i64, i64, i64) {
    let mut s = Store::open(1000).0;
    s.commit_text(
        "[[:db/add \"l\" :db/ident :order/line]
          [:db/add \"l\" :db/valueType :db.type/ref]
          [:db/add \"l\" :db/cardinality :db.cardinality/many]
          [:db/add \"l\" :db/isComponent true]
          [:db/add \"i\" :db/ident :line/item]
          [:db/add \"i\" :db/valueType :db.type/string]
          [:db/add \"q\" :db/ident :line/count]
          [:db/add \"q\" :db/valueType :db.type/long]
          [:db/add \"n\" :db/ident :note/about]
          [:db/add \"n\" :db/valueType :db.type/ref]]",
        2000,
    )
    .expect("the schema");
    assert_eq!(
        s.schema()
            .attribute_for_entid(entid(&s, "order", "line"))
            .map(|a| (a.component, a.multival)),
        Some((true, true))
    );
    let done = s
        .commit_text(
            "[[:db/add \"o\" :order/line \"a\"]
              [:db/add \"o\" :order/line \"b\"]
              [:db/add \"a\" :line/item \"tea\"]
              [:db/add \"a\" :line/count 2]
              [:db/add \"b\" :line/item \"milk\"]
              [:db/add \"note\" :note/about \"a\"]]",
            3000,
        )
        .expect("the order");
    assert_eq!(
        done.tempids,
        vec![
            "o".to_string(),
            "a".to_string(),
            "b".to_string(),
            "note".to_string()
        ]
    );
    (s, done.entids[0], done.entids[1], done.entids[2], done.entids[3])
}

#[test]
fn retracting_a_component_retracts_its_datoms() {
    let (mut s, o, a, b, note) = orders();
    assert_eq!(datoms_of(&s, a), 2);
    let done = s
        .commit_text(&format!("[[:db/retract {} :order/line {}]]", o, a), 4000)
        .expect("the retraction");
    assert_eq!(datoms_of(&s, a), 0);
    assert_eq!(datoms_of(&s, b), 1);
    assert_eq!(datoms_of(&s, o), 1);
    // What refers to the component from elsewhere stays.
    assert_eq!(datoms_of(&s, note), 1);
    // The retractions are reported: the reference, the item, the count, and the instant.
    let retracted: Vec<(i64, TypedValue)> = done
        .report
        .datoms
        .iter()
        .filter(|d| !d.added)
        .map(|d| (d.e, d.v.clone()))
        .collect();
    assert_eq!(
        retracted,
        vec![
            (o, TypedValue::Ref(a)),
            (a, text("tea")),
            (a, TypedValue::Long(2))
        ]
    );
    assert_eq!(done.report.datoms.len(), 4);
}

#[test]
fn other_retractions_retract_what_they_say() {
    let (mut s, o, a, _b, note) = orders();
    // A reference that is no component.
    s.commit_text(&format!("[[:db/retract {} :note/about {}]]", note, a), 4000)
        .expect("the retraction");
    assert_eq!(datoms_of(&s, a), 2);
    assert_eq!(datoms_of(&s, note), 0);
    // A reference to a component that is not live.
    let nothing = s
        .commit_text(&format!("[[:db/retract {} :order/line {}]]", o, note), 5000)
        .expect("nothing to retract");
    assert_eq!(nothing.report.datoms.len(), 1);
    assert_eq!(datoms_of(&s, a), 2);
    // Transacting without the retractions of components.
    let plain = s
        .transact_text(&format!("[[:db/retract {} :order/line {}]]", o, a), 6000)
        .expect("the plain retraction");
    assert_eq!(plain.report.datoms.len(), 2);
    assert_eq!(datoms_of(&s, a), 2);
}

#[test]
fn forms_without_components_stay_as_they_are() {
    let (s, _, _, _, _) = orders();
    assert_eq!(cascade(s.schema(), s.datoms(), vec![]), vec![]);
    assert_eq!(cascade(&Schema::new(), &vec![], vec![]), vec![]);
}
