use mentat::schema::{Attribute, AttributeBuilder, AttributeFault, Schema, Unique};
use mentat::symbols::Keyword;
use mentat::values::ValueType;

#[test]
fn builder_sets_what_it_is_told() {
    let a = AttributeBuilder::new()
        .value_type(ValueType::String)
        .multival(true)
        .unique(Unique::Value)
        .fulltext(true)
        .no_history(true)
        .build()
        .unwrap();
    assert_eq!(
        a,
        Attribute {
            value_type: ValueType::String,
            multival: true,
            unique: Some(Unique::Value),
            index: true,
            fulltext: true,
            component: false,
            no_history: true,
        }
    );
    let b = AttributeBuilder::new()
        .value_type(ValueType::Ref)
        .component(true)
        .build()
        .unwrap();
    assert!(b.component && !b.multival && !b.index);
    assert_eq!(AttributeBuilder::new().multival(true).build(), None);
}

#[test]
fn builder_refuses_what_breaks_the_rules() {
    let base = AttributeBuilder::new().value_type(ValueType::Long);
    assert_eq!(base.multival(true).unique(Unique::Identity).build(), None);
    assert_eq!(base.fulltext(true).build(), None);
    assert_eq!(base.component(true).build(), None);
    assert_eq!(base.unique(Unique::Value).index(false).build(), None);
    assert!(base.unique(Unique::Identity).non_unique().build().is_some());
}

#[test]
fn the_first_broken_rule_is_named() {
    let a = |value_type, multival, unique, index, fulltext, component| Attribute {
        value_type,
        multival,
        unique,
        index,
        fulltext,
        component,
        no_history: false,
    };
    assert_eq!(
        a(ValueType::String, true, Some(Unique::Identity), false, true, true).validate(),
        Err(AttributeFault::ManyWithUniqueIdentity)
    );
    assert_eq!(
        a(ValueType::String, true, Some(Unique::Value), false, true, true).validate(),
        Err(AttributeFault::UniqueWithoutIndex)
    );
    assert_eq!(
        a(ValueType::Long, false, None, true, true, false).validate(),
        Err(AttributeFault::FulltextOnNonString)
    );
    assert_eq!(
        a(ValueType::String, false, None, false, true, false).validate(),
        Err(AttributeFault::FulltextWithoutIndex)
    );
    assert_eq!(
        a(ValueType::String, false, None, false, false, true).validate(),
        Err(AttributeFault::ComponentOnNonRef)
    );
    assert_eq!(
        a(ValueType::Ref, true, Some(Unique::Value), true, false, true).validate(),
        Ok(())
    );
}

#[test]
fn idents_and_entities_go_one_to_one() {
    let mut s = Schema::new();
    assert!(s.add_ident(Keyword::namespaced("a", "b"), 10));
    assert!(!s.add_ident(Keyword::namespaced("a", "b"), 11));
    assert!(!s.add_ident(Keyword::namespaced("a", "c"), 10));
    assert!(s.add_ident(Keyword::namespaced("a", "c"), 11));
    assert_eq!(s.get_entid(&Keyword::namespaced("a", "c")), Some(11));
    assert_eq!(s.get_ident(10), Some(&Keyword::namespaced("a", "b")));
    assert_eq!(s.get_ident(12), None);
    assert_eq!(s.get_entid(&Keyword::plain("b")), None);
    let attr = AttributeBuilder::new()
        .value_type(ValueType::Long)
        .build()
        .unwrap();
    assert!(s.define_attribute(10, attr));
    assert!(!s.define_attribute(10, attr));
    let many = AttributeBuilder::new()
        .value_type(ValueType::Long)
        .multival(true)
        .build()
        .unwrap();
    assert!(s.alter_attribute(10, many));
    assert!(!s.alter_attribute(11, many));
    assert_eq!(s.attribute_for_entid(10), Some(many));
}
