use mentat::db::to_namespaced_keyword;
use mentat::symbols::{Keyword, NamespacedSymbol, PlainSymbol};

#[test]
fn can_import_edn() {
    assert_eq!(":foo", &Keyword::plain("foo").to_string());
}

#[test]
fn test_kw() {
    assert_eq!(
        to_namespaced_keyword(":foo/bar").unwrap(),
        Keyword::namespaced("foo", "bar")
    );
    assert_eq!(
        to_namespaced_keyword(":org.mozilla.foo/bar_baz").unwrap(),
        Keyword::namespaced("org.mozilla.foo", "bar_baz")
    );
    assert_eq!(
        to_namespaced_keyword(":_foo_/_bar_._baz_").unwrap(),
        Keyword::namespaced("_foo_", "_bar_._baz_")
    );
    assert_eq!(
        to_namespaced_keyword(":_org_._mozilla_._foo_/_bar_._baz_").unwrap(),
        Keyword::namespaced("_org_._mozilla_._foo_", "_bar_._baz_")
    );
}

#[test]
fn keyword_texts_that_are_refused_are_quoted() {
    for bad in [
        "", "foo", ":foo", "foo/bar", ":a/b/c", ":/b", ":a/", "::a/b", ":a:b:c", "/foo/bar",
        ":foo:bar", ":/", "/a:b", ":a/b:", ":",
    ] {
        let e = to_namespaced_keyword(bad).unwrap_err();
        assert_eq!(
            e.kind(),
            &mentat::db::DbErrorKind::NotYetImplemented(format!("InvalidKeyword: {}", bad))
        );
    }
    // A keyword is written as the text that it was read from.
    for good in [":a/b", ":foo/bar", ":db.type/string", ":_x/_y"] {
        assert_eq!(to_namespaced_keyword(good).unwrap().to_string(), good);
    }
}

#[test]
fn keywords_show_their_parts() {
    let k = Keyword::namespaced("person", "name");
    assert_eq!(k.to_string(), ":person/name");
    assert_eq!(k.name(), "name");
    assert_eq!(k.namespace(), Some("person"));
    assert!(k.is_namespaced());
    assert!(k.is_forward());
    assert!(!k.is_backward());
    assert!(k.same_as(&k.clone()));
    assert!(!k.same_as(&Keyword::plain("name")));
    assert_eq!(Keyword::plain("name").namespace(), None);
}

#[test]
fn keywords_turn_around() {
    let forward = Keyword::namespaced("x", "y");
    let backward = Keyword::namespaced("x", "_y");
    assert_eq!(forward.to_reversed(), backward);
    assert_eq!(backward.to_reversed(), forward);
    assert_eq!(backward.unreversed(), Some(forward.clone()));
    assert_eq!(forward.unreversed(), None);
    assert!(backward.is_backward());
    assert_eq!(Keyword::plain("_a").to_reversed(), Keyword::plain("a"));
    assert_eq!(
        Keyword::plain("__a").to_reversed().to_reversed(),
        Keyword::plain("a")
    );
}

#[test]
fn symbols_know_what_they_name() {
    assert!(PlainSymbol::plain("?x").is_var_symbol());
    assert!(!PlainSymbol::plain("x").is_var_symbol());
    assert!(PlainSymbol::plain("$").is_src_symbol());
    assert!(!PlainSymbol::plain("?x").is_src_symbol());
    assert_eq!(PlainSymbol::plain("abc").name(), "abc");
    let s = NamespacedSymbol::namespaced("a", "b");
    assert_eq!(s.name(), "b");
    assert_eq!(s.namespace(), "a");
}
