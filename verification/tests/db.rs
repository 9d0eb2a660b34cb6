use mentat::db::{repeat_values, to_namespaced_keyword};
use mentat::symbols::Keyword;

#[test]
fn repeat_values_examples() {
    assert_eq!(repeat_values(1, 3), "(?), (?), (?)".to_string());
    assert_eq!(repeat_values(3, 1), "(?, ?, ?)".to_string());
    assert_eq!(repeat_values(2, 2), "(?, ?), (?, ?)".to_string());
}

#[test]
fn namespaced_keyword_from_text() {
    assert_eq!(
        to_namespaced_keyword(":foo/bar").unwrap(),
        Keyword::namespaced("foo", "bar")
    );
    assert!(to_namespaced_keyword("foo/bar").is_err());
    assert!(to_namespaced_keyword(":foo").is_err());
    assert!(to_namespaced_keyword(":foo/bar/baz").is_err());
    assert!(to_namespaced_keyword(":/bar").is_err());
}
