use mentat::sql::builder::{QueryBuilder, SQLiteQueryBuilder};
use mentat::sql::SqlValue;
use mentat::values::{Double, TypedValue};

fn string_arg(s: &str) -> SqlValue {
    SqlValue::Text(s.to_string())
}

#[test]
fn test_sql() {
    let mut s = SQLiteQueryBuilder::new();
    s.push_sql("SELECT ");
    s.push_identifier("foo").unwrap();
    s.push_sql(" WHERE ");
    s.push_identifier("bar").unwrap();
    s.push_sql(" = ");
    s.push_static_arg(string_arg("frobnicate"));
    s.push_sql(" OR ");
    s.push_static_arg(string_arg("swoogle"));
    s.push_sql(" OR ");
    s.push_identifier("bar").unwrap();
    s.push_sql(" = ");
    let one: f64 = 1.0;
    s.push_typed_value(&TypedValue::Double(Double::new(one.to_bits(), format!("{:e}", one))))
        .unwrap();
    let q = s.finish();

    assert_eq!(
        q.sql.as_str(),
        "SELECT `foo` WHERE `bar` = $v0 OR $v1 OR `bar` = 1e0"
    );
    assert_eq!(
        q.args,
        vec![
            ("$v0".to_string(), string_arg("frobnicate")),
            ("$v1".to_string(), string_arg("swoogle"))
        ]
    );
}
