use mentat::sql::builder::{QueryBuilder, QueryFragment, SQLiteQueryBuilder};
use mentat::sql::errors::{SQLError, SQLErrorKind};
use mentat::sql::SqlValue;
use mentat::symbols::Keyword;
use mentat::text::{decimal_string, str_equal, str_less};
use mentat::values::{Double, TypedValue, Uuid, ValueType};

#[test]
fn typed_values_render_by_type() {
    let mut s = SQLiteQueryBuilder::new();
    s.push_typed_value(&TypedValue::Ref(65536)).unwrap();
    s.push_sql(" ");
    s.push_typed_value(&TypedValue::Boolean(true)).unwrap();
    s.push_typed_value(&TypedValue::Boolean(false)).unwrap();
    s.push_sql(" ");
    s.push_typed_value(&TypedValue::Long(-42)).unwrap();
    s.push_sql(" ");
    s.push_typed_value(&TypedValue::Long(i64::MIN)).unwrap();
    s.push_sql(" ");
    s.push_typed_value(&TypedValue::Instant(1529971773701734)).unwrap();
    s.push_sql(" ");
    let half: f64 = 0.5;
    s.push_typed_value(&TypedValue::Double(Double::new(
        half.to_bits(),
        format!("{:e}", half),
    )))
    .unwrap();
    let q = s.finish();
    assert_eq!(
        q.sql,
        "65536 10 -42 -9223372036854775808 1529971773701734 5e-1"
    );
    assert_eq!(q.args, vec![]);
}

#[test]
fn strings_and_bytes_are_bound_once() {
    let u = Uuid::from_bytes([7; 16]);
    let mut s = SQLiteQueryBuilder::new();
    s.push_typed_value(&TypedValue::String("abc".to_string())).unwrap();
    s.push_sql(", ");
    s.push_typed_value(&TypedValue::Uuid(u)).unwrap();
    s.push_sql(", ");
    s.push_typed_value(&TypedValue::String("abc".to_string())).unwrap();
    s.push_sql(", ");
    s.push_typed_value(&TypedValue::Bytes(vec![7; 16])).unwrap();
    s.push_sql(", ");
    s.push_typed_value(&TypedValue::String("abd".to_string())).unwrap();
    s.push_sql(", ");
    s.push_typed_value(&TypedValue::Keyword(Keyword::namespaced("foo", "bar")))
        .unwrap();
    s.push_sql(", ");
    s.push_typed_value(&TypedValue::Keyword(Keyword::namespaced("foo", "bar")))
        .unwrap();
    s.push_sql(", ");
    s.push_typed_value(&TypedValue::String(":foo/bar".to_string())).unwrap();
    let q = s.finish();
    assert_eq!(q.sql, "$v0, $v1, $v0, $v1, $v2, $v3, $v4, $v5");
    assert_eq!(
        q.args,
        vec![
            ("$v0".to_string(), SqlValue::Text("abc".to_string())),
            ("$v1".to_string(), SqlValue::Blob(vec![7; 16])),
            ("$v2".to_string(), SqlValue::Text("abd".to_string())),
            ("$v3".to_string(), SqlValue::Text(":foo/bar".to_string())),
            ("$v4".to_string(), SqlValue::Text(":foo/bar".to_string())),
            ("$v5".to_string(), SqlValue::Text(":foo/bar".to_string())),
        ]
    );
}

#[test]
fn binds_are_ordered_by_name_as_text() {
    let mut s = SQLiteQueryBuilder::new();
    for i in 0..12 {
        s.push_static_arg(SqlValue::Integer(i));
    }
    let q = s.finish();
    let names: Vec<&str> = q.args.iter().map(|(n, _)| n.as_str()).collect();
    assert_eq!(
        names,
        vec![
            "$v0", "$v1", "$v10", "$v11", "$v2", "$v3", "$v4", "$v5", "$v6", "$v7", "$v8", "$v9"
        ]
    );
    let mut sorted = q.args.iter().map(|(n, _)| n.clone()).collect::<Vec<_>>();
    sorted.sort();
    assert_eq!(names, sorted);
    assert_eq!(q.args[2], ("$v10".to_string(), SqlValue::Integer(10)));
    assert_eq!(q.sql, "$v0$v1$v2$v3$v4$v5$v6$v7$v8$v9$v10$v11");
}

#[test]
fn the_same_pushes_finish_the_same() {
    let build = || {
        let mut s = SQLiteQueryBuilder::with_prefix("$p".to_string());
        s.push_sql("SELECT ");
        for i in 0..30 {
            s.push_typed_value(&TypedValue::String(format!("s{}", i % 7))).unwrap();
            s.push_typed_value(&TypedValue::Keyword(Keyword::plain("k"))).unwrap();
            s.push_typed_value(&TypedValue::Bytes(vec![i % 3])).unwrap();
            s.push_bind_param("user").unwrap();
        }
        s.finish()
    };
    let a = build();
    let b = build();
    assert_eq!(a, b);
    assert_eq!(a.args.len(), 7 + 30 + 3);
    for pair in a.args.windows(2) {
        assert!(pair[0].0 < pair[1].0);
    }
}

#[test]
fn identifiers_are_quoted() {
    let mut s = SQLiteQueryBuilder::new();
    s.push_identifier("plain").unwrap();
    s.push_identifier("with`tick").unwrap();
    s.push_identifier("``").unwrap();
    s.push_identifier("").unwrap();
    let expected = ["`plain`", "`with``tick`", "``````", "``"].concat();
    assert_eq!(s.finish().sql, expected);
}

#[test]
fn bind_params_are_checked() {
    let mut s = SQLiteQueryBuilder::new();
    s.push_bind_param("name_1").unwrap();
    s.push_bind_param("vx1").unwrap();
    s.push_bind_param("v1x").unwrap();
    s.push_bind_param("w0").unwrap();
    s.push_bind_param("é9").unwrap();
    assert_eq!(
        s.push_bind_param("has space"),
        Err(SQLError::new(SQLErrorKind::InvalidParameterName(
            "has space".to_string()
        )))
    );
    assert_eq!(
        s.push_bind_param("$v0"),
        Err(SQLError::from(SQLErrorKind::InvalidParameterName(
            "$v0".to_string()
        )))
    );
    // Written with its dollar sign, the name is one that is generated.
    assert_eq!(
        s.push_bind_param("v0"),
        Err(SQLError::new(SQLErrorKind::BindParamCouldBeGenerated(
            "v0".to_string()
        )))
    );
    assert_eq!(
        s.push_bind_param("v12"),
        Err(SQLError::new(SQLErrorKind::BindParamCouldBeGenerated(
            "v12".to_string()
        )))
    );
    assert_eq!(
        s.push_bind_param("v"),
        Err(SQLError::new(SQLErrorKind::BindParamCouldBeGenerated(
            "v".to_string()
        )))
    );
    assert_eq!(s.finish().sql, "$name_1$vx1$v1x$w0$é9");
    // The prefix is counted in characters.
    let mut t = SQLiteQueryBuilder::with_prefix("$é".to_string());
    assert_eq!(
        t.push_bind_param("é7"),
        Err(SQLError::new(SQLErrorKind::BindParamCouldBeGenerated(
            "é7".to_string()
        )))
    );
    t.push_bind_param("é7x").unwrap();
    t.push_bind_param("e7").unwrap();
    // A prefix without the dollar sign is the start of no bind parameter.
    let mut u = SQLiteQueryBuilder::with_prefix("v".to_string());
    u.push_bind_param("v12").unwrap();
    assert_eq!(u.finish().sql, "$v12");
    let e = SQLError::new(SQLErrorKind::BindParamCouldBeGenerated("v12".to_string()));
    assert_eq!(e.message(), "parameter name could be generated: 'v12'");
    assert_eq!(
        e.kind(),
        &SQLErrorKind::BindParamCouldBeGenerated("v12".to_string())
    );
    assert_eq!(
        SQLErrorKind::InvalidParameterName("a b".to_string()).message(),
        "invalid parameter name: a b"
    );
}

#[test]
fn the_empty_fragment_adds_nothing() {
    let mut s = SQLiteQueryBuilder::new();
    s.push_sql("x");
    ().push_sql(&mut s).unwrap();
    assert_eq!(s.finish().sql, "x");
}

#[test]
fn values_know_their_type() {
    assert_eq!(TypedValue::Ref(1).value_type(), ValueType::Ref);
    assert_eq!(TypedValue::Long(1).value_type(), ValueType::Long);
    assert!(TypedValue::String("a".to_string()).matches_type(ValueType::String));
    assert!(!TypedValue::String("a".to_string()).matches_type(ValueType::Keyword));
    assert!(TypedValue::Bytes(vec![1]).same_as(&TypedValue::Bytes(vec![1])));
    assert!(!TypedValue::Bytes(vec![1]).same_as(&TypedValue::Bytes(vec![2])));
    assert!(!TypedValue::Long(1).same_as(&TypedValue::Ref(1)));
    assert!(SqlValue::Null.same_as(&SqlValue::Null));
    assert!(!SqlValue::Text("a".to_string()).same_as(&SqlValue::Blob(vec![97])));
}

#[test]
fn texts_compare_by_code_point() {
    assert!(str_less("", "a"));
    assert!(!str_less("a", ""));
    assert!(!str_less("a", "a"));
    assert!(str_less("$v10", "$v2"));
    assert!(str_less("a", "ab"));
    assert!(str_less("Z", "a"));
    assert!(str_less("z", "é"));
    assert!(str_less("é", "\u{10000}"));
    for (a, b) in [("abc", "abd"), ("é", "z"), ("", ""), ("x\u{ffff}", "x\u{10000}")] {
        assert_eq!(str_less(a, b), a < b);
        assert_eq!(str_less(b, a), b < a);
        assert_eq!(str_equal(a, b), a == b);
    }
    assert!(str_equal("same", "same"));
}

#[test]
fn integers_render_in_decimal() {
    for n in [0i64, 7, 10, -1, 99, 100, i64::MAX, i64::MIN, -1000] {
        assert_eq!(decimal_string(n), n.to_string());
    }
}

#[test]
fn the_text_of_a_double_is_in_scientific_notation() {
    for good in ["1e0", "1.5e0", "-2.5e-7", "1e308", "0e0", "12.25e3", "NaN", "inf", "-inf"] {
        assert!(mentat::values::is_scientific_text(good), "{}", good);
        let d = mentat::values::Double::checked(7, good.to_string()).expect("a number");
        assert_eq!(d.scientific(), good);
        assert_eq!(d.bits(), 7);
    }
    for bad in [
        "", "1", "1.5", "e0", "1e", "1.e0", ".5e0", "1e+3", "+1e0", "1E0", "1e0 ", "1e0; DROP",
        "nan", "Inf", "--1e0", "1e-", "1e0e0",
    ] {
        assert!(!mentat::values::is_scientific_text(bad), "{}", bad);
        assert_eq!(mentat::values::Double::checked(7, bad.to_string()), None);
    }
    for x in [0.0f64, 1.0, -1.5, 1e-300, 6.02e23, f64::MAX, f64::MIN_POSITIVE, f64::NAN, f64::INFINITY, f64::NEG_INFINITY] {
        assert!(mentat::values::is_scientific_text(&format!("{:e}", x)), "{:e}", x);
    }
}

#[test]
fn equal_doubles_are_held_alike() {
    let number = |x: f64| mentat::values::Double::new(x.to_bits(), format!("{:e}", x));
    // The two zeros are one value.
    assert_eq!(number(0.0), number(-0.0));
    assert!(number(0.0).same_as(&number(-0.0)));
    assert_eq!(number(-0.0).bits(), 0);
    assert_eq!(number(-0.0).scientific(), "0e0");
    // What is not a number is one value, whatever its bits.
    let quiet = f64::NAN;
    let other = f64::from_bits(0x7ff0_0000_0000_0001);
    let negative = f64::from_bits(0xfff8_0000_0000_0abc);
    assert!(other.is_nan() && negative.is_nan());
    assert_eq!(number(quiet), number(other));
    assert_eq!(number(quiet), number(negative));
    assert_eq!(number(other).bits(), 0x7ff8_0000_0000_0000);
    assert_eq!(number(negative).scientific(), "NaN");
    // Other numbers are held as they are given.
    assert_eq!(number(1.5).bits(), 1.5f64.to_bits());
    assert_eq!(number(-1.5).scientific(), "-1.5e0");
    assert!(!number(1.5).same_as(&number(-1.5)));
    assert!(!number(f64::INFINITY).same_as(&number(f64::NEG_INFINITY)));
    assert!(!number(f64::INFINITY).same_as(&number(quiet)));
    assert_eq!(number(f64::INFINITY).scientific(), "inf");
    // The zeros show alike in a statement.
    let mut s = SQLiteQueryBuilder::new();
    s.push_typed_value(&TypedValue::Double(number(-0.0))).unwrap();
    assert_eq!(s.finish().sql, "0e0");
}
