use mentat::edn::parse::value;
use mentat::edn::types::{BigInteger, Float, Span, SpannedValue, ValueAndSpan};
use mentat::symbols::{Keyword, NamespacedSymbol, PlainSymbol};
use mentat::values::Uuid;

fn inner(text: &str) -> SpannedValue {
    value(text).expect("a value").inner
}

fn spanned(inner: SpannedValue, start: usize, end: usize) -> ValueAndSpan {
    ValueAndSpan {
        inner,
        span: Span::new(start, end),
    }
}

#[test]
fn reads_nil_and_booleans() {
    assert_eq!(inner("nil"), SpannedValue::Nil);
    assert_eq!(inner("true"), SpannedValue::Boolean(true));
    assert_eq!(inner("false"), SpannedValue::Boolean(false));
    assert!(value("nilly").is_err());
}

#[test]
fn reads_integers_in_every_radix() {
    assert_eq!(inner("0"), SpannedValue::Integer(0));
    assert_eq!(inner("1"), SpannedValue::Integer(1));
    assert_eq!(inner("+1"), SpannedValue::Integer(1));
    assert_eq!(inner("-1"), SpannedValue::Integer(-1));
    assert_eq!(inner("999"), SpannedValue::Integer(999));
    assert_eq!(inner("0xabc111"), SpannedValue::Integer(11256081));
    assert_eq!(inner("0xABCDEF"), SpannedValue::Integer(11259375));
    assert_eq!(inner("0777"), SpannedValue::Integer(511));
    assert_eq!(inner("2r1010"), SpannedValue::Integer(10));
    assert_eq!(inner("36rabcxyz"), SpannedValue::Integer(623741435));
    assert_eq!(inner("16rFF"), SpannedValue::Integer(255));
    assert_eq!(
        inner("9223372036854775807"),
        SpannedValue::Integer(i64::MAX)
    );
    assert_eq!(
        inner("-9223372036854775808"),
        SpannedValue::Integer(i64::MIN)
    );
}

#[test]
fn integers_out_of_range_are_no_integers() {
    assert_eq!(
        inner("9223372036854775808"),
        SpannedValue::Float(Float::Literal("9223372036854775808".to_string()))
    );
    assert!(value("2r9").is_err());
    assert!(value("0x").is_err());
}

#[test]
fn reads_big_integers() {
    assert_eq!(
        inner("123N"),
        SpannedValue::BigInteger(BigInteger::from_digits(false, &vec![1, 2, 3]))
    );
    assert_eq!(
        inner("-0042N"),
        SpannedValue::BigInteger(BigInteger::from_digits(true, &vec![4, 2]))
    );
    assert_eq!(
        inner("-0N"),
        SpannedValue::BigInteger(BigInteger::from_digits(false, &vec![]))
    );
    match inner("123456789012345678901234567890N") {
        SpannedValue::BigInteger(b) => {
            assert_eq!(b.to_decimal(), "123456789012345678901234567890")
        }
        other => panic!("not a big integer: {:?}", other),
    }
}

#[test]
fn reads_floats_as_written() {
    assert_eq!(
        inner("1.5"),
        SpannedValue::Float(Float::Literal("1.5".to_string()))
    );
    assert_eq!(
        inner("-1e10"),
        SpannedValue::Float(Float::Literal("-1e10".to_string()))
    );
    assert_eq!(
        inner("+4.25E-3"),
        SpannedValue::Float(Float::Literal("+4.25E-3".to_string()))
    );
    assert_eq!(inner("#f NaN"), SpannedValue::Float(Float::NaN));
    assert_eq!(
        inner("#f +Infinity"),
        SpannedValue::Float(Float::PositiveInfinity)
    );
    assert_eq!(
        inner("#f   -Infinity"),
        SpannedValue::Float(Float::NegativeInfinity)
    );
    assert!(value("#f Infinity").is_err());
}

#[test]
fn reads_texts_with_escapes() {
    assert_eq!(
        inner("\"hello world\""),
        SpannedValue::Text("hello world".to_string())
    );
    assert_eq!(inner("\"\""), SpannedValue::Text("".to_string()));
    assert_eq!(
        inner(r#""foo\\bar""#),
        SpannedValue::Text(r"foo\bar".to_string())
    );
    assert_eq!(
        inner(r#""say \"hi\"""#),
        SpannedValue::Text("say \"hi\"".to_string())
    );
    assert!(value(r#""bad \x escape""#).is_err());
    assert!(value("\"open").is_err());
}

#[test]
fn reads_instants() {
    assert_eq!(inner("#instmicros 1500"), SpannedValue::Instant(1500));
    assert_eq!(inner("#instmillis 1500"), SpannedValue::Instant(1_500_000));
    assert_eq!(
        inner("#inst \"2016-01-01T11:00:00.000Z\""),
        SpannedValue::Instant(1_451_646_000_000_000)
    );
    assert_eq!(
        inner("#inst \"1970-01-01T01:00:00.000001+01:00\""),
        SpannedValue::Instant(1)
    );
    assert!(value("#inst \"2016-13-01T11:00:00.000Z\"").is_err());
    assert!(value("#inst \"2016-01-01 11:00:00\"").is_err());
}

#[test]
fn reads_identifiers() {
    let expected = Uuid::from_bytes([
        0x55, 0x0e, 0x84, 0x00, 0xe2, 0x9b, 0x41, 0xd4, 0xa7, 0x16, 0x44, 0x66, 0x55, 0x44, 0x00,
        0x00,
    ]);
    assert_eq!(
        inner("#uuid \"550e8400-e29b-41d4-a716-446655440000\""),
        SpannedValue::Uuid(expected)
    );
    assert!(value("#uuid \"550E8400-e29b-41d4-a716-446655440000\"").is_err());
    assert!(value("#uuid \"550e8400e29b41d4a716446655440000\"").is_err());
}

#[test]
fn reads_keywords_and_symbols() {
    assert_eq!(
        inner(":foo/bar"),
        SpannedValue::Keyword(Keyword::namespaced("foo", "bar"))
    );
    assert_eq!(inner(":foo"), SpannedValue::Keyword(Keyword::plain("foo")));
    assert_eq!(
        inner(":org.mozilla.foo/bar_baz"),
        SpannedValue::Keyword(Keyword::namespaced("org.mozilla.foo", "bar_baz"))
    );
    assert_eq!(
        inner(":foo/_bar"),
        SpannedValue::Keyword(Keyword::namespaced("foo", "_bar"))
    );
    assert_eq!(
        inner("foo/bar"),
        SpannedValue::NamespacedSymbol(NamespacedSymbol::namespaced("foo", "bar"))
    );
    assert_eq!(
        inner("?x"),
        SpannedValue::PlainSymbol(PlainSymbol::plain("?x"))
    );
    assert_eq!(
        inner("..."),
        SpannedValue::PlainSymbol(PlainSymbol::plain("..."))
    );
    assert_eq!(
        inner("."),
        SpannedValue::PlainSymbol(PlainSymbol::plain("."))
    );
    assert!(value(":foo/").is_err());
    assert!(value(":").is_err());
}

#[test]
fn reads_collections_with_spans() {
    assert_eq!(
        value("[1 2]").unwrap(),
        spanned(
            SpannedValue::Vector(vec![
                spanned(SpannedValue::Integer(1), 1, 2),
                spanned(SpannedValue::Integer(2), 3, 4),
            ]),
            0,
            5
        )
    );
    assert_eq!(
        value(" ( a , b ) ").unwrap(),
        spanned(
            SpannedValue::List(vec![
                spanned(SpannedValue::PlainSymbol(PlainSymbol::plain("a")), 3, 4),
                spanned(SpannedValue::PlainSymbol(PlainSymbol::plain("b")), 7, 8),
            ]),
            1,
            10
        )
    );
    assert_eq!(
        value("#{nil}").unwrap(),
        spanned(
            SpannedValue::SetOf(vec![spanned(SpannedValue::Nil, 2, 5)]),
            0,
            6
        )
    );
    assert_eq!(
        value("{:a 1}").unwrap(),
        spanned(
            SpannedValue::MapOf(vec![(
                spanned(SpannedValue::Keyword(Keyword::plain("a")), 1, 3),
                spanned(SpannedValue::Integer(1), 4, 5),
            )]),
            0,
            6
        )
    );
    assert_eq!(inner("[]"), SpannedValue::Vector(vec![]));
    assert_eq!(inner("[ ; nothing\n ]"), SpannedValue::Vector(vec![]));
    assert!(value("{:a}").is_err());
    assert!(value("[1 2").is_err());
    assert!(value("[1 2)").is_err());
}

#[test]
fn spans_count_bytes() {
    assert_eq!(
        value("[\"é\" 1]").unwrap(),
        spanned(
            SpannedValue::Vector(vec![
                spanned(SpannedValue::Text("é".to_string()), 1, 5),
                spanned(SpannedValue::Integer(1), 6, 7),
            ]),
            0,
            8
        )
    );
}

#[test]
fn comments_and_commas_are_blanks() {
    assert_eq!(
        inner("; a comment\n 42 ; another"),
        SpannedValue::Integer(42)
    );
    assert_eq!(
        inner("[1,,,,2]"),
        SpannedValue::Vector(vec![
            spanned(SpannedValue::Integer(1), 1, 2),
            spanned(SpannedValue::Integer(2), 6, 7),
        ])
    );
}

#[test]
fn errors_carry_line_and_column() {
    let e = value("[1 2]\n\n  }").unwrap_err();
    assert_eq!(e.location.line, 3);
    assert_eq!(e.location.column, 3);
    assert_eq!(e.location.offset, 9);
    let e = value("   ").unwrap_err();
    assert_eq!(e.location.line, 1);
    assert_eq!(e.location.column, 4);
    assert_eq!(e.location.offset, 3);
    let e = value("é é").unwrap_err();
    assert_eq!(e.location.offset, 0);
}
