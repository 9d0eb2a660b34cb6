use mentat::edn::parse::value;
use mentat::edn::types::{Span, SpannedValue, ValueAndSpan};
use mentat::symbols::Keyword;

fn written(text: &str) -> String {
    value(text).expect("a value").to_text()
}

fn at(inner: SpannedValue) -> ValueAndSpan {
    ValueAndSpan {
        inner,
        span: Span::new(0, 0),
    }
}

fn same_but_for_places(a: &SpannedValue, b: &SpannedValue) -> bool {
    match (a, b) {
        (SpannedValue::Vector(x), SpannedValue::Vector(y))
        | (SpannedValue::List(x), SpannedValue::List(y))
        | (SpannedValue::SetOf(x), SpannedValue::SetOf(y)) => {
            x.len() == y.len()
                && x.iter()
                    .zip(y.iter())
                    .all(|(p, q)| same_but_for_places(&p.inner, &q.inner))
        }
        (SpannedValue::MapOf(x), SpannedValue::MapOf(y)) => {
            x.len() == y.len()
                && x.iter().zip(y.iter()).all(|(p, q)| {
                    same_but_for_places(&p.0.inner, &q.0.inner)
                        && same_but_for_places(&p.1.inner, &q.1.inner)
                })
        }
        _ => a == b,
    }
}

#[test]
fn writes_words_and_numbers() {
    assert_eq!(SpannedValue::Nil.to_text(), "nil");
    assert_eq!(SpannedValue::Boolean(true).to_text(), "true");
    assert_eq!(SpannedValue::Boolean(false).to_text(), "false");
    assert_eq!(SpannedValue::Integer(0).to_text(), "0");
    assert_eq!(SpannedValue::Integer(-17).to_text(), "-17");
    assert_eq!(
        SpannedValue::Integer(i64::MIN).to_text(),
        "-9223372036854775808"
    );
    assert_eq!(
        SpannedValue::Integer(i64::MAX).to_text(),
        "9223372036854775807"
    );
}

#[test]
fn writes_numbers_in_decimal_whatever_the_radix_read() {
    assert_eq!(written("0xff"), "255");
    assert_eq!(written("0777"), "511");
    assert_eq!(written("2r1010"), "10");
    assert_eq!(written("+1"), "1");
}

#[test]
fn writes_text_with_escapes() {
    assert_eq!(SpannedValue::Text("".to_string()).to_text(), "\"\"");
    assert_eq!(SpannedValue::Text("hello".to_string()).to_text(), "\"hello\"");
    assert_eq!(
        SpannedValue::Text("a\"b\\c".to_string()).to_text(),
        "\"a\\\"b\\\\c\""
    );
}

#[test]
fn writes_keywords_and_symbols() {
    assert_eq!(
        SpannedValue::Keyword(Keyword::namespaced("foo", "bar")).to_text(),
        ":foo/bar"
    );
    assert_eq!(SpannedValue::Keyword(Keyword::plain("bar")).to_text(), ":bar");
    assert_eq!(written("foo/bar"), "foo/bar");
    assert_eq!(written("?x"), "?x");
}

#[test]
fn writes_tagged_values() {
    assert_eq!(
        written("#uuid \"550e8400-e29b-41d4-a716-446655440000\""),
        "#uuid \"550e8400-e29b-41d4-a716-446655440000\""
    );
    assert_eq!(written("#instmicros 1493410985187"), "#instmicros 1493410985187");
    assert_eq!(written("#instmillis 1493410985187"), "#instmicros 1493410985187000");
    assert_eq!(written("12345678901234567890123N"), "12345678901234567890123N");
    assert_eq!(written("-5N"), "-5N");
    assert_eq!(written("#f NaN"), "#f NaN");
    assert_eq!(written("#f +Infinity"), "#f +Infinity");
    assert_eq!(written("#f -Infinity"), "#f -Infinity");
}

#[test]
fn writes_collections_with_one_space_between_parts() {
    assert_eq!(written("[]"), "[]");
    assert_eq!(written("()"), "()");
    assert_eq!(written("#{}"), "#{}");
    assert_eq!(written("{}"), "{}");
    assert_eq!(written("[1,   2 ; a comment\n 3]"), "[1 2 3]");
    assert_eq!(written("( :a  \"b\" )"), "(:a \"b\")");
    assert_eq!(written("#{ 3 1 2 }"), "#{3 1 2}");
    assert_eq!(written("{:a 1, :b [2 {:c nil}]}"), "{:a 1 :b [2 {:c nil}]}");
}

#[test]
fn what_is_written_reads_back_as_written() {
    let texts = [
        "nil",
        "true",
        "false",
        "0",
        "-9223372036854775808",
        "9223372036854775807",
        "\"\"",
        "\"a \\\"quoted\\\" word and a \\\\ backslash\"",
        "\"; no comment, [no vector]\"",
        ":foo",
        ":foo.bar/baz-quux",
        "[]",
        "[nil]",
        "[1 2 3]",
        "(:a \"b\" -3)",
        "#{1 :two \"three\"}",
        "{}",
        "{:a 1}",
        "{:a 1 :b [2 {:c nil}] \"k\" #{() [] {}}}",
        "[[[[1]]] ((2)) #{#{3}} {{:k 4} {:l 5}}]",
        "1.5",
        "-0.25",
        "1e5",
        "+3.0E-2",
        "[1.5 -2e3 {:x 0.5}]",
        "#f NaN",
        "[#f +Infinity #f -Infinity]",
        "#instmicros 1493410985187",
        "#inst \"1969-12-31T23:59:59.500000Z\"",
        "[#inst \"0001-01-01T00:00:00.000000Z\" #instmicros 0]",
        "#uuid \"550e8400-e29b-41d4-a716-446655440000\"",
        "12345678901234567890123N",
        "[-5N 0N]",
        "foo",
        "foo.bar/baz",
        "?x",
        ":db.type/string",
        "(:a/b c/d ?e $f)",
        "...",
        ".",
        "[... . ?x]",
    ];
    for text in texts.iter() {
        let first = value(text).expect("a value");
        let again = first.to_text();
        assert_eq!(&again, text);
        let second = value(&again).expect("a value read back");
        assert_eq!(second, first);
    }
}

#[test]
fn a_value_built_by_hand_reads_back_but_for_places() {
    let built = SpannedValue::MapOf(vec![
        (
            at(SpannedValue::Keyword(Keyword::namespaced("person", "name"))),
            at(SpannedValue::Text("Ada \"the\" \\ first".to_string())),
        ),
        (
            at(SpannedValue::Keyword(Keyword::plain("ages"))),
            at(SpannedValue::Vector(vec![
                at(SpannedValue::Integer(-36)),
                at(SpannedValue::List(vec![])),
                at(SpannedValue::SetOf(vec![
                    at(SpannedValue::Boolean(true)),
                    at(SpannedValue::Nil),
                ])),
            ])),
        ),
    ]);
    let text = built.to_text();
    assert_eq!(
        text,
        "{:person/name \"Ada \\\"the\\\" \\\\ first\" :ages [-36 () #{true nil}]}"
    );
    let read = value(&text).expect("a value read back");
    assert!(same_but_for_places(&built, &read.inner));
    assert_eq!(read.span, Span::new(0, text.len()));
}

#[test]
fn a_symbol_named_like_a_word_does_not_read_back() {
    let symbol = SpannedValue::PlainSymbol(mentat::symbols::PlainSymbol::plain("nil"));
    let text = symbol.to_text();
    assert_eq!(text, "nil");
    assert_eq!(value(&text).expect("a value").inner, SpannedValue::Nil);
}

#[test]
fn instants_before_the_epoch_are_written_as_timestamps() {
    assert_eq!(SpannedValue::Instant(0).to_text(), "#instmicros 0");
    assert_eq!(SpannedValue::Instant(1).to_text(), "#instmicros 1");
    assert_eq!(
        SpannedValue::Instant(-1).to_text(),
        "#inst \"1969-12-31T23:59:59.999999Z\""
    );
    assert_eq!(
        SpannedValue::Instant(-500_000).to_text(),
        "#inst \"1969-12-31T23:59:59.500000Z\""
    );
    assert_eq!(
        written("#inst \"1969-07-20T20:17:40+00:00\""),
        "#inst \"1969-07-20T20:17:40.000000Z\""
    );
    for micros in [-1i64, -1_000_000, -86_400_000_000, -2_208_936_075_000_000, -62_135_596_800_000_000] {
        let text = SpannedValue::Instant(micros).to_text();
        assert_eq!(
            value(&text).expect("an instant").inner,
            SpannedValue::Instant(micros),
            "{}",
            text
        );
    }
    // Before the year nought there is no timestamp that reads back.
    assert_eq!(
        SpannedValue::Instant(-62_167_219_200_000_001).to_text(),
        "#instmicros -62167219200000001"
    );
    assert_eq!(
        SpannedValue::Instant(i64::MIN).to_text(),
        "#instmicros -9223372036854775808"
    );
}
