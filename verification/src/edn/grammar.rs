//! The grammar of values, as functions on the text.
//!
//! Each rule is a function of the text and a position, counted in
//! characters. It gives what the rule reads there and the position after
//! it, or nothing where the rule does not match. A rule takes the first
//! of its alternatives that matches and as much of a repetition as there
//! is; what comes after the rule never makes it choose again.

use vstd::prelude::*;
use vstd::utf8::encode_utf8;
use crate::edn::lexical::{
    blank_len, char_at, class_at, literal_at, radix_number, radix_value, run_len, sign_len,
    CharClass,
};
use crate::edn::types::{FloatView, Span, SpannedValueView, ValueAndSpanView};
use crate::symbols::NameView;
use crate::values::{hyphenated_bytes, hyphenated_index};

verus! {

/// What a rule reads at a position, and the position after it.
pub type Found<T> = Option<(T, int)>;

/// The first of two alternatives that matches.
pub open spec fn first_of<T>(a: Option<T>, b: Option<T>) -> Option<T> {
    if a is Some {
        a
    } else {
        b
    }
}

/// The number of bytes that the first `pos` characters take in UTF-8.
pub open spec fn utf8_offset(s: Seq<char>, pos: int) -> nat {
    encode_utf8(s.take(pos)).len()
}

/// The stretch between two positions, in bytes.
pub open spec fn span_of(s: Seq<char>, start: int, end: int) -> Span {
    Span { start: utf8_offset(s, start) as usize, end: utf8_offset(s, end) as usize }
}

/// A word that stands for a value, such as `nil`.
pub open spec fn word_at(s: Seq<char>, pos: int, word: Seq<char>, value: SpannedValueView) -> Found<
    SpannedValueView,
> {
    if literal_at(s, pos, word) {
        Some((value, pos + word.len()))
    } else {
        None
    }
}

/// The position after a tag such as `#inst` and the whitespace that must
/// follow it.
pub open spec fn after_tag(s: Seq<char>, pos: int, tag: Seq<char>) -> Option<int> {
    if literal_at(s, pos, tag) {
        let w = run_len(s, pos + tag.len(), CharClass::Whitespace);
        if w >= 1 {
            Some(pos + tag.len() + w)
        } else {
            None
        }
    } else {
        None
    }
}

/// `#f NaN`.
pub open spec fn nan_at(s: Seq<char>, pos: int) -> Found<SpannedValueView> {
    match after_tag(s, pos, "#f"@) {
        Some(q) => word_at(s, q, "NaN"@, SpannedValueView::Float(FloatView::NaN)),
        None => None,
    }
}

/// `#f +Infinity` and `#f -Infinity`.
pub open spec fn infinity_at(s: Seq<char>, pos: int) -> Found<SpannedValueView> {
    match after_tag(s, pos, "#f"@) {
        Some(q) => if char_at(s, q, '+') {
            word_at(s, q + 1, "Infinity"@, SpannedValueView::Float(FloatView::PositiveInfinity))
        } else if char_at(s, q, '-') {
            word_at(s, q + 1, "Infinity"@, SpannedValueView::Float(FloatView::NegativeInfinity))
        } else {
            None
        },
        None => None,
    }
}

/// `true` and `false`.
pub open spec fn boolean_at(s: Seq<char>, pos: int) -> Found<SpannedValueView> {
    first_of(
        word_at(s, pos, "true"@, SpannedValueView::Boolean(true)),
        word_at(s, pos, "false"@, SpannedValueView::Boolean(false)),
    )
}

/// The position after an optional sign and at least one digit.
pub open spec fn signed_digits_end(s: Seq<char>, pos: int) -> Option<int> {
    let digits = run_len(s, pos + sign_len(s, pos), CharClass::Digit);
    if digits >= 1 {
        Some(pos + sign_len(s, pos) + digits)
    } else {
        None
    }
}

/// The number that an optional sign and the digits up to `end` spell.
pub open spec fn signed_value(s: Seq<char>, pos: int, end: int) -> int {
    let magnitude = radix_value(s.subrange(pos + sign_len(s, pos), end), 10);
    if char_at(s, pos, '-') {
        -magnitude
    } else {
        magnitude
    }
}

/// An integer of any size: an optional sign, digits, and `N`.
pub open spec fn bigint_at(s: Seq<char>, pos: int) -> Found<SpannedValueView> {
    match signed_digits_end(s, pos) {
        Some(end) => if char_at(s, end, 'N') {
            Some((SpannedValueView::BigInteger(signed_value(s, pos, end)), end + 1))
        } else {
            None
        },
        None => None,
    }
}

/// The length of a radix from 2 to 36 at `pos`, zero where none stands.
pub open spec fn base_len(s: Seq<char>, pos: int) -> nat {
    if char_at(s, pos, '3') && 0 <= pos + 1 < s.len() && '0' <= s[pos + 1] <= '6' {
        2
    } else if (char_at(s, pos, '1') || char_at(s, pos, '2')) && class_at(
        s,
        pos + 1,
        CharClass::Digit,
    ) {
        2
    } else if 0 <= pos < s.len() && '2' <= s[pos] <= '9' {
        1
    } else {
        0
    }
}

/// The largest number that a 64-bit integer holds.
pub open spec fn max_long() -> int {
    0x7fff_ffff_ffff_ffff
}

/// An integer in a radix of its own: the radix, `r`, and the digits, such
/// as `2r1010`. The digits must be digits of the radix.
pub open spec fn based_integer_at(s: Seq<char>, pos: int) -> Found<int> {
    let b = base_len(s, pos);
    if b >= 1 && char_at(s, pos + b, 'r') {
        let digits = run_len(s, pos + b + 1, CharClass::Alphanumeric);
        let end = pos + b + 1 + digits;
        if digits >= 1 {
            match radix_number(
                s.subrange(pos + b + 1, end),
                radix_value(s.subrange(pos, pos + b), 10),
                max_long(),
            ) {
                Some(v) => Some((v, end)),
                None => None,
            }
        } else {
            None
        }
    } else {
        None
    }
}

/// A hexadecimal integer: `0x` and digits.
pub open spec fn hex_integer_at(s: Seq<char>, pos: int) -> Found<int> {
    if literal_at(s, pos, "0x"@) {
        let start = pos + "0x"@.len();
        let digits = run_len(s, start, CharClass::HexDigit);
        if digits >= 1 {
            match radix_number(s.subrange(start, start + digits), 16, max_long()) {
                Some(v) => Some((v, start + digits)),
                None => None,
            }
        } else {
            None
        }
    } else {
        None
    }
}

/// An octal integer: `0` and digits.
pub open spec fn octal_integer_at(s: Seq<char>, pos: int) -> Found<int> {
    if char_at(s, pos, '0') {
        let digits = run_len(s, pos + 1, CharClass::OctalDigit);
        if digits >= 1 {
            match radix_number(s.subrange(pos + 1, pos + 1 + digits), 8, max_long()) {
                Some(v) => Some((v, pos + 1 + digits)),
                None => None,
            }
        } else {
            None
        }
    } else {
        None
    }
}

/// A decimal integer: an optional sign and digits, not followed by a
/// point or an exponent, within the range of 64 bits.
pub open spec fn decimal_integer_at(s: Seq<char>, pos: int) -> Found<int> {
    match signed_digits_end(s, pos) {
        Some(end) => if char_at(s, end, '.') || char_at(s, end, 'e') || char_at(s, end, 'E') {
            None
        } else {
            let v = signed_value(s, pos, end);
            if -max_long() - 1 <= v <= max_long() {
                Some((v, end))
            } else {
                None
            }
        },
        None => None,
    }
}

/// The length of a fraction at `pos`: a point and digits, or nothing.
pub open spec fn fraction_len(s: Seq<char>, pos: int) -> nat {
    if char_at(s, pos, '.') && run_len(s, pos + 1, CharClass::Digit) >= 1 {
        1 + run_len(s, pos + 1, CharClass::Digit)
    } else {
        0
    }
}

/// The length of an exponent at `pos`: `e` or `E`, an optional sign and
/// digits, or nothing.
pub open spec fn exponent_len(s: Seq<char>, pos: int) -> nat {
    if (char_at(s, pos, 'e') || char_at(s, pos, 'E')) && run_len(
        s,
        pos + 1 + sign_len(s, pos + 1),
        CharClass::Digit,
    ) >= 1 {
        1 + sign_len(s, pos + 1) + run_len(s, pos + 1 + sign_len(s, pos + 1), CharClass::Digit)
    } else {
        0
    }
}

/// A floating point literal: an optional sign, digits, an optional
/// fraction and an optional exponent.
pub open spec fn float_at(s: Seq<char>, pos: int) -> Found<SpannedValueView> {
    match signed_digits_end(s, pos) {
        Some(whole) => {
            let end = whole + fraction_len(s, whole) + exponent_len(
                s,
                whole + fraction_len(s, whole),
            );
            if end <= s.len() {
                Some((SpannedValueView::Float(FloatView::Literal(s.subrange(pos, end))), end))
            } else {
                None
            }
        },
        None => None,
    }
}

/// A rule for an integer, as a rule for a value.
pub open spec fn as_integer(found: Found<int>) -> Found<SpannedValueView> {
    match found {
        Some((v, end)) => Some((SpannedValueView::Integer(v), end)),
        None => None,
    }
}

/// An integer in any of the four radix forms: with a radix of its own,
/// hexadecimal, octal, decimal.
pub open spec fn long_at(s: Seq<char>, pos: int) -> Found<int> {
    first_of(
        based_integer_at(s, pos),
        first_of(
            hex_integer_at(s, pos),
            first_of(octal_integer_at(s, pos), decimal_integer_at(s, pos)),
        ),
    )
}

/// A number: an integer of any size, an integer in one of the radix
/// forms, or a floating point literal.
pub open spec fn number_at(s: Seq<char>, pos: int) -> Found<SpannedValueView> {
    first_of(bigint_at(s, pos), first_of(as_integer(long_at(s, pos)), float_at(s, pos)))
}

/// Whether a backslash makes `c` stand for itself in a text.
pub open spec fn is_escaped_char(c: char) -> bool {
    c == '\\' || c == '"' || c == 'n' || c == 't' || c == 'r'
}

/// The characters of a text from `pos` up to what ends it, after those in
/// `acc`, and the position where they end. A backslash in front of a
/// backslash, a quote, `n`, `t` or `r` is left out and the character after
/// it kept.
pub open spec fn text_body(s: Seq<char>, pos: int, acc: Seq<char>) -> (Seq<char>, int)
    decreases s.len() - pos,
{
    if char_at(s, pos, '\\') && 0 <= pos + 1 < s.len() && is_escaped_char(s[pos + 1]) {
        text_body(s, pos + 2, acc.push(s[pos + 1]))
    } else if 0 <= pos < s.len() && s[pos] != '"' && s[pos] != '\\' {
        text_body(s, pos + 1, acc.push(s[pos]))
    } else {
        (acc, pos)
    }
}

/// A text between quotes.
pub open spec fn raw_text_at(s: Seq<char>, pos: int) -> Found<Seq<char>> {
    if char_at(s, pos, '"') {
        let body = text_body(s, pos + 1, Seq::empty());
        if char_at(s, body.1, '"') {
            Some((body.0, body.1 + 1))
        } else {
            None
        }
    } else {
        None
    }
}

/// A text, as a value.
pub open spec fn text_at(s: Seq<char>, pos: int) -> Found<SpannedValueView> {
    match raw_text_at(s, pos) {
        Some((t, end)) => Some((SpannedValueView::Text(t), end)),
        None => None,
    }
}

/// Whether the characters from `pos` are two digits, the first of them at
/// most `high`.
pub open spec fn two_digits_at(s: Seq<char>, pos: int, high: char) -> bool {
    0 <= pos && pos + 1 < s.len() && '0' <= s[pos] <= high && class_at(
        s,
        pos + 1,
        CharClass::Digit,
    )
}

/// The length of a time zone at `pos`: `Z`, or a sign, hours, a colon and
/// minutes; zero where none stands.
pub open spec fn zone_len(s: Seq<char>, pos: int) -> nat {
    if char_at(s, pos, 'Z') {
        1
    } else if (char_at(s, pos, '+') || char_at(s, pos, '-')) && two_digits_at(s, pos + 1, '2')
        && char_at(s, pos + 3, ':') && two_digits_at(s, pos + 4, '5') {
        6
    } else {
        0
    }
}

/// The length of a timestamp at `pos`: a date of four, two and two digits,
/// `T`, a time of three times two digits, an optional fraction of a second
/// and a time zone; zero where none stands.
pub open spec fn timestamp_len(s: Seq<char>, pos: int) -> nat {
    if run_len(s, pos, CharClass::Digit) >= 4 && char_at(s, pos + 4, '-') && two_digits_at(
        s,
        pos + 5,
        '2',
    ) && char_at(s, pos + 7, '-') && two_digits_at(s, pos + 8, '3') && char_at(s, pos + 10, 'T')
        && two_digits_at(s, pos + 11, '2') && char_at(s, pos + 13, ':') && two_digits_at(
        s,
        pos + 14,
        '5',
    ) && char_at(s, pos + 16, ':') && two_digits_at(s, pos + 17, '6') && zone_len(
        s,
        pos + 19 + fraction_len(s, pos + 19),
    ) >= 1 {
        19 + fraction_len(s, pos + 19) + zone_len(s, pos + 19 + fraction_len(s, pos + 19))
    } else {
        0
    }
}

/// What `chrono::DateTime::parse_from_rfc3339` makes of a text: the
/// instant in microseconds since the Unix epoch, or nothing where it
/// refuses the text.
pub uninterp spec fn rfc3339_micros(text: Seq<char>) -> Option<i64>;

/// What `chrono::DateTime::from_timestamp_micros` and
/// `to_rfc3339_opts`, with microseconds and `Z`, write for an instant in
/// microseconds since the Unix epoch, or nothing where the instant is out
/// of their range.
pub uninterp spec fn rfc3339_text(micros: i64) -> Option<Seq<char>>;

/// Whether a text is a timestamp that reads as the instant: followed by
/// a quote it has the shape of a timestamp as a whole, and it names the
/// instant.
pub open spec fn stamp_reads(t: Seq<char>, micros: int) -> bool {
    &&& t.len() >= 1
    &&& timestamp_len(t.push('"'), 0) == t.len()
    &&& rfc3339_micros(t) matches Some(named)
    &&& named == micros
}

/// The timestamp that is written for an instant before the epoch, if
/// there is one and it reads as the instant.
pub open spec fn stamp_of(micros: int) -> Option<Seq<char>> {
    if i64::MIN <= micros < 0 {
        match rfc3339_text(micros as i64) {
            Some(t) => if stamp_reads(t, micros) {
                Some(t)
            } else {
                None
            },
            None => None,
        }
    } else {
        None
    }
}

/// A count after a tag, such as `#instmicros 1500`.
pub open spec fn tagged_count_at(s: Seq<char>, pos: int, tag: Seq<char>, limit: int) -> Found<int> {
    match after_tag(s, pos, tag) {
        Some(q) => {
            let digits = run_len(s, q, CharClass::Digit);
            if digits >= 1 {
                match radix_number(s.subrange(q, q + digits), 10, limit) {
                    Some(v) => Some((v, q + digits)),
                    None => None,
                }
            } else {
                None
            }
        },
        None => None,
    }
}

/// The largest number of milliseconds whose microseconds fit in 64 bits.
pub open spec fn max_millis() -> int {
    9_223_372_036_854_775
}

/// An instant in milliseconds: `#instmillis` and a count.
pub open spec fn inst_millis_at(s: Seq<char>, pos: int) -> Found<SpannedValueView> {
    match tagged_count_at(s, pos, "#instmillis"@, max_millis()) {
        Some((millis, end)) => Some((SpannedValueView::Instant(millis * 1000), end)),
        None => None,
    }
}

/// An instant in microseconds: `#instmicros` and a count.
pub open spec fn inst_micros_at(s: Seq<char>, pos: int) -> Found<SpannedValueView> {
    match tagged_count_at(s, pos, "#instmicros"@, max_long()) {
        Some((micros, end)) => Some((SpannedValueView::Instant(micros), end)),
        None => None,
    }
}

/// An instant as a timestamp: `#inst` and a timestamp between quotes,
/// which must name an instant.
pub open spec fn inst_string_at(s: Seq<char>, pos: int) -> Found<SpannedValueView> {
    match after_tag(s, pos, "#inst"@) {
        Some(q) => {
            let n = timestamp_len(s, q + 1);
            if char_at(s, q, '"') && n >= 1 && char_at(s, q + 1 + n, '"') {
                match rfc3339_micros(s.subrange(q + 1, q + 1 + n)) {
                    Some(micros) => Some((SpannedValueView::Instant(micros as int), q + 2 + n)),
                    None => None,
                }
            } else {
                None
            }
        },
        None => None,
    }
}

/// An instant, in one of its three forms.
pub open spec fn inst_at(s: Seq<char>, pos: int) -> Found<SpannedValueView> {
    first_of(inst_millis_at(s, pos), first_of(inst_micros_at(s, pos), inst_string_at(s, pos)))
}

/// Whether the 36 characters from `pos` are an identifier in the
/// hyphenated form, in lower case.
pub open spec fn lower_uuid_at(s: Seq<char>, pos: int) -> bool {
    &&& 0 <= pos && pos + 36 <= s.len()
    &&& s[pos + 8] == '-'
    &&& s[pos + 13] == '-'
    &&& s[pos + 18] == '-'
    &&& s[pos + 23] == '-'
    &&& forall|k: int|
        0 <= k < 32 ==> CharClass::LowerHexDigit.holds(#[trigger] s[pos + hyphenated_index(k)])
}

/// An identifier: `#uuid` and the hyphenated form between quotes.
pub open spec fn uuid_at(s: Seq<char>, pos: int) -> Found<SpannedValueView> {
    match after_tag(s, pos, "#uuid"@) {
        Some(q) => if char_at(s, q, '"') && lower_uuid_at(s, q + 1) && char_at(s, q + 37, '"') {
            Some((SpannedValueView::Uuid(hyphenated_bytes(s.subrange(q + 1, q + 37))), q + 38))
        } else {
            None
        },
        None => None,
    }
}

/// The length of the dotted parts of a namespace at `pos`: a point and at
/// least one more character, as often as that stands there.
pub open spec fn dotted_len(s: Seq<char>, pos: int) -> nat
    decreases s.len() - pos,
{
    let part = run_len(s, pos + 1, CharClass::SymbolSubsequent);
    if char_at(s, pos, '.') && part >= 1 && pos + 1 + part <= s.len() {
        1 + part + dotted_len(s, pos + 1 + part)
    } else {
        0
    }
}

/// The length of a namespace at `pos`, zero where none stands.
pub open spec fn namespace_len(s: Seq<char>, pos: int) -> nat {
    if class_at(s, pos, CharClass::SymbolInitial) {
        let first = 1 + run_len(s, pos + 1, CharClass::SymbolSubsequent);
        first + dotted_len(s, pos + first)
    } else {
        0
    }
}

/// The length of a name at `pos`, zero where none stands.
pub open spec fn symbol_name_len(s: Seq<char>, pos: int) -> nat {
    if class_at(s, pos, CharClass::SymbolInitial) {
        1 + run_len(s, pos + 1, CharClass::SymbolSubsequent)
    } else {
        0
    }
}

/// The length of the name of a symbol at `pos`: a name, `...` or `.`; zero
/// where none stands.
pub open spec fn plain_symbol_name_len(s: Seq<char>, pos: int) -> nat {
    if symbol_name_len(s, pos) >= 1 {
        symbol_name_len(s, pos)
    } else if literal_at(s, pos, "..."@) {
        "..."@.len()
    } else if char_at(s, pos, '.') {
        1
    } else {
        0
    }
}

/// A name with an optional namespace in front. Where a namespace and a
/// slash stand at `pos`, a name must follow them. `plain` says whether the
/// name may also be `...` or `.`, as that of a symbol may.
pub open spec fn name_at(s: Seq<char>, pos: int, plain: bool) -> Found<NameView> {
    let ns = namespace_len(s, pos);
    if ns >= 1 && char_at(s, pos + ns, '/') {
        let start = pos + ns + 1;
        let n = if plain {
            plain_symbol_name_len(s, start)
        } else {
            symbol_name_len(s, start)
        };
        if n >= 1 && start + n <= s.len() {
            Some(
                (
                    NameView {
                        namespace: Some(s.subrange(pos, pos + ns)),
                        name: s.subrange(start, start + n),
                    },
                    start + n,
                ),
            )
        } else {
            None
        }
    } else {
        let n = if plain {
            plain_symbol_name_len(s, pos)
        } else {
            symbol_name_len(s, pos)
        };
        if n >= 1 && 0 <= pos && pos + n <= s.len() {
            Some((NameView { namespace: None, name: s.subrange(pos, pos + n) }, pos + n))
        } else {
            None
        }
    }
}

/// A keyword: a colon and a name with an optional namespace.
pub open spec fn raw_keyword_at(s: Seq<char>, pos: int) -> Found<NameView> {
    if char_at(s, pos, ':') {
        name_at(s, pos + 1, false)
    } else {
        None
    }
}

/// A keyword, as a value.
pub open spec fn keyword_at(s: Seq<char>, pos: int) -> Found<SpannedValueView> {
    match raw_keyword_at(s, pos) {
        Some((k, end)) => Some((SpannedValueView::Keyword(k), end)),
        None => None,
    }
}

/// A symbol, as a value.
pub open spec fn symbol_at(s: Seq<char>, pos: int) -> Found<SpannedValueView> {
    match name_at(s, pos, true) {
        Some((name, end)) => Some(
            (
                if name.namespace is Some {
                    SpannedValueView::NamespacedSymbol(name)
                } else {
                    SpannedValueView::PlainSymbol(name.name)
                },
                end,
            ),
        ),
        None => None,
    }
}

/// A value that is no collection.
#[verifier::opaque]
pub open spec fn scalar_at(s: Seq<char>, pos: int) -> Found<SpannedValueView> {
    first_of(
        word_at(s, pos, "nil"@, SpannedValueView::Nil),
        first_of(
            nan_at(s, pos),
            first_of(
                infinity_at(s, pos),
                first_of(
                    boolean_at(s, pos),
                    first_of(
                        number_at(s, pos),
                        first_of(
                            inst_at(s, pos),
                            first_of(
                                uuid_at(s, pos),
                                first_of(
                                    text_at(s, pos),
                                    first_of(keyword_at(s, pos), symbol_at(s, pos)),
                                ),
                            ),
                        ),
                    ),
                ),
            ),
        ),
    )
}

/// The four kinds of collection.
#[derive(Debug, Clone, Copy, PartialEq, Eq, Structural)]
pub enum Bracket {
    List,
    Vector,
    MapOf,
    SetOf,
}

/// The length of the opening bracket of a collection at `pos`, and the
/// kind it opens.
pub open spec fn opening_at(s: Seq<char>, pos: int) -> Option<(Bracket, nat)> {
    if char_at(s, pos, '(') {
        Some((Bracket::List, 1))
    } else if char_at(s, pos, '[') {
        Some((Bracket::Vector, 1))
    } else if char_at(s, pos, '{') {
        Some((Bracket::MapOf, 1))
    } else if char_at(s, pos, '#') && char_at(s, pos + 1, '{') {
        Some((Bracket::SetOf, 2))
    } else {
        None
    }
}

/// The character that closes a collection.
pub open spec fn closing_of(bracket: Bracket) -> char {
    match bracket {
        Bracket::List => ')',
        Bracket::Vector => ']',
        Bracket::MapOf => '}',
        Bracket::SetOf => '}',
    }
}

/// A value with the blanks around it. The span is that of the value
/// alone.
pub open spec fn value_at(s: Seq<char>, pos: int) -> Found<ValueAndSpanView>
    decreases s.len() - pos, 1nat,
{
    let start = pos + blank_len(s, pos);
    if pos < 0 || start > s.len() {
        None
    } else {
        match bare_value_at(s, start) {
            Some((inner, end)) => Some(
                (
                    ValueAndSpanView { inner, span: span_of(s, start, end) },
                    end + blank_len(s, end),
                ),
            ),
            None => None,
        }
    }
}

/// A value without blanks around it: a scalar, or else a list, a vector, a
/// map or a set.
pub open spec fn bare_value_at(s: Seq<char>, pos: int) -> Found<SpannedValueView>
    decreases s.len() - pos, 0nat,
{
    if scalar_at(s, pos) is Some {
        scalar_at(s, pos)
    } else {
        match opening_at(s, pos) {
            Some((bracket, open)) => {
                let inside = pos + open + blank_len(s, pos + open);
                if open < 1 || inside > s.len() {
                    None
                } else if bracket == Bracket::MapOf {
                    let entries = entries_at(s, inside, Seq::empty());
                    let close = entries.1 + blank_len(s, entries.1);
                    if char_at(s, close, closing_of(bracket)) {
                        Some((SpannedValueView::MapOf(entries.0), close + 1))
                    } else {
                        None
                    }
                } else {
                    let items = items_at(s, inside, Seq::empty());
                    let close = items.1 + blank_len(s, items.1);
                    if char_at(s, close, closing_of(bracket)) {
                        Some(
                            (
                                match bracket {
                                    Bracket::List => SpannedValueView::List(items.0),
                                    Bracket::Vector => SpannedValueView::Vector(items.0),
                                    _ => SpannedValueView::SetOf(items.0),
                                },
                                close + 1,
                            ),
                        )
                    } else {
                        None
                    }
                }
            },
            None => None,
        }
    }
}

/// As many values as stand at `pos`, after those in `acc`, and the
/// position after them.
pub open spec fn items_at(s: Seq<char>, pos: int, acc: Seq<ValueAndSpanView>) -> (
    Seq<ValueAndSpanView>,
    int,
)
    decreases s.len() - pos, 2nat,
{
    match value_at(s, pos) {
        Some((v, next)) => if pos < next <= s.len() {
            items_at(s, next, acc.push(v))
        } else {
            (acc, pos)
        },
        None => (acc, pos),
    }
}

/// As many pairs of values as stand at `pos`, after those in `acc`, and
/// the position after them.
pub open spec fn entries_at(
    s: Seq<char>,
    pos: int,
    acc: Seq<(ValueAndSpanView, ValueAndSpanView)>,
) -> (Seq<(ValueAndSpanView, ValueAndSpanView)>, int)
    decreases s.len() - pos, 2nat,
{
    match value_at(s, pos) {
        Some((k, mid)) => if pos < mid <= s.len() {
            match value_at(s, mid) {
                Some((v, next)) => if mid < next <= s.len() {
                    entries_at(s, next, acc.push((k, v)))
                } else {
                    (acc, pos)
                },
                None => (acc, pos),
            }
        } else {
            (acc, pos)
        },
        None => (acc, pos),
    }
}

/// The whole text as one value.
pub open spec fn whole_value(s: Seq<char>) -> Option<ValueAndSpanView> {
    match value_at(s, 0) {
        Some((v, end)) => if end == s.len() {
            Some(v)
        } else {
            None
        },
        None => None,
    }
}

/// Where reading the text as one value stops, if it fails: after the
/// leading blanks where no value stands, else after the value and the
/// blanks behind it, where the text should end.
pub open spec fn value_stop(s: Seq<char>) -> int {
    match value_at(s, 0) {
        Some((_, end)) => end,
        None => blank_len(s, 0) as int,
    }
}

/// The number of line feeds among the first `pos` characters.
pub open spec fn lines_before(s: Seq<char>, pos: int) -> nat
    decreases pos,
{
    if pos <= 0 || pos > s.len() {
        0
    } else if s[pos - 1] == '\n' {
        1 + lines_before(s, pos - 1)
    } else {
        lines_before(s, pos - 1)
    }
}

/// The number of characters between the last line feed before `pos`, or
/// the start of the text, and `pos`.
pub open spec fn column_before(s: Seq<char>, pos: int) -> nat
    decreases pos,
{
    if pos <= 0 || pos > s.len() || s[pos - 1] == '\n' {
        0
    } else {
        1 + column_before(s, pos - 1)
    }
}

/// A keyword that is read as a value has a name, and its namespace is not
/// empty if it has one.
pub proof fn lemma_keywords_well_formed(s: Seq<char>, pos: int)
    ensures
        value_at(s, pos) matches Some((v, _)) ==> (v.inner matches SpannedValueView::Keyword(k)
            ==> k.well_formed()),
{
    reveal(scalar_at);
    let start = pos + blank_len(s, pos);
    if value_at(s, pos) is Some {
        assert(bare_value_at(s, start) is Some);
        let found = bare_value_at(s, start).unwrap();
        if found.0 is Keyword {
            assert(scalar_at(s, start) is Some);
            assert(scalar_at(s, start) == keyword_at(s, start));
        }
    }
}

} // verus!
