//! The reader of values.

use vstd::prelude::*;
use vstd::string::StringExecFns;
use crate::edn::grammar::{
    rfc3339_text, stamp_of, after_tag, bare_value_at, base_len, based_integer_at, bigint_at,
    boolean_at, decimal_integer_at, dotted_len, entries_at, float_at, fraction_len, hex_integer_at,
    infinity_at, inst_at, items_at, keyword_at, long_at, lower_uuid_at, name_at, namespace_len,
    nan_at, number_at, octal_integer_at, plain_symbol_name_len, raw_keyword_at, raw_text_at,
    rfc3339_micros, scalar_at, signed_digits_end, symbol_at, symbol_name_len, tagged_count_at,
    text_at, text_body, timestamp_len, two_digits_at, uuid_at, value_at, value_stop, whole_value,
    zone_len, Bracket, Found,
};
use crate::edn::lexical::{
    lemma_run_len, literal_at, radix_digit, radix_value, scan_blank, scan_char, scan_literal,
    scan_number, scan_run, valid_in_radix, CharClass,
};
use crate::edn::source::{location_at, Source};
use crate::edn::types::{
    digits_value, entries_view, items_view, BigInteger, Float, SpannedValue, ValueAndSpan,
};
use crate::edn::ParseError;
use crate::symbols::{Keyword, NameView, NamespacedSymbol, PlainSymbol};
use crate::text::string_of;
use crate::values::{hyphenated_index, is_hyphenated_uuid, Uuid};

verus! {

/// `chrono::DateTime::parse_from_rfc3339`, with the instant it returns in
/// microseconds since the Unix epoch. The result depends on the text
/// alone.
#[verifier::external_body]
fn parse_rfc3339(text: &str) -> (r: Option<i64>)
    ensures
        r == rfc3339_micros(text@),
{
    match chrono::DateTime::parse_from_rfc3339(text) {
        Ok(t) => Some(t.timestamp_micros()),
        Err(_) => None,
    }
}

/// `chrono::DateTime::from_timestamp_micros`, and `to_rfc3339_opts` with
/// microseconds and `Z` on what it returns. The result depends on the
/// instant alone.
#[verifier::external_body]
fn format_rfc3339(micros: i64) -> (r: Option<String>)
    ensures
        match r {
            Some(t) => rfc3339_text(micros) == Some(t@),
            None => rfc3339_text(micros) is None,
        },
{
    match chrono::DateTime::from_timestamp_micros(micros) {
        Some(t) => Some(t.to_rfc3339_opts(chrono::SecondsFormat::Micros, true)),
        None => None,
    }
}

/// Whether what was read is what the rule finds.
pub open spec fn reads<T: View>(r: Option<(T, usize)>, found: Found<T::V>) -> bool {
    match r {
        Some((v, end)) => found == Some((v@, end as int)),
        None => found is None,
    }
}

/// The position after a word, if it stands at `pos`.
pub fn read_word(src: &Source, pos: usize, word: &str) -> (r: Option<usize>)
    requires
        src.well_formed(),
        pos <= src@.len(),
    ensures
        match r {
            Some(end) => literal_at(src@, pos as int, word@) && end == pos + word@.len() && end
                <= src@.len(),
            None => !literal_at(src@, pos as int, word@),
        },
{
    proof {
        src.lemma_bounded();
    }
    if scan_literal(src.chars(), pos, word) {
        Some(pos + word.unicode_len())
    } else {
        None
    }
}

/// The position after a tag and the whitespace that follows it.
fn read_tag(src: &Source, pos: usize, tag: &str) -> (r: Option<usize>)
    requires
        src.well_formed(),
        pos <= src@.len(),
    ensures
        match r {
            Some(q) => after_tag(src@, pos as int, tag@) == Some(q as int) && pos < q <= src@.len(),
            None => after_tag(src@, pos as int, tag@) is None,
        },
{
    proof {
        src.lemma_bounded();
    }
    match read_word(src, pos, tag) {
        Some(end) => {
            let w = scan_run(src.chars(), end, CharClass::Whitespace);
            if w >= 1 {
                Some(end + w)
            } else {
                None
            }
        },
        None => None,
    }
}

/// The position after an optional sign and at least one digit.
fn read_signed_digits(src: &Source, pos: usize) -> (r: Option<usize>)
    requires
        src.well_formed(),
        pos <= src@.len(),
    ensures
        match r {
            Some(end) => signed_digits_end(src@, pos as int) == Some(end as int) && pos < end
                <= src@.len(),
            None => signed_digits_end(src@, pos as int) is None,
        },
{
    proof {
        src.lemma_bounded();
    }
    let chars = src.chars();
    let sign: usize = if scan_char(chars, pos, '+') || scan_char(chars, pos, '-') {
        1
    } else {
        0
    };
    let digits = scan_run(chars, pos + sign, CharClass::Digit);
    if digits >= 1 {
        Some(pos + sign + digits)
    } else {
        None
    }
}

/// The decimal digits of the characters are worth what the characters
/// spell.
proof fn lemma_digits_value(chars: Seq<char>, digits: Seq<u8>)
    requires
        chars.len() == digits.len(),
        forall|i: int|
            0 <= i < chars.len() ==> CharClass::Digit.holds(#[trigger] chars[i]) && digits[i]
                == radix_digit(chars[i]),
    ensures
        digits_value(digits) == radix_value(chars, 10),
    decreases chars.len(),
{
    if chars.len() > 0 {
        lemma_digits_value(chars.drop_last(), digits.drop_last());
    }
}

/// An integer of any size.
fn read_bigint(src: &Source, pos: usize) -> (r: Option<(SpannedValue, usize)>)
    requires
        src.well_formed(),
        pos <= src@.len(),
    ensures
        reads(r, bigint_at(src@, pos as int)),
        r matches Some((_, end)) ==> pos < end <= src@.len(),
{
    proof {
        src.lemma_bounded();
    }
    let chars = src.chars();
    match read_signed_digits(src, pos) {
        Some(end) => {
            if scan_char(chars, end, 'N') {
                let negative = scan_char(chars, pos, '-');
                let from: usize = if scan_char(chars, pos, '+') || negative {
                    pos + 1
                } else {
                    pos
                };
                let ghost text = chars@.subrange(from as int, end as int);
                let mut digits: Vec<u8> = Vec::new();
                let mut i: usize = from;
                proof {
                    lemma_run_len(chars@, from as int, CharClass::Digit);
                }
                while i < end
                    invariant
                        from <= i <= end <= chars.len(),
                        text == chars@.subrange(from as int, end as int),
                        digits@.len() == i - from,
                        forall|j: int|
                            from <= j < end ==> CharClass::Digit.holds(#[trigger] chars@[j]),
                        forall|j: int|
                            0 <= j < i - from ==> #[trigger] digits@[j] == radix_digit(text[j]),
                    decreases end - i,
                {
                    let c = chars[i];
                    assert(CharClass::Digit.holds(chars@[i as int]));
                    digits.push(((c as u32) - ('0' as u32)) as u8);
                    i += 1;
                }
                proof {
                    assert forall|j: int| 0 <= j < text.len() implies CharClass::Digit.holds(
                        #[trigger] text[j],
                    ) && digits@[j] == radix_digit(text[j]) by {
                        assert(text[j] == chars@[from + j]);
                    }
                    lemma_digits_value(text, digits@);
                }
                let big = BigInteger::from_digits(negative, &digits);
                Some((SpannedValue::BigInteger(big), end + 1))
            } else {
                None
            }
        },
        None => None,
    }
}

/// The length of a radix at `pos`.
fn read_base_len(src: &Source, pos: usize) -> (r: usize)
    requires
        src.well_formed(),
        pos <= src@.len(),
    ensures
        r == base_len(src@, pos as int),
        pos + r <= src@.len(),
{
    proof {
        src.lemma_bounded();
    }
    let chars = src.chars();
    if pos >= chars.len() {
        return 0;
    }
    let c = chars[pos];
    if pos + 1 < chars.len() {
        let d = chars[pos + 1];
        if c == '3' && '0' <= d && d <= '6' {
            return 2;
        }
        if (c == '1' || c == '2') && '0' <= d && d <= '9' {
            return 2;
        }
    }
    if '2' <= c && c <= '9' {
        1
    } else {
        0
    }
}

/// A radix is a number from 2 to 36.
proof fn lemma_base_value(s: Seq<char>, pos: int)
    requires
        base_len(s, pos) >= 1,
    ensures
        2 <= radix_value(s.subrange(pos, pos + base_len(s, pos)), 10) <= 36,
        valid_in_radix(s.subrange(pos, pos + base_len(s, pos)), 10),
{
    let b = base_len(s, pos);
    let digits = s.subrange(pos, pos + b);
    assert(radix_value(Seq::<char>::empty(), 10) == 0);
    if b == 1 {
        assert(digits.drop_last() =~= Seq::<char>::empty());
        assert(digits.last() == s[pos]);
        assert(radix_value(digits, 10) == radix_digit(s[pos]));
    } else {
        let one = digits.drop_last();
        assert(one.drop_last() =~= Seq::<char>::empty());
        assert(one.last() == s[pos]);
        assert(digits.last() == s[pos + 1]);
        assert(radix_value(one, 10) == radix_digit(s[pos]));
        assert(radix_value(digits, 10) == radix_digit(s[pos]) * 10 + radix_digit(s[pos + 1]));
    }
}

/// An integer with a radix of its own.
fn read_based_integer(src: &Source, pos: usize) -> (r: Option<(i64, usize)>)
    requires
        src.well_formed(),
        pos <= src@.len(),
    ensures
        match r {
            Some((v, end)) => based_integer_at(src@, pos as int) == Some((v as int, end as int))
                && pos < end <= src@.len(),
            None => based_integer_at(src@, pos as int) is None,
        },
{
    proof {
        src.lemma_bounded();
    }
    let chars = src.chars();
    let b = read_base_len(src, pos);
    if b >= 1 && scan_char(chars, pos + b, 'r') {
        let digits = scan_run(chars, pos + b + 1, CharClass::Alphanumeric);
        if digits >= 1 {
            proof {
                lemma_base_value(src@, pos as int);
            }
            match scan_number(chars, pos, pos + b, 10, 36) {
                Some(base) => {
                    match scan_number(
                        chars,
                        pos + b + 1,
                        pos + b + 1 + digits,
                        base,
                        0x7fff_ffff_ffff_ffff,
                    ) {
                        Some(v) => Some((v as i64, pos + b + 1 + digits)),
                        None => None,
                    }
                },
                None => None,
            }
        } else {
            None
        }
    } else {
        None
    }
}

/// A hexadecimal integer.
fn read_hex_integer(src: &Source, pos: usize) -> (r: Option<(i64, usize)>)
    requires
        src.well_formed(),
        pos <= src@.len(),
    ensures
        match r {
            Some((v, end)) => hex_integer_at(src@, pos as int) == Some((v as int, end as int))
                && pos < end <= src@.len(),
            None => hex_integer_at(src@, pos as int) is None,
        },
{
    let chars = src.chars();
    match read_word(src, pos, "0x") {
        Some(start) => {
            let digits = scan_run(chars, start, CharClass::HexDigit);
            if digits >= 1 {
                match scan_number(chars, start, start + digits, 16, 0x7fff_ffff_ffff_ffff) {
                    Some(v) => Some((v as i64, start + digits)),
                    None => None,
                }
            } else {
                None
            }
        },
        None => None,
    }
}

/// An octal integer.
fn read_octal_integer(src: &Source, pos: usize) -> (r: Option<(i64, usize)>)
    requires
        src.well_formed(),
        pos <= src@.len(),
    ensures
        match r {
            Some((v, end)) => octal_integer_at(src@, pos as int) == Some((v as int, end as int))
                && pos < end <= src@.len(),
            None => octal_integer_at(src@, pos as int) is None,
        },
{
    proof {
        src.lemma_bounded();
    }
    let chars = src.chars();
    if scan_char(chars, pos, '0') {
        let digits = scan_run(chars, pos + 1, CharClass::OctalDigit);
        if digits >= 1 {
            match scan_number(chars, pos + 1, pos + 1 + digits, 8, 0x7fff_ffff_ffff_ffff) {
                Some(v) => Some((v as i64, pos + 1 + digits)),
                None => None,
            }
        } else {
            None
        }
    } else {
        None
    }
}

/// A decimal integer.
fn read_decimal_integer(src: &Source, pos: usize) -> (r: Option<(i64, usize)>)
    requires
        src.well_formed(),
        pos <= src@.len(),
    ensures
        match r {
            Some((v, end)) => decimal_integer_at(src@, pos as int) == Some((v as int, end as int))
                && pos < end <= src@.len(),
            None => decimal_integer_at(src@, pos as int) is None,
        },
{
    proof {
        src.lemma_bounded();
    }
    let chars = src.chars();
    match read_signed_digits(src, pos) {
        Some(end) => {
            if scan_char(chars, end, '.') || scan_char(chars, end, 'e') || scan_char(
                chars,
                end,
                'E',
            ) {
                return None;
            }
            let negative = scan_char(chars, pos, '-');
            let from: usize = if scan_char(chars, pos, '+') || negative {
                pos + 1
            } else {
                pos
            };
            proof {
                lemma_run_len(chars@, from as int, CharClass::Digit);
                let digits = chars@.subrange(from as int, end as int);
                assert forall|j: int| 0 <= j < digits.len() implies radix_digit(
                    #[trigger] digits[j],
                ) < 10 by {
                    assert(CharClass::Digit.holds(chars@[from + j]));
                }
            }
            match scan_number(chars, from, end, 10, 0x8000_0000_0000_0000) {
                Some(magnitude) => {
                    if negative {
                        if magnitude == 0x8000_0000_0000_0000 {
                            Some((i64::MIN, end))
                        } else {
                            Some((-(magnitude as i64), end))
                        }
                    } else if magnitude <= 0x7fff_ffff_ffff_ffff {
                        Some((magnitude as i64, end))
                    } else {
                        None
                    }
                },
                None => None,
            }
        },
        None => None,
    }
}

/// An integer in one of the four radix forms.
pub fn read_long(src: &Source, pos: usize) -> (r: Option<(i64, usize)>)
    requires
        src.well_formed(),
        pos <= src@.len(),
    ensures
        match r {
            Some((v, end)) => long_at(src@, pos as int) == Some((v as int, end as int)) && pos < end
                <= src@.len(),
            None => long_at(src@, pos as int) is None,
        },
{
    match read_based_integer(src, pos) {
        Some(found) => {
            return Some(found);
        },
        None => {},
    }
    match read_hex_integer(src, pos) {
        Some(found) => {
            return Some(found);
        },
        None => {},
    }
    match read_octal_integer(src, pos) {
        Some(found) => {
            return Some(found);
        },
        None => {},
    }
    read_decimal_integer(src, pos)
}

/// A floating point literal.
fn read_float(src: &Source, pos: usize) -> (r: Option<(SpannedValue, usize)>)
    requires
        src.well_formed(),
        pos <= src@.len(),
    ensures
        reads(r, float_at(src@, pos as int)),
        r matches Some((_, end)) ==> pos < end <= src@.len(),
{
    proof {
        src.lemma_bounded();
    }
    let chars = src.chars();
    match read_signed_digits(src, pos) {
        Some(whole) => {
            let mut end = whole;
            if scan_char(chars, end, '.') {
                let digits = scan_run(chars, end + 1, CharClass::Digit);
                if digits >= 1 {
                    end = end + 1 + digits;
                }
            }
            assert(end == whole + fraction_len(src@, whole as int));
            if scan_char(chars, end, 'e') || scan_char(chars, end, 'E') {
                let sign: usize = if scan_char(chars, end + 1, '+') || scan_char(
                    chars,
                    end + 1,
                    '-',
                ) {
                    1
                } else {
                    0
                };
                let digits = scan_run(chars, end + 1 + sign, CharClass::Digit);
                if digits >= 1 {
                    end = end + 1 + sign + digits;
                }
            }
            let text = string_of(chars, pos, end);
            Some((SpannedValue::Float(Float::Literal(text)), end))
        },
        None => None,
    }
}

/// A number.
fn read_number(src: &Source, pos: usize) -> (r: Option<(SpannedValue, usize)>)
    requires
        src.well_formed(),
        pos <= src@.len(),
    ensures
        reads(r, number_at(src@, pos as int)),
        r matches Some((_, end)) ==> pos < end <= src@.len(),
{
    proof {
        src.lemma_bounded();
    }
    match read_bigint(src, pos) {
        Some(found) => {
            return Some(found);
        },
        None => {},
    }
    match read_long(src, pos) {
        Some((v, end)) => {
            return Some((SpannedValue::Integer(v), end));
        },
        None => {},
    }
    read_float(src, pos)
}

/// A text between quotes.
pub fn read_raw_text(src: &Source, pos: usize) -> (r: Option<(String, usize)>)
    requires
        src.well_formed(),
        pos <= src@.len(),
    ensures
        reads(r, raw_text_at(src@, pos as int)),
        r matches Some((_, end)) ==> pos < end <= src@.len(),
{
    proof {
        src.lemma_bounded();
    }
    let chars = src.chars();
    if !scan_char(chars, pos, '"') {
        return None;
    }
    let mut text = String::new();
    let mut i: usize = pos + 1;
    loop
        invariant
            pos < i <= chars.len(),
            chars@ == src@,
            text_body(src@, pos + 1, Seq::empty()) == text_body(src@, i as int, text@),
        ensures
            pos < i <= chars.len(),
            text_body(src@, pos + 1, Seq::empty()) == (text@, i as int),
        decreases chars.len() - i,
    {
        if i >= chars.len() {
            break ;
        }
        let c = chars[i];
        if c == '\\' {
            if i + 1 < chars.len() {
                let e = chars[i + 1];
                if e == '\\' || e == '"' || e == 'n' || e == 't' || e == 'r' {
                    text.push(e);
                    i += 2;
                    continue ;
                }
            }
            break ;
        } else if c == '"' {
            break ;
        } else {
            text.push(c);
            i += 1;
        }
    }
    if scan_char(chars, i, '"') {
        Some((text, i + 1))
    } else {
        None
    }
}

/// Whether two digits stand at `pos`, the first at most `high`.
fn read_two_digits(src: &Source, pos: usize, high: char) -> (r: bool)
    requires
        src.well_formed(),
    ensures
        r == two_digits_at(src@, pos as int, high),
{
    proof {
        src.lemma_bounded();
    }
    let chars = src.chars();
    pos < chars.len() && pos + 1 < chars.len() && '0' <= chars[pos] && chars[pos] <= high
        && CharClass::Digit.test(chars[pos + 1])
}

/// The length of a fraction at `pos`.
fn read_fraction_len(src: &Source, pos: usize) -> (r: usize)
    requires
        src.well_formed(),
        pos <= src@.len(),
    ensures
        r == fraction_len(src@, pos as int),
        pos + r <= src@.len(),
{
    proof {
        src.lemma_bounded();
    }
    let chars = src.chars();
    if scan_char(chars, pos, '.') {
        let digits = scan_run(chars, pos + 1, CharClass::Digit);
        if digits >= 1 {
            return 1 + digits;
        }
    }
    0
}

/// The length of a timestamp at `pos`.
fn read_timestamp_len(src: &Source, pos: usize) -> (r: usize)
    requires
        src.well_formed(),
        pos <= src@.len(),
    ensures
        r == timestamp_len(src@, pos as int),
        pos + r <= src@.len(),
{
    proof {
        src.lemma_bounded();
    }
    let chars = src.chars();
    if chars.len() - pos < 20 {
        proof {
            lemma_run_len(src@, pos as int, CharClass::Digit);
            if timestamp_len(src@, pos as int) > 0 {
                assert(two_digits_at(src@, pos + 17, '6'));
                assert(zone_len(src@, pos + 19 + fraction_len(src@, pos + 19)) >= 1);
            }
        }
        return 0;
    }
    let fixed = scan_run(chars, pos, CharClass::Digit) >= 4 && scan_char(chars, pos + 4, '-')
        && read_two_digits(src, pos + 5, '2') && scan_char(chars, pos + 7, '-')
        && read_two_digits(src, pos + 8, '3') && scan_char(chars, pos + 10, 'T')
        && read_two_digits(src, pos + 11, '2') && scan_char(chars, pos + 13, ':')
        && read_two_digits(src, pos + 14, '5') && scan_char(chars, pos + 16, ':')
        && read_two_digits(src, pos + 17, '6');
    if !fixed {
        return 0;
    }
    let fraction = read_fraction_len(src, pos + 19);
    let z = pos + 19 + fraction;
    let zone: usize = if scan_char(chars, z, 'Z') {
        1
    } else if chars.len() - z >= 6 && (scan_char(chars, z, '+') || scan_char(chars, z, '-'))
        && read_two_digits(src, z + 1, '2') && scan_char(chars, z + 3, ':') && read_two_digits(
        src,
        z + 4,
        '5',
    ) {
        6
    } else {
        0
    };
    if zone >= 1 {
        19 + fraction + zone
    } else {
        0
    }
}

/// A count after a tag.
fn read_tagged_count(src: &Source, pos: usize, tag: &str, limit: u64) -> (r: Option<(i64, usize)>)
    requires
        src.well_formed(),
        pos <= src@.len(),
        limit <= 0x7fff_ffff_ffff_ffff,
    ensures
        match r {
            Some((v, end)) => tagged_count_at(src@, pos as int, tag@, limit as int) == Some(
                (v as int, end as int),
            ) && pos < end <= src@.len() && 0 <= v <= limit,
            None => tagged_count_at(src@, pos as int, tag@, limit as int) is None,
        },
{
    proof {
        src.lemma_bounded();
    }
    let chars = src.chars();
    match read_tag(src, pos, tag) {
        Some(q) => {
            let digits = scan_run(chars, q, CharClass::Digit);
            if digits >= 1 {
                match scan_number(chars, q, q + digits, 10, limit) {
                    Some(v) => Some((v as i64, q + digits)),
                    None => None,
                }
            } else {
                None
            }
        },
        None => None,
    }
}

/// An instant.
fn read_inst(src: &Source, pos: usize) -> (r: Option<(SpannedValue, usize)>)
    requires
        src.well_formed(),
        pos <= src@.len(),
    ensures
        reads(r, inst_at(src@, pos as int)),
        r matches Some((_, end)) ==> pos < end <= src@.len(),
{
    proof {
        src.lemma_bounded();
    }
    let chars = src.chars();
    match read_tagged_count(src, pos, "#instmillis", 9_223_372_036_854_775) {
        Some((millis, end)) => {
            return Some((SpannedValue::Instant(millis * 1000), end));
        },
        None => {},
    }
    match read_tagged_count(src, pos, "#instmicros", 0x7fff_ffff_ffff_ffff) {
        Some((micros, end)) => {
            return Some((SpannedValue::Instant(micros), end));
        },
        None => {},
    }
    match read_tag(src, pos, "#inst") {
        Some(q) => {
            if !scan_char(chars, q, '"') {
                return None;
            }
            let n = read_timestamp_len(src, q + 1);
            if n >= 1 && scan_char(chars, q + 1 + n, '"') {
                let text = string_of(chars, q + 1, q + 1 + n);
                match parse_rfc3339(text.as_str()) {
                    Some(micros) => Some((SpannedValue::Instant(micros), q + 2 + n)),
                    None => None,
                }
            } else {
                None
            }
        },
        None => None,
    }
}

/// Whether an identifier in the hyphenated form, in lower case, stands at
/// `pos`.
fn read_lower_uuid(src: &Source, pos: usize) -> (r: bool)
    requires
        src.well_formed(),
        pos <= src@.len(),
    ensures
        r == lower_uuid_at(src@, pos as int),
{
    proof {
        src.lemma_bounded();
    }
    let chars = src.chars();
    if chars.len() - pos < 36 {
        return false;
    }
    let mut p: usize = 0;
    while p < 36
        invariant
            p <= 36,
            pos + 36 <= chars.len(),
            chars@ == src@,
            forall|j: int|
                0 <= j < p ==> (if j == 8 || j == 13 || j == 18 || j == 23 {
                    chars@[pos + j] == '-'
                } else {
                    CharClass::LowerHexDigit.holds(#[trigger] chars@[pos + j])
                }),
        decreases 36 - p,
    {
        let c = chars[pos + p];
        if p == 8 || p == 13 || p == 18 || p == 23 {
            if c != '-' {
                return false;
            }
        } else if !CharClass::LowerHexDigit.test(c) {
            proof {
                let k = p - (if p > 23 {
                    4int
                } else if p > 18 {
                    3
                } else if p > 13 {
                    2
                } else if p > 8 {
                    1
                } else {
                    0
                });
                assert(hyphenated_index(k) == p);
            }
            return false;
        }
        p += 1;
    }
    proof {
        assert forall|k: int| 0 <= k < 32 implies CharClass::LowerHexDigit.holds(
            #[trigger] src@[pos + hyphenated_index(k)],
        ) by {
            let j = hyphenated_index(k);
            assert(0 <= j < 36 && j != 8 && j != 13 && j != 18 && j != 23);
            assert(CharClass::LowerHexDigit.holds(chars@[pos + j]));
        }
    }
    true
}

/// An identifier.
fn read_uuid(src: &Source, pos: usize) -> (r: Option<(SpannedValue, usize)>)
    requires
        src.well_formed(),
        pos <= src@.len(),
    ensures
        reads(r, uuid_at(src@, pos as int)),
        r matches Some((_, end)) ==> pos < end <= src@.len(),
{
    proof {
        src.lemma_bounded();
    }
    let chars = src.chars();
    match read_tag(src, pos, "#uuid") {
        Some(q) => {
            if scan_char(chars, q, '"') && read_lower_uuid(src, q + 1) && scan_char(
                chars,
                q + 37,
                '"',
            ) {
                let text = string_of(chars, q + 1, q + 37);
                proof {
                    assert forall|k: int| 0 <= k < 32 implies crate::values::is_hex_digit(
                        #[trigger] text@[hyphenated_index(k)],
                    ) by {
                        assert(CharClass::LowerHexDigit.holds(src@[q + 1 + hyphenated_index(k)]));
                    }
                    assert(is_hyphenated_uuid(text@));
                }
                match Uuid::parse_str(text.as_str()) {
                    Some(u) => Some((SpannedValue::Uuid(u), q + 38)),
                    None => None,
                }
            } else {
                None
            }
        },
        None => None,
    }
}

/// The length of a namespace at `pos`.
fn read_namespace_len(src: &Source, pos: usize) -> (r: usize)
    requires
        src.well_formed(),
        pos <= src@.len(),
    ensures
        r == namespace_len(src@, pos as int),
        pos + r <= src@.len(),
{
    proof {
        src.lemma_bounded();
    }
    let chars = src.chars();
    if !(pos < chars.len() && CharClass::SymbolInitial.test(chars[pos])) {
        return 0;
    }
    let first = 1 + scan_run(chars, pos + 1, CharClass::SymbolSubsequent);
    let mut end: usize = pos + first;
    loop
        invariant
            pos + first <= end <= chars.len(),
            chars@ == src@,
            dotted_len(src@, pos + first) == (end - (pos + first)) + dotted_len(src@, end as int),
        ensures
            pos + first <= end <= chars.len(),
            dotted_len(src@, pos + first) == end - (pos + first),
        decreases chars.len() - end,
    {
        if !scan_char(chars, end, '.') {
            break ;
        }
        let part = scan_run(chars, end + 1, CharClass::SymbolSubsequent);
        if part == 0 {
            break ;
        }
        end = end + 1 + part;
    }
    end - pos
}

/// The length of a name at `pos`.
pub fn read_symbol_name_len(src: &Source, pos: usize) -> (r: usize)
    requires
        src.well_formed(),
        pos <= src@.len(),
    ensures
        r == symbol_name_len(src@, pos as int),
        pos + r <= src@.len(),
{
    read_name_len(src, pos, false)
}

/// The length of a name at `pos`; `plain` says whether it may also be
/// `...` or `.`.
fn read_name_len(src: &Source, pos: usize, plain: bool) -> (r: usize)
    requires
        src.well_formed(),
        pos <= src@.len(),
    ensures
        r == (if plain {
            plain_symbol_name_len(src@, pos as int)
        } else {
            symbol_name_len(src@, pos as int)
        }),
        pos + r <= src@.len(),
{
    proof {
        src.lemma_bounded();
    }
    let chars = src.chars();
    if pos < chars.len() && CharClass::SymbolInitial.test(chars[pos]) {
        return 1 + scan_run(chars, pos + 1, CharClass::SymbolSubsequent);
    }
    if !plain {
        return 0;
    }
    match read_word(src, pos, "...") {
        Some(end) => {
            return end - pos;
        },
        None => {},
    }
    if scan_char(chars, pos, '.') {
        1
    } else {
        0
    }
}

/// The two parts of a name with an optional namespace, as positions: the
/// end of the namespace if there is one, the start of the name and its
/// end.
fn read_name(src: &Source, pos: usize, plain: bool) -> (r: Option<(Option<usize>, usize, usize)>)
    requires
        src.well_formed(),
        pos <= src@.len(),
    ensures
        match r {
            Some((ns_end, start, end)) => {
                &&& pos <= start < end <= src@.len()
                &&& name_at(src@, pos as int, plain) == Some(
                    (
                        NameView {
                            namespace: match ns_end {
                                Some(e) => Some(src@.subrange(pos as int, e as int)),
                                None => None,
                            },
                            name: src@.subrange(start as int, end as int),
                        },
                        end as int,
                    ),
                )
                &&& ns_end matches Some(e) ==> pos < e < start
            },
            None => name_at(src@, pos as int, plain) is None,
        },
{
    proof {
        src.lemma_bounded();
    }
    let chars = src.chars();
    let ns = read_namespace_len(src, pos);
    if ns >= 1 && scan_char(chars, pos + ns, '/') {
        let start = pos + ns + 1;
        let n = read_name_len(src, start, plain);
        if n >= 1 {
            Some((Some(pos + ns), start, start + n))
        } else {
            None
        }
    } else {
        let n = read_name_len(src, pos, plain);
        if n >= 1 {
            Some((None, pos, pos + n))
        } else {
            None
        }
    }
}

/// A keyword.
pub fn read_keyword(src: &Source, pos: usize) -> (r: Option<(Keyword, usize)>)
    requires
        src.well_formed(),
        pos <= src@.len(),
    ensures
        reads(r, raw_keyword_at(src@, pos as int)),
        r matches Some((k, end)) ==> pos < end <= src@.len() && k@.well_formed(),
{
    proof {
        src.lemma_bounded();
    }
    let chars = src.chars();
    if !scan_char(chars, pos, ':') {
        return None;
    }
    match read_name(src, pos + 1, false) {
        Some((ns_end, start, end)) => {
            let name = string_of(chars, start, end);
            let k = match ns_end {
                Some(e) => {
                    let namespace = string_of(chars, pos + 1, e);
                    Keyword::namespaced(namespace.as_str(), name.as_str())
                },
                None => Keyword::plain(name.as_str()),
            };
            Some((k, end))
        },
        None => None,
    }
}

/// A symbol.
fn read_symbol(src: &Source, pos: usize) -> (r: Option<(SpannedValue, usize)>)
    requires
        src.well_formed(),
        pos <= src@.len(),
    ensures
        reads(r, symbol_at(src@, pos as int)),
        r matches Some((_, end)) ==> pos < end <= src@.len(),
{
    proof {
        src.lemma_bounded();
    }
    let chars = src.chars();
    match read_name(src, pos, true) {
        Some((ns_end, start, end)) => {
            let name = string_of(chars, start, end);
            let v = match ns_end {
                Some(e) => {
                    let namespace = string_of(chars, pos, e);
                    SpannedValue::NamespacedSymbol(
                        NamespacedSymbol::namespaced(namespace.as_str(), name.as_str()),
                    )
                },
                None => SpannedValue::PlainSymbol(PlainSymbol::plain(name.as_str())),
            };
            Some((v, end))
        },
        None => None,
    }
}

/// A value that is no collection.
fn read_scalar(src: &Source, pos: usize) -> (r: Option<(SpannedValue, usize)>)
    requires
        src.well_formed(),
        pos <= src@.len(),
    ensures
        reads(r, scalar_at(src@, pos as int)),
        r matches Some((_, end)) ==> pos < end <= src@.len(),
{
    proof {
        src.lemma_bounded();
    }
    proof {
        reveal(scalar_at);
        reveal_strlit("nil");
        reveal_strlit("NaN");
        reveal_strlit("Infinity");
        reveal_strlit("true");
        reveal_strlit("false");
    }
    let chars = src.chars();
    match read_word(src, pos, "nil") {
        Some(end) => {
            return Some((SpannedValue::Nil, end));
        },
        None => {},
    }
    match read_tag(src, pos, "#f") {
        Some(q) => {
            match read_word(src, q, "NaN") {
                Some(end) => {
                    return Some((SpannedValue::Float(Float::NaN), end));
                },
                None => {},
            }
            if scan_char(chars, q, '+') {
                match read_word(src, q + 1, "Infinity") {
                    Some(end) => {
                        return Some((SpannedValue::Float(Float::PositiveInfinity), end));
                    },
                    None => {},
                }
            } else if scan_char(chars, q, '-') {
                match read_word(src, q + 1, "Infinity") {
                    Some(end) => {
                        return Some((SpannedValue::Float(Float::NegativeInfinity), end));
                    },
                    None => {},
                }
            }
        },
        None => {},
    }
    assert(nan_at(src@, pos as int) is None);
    assert(infinity_at(src@, pos as int) is None);
    match read_word(src, pos, "true") {
        Some(end) => {
            return Some((SpannedValue::Boolean(true), end));
        },
        None => {},
    }
    match read_word(src, pos, "false") {
        Some(end) => {
            return Some((SpannedValue::Boolean(false), end));
        },
        None => {},
    }
    assert(boolean_at(src@, pos as int) is None);
    match read_number(src, pos) {
        Some(found) => {
            return Some(found);
        },
        None => {},
    }
    match read_inst(src, pos) {
        Some(found) => {
            return Some(found);
        },
        None => {},
    }
    match read_uuid(src, pos) {
        Some(found) => {
            return Some(found);
        },
        None => {},
    }
    match read_raw_text(src, pos) {
        Some((text, end)) => {
            return Some((SpannedValue::Text(text), end));
        },
        None => {},
    }
    assert(text_at(src@, pos as int) is None);
    match read_keyword(src, pos) {
        Some((k, end)) => {
            return Some((SpannedValue::Keyword(k), end));
        },
        None => {},
    }
    assert(keyword_at(src@, pos as int) is None);
    read_symbol(src, pos)
}

/// A value with the blanks around it.
pub fn read_value(src: &Source, pos: usize) -> (r: Option<(ValueAndSpan, usize)>)
    requires
        src.well_formed(),
        pos <= src@.len(),
    ensures
        reads(r, value_at(src@, pos as int)),
        r matches Some((_, end)) ==> pos < end <= src@.len(),
    decreases src@.len() - pos, 1nat,
{
    let chars = src.chars();
    let start = pos + scan_blank(chars, pos);
    match read_bare_value(src, start) {
        Some((inner, end)) => {
            let span = src.span(start, end);
            let next = end + scan_blank(chars, end);
            Some((ValueAndSpan { inner, span }, next))
        },
        None => None,
    }
}

/// A value without blanks around it.
fn read_bare_value(src: &Source, pos: usize) -> (r: Option<(SpannedValue, usize)>)
    requires
        src.well_formed(),
        pos <= src@.len(),
    ensures
        reads(r, bare_value_at(src@, pos as int)),
        r matches Some((_, end)) ==> pos < end <= src@.len(),
    decreases src@.len() - pos, 0nat,
{
    proof {
        src.lemma_bounded();
    }
    let chars = src.chars();
    match read_scalar(src, pos) {
        Some(found) => {
            return Some(found);
        },
        None => {},
    }
    let bracket: Bracket;
    let open: usize;
    if scan_char(chars, pos, '(') {
        bracket = Bracket::List;
        open = 1;
    } else if scan_char(chars, pos, '[') {
        bracket = Bracket::Vector;
        open = 1;
    } else if scan_char(chars, pos, '{') {
        bracket = Bracket::MapOf;
        open = 1;
    } else if scan_char(chars, pos, '#') && scan_char(chars, pos + 1, '{') {
        bracket = Bracket::SetOf;
        open = 2;
    } else {
        return None;
    }
    let inside = pos + open + scan_blank(chars, pos + open);
    let closing = match bracket {
        Bracket::List => ')',
        Bracket::Vector => ']',
        Bracket::MapOf => '}',
        Bracket::SetOf => '}',
    };
    if let Bracket::MapOf = bracket {
        let mut entries: Vec<(ValueAndSpan, ValueAndSpan)> = Vec::new();
        let mut cur: usize = inside;
        proof {
            assert(entries_view(entries@) =~= Seq::empty());
        }
        loop
            invariant
                src.well_formed(),
                chars@ == src@,
                pos < inside <= cur <= src@.len(),
                entries_at(src@, inside as int, Seq::empty()) == entries_at(
                    src@,
                    cur as int,
                    entries_view(entries@),
                ),
            ensures
                inside <= cur <= src@.len(),
                entries_at(src@, inside as int, Seq::empty()) == (
                    entries_view(entries@),
                    cur as int,
                ),
            decreases src@.len() - cur,
        {
            match read_value(src, cur) {
                Some((k, mid)) => {
                    match read_value(src, mid) {
                        Some((v, next)) => {
                            let ghost before = entries_view(entries@);
                            let ghost pair = (k@, v@);
                            entries.push((k, v));
                            cur = next;
                            proof {
                                assert(entries_view(entries@) =~= before.push(pair));
                            }
                        },
                        None => {
                            break ;
                        },
                    }
                },
                None => {
                    break ;
                },
            }
        }
        let close = cur + scan_blank(chars, cur);
        if scan_char(chars, close, closing) {
            Some((SpannedValue::MapOf(entries), close + 1))
        } else {
            None
        }
    } else {
        let mut items: Vec<ValueAndSpan> = Vec::new();
        let mut cur: usize = inside;
        proof {
            assert(items_view(items@) =~= Seq::empty());
        }
        loop
            invariant
                src.well_formed(),
                chars@ == src@,
                pos < inside <= cur <= src@.len(),
                items_at(src@, inside as int, Seq::empty()) == items_at(
                    src@,
                    cur as int,
                    items_view(items@),
                ),
            ensures
                inside <= cur <= src@.len(),
                items_at(src@, inside as int, Seq::empty()) == (items_view(items@), cur as int),
            decreases src@.len() - cur,
        {
            match read_value(src, cur) {
                Some((v, next)) => {
                    let ghost before = items_view(items@);
                    let ghost item = v@;
                    items.push(v);
                    cur = next;
                    proof {
                        assert(items_view(items@) =~= before.push(item));
                    }
                },
                None => {
                    break ;
                },
            }
        }
        let close = cur + scan_blank(chars, cur);
        if scan_char(chars, close, closing) {
            let value = match bracket {
                Bracket::List => SpannedValue::List(items),
                Bracket::Vector => SpannedValue::Vector(items),
                _ => SpannedValue::SetOf(items),
            };
            Some((value, close + 1))
        } else {
            None
        }
    }
}

/// Reads a text as one value. Blanks may stand around the value, and
/// nothing else.
///
/// Where the text is no value, the error gives the place where reading
/// stopped: after the leading blanks if no value stands there, else after
/// the value and the blanks behind it.
pub fn value(input: &str) -> (r: Result<ValueAndSpan, ParseError>)
    ensures
        match r {
            Ok(v) => whole_value(input@) == Some(v@),
            Err(e) => whole_value(input@) is None && e.location == location_at(
                input@,
                value_stop(input@),
            ),
        },
{
    let src = Source::new(input);
    match read_value(&src, 0) {
        Some((v, end)) => {
            if end == src.len() {
                Ok(v)
            } else {
                Err(ParseError { location: src.location(end) })
            }
        },
        None => {
            let stop = scan_blank(src.chars(), 0);
            Err(ParseError { location: src.location(stop) })
        },
    }
}

/// The timestamp that is written for an instant before the epoch, if
/// there is one and it reads as the instant; see [`stamp_of`].
pub fn stamp_for(micros: i64) -> (r: Option<String>)
    ensures
        match r {
            Some(t) => stamp_of(micros as int) == Some(t@),
            None => stamp_of(micros as int) is None,
        },
{
    if micros >= 0 {
        return None;
    }
    let t = match format_rfc3339(micros) {
        Some(t) => t,
        None => {
            return None;
        },
    };
    let mut quoted = t.clone();
    quoted.push('"');
    let src = Source::new(quoted.as_str());
    proof {
        src.lemma_bounded();
    }
    let n = read_timestamp_len(&src, 0);
    if n < 1 || n + 1 != src.len() {
        return None;
    }
    match parse_rfc3339(t.as_str()) {
        Some(named) => {
            if named == micros {
                Some(t)
            } else {
                None
            }
        },
        None => None,
    }
}

} // verus!
