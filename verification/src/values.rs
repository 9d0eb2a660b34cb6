//! The closed universe of typed values that datoms hold.

use vstd::prelude::*;
use vstd::string::StringExecFns;
use crate::symbols::{Keyword, NameView};
use crate::text::{chars_of, is_digit};

verus! {

/// Whether `c` is a hexadecimal digit, in either case.
pub open spec fn is_hex_digit(c: char) -> bool {
    ('0' <= c <= '9') || ('a' <= c <= 'f') || ('A' <= c <= 'F')
}

/// The value of a hexadecimal digit.
pub open spec fn hex_value(c: char) -> int {
    if '0' <= c <= '9' {
        c as int - '0' as int
    } else if 'a' <= c <= 'f' {
        c as int - 'a' as int + 10
    } else {
        c as int - 'A' as int + 10
    }
}

/// The lower-case hexadecimal digit of a value below sixteen.
pub open spec fn lower_hex_char(n: int) -> char {
    if n < 10 {
        ((48 + n) as u8) as char
    } else {
        ((87 + n) as u8) as char
    }
}

/// Where the `k`-th of the 32 digits stands in the hyphenated form of an
/// identifier: hyphens follow the digits 8, 12, 16 and 20.
pub open spec fn hyphenated_index(k: int) -> int {
    k + (if k >= 8 {
        1int
    } else {
        0
    }) + (if k >= 12 {
        1int
    } else {
        0
    }) + (if k >= 16 {
        1int
    } else {
        0
    }) + (if k >= 20 {
        1int
    } else {
        0
    })
}

/// Whether a text is an identifier in the hyphenated form: groups of 8, 4,
/// 4, 4 and 12 hexadecimal digits with a hyphen between each two.
pub open spec fn is_hyphenated_uuid(text: Seq<char>) -> bool {
    &&& text.len() == 36
    &&& text[8] == '-'
    &&& text[13] == '-'
    &&& text[18] == '-'
    &&& text[23] == '-'
    &&& forall|k: int| 0 <= k < 32 ==> is_hex_digit(#[trigger] text[hyphenated_index(k)])
}

/// The sixteen bytes that the digits of the hyphenated form spell, two
/// digits to a byte.
pub open spec fn hyphenated_bytes(text: Seq<char>) -> Seq<u8> {
    Seq::new(
        16,
        |i: int|
            (16 * hex_value(text[hyphenated_index(2 * i)]) + hex_value(
                text[hyphenated_index(2 * i + 1)],
            )) as u8,
    )
}

/// The hyphenated form of sixteen bytes, in lower case.
pub open spec fn hyphenated_text(bytes: Seq<u8>) -> Seq<char> {
    Seq::new(
        36,
        |p: int|
            if p == 8 || p == 13 || p == 18 || p == 23 {
                '-'
            } else {
                let k = p - (if p > 8 {
                    1int
                } else {
                    0
                }) - (if p > 13 {
                    1int
                } else {
                    0
                }) - (if p > 18 {
                    1int
                } else {
                    0
                }) - (if p > 23 {
                    1int
                } else {
                    0
                });
                if k % 2 == 0 {
                    lower_hex_char(bytes[k / 2] as int / 16)
                } else {
                    lower_hex_char(bytes[k / 2] as int % 16)
                }
            },
    )
}

/// Whether a text is an identifier in the simple form: 32 hexadecimal
/// digits.
pub open spec fn is_simple_uuid(text: Seq<char>) -> bool {
    &&& text.len() == 32
    &&& forall|k: int| 0 <= k < 32 ==> is_hex_digit(#[trigger] text[k])
}

/// The sixteen bytes that the digits of the simple form spell, two
/// digits to a byte.
pub open spec fn simple_bytes(text: Seq<char>) -> Seq<u8> {
    Seq::new(16, |i: int| (16 * hex_value(text[2 * i]) + hex_value(text[2 * i + 1])) as u8)
}

/// Whether a text is an identifier as a name: `urn:uuid:` and the
/// hyphenated form.
pub open spec fn is_urn_uuid(text: Seq<char>) -> bool {
    &&& text.len() == 45
    &&& text.subrange(0, 9) == seq!['u', 'r', 'n', ':', 'u', 'u', 'i', 'd', ':']
    &&& is_hyphenated_uuid(text.subrange(9, 45))
}

/// The sixteen bytes of the identifier that a text is, in one of the
/// three forms: hyphenated, simple, or as a name. Any other text is no
/// identifier.
pub open spec fn uuid_text_bytes(text: Seq<char>) -> Option<Seq<u8>> {
    if is_hyphenated_uuid(text) {
        Some(hyphenated_bytes(text))
    } else if is_simple_uuid(text) {
        Some(simple_bytes(text))
    } else if is_urn_uuid(text) {
        Some(hyphenated_bytes(text.subrange(9, 45)))
    } else {
        None
    }
}

/// `uuid::Uuid::parse_str`, with the bytes of the identifier it returns.
/// It takes the hyphenated form, the simple form, and the hyphenated form
/// behind `urn:uuid:`, with digits in either case, and gives the bytes
/// that the digits spell; it refuses every other text.
#[verifier::external_body]
fn parse_uuid_text(text: &str) -> (r: Option<[u8; 16]>)
    ensures
        match r {
            Some(bytes) => uuid_text_bytes(text@) == Some(bytes@),
            None => uuid_text_bytes(text@) is None,
        },
{
    match uuid::Uuid::parse_str(text) {
        Ok(u) => Some(*u.as_bytes()),
        Err(_) => None,
    }
}

fn hex_digit_of(n: u8) -> (c: char)
    requires
        n < 16,
    ensures
        c == lower_hex_char(n as int),
{
    if n < 10 {
        (48 + n) as char
    } else {
        (87 + n) as char
    }
}

/// A 64-bit entity id.
pub type Entid = i64;

/// The types that a value can have.
#[derive(Debug, Clone, Copy, PartialEq, Eq, Hash, PartialOrd, Ord, Structural)]
pub enum ValueType {
    Ref,
    Boolean,
    Instant,
    Long,
    Double,
    String,
    Keyword,
    Uuid,
    Bytes,
}

/// Why bytes do not make an identifier: the number of bytes that an
/// identifier has, and the number that was found.
#[derive(Debug, Clone, Copy, PartialEq, Eq, Structural)]
pub struct UuidError {
    pub expected: usize,
    pub found: usize,
}

/// A universally unique identifier: sixteen bytes.
#[derive(Debug, Clone, Copy, PartialEq, Eq, Hash, PartialOrd, Ord)]
pub struct Uuid {
    bytes: [u8; 16],
}

impl View for Uuid {
    type V = Seq<u8>;

    closed spec fn view(&self) -> Seq<u8> {
        self.bytes@
    }
}

impl Uuid {
    /// The identifier made of the given bytes.
    pub fn from_bytes(bytes: [u8; 16]) -> (r: Uuid)
        ensures
            r@ == bytes@,
    {
        Uuid { bytes }
    }

    /// The identifier whose bytes are all zero.
    pub fn nil() -> (r: Uuid)
        ensures
            r@ == Seq::new(16, |i: int| 0u8),
    {
        let r = Uuid { bytes: [0u8; 16] };
        assert(r@ =~= Seq::new(16, |i: int| 0u8));
        r
    }

    /// The sixteen bytes.
    pub fn as_bytes(&self) -> (r: &[u8; 16])
        ensures
            r@ == self@,
    {
        &self.bytes
    }

    /// The sixteen bytes as a vector.
    pub fn to_vec(&self) -> (r: Vec<u8>)
        ensures
            r@ == self@,
    {
        let mut out: Vec<u8> = Vec::new();
        let mut i: usize = 0;
        while i < 16
            invariant
                i <= 16,
                out@ == self.bytes@.subrange(0, i as int),
            decreases 16 - i,
        {
            out.push(self.bytes[i]);
            i += 1;
            assert(out@ =~= self.bytes@.subrange(0, i as int));
        }
        assert(out@ =~= self.bytes@);
        out
    }

    /// The identifier made of a slice of sixteen bytes; a slice of
    /// another length is refused with the length that was found.
    pub fn from_slice(bytes: &[u8]) -> (r: Result<Uuid, UuidError>)
        ensures
            match r {
                Ok(u) => bytes@.len() == 16 && u@ == bytes@,
                Err(e) => bytes@.len() != 16 && e.expected == 16 && e.found == bytes@.len(),
            },
    {
        if bytes.len() != 16 {
            return Err(UuidError { expected: 16, found: bytes.len() });
        }
        let mut out = [0u8; 16];
        let mut i: usize = 0;
        while i < 16
            invariant
                i <= 16,
                bytes@.len() == 16,
                forall|j: int| 0 <= j < i ==> out@[j] == bytes@[j],
            decreases 16 - i,
        {
            out[i] = bytes[i];
            i += 1;
        }
        assert(out@ =~= bytes@);
        Ok(Uuid { bytes: out })
    }

    /// Reads an identifier from its text, in the hyphenated form, the
    /// simple form, or the hyphenated form behind `urn:uuid:`; see
    /// [`uuid_text_bytes`].
    pub fn parse_str(text: &str) -> (r: Option<Uuid>)
        ensures
            match r {
                Some(u) => uuid_text_bytes(text@) == Some(u@),
                None => uuid_text_bytes(text@) is None,
            },
    {
        match parse_uuid_text(text) {
            Some(bytes) => Some(Uuid { bytes }),
            None => None,
        }
    }

    /// The identifier in the hyphenated form, in lower case.
    pub fn to_hyphenated_string(&self) -> (r: String)
        ensures
            r@ == hyphenated_text(self@),
    {
        let mut out = String::new();
        let mut p: usize = 0;
        while p < 36
            invariant
                p <= 36,
                out@ == hyphenated_text(self@).take(p as int),
            decreases 36 - p,
        {
            if p == 8 || p == 13 || p == 18 || p == 23 {
                out.push('-');
            } else {
                let hyphens: usize = if p > 23 {
                    4
                } else if p > 18 {
                    3
                } else if p > 13 {
                    2
                } else if p > 8 {
                    1
                } else {
                    0
                };
                let k: usize = p - hyphens;
                let byte = self.bytes[k / 2];
                if k % 2 == 0 {
                    out.push(hex_digit_of(byte / 16));
                } else {
                    out.push(hex_digit_of(byte % 16));
                }
            }
            p += 1;
            assert(out@ =~= hyphenated_text(self@).take(p as int));
        }
        assert(out@ =~= hyphenated_text(self@));
        out
    }

    /// An identifier always has sixteen bytes.
    pub proof fn lemma_len(&self)
        ensures
            self@.len() == 16,
    {
    }
}

/// The number of decimal digits in a row that stand at `from`.
pub open spec fn digit_run(s: Seq<char>, from: int) -> int
    decreases s.len() - from,
{
    if 0 <= from < s.len() && is_digit(s[from]) {
        1 + digit_run(s, from + 1)
    } else {
        0
    }
}

/// Whether a text is a number in scientific notation: an optional minus,
/// digits, an optional point with digits, `e`, an optional minus, and
/// digits; or one of the three forms `NaN`, `inf` and `-inf`.
pub open spec fn is_scientific(s: Seq<char>) -> bool {
    s == seq!['N', 'a', 'N'] || s == seq!['i', 'n', 'f'] || s == seq!['-', 'i', 'n', 'f'] || {
        let sign: int = if s.len() > 0 && s[0] == '-' {
            1
        } else {
            0
        };
        let whole = digit_run(s, sign);
        let point = sign + whole;
        let fraction: int = if point < s.len() && s[point] == '.' {
            1 + digit_run(s, point + 1)
        } else {
            0
        };
        let e = point + fraction;
        let exponent_sign: int = if e + 1 < s.len() && s[e + 1] == '-' {
            1
        } else {
            0
        };
        let exponent = digit_run(s, e + 1 + exponent_sign);
        &&& whole >= 1
        &&& fraction != 1
        &&& e < s.len()
        &&& s[e] == 'e'
        &&& exponent >= 1
        &&& e + 1 + exponent_sign + exponent == s.len()
    }
}

fn count_digits(chars: &Vec<char>, from: usize) -> (r: usize)
    requires
        from <= chars.len(),
    ensures
        r == digit_run(chars@, from as int),
        from + r <= chars.len(),
{
    let mut i: usize = from;
    while i < chars.len() && chars[i] >= '0' && chars[i] <= '9'
        invariant
            from <= i <= chars.len(),
            digit_run(chars@, from as int) == (i - from) + digit_run(chars@, i as int),
        decreases chars.len() - i,
    {
        i += 1;
    }
    i - from
}

/// Whether a text is a number in scientific notation; see
/// [`is_scientific`].
pub fn is_scientific_text(text: &str) -> (r: bool)
    ensures
        r == is_scientific(text@),
{
    let chars = chars_of(text);
    let n = chars.len();
    if n == 3 && chars[0] == 'N' && chars[1] == 'a' && chars[2] == 'N' {
        assert(chars@ =~= seq!['N', 'a', 'N']);
        return true;
    }
    if n == 3 && chars[0] == 'i' && chars[1] == 'n' && chars[2] == 'f' {
        assert(chars@ =~= seq!['i', 'n', 'f']);
        return true;
    }
    if n == 4 && chars[0] == '-' && chars[1] == 'i' && chars[2] == 'n' && chars[3] == 'f' {
        assert(chars@ =~= seq!['-', 'i', 'n', 'f']);
        return true;
    }
    proof {
        let s = chars@;
        if s == seq!['N', 'a', 'N'] {
            assert(s[0] == 'N' && s[1] == 'a' && s[2] == 'N');
        }
        if s == seq!['i', 'n', 'f'] {
            assert(s[0] == 'i' && s[1] == 'n' && s[2] == 'f');
        }
        if s == seq!['-', 'i', 'n', 'f'] {
            assert(s[0] == '-' && s[1] == 'i' && s[2] == 'n' && s[3] == 'f');
        }
    }
    let sign: usize = if n > 0 && chars[0] == '-' {
        1
    } else {
        0
    };
    let whole = count_digits(&chars, sign);
    if whole < 1 {
        return false;
    }
    let point = sign + whole;
    let fraction: usize = if point < n && chars[point] == '.' {
        1 + count_digits(&chars, point + 1)
    } else {
        0
    };
    if fraction == 1 {
        return false;
    }
    let e = point + fraction;
    if e >= n || chars[e] != 'e' {
        return false;
    }
    let exponent_sign: usize = if e + 1 < n && chars[e + 1] == '-' {
        1
    } else {
        0
    };
    let exponent = count_digits(&chars, e + 1 + exponent_sign);
    exponent >= 1 && e + 1 + exponent_sign + exponent == n
}

/// Whether the bits are those of a value that is not a number: the
/// exponent is all ones and the fraction is not zero.
pub open spec fn is_nan_bits(bits: u64) -> bool {
    (bits & 0x7ff0_0000_0000_0000) == 0x7ff0_0000_0000_0000 && (bits & 0x000f_ffff_ffff_ffff)
        != 0
}

/// Whether the bits are those of a zero, of either sign.
pub open spec fn is_zero_bits(bits: u64) -> bool {
    bits == 0 || bits == 0x8000_0000_0000_0000
}

/// The bits that stand for a number among those that are equal to it:
/// one form for all the values that are not numbers, and the positive
/// zero for both zeros.
pub open spec fn canonical_bits(bits: u64) -> u64 {
    if is_nan_bits(bits) {
        0x7ff8_0000_0000_0000
    } else if is_zero_bits(bits) {
        0
    } else {
        bits
    }
}

/// The text that goes with the canonical bits: `NaN` for what is not a
/// number, `0e0` for the zeros, and else the text given.
pub open spec fn canonical_text(bits: u64, scientific: Seq<char>) -> Seq<char> {
    if is_nan_bits(bits) {
        seq!['N', 'a', 'N']
    } else if is_zero_bits(bits) {
        seq!['0', 'e', '0']
    } else {
        scientific
    }
}

/// The text of the zero is in scientific notation.
pub proof fn lemma_zero_is_scientific()
    ensures
        is_scientific(seq!['0', 'e', '0']),
{
    let s = seq!['0', 'e', '0'];
    reveal_with_fuel(digit_run, 3);
    assert(digit_run(s, 0) == 1);
    assert(digit_run(s, 2) == 1);
}

/// Numbers that are equal are held alike: all the values that are not
/// numbers have one form, and so have the two zeros, whatever their text
/// was.
pub proof fn lemma_equal_numbers_are_held_alike(a: u64, b: u64, s: Seq<char>, t: Seq<char>)
    requires
        (is_nan_bits(a) && is_nan_bits(b)) || (is_zero_bits(a) && is_zero_bits(b) && !is_nan_bits(
            a,
        ) && !is_nan_bits(b)),
    ensures
        canonical_bits(a) == canonical_bits(b),
        canonical_text(a, s) == canonical_text(b, t),
{
}

/// A double-precision number, held as the bits of its IEEE 754 form
/// together with its text in scientific notation, such as `1e0`. The text
/// is what SQL statements show of the number; whoever makes the value
/// renders it. Numbers that are equal are held alike: the values that
/// are not numbers have one form, and so have the two zeros.
#[derive(Debug, PartialEq, Eq, Hash)]
pub struct Double {
    bits: u64,
    scientific: String,
}

/// What a [`Double`] holds.
pub struct DoubleView {
    pub bits: u64,
    pub scientific: Seq<char>,
}

impl View for Double {
    type V = DoubleView;

    closed spec fn view(&self) -> DoubleView {
        DoubleView { bits: self.bits, scientific: self.scientific@ }
    }
}

impl Clone for Double {
    fn clone(&self) -> (r: Self)
        ensures
            r == *self,
    {
        proof {
            use_type_invariant(self);
        }
        Double { bits: self.bits, scientific: self.scientific.clone() }
    }
}

impl Double {
    /// The text of a number is in scientific notation, and the number is
    /// held in its canonical form.
    #[verifier::type_invariant]
    spec fn text_is_scientific(self) -> bool {
        &&& is_scientific(self.scientific@)
        &&& self.bits == canonical_bits(self.bits)
        &&& self.scientific@ == canonical_text(self.bits, self.scientific@)
    }

    /// Whether two numbers are equal: they hold the same, since equal
    /// numbers are held alike.
    pub fn same_as(&self, other: &Double) -> (r: bool)
        ensures
            r == (self@ == other@),
    {
        self.bits == other.bits && self.scientific == other.scientific
    }

    fn canonical(bits: u64, scientific: String) -> (r: Double)
        requires
            is_scientific(scientific@),
        ensures
            r@ == (DoubleView {
                bits: canonical_bits(bits),
                scientific: canonical_text(bits, scientific@),
            }),
    {
        let nan = (bits & 0x7ff0_0000_0000_0000) == 0x7ff0_0000_0000_0000 && (bits
            & 0x000f_ffff_ffff_ffff) != 0;
        let zero = bits == 0 || bits == 0x8000_0000_0000_0000;
        proof {
            lemma_zero_is_scientific();
            reveal_strlit("NaN");
            reveal_strlit("0e0");
            assert("NaN"@ =~= seq!['N', 'a', 'N']);
            assert("0e0"@ =~= seq!['0', 'e', '0']);
            let kept: u64 = 0x7ff8_0000_0000_0000;
            assert((kept & 0x7ff0_0000_0000_0000) == 0x7ff0_0000_0000_0000 && (kept
                & 0x000f_ffff_ffff_ffff) != 0) by (bit_vector)
                requires
                    kept == 0x7ff8_0000_0000_0000,
            ;
            assert(!is_nan_bits(0)) by (bit_vector);
            if !nan && !zero {
                assert(canonical_bits(bits) == bits);
            }
        }
        if nan {
            Double { bits: 0x7ff8_0000_0000_0000, scientific: String::from_str("NaN") }
        } else if zero {
            Double { bits: 0, scientific: String::from_str("0e0") }
        } else {
            Double { bits, scientific }
        }
    }

    /// The number with the given bits and text, which must be in
    /// scientific notation, in its canonical form; see
    /// [`canonical_bits`] and [`canonical_text`].
    pub fn new(bits: u64, scientific: String) -> (r: Double)
        requires
            is_scientific(scientific@),
        ensures
            r@ == (DoubleView {
                bits: canonical_bits(bits),
                scientific: canonical_text(bits, scientific@),
            }),
    {
        Double::canonical(bits, scientific)
    }

    /// The number with the given bits and text, in its canonical form,
    /// if the text is in scientific notation.
    pub fn checked(bits: u64, scientific: String) -> (r: Option<Double>)
        ensures
            match r {
                Some(d) => is_scientific(scientific@) && d@ == (DoubleView {
                    bits: canonical_bits(bits),
                    scientific: canonical_text(bits, scientific@),
                }),
                None => !is_scientific(scientific@),
            },
    {
        if is_scientific_text(scientific.as_str()) {
            Some(Double::canonical(bits, scientific))
        } else {
            None
        }
    }

    /// The bits of the number.
    pub fn bits(&self) -> (r: u64)
        ensures
            r == self@.bits,
    {
        self.bits
    }

    /// The number in scientific notation.
    pub fn scientific(&self) -> (r: &str)
        ensures
            r@ == self@.scientific,
            is_scientific(r@),
    {
        proof {
            use_type_invariant(self);
        }
        self.scientific.as_str()
    }
}

/// A typed value: what the `v` of a datom holds.
#[derive(Debug, PartialEq, Eq, Hash)]
pub enum TypedValue {
    /// A reference to an entity.
    Ref(Entid),
    Boolean(bool),
    Long(i64),
    Double(Double),
    /// An instant, in microseconds since the Unix epoch, UTC.
    Instant(i64),
    String(String),
    Keyword(Keyword),
    Uuid(Uuid),
    Bytes(Vec<u8>),
}

/// What a [`TypedValue`] holds.
pub enum TypedValueView {
    Ref(int),
    Boolean(bool),
    Long(int),
    Double(DoubleView),
    Instant(int),
    String(Seq<char>),
    Keyword(NameView),
    Uuid(Seq<u8>),
    Bytes(Seq<u8>),
}

impl TypedValueView {
    /// The type of the value.
    pub open spec fn value_type(self) -> ValueType {
        match self {
            TypedValueView::Ref(_) => ValueType::Ref,
            TypedValueView::Boolean(_) => ValueType::Boolean,
            TypedValueView::Long(_) => ValueType::Long,
            TypedValueView::Double(_) => ValueType::Double,
            TypedValueView::Instant(_) => ValueType::Instant,
            TypedValueView::String(_) => ValueType::String,
            TypedValueView::Keyword(_) => ValueType::Keyword,
            TypedValueView::Uuid(_) => ValueType::Uuid,
            TypedValueView::Bytes(_) => ValueType::Bytes,
        }
    }
}

impl View for TypedValue {
    type V = TypedValueView;

    open spec fn view(&self) -> TypedValueView {
        match self {
            TypedValue::Ref(e) => TypedValueView::Ref(*e as int),
            TypedValue::Boolean(b) => TypedValueView::Boolean(*b),
            TypedValue::Long(v) => TypedValueView::Long(*v as int),
            TypedValue::Double(d) => TypedValueView::Double(d@),
            TypedValue::Instant(micros) => TypedValueView::Instant(*micros as int),
            TypedValue::String(s) => TypedValueView::String(s@),
            TypedValue::Keyword(k) => TypedValueView::Keyword(k@),
            TypedValue::Uuid(u) => TypedValueView::Uuid(u@),
            TypedValue::Bytes(b) => TypedValueView::Bytes(b@),
        }
    }
}

fn same_bytes(a: &[u8], b: &[u8]) -> (r: bool)
    ensures
        r == (a@ == b@),
{
    if a.len() != b.len() {
        return false;
    }
    let mut i: usize = 0;
    while i < a.len()
        invariant
            i <= a.len(),
            a.len() == b.len(),
            forall|j: int| 0 <= j < i ==> a@[j] == b@[j],
        decreases a.len() - i,
    {
        if a[i] != b[i] {
            return false;
        }
        i += 1;
    }
    assert(a@ =~= b@);
    true
}

impl Clone for TypedValue {
    fn clone(&self) -> (r: Self)
        ensures
            r@ == self@,
    {
        match self {
            TypedValue::Ref(e) => TypedValue::Ref(*e),
            TypedValue::Boolean(b) => TypedValue::Boolean(*b),
            TypedValue::Long(v) => TypedValue::Long(*v),
            TypedValue::Double(d) => TypedValue::Double(d.clone()),
            TypedValue::Instant(micros) => TypedValue::Instant(*micros),
            TypedValue::String(s) => TypedValue::String(s.clone()),
            TypedValue::Keyword(k) => TypedValue::Keyword(k.clone()),
            TypedValue::Uuid(u) => TypedValue::Uuid(*u),
            TypedValue::Bytes(b) => {
                let copy = b.clone();
                assert(copy@ =~= b@);
                TypedValue::Bytes(copy)
            },
        }
    }
}

impl TypedValue {
    /// Whether two values hold the same.
    pub fn same_as(&self, other: &TypedValue) -> (r: bool)
        ensures
            r == (self@ == other@),
    {
        match (self, other) {
            (TypedValue::Ref(a), TypedValue::Ref(b)) => *a == *b,
            (TypedValue::Boolean(a), TypedValue::Boolean(b)) => *a == *b,
            (TypedValue::Long(a), TypedValue::Long(b)) => *a == *b,
            (TypedValue::Double(a), TypedValue::Double(b)) => a.same_as(b),
            (TypedValue::Instant(a), TypedValue::Instant(b)) => *a == *b,
            (TypedValue::String(a), TypedValue::String(b)) => *a == *b,
            (TypedValue::Keyword(a), TypedValue::Keyword(b)) => a.same_as(b),
            (TypedValue::Uuid(a), TypedValue::Uuid(b)) => same_bytes(
                a.as_bytes().as_slice(),
                b.as_bytes().as_slice(),
            ),
            (TypedValue::Bytes(a), TypedValue::Bytes(b)) => same_bytes(
                a.as_slice(),
                b.as_slice(),
            ),
            _ => false,
        }
    }

    /// The type of the value.
    pub fn value_type(&self) -> (r: ValueType)
        ensures
            r == self@.value_type(),
    {
        match self {
            TypedValue::Ref(_) => ValueType::Ref,
            TypedValue::Boolean(_) => ValueType::Boolean,
            TypedValue::Long(_) => ValueType::Long,
            TypedValue::Double(_) => ValueType::Double,
            TypedValue::Instant(_) => ValueType::Instant,
            TypedValue::String(_) => ValueType::String,
            TypedValue::Keyword(_) => ValueType::Keyword,
            TypedValue::Uuid(_) => ValueType::Uuid,
            TypedValue::Bytes(_) => ValueType::Bytes,
        }
    }

    /// Whether the value has the given type.
    pub fn matches_type(&self, value_type: ValueType) -> (r: bool)
        ensures
            r == (self@.value_type() == value_type),
    {
        self.value_type() == value_type
    }
}

/// The hyphenated form of an identifier reads back as the identifier.
pub proof fn lemma_hyphenated_round_trip(bytes: Seq<u8>)
    requires
        bytes.len() == 16,
    ensures
        is_hyphenated_uuid(hyphenated_text(bytes)),
        hyphenated_bytes(hyphenated_text(bytes)) == bytes,
{
    let text = hyphenated_text(bytes);
    assert forall|n: int| 0 <= n < 16 implies is_hex_digit(#[trigger] lower_hex_char(n))
        && hex_value(lower_hex_char(n)) == n by {}
    assert forall|k: int| 0 <= k < 32 implies is_hex_digit(
        #[trigger] text[hyphenated_index(k)],
    ) by {
        let n = if k % 2 == 0 {
            bytes[k / 2] as int / 16
        } else {
            bytes[k / 2] as int % 16
        };
        assert(0 <= n < 16);
        assert(text[hyphenated_index(k)] == lower_hex_char(n));
    }
    assert forall|i: int| 0 <= i < 16 implies hyphenated_bytes(text)[i] == bytes[i] by {
        let hi = bytes[i] as int / 16;
        let lo = bytes[i] as int % 16;
        assert(text[hyphenated_index(2 * i)] == lower_hex_char(hi));
        assert(text[hyphenated_index(2 * i + 1)] == lower_hex_char(lo));
        assert(hex_value(lower_hex_char(hi)) == hi);
        assert(hex_value(lower_hex_char(lo)) == lo);
    }
    assert(hyphenated_bytes(text) =~= bytes);
}

} // verus!
