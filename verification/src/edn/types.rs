//! The values of the notation, with and without the places they were read
//! from.

use vstd::prelude::*;
use crate::symbols::{Keyword, NameView, NamespacedSymbol, PlainSymbol};
use crate::values::Uuid;

verus! {

/// A stretch of the text, as byte offsets: the first byte, and the byte
/// after the last.
#[derive(Debug, Clone, Copy, PartialEq, Eq, Hash, PartialOrd, Ord, Structural)]
pub struct Span {
    pub start: usize,
    pub end: usize,
}

impl Span {
    pub fn new(start: usize, end: usize) -> (r: Span)
        ensures
            r == (Span { start, end }),
    {
        Span { start, end }
    }
}

/// The value of a sequence of decimal digits.
pub open spec fn digits_value(digits: Seq<u8>) -> nat
    decreases digits.len(),
{
    if digits.len() == 0 {
        0
    } else {
        10 * digits_value(digits.drop_last()) + digits.last() as nat
    }
}

/// An integer of any size: a sign, and the decimal digits of the
/// magnitude, most significant first and without leading zeros. Zero has
/// no digits and no sign.
#[derive(Debug, PartialEq, Eq, Hash)]
pub struct BigInteger {
    negative: bool,
    magnitude: Vec<u8>,
}

impl View for BigInteger {
    type V = int;

    closed spec fn view(&self) -> int {
        if self.negative {
            -(digits_value(self.magnitude@) as int)
        } else {
            digits_value(self.magnitude@) as int
        }
    }
}

impl Clone for BigInteger {
    fn clone(&self) -> (r: Self)
        ensures
            r@ == self@,
    {
        let magnitude = self.magnitude.clone();
        assert(magnitude@ =~= self.magnitude@);
        BigInteger { negative: self.negative, magnitude }
    }
}

impl BigInteger {
    /// Whether the digits are digits, the first of them is not zero, and
    /// zero has no sign.
    pub closed spec fn well_formed(&self) -> bool {
        &&& forall|i: int| 0 <= i < self.magnitude@.len() ==> self.magnitude@[i] < 10
        &&& self.magnitude@.len() > 0 ==> self.magnitude@[0] != 0
        &&& self.magnitude@.len() == 0 ==> !self.negative
    }

    /// The integer with the given sign and digits, each of which is below
    /// ten. Leading zeros are dropped.
    pub fn from_digits(negative: bool, digits: &Vec<u8>) -> (r: BigInteger)
        requires
            forall|i: int| 0 <= i < digits@.len() ==> digits@[i] < 10,
        ensures
            r.well_formed(),
            r@ == (if negative {
                -(digits_value(digits@) as int)
            } else {
                digits_value(digits@) as int
            }),
    {
        let mut first: usize = 0;
        while first < digits.len() && digits[first] == 0
            invariant
                first <= digits.len(),
                digits_value(digits@.subrange(0, first as int)) == 0,
                forall|i: int| 0 <= i < first ==> digits@[i] == 0,
            decreases digits.len() - first,
        {
            proof {
                assert(digits@.subrange(0, first + 1).drop_last() =~= digits@.subrange(
                    0,
                    first as int,
                ));
            }
            first += 1;
        }
        let mut magnitude: Vec<u8> = Vec::new();
        let mut i: usize = first;
        while i < digits.len()
            invariant
                first <= i <= digits.len(),
                magnitude@ == digits@.subrange(first as int, i as int),
                digits_value(digits@.subrange(0, first as int)) == 0,
                digits_value(magnitude@) == digits_value(digits@.subrange(0, i as int)),
            decreases digits.len() - i,
        {
            proof {
                assert(digits@.subrange(0, i + 1).drop_last() =~= digits@.subrange(0, i as int));
                assert(digits@.subrange(first as int, i + 1).drop_last() =~= digits@.subrange(
                    first as int,
                    i as int,
                ));
            }
            magnitude.push(digits[i]);
            i += 1;
            proof {
                assert(magnitude@ =~= digits@.subrange(first as int, i as int));
            }
        }
        proof {
            assert(digits@.subrange(0, digits@.len() as int) =~= digits@);
        }
        let negative = negative && magnitude.len() > 0;
        BigInteger { negative, magnitude }
    }

    /// Whether the integer is below zero.
    pub fn is_negative(&self) -> (r: bool)
        requires
            self.well_formed(),
        ensures
            r == (self@ < 0),
    {
        proof {
            if self.magnitude@.len() > 0 {
                lemma_digits_value_positive(self.magnitude@);
            }
        }
        self.negative
    }

    /// The decimal text of the integer.
    pub fn to_decimal(&self) -> (r: String)
        requires
            self.well_formed(),
        ensures
            r@ == crate::text::decimal_int(self@),
    {
        let mut out = String::new();
        if self.negative {
            out.push('-');
        }
        if self.magnitude.len() == 0 {
            out.push('0');
            proof {
                assert(self.magnitude@ =~= Seq::<u8>::empty());
                assert(out@ =~= crate::text::decimal_nat(0));
            }
            return out;
        }
        let ghost sign = out@;
        let mut i: usize = 0;
        proof {
            assert(self.magnitude@.subrange(0, 0) =~= Seq::<u8>::empty());
        }
        while i < self.magnitude.len()
            invariant
                i <= self.magnitude.len(),
                self.well_formed(),
                self.magnitude.len() > 0,
                i > 0 ==> out@ == sign + crate::text::decimal_nat(
                    digits_value(self.magnitude@.subrange(0, i as int)),
                ),
                i == 0 ==> out@ == sign,
            decreases self.magnitude.len() - i,
        {
            let d = self.magnitude[i];
            proof {
                let before = self.magnitude@.subrange(0, i as int);
                let now = self.magnitude@.subrange(0, i + 1);
                assert(now.drop_last() =~= before);
                assert(now.last() == d);
                assert(d < 10);
                if i > 0 {
                    assert(before[0] == self.magnitude@[0]);
                    lemma_digits_value_positive(before);
                } else {
                    assert(before =~= Seq::<u8>::empty());
                    assert(d != 0);
                }
                let value = digits_value(now);
                assert(value == 10 * digits_value(before) + d);
                assert(value / 10 == digits_value(before) && value % 10 == d as nat);
            }
            out.push(crate::text::digit_of(d as u64));
            i += 1;
            proof {
                let before = self.magnitude@.subrange(0, i - 1);
                let value = digits_value(self.magnitude@.subrange(0, i as int));
                if i == 1 {
                    assert(value < 10);
                    assert(out@ =~= sign + crate::text::decimal_nat(value));
                } else {
                    assert(value >= 10);
                    assert(out@ =~= sign + crate::text::decimal_nat(value));
                }
            }
        }
        proof {
            assert(self.magnitude@.subrange(0, i as int) =~= self.magnitude@);
            lemma_digits_value_positive(self.magnitude@);
        }
        out
    }
}

/// Digits whose first is not zero are worth more than nothing.
pub proof fn lemma_digits_value_positive(digits: Seq<u8>)
    requires
        digits.len() > 0,
        digits[0] != 0,
    ensures
        digits_value(digits) > 0,
    decreases digits.len(),
{
    if digits.len() > 1 {
        lemma_digits_value_positive(digits.drop_last());
    } else {
        assert(digits.drop_last() =~= Seq::empty());
    }
}

/// A floating point number as it was written: not a number, an infinity,
/// or a decimal literal. The library does not compute with it.
#[derive(Debug, PartialEq, Eq, Hash)]
pub enum Float {
    NaN,
    PositiveInfinity,
    NegativeInfinity,
    /// The literal: an optional sign, digits, an optional fraction and an
    /// optional exponent.
    Literal(String),
}

/// What a [`Float`] holds.
pub enum FloatView {
    NaN,
    PositiveInfinity,
    NegativeInfinity,
    Literal(Seq<char>),
}

impl View for Float {
    type V = FloatView;

    open spec fn view(&self) -> FloatView {
        match self {
            Float::NaN => FloatView::NaN,
            Float::PositiveInfinity => FloatView::PositiveInfinity,
            Float::NegativeInfinity => FloatView::NegativeInfinity,
            Float::Literal(text) => FloatView::Literal(text@),
        }
    }
}

/// A value together with the place it was read from.
#[derive(Debug, PartialEq, Eq, Hash)]
pub struct ValueAndSpan {
    pub inner: SpannedValue,
    pub span: Span,
}

/// A value whose parts carry the places they were read from.
#[derive(Debug, PartialEq, Eq, Hash)]
pub enum SpannedValue {
    Nil,
    Boolean(bool),
    Integer(i64),
    /// An instant, in microseconds since the Unix epoch, UTC.
    Instant(i64),
    BigInteger(BigInteger),
    Float(Float),
    Text(String),
    Uuid(Uuid),
    PlainSymbol(PlainSymbol),
    NamespacedSymbol(NamespacedSymbol),
    Keyword(Keyword),
    Vector(Vec<ValueAndSpan>),
    List(Vec<ValueAndSpan>),
    /// The elements of a set, in the order in which they were written.
    SetOf(Vec<ValueAndSpan>),
    /// The entries of a map, in the order in which they were written.
    MapOf(Vec<(ValueAndSpan, ValueAndSpan)>),
}

/// What a [`ValueAndSpan`] holds.
pub struct ValueAndSpanView {
    pub inner: SpannedValueView,
    pub span: Span,
}

/// What a [`SpannedValue`] holds.
pub enum SpannedValueView {
    Nil,
    Boolean(bool),
    Integer(int),
    Instant(int),
    BigInteger(int),
    Float(FloatView),
    Text(Seq<char>),
    Uuid(Seq<u8>),
    PlainSymbol(Seq<char>),
    NamespacedSymbol(NameView),
    Keyword(NameView),
    Vector(Seq<ValueAndSpanView>),
    List(Seq<ValueAndSpanView>),
    SetOf(Seq<ValueAndSpanView>),
    MapOf(Seq<(ValueAndSpanView, ValueAndSpanView)>),
}

/// The views of a list of values.
pub open spec fn items_view(items: Seq<ValueAndSpan>) -> Seq<ValueAndSpanView>
    decreases items,
{
    Seq::new(
        items.len(),
        |i: int|
            if 0 <= i < items.len() {
                items[i].view()
            } else {
                ValueAndSpanView { inner: SpannedValueView::Nil, span: Span { start: 0, end: 0 } }
            },
    )
}

/// The views of a list of entries.
pub open spec fn entries_view(entries: Seq<(ValueAndSpan, ValueAndSpan)>) -> Seq<
    (ValueAndSpanView, ValueAndSpanView),
>
    decreases entries,
{
    Seq::new(
        entries.len(),
        |i: int|
            if 0 <= i < entries.len() {
                (entries[i].0.view(), entries[i].1.view())
            } else {
                (
                    ValueAndSpanView {
                        inner: SpannedValueView::Nil,
                        span: Span { start: 0, end: 0 },
                    },
                    ValueAndSpanView {
                        inner: SpannedValueView::Nil,
                        span: Span { start: 0, end: 0 },
                    },
                )
            },
    )
}

impl View for ValueAndSpan {
    type V = ValueAndSpanView;

    open spec fn view(&self) -> ValueAndSpanView
        decreases self,
    {
        ValueAndSpanView { inner: self.inner.view(), span: self.span }
    }
}

impl View for SpannedValue {
    type V = SpannedValueView;

    open spec fn view(&self) -> SpannedValueView
        decreases self,
    {
        match self {
            SpannedValue::Nil => SpannedValueView::Nil,
            SpannedValue::Boolean(b) => SpannedValueView::Boolean(*b),
            SpannedValue::Integer(v) => SpannedValueView::Integer(*v as int),
            SpannedValue::Instant(micros) => SpannedValueView::Instant(*micros as int),
            SpannedValue::BigInteger(v) => SpannedValueView::BigInteger(v@),
            SpannedValue::Float(f) => SpannedValueView::Float(f@),
            SpannedValue::Text(t) => SpannedValueView::Text(t@),
            SpannedValue::Uuid(u) => SpannedValueView::Uuid(u@),
            SpannedValue::PlainSymbol(sym) => SpannedValueView::PlainSymbol(sym@),
            SpannedValue::NamespacedSymbol(sym) => SpannedValueView::NamespacedSymbol(sym@),
            SpannedValue::Keyword(k) => SpannedValueView::Keyword(k@),
            SpannedValue::Vector(items) => SpannedValueView::Vector(items_view(items@)),
            SpannedValue::List(items) => SpannedValueView::List(items_view(items@)),
            SpannedValue::SetOf(items) => SpannedValueView::SetOf(items_view(items@)),
            SpannedValue::MapOf(entries) => SpannedValueView::MapOf(entries_view(entries@)),
        }
    }
}

} // verus!
