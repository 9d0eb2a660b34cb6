//! The text of a value: what the reader reads back as the value.

use vstd::prelude::*;
use vstd::string::StringExecFns;
use crate::edn::types::{
    entries_view, items_view, Float, FloatView, SpannedValue, SpannedValueView, ValueAndSpan,
    ValueAndSpanView,
};
use crate::edn::grammar::stamp_of;
use crate::edn::parse::stamp_for;
use crate::text::{chars_of, decimal_int, push_decimal_i64};
use crate::values::hyphenated_text;

verus! {

/// A text with a backslash in front of each backslash and each quote.
pub open spec fn escaped(t: Seq<char>) -> Seq<char>
    decreases t.len(),
{
    if t.len() == 0 {
        Seq::empty()
    } else if t[0] == '\\' || t[0] == '"' {
        seq!['\\', t[0]] + escaped(t.drop_first())
    } else {
        seq![t[0]] + escaped(t.drop_first())
    }
}

/// The text of a floating point number.
pub open spec fn printed_float(f: FloatView) -> Seq<char> {
    match f {
        FloatView::NaN => "#f NaN"@,
        FloatView::PositiveInfinity => "#f +Infinity"@,
        FloatView::NegativeInfinity => "#f -Infinity"@,
        FloatView::Literal(t) => t,
    }
}

/// The text of a value. Collections are written with one space between
/// their parts. An instant is written in microseconds; one before the
/// epoch is written as a timestamp, where there is one that reads as the
/// instant.
pub open spec fn printed(v: SpannedValueView) -> Seq<char>
    decreases v,
{
    match v {
        SpannedValueView::Nil => "nil"@,
        SpannedValueView::Boolean(b) => if b {
            "true"@
        } else {
            "false"@
        },
        SpannedValueView::Integer(n) => decimal_int(n),
        SpannedValueView::Instant(micros) => match stamp_of(micros) {
            Some(t) => "#inst \""@ + t + seq!['"'],
            None => "#instmicros "@ + decimal_int(micros),
        },
        SpannedValueView::BigInteger(n) => decimal_int(n).push('N'),
        SpannedValueView::Float(f) => printed_float(f),
        SpannedValueView::Text(t) => seq!['"'] + escaped(t) + seq!['"'],
        SpannedValueView::Uuid(bytes) => "#uuid \""@ + hyphenated_text(bytes) + seq!['"'],
        SpannedValueView::PlainSymbol(name) => name,
        SpannedValueView::NamespacedSymbol(name) => name.qualified(),
        SpannedValueView::Keyword(name) => seq![':'] + name.qualified(),
        SpannedValueView::Vector(items) => seq!['['] + printed_items(items) + seq![']'],
        SpannedValueView::List(items) => seq!['('] + printed_items(items) + seq![')'],
        SpannedValueView::SetOf(items) => seq!['#', '{'] + printed_items(items) + seq!['}'],
        SpannedValueView::MapOf(entries) => seq!['{'] + printed_entries(entries) + seq!['}'],
    }
}

/// The texts of values with a space between each two.
pub open spec fn printed_items(items: Seq<ValueAndSpanView>) -> Seq<char>
    decreases items,
{
    if items.len() == 0 {
        Seq::empty()
    } else if items.len() == 1 {
        printed(items[0].inner)
    } else {
        printed(items[0].inner) + seq![' '] + printed_items(items.drop_first())
    }
}

/// The texts of the keys and values of entries with a space between each
/// two.
pub open spec fn printed_entries(entries: Seq<(ValueAndSpanView, ValueAndSpanView)>) -> Seq<char>
    decreases entries,
{
    if entries.len() == 0 {
        Seq::empty()
    } else if entries.len() == 1 {
        printed(entries[0].0.inner) + seq![' '] + printed(entries[0].1.inner)
    } else {
        printed(entries[0].0.inner) + seq![' '] + printed(entries[0].1.inner) + seq![' ']
            + printed_entries(entries.drop_first())
    }
}

fn push_escaped(out: &mut String, text: &str)
    ensures
        final(out)@ == old(out)@ + escaped(text@),
{
    let chars = chars_of(text);
    let mut i: usize = 0;
    proof {
        assert(chars@.skip(0) =~= chars@);
        assert(out@ + escaped(text@) =~= old(out)@ + escaped(text@));
    }
    while i < chars.len()
        invariant
            i <= chars.len(),
            chars@ == text@,
            out@ + escaped(chars@.skip(i as int)) == old(out)@ + escaped(text@),
        decreases chars.len() - i,
    {
        let c = chars[i];
        let ghost before = out@;
        let ghost rest = chars@.skip(i as int);
        proof {
            assert(rest[0] == c);
            assert(rest.drop_first() =~= chars@.skip(i + 1));
        }
        if c == '\\' || c == '"' {
            out.push('\\');
        }
        out.push(c);
        proof {
            if c == '\\' || c == '"' {
                assert(out@ + escaped(chars@.skip(i + 1)) =~= before + (seq!['\\', c] + escaped(
                    rest.drop_first(),
                )));
            } else {
                assert(out@ + escaped(chars@.skip(i + 1)) =~= before + (seq![c] + escaped(
                    rest.drop_first(),
                )));
            }
        }
        i += 1;
    }
    proof {
        assert(chars@.skip(i as int) =~= Seq::<char>::empty());
        assert(out@ + Seq::<char>::empty() =~= out@);
    }
}

impl ValueAndSpan {
    /// The text of the value; see [`printed`]. The places of the value
    /// and of its parts do not show in the text.
    pub fn to_text(&self) -> (r: String)
        requires
            self.inner.printable(),
        ensures
            r@ == printed(self@.inner),
    {
        let mut out = String::new();
        self.inner.push_text(&mut out);
        proof {
            assert(Seq::<char>::empty() + printed(self@.inner) =~= printed(self@.inner));
        }
        out
    }
}

impl SpannedValue {
    /// Whether every integer of any size in the value is well-formed.
    pub open spec fn printable(&self) -> bool
        decreases self,
    {
        match self {
            SpannedValue::BigInteger(n) => n.well_formed(),
            SpannedValue::Vector(items) => forall|i: int|
                0 <= i < items@.len() ==> (#[trigger] items@[i]).inner.printable(),
            SpannedValue::List(items) => forall|i: int|
                0 <= i < items@.len() ==> (#[trigger] items@[i]).inner.printable(),
            SpannedValue::SetOf(items) => forall|i: int|
                0 <= i < items@.len() ==> (#[trigger] items@[i]).inner.printable(),
            SpannedValue::MapOf(entries) => forall|i: int|
                0 <= i < entries@.len() ==> (#[trigger] entries@[i]).0.inner.printable()
                    && entries@[i].1.inner.printable(),
            _ => true,
        }
    }

    /// The text of the value; see [`printed`].
    pub fn to_text(&self) -> (r: String)
        requires
            self.printable(),
        ensures
            r@ == printed(self@),
    {
        let mut out = String::new();
        self.push_text(&mut out);
        proof {
            assert(Seq::<char>::empty() + printed(self@) =~= printed(self@));
        }
        out
    }

    /// Appends the text of the value.
    pub fn push_text(&self, out: &mut String)
        requires
            self.printable(),
        ensures
            final(out)@ == old(out)@ + printed(self@),
        decreases self,
    {
        match self {
            SpannedValue::Nil => {
                out.append("nil");
            },
            SpannedValue::Boolean(b) => {
                if *b {
                    out.append("true");
                } else {
                    out.append("false");
                }
            },
            SpannedValue::Integer(n) => {
                push_decimal_i64(out, *n);
            },
            SpannedValue::Instant(micros) => {
                match stamp_for(*micros) {
                    Some(t) => {
                        out.append("#inst \"");
                        out.append(t.as_str());
                        out.push('"');
                    },
                    None => {
                        out.append("#instmicros ");
                        push_decimal_i64(out, *micros);
                    },
                }
                proof {
                    assert(out@ =~= old(out)@ + printed(self@));
                }
            },
            SpannedValue::BigInteger(n) => {
                out.append(n.to_decimal().as_str());
                out.push('N');
                proof {
                    assert(out@ =~= old(out)@ + printed(self@));
                }
            },
            SpannedValue::Float(f) => {
                match f {
                    Float::NaN => out.append("#f NaN"),
                    Float::PositiveInfinity => out.append("#f +Infinity"),
                    Float::NegativeInfinity => out.append("#f -Infinity"),
                    Float::Literal(t) => out.append(t.as_str()),
                }
            },
            SpannedValue::Text(t) => {
                out.push('"');
                push_escaped(out, t.as_str());
                out.push('"');
                proof {
                    assert(out@ =~= old(out)@ + printed(self@));
                }
            },
            SpannedValue::Uuid(u) => {
                out.append("#uuid \"");
                out.append(u.to_hyphenated_string().as_str());
                out.push('"');
                proof {
                    assert(out@ =~= old(out)@ + printed(self@));
                }
            },
            SpannedValue::PlainSymbol(sym) => {
                out.append(sym.name());
            },
            SpannedValue::NamespacedSymbol(sym) => {
                out.append(sym.namespace());
                out.push('/');
                out.append(sym.name());
                proof {
                    assert(out@ =~= old(out)@ + printed(self@));
                }
            },
            SpannedValue::Keyword(k) => {
                out.append(k.to_string().as_str());
            },
            SpannedValue::Vector(items) => {
                out.push('[');
                push_items(items, out);
                out.push(']');
                proof {
                    assert(out@ =~= old(out)@ + printed(self@));
                }
            },
            SpannedValue::List(items) => {
                out.push('(');
                push_items(items, out);
                out.push(')');
                proof {
                    assert(out@ =~= old(out)@ + printed(self@));
                }
            },
            SpannedValue::SetOf(items) => {
                out.push('#');
                out.push('{');
                push_items(items, out);
                out.push('}');
                proof {
                    assert(out@ =~= old(out)@ + printed(self@));
                }
            },
            SpannedValue::MapOf(entries) => {
                out.push('{');
                let ghost start = out@;
                let ghost all = entries_view(entries@);
                let mut i: usize = 0;
                proof {
                    assert(all.skip(0) =~= all);
                    assert(start + printed_entries(all) =~= out@ + printed_entries(all.skip(0)));
                }
                while i < entries.len()
                    invariant
                        i <= entries@.len(),
                        all == entries_view(entries@),
                        self.printable(),
                        *self == SpannedValue::MapOf(*entries),
                        out@ + printed_entries(all.skip(i as int)) == start + printed_entries(all),
                    decreases entries@.len() - i,
                {
                    let ghost before = out@;
                    let ghost rest = all.skip(i as int);
                    proof {
                        assert(rest[0] == all[i as int]);
                        assert(all[i as int] == (entries@[i as int].0@, entries@[i as int].1@));
                        assert(rest.drop_first() =~= all.skip(i + 1));
                        assert(entries@[i as int].0.inner.printable());
                    }
                    entries[i].0.inner.push_text(out);
                    out.push(' ');
                    entries[i].1.inner.push_text(out);
                    if i + 1 < entries.len() {
                        out.push(' ');
                        proof {
                            assert(out@ + printed_entries(all.skip(i + 1)) =~= before + (printed(
                                rest[0].0.inner,
                            ) + seq![' '] + printed(rest[0].1.inner) + seq![' ']
                                + printed_entries(rest.drop_first())));
                        }
                    } else {
                        proof {
                            assert(all.skip(i + 1) =~= Seq::empty());
                            assert(out@ + printed_entries(all.skip(i + 1)) =~= before + (printed(
                                rest[0].0.inner,
                            ) + seq![' '] + printed(rest[0].1.inner)));
                        }
                    }
                    i += 1;
                }
                out.push('}');
                proof {
                    assert(all.skip(i as int) =~= Seq::empty());
                    assert(out@ =~= old(out)@ + printed(self@));
                }
            },
        }
    }
}

/// Appends the texts of values with a space between each two.
fn push_items(items: &Vec<ValueAndSpan>, out: &mut String)
    requires
        forall|i: int| 0 <= i < items@.len() ==> (#[trigger] items@[i]).inner.printable(),
    ensures
        final(out)@ == old(out)@ + printed_items(items_view(items@)),
    decreases items,
{
    let ghost all = items_view(items@);
    let mut i: usize = 0;
    proof {
        assert(all.skip(0) =~= all);
    }
    while i < items.len()
        invariant
            i <= items@.len(),
            all == items_view(items@),
            forall|k: int| 0 <= k < items@.len() ==> (#[trigger] items@[k]).inner.printable(),
            out@ + printed_items(all.skip(i as int)) == old(out)@ + printed_items(all),
        decreases items@.len() - i,
    {
        let ghost before = out@;
        let ghost rest = all.skip(i as int);
        proof {
            assert(rest[0] == items@[i as int]@);
            assert(rest.drop_first() =~= all.skip(i + 1));
        }
        items[i].inner.push_text(out);
        if i + 1 < items.len() {
            out.push(' ');
            proof {
                assert(out@ + printed_items(all.skip(i + 1)) =~= before + (printed(rest[0].inner)
                    + seq![' '] + printed_items(rest.drop_first())));
            }
        } else {
            proof {
                assert(all.skip(i + 1) =~= Seq::empty());
                assert(out@ + printed_items(all.skip(i + 1)) =~= before + printed(rest[0].inner));
            }
        }
        i += 1;
    }
    proof {
        assert(all.skip(i as int) =~= Seq::empty());
        assert(out@ + Seq::<char>::empty() =~= out@);
    }
}

} // verus!
