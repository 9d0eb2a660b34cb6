//! The grammar of transactions, as functions on the text.

use vstd::prelude::*;
use crate::edn::entities::{
    is_collection, EntidOrIdentView, EntityPlaceView, EntityView, LookupRefView, OpType,
    TempIdView, ValuePlaceView,
};
use crate::edn::grammar::{
    first_of, long_at, raw_keyword_at, raw_text_at, symbol_name_len, value_at, Found,
};
use crate::edn::lexical::{blank_len, char_at, literal_at};
use crate::symbols::NameView;

verus! {

/// What a rule finds, seen through `f`.
pub open spec fn map_found<A, B>(found: Found<A>, f: spec_fn(A) -> B) -> Found<B> {
    match found {
        Some((a, end)) => Some((f(a), end)),
        None => None,
    }
}

/// `:db/add` or `:db/retract`.
pub open spec fn op_at(s: Seq<char>, pos: int) -> Found<OpType> {
    if literal_at(s, pos, ":db/add"@) {
        Some((OpType::Add, pos + ":db/add"@.len()))
    } else if literal_at(s, pos, ":db/retract"@) {
        Some((OpType::Retract, pos + ":db/retract"@.len()))
    } else {
        None
    }
}

/// The directions that a rule admits of a keyword.
#[derive(Debug, Clone, Copy, PartialEq, Eq, Structural)]
pub enum KeywordDirection {
    Any,
    Forward,
    Backward,
}

/// Whether a name has the direction that is asked for.
pub open spec fn has_direction(name: NameView, direction: KeywordDirection) -> bool {
    match direction {
        KeywordDirection::Any => true,
        KeywordDirection::Forward => !name.is_backward(),
        KeywordDirection::Backward => name.is_backward(),
    }
}

/// A keyword with a namespace, in the direction that is asked for.
pub open spec fn namespaced_keyword_at(s: Seq<char>, pos: int, direction: KeywordDirection) -> Found<
    NameView,
> {
    match raw_keyword_at(s, pos) {
        Some((k, end)) => if k.namespace is Some && has_direction(k, direction) {
            Some((k, end))
        } else {
            None
        },
        None => None,
    }
}

/// An entity by its id or by its ident. A backward ident must be more than
/// an underscore; it is read as the forward one.
pub open spec fn entid_at(s: Seq<char>, pos: int, direction: KeywordDirection) -> Found<
    EntidOrIdentView,
> {
    if direction != KeywordDirection::Backward && long_at(s, pos) is Some {
        map_found(long_at(s, pos), |e: int| EntidOrIdentView::Entid(e))
    } else {
        match namespaced_keyword_at(s, pos, direction) {
            Some((k, end)) => if direction == KeywordDirection::Backward {
                if k.name.len() > 1 {
                    Some((EntidOrIdentView::Ident(k.reversed()), end))
                } else {
                    None
                }
            } else {
                Some((EntidOrIdentView::Ident(k), end))
            },
            None => None,
        }
    }
}

/// `(lookup-ref a v)`.
pub open spec fn lookup_ref_at(s: Seq<char>, pos: int) -> Found<LookupRefView> {
    let word = pos + 1 + blank_len(s, pos + 1);
    let attr = word + "lookup-ref"@.len() + blank_len(s, word + "lookup-ref"@.len());
    if char_at(s, pos, '(') && literal_at(s, word, "lookup-ref"@) {
        match entid_at(s, attr, KeywordDirection::Any) {
            Some((a, after_a)) => match value_at(s, after_a + blank_len(s, after_a)) {
                Some((v, after_v)) => if char_at(s, after_v + blank_len(s, after_v), ')') {
                    Some((LookupRefView { a, v }, after_v + blank_len(s, after_v) + 1))
                } else {
                    None
                },
                None => None,
            },
            None => None,
        }
    } else {
        None
    }
}

/// `(name)`: a function of the transaction.
pub open spec fn tx_function_at(s: Seq<char>, pos: int) -> Found<Seq<char>> {
    let start = pos + 1 + blank_len(s, pos + 1);
    let n = symbol_name_len(s, start);
    let close = start + n + blank_len(s, start + n);
    if char_at(s, pos, '(') && n >= 1 && char_at(s, close, ')') {
        Some((s.subrange(start, start + n), close + 1))
    } else {
        None
    }
}

/// The entity of a form: a temporary id between quotes, an entity id or
/// ident, a lookup reference, or a function of the transaction.
pub open spec fn entity_place_at(s: Seq<char>, pos: int) -> Found<EntityPlaceView> {
    first_of(
        map_found(
            raw_text_at(s, pos),
            |t: Seq<char>| EntityPlaceView::TempId(TempIdView::External(t)),
        ),
        first_of(
            map_found(
                entid_at(s, pos, KeywordDirection::Any),
                |e: EntidOrIdentView| EntityPlaceView::Entid(e),
            ),
            first_of(
                map_found(lookup_ref_at(s, pos), |r: LookupRefView| EntityPlaceView::LookupRef(r)),
                map_found(tx_function_at(s, pos), |f: Seq<char>| EntityPlaceView::TxFunction(f)),
            ),
        ),
    )
}

/// The value of a form, with the blanks around it: a lookup reference, a
/// function of the transaction, a vector of values, a map, or a value that
/// is no collection.
pub open spec fn value_place_at(s: Seq<char>, pos: int) -> Found<ValuePlaceView>
    decreases s.len() - pos, 2nat,
{
    let start = pos + blank_len(s, pos);
    if pos < 0 || start > s.len() {
        None
    } else {
        match bare_value_place_at(s, start) {
            Some((place, end)) => Some((place, end + blank_len(s, end))),
            None => None,
        }
    }
}

/// The value of a form without blanks around it.
pub open spec fn bare_value_place_at(s: Seq<char>, pos: int) -> Found<ValuePlaceView>
    decreases s.len() - pos, 1nat,
{
    if lookup_ref_at(s, pos) is Some {
        map_found(lookup_ref_at(s, pos), |r: LookupRefView| ValuePlaceView::LookupRef(r))
    } else if tx_function_at(s, pos) is Some {
        map_found(tx_function_at(s, pos), |f: Seq<char>| ValuePlaceView::TxFunction(f))
    } else if char_at(s, pos, '[') && vector_place_at(s, pos) is Some {
        vector_place_at(s, pos)
    } else if char_at(s, pos, '{') && map_notation_at(s, pos) is Some {
        map_found(
            map_notation_at(s, pos),
            |entries: Seq<(EntidOrIdentView, ValuePlaceView)>| ValuePlaceView::MapNotation(entries),
        )
    } else {
        match value_at(s, pos) {
            Some((v, end)) => if is_collection(v.inner) {
                None
            } else {
                Some((ValuePlaceView::Atom(v), end))
            },
            None => None,
        }
    }
}

/// A vector of values of forms: `[v ...]`.
pub open spec fn vector_place_at(s: Seq<char>, pos: int) -> Found<ValuePlaceView>
    decreases s.len() - pos, 0nat,
{
    let inside = pos + 1 + blank_len(s, pos + 1);
    if char_at(s, pos, '[') && inside <= s.len() {
        let places = places_at(s, inside, Seq::empty());
        let close = places.1 + blank_len(s, places.1);
        if char_at(s, close, ']') {
            Some((ValuePlaceView::Vector(places.0), close + 1))
        } else {
            None
        }
    } else {
        None
    }
}

/// As many values of forms as stand at `pos`, after those in `acc`.
pub open spec fn places_at(s: Seq<char>, pos: int, acc: Seq<ValuePlaceView>) -> (
    Seq<ValuePlaceView>,
    int,
)
    decreases s.len() - pos, 3nat,
{
    match value_place_at(s, pos) {
        Some((place, next)) => if pos < next <= s.len() {
            places_at(s, next, acc.push(place))
        } else {
            (acc, pos)
        },
        None => (acc, pos),
    }
}

/// A map: `{a v ...}`, the attributes of one entity.
pub open spec fn map_notation_at(s: Seq<char>, pos: int) -> Found<
    Seq<(EntidOrIdentView, ValuePlaceView)>,
>
    decreases s.len() - pos, 0nat,
{
    let inside = pos + 1 + blank_len(s, pos + 1);
    if char_at(s, pos, '{') && inside <= s.len() {
        let pairs = pairs_at(s, inside, Seq::empty());
        let close = pairs.1 + blank_len(s, pairs.1);
        if char_at(s, close, '}') {
            Some((pairs.0, close + 1))
        } else {
            None
        }
    } else {
        None
    }
}

/// As many pairs of an attribute and a value as stand at `pos`, after
/// those in `acc`.
pub open spec fn pairs_at(
    s: Seq<char>,
    pos: int,
    acc: Seq<(EntidOrIdentView, ValuePlaceView)>,
) -> (Seq<(EntidOrIdentView, ValuePlaceView)>, int)
    decreases s.len() - pos, 3nat,
{
    match entid_at(s, pos, KeywordDirection::Any) {
        Some((a, mid)) => if pos < mid <= s.len() && mid + blank_len(s, mid) <= s.len() {
            match value_place_at(s, mid + blank_len(s, mid)) {
                Some((v, next)) => if mid < next <= s.len() {
                    pairs_at(s, next, acc.push((a, v)))
                } else {
                    (acc, pos)
                },
                None => (acc, pos),
            }
        } else {
            (acc, pos)
        },
        None => (acc, pos),
    }
}

/// `[op e a v]` with a forward attribute.
pub open spec fn forward_form_at(s: Seq<char>, pos: int) -> Found<EntityView> {
    if char_at(s, pos, '[') {
        match op_at(s, pos + 1 + blank_len(s, pos + 1)) {
            Some((op, p1)) => match entity_place_at(s, p1 + blank_len(s, p1)) {
                Some((e, p2)) => match entid_at(s, p2 + blank_len(s, p2), KeywordDirection::Forward) {
                    Some((a, p3)) => match value_place_at(s, p3 + blank_len(s, p3)) {
                        Some((v, p4)) => if char_at(s, p4 + blank_len(s, p4), ']') {
                            Some(
                                (
                                    EntityView::AddOrRetract { op, e, a, v },
                                    p4 + blank_len(s, p4) + 1,
                                ),
                            )
                        } else {
                            None
                        },
                        None => None,
                    },
                    None => None,
                },
                None => None,
            },
            None => None,
        }
    } else {
        None
    }
}

/// `[op v a e]` with a backward attribute: the form says of the entity in
/// the last place what the forward attribute says, with the first place
/// as its value.
pub open spec fn backward_form_at(s: Seq<char>, pos: int) -> Found<EntityView> {
    if char_at(s, pos, '[') {
        match op_at(s, pos + 1 + blank_len(s, pos + 1)) {
            Some((op, p1)) => match value_place_at(s, p1 + blank_len(s, p1)) {
                Some((first, p2)) => match entid_at(
                    s,
                    p2 + blank_len(s, p2),
                    KeywordDirection::Backward,
                ) {
                    Some((a, p3)) => match entity_place_at(s, p3 + blank_len(s, p3)) {
                        Some((last, p4)) => if char_at(s, p4 + blank_len(s, p4), ']') {
                            Some(
                                (
                                    EntityView::AddOrRetract { op, e: last, a, v: first },
                                    p4 + blank_len(s, p4) + 1,
                                ),
                            )
                        } else {
                            None
                        },
                        None => None,
                    },
                    None => None,
                },
                None => None,
            },
            None => None,
        }
    } else {
        None
    }
}

/// One form of a transaction, with the blanks around it.
pub open spec fn entity_at(s: Seq<char>, pos: int) -> Found<EntityView> {
    let start = pos + blank_len(s, pos);
    let form = if forward_form_at(s, start) is Some {
        forward_form_at(s, start)
    } else if backward_form_at(s, start) is Some {
        backward_form_at(s, start)
    } else {
        match map_notation_at(s, start) {
            Some((entries, end)) => Some((EntityView::MapNotation(entries), end)),
            None => None,
        }
    };
    match form {
        Some((entity, end)) => Some((entity, end + blank_len(s, end))),
        None => None,
    }
}

/// As many forms as stand at `pos`, after those in `acc`.
pub open spec fn forms_at(s: Seq<char>, pos: int, acc: Seq<EntityView>) -> (Seq<EntityView>, int)
    decreases s.len() - pos,
{
    match entity_at(s, pos) {
        Some((entity, next)) => if pos < next <= s.len() {
            forms_at(s, next, acc.push(entity))
        } else {
            (acc, pos)
        },
        None => (acc, pos),
    }
}

/// A transaction: `[form ...]`, with the blanks around it.
pub open spec fn entities_at(s: Seq<char>, pos: int) -> Found<Seq<EntityView>> {
    let open = pos + blank_len(s, pos);
    let forms = forms_at(s, open + 1 + blank_len(s, open + 1), Seq::empty());
    let close = forms.1 + blank_len(s, forms.1);
    if char_at(s, open, '[') && char_at(s, close, ']') {
        Some((forms.0, close + 1 + blank_len(s, close + 1)))
    } else {
        None
    }
}

/// The whole text as one transaction.
pub open spec fn whole_entities(s: Seq<char>) -> Option<Seq<EntityView>> {
    match entities_at(s, 0) {
        Some((forms, end)) => if end == s.len() {
            Some(forms)
        } else {
            None
        },
        None => None,
    }
}

/// Where reading the text as a transaction stops, if it fails: at the
/// bracket that should open it, at the first form that cannot be read or
/// the bracket that should close it, or after the transaction, where the
/// text should end.
pub open spec fn entities_stop(s: Seq<char>) -> int {
    let open = pos_after_blanks(s, 0);
    if !char_at(s, open, '[') {
        open
    } else {
        match entities_at(s, 0) {
            Some((_, end)) => end,
            None => {
                let forms = forms_at(s, open + 1 + blank_len(s, open + 1), Seq::empty());
                forms.1 + blank_len(s, forms.1)
            },
        }
    }
}

/// The position after the blanks at `pos`.
pub open spec fn pos_after_blanks(s: Seq<char>, pos: int) -> int {
    pos + blank_len(s, pos)
}

} // verus!
