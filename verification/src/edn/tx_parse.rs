//! The reader of transactions.

use vstd::prelude::*;
use crate::edn::entities::{
    entities_view, is_collection, map_notation_view, places_view, AttributePlace, EntidOrIdent,
    Entity, EntityPlace, LookupRef, OpType, TempId, TxFunction, ValuePlace,
};
use crate::edn::lexical::{char_at, scan_blank, scan_char, scan_literal};
use crate::edn::parse::{
    read_keyword, read_long, read_raw_text, read_symbol_name_len, read_value, read_word, reads,
};
use crate::edn::source::{location_at, Source};
use crate::edn::tx_grammar::{
    backward_form_at, bare_value_place_at, entid_at, entities_stop, entity_at, entity_place_at,
    forms_at, forward_form_at, lookup_ref_at, map_notation_at, op_at, pairs_at, places_at,
    tx_function_at, value_place_at, vector_place_at, whole_entities, KeywordDirection,
};
use crate::edn::types::{SpannedValue, ValueAndSpan};
use crate::edn::ParseError;
use crate::symbols::PlainSymbol;
use crate::text::string_of;

verus! {

/// `:db/add` or `:db/retract`.
fn read_op(src: &Source, pos: usize) -> (r: Option<(OpType, usize)>)
    requires
        src.well_formed(),
        pos <= src@.len(),
    ensures
        match r {
            Some((op, end)) => op_at(src@, pos as int) == Some((op, end as int)) && pos < end
                <= src@.len(),
            None => op_at(src@, pos as int) is None,
        },
{
    proof {
        reveal_strlit(":db/add");
        reveal_strlit(":db/retract");
    }
    match read_word(src, pos, ":db/add") {
        Some(end) => {
            return Some((OpType::Add, end));
        },
        None => {},
    }
    match read_word(src, pos, ":db/retract") {
        Some(end) => Some((OpType::Retract, end)),
        None => None,
    }
}

/// An entity by its id or by its ident.
fn read_entid(src: &Source, pos: usize, direction: KeywordDirection) -> (r: Option<(EntidOrIdent, usize)>)
    requires
        src.well_formed(),
        pos <= src@.len(),
    ensures
        reads(r, entid_at(src@, pos as int, direction)),
        r matches Some((_, end)) ==> pos < end <= src@.len(),
{
    let forward = match direction {
        KeywordDirection::Backward => false,
        _ => true,
    };
    if forward {
        match read_long(src, pos) {
            Some((e, end)) => {
                return Some((EntidOrIdent::Entid(e), end));
            },
            None => {},
        }
    }
    match read_keyword(src, pos) {
        Some((k, end)) => {
            if !k.is_namespaced() {
                return None;
            }
            match direction {
                KeywordDirection::Any => Some((EntidOrIdent::Ident(k), end)),
                KeywordDirection::Forward => {
                    if k.is_forward() {
                        Some((EntidOrIdent::Ident(k), end))
                    } else {
                        None
                    }
                },
                KeywordDirection::Backward => {
                    if k.is_backward() && k.name().unicode_len() > 1 {
                        Some((EntidOrIdent::Ident(k.to_reversed()), end))
                    } else {
                        None
                    }
                },
            }
        },
        None => None,
    }
}

/// `(lookup-ref a v)`.
fn read_lookup_ref(src: &Source, pos: usize) -> (r: Option<(LookupRef, usize)>)
    requires
        src.well_formed(),
        pos <= src@.len(),
    ensures
        reads(r, lookup_ref_at(src@, pos as int)),
        r matches Some((_, end)) ==> pos < end <= src@.len(),
{
    proof {
        src.lemma_bounded();
    }
    let chars = src.chars();
    if !scan_char(chars, pos, '(') {
        return None;
    }
    let word = pos + 1 + scan_blank(chars, pos + 1);
    if !scan_literal(chars, word, "lookup-ref") {
        return None;
    }
    let after_word = word + "lookup-ref".unicode_len();
    let attr = after_word + scan_blank(chars, after_word);
    match read_entid(src, attr, KeywordDirection::Any) {
        Some((a, after_a)) => {
            match read_value(src, after_a + scan_blank(chars, after_a)) {
                Some((v, after_v)) => {
                    let close = after_v + scan_blank(chars, after_v);
                    if scan_char(chars, close, ')') {
                        Some((LookupRef { a: AttributePlace::Entid(a), v }, close + 1))
                    } else {
                        None
                    }
                },
                None => None,
            }
        },
        None => None,
    }
}

/// `(name)`.
fn read_tx_function(src: &Source, pos: usize) -> (r: Option<(TxFunction, usize)>)
    requires
        src.well_formed(),
        pos <= src@.len(),
    ensures
        match r {
            Some((f, end)) => tx_function_at(src@, pos as int) == Some((f.op@, end as int)) && pos
                < end <= src@.len(),
            None => tx_function_at(src@, pos as int) is None,
        },
{
    proof {
        src.lemma_bounded();
    }
    let chars = src.chars();
    if !scan_char(chars, pos, '(') {
        return None;
    }
    let start = pos + 1 + scan_blank(chars, pos + 1);
    let n = read_symbol_name_len(src, start);
    if n == 0 {
        return None;
    }
    let close = start + n + scan_blank(chars, start + n);
    if scan_char(chars, close, ')') {
        let name = string_of(chars, start, start + n);
        Some((TxFunction { op: PlainSymbol::plain(name.as_str()) }, close + 1))
    } else {
        None
    }
}

/// The entity of a form.
fn read_entity_place(src: &Source, pos: usize) -> (r: Option<(EntityPlace, usize)>)
    requires
        src.well_formed(),
        pos <= src@.len(),
    ensures
        reads(r, entity_place_at(src@, pos as int)),
        r matches Some((_, end)) ==> pos < end <= src@.len(),
{
    match read_raw_text(src, pos) {
        Some((name, end)) => {
            return Some((EntityPlace::TempId(TempId::External(name)), end));
        },
        None => {},
    }
    match read_entid(src, pos, KeywordDirection::Any) {
        Some((e, end)) => {
            return Some((EntityPlace::Entid(e), end));
        },
        None => {},
    }
    match read_lookup_ref(src, pos) {
        Some((r, end)) => {
            return Some((EntityPlace::LookupRef(r), end));
        },
        None => {},
    }
    match read_tx_function(src, pos) {
        Some((f, end)) => Some((EntityPlace::TxFunction(f), end)),
        None => None,
    }
}

/// Whether a value is a collection.
fn value_is_collection(v: &ValueAndSpan) -> (r: bool)
    ensures
        r == is_collection(v@.inner),
{
    match &v.inner {
        SpannedValue::Vector(_) => true,
        SpannedValue::List(_) => true,
        SpannedValue::SetOf(_) => true,
        SpannedValue::MapOf(_) => true,
        _ => false,
    }
}

/// The value of a form, with the blanks around it.
pub fn read_value_place(src: &Source, pos: usize) -> (r: Option<(ValuePlace, usize)>)
    requires
        src.well_formed(),
        pos <= src@.len(),
    ensures
        reads(r, value_place_at(src@, pos as int)),
        r matches Some((_, end)) ==> pos < end <= src@.len(),
    decreases src@.len() - pos, 2nat,
{
    let chars = src.chars();
    let start = pos + scan_blank(chars, pos);
    match read_bare_value_place(src, start) {
        Some((place, end)) => Some((place, end + scan_blank(chars, end))),
        None => None,
    }
}

/// The value of a form without blanks around it.
#[verifier::rlimit(40)]
fn read_bare_value_place(src: &Source, pos: usize) -> (r: Option<(ValuePlace, usize)>)
    requires
        src.well_formed(),
        pos <= src@.len(),
    ensures
        reads(r, bare_value_place_at(src@, pos as int)),
        r matches Some((_, end)) ==> pos < end <= src@.len(),
    decreases src@.len() - pos, 1nat,
{
    let chars = src.chars();
    match read_lookup_ref(src, pos) {
        Some((r, end)) => {
            return Some((ValuePlace::LookupRef(r), end));
        },
        None => {},
    }
    assert(lookup_ref_at(src@, pos as int) is None);
    match read_tx_function(src, pos) {
        Some((f, end)) => {
            return Some((ValuePlace::TxFunction(f), end));
        },
        None => {},
    }
    assert(tx_function_at(src@, pos as int) is None);
    if scan_char(chars, pos, '[') {
        match read_vector_place(src, pos) {
            Some(found) => {
                return Some(found);
            },
            None => {},
        }
    }
    assert(!(char_at(src@, pos as int, '[') && vector_place_at(src@, pos as int) is Some));
    if scan_char(chars, pos, '{') {
        match read_map_notation(src, pos) {
            Some((entries, end)) => {
                return Some((ValuePlace::MapNotation(entries), end));
            },
            None => {},
        }
    }
    assert(!(char_at(src@, pos as int, '{') && map_notation_at(src@, pos as int) is Some));
    match read_value(src, pos) {
        Some((v, end)) => {
            if value_is_collection(&v) {
                None
            } else {
                Some((ValuePlace::Atom(v), end))
            }
        },
        None => None,
    }
}

/// A vector of values of forms.
fn read_vector_place(src: &Source, pos: usize) -> (r: Option<(ValuePlace, usize)>)
    requires
        src.well_formed(),
        pos <= src@.len(),
    ensures
        reads(r, vector_place_at(src@, pos as int)),
        r matches Some((_, end)) ==> pos < end <= src@.len(),
    decreases src@.len() - pos, 0nat,
{
    proof {
        src.lemma_bounded();
    }
    let chars = src.chars();
    if !scan_char(chars, pos, '[') {
        return None;
    }
    let inside = pos + 1 + scan_blank(chars, pos + 1);
    let mut places: Vec<ValuePlace> = Vec::new();
    let mut cur: usize = inside;
    proof {
        assert(places_view(places@) =~= Seq::empty());
    }
    loop
        invariant
            src.well_formed(),
            chars@ == src@,
            pos < inside <= cur <= src@.len(),
            places_at(src@, inside as int, Seq::empty()) == places_at(
                src@,
                cur as int,
                places_view(places@),
            ),
        ensures
            inside <= cur <= src@.len(),
            places_at(src@, inside as int, Seq::empty()) == (places_view(places@), cur as int),
        decreases src@.len() - cur,
    {
        match read_value_place(src, cur) {
            Some((place, next)) => {
                let ghost before = places_view(places@);
                let ghost item = place@;
                places.push(place);
                cur = next;
                proof {
                    assert(places_view(places@) =~= before.push(item));
                }
            },
            None => {
                break ;
            },
        }
    }
    let close = cur + scan_blank(chars, cur);
    if scan_char(chars, close, ']') {
        Some((ValuePlace::Vector(places), close + 1))
    } else {
        None
    }
}

/// A map.
fn read_map_notation(src: &Source, pos: usize) -> (r: Option<
    (Vec<(EntidOrIdent, ValuePlace)>, usize),
>)
    requires
        src.well_formed(),
        pos <= src@.len(),
    ensures
        match r {
            Some((entries, end)) => map_notation_at(src@, pos as int) == Some(
                (map_notation_view(entries@), end as int),
            ) && pos < end <= src@.len(),
            None => map_notation_at(src@, pos as int) is None,
        },
    decreases src@.len() - pos, 0nat,
{
    proof {
        src.lemma_bounded();
    }
    let chars = src.chars();
    if !scan_char(chars, pos, '{') {
        return None;
    }
    let inside = pos + 1 + scan_blank(chars, pos + 1);
    let mut entries: Vec<(EntidOrIdent, ValuePlace)> = Vec::new();
    let mut cur: usize = inside;
    proof {
        assert(map_notation_view(entries@) =~= Seq::empty());
    }
    loop
        invariant
            src.well_formed(),
            chars@ == src@,
            pos < inside <= cur <= src@.len(),
            pairs_at(src@, inside as int, Seq::empty()) == pairs_at(
                src@,
                cur as int,
                map_notation_view(entries@),
            ),
        ensures
            inside <= cur <= src@.len(),
            pairs_at(src@, inside as int, Seq::empty()) == (
                map_notation_view(entries@),
                cur as int,
            ),
        decreases src@.len() - cur,
    {
        match read_entid(src, cur, KeywordDirection::Any) {
            Some((a, mid)) => {
                match read_value_place(src, mid + scan_blank(chars, mid)) {
                    Some((v, next)) => {
                        let ghost before = map_notation_view(entries@);
                        let ghost pair = (a@, v@);
                        entries.push((a, v));
                        cur = next;
                        proof {
                            assert(map_notation_view(entries@) =~= before.push(pair));
                        }
                    },
                    None => {
                        break ;
                    },
                }
            },
            None => {
                break ;
            },
        }
    }
    let close = cur + scan_blank(chars, cur);
    if scan_char(chars, close, '}') {
        Some((entries, close + 1))
    } else {
        None
    }
}

/// `[op e a v]` with a forward attribute.
fn read_forward_form(src: &Source, pos: usize) -> (r: Option<(Entity, usize)>)
    requires
        src.well_formed(),
        pos <= src@.len(),
    ensures
        reads(r, forward_form_at(src@, pos as int)),
        r matches Some((_, end)) ==> pos < end <= src@.len(),
{
    proof {
        src.lemma_bounded();
    }
    let chars = src.chars();
    if !scan_char(chars, pos, '[') {
        return None;
    }
    match read_op(src, pos + 1 + scan_blank(chars, pos + 1)) {
        Some((op, p1)) => match read_entity_place(src, p1 + scan_blank(chars, p1)) {
            Some((e, p2)) => match read_entid(src, p2 + scan_blank(chars, p2), KeywordDirection::Forward) {
                Some((a, p3)) => match read_value_place(src, p3 + scan_blank(chars, p3)) {
                    Some((v, p4)) => {
                        let close = p4 + scan_blank(chars, p4);
                        if scan_char(chars, close, ']') {
                            Some(
                                (
                                    Entity::AddOrRetract { op, e, a: AttributePlace::Entid(a), v },
                                    close + 1,
                                ),
                            )
                        } else {
                            None
                        }
                    },
                    None => None,
                },
                None => None,
            },
            None => None,
        },
        None => None,
    }
}

/// `[op v a e]` with a backward attribute.
fn read_backward_form(src: &Source, pos: usize) -> (r: Option<(Entity, usize)>)
    requires
        src.well_formed(),
        pos <= src@.len(),
    ensures
        reads(r, backward_form_at(src@, pos as int)),
        r matches Some((_, end)) ==> pos < end <= src@.len(),
{
    proof {
        src.lemma_bounded();
    }
    let chars = src.chars();
    if !scan_char(chars, pos, '[') {
        return None;
    }
    match read_op(src, pos + 1 + scan_blank(chars, pos + 1)) {
        Some((op, p1)) => match read_value_place(src, p1 + scan_blank(chars, p1)) {
            Some((first, p2)) => match read_entid(
                src,
                p2 + scan_blank(chars, p2),
                KeywordDirection::Backward,
            ) {
                Some((a, p3)) => match read_entity_place(src, p3 + scan_blank(chars, p3)) {
                    Some((last, p4)) => {
                        let close = p4 + scan_blank(chars, p4);
                        if scan_char(chars, close, ']') {
                            Some(
                                (
                                    Entity::AddOrRetract {
                                        op,
                                        e: last,
                                        a: AttributePlace::Entid(a),
                                        v: first,
                                    },
                                    close + 1,
                                ),
                            )
                        } else {
                            None
                        }
                    },
                    None => None,
                },
                None => None,
            },
            None => None,
        },
        None => None,
    }
}

/// One form of a transaction, with the blanks around it.
pub fn read_entity(src: &Source, pos: usize) -> (r: Option<(Entity, usize)>)
    requires
        src.well_formed(),
        pos <= src@.len(),
    ensures
        reads(r, entity_at(src@, pos as int)),
        r matches Some((_, end)) ==> pos < end <= src@.len(),
{
    let chars = src.chars();
    let start = pos + scan_blank(chars, pos);
    match read_forward_form(src, start) {
        Some((entity, end)) => {
            return Some((entity, end + scan_blank(chars, end)));
        },
        None => {},
    }
    match read_backward_form(src, start) {
        Some((entity, end)) => {
            return Some((entity, end + scan_blank(chars, end)));
        },
        None => {},
    }
    match read_map_notation(src, start) {
        Some((entries, end)) => Some((Entity::MapNotation(entries), end + scan_blank(chars, end))),
        None => None,
    }
}

/// Reads a text as a transaction: a vector of forms. Blanks may stand
/// around the vector, and nothing else.
///
/// Where the text is no transaction, the error gives the place where
/// reading stopped: the bracket that should open the vector, the first
/// form that cannot be read, or what follows the vector.
pub fn entities(input: &str) -> (r: Result<Vec<Entity>, ParseError>)
    ensures
        match r {
            Ok(forms) => whole_entities(input@) == Some(entities_view(forms@)),
            Err(e) => whole_entities(input@) is None && e.location == location_at(
                input@,
                entities_stop(input@),
            ),
        },
{
    let src = Source::new(input);
    proof {
        src.lemma_bounded();
    }
    let chars = src.chars();
    let open = scan_blank(chars, 0);
    if !scan_char(chars, open, '[') {
        return Err(ParseError { location: src.location(open) });
    }
    let inside = open + 1 + scan_blank(chars, open + 1);
    let mut forms: Vec<Entity> = Vec::new();
    let mut cur: usize = inside;
    proof {
        assert(entities_view(forms@) =~= Seq::empty());
    }
    loop
        invariant
            src.well_formed(),
            chars@ == src@,
            inside <= cur <= src@.len(),
            forms_at(src@, inside as int, Seq::empty()) == forms_at(
                src@,
                cur as int,
                entities_view(forms@),
            ),
        ensures
            inside <= cur <= src@.len(),
            forms_at(src@, inside as int, Seq::empty()) == (entities_view(forms@), cur as int),
        decreases src@.len() - cur,
    {
        match read_entity(&src, cur) {
            Some((entity, next)) => {
                let ghost before = entities_view(forms@);
                let ghost item = entity@;
                forms.push(entity);
                cur = next;
                proof {
                    assert(entities_view(forms@) =~= before.push(item));
                }
            },
            None => {
                break ;
            },
        }
    }
    let close = cur + scan_blank(chars, cur);
    if !scan_char(chars, close, ']') {
        return Err(ParseError { location: src.location(close) });
    }
    let end = close + 1 + scan_blank(chars, close + 1);
    if end == src.len() {
        Ok(forms)
    } else {
        Err(ParseError { location: src.location(end) })
    }
}

} // verus!
