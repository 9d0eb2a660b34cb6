//! From the forms of a transaction as they are read to forms that the
//! transactor applies: idents become entity ids, values take the type of
//! their attribute, lookup references are looked up, maps are taken
//! apart, and attributes in the backward direction are turned around.

use vstd::prelude::*;
use crate::db::Entid;
use crate::edn::entities::{
    AttributePlace, EntidOrIdent, EntidOrIdentView, Entity, EntityPlace, EntityPlaceView,
    EntityView, LookupRef, LookupRefView, OpType, TempId, TempIdView, ValuePlace, ValuePlaceView,
};
use crate::edn::types::{SpannedValue, SpannedValueView};
use crate::schema::{Schema, SchemaView};
use crate::symbols::NameView;
use crate::text::str_equal;
use crate::transactor::model::{first_match, DatomView, ProbeKind};
use crate::transactor::store::{datoms_view, find_datom, Datom};
use crate::transactor::upsert::{
    forms_view, EntityRef, EntityRefView, Form, FormView, ValueRef, ValueRefView,
};
use crate::db::DbErrorKind;
use crate::values::{TypedValue, TypedValueView, ValueType};

verus! {

/// Why a form as it was read cannot be applied.
#[derive(Debug, Clone, Copy, PartialEq, Eq, Structural)]
pub enum NormalizeErrorKind {
    /// A keyword names no entity.
    UnrecognizedIdent,
    /// The attribute is not defined.
    UnknownAttribute,
    /// The value cannot be a value of the type of the attribute.
    BadTypeCoercion,
    /// The attribute of a lookup reference is not unique.
    LookupRefNotUnique,
    /// No entity holds the value of a lookup reference.
    MissingLookupRef,
    /// An attribute in the backward direction is no reference.
    ReversedNotRef,
    /// The value of an attribute in the backward direction is no entity.
    ReversedNotEntity,
    /// A map says nothing of the entity it is about.
    MissingDbId,
    /// The form uses what there is no code for: a function other than
    /// `transaction-tx`, a map among the values of a vector or a vector
    /// among them, or a map as the value of a form.
    NotSupported,
}

/// Why the forms of a transaction cannot be applied: the position of the
/// first form that cannot, and why it cannot.
#[derive(Debug, Clone, Copy, PartialEq, Eq, Structural)]
pub struct NormalizeError {
    pub index: usize,
    pub kind: NormalizeErrorKind,
}

impl NormalizeError {
    /// The error as an error of the store: a lookup reference that finds
    /// no entity is a kind of its own.
    pub open spec fn as_db_error(self) -> DbErrorKind {
        if self.kind == NormalizeErrorKind::MissingLookupRef {
            DbErrorKind::MissingLookupRef(self.index)
        } else {
            DbErrorKind::InputError(self.index, self.kind)
        }
    }

    /// The error as an error of the store; see
    /// [`NormalizeError::as_db_error`].
    pub fn error(self) -> (r: DbErrorKind)
        ensures
            r == self.as_db_error(),
    {
        match self.kind {
            NormalizeErrorKind::MissingLookupRef => DbErrorKind::MissingLookupRef(self.index),
            kind => DbErrorKind::InputError(self.index, kind),
        }
    }
}

/// The keyword `:db/id`, under which a map names the entity it is about.
pub open spec fn db_id() -> NameView {
    NameView { namespace: Some("db"@), name: "id"@ }
}

/// Whether a keyword stands for an attribute in the backward direction.
pub open spec fn is_reversed(k: NameView) -> bool {
    k.is_backward() && k.name.len() > 1
}

/// The attribute that a key names and whether it is named in the
/// backward direction.
pub open spec fn attribute_named(schema: SchemaView, key: EntidOrIdentView) -> Result<
    (Entid, bool),
    NormalizeErrorKind,
> {
    match key {
        EntidOrIdentView::Entid(n) => Ok((n as Entid, false)),
        EntidOrIdentView::Ident(k) => {
            let forward = if is_reversed(k) {
                k.reversed()
            } else {
                k
            };
            match schema.entid_of(forward) {
                Some(e) => Ok((e as Entid, is_reversed(k))),
                None => Err(NormalizeErrorKind::UnrecognizedIdent),
            }
        },
    }
}

/// The entity that an entity id or ident names.
pub open spec fn entity_named(schema: SchemaView, e: EntidOrIdentView) -> Result<
    Entid,
    NormalizeErrorKind,
> {
    match e {
        EntidOrIdentView::Entid(n) => Ok(n as Entid),
        EntidOrIdentView::Ident(k) => match schema.entid_of(k) {
            Some(e) => Ok(e as Entid),
            None => Err(NormalizeErrorKind::UnrecognizedIdent),
        },
    }
}

/// The value of the given type that a value as it was read stands for.
/// An integer is a long or a reference, a keyword is a keyword or the
/// reference to the entity it names, and a text is a string or, where a
/// reference is asked for, a temporary id. A value cannot stand for a
/// double.
pub open spec fn coerced(schema: SchemaView, value_type: ValueType, v: SpannedValueView) -> Result<
    ValueRefView,
    NormalizeErrorKind,
> {
    match (value_type, v) {
        (ValueType::Ref, SpannedValueView::Integer(n)) => Ok(
            ValueRefView::Value(TypedValueView::Ref(n)),
        ),
        (ValueType::Ref, SpannedValueView::Keyword(k)) => match schema.entid_of(k) {
            Some(e) => Ok(ValueRefView::Value(TypedValueView::Ref(e))),
            None => Err(NormalizeErrorKind::UnrecognizedIdent),
        },
        (ValueType::Ref, SpannedValueView::Text(t)) => Ok(ValueRefView::TempId(t)),
        (ValueType::Long, SpannedValueView::Integer(n)) => Ok(
            ValueRefView::Value(TypedValueView::Long(n)),
        ),
        (ValueType::Boolean, SpannedValueView::Boolean(b)) => Ok(
            ValueRefView::Value(TypedValueView::Boolean(b)),
        ),
        (ValueType::Instant, SpannedValueView::Instant(micros)) => Ok(
            ValueRefView::Value(TypedValueView::Instant(micros)),
        ),
        (ValueType::String, SpannedValueView::Text(t)) => Ok(
            ValueRefView::Value(TypedValueView::String(t)),
        ),
        (ValueType::Keyword, SpannedValueView::Keyword(k)) => Ok(
            ValueRefView::Value(TypedValueView::Keyword(k)),
        ),
        (ValueType::Uuid, SpannedValueView::Uuid(u)) => Ok(
            ValueRefView::Value(TypedValueView::Uuid(u)),
        ),
        _ => Err(NormalizeErrorKind::BadTypeCoercion),
    }
}

/// The entity that a lookup reference finds, if one holds the value. The
/// attribute must be unique, and the value a value of its type.
pub open spec fn looked_up(schema: SchemaView, datoms: Seq<DatomView>, lookup: LookupRefView)
    -> Result<Option<Entid>, NormalizeErrorKind> {
    match entity_named(schema, lookup.a) {
        Err(e) => Err(e),
        Ok(a) => match schema.attribute_of(a as int) {
            None => Err(NormalizeErrorKind::UnknownAttribute),
            Some(attribute) => if attribute.unique is None {
                Err(NormalizeErrorKind::LookupRefNotUnique)
            } else {
                match coerced(schema, attribute.value_type, lookup.v.inner) {
                    Err(e) => Err(e),
                    Ok(ValueRefView::TempId(_)) => Err(NormalizeErrorKind::BadTypeCoercion),
                    Ok(ValueRefView::Value(v)) => if first_match(
                        datoms,
                        ProbeKind::Holder,
                        0,
                        a,
                        v,
                    ) < datoms.len() {
                        Ok(Some(datoms[first_match(datoms, ProbeKind::Holder, 0, a, v)].e))
                    } else {
                        Ok(None)
                    },
                }
            },
        },
    }
}

/// Whether a function of the transaction is the one that gives its id.
pub open spec fn is_transaction_tx(name: Seq<char>) -> bool {
    name == "transaction-tx"@
}

/// The entity of a form. Nothing stands for the entity of a lookup
/// reference that finds none.
pub open spec fn entity_ref_of(
    schema: SchemaView,
    datoms: Seq<DatomView>,
    tx: Entid,
    place: EntityPlaceView,
) -> Result<Option<EntityRefView>, NormalizeErrorKind> {
    match place {
        EntityPlaceView::Entid(e) => match entity_named(schema, e) {
            Ok(n) => Ok(Some(EntityRefView::Entid(n))),
            Err(e) => Err(e),
        },
        EntityPlaceView::TempId(TempIdView::External(t)) => Ok(Some(EntityRefView::TempId(t))),
        EntityPlaceView::TempId(TempIdView::Tx) => Ok(Some(EntityRefView::Entid(tx))),
        EntityPlaceView::TempId(TempIdView::Internal(_)) => Err(NormalizeErrorKind::NotSupported),
        EntityPlaceView::LookupRef(lookup) => match looked_up(schema, datoms, lookup) {
            Ok(Some(e)) => Ok(Some(EntityRefView::Entid(e))),
            Ok(None) => Ok(None),
            Err(e) => Err(e),
        },
        EntityPlaceView::TxFunction(name) => if is_transaction_tx(name) {
            Ok(Some(EntityRefView::Entid(tx)))
        } else {
            Err(NormalizeErrorKind::NotSupported)
        },
    }
}

/// An entity as the value of a reference.
pub open spec fn as_value(e: EntityRefView) -> ValueRefView {
    match e {
        EntityRefView::Entid(n) => ValueRefView::Value(TypedValueView::Ref(n as int)),
        EntityRefView::TempId(t) => ValueRefView::TempId(t),
    }
}

/// The value of a reference as an entity, if it is one.
pub open spec fn as_entity(v: ValueRefView) -> Option<EntityRefView> {
    match v {
        ValueRefView::Value(TypedValueView::Ref(n)) => if -0x8000_0000_0000_0000 <= n
            <= 0x7fff_ffff_ffff_ffff {
            Some(EntityRefView::Entid(n as Entid))
        } else {
            None
        },
        ValueRefView::TempId(t) => Some(EntityRefView::TempId(t)),
        _ => None,
    }
}

/// The value that one value of a form stands for, where the attribute has
/// the given type: a value as it was read, a lookup reference, the
/// transaction, an entity, or a temporary id. Nothing stands for a lookup
/// reference that finds no entity.
pub open spec fn value_ref_of(
    schema: SchemaView,
    datoms: Seq<DatomView>,
    tx: Entid,
    value_type: ValueType,
    place: ValuePlaceView,
) -> Result<Option<ValueRefView>, NormalizeErrorKind> {
    match place {
        ValuePlaceView::Atom(v) => match coerced(schema, value_type, v.inner) {
            Ok(value) => Ok(Some(value)),
            Err(e) => Err(e),
        },
        ValuePlaceView::Vector(_) => Err(NormalizeErrorKind::NotSupported),
        ValuePlaceView::MapNotation(_) => Err(NormalizeErrorKind::NotSupported),
        other => if value_type != ValueType::Ref {
            Err(NormalizeErrorKind::BadTypeCoercion)
        } else {
            match other {
                ValuePlaceView::Entid(e) => match entity_named(schema, e) {
                    Ok(n) => Ok(Some(ValueRefView::Value(TypedValueView::Ref(n as int)))),
                    Err(e) => Err(e),
                },
                ValuePlaceView::TempId(TempIdView::External(t)) => Ok(
                    Some(ValueRefView::TempId(t)),
                ),
                ValuePlaceView::TempId(TempIdView::Tx) => Ok(
                    Some(ValueRefView::Value(TypedValueView::Ref(tx as int))),
                ),
                ValuePlaceView::LookupRef(lookup) => match looked_up(schema, datoms, lookup) {
                    Ok(Some(e)) => Ok(Some(ValueRefView::Value(TypedValueView::Ref(e as int)))),
                    Ok(None) => Ok(None),
                    Err(e) => Err(e),
                },
                ValuePlaceView::TxFunction(name) => if is_transaction_tx(name) {
                    Ok(Some(ValueRefView::Value(TypedValueView::Ref(tx as int))))
                } else {
                    Err(NormalizeErrorKind::NotSupported)
                },
                _ => Err(NormalizeErrorKind::NotSupported),
            }
        },
    }
}

/// The form that says of the entity `e` that the attribute named by
/// `key` has the value `v`, or the forms after `so_far` with that form.
///
/// Where the key names the attribute in the backward direction, the form
/// says of the entity that `v` stands for that the attribute has `e` as
/// its value; the attribute must then be a reference. A retraction whose
/// lookup reference finds no entity says nothing; an assertion of one is
/// an error.
#[verifier::opaque]
pub open spec fn with_form(
    schema: SchemaView,
    datoms: Seq<DatomView>,
    tx: Entid,
    so_far: Seq<FormView>,
    op: OpType,
    e: Option<EntityRefView>,
    key: EntidOrIdentView,
    v: ValuePlaceView,
) -> Result<Seq<FormView>, NormalizeErrorKind> {
    match attribute_named(schema, key) {
        Err(error) => Err(error),
        Ok((a, backward)) => match schema.attribute_of(a as int) {
            None => Err(NormalizeErrorKind::UnknownAttribute),
            Some(attribute) => if backward && attribute.value_type != ValueType::Ref {
                Err(NormalizeErrorKind::ReversedNotRef)
            } else {
                match value_ref_of(schema, datoms, tx, attribute.value_type, v) {
                    Err(error) => Err(error),
                    Ok(value) => if e is None || value is None {
                        if op == OpType::Retract {
                            Ok(so_far)
                        } else {
                            Err(NormalizeErrorKind::MissingLookupRef)
                        }
                    } else if backward {
                        match as_entity(value->0) {
                            Some(entity) => Ok(
                                so_far.push(
                                    FormView { op, e: entity, a, v: as_value(e->0) },
                                ),
                            ),
                            None => Err(NormalizeErrorKind::ReversedNotEntity),
                        }
                    } else {
                        Ok(so_far.push(FormView { op, e: e->0, a, v: value->0 }))
                    },
                }
            },
        },
    }
}

/// The forms after `so_far` with those that say of the entity `e` that
/// the attribute named by `key` has the value or, for a vector, each of
/// the values at `v`.
pub open spec fn with_forms(
    schema: SchemaView,
    datoms: Seq<DatomView>,
    tx: Entid,
    so_far: Seq<FormView>,
    op: OpType,
    e: Option<EntityRefView>,
    key: EntidOrIdentView,
    v: ValuePlaceView,
) -> Result<Seq<FormView>, NormalizeErrorKind> {
    match v {
        ValuePlaceView::Vector(values) => with_each(schema, datoms, tx, so_far, op, e, key, values),
        other => with_form(schema, datoms, tx, so_far, op, e, key, other),
    }
}

/// The forms after `so_far` with one for each of the values.
pub open spec fn with_each(
    schema: SchemaView,
    datoms: Seq<DatomView>,
    tx: Entid,
    so_far: Seq<FormView>,
    op: OpType,
    e: Option<EntityRefView>,
    key: EntidOrIdentView,
    values: Seq<ValuePlaceView>,
) -> Result<Seq<FormView>, NormalizeErrorKind>
    decreases values.len(),
{
    if values.len() == 0 {
        Ok(so_far)
    } else {
        match with_form(schema, datoms, tx, so_far, op, e, key, values[0]) {
            Ok(next) => with_each(schema, datoms, tx, next, op, e, key, values.drop_first()),
            Err(error) => Err(error),
        }
    }
}

/// Whether a key is `:db/id`.
pub open spec fn is_db_id(key: EntidOrIdentView) -> bool {
    key == EntidOrIdentView::Ident(db_id())
}

/// The position of the first entry of a map whose key is `:db/id`, or the
/// number of entries if there is none.
pub open spec fn db_id_position(entries: Seq<(EntidOrIdentView, ValuePlaceView)>) -> int
    decreases entries.len(),
{
    if entries.len() == 0 || is_db_id(entries[0].0) {
        0
    } else {
        1 + db_id_position(entries.drop_first())
    }
}

/// The entity that the value under `:db/id` names: an entity id, an
/// ident, a temporary id, a lookup reference or the transaction.
pub open spec fn map_entity(
    schema: SchemaView,
    datoms: Seq<DatomView>,
    tx: Entid,
    place: ValuePlaceView,
) -> Result<Option<EntityRefView>, NormalizeErrorKind> {
    match value_ref_of(schema, datoms, tx, ValueType::Ref, place) {
        Err(error) => Err(error),
        Ok(None) => Ok(None),
        Ok(Some(value)) => match as_entity(value) {
            Some(entity) => Ok(Some(entity)),
            None => Err(NormalizeErrorKind::BadTypeCoercion),
        },
    }
}

/// The forms after `so_far` with those of the entries of a map about the
/// entity `e`; the entries under `:db/id` say nothing more.
pub open spec fn with_entries(
    schema: SchemaView,
    datoms: Seq<DatomView>,
    tx: Entid,
    so_far: Seq<FormView>,
    e: Option<EntityRefView>,
    entries: Seq<(EntidOrIdentView, ValuePlaceView)>,
) -> Result<Seq<FormView>, NormalizeErrorKind>
    decreases entries.len(),
{
    if entries.len() == 0 {
        Ok(so_far)
    } else if is_db_id(entries[0].0) {
        with_entries(schema, datoms, tx, so_far, e, entries.drop_first())
    } else {
        match with_forms(schema, datoms, tx, so_far, OpType::Add, e, entries[0].0, entries[0].1) {
            Ok(next) => with_entries(schema, datoms, tx, next, e, entries.drop_first()),
            Err(error) => Err(error),
        }
    }
}

/// The forms after `so_far` with those that one form as it was read
/// stands for.
#[verifier::opaque]
pub open spec fn with_entity(
    schema: SchemaView,
    datoms: Seq<DatomView>,
    tx: Entid,
    so_far: Seq<FormView>,
    entity: EntityView,
) -> Result<Seq<FormView>, NormalizeErrorKind> {
    match entity {
        EntityView::AddOrRetract { op, e, a, v } => match entity_ref_of(schema, datoms, tx, e) {
            Err(error) => Err(error),
            Ok(entity) => with_forms(schema, datoms, tx, so_far, op, entity, a, v),
        },
        EntityView::MapNotation(entries) => if db_id_position(entries) >= entries.len() {
            Err(NormalizeErrorKind::MissingDbId)
        } else {
            match map_entity(schema, datoms, tx, entries[db_id_position(entries)].1) {
                Err(error) => Err(error),
                Ok(None) => Err(NormalizeErrorKind::MissingLookupRef),
                Ok(Some(e)) => with_entries(schema, datoms, tx, so_far, Some(e), entries),
            }
        },
    }
}

/// The forms that the forms of a transaction as they were read stand
/// for, after those in `so_far`; `index` is the position of the first of
/// `entities` in the transaction. The first form that cannot be applied
/// is the error.
pub open spec fn normalized_from(
    schema: SchemaView,
    datoms: Seq<DatomView>,
    tx: Entid,
    so_far: Seq<FormView>,
    entities: Seq<EntityView>,
    index: int,
) -> Result<Seq<FormView>, (int, NormalizeErrorKind)>
    decreases entities.len(),
{
    if entities.len() == 0 {
        Ok(so_far)
    } else {
        match with_entity(schema, datoms, tx, so_far, entities[0]) {
            Ok(next) => normalized_from(schema, datoms, tx, next, entities.drop_first(), index + 1),
            Err(kind) => Err((index, kind)),
        }
    }
}

/// The forms that the forms of a transaction as they were read stand
/// for.
pub open spec fn normalized(
    schema: SchemaView,
    datoms: Seq<DatomView>,
    tx: Entid,
    entities: Seq<EntityView>,
) -> Result<Seq<FormView>, (int, NormalizeErrorKind)> {
    normalized_from(schema, datoms, tx, Seq::empty(), entities, 0)
}

/// An attribute in the backward direction says of the value what the
/// attribute says of the entity: `[:db/add e :x/_y v]` is
/// `[:db/add v :x/y e]`. This holds where `:x/y` is a reference, its
/// name is more than an underscore and does not start with two, and `e`
/// and `v` are entities.
pub proof fn lemma_reversed_attribute(
    schema: SchemaView,
    datoms: Seq<DatomView>,
    tx: Entid,
    so_far: Seq<FormView>,
    op: OpType,
    e: EntidOrIdentView,
    attribute: NameView,
    v: EntidOrIdentView,
)
    requires
        is_reversed(attribute),
        !attribute.reversed().is_backward(),
        attribute_named(schema, EntidOrIdentView::Ident(attribute.reversed())) is Ok,
        schema.attribute_of(
            attribute_named(schema, EntidOrIdentView::Ident(attribute.reversed()))->Ok_0.0 as int,
        ) is Some,
        schema.attribute_of(
            attribute_named(schema, EntidOrIdentView::Ident(attribute.reversed()))->Ok_0.0 as int,
        )->0.value_type == ValueType::Ref,
        entity_named(schema, e) is Ok,
        entity_named(schema, v) is Ok,
    ensures
        with_form(
            schema,
            datoms,
            tx,
            so_far,
            op,
            Some(EntityRefView::Entid(entity_named(schema, e)->Ok_0)),
            EntidOrIdentView::Ident(attribute),
            ValuePlaceView::Entid(v),
        ) == with_form(
            schema,
            datoms,
            tx,
            so_far,
            op,
            Some(EntityRefView::Entid(entity_named(schema, v)->Ok_0)),
            EntidOrIdentView::Ident(attribute.reversed()),
            ValuePlaceView::Entid(e),
        ),
{
    reveal(with_form);
}

/// The form `[:db/add e :x/_y v]` as it was read.
pub open spec fn reversed_entity(
    op: OpType,
    e: EntidOrIdentView,
    attribute: NameView,
    v: EntidOrIdentView,
) -> EntityView {
    EntityView::AddOrRetract {
        op,
        e: EntityPlaceView::Entid(e),
        a: EntidOrIdentView::Ident(attribute),
        v: ValuePlaceView::Entid(v),
    }
}

/// A transaction of the one form `[:db/add e :x/_y v]` becomes the forms
/// that a transaction of `[:db/add v :x/y e]` becomes, so that the two
/// transactions write the same datoms. This holds where `:x/y` is a
/// reference, its name is more than an underscore and does not start
/// with two, and `e` and `v` are entities.
pub proof fn lemma_reversed_transaction(
    schema: SchemaView,
    datoms: Seq<DatomView>,
    tx: Entid,
    op: OpType,
    e: EntidOrIdentView,
    attribute: NameView,
    v: EntidOrIdentView,
)
    requires
        is_reversed(attribute),
        !attribute.reversed().is_backward(),
        attribute_named(schema, EntidOrIdentView::Ident(attribute.reversed())) is Ok,
        schema.attribute_of(
            attribute_named(schema, EntidOrIdentView::Ident(attribute.reversed()))->Ok_0.0 as int,
        ) is Some,
        schema.attribute_of(
            attribute_named(schema, EntidOrIdentView::Ident(attribute.reversed()))->Ok_0.0 as int,
        )->0.value_type == ValueType::Ref,
        entity_named(schema, e) is Ok,
        entity_named(schema, v) is Ok,
    ensures
        normalized(schema, datoms, tx, seq![reversed_entity(op, e, attribute, v)]) == normalized(
            schema,
            datoms,
            tx,
            seq![reversed_entity(op, v, attribute.reversed(), e)],
        ),
{
    reveal(with_entity);
    let none = Seq::<FormView>::empty();
    lemma_reversed_attribute(schema, datoms, tx, none, op, e, attribute, v);
    let backward = seq![reversed_entity(op, e, attribute, v)];
    let forward = seq![reversed_entity(op, v, attribute.reversed(), e)];
    assert(backward.drop_first() =~= Seq::<EntityView>::empty());
    assert(forward.drop_first() =~= Seq::<EntityView>::empty());
    reveal_with_fuel(normalized_from, 2);
}

/// A transaction of the one form `[:db/add e :x/_y v]` is refused where
/// `:x/y` is an attribute that is no reference.
pub proof fn lemma_reversed_needs_a_reference(
    schema: SchemaView,
    datoms: Seq<DatomView>,
    tx: Entid,
    op: OpType,
    e: EntidOrIdentView,
    attribute: NameView,
    v: EntidOrIdentView,
)
    requires
        is_reversed(attribute),
        attribute_named(schema, EntidOrIdentView::Ident(attribute)) is Ok,
        attribute_named(schema, EntidOrIdentView::Ident(attribute))->Ok_0.1,
        schema.attribute_of(
            attribute_named(schema, EntidOrIdentView::Ident(attribute))->Ok_0.0 as int,
        ) is Some,
        schema.attribute_of(
            attribute_named(schema, EntidOrIdentView::Ident(attribute))->Ok_0.0 as int,
        )->0.value_type != ValueType::Ref,
        entity_named(schema, e) is Ok,
    ensures
        normalized(schema, datoms, tx, seq![reversed_entity(op, e, attribute, v)]) == Err::<
            Seq<FormView>,
            (int, NormalizeErrorKind),
        >((0, NormalizeErrorKind::ReversedNotRef)),
{
    reveal(with_entity);
    reveal(with_form);
    reveal_with_fuel(normalized_from, 2);
}

fn clone_entity_ref(e: &EntityRef) -> (r: EntityRef)
    ensures
        r@ == e@,
{
    match e {
        EntityRef::Entid(n) => EntityRef::Entid(*n),
        EntityRef::TempId(t) => EntityRef::TempId(t.clone()),
    }
}

/// The attribute that a key names and whether it is named in the
/// backward direction.
fn attribute_for_key(schema: &Schema, key: &EntidOrIdent) -> (r: Result<
    (Entid, bool),
    NormalizeErrorKind,
>)
    requires
        schema@.well_formed(),
    ensures
        r == attribute_named(schema@, key@),
{
    match key {
        EntidOrIdent::Entid(n) => Ok((*n, false)),
        EntidOrIdent::Ident(k) => {
            let reversed = k.is_backward() && k.name().unicode_len() > 1;
            let found = if reversed {
                proof {
                    if k@.name == seq!['_'] {
                        assert(k@.name.len() == 1);
                    }
                }
                schema.get_entid(&k.to_reversed())
            } else {
                schema.get_entid(k)
            };
            match found {
                Some(e) => Ok((e, reversed)),
                None => Err(NormalizeErrorKind::UnrecognizedIdent),
            }
        },
    }
}

/// The entity that an entity id or ident names.
fn entity_for(schema: &Schema, e: &EntidOrIdent) -> (r: Result<Entid, NormalizeErrorKind>)
    requires
        schema@.well_formed(),
    ensures
        r == entity_named(schema@, e@),
{
    match e {
        EntidOrIdent::Entid(n) => Ok(*n),
        EntidOrIdent::Ident(k) => match schema.get_entid(k) {
            Some(e) => Ok(e),
            None => Err(NormalizeErrorKind::UnrecognizedIdent),
        },
    }
}

/// The value of the given type that a value as it was read stands for.
pub fn coerce(schema: &Schema, value_type: ValueType, v: &SpannedValue) -> (r: Result<
    ValueRef,
    NormalizeErrorKind,
>)
    requires
        schema@.well_formed(),
    ensures
        match r {
            Ok(value) => coerced(schema@, value_type, v@) == Ok::<
                ValueRefView,
                NormalizeErrorKind,
            >(value@),
            Err(e) => coerced(schema@, value_type, v@) == Err::<ValueRefView, NormalizeErrorKind>(
                e,
            ),
        },
{
    match (value_type, v) {
        (ValueType::Ref, SpannedValue::Integer(n)) => Ok(ValueRef::Value(TypedValue::Ref(*n))),
        (ValueType::Ref, SpannedValue::Keyword(k)) => match schema.get_entid(k) {
            Some(e) => Ok(ValueRef::Value(TypedValue::Ref(e))),
            None => Err(NormalizeErrorKind::UnrecognizedIdent),
        },
        (ValueType::Ref, SpannedValue::Text(t)) => Ok(ValueRef::TempId(t.clone())),
        (ValueType::Long, SpannedValue::Integer(n)) => Ok(ValueRef::Value(TypedValue::Long(*n))),
        (ValueType::Boolean, SpannedValue::Boolean(b)) => Ok(
            ValueRef::Value(TypedValue::Boolean(*b)),
        ),
        (ValueType::Instant, SpannedValue::Instant(micros)) => Ok(
            ValueRef::Value(TypedValue::Instant(*micros)),
        ),
        (ValueType::String, SpannedValue::Text(t)) => Ok(
            ValueRef::Value(TypedValue::String(t.clone())),
        ),
        (ValueType::Keyword, SpannedValue::Keyword(k)) => Ok(
            ValueRef::Value(TypedValue::Keyword(k.clone())),
        ),
        (ValueType::Uuid, SpannedValue::Uuid(u)) => Ok(ValueRef::Value(TypedValue::Uuid(*u))),
        _ => Err(NormalizeErrorKind::BadTypeCoercion),
    }
}

/// The entity that a lookup reference finds, if one holds the value.
fn look_up(schema: &Schema, datoms: &Vec<Datom>, lookup: &LookupRef) -> (r: Result<
    Option<Entid>,
    NormalizeErrorKind,
>)
    requires
        schema@.well_formed(),
    ensures
        r == looked_up(schema@, datoms_view(datoms@), lookup@),
{
    let a = match &lookup.a {
        AttributePlace::Entid(a) => match entity_for(schema, a) {
            Ok(a) => a,
            Err(e) => {
                return Err(e);
            },
        },
    };
    let attribute = match schema.attribute_for_entid(a) {
        Some(attribute) => attribute,
        None => {
            return Err(NormalizeErrorKind::UnknownAttribute);
        },
    };
    if attribute.unique.is_none() {
        return Err(NormalizeErrorKind::LookupRefNotUnique);
    }
    match coerce(schema, attribute.value_type, &lookup.v.inner) {
        Err(e) => Err(e),
        Ok(ValueRef::TempId(_)) => Err(NormalizeErrorKind::BadTypeCoercion),
        Ok(ValueRef::Value(v)) => {
            let holder = find_datom(datoms, ProbeKind::Holder, 0, a, &v);
            if holder < datoms.len() {
                assert(datoms_view(datoms@)[holder as int] == datoms@[holder as int]@);
                Ok(Some(datoms[holder].e))
            } else {
                Ok(None)
            }
        },
    }
}

/// The entity of a form.
fn entity_ref(schema: &Schema, datoms: &Vec<Datom>, tx: Entid, place: &EntityPlace) -> (r: Result<
    Option<EntityRef>,
    NormalizeErrorKind,
>)
    requires
        schema@.well_formed(),
    ensures
        match r {
            Ok(found) => entity_ref_of(schema@, datoms_view(datoms@), tx, place@) == Ok::<
                Option<EntityRefView>,
                NormalizeErrorKind,
            >(
                match found {
                    Some(e) => Some(e@),
                    None => None,
                },
            ),
            Err(e) => entity_ref_of(schema@, datoms_view(datoms@), tx, place@) == Err::<
                Option<EntityRefView>,
                NormalizeErrorKind,
            >(e),
        },
{
    match place {
        EntityPlace::Entid(e) => match entity_for(schema, e) {
            Ok(n) => Ok(Some(EntityRef::Entid(n))),
            Err(e) => Err(e),
        },
        EntityPlace::TempId(TempId::External(t)) => Ok(Some(EntityRef::TempId(t.clone()))),
        EntityPlace::TempId(TempId::Tx) => Ok(Some(EntityRef::Entid(tx))),
        EntityPlace::TempId(TempId::Internal(_)) => Err(NormalizeErrorKind::NotSupported),
        EntityPlace::LookupRef(lookup) => match look_up(schema, datoms, lookup) {
            Ok(Some(e)) => Ok(Some(EntityRef::Entid(e))),
            Ok(None) => Ok(None),
            Err(e) => Err(e),
        },
        EntityPlace::TxFunction(f) => {
            if str_equal(f.op.name(), "transaction-tx") {
                Ok(Some(EntityRef::Entid(tx)))
            } else {
                Err(NormalizeErrorKind::NotSupported)
            }
        },
    }
}

/// The view of what an option of a value holds.
pub open spec fn value_view(v: Option<ValueRef>) -> Option<ValueRefView> {
    match v {
        Some(x) => Some(x@),
        None => None,
    }
}

/// The view of what an option of an entity holds.
pub open spec fn entity_view(e: Option<EntityRef>) -> Option<EntityRefView> {
    match e {
        Some(x) => Some(x@),
        None => None,
    }
}

/// The value that one value of a form stands for.
fn value_ref(
    schema: &Schema,
    datoms: &Vec<Datom>,
    tx: Entid,
    value_type: ValueType,
    place: &ValuePlace,
) -> (r: Result<Option<ValueRef>, NormalizeErrorKind>)
    requires
        schema@.well_formed(),
    ensures
        match r {
            Ok(found) => value_ref_of(schema@, datoms_view(datoms@), tx, value_type, place@)
                == Ok::<Option<ValueRefView>, NormalizeErrorKind>(value_view(found)),
            Err(e) => value_ref_of(schema@, datoms_view(datoms@), tx, value_type, place@) == Err::<
                Option<ValueRefView>,
                NormalizeErrorKind,
            >(e),
        },
{
    match place {
        ValuePlace::Atom(v) => match coerce(schema, value_type, &v.inner) {
            Ok(value) => Ok(Some(value)),
            Err(e) => Err(e),
        },
        ValuePlace::Vector(_) => Err(NormalizeErrorKind::NotSupported),
        ValuePlace::MapNotation(_) => Err(NormalizeErrorKind::NotSupported),
        other => {
            if value_type != ValueType::Ref {
                return Err(NormalizeErrorKind::BadTypeCoercion);
            }
            match other {
                ValuePlace::Entid(e) => match entity_for(schema, e) {
                    Ok(n) => Ok(Some(ValueRef::Value(TypedValue::Ref(n)))),
                    Err(e) => Err(e),
                },
                ValuePlace::TempId(TempId::External(t)) => Ok(Some(ValueRef::TempId(t.clone()))),
                ValuePlace::TempId(TempId::Tx) => Ok(Some(ValueRef::Value(TypedValue::Ref(tx)))),
                ValuePlace::LookupRef(lookup) => match look_up(schema, datoms, lookup) {
                    Ok(Some(e)) => Ok(Some(ValueRef::Value(TypedValue::Ref(e)))),
                    Ok(None) => Ok(None),
                    Err(e) => Err(e),
                },
                ValuePlace::TxFunction(f) => {
                    if str_equal(f.op.name(), "transaction-tx") {
                        Ok(Some(ValueRef::Value(TypedValue::Ref(tx))))
                    } else {
                        Err(NormalizeErrorKind::NotSupported)
                    }
                },
                _ => Err(NormalizeErrorKind::NotSupported),
            }
        },
    }
}

/// Adds the form that says of the entity `e` that the attribute named by
/// `key` has the value `v`; see [`with_form`].
fn push_form(
    schema: &Schema,
    datoms: &Vec<Datom>,
    tx: Entid,
    out: &mut Vec<Form>,
    op: OpType,
    e: &Option<EntityRef>,
    key: &EntidOrIdent,
    v: &ValuePlace,
) -> (r: Result<(), NormalizeErrorKind>)
    requires
        schema@.well_formed(),
    ensures
        match r {
            Ok(_) => with_form(
                schema@,
                datoms_view(datoms@),
                tx,
                forms_view(old(out)@),
                op,
                entity_view(*e),
                key@,
                v@,
            ) == Ok::<Seq<FormView>, NormalizeErrorKind>(forms_view(final(out)@)),
            Err(error) => with_form(
                schema@,
                datoms_view(datoms@),
                tx,
                forms_view(old(out)@),
                op,
                entity_view(*e),
                key@,
                v@,
            ) == Err::<Seq<FormView>, NormalizeErrorKind>(error) && *final(out) == *old(out),
        },
{
    proof {
        reveal(with_form);
    }
    let ghost before = forms_view(out@);
    let (a, backward) = match attribute_for_key(schema, key) {
        Ok(found) => found,
        Err(error) => {
            return Err(error);
        },
    };
    let attribute = match schema.attribute_for_entid(a) {
        Some(attribute) => attribute,
        None => {
            return Err(NormalizeErrorKind::UnknownAttribute);
        },
    };
    if backward && attribute.value_type != ValueType::Ref {
        return Err(NormalizeErrorKind::ReversedNotRef);
    }
    let value = match value_ref(schema, datoms, tx, attribute.value_type, v) {
        Ok(value) => value,
        Err(error) => {
            return Err(error);
        },
    };
    match (e, value) {
        (Some(entity), Some(value)) => {
            if backward {
                let turned = match value {
                    ValueRef::Value(TypedValue::Ref(n)) => Some(EntityRef::Entid(n)),
                    ValueRef::TempId(t) => Some(EntityRef::TempId(t)),
                    _ => None,
                };
                match turned {
                    Some(subject) => {
                        let object = match entity {
                            EntityRef::Entid(n) => ValueRef::Value(TypedValue::Ref(*n)),
                            EntityRef::TempId(t) => ValueRef::TempId(t.clone()),
                        };
                        let ghost form = (FormView { op, e: subject@, a, v: object@ });
                        out.push(Form { op, e: subject, a, v: object });
                        proof {
                            assert(forms_view(out@) =~= before.push(form));
                        }
                        Ok(())
                    },
                    None => Err(NormalizeErrorKind::ReversedNotEntity),
                }
            } else {
                let ghost form = (FormView { op, e: entity@, a, v: value@ });
                out.push(Form { op, e: clone_entity_ref(entity), a, v: value });
                proof {
                    assert(forms_view(out@) =~= before.push(form));
                }
                Ok(())
            }
        },
        _ => {
            match op {
                OpType::Retract => Ok(()),
                OpType::Add => Err(NormalizeErrorKind::MissingLookupRef),
            }
        },
    }
}

/// Adds the forms that say of the entity `e` that the attribute named by
/// `key` has the value or, for a vector, each of the values at `v`; see
/// [`with_forms`]. Where this fails, forms may have been added.
fn push_forms(
    schema: &Schema,
    datoms: &Vec<Datom>,
    tx: Entid,
    out: &mut Vec<Form>,
    op: OpType,
    e: &Option<EntityRef>,
    key: &EntidOrIdent,
    v: &ValuePlace,
) -> (r: Result<(), NormalizeErrorKind>)
    requires
        schema@.well_formed(),
    ensures
        match r {
            Ok(_) => with_forms(
                schema@,
                datoms_view(datoms@),
                tx,
                forms_view(old(out)@),
                op,
                entity_view(*e),
                key@,
                v@,
            ) == Ok::<Seq<FormView>, NormalizeErrorKind>(forms_view(final(out)@)),
            Err(error) => with_forms(
                schema@,
                datoms_view(datoms@),
                tx,
                forms_view(old(out)@),
                op,
                entity_view(*e),
                key@,
                v@,
            ) == Err::<Seq<FormView>, NormalizeErrorKind>(error),
        },
{
    match v {
        ValuePlace::Vector(values) => {
            let ghost all = crate::edn::entities::places_view(values@);
            let ghost start = forms_view(out@);
            let ghost live = datoms_view(datoms@);
            let mut i: usize = 0;
            proof {
                assert(all.skip(0) =~= all);
            }
            while i < values.len()
                invariant
                    i <= values@.len(),
                    schema@.well_formed(),
                    all == crate::edn::entities::places_view(values@),
                    live == datoms_view(datoms@),
                    start == forms_view(old(out)@),
                    v@ == ValuePlaceView::Vector(all),
                    with_each(schema@, live, tx, start, op, entity_view(*e), key@, all)
                        == with_each(
                        schema@,
                        live,
                        tx,
                        forms_view(out@),
                        op,
                        entity_view(*e),
                        key@,
                        all.skip(i as int),
                    ),
                decreases values@.len() - i,
            {
                proof {
                    assert(all.skip(i as int)[0] == values@[i as int]@);
                    assert(all.skip(i as int).drop_first() =~= all.skip(i + 1));
                }
                let ghost before = forms_view(out@);
                match push_form(schema, datoms, tx, out, op, e, key, &values[i]) {
                    Ok(_) => {},
                    Err(error) => {
                        proof {
                            assert(with_each(
                                schema@,
                                live,
                                tx,
                                before,
                                op,
                                entity_view(*e),
                                key@,
                                all.skip(i as int),
                            ) == Err::<Seq<FormView>, NormalizeErrorKind>(error));
                        }
                        return Err(error);
                    },
                }
                i += 1;
            }
            proof {
                assert(all.skip(i as int) =~= Seq::empty());
            }
            Ok(())
        },
        other => push_form(schema, datoms, tx, out, op, e, key, other),
    }
}

/// Whether a key is `:db/id`.
fn key_is_db_id(key: &EntidOrIdent) -> (r: bool)
    ensures
        r == is_db_id(key@),
{
    match key {
        EntidOrIdent::Ident(k) => {
            let named = match k.namespace() {
                Some(ns) => str_equal(ns, "db"),
                None => false,
            };
            let r = named && str_equal(k.name(), "id");
            proof {
                if r {
                    assert(k@ == db_id());
                }
            }
            r
        },
        EntidOrIdent::Entid(_) => false,
    }
}

/// Adds the forms that one form as it was read stands for; see
/// [`with_entity`]. Where this fails, forms may have been added.
fn push_entity(
    schema: &Schema,
    datoms: &Vec<Datom>,
    tx: Entid,
    out: &mut Vec<Form>,
    entity: &Entity,
) -> (r: Result<(), NormalizeErrorKind>)
    requires
        schema@.well_formed(),
    ensures
        match r {
            Ok(_) => with_entity(schema@, datoms_view(datoms@), tx, forms_view(old(out)@), entity@)
                == Ok::<Seq<FormView>, NormalizeErrorKind>(forms_view(final(out)@)),
            Err(error) => with_entity(
                schema@,
                datoms_view(datoms@),
                tx,
                forms_view(old(out)@),
                entity@,
            ) == Err::<Seq<FormView>, NormalizeErrorKind>(error),
        },
{
    proof {
        reveal(with_entity);
    }
    let ghost live = datoms_view(datoms@);
    let ghost start = forms_view(out@);
    match entity {
        Entity::AddOrRetract { op, e, a, v } => {
            let subject = match entity_ref(schema, datoms, tx, e) {
                Ok(subject) => subject,
                Err(error) => {
                    return Err(error);
                },
            };
            match a {
                AttributePlace::Entid(key) => push_forms(
                    schema,
                    datoms,
                    tx,
                    out,
                    *op,
                    &subject,
                    key,
                    v,
                ),
            }
        },
        Entity::MapNotation(entries) => {
            let ghost all = crate::edn::entities::map_notation_view(entries@);
            let mut at: usize = 0;
            proof {
                assert(all.skip(0) =~= all);
            }
            while at < entries.len() && !key_is_db_id(&entries[at].0)
                invariant
                    at <= entries@.len(),
                    all == crate::edn::entities::map_notation_view(entries@),
                    db_id_position(all) == at + db_id_position(all.skip(at as int)),
                decreases entries@.len() - at,
            {
                proof {
                    assert(all.skip(at as int)[0] == all[at as int]);
                    assert(all[at as int].0 == entries@[at as int].0@);
                    assert(all.skip(at as int).drop_first() =~= all.skip(at + 1));
                }
                at += 1;
            }
            proof {
                if at < entries@.len() {
                    assert(all.skip(at as int)[0] == all[at as int]);
                    assert(all[at as int].0 == entries@[at as int].0@);
                } else {
                    assert(all.skip(at as int) =~= Seq::empty());
                }
            }
            if at >= entries.len() {
                return Err(NormalizeErrorKind::MissingDbId);
            }
            assert(all[at as int].1 == entries@[at as int].1@);
            let subject = match value_ref(schema, datoms, tx, ValueType::Ref, &entries[at].1) {
                Err(error) => {
                    return Err(error);
                },
                Ok(None) => {
                    return Err(NormalizeErrorKind::MissingLookupRef);
                },
                Ok(Some(ValueRef::Value(TypedValue::Ref(n)))) => Some(EntityRef::Entid(n)),
                Ok(Some(ValueRef::TempId(t))) => Some(EntityRef::TempId(t)),
                Ok(Some(_)) => {
                    return Err(NormalizeErrorKind::BadTypeCoercion);
                },
            };
            let mut i: usize = 0;
            while i < entries.len()
                invariant
                    i <= entries@.len(),
                    schema@.well_formed(),
                    all == crate::edn::entities::map_notation_view(entries@),
                    live == datoms_view(datoms@),
                    start == forms_view(old(out)@),
                    entity@ == EntityView::MapNotation(all),
                    with_entity(schema@, live, tx, start, entity@) == with_entries(
                        schema@,
                        live,
                        tx,
                        start,
                        entity_view(subject),
                        all,
                    ),
                    with_entries(schema@, live, tx, start, entity_view(subject), all)
                        == with_entries(
                        schema@,
                        live,
                        tx,
                        forms_view(out@),
                        entity_view(subject),
                        all.skip(i as int),
                    ),
                decreases entries@.len() - i,
            {
                proof {
                    assert(all.skip(i as int)[0] == all[i as int]);
                    assert(all[i as int] == (entries@[i as int].0@, entries@[i as int].1@));
                    assert(all.skip(i as int).drop_first() =~= all.skip(i + 1));
                }
                let ghost before = forms_view(out@);
                if !key_is_db_id(&entries[i].0) {
                    match push_forms(
                        schema,
                        datoms,
                        tx,
                        out,
                        OpType::Add,
                        &subject,
                        &entries[i].0,
                        &entries[i].1,
                    ) {
                        Ok(_) => {},
                        Err(error) => {
                            proof {
                                assert(with_entries(
                                    schema@,
                                    live,
                                    tx,
                                    before,
                                    entity_view(subject),
                                    all.skip(i as int),
                                ) == Err::<Seq<FormView>, NormalizeErrorKind>(error));
                            }
                            return Err(error);
                        },
                    }
                }
                i += 1;
            }
            proof {
                assert(all.skip(i as int) =~= Seq::empty());
            }
            Ok(())
        },
    }
}

/// The forms that the forms of a transaction as they were read stand for,
/// in a store with the given schema and live datoms, for the transaction
/// with the id `tx`; see [`normalized`].
pub fn normalize(schema: &Schema, datoms: &Vec<Datom>, tx: Entid, entities: &Vec<Entity>) -> (r:
    Result<Vec<Form>, NormalizeError>)
    requires
        schema@.well_formed(),
    ensures
        match r {
            Ok(forms) => normalized(
                schema@,
                datoms_view(datoms@),
                tx,
                crate::edn::entities::entities_view(entities@),
            ) == Ok::<Seq<FormView>, (int, NormalizeErrorKind)>(forms_view(forms@)),
            Err(error) => normalized(
                schema@,
                datoms_view(datoms@),
                tx,
                crate::edn::entities::entities_view(entities@),
            ) == Err::<Seq<FormView>, (int, NormalizeErrorKind)>((error.index as int, error.kind)),
        },
{
    let ghost all = crate::edn::entities::entities_view(entities@);
    let ghost live = datoms_view(datoms@);
    let mut out: Vec<Form> = Vec::new();
    let mut i: usize = 0;
    proof {
        assert(all.skip(0) =~= all);
        assert(forms_view(out@) =~= Seq::empty());
    }
    while i < entities.len()
        invariant
            i <= entities@.len(),
            schema@.well_formed(),
            all == crate::edn::entities::entities_view(entities@),
            live == datoms_view(datoms@),
            normalized(schema@, live, tx, all) == normalized_from(
                schema@,
                live,
                tx,
                forms_view(out@),
                all.skip(i as int),
                i as int,
            ),
        decreases entities@.len() - i,
    {
        proof {
            assert(all.skip(i as int)[0] == entities@[i as int]@);
            assert(all.skip(i as int).drop_first() =~= all.skip(i + 1));
        }
        let ghost before = forms_view(out@);
        match push_entity(schema, datoms, tx, &mut out, &entities[i]) {
            Ok(_) => {},
            Err(kind) => {
                proof {
                    assert(normalized_from(schema@, live, tx, before, all.skip(i as int), i as int)
                        == Err::<Seq<FormView>, (int, NormalizeErrorKind)>((i as int, kind)));
                }
                return Err(NormalizeError { index: i, kind });
            },
        }
        i += 1;
    }
    proof {
        assert(all.skip(i as int) =~= Seq::empty());
    }
    Ok(out)
}

} // verus!
