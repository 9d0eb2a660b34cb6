//! How the datoms that a transaction wrote change the schema.
//!
//! A datom of `:db/ident` names an entity, and its retraction takes the
//! name away. A datom of `:db/valueType` defines an attribute. Datoms of
//! the other properties of attributes alter an attribute that is defined.
//! The datoms are gone through twice: first for the names and the
//! definitions, then for the alterations, so that the properties of a new
//! attribute can be written in any order.

use vstd::prelude::*;
use vstd::string::StringExecFns;
use crate::db::{
    DbErrorKind, Entid, DB_CARDINALITY, DB_CARDINALITY_MANY, DB_CARDINALITY_ONE, DB_FULLTEXT,
    DB_IDENT, DB_INDEX, DB_IS_COMPONENT, DB_NO_HISTORY, DB_TYPE_BOOLEAN, DB_TYPE_BYTES,
    DB_TYPE_DOUBLE, DB_TYPE_INSTANT, DB_TYPE_KEYWORD, DB_TYPE_LONG, DB_TYPE_REF, DB_TYPE_STRING,
    DB_TYPE_UUID, DB_UNIQUE, DB_UNIQUE_IDENTITY, DB_UNIQUE_VALUE, DB_VALUE_TYPE, USER0,
};
use crate::schema::{Attribute, SchemaView, Unique};
use crate::transactor::model::{
    alteration_fits, holds_several, is_allocated, DatomView, StoreView,
};
use crate::edn::entities::{entities_view, Entity, EntityView};
use crate::edn::source::location_at;
use crate::edn::tx_grammar::{entities_stop, whole_entities};
use crate::transactor::classes::{labels_view, names_view};
use crate::transactor::model::ReportView;
use crate::transactor::cascade::{cascade, cascaded};
use crate::transactor::normalize::{normalize, normalized, NormalizeErrorKind};
use crate::transactor::store::{
    datoms_view, forms_refused, forms_transacted, Datom, FormsReport, Store, TransactionError,
};
use crate::transactor::upsert::{forms_view, mentioned, FormView};
use crate::values::{TypedValue, TypedValueView, ValueType};

verus! {

/// The type of values that an entity of the core schema names, if it
/// names one.
pub open spec fn type_named(e: int) -> Option<ValueType> {
    if e == DB_TYPE_REF {
        Some(ValueType::Ref)
    } else if e == DB_TYPE_KEYWORD {
        Some(ValueType::Keyword)
    } else if e == DB_TYPE_LONG {
        Some(ValueType::Long)
    } else if e == DB_TYPE_DOUBLE {
        Some(ValueType::Double)
    } else if e == DB_TYPE_STRING {
        Some(ValueType::String)
    } else if e == DB_TYPE_UUID {
        Some(ValueType::Uuid)
    } else if e == DB_TYPE_BOOLEAN {
        Some(ValueType::Boolean)
    } else if e == DB_TYPE_INSTANT {
        Some(ValueType::Instant)
    } else if e == DB_TYPE_BYTES {
        Some(ValueType::Bytes)
    } else {
        None
    }
}

/// The type of values that an entity of the core schema names, if it
/// names one.
pub fn value_type_named(e: Entid) -> (r: Option<ValueType>)
    ensures
        r == type_named(e as int),
{
    if e == DB_TYPE_REF {
        Some(ValueType::Ref)
    } else if e == DB_TYPE_KEYWORD {
        Some(ValueType::Keyword)
    } else if e == DB_TYPE_LONG {
        Some(ValueType::Long)
    } else if e == DB_TYPE_DOUBLE {
        Some(ValueType::Double)
    } else if e == DB_TYPE_STRING {
        Some(ValueType::String)
    } else if e == DB_TYPE_UUID {
        Some(ValueType::Uuid)
    } else if e == DB_TYPE_BOOLEAN {
        Some(ValueType::Boolean)
    } else if e == DB_TYPE_INSTANT {
        Some(ValueType::Instant)
    } else if e == DB_TYPE_BYTES {
        Some(ValueType::Bytes)
    } else {
        None
    }
}

/// The attribute of a type of values that has no other property: of
/// cardinality one, not unique, not indexed.
pub open spec fn plain_attribute(value_type: ValueType) -> Attribute {
    Attribute {
        value_type,
        multival: false,
        unique: None,
        index: false,
        fulltext: false,
        component: false,
        no_history: false,
    }
}

/// Whether an attribute of the core schema holds a property of
/// attributes other than the type of their values.
pub open spec fn is_property(a: Entid) -> bool {
    a == DB_CARDINALITY || a == DB_UNIQUE || a == DB_INDEX || a == DB_FULLTEXT || a
        == DB_IS_COMPONENT || a == DB_NO_HISTORY
}

/// Why datoms cannot change the schema.
#[derive(Debug, Clone, Copy, PartialEq, Eq, Structural)]
pub enum SchemaFault {
    /// A datom about the schema says what no schema can hold: its value
    /// names no type, cardinality or uniqueness, or its entity cannot be
    /// named or is no attribute. The entity of the datom.
    BadAssertion(Entid),
    /// An attribute cannot take the change. The attribute.
    AlterationConflict(Entid),
    /// An ident names another entity already. That entity.
    IdentTaken(Entid),
    /// The ident of an entity of the system would be given, changed or
    /// taken away. That entity.
    Reserved(Entid),
}

impl SchemaFault {
    /// Whether an error of the store is what the fault is shown as: a
    /// bad assertion about the schema, with a message; a conflict of an
    /// alteration with the data; a conflict of uniqueness of the ident; a
    /// reserved ident.
    pub open spec fn shown_as(self, r: DbErrorKind) -> bool {
        match self {
            SchemaFault::BadAssertion(_) => r is BadSchemaAssertion,
            SchemaFault::AlterationConflict(a) => r == DbErrorKind::SchemaAlterationConflict(a),
            SchemaFault::IdentTaken(e) => r == DbErrorKind::UniquenessConflict(DB_IDENT, e),
            SchemaFault::Reserved(e) => r == DbErrorKind::ReservedIdent(e),
        }
    }

    /// The fault as an error of the store; see [`SchemaFault::shown_as`].
    pub fn error(self) -> (r: DbErrorKind)
        ensures
            self.shown_as(r),
    {
        match self {
            SchemaFault::BadAssertion(_) => DbErrorKind::BadSchemaAssertion(
                String::from_str("the schema cannot hold what the datom says"),
            ),
            SchemaFault::AlterationConflict(a) => DbErrorKind::SchemaAlterationConflict(a),
            SchemaFault::IdentTaken(e) => DbErrorKind::UniquenessConflict(DB_IDENT, e),
            SchemaFault::Reserved(e) => DbErrorKind::ReservedIdent(e),
        }
    }
}

/// The definition of an attribute after a datom about one of its
/// properties is written, if the datom holds a value of the property.
/// An assertion sets the property; a retraction sets it back: to
/// cardinality one, not unique, and `false`.
pub open spec fn redefined(current: Attribute, d: DatomView) -> Option<Attribute> {
    if d.a == DB_CARDINALITY {
        match d.v {
            TypedValueView::Ref(c) => if c == DB_CARDINALITY_ONE {
                Some(Attribute { multival: false, ..current })
            } else if c == DB_CARDINALITY_MANY {
                Some(Attribute { multival: d.added, ..current })
            } else {
                None
            },
            _ => None,
        }
    } else if d.a == DB_UNIQUE {
        match d.v {
            TypedValueView::Ref(u) => if u == DB_UNIQUE_VALUE {
                Some(
                    Attribute {
                        unique: if d.added {
                            Some(Unique::Value)
                        } else {
                            None
                        },
                        ..current
                    },
                )
            } else if u == DB_UNIQUE_IDENTITY {
                Some(
                    Attribute {
                        unique: if d.added {
                            Some(Unique::Identity)
                        } else {
                            None
                        },
                        ..current
                    },
                )
            } else {
                None
            },
            _ => None,
        }
    } else {
        match d.v {
            TypedValueView::Boolean(b) => if d.a == DB_INDEX {
                Some(Attribute { index: d.added && b, ..current })
            } else if d.a == DB_FULLTEXT {
                Some(Attribute { fulltext: d.added && b, ..current })
            } else if d.a == DB_IS_COMPONENT {
                Some(Attribute { component: d.added && b, ..current })
            } else if d.a == DB_NO_HISTORY {
                Some(Attribute { no_history: d.added && b, ..current })
            } else {
                None
            },
            _ => None,
        }
    }
}

/// The definition of the attribute `e` after all the datoms about its
/// properties are written, in their order.
pub open spec fn final_definition(current: Attribute, datoms: Seq<DatomView>, e: Entid) -> Option<
    Attribute,
>
    decreases datoms.len(),
{
    if datoms.len() == 0 {
        Some(current)
    } else if datoms[0].e == e && is_property(datoms[0].a) {
        match redefined(current, datoms[0]) {
            Some(next) => final_definition(next, datoms.drop_first(), e),
            None => None,
        }
    } else {
        final_definition(current, datoms.drop_first(), e)
    }
}

/// Whether an entity is one of the system: its id lies below those of
/// users.
pub open spec fn is_system(e: int) -> bool {
    0 <= e < USER0
}

/// What a datom does to the names and definitions of the schema.
///
/// An assertion of an ident names the entity, which must be allocated and
/// have no ident; an ident that names another entity is taken. A
/// retraction of the ident of an entity takes it away. The idents of the
/// entities of the system are reserved: they are not given, taken by
/// another entity, or taken away. An assertion of a type of values
/// defines a plain attribute at the entity, which must be allocated; an
/// attribute that is defined keeps its type. The type of values of an
/// attribute cannot be retracted.
pub open spec fn named_one(s: StoreView, d: DatomView) -> Result<SchemaView, SchemaFault> {
    if d.a == DB_IDENT {
        match d.v {
            TypedValueView::Keyword(k) => if !d.added {
                if s.schema.entid_of(k) == Some(d.e as int) {
                    if is_system(d.e as int) {
                        Err(SchemaFault::Reserved(d.e))
                    } else {
                        Ok(s.schema.without_ident(k))
                    }
                } else {
                    Ok(s.schema)
                }
            } else if s.schema.entid_of(k) == Some(d.e as int) {
                Ok(s.schema)
            } else if s.schema.entid_of(k) is Some {
                if is_system(s.schema.entid_of(k)->0) {
                    Err(SchemaFault::Reserved(s.schema.entid_of(k)->0 as Entid))
                } else {
                    Err(SchemaFault::IdentTaken(s.schema.entid_of(k)->0 as Entid))
                }
            } else if is_system(d.e as int) {
                Err(SchemaFault::Reserved(d.e))
            } else if s.schema.ident_of(d.e as int) is Some || !is_allocated(
                d.e,
                s.next_user,
                s.next_tx,
            ) {
                Err(SchemaFault::BadAssertion(d.e))
            } else {
                Ok(s.schema.with_ident(k, d.e as int))
            },
            _ => Err(SchemaFault::BadAssertion(d.e)),
        }
    } else if d.a == DB_VALUE_TYPE {
        match d.v {
            TypedValueView::Ref(t) => match type_named(t) {
                None => Err(SchemaFault::BadAssertion(d.e)),
                Some(value_type) => if !d.added {
                    Err(SchemaFault::AlterationConflict(d.e))
                } else {
                    match s.schema.attribute_of(d.e as int) {
                        Some(current) => if current.value_type == value_type {
                            Ok(s.schema)
                        } else {
                            Err(SchemaFault::AlterationConflict(d.e))
                        },
                        None => if is_allocated(d.e, s.next_user, s.next_tx) {
                            Ok(s.schema.with_attribute(d.e as int, plain_attribute(value_type)))
                        } else {
                            Err(SchemaFault::BadAssertion(d.e))
                        },
                    }
                },
            },
            _ => Err(SchemaFault::BadAssertion(d.e)),
        }
    } else {
        Ok(s.schema)
    }
}

/// What the datoms do, one after the other, to the names and definitions
/// of the schema.
pub open spec fn named(s: StoreView, datoms: Seq<DatomView>) -> Result<SchemaView, SchemaFault>
    decreases datoms.len(),
{
    if datoms.len() == 0 {
        Ok(s.schema)
    } else {
        match named_one(s, datoms[0]) {
            Ok(schema) => named(StoreView { schema, ..s }, datoms.drop_first()),
            Err(fault) => Err(fault),
        }
    }
}

/// What a datom about a property does to the attribute that is its
/// entity: the attribute takes the definition that it has after all the
/// datoms in `all`, if it can take it; see [`alteration_fits`]. Other
/// datoms change nothing.
pub open spec fn settled_one(s: StoreView, all: Seq<DatomView>, d: DatomView) -> Result<
    SchemaView,
    SchemaFault,
> {
    if !is_property(d.a) {
        Ok(s.schema)
    } else {
        match s.schema.attribute_of(d.e as int) {
            None => Err(SchemaFault::BadAssertion(d.e)),
            Some(current) => match final_definition(current, all, d.e) {
                None => Err(SchemaFault::BadAssertion(d.e)),
                Some(new) => if new == current {
                    Ok(s.schema)
                } else if alteration_fits(s, d.e, new) {
                    Ok(s.schema.with_altered(d.e as int, new))
                } else {
                    Err(SchemaFault::AlterationConflict(d.e))
                },
            },
        }
    }
}

/// What the datoms in `rest` do, one after the other, to the attributes
/// of the schema, where `all` are the datoms that were written.
pub open spec fn settled(s: StoreView, all: Seq<DatomView>, rest: Seq<DatomView>) -> Result<
    SchemaView,
    SchemaFault,
>
    decreases rest.len(),
{
    if rest.len() == 0 {
        Ok(s.schema)
    } else {
        match settled_one(s, all, rest[0]) {
            Ok(schema) => settled(StoreView { schema, ..s }, all, rest.drop_first()),
            Err(fault) => Err(fault),
        }
    }
}

/// The schema of a store after the datoms that a transaction wrote have
/// changed it, or the first fault.
pub open spec fn reflected(s: StoreView, written: Seq<DatomView>) -> Result<
    SchemaView,
    SchemaFault,
> {
    match named(s, written) {
        Ok(schema) => settled(StoreView { schema, ..s }, written, written),
        Err(fault) => Err(fault),
    }
}

/// An attribute of which an entity holds several values cannot become
/// one of cardinality one: a datom that asks for it is refused with a
/// conflict, whatever else is written.
pub proof fn lemma_cardinality_one_is_refused(s: StoreView, all: Seq<DatomView>, d: DatomView)
    requires
        is_property(d.a),
        s.schema.attribute_of(d.e as int) is Some,
        s.schema.attribute_of(d.e as int)->0.multival,
        holds_several(s.datoms, d.e),
        final_definition(s.schema.attribute_of(d.e as int)->0, all, d.e) is Some,
        !final_definition(s.schema.attribute_of(d.e as int)->0, all, d.e)->0.multival,
    ensures
        settled_one(s, all, d) == Err::<SchemaView, SchemaFault>(
            SchemaFault::AlterationConflict(d.e),
        ),
{
}

/// Datoms that start with one that asks an attribute, of which an
/// entity holds several values, to be of cardinality one cannot change
/// the schema: they are refused with a conflict of the alteration. This
/// holds where the datoms name nothing and define nothing.
pub proof fn lemma_cardinality_change_is_refused(s: StoreView, written: Seq<DatomView>)
    requires
        written.len() >= 1,
        is_property(written[0].a),
        named(s, written) == Ok::<SchemaView, SchemaFault>(s.schema),
        s.schema.attribute_of(written[0].e as int) is Some,
        s.schema.attribute_of(written[0].e as int)->0.multival,
        holds_several(s.datoms, written[0].e),
        final_definition(s.schema.attribute_of(written[0].e as int)->0, written, written[0].e)
            is Some,
        !final_definition(
            s.schema.attribute_of(written[0].e as int)->0,
            written,
            written[0].e,
        )->0.multival,
    ensures
        reflected(s, written) == Err::<SchemaView, SchemaFault>(
            SchemaFault::AlterationConflict(written[0].e),
        ),
        forall|r: DbErrorKind|
            SchemaFault::AlterationConflict(written[0].e).shown_as(r) ==> r
                == DbErrorKind::SchemaAlterationConflict(written[0].e),
{
    lemma_cardinality_one_is_refused(s, written, written[0]);
    assert((StoreView { schema: s.schema, ..s }) == s);
}

fn redefine(current: Attribute, d: &Datom) -> (r: Option<Attribute>)
    ensures
        r == redefined(current, d@),
{
    let mut next = current;
    if d.a == DB_CARDINALITY {
        match &d.v {
            TypedValue::Ref(c) => {
                if *c == DB_CARDINALITY_ONE {
                    next.multival = false;
                    Some(next)
                } else if *c == DB_CARDINALITY_MANY {
                    next.multival = d.added;
                    Some(next)
                } else {
                    None
                }
            },
            _ => None,
        }
    } else if d.a == DB_UNIQUE {
        match &d.v {
            TypedValue::Ref(u) => {
                if *u == DB_UNIQUE_VALUE {
                    next.unique = if d.added {
                        Some(Unique::Value)
                    } else {
                        None
                    };
                    Some(next)
                } else if *u == DB_UNIQUE_IDENTITY {
                    next.unique = if d.added {
                        Some(Unique::Identity)
                    } else {
                        None
                    };
                    Some(next)
                } else {
                    None
                }
            },
            _ => None,
        }
    } else {
        match &d.v {
            TypedValue::Boolean(b) => {
                if d.a == DB_INDEX {
                    next.index = d.added && *b;
                    Some(next)
                } else if d.a == DB_FULLTEXT {
                    next.fulltext = d.added && *b;
                    Some(next)
                } else if d.a == DB_IS_COMPONENT {
                    next.component = d.added && *b;
                    Some(next)
                } else if d.a == DB_NO_HISTORY {
                    next.no_history = d.added && *b;
                    Some(next)
                } else {
                    None
                }
            },
            _ => None,
        }
    }
}

fn is_property_entid(a: Entid) -> (r: bool)
    ensures
        r == is_property(a),
{
    a == DB_CARDINALITY || a == DB_UNIQUE || a == DB_INDEX || a == DB_FULLTEXT || a
        == DB_IS_COMPONENT || a == DB_NO_HISTORY
}

fn define_finally(current: Attribute, written: &Vec<Datom>, e: Entid) -> (r: Option<Attribute>)
    ensures
        r == final_definition(current, datoms_view(written@), e),
{
    let ghost all = datoms_view(written@);
    let mut now = current;
    let mut i: usize = 0;
    proof {
        assert(all.skip(0) =~= all);
    }
    while i < written.len()
        invariant
            i <= written@.len(),
            all == datoms_view(written@),
            final_definition(current, all, e) == final_definition(now, all.skip(i as int), e),
        decreases written@.len() - i,
    {
        proof {
            assert(all.skip(i as int)[0] == written@[i as int]@);
            assert(all.skip(i as int).drop_first() =~= all.skip(i + 1));
        }
        if written[i].e == e && is_property_entid(written[i].a) {
            match redefine(now, &written[i]) {
                Some(next) => {
                    now = next;
                },
                None => {
                    return None;
                },
            }
        }
        i += 1;
    }
    proof {
        assert(all.skip(i as int) =~= Seq::empty());
    }
    Some(now)
}

impl Store {
    /// Changes the names and definitions of the schema as a datom asks;
    /// see [`named_one`]. A fault leaves the store as it was.
    pub fn name_from(&mut self, d: &Datom) -> (r: Result<(), SchemaFault>)
        requires
            old(self)@.well_formed(),
        ensures
            final(self)@.well_formed(),
            final(self)@ == (StoreView { schema: final(self)@.schema, ..old(self)@ }),
            match r {
                Ok(_) => named_one(old(self)@, d@) == Ok::<SchemaView, SchemaFault>(
                    final(self)@.schema,
                ),
                Err(fault) => named_one(old(self)@, d@) == Err::<SchemaView, SchemaFault>(fault)
                    && final(self)@ == old(self)@,
            },
    {
        if d.a == DB_IDENT {
            match &d.v {
                TypedValue::Keyword(k) => {
                    let named = self.schema().get_entid(k);
                    let system = 0 <= d.e && d.e < USER0;
                    if !d.added {
                        match named {
                            Some(e) => {
                                if e == d.e {
                                    if system {
                                        return Err(SchemaFault::Reserved(d.e));
                                    }
                                    self.unname_entity(k);
                                }
                            },
                            None => {},
                        }
                        Ok(())
                    } else {
                        match named {
                            Some(e) => {
                                if e == d.e {
                                    Ok(())
                                } else if 0 <= e && e < USER0 {
                                    Err(SchemaFault::Reserved(e))
                                } else {
                                    Err(SchemaFault::IdentTaken(e))
                                }
                            },
                            None => {
                                if system {
                                    Err(SchemaFault::Reserved(d.e))
                                } else if self.name_entity(k.clone(), d.e) {
                                    Ok(())
                                } else {
                                    Err(SchemaFault::BadAssertion(d.e))
                                }
                            },
                        }
                    }
                },
                _ => Err(SchemaFault::BadAssertion(d.e)),
            }
        } else if d.a == DB_VALUE_TYPE {
            match &d.v {
                TypedValue::Ref(t) => {
                    match value_type_named(*t) {
                        None => Err(SchemaFault::BadAssertion(d.e)),
                        Some(value_type) => {
                            if !d.added {
                                return Err(SchemaFault::AlterationConflict(d.e));
                            }
                            match self.schema().attribute_for_entid(d.e) {
                                Some(current) => {
                                    if current.value_type == value_type {
                                        Ok(())
                                    } else {
                                        Err(SchemaFault::AlterationConflict(d.e))
                                    }
                                },
                                None => {
                                    let plain = Attribute {
                                        value_type,
                                        multival: false,
                                        unique: None,
                                        index: false,
                                        fulltext: false,
                                        component: false,
                                        no_history: false,
                                    };
                                    if self.install_attribute(d.e, plain) {
                                        Ok(())
                                    } else {
                                        Err(SchemaFault::BadAssertion(d.e))
                                    }
                                },
                            }
                        },
                    }
                },
                _ => Err(SchemaFault::BadAssertion(d.e)),
            }
        } else {
            Ok(())
        }
    }

    /// Alters the attribute that a datom about a property is about, so
    /// that it has the definition that the datoms in `written` give it;
    /// see [`settled_one`]. A fault leaves the store as it was.
    pub fn settle_from(&mut self, written: &Vec<Datom>, d: &Datom) -> (r: Result<(), SchemaFault>)
        requires
            old(self)@.well_formed(),
        ensures
            final(self)@.well_formed(),
            final(self)@ == (StoreView { schema: final(self)@.schema, ..old(self)@ }),
            match r {
                Ok(_) => settled_one(old(self)@, datoms_view(written@), d@) == Ok::<
                    SchemaView,
                    SchemaFault,
                >(final(self)@.schema),
                Err(fault) => settled_one(old(self)@, datoms_view(written@), d@) == Err::<
                    SchemaView,
                    SchemaFault,
                >(fault) && final(self)@ == old(self)@,
            },
    {
        if !is_property_entid(d.a) {
            return Ok(());
        }
        let current = match self.schema().attribute_for_entid(d.e) {
            Some(current) => current,
            None => {
                return Err(SchemaFault::BadAssertion(d.e));
            },
        };
        let new = match define_finally(current, written, d.e) {
            Some(new) => new,
            None => {
                return Err(SchemaFault::BadAssertion(d.e));
            },
        };
        if new == current {
            return Ok(());
        }
        match self.alter_attribute(d.e, new) {
            Ok(_) => Ok(()),
            Err(_) => Err(SchemaFault::AlterationConflict(d.e)),
        }
    }

    /// Changes the schema as the datoms that a transaction wrote ask; see
    /// [`reflected`]. The live datoms and the cursors stay as they are. A
    /// fault leaves the schema as it was.
    pub fn reflect(&mut self, written: &Vec<Datom>) -> (r: Result<(), SchemaFault>)
        requires
            old(self)@.well_formed(),
        ensures
            final(self)@.well_formed(),
            final(self)@ == (StoreView { schema: final(self)@.schema, ..old(self)@ }),
            match r {
                Ok(_) => reflected(old(self)@, datoms_view(written@)) == Ok::<
                    SchemaView,
                    SchemaFault,
                >(final(self)@.schema),
                Err(fault) => reflected(old(self)@, datoms_view(written@)) == Err::<
                    SchemaView,
                    SchemaFault,
                >(fault) && final(self)@ == old(self)@,
            },
    {
        let ghost all = datoms_view(written@);
        let ghost before = self@;
        let saved = self.copy();
        let mut i: usize = 0;
        proof {
            assert(all.skip(0) =~= all);
            assert(self@ == (StoreView { schema: self@.schema, ..before }));
        }
        while i < written.len()
            invariant
                i <= written@.len(),
                all == datoms_view(written@),
                self@.well_formed(),
                before == old(self)@,
                saved@ == before,
                before.well_formed(),
                self@ == (StoreView { schema: self@.schema, ..before }),
                named(before, all) == named(self@, all.skip(i as int)),
            decreases written@.len() - i,
        {
            proof {
                assert(all.skip(i as int)[0] == written@[i as int]@);
                assert(all.skip(i as int).drop_first() =~= all.skip(i + 1));
            }
            match self.name_from(&written[i]) {
                Ok(_) => {},
                Err(fault) => {
                    *self = saved;
                    return Err(fault);
                },
            }
            i += 1;
        }
        let ghost mid = self@;
        proof {
            assert(all.skip(i as int) =~= Seq::empty());
            assert(named(before, all) == Ok::<SchemaView, SchemaFault>(mid.schema));
            assert(mid == (StoreView { schema: mid.schema, ..before }));
            assert(all.skip(0) =~= all);
        }
        let mut j: usize = 0;
        while j < written.len()
            invariant
                j <= written@.len(),
                all == datoms_view(written@),
                self@.well_formed(),
                before == old(self)@,
                saved@ == before,
                before.well_formed(),
                self@ == (StoreView { schema: self@.schema, ..before }),
                mid == (StoreView { schema: mid.schema, ..before }),
                named(before, all) == Ok::<SchemaView, SchemaFault>(mid.schema),
                settled(mid, all, all) == settled(self@, all, all.skip(j as int)),
            decreases written@.len() - j,
        {
            proof {
                assert(all.skip(j as int)[0] == written@[j as int]@);
                assert(all.skip(j as int).drop_first() =~= all.skip(j + 1));
            }
            match self.settle_from(written, &written[j]) {
                Ok(_) => {},
                Err(fault) => {
                    *self = saved;
                    return Err(fault);
                },
            }
            j += 1;
        }
        proof {
            assert(all.skip(j as int) =~= Seq::empty());
        }
        Ok(())
    }
}

/// The forms that forms as they were read become: the forms that can
/// be applied, followed by the retractions of the components that they
/// retract; or why a form cannot be applied, with its position.
pub open spec fn committed_forms(store: StoreView, entities: Seq<EntityView>) -> Result<
    Seq<FormView>,
    (int, NormalizeErrorKind),
> {
    match normalized(store.schema, store.datoms, store.next_tx as Entid, entities) {
        Ok(forms) => Ok(cascaded(store.schema, store.datoms, forms)),
        Err(error) => Err(error),
    }
}

/// Whether a transaction of forms is undone because the datoms that it
/// would write cannot change the schema as they ask.
pub open spec fn schema_refused(
    before: StoreView,
    forms: Seq<FormView>,
    instant: i64,
    fault: SchemaFault,
) -> bool {
    exists|labels: Seq<int>, entids: Seq<Entid>, mid: StoreView, report: ReportView| #[trigger]
        forms_transacted(before, forms, instant, labels, entids, mid, report) && reflected(
            mid,
            report.datoms,
        ) == Err::<SchemaView, SchemaFault>(fault)
}

/// Whether the text of a transaction leads from one state of a store to
/// another: the text is read, the forms that were read become forms that
/// can be applied, followed by the retractions of the components that
/// they retract; those are transacted; and the datoms that were written
/// change the schema.
pub open spec fn text_committed(
    before: StoreView,
    text: Seq<char>,
    instant: i64,
    tempids: Seq<Seq<char>>,
    labels: Seq<int>,
    entids: Seq<Entid>,
    report: ReportView,
    after: StoreView,
) -> bool {
    &&& whole_entities(text) matches Some(read)
    &&& committed_forms(before, read) matches Ok(forms)
    &&& tempids == mentioned(forms)
    &&& forms_transacted(
        before,
        forms,
        instant,
        labels,
        entids,
        StoreView { schema: before.schema, ..after },
        report,
    )
    &&& reflected(StoreView { schema: before.schema, ..after }, report.datoms) == Ok::<
        SchemaView,
        SchemaFault,
    >(after.schema)
}

/// Whether the text of a transaction is refused with the given error:
/// the text is no transaction; a form that was read cannot be applied;
/// the transaction itself is refused; or the datoms that it would write
/// cannot change the schema.
pub open spec fn text_refused(
    before: StoreView,
    text: Seq<char>,
    instant: i64,
    error: TransactionError,
) -> bool {
    match error {
        TransactionError::Parse(e) => whole_entities(text) is None && e.location == location_at(
            text,
            entities_stop(text),
        ),
        TransactionError::Normalize(e) => {
            &&& whole_entities(text) matches Some(read)
            &&& committed_forms(before, read) == Err::<Seq<FormView>, (int, NormalizeErrorKind)>(
                (e.index as int, e.kind),
            )
        },
        TransactionError::Db(e) => {
            &&& whole_entities(text) matches Some(read)
            &&& committed_forms(before, read) matches Ok(forms)
            &&& forms_refused(before, forms, instant, e)
        },
        TransactionError::Schema(fault) => {
            &&& whole_entities(text) matches Some(read)
            &&& committed_forms(before, read) matches Ok(forms)
            &&& schema_refused(before, forms, instant, fault)
        },
    }
}

impl Store {
    /// Transacts forms as they were read: turns them into forms that can
    /// be applied, adds the retractions of the components that they
    /// retract, transacts those, and changes the schema as the datoms
    /// that were written ask; see [`normalized`], [`cascaded`],
    /// [`forms_transacted`] and [`reflected`]. A transaction that is
    /// refused, or whose datoms cannot change the schema, leaves the store
    /// as it was.
    pub fn commit_entities(&mut self, entities: &Vec<Entity>, instant: i64) -> (r: Result<
        FormsReport,
        TransactionError,
    >)
        requires
            old(self)@.well_formed(),
        ensures
            final(self)@.well_formed(),
            match r {
                Ok(done) => {
                    &&& done.report.tx_instant == instant
                    &&& committed_forms(old(self)@, entities_view(entities@)) matches Ok(forms)
                    &&& names_view(done.tempids@) == mentioned(forms)
                    &&& forms_transacted(
                        old(self)@,
                        forms,
                        instant,
                        labels_view(done.labels@),
                        done.entids@,
                        StoreView { schema: old(self)@.schema, ..final(self)@ },
                        done.report@,
                    )
                    &&& reflected(
                        StoreView { schema: old(self)@.schema, ..final(self)@ },
                        done.report@.datoms,
                    ) == Ok::<SchemaView, SchemaFault>(final(self)@.schema)
                },
                Err(TransactionError::Normalize(error)) => {
                    &&& final(self)@ == old(self)@
                    &&& committed_forms(old(self)@, entities_view(entities@)) == Err::<
                        Seq<FormView>,
                        (int, NormalizeErrorKind),
                    >((error.index as int, error.kind))
                },
                Err(TransactionError::Db(error)) => {
                    &&& final(self)@ == old(self)@
                    &&& committed_forms(old(self)@, entities_view(entities@)) matches Ok(forms)
                    &&& forms_refused(old(self)@, forms, instant, error)
                },
                Err(TransactionError::Schema(fault)) => {
                    &&& final(self)@ == old(self)@
                    &&& committed_forms(old(self)@, entities_view(entities@)) matches Ok(forms)
                    &&& schema_refused(old(self)@, forms, instant, fault)
                },
                Err(TransactionError::Parse(_)) => false,
            },
    {
        let saved = self.copy();
        let forms = match normalize(self.schema(), self.datoms(), self.next_tx(), entities) {
            Ok(forms) => cascade(self.schema(), self.datoms(), forms),
            Err(error) => {
                return Err(TransactionError::Normalize(error));
            },
        };
        let done = match self.transact_forms(&forms, instant) {
            Ok(done) => done,
            Err(error) => {
                return Err(TransactionError::Db(error));
            },
        };
        let ghost mid = self@;
        match self.reflect(&done.report.datoms) {
            Ok(_) => {
                proof {
                    assert(mid == (StoreView { schema: old(self)@.schema, ..self@ }));
                }
                Ok(done)
            },
            Err(fault) => {
                *self = saved;
                proof {
                    assert(forms_transacted(
                        old(self)@,
                        forms_view(forms@),
                        instant,
                        labels_view(done.labels@),
                        done.entids@,
                        mid,
                        done.report@,
                    ));
                }
                Err(TransactionError::Schema(fault))
            },
        }
    }

    /// Transacts the text of a transaction: reads it, and transacts the
    /// forms that were read as [`Store::commit_entities`] does; see
    /// [`text_committed`] and [`text_refused`].
    pub fn commit_text(&mut self, text: &str, instant: i64) -> (r: Result<
        FormsReport,
        TransactionError,
    >)
        requires
            old(self)@.well_formed(),
        ensures
            final(self)@.well_formed(),
            match r {
                Ok(done) => done.report.tx_instant == instant && text_committed(
                    old(self)@,
                    text@,
                    instant,
                    names_view(done.tempids@),
                    labels_view(done.labels@),
                    done.entids@,
                    done.report@,
                    final(self)@,
                ),
                Err(error) => final(self)@ == old(self)@ && text_refused(
                    old(self)@,
                    text@,
                    instant,
                    error,
                ),
            },
    {
        match crate::edn::tx_parse::entities(text) {
            Ok(read) => self.commit_entities(&read, instant),
            Err(error) => Err(TransactionError::Parse(error)),
        }
    }
}

} // verus!
