//! The forms of a transaction: assertions and retractions of datoms, and
//! maps that stand for several assertions.

use vstd::prelude::*;
use crate::edn::types::{SpannedValueView, ValueAndSpan, ValueAndSpanView};
use crate::symbols::{Keyword, NameView, PlainSymbol};

verus! {

/// A temporary id: a name that stands for an entity until the transaction
/// gives it an entity id.
#[derive(Debug, PartialEq, Eq, Hash)]
pub enum TempId {
    /// A name that the text of the transaction gives.
    External(String),
    /// A number that the code that builds the transaction gives.
    Internal(i64),
    /// The transaction itself.
    Tx,
}

/// What a [`TempId`] holds.
pub enum TempIdView {
    External(Seq<char>),
    Internal(int),
    Tx,
}

impl View for TempId {
    type V = TempIdView;

    open spec fn view(&self) -> TempIdView {
        match self {
            TempId::External(name) => TempIdView::External(name@),
            TempId::Internal(n) => TempIdView::Internal(*n as int),
            TempId::Tx => TempIdView::Tx,
        }
    }
}

/// An entity by its id, or by the keyword that names it.
#[derive(Debug, PartialEq, Eq, Hash)]
pub enum EntidOrIdent {
    Entid(i64),
    Ident(Keyword),
}

/// What an [`EntidOrIdent`] holds.
pub enum EntidOrIdentView {
    Entid(int),
    Ident(NameView),
}

impl View for EntidOrIdent {
    type V = EntidOrIdentView;

    open spec fn view(&self) -> EntidOrIdentView {
        match self {
            EntidOrIdent::Entid(e) => EntidOrIdentView::Entid(*e as int),
            EntidOrIdent::Ident(k) => EntidOrIdentView::Ident(k@),
        }
    }
}

/// The attribute of a form.
#[derive(Debug, PartialEq, Eq, Hash)]
pub enum AttributePlace {
    Entid(EntidOrIdent),
}

impl View for AttributePlace {
    type V = EntidOrIdentView;

    open spec fn view(&self) -> EntidOrIdentView {
        match self {
            AttributePlace::Entid(a) => a@,
        }
    }
}

/// The entity that holds the value `v` of the unique attribute `a`.
#[derive(Debug, PartialEq, Eq, Hash)]
pub struct LookupRef {
    pub a: AttributePlace,
    pub v: ValueAndSpan,
}

/// What a [`LookupRef`] holds.
pub struct LookupRefView {
    pub a: EntidOrIdentView,
    pub v: ValueAndSpanView,
}

impl View for LookupRef {
    type V = LookupRefView;

    open spec fn view(&self) -> LookupRefView {
        LookupRefView { a: self.a@, v: self.v@ }
    }
}

/// A function of the transaction, such as `(transaction-tx)`.
#[derive(Debug, PartialEq, Eq, Hash)]
pub struct TxFunction {
    pub op: PlainSymbol,
}

/// Whether a form asserts or retracts.
#[derive(Debug, Clone, Copy, PartialEq, Eq, Hash, Structural)]
pub enum OpType {
    Add,
    Retract,
}

/// The entity of a form.
#[derive(Debug, PartialEq, Eq, Hash)]
pub enum EntityPlace {
    Entid(EntidOrIdent),
    TempId(TempId),
    LookupRef(LookupRef),
    TxFunction(TxFunction),
}

/// What an [`EntityPlace`] holds.
pub enum EntityPlaceView {
    Entid(EntidOrIdentView),
    TempId(TempIdView),
    LookupRef(LookupRefView),
    TxFunction(Seq<char>),
}

impl View for EntityPlace {
    type V = EntityPlaceView;

    open spec fn view(&self) -> EntityPlaceView {
        match self {
            EntityPlace::Entid(e) => EntityPlaceView::Entid(e@),
            EntityPlace::TempId(t) => EntityPlaceView::TempId(t@),
            EntityPlace::LookupRef(r) => EntityPlaceView::LookupRef(r@),
            EntityPlace::TxFunction(f) => EntityPlaceView::TxFunction(f.op@),
        }
    }
}

/// The value of a form.
#[derive(Debug, PartialEq, Eq, Hash)]
pub enum ValuePlace {
    Entid(EntidOrIdent),
    TempId(TempId),
    LookupRef(LookupRef),
    TxFunction(TxFunction),
    /// Several values, each of which is asserted.
    Vector(Vec<ValuePlace>),
    /// A value that is no collection.
    Atom(ValueAndSpan),
    /// An entity that is described in place, by its attributes and their
    /// values in the order in which they were written.
    MapNotation(Vec<(EntidOrIdent, ValuePlace)>),
}

/// What a [`ValuePlace`] holds.
pub enum ValuePlaceView {
    Entid(EntidOrIdentView),
    TempId(TempIdView),
    LookupRef(LookupRefView),
    TxFunction(Seq<char>),
    Vector(Seq<ValuePlaceView>),
    Atom(ValueAndSpanView),
    MapNotation(Seq<(EntidOrIdentView, ValuePlaceView)>),
}

/// The views of a list of values of forms.
pub open spec fn places_view(places: Seq<ValuePlace>) -> Seq<ValuePlaceView>
    decreases places,
{
    Seq::new(
        places.len(),
        |i: int|
            if 0 <= i < places.len() {
                places[i].view()
            } else {
                ValuePlaceView::TxFunction(Seq::empty())
            },
    )
}

/// The views of the entries of a map.
pub open spec fn map_notation_view(entries: Seq<(EntidOrIdent, ValuePlace)>) -> Seq<
    (EntidOrIdentView, ValuePlaceView),
>
    decreases entries,
{
    Seq::new(
        entries.len(),
        |i: int|
            if 0 <= i < entries.len() {
                (entries[i].0@, entries[i].1.view())
            } else {
                (EntidOrIdentView::Entid(0), ValuePlaceView::TxFunction(Seq::empty()))
            },
    )
}

impl View for ValuePlace {
    type V = ValuePlaceView;

    open spec fn view(&self) -> ValuePlaceView
        decreases self,
    {
        match self {
            ValuePlace::Entid(e) => ValuePlaceView::Entid(e@),
            ValuePlace::TempId(t) => ValuePlaceView::TempId(t@),
            ValuePlace::LookupRef(r) => ValuePlaceView::LookupRef(r@),
            ValuePlace::TxFunction(f) => ValuePlaceView::TxFunction(f.op@),
            ValuePlace::Vector(places) => ValuePlaceView::Vector(places_view(places@)),
            ValuePlace::Atom(v) => ValuePlaceView::Atom(v@),
            ValuePlace::MapNotation(entries) => ValuePlaceView::MapNotation(
                map_notation_view(entries@),
            ),
        }
    }
}

/// One form of a transaction.
#[derive(Debug, PartialEq, Eq, Hash)]
pub enum Entity {
    /// `[:db/add e a v]` or `[:db/retract e a v]`.
    AddOrRetract { op: OpType, e: EntityPlace, a: AttributePlace, v: ValuePlace },
    /// `{a v ...}`: the attributes of one entity, in the order in which
    /// they were written.
    MapNotation(Vec<(EntidOrIdent, ValuePlace)>),
}

/// What an [`Entity`] holds.
pub enum EntityView {
    AddOrRetract { op: OpType, e: EntityPlaceView, a: EntidOrIdentView, v: ValuePlaceView },
    MapNotation(Seq<(EntidOrIdentView, ValuePlaceView)>),
}

impl View for Entity {
    type V = EntityView;

    open spec fn view(&self) -> EntityView {
        match self {
            Entity::AddOrRetract { op, e, a, v } => EntityView::AddOrRetract {
                op: *op,
                e: e@,
                a: a@,
                v: v@,
            },
            Entity::MapNotation(entries) => EntityView::MapNotation(map_notation_view(entries@)),
        }
    }
}

/// The views of a list of forms.
pub open spec fn entities_view(entities: Seq<Entity>) -> Seq<EntityView> {
    Seq::new(entities.len(), |i: int| entities[i]@)
}

/// Whether a value is a collection: a vector, a list, a set or a map.
pub open spec fn is_collection(v: SpannedValueView) -> bool {
    v is Vector || v is List || v is SetOf || v is MapOf
}

} // verus!
