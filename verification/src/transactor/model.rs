//! What a transaction does to the live datoms of a store, as functions on
//! values.
//!
//! A store holds the datoms that are live: those that were asserted and
//! not retracted since. A transaction is a list of terms, each of which
//! asserts or retracts one datom. The terms are applied in their order;
//! the first that cannot be applied is the error of the transaction, which
//! then changes nothing.

use vstd::prelude::*;
use crate::db::{DbErrorKind, Entid, DB_TX_INSTANT, TX0, USER0};
use crate::edn::entities::OpType;
use crate::schema::{Attribute, SchemaView};
use crate::values::{TypedValueView, ValueType};

verus! {

/// What a datom holds: the entity, the attribute, the value, the
/// transaction that wrote it, and whether it asserts or retracts.
pub struct DatomView {
    pub e: Entid,
    pub a: Entid,
    pub v: TypedValueView,
    pub tx: Entid,
    pub added: bool,
}

/// What a term holds, once its entity is known.
pub struct TermView {
    pub op: OpType,
    pub e: Entid,
    pub a: Entid,
    pub v: TypedValueView,
}

/// What a search among the datoms looks for.
#[derive(Debug, Clone, Copy, PartialEq, Eq, Structural)]
pub enum ProbeKind {
    /// The datom of an entity, an attribute and a value.
    Fact,
    /// A datom of an attribute and a value, whatever the entity.
    Holder,
    /// A datom of an entity and an attribute, whatever the value.
    Current,
}

/// Whether a datom is what a search looks for.
pub open spec fn probe_matches(
    kind: ProbeKind,
    d: DatomView,
    e: Entid,
    a: Entid,
    v: TypedValueView,
) -> bool {
    match kind {
        ProbeKind::Fact => d.e == e && d.a == a && d.v == v,
        ProbeKind::Holder => d.a == a && d.v == v,
        ProbeKind::Current => d.e == e && d.a == a,
    }
}

/// The position of the first datom that a search looks for, or the number
/// of datoms if there is none.
pub open spec fn first_match(
    datoms: Seq<DatomView>,
    kind: ProbeKind,
    e: Entid,
    a: Entid,
    v: TypedValueView,
) -> int
    decreases datoms.len(),
{
    if datoms.len() == 0 || probe_matches(kind, datoms[0], e, a, v) {
        0
    } else {
        1 + first_match(datoms.drop_first(), kind, e, a, v)
    }
}

/// The first match is a match, and no datom before it is one.
pub proof fn lemma_first_match(
    datoms: Seq<DatomView>,
    kind: ProbeKind,
    e: Entid,
    a: Entid,
    v: TypedValueView,
)
    ensures
        0 <= first_match(datoms, kind, e, a, v) <= datoms.len(),
        first_match(datoms, kind, e, a, v) < datoms.len() ==> probe_matches(
            kind,
            datoms[first_match(datoms, kind, e, a, v)],
            e,
            a,
            v,
        ),
        forall|i: int|
            0 <= i < first_match(datoms, kind, e, a, v) ==> !probe_matches(
                kind,
                #[trigger] datoms[i],
                e,
                a,
                v,
            ),
    decreases datoms.len(),
{
    if datoms.len() > 0 && !probe_matches(kind, datoms[0], e, a, v) {
        lemma_first_match(datoms.drop_first(), kind, e, a, v);
        assert forall|i: int| 0 <= i < first_match(datoms, kind, e, a, v) implies !probe_matches(
            kind,
            #[trigger] datoms[i],
            e,
            a,
            v,
        ) by {
            if i > 0 {
                assert(datoms[i] == datoms.drop_first()[i - 1]);
            }
        }
    }
}

/// The state of a store: the schema, the live datoms in the order in which
/// they were asserted, and the cursors of the partitions of users and of
/// transactions.
pub struct StoreView {
    pub schema: SchemaView,
    pub datoms: Seq<DatomView>,
    pub next_user: int,
    pub next_tx: int,
}

/// The largest entity id.
pub open spec fn max_entid() -> int {
    0x7fff_ffff_ffff_ffff
}

/// Whether an entity id is allocated when the cursors of the partitions
/// are as given: it lies in the partition of the system, or in that of
/// users or of transactions below the cursor.
pub open spec fn is_allocated(e: Entid, next_user: int, next_tx: int) -> bool {
    (0 <= e < USER0) || (USER0 <= e < next_user) || (TX0 <= e < next_tx)
}

/// Whether the entities that define attributes and those that idents
/// name are allocated.
pub open spec fn schema_allocated(schema: SchemaView, next_user: int, next_tx: int) -> bool {
    &&& forall|i: int|
        0 <= i < schema.entids.len() ==> (0 <= #[trigger] schema.entids[i] < next_user) || (TX0
            <= schema.entids[i] < next_tx)
    &&& forall|i: int|
        0 <= i < schema.ident_entids.len() ==> (0 <= #[trigger] schema.ident_entids[i]
            < next_user) || (TX0 <= schema.ident_entids[i] < next_tx)
}

/// Whether the datoms fit the schema and the cursors: each is an
/// assertion of a value of the type of its attribute, about an entity that
/// is allocated, by a transaction that is.
pub open spec fn datoms_fit(
    schema: SchemaView,
    datoms: Seq<DatomView>,
    next_user: int,
    next_tx: int,
) -> bool {
    forall|i: int|
        0 <= i < datoms.len() ==> {
            &&& (#[trigger] datoms[i]).added
            &&& schema.attribute_of(datoms[i].a as int) is Some
            &&& schema.attribute_of(datoms[i].a as int)->0.value_type == datoms[i].v.value_type()
            &&& is_allocated(datoms[i].e, next_user, next_tx)
            &&& TX0 <= datoms[i].tx < next_tx
        }
}

/// Whether no fact is live twice, and no entity holds two values of an
/// attribute of cardinality one.
pub open spec fn cardinality_kept(schema: SchemaView, datoms: Seq<DatomView>) -> bool {
    forall|i: int, j: int|
        0 <= i < j < datoms.len() && (#[trigger] datoms[i]).e == (#[trigger] datoms[j]).e
            && datoms[i].a == datoms[j].a ==> datoms[i].v != datoms[j].v && schema.attribute_of(
            datoms[i].a as int,
        ) is Some && schema.attribute_of(datoms[i].a as int)->0.multival
}

/// Whether no two datoms hold the same value of a unique attribute.
pub open spec fn uniqueness_kept(schema: SchemaView, datoms: Seq<DatomView>) -> bool {
    forall|i: int, j: int|
        0 <= i < j < datoms.len() && (#[trigger] datoms[i]).a == (#[trigger] datoms[j]).a
            && datoms[i].v == datoms[j].v ==> schema.attribute_of(datoms[i].a as int) is Some
            && schema.attribute_of(datoms[i].a as int)->0.unique is None
}

/// Whether the schema defines the attribute of the instant of a
/// transaction: an instant, one for each transaction.
pub open spec fn defines_tx_instant(schema: SchemaView) -> bool {
    &&& schema.attribute_of(DB_TX_INSTANT as int) is Some
    &&& schema.attribute_of(DB_TX_INSTANT as int)->0.value_type == ValueType::Instant
    &&& !schema.attribute_of(DB_TX_INSTANT as int)->0.multival
    &&& schema.attribute_of(DB_TX_INSTANT as int)->0.unique is None
}

impl StoreView {
    /// The state is in order: the cursors lie in their partitions, the
    /// schema is in order, defines the instant of a transaction and speaks
    /// of allocated entities only, and the datoms fit the schema and keep
    /// cardinality and uniqueness.
    pub open spec fn well_formed(self) -> bool {
        &&& self.schema.well_formed()
        &&& defines_tx_instant(self.schema)
        &&& USER0 <= self.next_user <= TX0 <= self.next_tx <= max_entid()
        &&& schema_allocated(self.schema, self.next_user, self.next_tx)
        &&& datoms_fit(self.schema, self.datoms, self.next_user, self.next_tx)
        &&& cardinality_kept(self.schema, self.datoms)
        &&& uniqueness_kept(self.schema, self.datoms)
    }
}

/// The live datoms after a step, and the datoms that the step wrote.
pub struct Step {
    pub datoms: Seq<DatomView>,
    pub written: Seq<DatomView>,
}

/// What asserting a fact in the transaction `tx` does.
///
/// The attribute must be defined, the value of its type, and the entity
/// allocated or the transaction itself. A fact that is live already
/// changes nothing. The value of a unique attribute must be held by no
/// entity. Where the attribute has cardinality one and the entity holds
/// another value, that value is retracted, unless this transaction
/// asserted it: two values in one transaction are a conflict.
pub open spec fn asserted(
    schema: SchemaView,
    datoms: Seq<DatomView>,
    next_user: int,
    tx: Entid,
    e: Entid,
    a: Entid,
    v: TypedValueView,
) -> Result<Step, DbErrorKind> {
    let fact = first_match(datoms, ProbeKind::Fact, e, a, v);
    let holder = first_match(datoms, ProbeKind::Holder, e, a, v);
    let current = first_match(datoms, ProbeKind::Current, e, a, v);
    let new = DatomView { e, a, v, tx, added: true };
    match schema.attribute_of(a as int) {
        None => Err(DbErrorKind::UnknownAttribute(a)),
        Some(attribute) => if attribute.value_type != v.value_type() {
            Err(DbErrorKind::BadTypeCoercion(a))
        } else if !is_allocated(e, next_user, tx + 1) {
            Err(DbErrorKind::UnallocatedEntid(e))
        } else if fact < datoms.len() {
            Ok(Step { datoms, written: Seq::empty() })
        } else if attribute.unique is Some && holder < datoms.len() {
            Err(DbErrorKind::UniquenessConflict(a, datoms[holder].e))
        } else if !attribute.multival && current < datoms.len() {
            if datoms[current].tx == tx {
                Err(DbErrorKind::CardinalityConflict(e, a))
            } else {
                Ok(
                    Step {
                        datoms: datoms.remove(current).push(new),
                        written: seq![
                            DatomView { tx, added: false, ..datoms[current] },
                            new,
                        ],
                    },
                )
            }
        } else {
            Ok(Step { datoms: datoms.push(new), written: seq![new] })
        },
    }
}

/// What retracting a fact in the transaction `tx` does. The attribute
/// must be defined and the value of its type. A fact that is not live
/// changes nothing.
pub open spec fn retracted(
    schema: SchemaView,
    datoms: Seq<DatomView>,
    tx: Entid,
    e: Entid,
    a: Entid,
    v: TypedValueView,
) -> Result<Step, DbErrorKind> {
    let fact = first_match(datoms, ProbeKind::Fact, e, a, v);
    match schema.attribute_of(a as int) {
        None => Err(DbErrorKind::UnknownAttribute(a)),
        Some(attribute) => if attribute.value_type != v.value_type() {
            Err(DbErrorKind::BadTypeCoercion(a))
        } else if fact < datoms.len() {
            Ok(
                Step {
                    datoms: datoms.remove(fact),
                    written: seq![DatomView { tx, added: false, ..datoms[fact] }],
                },
            )
        } else {
            Ok(Step { datoms, written: Seq::empty() })
        },
    }
}

/// What one term does.
pub open spec fn applied(
    schema: SchemaView,
    datoms: Seq<DatomView>,
    next_user: int,
    tx: Entid,
    term: TermView,
) -> Result<Step, DbErrorKind> {
    match term.op {
        OpType::Add => asserted(schema, datoms, next_user, tx, term.e, term.a, term.v),
        OpType::Retract => retracted(schema, datoms, tx, term.e, term.a, term.v),
    }
}

/// What the terms do, one after the other, to the live datoms in `so_far`
/// and after the datoms written in it.
pub open spec fn applied_all(
    schema: SchemaView,
    so_far: Step,
    next_user: int,
    tx: Entid,
    terms: Seq<TermView>,
) -> Result<Step, DbErrorKind>
    decreases terms.len(),
{
    if terms.len() == 0 {
        Ok(so_far)
    } else {
        match applied(schema, so_far.datoms, next_user, tx, terms[0]) {
            Ok(step) => applied_all(
                schema,
                Step { datoms: step.datoms, written: so_far.written + step.written },
                next_user,
                tx,
                terms.drop_first(),
            ),
            Err(e) => Err(e),
        }
    }
}

/// The datom that holds the instant of a transaction.
pub open spec fn instant_datom(tx: Entid, instant: i64) -> DatomView {
    DatomView {
        e: tx,
        a: DB_TX_INSTANT,
        v: TypedValueView::Instant(instant as int),
        tx,
        added: true,
    }
}

/// The live datoms and the datoms written once the transaction has its
/// instant: the one that a term gave it, or else the given one.
pub open spec fn with_instant(so_far: Step, tx: Entid, instant: i64) -> Step {
    if first_match(
        so_far.datoms,
        ProbeKind::Current,
        tx,
        DB_TX_INSTANT,
        TypedValueView::Instant(instant as int),
    ) < so_far.datoms.len() {
        so_far
    } else {
        Step {
            datoms: so_far.datoms.push(instant_datom(tx, instant)),
            written: so_far.written.push(instant_datom(tx, instant)),
        }
    }
}

/// What a transaction reports: its id, and the datoms it wrote in their
/// order.
pub struct ReportView {
    pub tx_id: Entid,
    pub datoms: Seq<DatomView>,
}

/// What a transaction of the given terms does to a store: the store after
/// it and its report, or the error of the first term that cannot be
/// applied. The transaction takes the id at the cursor of the partition of
/// transactions and moves the cursor on.
pub open spec fn transacted(store: StoreView, terms: Seq<TermView>, instant: i64) -> Result<
    (StoreView, ReportView),
    DbErrorKind,
> {
    if store.next_tx >= max_entid() {
        Err(DbErrorKind::NoRoomInPartition)
    } else {
        match applied_all(
            store.schema,
            Step { datoms: store.datoms, written: Seq::empty() },
            store.next_user,
            store.next_tx as Entid,
            terms,
        ) {
            Ok(step) => {
                let done = with_instant(step, store.next_tx as Entid, instant);
                Ok(
                    (
                        StoreView { datoms: done.datoms, next_tx: store.next_tx + 1, ..store },
                        ReportView { tx_id: store.next_tx as Entid, datoms: done.written },
                    ),
                )
            },
            Err(e) => Err(e),
        }
    }
}

/// Whether a datom of the attribute is live.
pub open spec fn has_datoms_of(datoms: Seq<DatomView>, a: Entid) -> bool {
    exists|i: int| 0 <= i < datoms.len() && (#[trigger] datoms[i]).a == a
}

/// Whether an entity holds several values of the attribute.
pub open spec fn holds_several(datoms: Seq<DatomView>, a: Entid) -> bool {
    exists|i: int, j: int|
        0 <= i < j < datoms.len() && (#[trigger] datoms[i]).a == a && (#[trigger] datoms[j]).a == a
            && datoms[i].e == datoms[j].e
}

/// Whether two datoms hold the same value of the attribute.
pub open spec fn shares_value(datoms: Seq<DatomView>, a: Entid) -> bool {
    exists|i: int, j: int|
        0 <= i < j < datoms.len() && (#[trigger] datoms[i]).a == a && (#[trigger] datoms[j]).a == a
            && datoms[i].v == datoms[j].v
}

/// Whether an attribute of a store can take another definition. The
/// attribute must be defined and not be the instant of a transaction, and
/// the definition must keep the rules for attributes. It may change the
/// type of the values only if no datom of the attribute is live, may
/// change the cardinality to one only if no entity holds several values,
/// and may make the attribute unique only if no two datoms hold the same
/// value.
pub open spec fn alteration_fits(store: StoreView, a: Entid, attribute: Attribute) -> bool {
    &&& store.schema.attribute_of(a as int) is Some
    &&& attribute.valid()
    &&& a != DB_TX_INSTANT
    &&& (attribute.value_type == store.schema.attribute_of(a as int)->0.value_type
        || !has_datoms_of(store.datoms, a))
    &&& (attribute.multival || !holds_several(store.datoms, a))
    &&& (attribute.unique is None || !shares_value(store.datoms, a))
}

/// A store stays in order when an attribute takes a definition that it
/// can take: the live datoms still fit the schema and keep cardinality
/// and uniqueness.
pub proof fn lemma_alteration_keeps_order(store: StoreView, a: Entid, attribute: Attribute)
    requires
        store.well_formed(),
        alteration_fits(store, a, attribute),
    ensures
        (StoreView { schema: store.schema.with_altered(a as int, attribute), ..store }).well_formed(),
{
    let schema = store.schema.with_altered(a as int, attribute);
    let datoms = store.datoms;
    assert forall|b: int|
        true implies (b != a ==> schema.attribute_of(b) == store.schema.attribute_of(b))
        && schema.attribute_of(a as int) == Some(attribute) && schema.well_formed() by {
        crate::schema::lemma_altered_keeps_others(store.schema, a as int, attribute, b);
    }
    assert(schema.attribute_of(DB_TX_INSTANT as int) == store.schema.attribute_of(
        DB_TX_INSTANT as int,
    ));
    assert forall|i: int| 0 <= i < datoms.len() implies {
        &&& (#[trigger] datoms[i]).added
        &&& schema.attribute_of(datoms[i].a as int) is Some
        &&& schema.attribute_of(datoms[i].a as int)->0.value_type == datoms[i].v.value_type()
        &&& is_allocated(datoms[i].e, store.next_user, store.next_tx)
        &&& TX0 <= datoms[i].tx < store.next_tx
    } by {
        if datoms[i].a != a {
            assert(schema.attribute_of(datoms[i].a as int) == store.schema.attribute_of(
                datoms[i].a as int,
            ));
        }
    }
    assert forall|i: int, j: int|
        0 <= i < j < datoms.len() && (#[trigger] datoms[i]).e == (#[trigger] datoms[j]).e
            && datoms[i].a == datoms[j].a implies datoms[i].v != datoms[j].v
        && schema.attribute_of(datoms[i].a as int) is Some && schema.attribute_of(
        datoms[i].a as int,
    )->0.multival by {
        if datoms[i].a != a {
            assert(schema.attribute_of(datoms[i].a as int) == store.schema.attribute_of(
                datoms[i].a as int,
            ));
        }
    }
    assert forall|i: int, j: int|
        0 <= i < j < datoms.len() && (#[trigger] datoms[i]).a == (#[trigger] datoms[j]).a
            && datoms[i].v == datoms[j].v implies schema.attribute_of(datoms[i].a as int) is Some
        && schema.attribute_of(datoms[i].a as int)->0.unique is None by {
        if datoms[i].a != a {
            assert(schema.attribute_of(datoms[i].a as int) == store.schema.attribute_of(
                datoms[i].a as int,
            ));
        }
    }
}

/// A store stays in order when its schema takes the definition of an
/// attribute at an entity id that defines none: no live datom is of
/// that attribute.
pub proof fn lemma_definition_keeps_order(store: StoreView, a: Entid, attribute: Attribute)
    requires
        store.well_formed(),
        attribute.valid(),
        store.schema.attribute_of(a as int) is None,
        is_allocated(a, store.next_user, store.next_tx),
    ensures
        (StoreView {
            schema: store.schema.with_attribute(a as int, attribute),
            ..store
        }).well_formed(),
{
    let schema = store.schema.with_attribute(a as int, attribute);
    let datoms = store.datoms;
    crate::schema::lemma_entid_position(store.schema.entids, a as int);
    assert forall|b: int| b != a implies schema.attribute_of(b) == store.schema.attribute_of(
        b,
    ) by {
        crate::schema::lemma_added_keeps_others(store.schema, a as int, attribute, b);
    }
    assert(schema.well_formed()) by {
        assert forall|i: int, j: int| 0 <= i < j < schema.entids.len() implies schema.entids[i]
            != schema.entids[j] by {
            if j == store.schema.entids.len() {
                assert(store.schema.entids[i] != a);
            }
        }
    }
    assert forall|i: int| 0 <= i < datoms.len() implies {
        &&& (#[trigger] datoms[i]).added
        &&& schema.attribute_of(datoms[i].a as int) is Some
        &&& schema.attribute_of(datoms[i].a as int)->0.value_type == datoms[i].v.value_type()
        &&& is_allocated(datoms[i].e, store.next_user, store.next_tx)
        &&& TX0 <= datoms[i].tx < store.next_tx
    } by {
        assert(datoms[i].a != a);
    }
    assert forall|i: int, j: int|
        0 <= i < j < datoms.len() && (#[trigger] datoms[i]).e == (#[trigger] datoms[j]).e
            && datoms[i].a == datoms[j].a implies datoms[i].v != datoms[j].v
        && schema.attribute_of(datoms[i].a as int) is Some && schema.attribute_of(
        datoms[i].a as int,
    )->0.multival by {
        assert(datoms[i].a != a);
    }
    assert forall|i: int, j: int|
        0 <= i < j < datoms.len() && (#[trigger] datoms[i]).a == (#[trigger] datoms[j]).a
            && datoms[i].v == datoms[j].v implies schema.attribute_of(datoms[i].a as int) is Some
        && schema.attribute_of(datoms[i].a as int)->0.unique is None by {
        assert(datoms[i].a != a);
    }
    assert(DB_TX_INSTANT != a);
}

} // verus!
