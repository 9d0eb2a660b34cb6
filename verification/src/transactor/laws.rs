//! What holds of every transaction: the store stays in order, and
//! transaction ids increase.

use vstd::prelude::*;
use crate::db::{DbErrorKind, Entid, DB_TX_INSTANT, TX0};
use crate::edn::entities::OpType;
use crate::schema::SchemaView;
use crate::transactor::model::{
    max_entid,
    applied, applied_all, asserted, cardinality_kept, datoms_fit, first_match, instant_datom,
    is_allocated, lemma_first_match, probe_matches, transacted, uniqueness_kept, with_instant,
    DatomView, ProbeKind, ReportView, Step, StoreView, TermView,
};
use crate::schema::Unique;
use crate::transactor::store::forms_transacted;
use crate::transactor::upsert::{
    labels_are_classes, stands_for, shares,
    class_finds, found_by, is_found, is_fresh_id, is_upsert_of, mentioned, resolved_all,
    tempid_position, EntityRefView, FormView, ValueRefView,
};
use crate::values::TypedValueView;

verus! {

/// Whether the live datoms are in order while the transaction `tx` is
/// being applied.
pub open spec fn in_order(schema: SchemaView, datoms: Seq<DatomView>, next_user: int, tx: Entid)
    -> bool {
    &&& datoms_fit(schema, datoms, next_user, tx + 1)
    &&& cardinality_kept(schema, datoms)
    &&& uniqueness_kept(schema, datoms)
}

/// Datoms stay in order when one of them is taken away.
pub proof fn lemma_remove_keeps_order(
    schema: SchemaView,
    datoms: Seq<DatomView>,
    next_user: int,
    tx: Entid,
    k: int,
)
    requires
        in_order(schema, datoms, next_user, tx),
        0 <= k < datoms.len(),
    ensures
        in_order(schema, datoms.remove(k), next_user, tx),
        forall|i: int|
            0 <= i < datoms.remove(k).len() ==> #[trigger] datoms.remove(k)[i] == datoms[if i < k {
                i
            } else {
                i + 1
            }],
{
    let rest = datoms.remove(k);
    assert forall|i: int| 0 <= i < rest.len() implies #[trigger] rest[i] == datoms[if i < k {
        i
    } else {
        i + 1
    }] by {}
    assert forall|i: int, j: int|
        0 <= i < j < rest.len() && (#[trigger] rest[i]).e == (#[trigger] rest[j]).e && rest[i].a
            == rest[j].a implies rest[i].v != rest[j].v && schema.attribute_of(rest[i].a as int)
        is Some && schema.attribute_of(rest[i].a as int)->0.multival by {
        let i2 = if i < k {
            i
        } else {
            i + 1
        };
        let j2 = if j < k {
            j
        } else {
            j + 1
        };
        assert(datoms[i2].e == datoms[j2].e && datoms[i2].a == datoms[j2].a);
    }
    assert forall|i: int, j: int|
        0 <= i < j < rest.len() && (#[trigger] rest[i]).a == (#[trigger] rest[j]).a && rest[i].v
            == rest[j].v implies schema.attribute_of(rest[i].a as int) is Some
        && schema.attribute_of(rest[i].a as int)->0.unique is None by {
        let i2 = if i < k {
            i
        } else {
            i + 1
        };
        let j2 = if j < k {
            j
        } else {
            j + 1
        };
        assert(datoms[i2].a == datoms[j2].a && datoms[i2].v == datoms[j2].v);
    }
}

/// Datoms stay in order when a datom joins them that fits, that no live
/// fact equals, whose entity holds no other value unless the attribute
/// allows several, and whose value no datom holds if the attribute is
/// unique.
pub proof fn lemma_push_keeps_order(
    schema: SchemaView,
    datoms: Seq<DatomView>,
    next_user: int,
    tx: Entid,
    new: DatomView,
)
    requires
        in_order(schema, datoms, next_user, tx),
        new.added,
        TX0 <= new.tx <= tx,
        schema.attribute_of(new.a as int) is Some,
        schema.attribute_of(new.a as int)->0.value_type == new.v.value_type(),
        is_allocated(new.e, next_user, tx + 1),
        forall|i: int|
            0 <= i < datoms.len() && (#[trigger] datoms[i]).e == new.e && datoms[i].a == new.a
                ==> datoms[i].v != new.v && schema.attribute_of(new.a as int)->0.multival,
        forall|i: int|
            0 <= i < datoms.len() && (#[trigger] datoms[i]).a == new.a && datoms[i].v == new.v
                ==> schema.attribute_of(new.a as int)->0.unique is None,
    ensures
        in_order(schema, datoms.push(new), next_user, tx),
{
    let all = datoms.push(new);
    assert forall|i: int, j: int|
        0 <= i < j < all.len() && (#[trigger] all[i]).e == (#[trigger] all[j]).e && all[i].a
            == all[j].a implies all[i].v != all[j].v && schema.attribute_of(all[i].a as int)
        is Some && schema.attribute_of(all[i].a as int)->0.multival by {
        if j < datoms.len() {
            assert(datoms[i].e == datoms[j].e && datoms[i].a == datoms[j].a);
        } else {
            assert(datoms[i].e == new.e && datoms[i].a == new.a);
        }
    }
    assert forall|i: int, j: int|
        0 <= i < j < all.len() && (#[trigger] all[i]).a == (#[trigger] all[j]).a && all[i].v
            == all[j].v implies schema.attribute_of(all[i].a as int) is Some
        && schema.attribute_of(all[i].a as int)->0.unique is None by {
        if j < datoms.len() {
            assert(datoms[i].a == datoms[j].a && datoms[i].v == datoms[j].v);
        } else {
            assert(datoms[i].a == new.a && datoms[i].v == new.v);
        }
    }
}

/// Asserting a fact keeps the live datoms in order, and writes datoms of
/// the transaction only.
pub proof fn lemma_asserted_keeps_order(
    schema: SchemaView,
    datoms: Seq<DatomView>,
    next_user: int,
    tx: Entid,
    e: Entid,
    a: Entid,
    v: TypedValueView,
)
    requires
        in_order(schema, datoms, next_user, tx),
        TX0 <= tx,
        asserted(schema, datoms, next_user, tx, e, a, v) is Ok,
    ensures
        in_order(schema, asserted(schema, datoms, next_user, tx, e, a, v)->Ok_0.datoms, next_user, tx),
        forall|i: int|
            0 <= i < asserted(schema, datoms, next_user, tx, e, a, v)->Ok_0.written.len() ==> (
            #[trigger] asserted(schema, datoms, next_user, tx, e, a, v)->Ok_0.written[i]).tx == tx,
{
    let fact = first_match(datoms, ProbeKind::Fact, e, a, v);
    let holder = first_match(datoms, ProbeKind::Holder, e, a, v);
    let current = first_match(datoms, ProbeKind::Current, e, a, v);
    lemma_first_match(datoms, ProbeKind::Fact, e, a, v);
    lemma_first_match(datoms, ProbeKind::Holder, e, a, v);
    lemma_first_match(datoms, ProbeKind::Current, e, a, v);
    let attribute = schema.attribute_of(a as int)->0;
    let new = DatomView { e, a, v, tx, added: true };
    if fact < datoms.len() {
    } else if !attribute.multival && current < datoms.len() {
        let rest = datoms.remove(current);
        lemma_remove_keeps_order(schema, datoms, next_user, tx, current);
        assert forall|i: int|
            0 <= i < rest.len() && (#[trigger] rest[i]).e == new.e && rest[i].a
                == new.a implies rest[i].v != new.v && schema.attribute_of(
            new.a as int,
        )->0.multival by {
            let i2 = if i < current {
                i
            } else {
                i + 1
            };
            assert(rest[i] == datoms[i2]);
            // Two live datoms of the entity and the attribute would break
            // cardinality one.
            if i2 < current {
                assert(datoms[i2].e == datoms[current].e && datoms[i2].a == datoms[current].a);
            } else {
                assert(datoms[current].e == datoms[i2].e && datoms[current].a == datoms[i2].a);
            }
        }
        assert forall|i: int|
            0 <= i < rest.len() && (#[trigger] rest[i]).a == new.a && rest[i].v
                == new.v implies schema.attribute_of(new.a as int)->0.unique is None by {
            let i2 = if i < current {
                i
            } else {
                i + 1
            };
            assert(rest[i] == datoms[i2]);
            assert(probe_matches(ProbeKind::Holder, datoms[i2], e, a, v));
        }
        lemma_push_keeps_order(schema, rest, next_user, tx, new);
    } else {
        assert forall|i: int|
            0 <= i < datoms.len() && (#[trigger] datoms[i]).e == new.e && datoms[i].a
                == new.a implies datoms[i].v != new.v && schema.attribute_of(
            new.a as int,
        )->0.multival by {
            assert(probe_matches(ProbeKind::Current, datoms[i], e, a, v));
            if datoms[i].v == v {
                assert(probe_matches(ProbeKind::Fact, datoms[i], e, a, v));
            }
        }
        assert forall|i: int|
            0 <= i < datoms.len() && (#[trigger] datoms[i]).a == new.a && datoms[i].v
                == new.v implies schema.attribute_of(new.a as int)->0.unique is None by {
            assert(probe_matches(ProbeKind::Holder, datoms[i], e, a, v));
        }
        lemma_push_keeps_order(schema, datoms, next_user, tx, new);
    }
}

/// A term keeps the live datoms in order, and writes datoms of the
/// transaction only.
pub proof fn lemma_applied_keeps_order(
    schema: SchemaView,
    datoms: Seq<DatomView>,
    next_user: int,
    tx: Entid,
    term: TermView,
)
    requires
        in_order(schema, datoms, next_user, tx),
        TX0 <= tx,
        applied(schema, datoms, next_user, tx, term) is Ok,
    ensures
        in_order(schema, applied(schema, datoms, next_user, tx, term)->Ok_0.datoms, next_user, tx),
        forall|i: int|
            0 <= i < applied(schema, datoms, next_user, tx, term)->Ok_0.written.len() ==> (
            #[trigger] applied(schema, datoms, next_user, tx, term)->Ok_0.written[i]).tx == tx,
{
    match term.op {
        OpType::Add => {
            lemma_asserted_keeps_order(schema, datoms, next_user, tx, term.e, term.a, term.v);
        },
        OpType::Retract => {
            let fact = first_match(datoms, ProbeKind::Fact, term.e, term.a, term.v);
            lemma_first_match(datoms, ProbeKind::Fact, term.e, term.a, term.v);
            if fact < datoms.len() {
                lemma_remove_keeps_order(schema, datoms, next_user, tx, fact);
            }
        },
    }
}

/// Terms keep the live datoms in order, and write datoms of the
/// transaction only.
pub proof fn lemma_applied_all_keeps_order(
    schema: SchemaView,
    so_far: Step,
    next_user: int,
    tx: Entid,
    terms: Seq<TermView>,
)
    requires
        in_order(schema, so_far.datoms, next_user, tx),
        TX0 <= tx,
        forall|i: int| 0 <= i < so_far.written.len() ==> (#[trigger] so_far.written[i]).tx == tx,
        applied_all(schema, so_far, next_user, tx, terms) is Ok,
    ensures
        in_order(schema, applied_all(schema, so_far, next_user, tx, terms)->Ok_0.datoms, next_user, tx),
        forall|i: int|
            0 <= i < applied_all(schema, so_far, next_user, tx, terms)->Ok_0.written.len() ==> (
            #[trigger] applied_all(schema, so_far, next_user, tx, terms)->Ok_0.written[i]).tx == tx,
    decreases terms.len(),
{
    if terms.len() > 0 {
        lemma_applied_keeps_order(schema, so_far.datoms, next_user, tx, terms[0]);
        let step = applied(schema, so_far.datoms, next_user, tx, terms[0])->Ok_0;
        let next = Step { datoms: step.datoms, written: so_far.written + step.written };
        assert forall|i: int| 0 <= i < next.written.len() implies (#[trigger] next.written[i]).tx
            == tx by {
            if i >= so_far.written.len() {
                assert(next.written[i] == step.written[i - so_far.written.len()]);
            }
        }
        lemma_applied_all_keeps_order(schema, next, next_user, tx, terms.drop_first());
    }
}

/// A transaction leaves the store in order: every live datom is of an
/// attribute that the schema defines and holds a value of its type, no
/// entity holds two values of an attribute of cardinality one, and no two
/// entities share a value of a unique attribute. It takes the id at the
/// cursor of transactions, writes datoms of that id only, and moves the
/// cursor on by one.
pub proof fn lemma_transacted_keeps_order(store: StoreView, terms: Seq<TermView>, instant: i64)
    requires
        store.well_formed(),
        transacted(store, terms, instant) is Ok,
    ensures
        ({
            let done = transacted(store, terms, instant)->Ok_0;
            &&& done.0.well_formed()
            &&& done.0.schema == store.schema
            &&& done.0.next_user == store.next_user
            &&& done.0.next_tx == store.next_tx + 1
            &&& done.1.tx_id == store.next_tx
            &&& forall|i: int| 0 <= i < done.1.datoms.len() ==> (#[trigger] done.1.datoms[i]).tx
                == done.1.tx_id
        }),
{
    let tx = store.next_tx as Entid;
    let start = Step { datoms: store.datoms, written: Seq::empty() };
    assert(datoms_fit(store.schema, store.datoms, store.next_user, tx + 1));
    lemma_applied_all_keeps_order(store.schema, start, store.next_user, tx, terms);
    let step = applied_all(store.schema, start, store.next_user, tx, terms)->Ok_0;
    let value = TypedValueView::Instant(instant as int);
    lemma_first_match(step.datoms, ProbeKind::Current, tx, DB_TX_INSTANT, value);
    let done = with_instant(step, tx, instant);
    if first_match(step.datoms, ProbeKind::Current, tx, DB_TX_INSTANT, value) >= step.datoms.len() {
        let new = instant_datom(tx, instant);
        assert forall|i: int|
            0 <= i < step.datoms.len() && (#[trigger] step.datoms[i]).e == new.e
                && step.datoms[i].a == new.a implies step.datoms[i].v != new.v
            && store.schema.attribute_of(new.a as int)->0.multival by {
            assert(probe_matches(ProbeKind::Current, step.datoms[i], tx, DB_TX_INSTANT, value));
        }
        lemma_push_keeps_order(store.schema, step.datoms, store.next_user, tx, new);
    }
}

/// The ids of transactions increase: a transaction that follows another
/// has a larger id, and every datom of the store is of a transaction
/// before the cursor.
pub proof fn lemma_tx_ids_increase(
    store: StoreView,
    first: Seq<TermView>,
    first_instant: i64,
    second: Seq<TermView>,
    second_instant: i64,
)
    requires
        store.well_formed(),
        transacted(store, first, first_instant) is Ok,
        transacted(transacted(store, first, first_instant)->Ok_0.0, second, second_instant) is Ok,
    ensures
        ({
            let one = transacted(store, first, first_instant)->Ok_0;
            let two = transacted(one.0, second, second_instant)->Ok_0;
            &&& one.1.tx_id < two.1.tx_id
            &&& forall|i: int|
                0 <= i < store.datoms.len() ==> (#[trigger] store.datoms[i]).tx < one.1.tx_id
        }),
{
    lemma_transacted_keeps_order(store, first, first_instant);
    let one = transacted(store, first, first_instant)->Ok_0;
    lemma_transacted_keeps_order(one.0, second, second_instant);
}

/// A datom that a search looks for is at or after the first match.
pub proof fn lemma_match_bounds_first(
    datoms: Seq<DatomView>,
    kind: ProbeKind,
    e: Entid,
    a: Entid,
    v: TypedValueView,
    k: int,
)
    requires
        0 <= k < datoms.len(),
        probe_matches(kind, datoms[k], e, a, v),
    ensures
        first_match(datoms, kind, e, a, v) <= k,
{
    lemma_first_match(datoms, kind, e, a, v);
}

/// After a fact is asserted it is live.
pub proof fn lemma_asserted_is_live(
    schema: SchemaView,
    datoms: Seq<DatomView>,
    next_user: int,
    tx: Entid,
    e: Entid,
    a: Entid,
    v: TypedValueView,
)
    requires
        asserted(schema, datoms, next_user, tx, e, a, v) is Ok,
    ensures
        exists|k: int|
            0 <= k < asserted(schema, datoms, next_user, tx, e, a, v)->Ok_0.datoms.len()
                && probe_matches(
                ProbeKind::Fact,
                #[trigger] asserted(schema, datoms, next_user, tx, e, a, v)->Ok_0.datoms[k],
                e,
                a,
                v,
            ),
{
    let after = asserted(schema, datoms, next_user, tx, e, a, v)->Ok_0.datoms;
    let fact = first_match(datoms, ProbeKind::Fact, e, a, v);
    lemma_first_match(datoms, ProbeKind::Fact, e, a, v);
    if fact < datoms.len() {
        assert(probe_matches(ProbeKind::Fact, after[fact], e, a, v));
    } else {
        assert(probe_matches(ProbeKind::Fact, after[after.len() - 1], e, a, v));
    }
}

/// The forms of one upsert: a temporary id asserts a value of an
/// attribute.
pub open spec fn one_upsert(t: Seq<char>, a: Entid, v: TypedValueView) -> Seq<FormView> {
    seq![FormView { op: OpType::Add, e: EntityRefView::TempId(t), a, v: ValueRefView::Value(v) }]
}

/// An upsert that is transacted twice changes nothing the second time:
/// the temporary id stands for the same entity, no fresh id is taken, and
/// the second transaction writes its instant and nothing else.
pub proof fn lemma_upsert_idempotent(
    store: StoreView,
    t: Seq<char>,
    a: Entid,
    v: TypedValueView,
    first_instant: i64,
    first_labels: Seq<int>,
    first_entids: Seq<Entid>,
    once: StoreView,
    first_report: ReportView,
    second_instant: i64,
    second_labels: Seq<int>,
    second_entids: Seq<Entid>,
    twice: StoreView,
    second_report: ReportView,
)
    requires
        store.well_formed(),
        store.schema.attribute_of(a as int) is Some,
        store.schema.attribute_of(a as int)->0.unique == Some(Unique::Identity),
        forms_transacted(
            store,
            one_upsert(t, a, v),
            first_instant,
            first_labels,
            first_entids,
            once,
            first_report,
        ),
        forms_transacted(
            once,
            one_upsert(t, a, v),
            second_instant,
            second_labels,
            second_entids,
            twice,
            second_report,
        ),
    ensures
        second_entids[0] == first_entids[0],
        twice.next_user == once.next_user,
        second_report.datoms == seq![instant_datom(once.next_tx as Entid, second_instant)],
        twice.datoms == once.datoms.push(instant_datom(once.next_tx as Entid, second_instant)),
{
    reveal_with_fuel(applied_all, 3);
    let forms = one_upsert(t, a, v);
    let form = forms[0];
    let names = seq![t];
    assert(forms.drop_last() =~= Seq::<FormView>::empty());
    assert(mentioned(forms.drop_last()) =~= Seq::<Seq<char>>::empty());
    assert(mentioned(forms) =~= names);
    assert(tempid_position(names, t) == 0);
    let e = first_entids[0];
    // The first transaction.
    let started = StoreView { next_user: once.next_user, ..store };
    assert(started.well_formed());
    let terms = resolved_all(forms, names, first_entids);
    assert(terms[0] == TermView { op: OpType::Add, e, a, v });
    assert(terms.drop_first() =~= Seq::<TermView>::empty());
    let tx = store.next_tx as Entid;
    let start = Step { datoms: store.datoms, written: Seq::empty() };
    assert(applied_all(store.schema, start, once.next_user, tx, terms) is Ok);
    let step = asserted(store.schema, store.datoms, once.next_user, tx, e, a, v)->Ok_0;
    lemma_asserted_is_live(store.schema, store.datoms, once.next_user, tx, e, a, v);
    let k = choose|k: int|
        0 <= k < step.datoms.len() && probe_matches(
            ProbeKind::Fact,
            #[trigger] step.datoms[k],
            e,
            a,
            v,
        );
    let after_terms = applied_all(store.schema, start, once.next_user, tx, terms)->Ok_0;
    assert(applied(store.schema, store.datoms, once.next_user, tx, terms[0]) == asserted(
        store.schema,
        store.datoms,
        once.next_user,
        tx,
        e,
        a,
        v,
    ));
    assert(after_terms.datoms == step.datoms);
    assert(transacted(started, terms, first_instant) == Ok::<(StoreView, ReportView), DbErrorKind>(
        (once, first_report),
    ));
    assert(once.schema == store.schema);
    assert(once.datoms.len() >= step.datoms.len());
    assert(once.datoms[k] == step.datoms[k]);
    lemma_transacted_keeps_order(started, terms, first_instant);
    // The second transaction finds the entity.
    lemma_match_bounds_first(once.datoms, ProbeKind::Holder, 0, a, v, k);
    lemma_first_match(once.datoms, ProbeKind::Holder, 0, a, v);
    let holder = first_match(once.datoms, ProbeKind::Holder, 0, a, v);
    if holder < k {
        assert(once.datoms[holder].a == once.datoms[k].a && once.datoms[holder].v
            == once.datoms[k].v);
    }
    assert(once.datoms[holder].e == e);
    assert(found_by(once.datoms, form) == Some(e));
    assert(is_upsert_of(once.schema, forms[0], names[0]));
    assert(second_labels[0] == 0);
    assert(class_finds(once.schema, once.datoms, forms, names, second_labels, 0, e));
    assert(second_entids[0] == e);
    assert(is_found(once.schema, once.datoms, forms, names, second_labels, second_entids, 0));
    if once.next_user < twice.next_user {
        assert(is_fresh_id(
            once.schema,
            once.datoms,
            forms,
            names,
            second_labels,
            second_entids,
            once.next_user,
        ));
    }
    // It writes its instant and nothing else.
    let again = resolved_all(forms, names, second_entids);
    assert(again[0] == TermView { op: OpType::Add, e, a, v });
    assert(again.drop_first() =~= Seq::<TermView>::empty());
    let tx2 = once.next_tx as Entid;
    lemma_match_bounds_first(once.datoms, ProbeKind::Fact, e, a, v, k);
    let value = TypedValueView::Instant(second_instant as int);
    lemma_first_match(once.datoms, ProbeKind::Current, tx2, DB_TX_INSTANT, value);
    let current = first_match(once.datoms, ProbeKind::Current, tx2, DB_TX_INSTANT, value);
    if current < once.datoms.len() {
        assert(is_allocated(once.datoms[current].e, once.next_user, once.next_tx));
    }
    let unchanged = Step { datoms: once.datoms, written: Seq::empty() };
    assert(applied_all(once.schema, unchanged, once.next_user, tx2, again) == Ok::<
        Step,
        DbErrorKind,
    >(Step { datoms: once.datoms, written: Seq::<DatomView>::empty() + Seq::<DatomView>::empty() }));
    assert(Seq::<DatomView>::empty() + Seq::<DatomView>::empty() =~= Seq::<DatomView>::empty());
    assert(Seq::<DatomView>::empty().push(instant_datom(tx2, second_instant)) =~= seq![
        instant_datom(tx2, second_instant),
    ]);
}

/// A value of a unique attribute that an entity holds is refused to
/// every other entity: the transaction that asserts it is refused with
/// the entity that holds the value, as long as a transaction id is left.
pub proof fn lemma_shared_unique_value_is_refused(
    store: StoreView,
    k: int,
    e2: Entid,
    instant: i64,
)
    requires
        store.well_formed(),
        store.next_tx < max_entid(),
        0 <= k < store.datoms.len(),
        store.schema.attribute_of(store.datoms[k].a as int)->0.unique is Some,
        e2 != store.datoms[k].e,
        is_allocated(e2, store.next_user, store.next_tx + 1),
    ensures
        transacted(
            store,
            seq![TermView { op: OpType::Add, e: e2, a: store.datoms[k].a, v: store.datoms[k].v }],
            instant,
        ) == Err::<(StoreView, ReportView), DbErrorKind>(
            DbErrorKind::UniquenessConflict(store.datoms[k].a, store.datoms[k].e),
        ),
{
    let held = store.datoms[k];
    let datoms = store.datoms;
    let tx = store.next_tx as Entid;
    let term = TermView { op: OpType::Add, e: e2, a: held.a, v: held.v };
    let terms = seq![term];
    lemma_first_match(datoms, ProbeKind::Fact, e2, held.a, held.v);
    lemma_first_match(datoms, ProbeKind::Holder, e2, held.a, held.v);
    let fact = first_match(datoms, ProbeKind::Fact, e2, held.a, held.v);
    let holder = first_match(datoms, ProbeKind::Holder, e2, held.a, held.v);
    assert(probe_matches(ProbeKind::Holder, datoms[k], e2, held.a, held.v));
    assert(holder <= k);
    if holder < k {
        assert(datoms[holder].a == datoms[k].a && datoms[holder].v == datoms[k].v);
    }
    if fact < datoms.len() {
        if fact < k {
            assert(datoms[fact].a == datoms[k].a && datoms[fact].v == datoms[k].v);
        } else if fact > k {
            assert(datoms[k].a == datoms[fact].a && datoms[k].v == datoms[fact].v);
        }
    }
    assert(asserted(store.schema, datoms, store.next_user, tx, e2, held.a, held.v) == Err::<
        Step,
        DbErrorKind,
    >(DbErrorKind::UniquenessConflict(held.a, held.e)));
    assert(terms[0] == term);
    reveal_with_fuel(applied_all, 2);
}

/// Temporary ids that share an identity stand for one entity.
pub proof fn lemma_shared_identity_is_one_entity(
    schema: SchemaView,
    datoms: Seq<DatomView>,
    forms: Seq<FormView>,
    labels: Seq<int>,
    next_user: int,
    entids: Seq<Entid>,
    next_after: int,
    i: int,
    j: int,
)
    requires
        labels_are_classes(schema, forms, mentioned(forms), labels),
        stands_for(schema, datoms, forms, mentioned(forms), labels, next_user, entids, next_after),
        0 <= i < mentioned(forms).len(),
        0 <= j < mentioned(forms).len(),
        shares(schema, forms, mentioned(forms)[i], mentioned(forms)[j]),
    ensures
        entids[i] == entids[j],
{
    assert(labels[i] == labels[j]);
}

/// A temporary id with an upsert that finds an entity stands for that
/// entity.
pub proof fn lemma_upsert_finds_its_entity(
    schema: SchemaView,
    datoms: Seq<DatomView>,
    forms: Seq<FormView>,
    labels: Seq<int>,
    next_user: int,
    entids: Seq<Entid>,
    next_after: int,
    i: int,
    p: int,
    e: Entid,
)
    requires
        stands_for(schema, datoms, forms, mentioned(forms), labels, next_user, entids, next_after),
        0 <= i < mentioned(forms).len(),
        0 <= p < forms.len(),
        is_upsert_of(schema, forms[p], mentioned(forms)[i]),
        found_by(datoms, forms[p]) == Some(e),
    ensures
        entids[i] == e,
{
    let names = mentioned(forms);
    assert(exists|j: int, q: int|
        0 <= j < names.len() && 0 <= q < forms.len() && #[trigger] labels[j] == labels[i]
            && is_upsert_of(schema, #[trigger] forms[q], names[j]) && found_by(datoms, forms[q])
            == Some(e)) by {
        let j = i;
        let q = p;
        assert(0 <= j < names.len() && 0 <= q < forms.len() && labels[j] == labels[i]
            && is_upsert_of(schema, forms[q], names[j]) && found_by(datoms, forms[q]) == Some(e));
    }
    assert(class_finds(schema, datoms, forms, names, labels, i, e));
}

/// Where every temporary id stands for an entity that an upsert found,
/// no fresh id is taken.
pub proof fn lemma_found_takes_no_id(
    schema: SchemaView,
    datoms: Seq<DatomView>,
    forms: Seq<FormView>,
    labels: Seq<int>,
    next_user: int,
    entids: Seq<Entid>,
    next_after: int,
)
    requires
        stands_for(schema, datoms, forms, mentioned(forms), labels, next_user, entids, next_after),
        forall|i: int|
            0 <= i < mentioned(forms).len() ==> #[trigger] is_found(
                schema,
                datoms,
                forms,
                mentioned(forms),
                labels,
                entids,
                i,
            ),
    ensures
        next_after == next_user,
{
    if next_user < next_after {
        assert(is_fresh_id(schema, datoms, forms, mentioned(forms), labels, entids, next_user));
    }
}

/// Temporary ids of one class whose upserts find no entity take one
/// fresh id between them: the id at the cursor, which moves on by one.
pub proof fn lemma_one_class_takes_one_id(
    schema: SchemaView,
    datoms: Seq<DatomView>,
    forms: Seq<FormView>,
    labels: Seq<int>,
    next_user: int,
    entids: Seq<Entid>,
    next_after: int,
)
    requires
        stands_for(schema, datoms, forms, mentioned(forms), labels, next_user, entids, next_after),
        mentioned(forms).len() >= 1,
        forall|i: int, j: int|
            0 <= i < mentioned(forms).len() && 0 <= j < mentioned(forms).len() ==> #[trigger] labels[i]
                == #[trigger] labels[j],
        forall|i: int|
            0 <= i < mentioned(forms).len() ==> !#[trigger] is_found(
                schema,
                datoms,
                forms,
                mentioned(forms),
                labels,
                entids,
                i,
            ),
    ensures
        next_after == next_user + 1,
        forall|i: int| 0 <= i < mentioned(forms).len() ==> #[trigger] entids[i] == next_user,
{
    let names = mentioned(forms);
    assert(!is_found(schema, datoms, forms, names, labels, entids, 0));
    assert(next_user <= entids[0] < next_after);
    assert forall|i: int| 0 <= i < names.len() implies #[trigger] entids[i] == entids[0] by {
        assert(labels[i] == labels[0]);
    }
    if next_after > next_user + 1 {
        let first = next_user;
        let second = next_user + 1;
        assert(is_fresh_id(schema, datoms, forms, names, labels, entids, first));
        assert(is_fresh_id(schema, datoms, forms, names, labels, entids, second));
        let w1 = choose|w: int|
            0 <= w < names.len() && #[trigger] entids[w] == first && !is_found(
                schema,
                datoms,
                forms,
                names,
                labels,
                entids,
                w,
            );
        let w2 = choose|w: int|
            0 <= w < names.len() && #[trigger] entids[w] == second && !is_found(
                schema,
                datoms,
                forms,
                names,
                labels,
                entids,
                w,
            );
        assert(entids[w1] == entids[0]);
        assert(entids[w2] == entids[0]);
    }
    assert(next_user == entids[0]);
}

} // verus!
