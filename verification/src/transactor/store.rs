//! A store of live datoms, and the transactions that change it.

use vstd::prelude::*;
use crate::db::{DbError, DbErrorKind, Entid, DB_TX_INSTANT, TX0, USER0};
use crate::errors::{MentatError, MentatErrorKind};
use crate::edn::entities::OpType;
use crate::schema::{Attribute, Schema};
use crate::transactor::laws::lemma_transacted_keeps_order;
use crate::transactor::model::{
    alteration_fits, applied, applied_all, asserted, defines_tx_instant, first_match,
    has_datoms_of, holds_several, instant_datom, is_allocated, lemma_alteration_keeps_order,
    lemma_definition_keeps_order, max_entid, retracted, schema_allocated, shares_value, transacted,
    DatomView, ProbeKind, ReportView, Step, StoreView, TermView,
};
use crate::transactor::classes::{
    collect_edges, collect_tempids, label_classes, labels_view, names_view,
};
use crate::transactor::resolve::{assign_entids, find_targets, resolve_forms};
use crate::transactor::upsert::{
    class_conflict, forms_view, labels_are_classes, mentioned, resolved_all, stands_for, Form,
    FormView,
};
use crate::edn::entities::{entities_view, Entity};
use crate::edn::source::location_at;
use crate::edn::tx_grammar::{entities_stop, whole_entities};
use crate::edn::tx_parse::entities;
use crate::edn::ParseError;
use crate::symbols::Keyword;
use crate::transactor::normalize::{normalize, normalized, NormalizeError, NormalizeErrorKind};
use crate::transactor::reflect::SchemaFault;
use crate::values::TypedValue;

verus! {

/// A datom: an assertion or retraction of a value of an attribute of an
/// entity, by a transaction.
#[derive(Debug, PartialEq, Eq)]
pub struct Datom {
    pub e: Entid,
    pub a: Entid,
    pub v: TypedValue,
    pub tx: Entid,
    pub added: bool,
}

impl View for Datom {
    type V = DatomView;

    open spec fn view(&self) -> DatomView {
        DatomView { e: self.e, a: self.a, v: self.v@, tx: self.tx, added: self.added }
    }
}

impl Clone for Datom {
    fn clone(&self) -> (r: Self)
        ensures
            r@ == self@,
    {
        Datom { e: self.e, a: self.a, v: self.v.clone(), tx: self.tx, added: self.added }
    }
}

/// The views of a list of datoms.
pub open spec fn datoms_view(datoms: Seq<Datom>) -> Seq<DatomView> {
    Seq::new(datoms.len(), |i: int| datoms[i]@)
}

/// One step of a transaction: an assertion or a retraction of a value of
/// an attribute of an entity.
#[derive(Debug, PartialEq, Eq)]
pub struct Term {
    pub op: OpType,
    pub e: Entid,
    pub a: Entid,
    pub v: TypedValue,
}

impl View for Term {
    type V = TermView;

    open spec fn view(&self) -> TermView {
        TermView { op: self.op, e: self.e, a: self.a, v: self.v@ }
    }
}

/// The views of a list of terms.
pub open spec fn terms_view(terms: Seq<Term>) -> Seq<TermView> {
    Seq::new(terms.len(), |i: int| terms[i]@)
}

/// What a transaction reports: its id, its instant, and the datoms it
/// wrote in their order.
#[derive(Debug, PartialEq, Eq)]
pub struct TxReport {
    pub tx_id: Entid,
    pub tx_instant: i64,
    pub datoms: Vec<Datom>,
}

impl View for TxReport {
    type V = ReportView;

    open spec fn view(&self) -> ReportView {
        ReportView { tx_id: self.tx_id, datoms: datoms_view(self.datoms@) }
    }
}

/// Whether one of the datoms is about the entity.
pub open spec fn says_of(datoms: Seq<DatomView>, e: Entid) -> bool {
    exists|i: int| 0 <= i < datoms.len() && (#[trigger] datoms[i]).e == e
}

impl TxReport {
    /// Whether the transaction wrote a datom about the entity.
    pub fn has_entity_assertions(&self, e: Entid) -> (r: bool)
        ensures
            r == says_of(self@.datoms, e),
    {
        let mut i: usize = 0;
        while i < self.datoms.len()
            invariant
                i <= self.datoms@.len(),
                forall|j: int| 0 <= j < i ==> (#[trigger] self@.datoms[j]).e != e,
            decreases self.datoms@.len() - i,
        {
            if self.datoms[i].e == e {
                proof {
                    assert(self@.datoms[i as int].e == e);
                }
                return true;
            }
            i += 1;
        }
        false
    }

    /// Whether the transaction is empty: it wrote no datom but those
    /// about itself.
    pub fn is_empty(&self) -> (r: bool)
        ensures
            r == (forall|i: int|
                0 <= i < self@.datoms.len() ==> (#[trigger] self@.datoms[i]).e == self@.tx_id),
    {
        let mut i: usize = 0;
        while i < self.datoms.len()
            invariant
                i <= self.datoms@.len(),
                forall|j: int| 0 <= j < i ==> (#[trigger] self@.datoms[j]).e == self@.tx_id,
            decreases self.datoms@.len() - i,
        {
            if self.datoms[i].e != self.tx_id {
                proof {
                    assert(self@.datoms[i as int].e != self@.tx_id);
                }
                return false;
            }
            i += 1;
        }
        true
    }
}

/// The position of the first datom that a search looks for.
pub fn find_datom(datoms: &Vec<Datom>, kind: ProbeKind, e: Entid, a: Entid, v: &TypedValue) -> (r:
    usize)
    ensures
        r == first_match(datoms_view(datoms@), kind, e, a, v@),
        r <= datoms@.len(),
{
    let ghost all = datoms_view(datoms@);
    let mut i: usize = 0;
    proof {
        assert(all.skip(0) =~= all);
    }
    while i < datoms.len()
        invariant
            i <= datoms@.len(),
            all == datoms_view(datoms@),
            first_match(all, kind, e, a, v@) == i + first_match(all.skip(i as int), kind, e, a, v@),
        decreases datoms@.len() - i,
    {
        proof {
            assert(all.skip(i as int)[0] == datoms@[i as int]@);
            assert(all.skip(i as int).drop_first() =~= all.skip(i + 1));
        }
        let d = &datoms[i];
        let found = match kind {
            ProbeKind::Fact => d.e == e && d.a == a && d.v.same_as(v),
            ProbeKind::Holder => d.a == a && d.v.same_as(v),
            ProbeKind::Current => d.e == e && d.a == a,
        };
        if found {
            return i;
        }
        i += 1;
    }
    proof {
        assert(all.skip(i as int) =~= Seq::empty());
    }
    i
}

/// A store: its schema, its live datoms, and the cursors of the
/// partitions of users and of transactions.
#[derive(Debug)]
pub struct Store {
    schema: Schema,
    datoms: Vec<Datom>,
    next_user: Entid,
    next_tx: Entid,
}

impl View for Store {
    type V = StoreView;

    closed spec fn view(&self) -> StoreView {
        StoreView {
            schema: self.schema@,
            datoms: datoms_view(self.datoms@),
            next_user: self.next_user as int,
            next_tx: self.next_tx as int,
        }
    }
}

fn copy_datoms(datoms: &Vec<Datom>) -> (r: Vec<Datom>)
    ensures
        datoms_view(r@) == datoms_view(datoms@),
{
    let mut out: Vec<Datom> = Vec::new();
    let mut i: usize = 0;
    while i < datoms.len()
        invariant
            i <= datoms@.len(),
            out@.len() == i,
            forall|j: int| 0 <= j < i ==> out@[j]@ == datoms@[j]@,
        decreases datoms@.len() - i,
    {
        out.push(datoms[i].clone());
        i += 1;
    }
    assert(datoms_view(out@) =~= datoms_view(datoms@));
    out
}

/// Asserts a fact in the live datoms `live`, and notes what was written
/// in `written`.
fn assert_fact(
    schema: &Schema,
    live: &mut Vec<Datom>,
    written: &mut Vec<Datom>,
    next_user: Entid,
    tx: Entid,
    e: Entid,
    a: Entid,
    v: &TypedValue,
) -> (r: Result<(), DbErrorKind>)
    requires
        schema@.well_formed(),
        tx < max_entid(),
    ensures
        match r {
            Ok(_) => {
                &&& asserted(
                    schema@,
                    datoms_view(old(live)@),
                    next_user as int,
                    tx,
                    e,
                    a,
                    v@,
                ) matches Ok(step)
                &&& datoms_view(final(live)@) == step.datoms
                &&& datoms_view(final(written)@) == datoms_view(old(written)@) + step.written
            },
            Err(error) => {
                &&& asserted(schema@, datoms_view(old(live)@), next_user as int, tx, e, a, v@) == Err::<
                    Step,
                    DbErrorKind,
                >(error)
                &&& *final(live) == *old(live)
                &&& *final(written) == *old(written)
            },
        },
{
    let ghost before = datoms_view(live@);
    let ghost noted = datoms_view(written@);
    let attribute = match schema.attribute_for_entid(a) {
        Some(attribute) => attribute,
        None => {
            return Err(DbErrorKind::UnknownAttribute(a));
        },
    };
    if !v.matches_type(attribute.value_type) {
        return Err(DbErrorKind::BadTypeCoercion(a));
    }
    let allocated = (0 <= e && e < USER0) || (USER0 <= e && e < next_user) || (TX0 <= e && e
        <= tx);
    if !allocated {
        return Err(DbErrorKind::UnallocatedEntid(e));
    }
    let fact = find_datom(live, ProbeKind::Fact, e, a, v);
    if fact < live.len() {
        proof {
            assert(datoms_view(written@) =~= noted + Seq::<DatomView>::empty());
        }
        return Ok(());
    }
    if attribute.unique.is_some() {
        let holder = find_datom(live, ProbeKind::Holder, e, a, v);
        if holder < live.len() {
            return Err(DbErrorKind::UniquenessConflict(a, live[holder].e));
        }
    }
    if !attribute.multival {
        let current = find_datom(live, ProbeKind::Current, e, a, v);
        if current < live.len() {
            if live[current].tx == tx {
                return Err(DbErrorKind::CardinalityConflict(e, a));
            }
            let old_datom = live.remove(current);
            let ghost old_view = old_datom@;
            assert(old_view == before[current as int]);
            written.push(Datom { e: old_datom.e, a: old_datom.a, v: old_datom.v, tx, added: false });
            written.push(Datom { e, a, v: v.clone(), tx, added: true });
            live.push(Datom { e, a, v: v.clone(), tx, added: true });
            proof {
                let new = DatomView { e, a, v: v@, tx, added: true };
                assert(datoms_view(live@) =~= before.remove(current as int).push(new));
                assert(datoms_view(written@) =~= noted + seq![
                    DatomView { tx, added: false, ..old_view },
                    new,
                ]);
            }
            return Ok(());
        }
    }
    written.push(Datom { e, a, v: v.clone(), tx, added: true });
    live.push(Datom { e, a, v: v.clone(), tx, added: true });
    proof {
        let new = DatomView { e, a, v: v@, tx, added: true };
        assert(datoms_view(live@) =~= before.push(new));
        assert(datoms_view(written@) =~= noted + seq![new]);
    }
    Ok(())
}

/// Retracts a fact from the live datoms `live`, and notes what was
/// written in `written`.
fn retract_fact(
    schema: &Schema,
    live: &mut Vec<Datom>,
    written: &mut Vec<Datom>,
    tx: Entid,
    e: Entid,
    a: Entid,
    v: &TypedValue,
) -> (r: Result<(), DbErrorKind>)
    requires
        schema@.well_formed(),
    ensures
        match r {
            Ok(_) => {
                &&& retracted(schema@, datoms_view(old(live)@), tx, e, a, v@) matches Ok(step)
                &&& datoms_view(final(live)@) == step.datoms
                &&& datoms_view(final(written)@) == datoms_view(old(written)@) + step.written
            },
            Err(error) => {
                &&& retracted(schema@, datoms_view(old(live)@), tx, e, a, v@) == Err::<
                    Step,
                    DbErrorKind,
                >(error)
                &&& *final(live) == *old(live)
                &&& *final(written) == *old(written)
            },
        },
{
    let ghost before = datoms_view(live@);
    let ghost noted = datoms_view(written@);
    let attribute = match schema.attribute_for_entid(a) {
        Some(attribute) => attribute,
        None => {
            return Err(DbErrorKind::UnknownAttribute(a));
        },
    };
    if !v.matches_type(attribute.value_type) {
        return Err(DbErrorKind::BadTypeCoercion(a));
    }
    let fact = find_datom(live, ProbeKind::Fact, e, a, v);
    if fact < live.len() {
        let old_datom = live.remove(fact);
        let ghost old_view = old_datom@;
        assert(old_view == before[fact as int]);
        written.push(Datom { e: old_datom.e, a: old_datom.a, v: old_datom.v, tx, added: false });
        proof {
            assert(datoms_view(live@) =~= before.remove(fact as int));
            assert(datoms_view(written@) =~= noted + seq![
                DatomView { tx, added: false, ..old_view },
            ]);
        }
    } else {
        proof {
            assert(datoms_view(written@) =~= noted + Seq::<DatomView>::empty());
        }
    }
    Ok(())
}

impl Store {
    /// A store without datoms, whose schema defines the instant of a
    /// transaction.
    pub fn new(schema: Schema) -> (r: Store)
        requires
            schema@.well_formed(),
            defines_tx_instant(schema@),
            schema_allocated(schema@, USER0 as int, TX0 as int),
        ensures
            r@ == (StoreView {
                schema: schema@,
                datoms: Seq::empty(),
                next_user: USER0 as int,
                next_tx: TX0 as int,
            }),
            r@.well_formed(),
    {
        let r = Store { schema, datoms: Vec::new(), next_user: USER0, next_tx: TX0 };
        assert(r@.datoms =~= Seq::empty());
        r
    }

    /// The schema of the store.
    pub fn schema(&self) -> (r: &Schema)
        ensures
            r@ == self@.schema,
    {
        &self.schema
    }

    /// The live datoms, in the order in which they were asserted.
    pub fn datoms(&self) -> (r: &Vec<Datom>)
        ensures
            datoms_view(r@) == self@.datoms,
    {
        &self.datoms
    }

    /// The id that the next transaction takes.
    pub fn next_tx(&self) -> (r: Entid)
        ensures
            r == self@.next_tx,
    {
        self.next_tx
    }

    /// The ids of the transactions of the store that come after `after`,
    /// or of all its transactions: each once, in rising order.
    pub fn local_txs(&self, after: Option<Entid>) -> (r: Vec<Entid>)
        requires
            self@.well_formed(),
        ensures
            forall|i: int, j: int| 0 <= i < j < r@.len() ==> r@[i] < r@[j],
            forall|t: Entid|
                r@.contains(t) <==> TX0 <= t < self@.next_tx && (after matches Some(a) ==> t > a),
    {
        let first: Entid = match after {
            Some(a) => if a >= TX0 {
                if a < self.next_tx {
                    a + 1
                } else {
                    self.next_tx
                }
            } else {
                TX0
            },
            None => TX0,
        };
        let mut out: Vec<Entid> = Vec::new();
        let mut t: Entid = first;
        while t < self.next_tx
            invariant
                TX0 <= first <= t <= self.next_tx,
                out@.len() == t - first,
                forall|i: int| 0 <= i < out@.len() ==> out@[i] == first + i,
            decreases self.next_tx - t,
        {
            out.push(t);
            t = t + 1;
        }
        proof {
            assert forall|x: Entid| out@.contains(x) <==> TX0 <= x < self@.next_tx && (
            after matches Some(a) ==> x > a) by {
                if TX0 <= x < self@.next_tx && (after matches Some(a) ==> x > a) {
                    assert(out@[x - first] == x);
                }
            }
        }
        out
    }

    /// The id that is allocated next in the partition of users.
    pub fn next_user(&self) -> (r: Entid)
        ensures
            r == self@.next_user,
    {
        self.next_user
    }

    /// Allocates an entity id in the partition of users, if it has one
    /// left.
    pub fn allocate_entid(&mut self) -> (r: Option<Entid>)
        requires
            old(self)@.well_formed(),
        ensures
            final(self)@.well_formed(),
            match r {
                Some(e) => e == old(self)@.next_user && e < TX0 && final(self)@ == (StoreView {
                    next_user: old(self)@.next_user + 1,
                    ..old(self)@
                }),
                None => old(self)@.next_user == TX0 && final(self)@ == old(self)@,
            },
    {
        if self.next_user >= TX0 {
            return None;
        }
        let e = self.next_user;
        self.next_user = e + 1;
        Some(e)
    }

    /// Applies the terms in their order, as one transaction with the
    /// given instant; see [`transacted`]. The first term that cannot be
    /// applied is the error, and the store is then as it was.
    pub fn transact(&mut self, terms: &Vec<Term>, instant: i64) -> (r: Result<TxReport, DbErrorKind>)
        requires
            old(self)@.well_formed(),
        ensures
            final(self)@.well_formed(),
            match r {
                Ok(report) => {
                    &&& transacted(old(self)@, terms_view(terms@), instant) == Ok::<
                        (StoreView, ReportView),
                        DbErrorKind,
                    >((final(self)@, report@))
                    &&& report.tx_id == old(self)@.next_tx
                    &&& report.tx_instant == instant
                },
                Err(error) => {
                    &&& transacted(old(self)@, terms_view(terms@), instant) == Err::<
                        (StoreView, ReportView),
                        DbErrorKind,
                    >(error)
                    &&& final(self)@ == old(self)@
                },
            },
    {
        if self.next_tx >= 0x7fff_ffff_ffff_ffff {
            return Err(DbErrorKind::NoRoomInPartition);
        }
        let tx = self.next_tx;
        let ghost all = terms_view(terms@);
        let ghost start = Step { datoms: self@.datoms, written: Seq::empty() };
        let mut live = copy_datoms(&self.datoms);
        let mut written: Vec<Datom> = Vec::new();
        proof {
            assert(all.skip(0) =~= all);
            assert(datoms_view(written@) =~= Seq::empty());
        }
        let mut i: usize = 0;
        while i < terms.len()
            invariant
                i <= terms@.len(),
                *self == *old(self),
                self@.well_formed(),
                tx == self.next_tx,
                tx < max_entid(),
                all == terms_view(terms@),
                start == (Step { datoms: self@.datoms, written: Seq::empty() }),
                applied_all(self@.schema, start, self@.next_user, tx, all) == applied_all(
                    self@.schema,
                    Step { datoms: datoms_view(live@), written: datoms_view(written@) },
                    self@.next_user,
                    tx,
                    all.skip(i as int),
                ),
            decreases terms@.len() - i,
        {
            let term = &terms[i];
            let ghost before = Step { datoms: datoms_view(live@), written: datoms_view(written@) };
            proof {
                assert(all.skip(i as int)[0] == term@);
                assert(all.skip(i as int).drop_first() =~= all.skip(i + 1));
            }
            let outcome = match term.op {
                OpType::Add => assert_fact(
                    &self.schema,
                    &mut live,
                    &mut written,
                    self.next_user,
                    tx,
                    term.e,
                    term.a,
                    &term.v,
                ),
                OpType::Retract => retract_fact(
                    &self.schema,
                    &mut live,
                    &mut written,
                    tx,
                    term.e,
                    term.a,
                    &term.v,
                ),
            };
            match outcome {
                Ok(_) => {},
                Err(error) => {
                    proof {
                        assert(applied(self@.schema, before.datoms, self@.next_user, tx, term@)
                            == Err::<Step, DbErrorKind>(error));
                        assert(applied_all(
                            self@.schema,
                            before,
                            self@.next_user,
                            tx,
                            all.skip(i as int),
                        ) == Err::<Step, DbErrorKind>(error));
                    }
                    return Err(error);
                },
            }
            i += 1;
        }
        proof {
            assert(all.skip(i as int) =~= Seq::empty());
            lemma_transacted_keeps_order(old(self)@, all, instant);
        }
        let value = TypedValue::Instant(instant);
        let ghost step = Step { datoms: datoms_view(live@), written: datoms_view(written@) };
        let current = find_datom(&live, ProbeKind::Current, tx, DB_TX_INSTANT, &value);
        if current >= live.len() {
            written.push(
                Datom { e: tx, a: DB_TX_INSTANT, v: TypedValue::Instant(instant), tx, added: true },
            );
            live.push(Datom { e: tx, a: DB_TX_INSTANT, v: value, tx, added: true });
            proof {
                assert(datoms_view(live@) =~= step.datoms.push(instant_datom(tx, instant)));
                assert(datoms_view(written@) =~= step.written.push(instant_datom(tx, instant)));
            }
        }
        self.datoms = live;
        self.next_tx = tx + 1;
        Ok(TxReport { tx_id: tx, tx_instant: instant, datoms: written })
    }
}

/// What a transaction of forms reports: what the transaction wrote, the
/// temporary ids of the forms in the order in which they are first
/// mentioned, the label of the class of each, and the entity that each
/// stands for.
#[derive(Debug, PartialEq, Eq)]
pub struct FormsReport {
    pub report: TxReport,
    pub tempids: Vec<String>,
    pub labels: Vec<usize>,
    pub entids: Vec<Entid>,
}

/// Whether a transaction of forms leads from one state of a store to
/// another: the labels sort the temporary ids into classes, the entity ids
/// are what the temporary ids stand for, the cursor of the partition of
/// users moves past the fresh ids and stays in the partition, and the
/// terms that the forms become are transacted.
pub open spec fn forms_transacted(
    before: StoreView,
    forms: Seq<FormView>,
    instant: i64,
    labels: Seq<int>,
    entids: Seq<Entid>,
    after: StoreView,
    report: ReportView,
) -> bool {
    &&& labels_are_classes(before.schema, forms, mentioned(forms), labels)
    &&& after.next_user <= TX0
    &&& stands_for(
        before.schema,
        before.datoms,
        forms,
        mentioned(forms),
        labels,
        before.next_user,
        entids,
        after.next_user,
    )
    &&& transacted(
        StoreView { next_user: after.next_user, ..before },
        resolved_all(forms, mentioned(forms), entids),
        instant,
    ) == Ok::<(StoreView, ReportView), DbErrorKind>((after, report))
}

/// Whether the entity ids are what the temporary ids stand for, and the
/// terms that the forms become are refused with the given error.
pub open spec fn terms_refused(
    before: StoreView,
    forms: Seq<FormView>,
    instant: i64,
    labels: Seq<int>,
    entids: Seq<Entid>,
    next_after: int,
    error: DbErrorKind,
) -> bool {
    &&& stands_for(
        before.schema,
        before.datoms,
        forms,
        mentioned(forms),
        labels,
        before.next_user,
        entids,
        next_after,
    )
    &&& transacted(
        StoreView { next_user: next_after, ..before },
        resolved_all(forms, mentioned(forms), entids),
        instant,
    ) == Err::<(StoreView, ReportView), DbErrorKind>(error)
}

/// Whether the labels sort the temporary ids into classes and the
/// transaction is refused with the given error: because the upserts of a
/// class find two entities, or because the terms that the forms become are
/// refused.
pub open spec fn refused_with_classes(
    before: StoreView,
    forms: Seq<FormView>,
    instant: i64,
    labels: Seq<int>,
    error: DbErrorKind,
) -> bool {
    &&& labels_are_classes(before.schema, forms, mentioned(forms), labels)
    &&& ((error matches DbErrorKind::UpsertConflict(e1, e2) && class_conflict(
        before.schema,
        before.datoms,
        forms,
        mentioned(forms),
        labels,
        e1,
        e2,
    )) || exists|entids: Seq<Entid>, next_after: int| #[trigger]
        terms_refused(before, forms, instant, labels, entids, next_after, error))
}

/// Whether a transaction of forms is refused with the given error. Forms
/// that mention more temporary ids than the partition of users has ids
/// left are refused with the first temporary id that is left without an
/// id.
pub open spec fn forms_refused(
    before: StoreView,
    forms: Seq<FormView>,
    instant: i64,
    error: DbErrorKind,
) -> bool {
    if before.next_user + mentioned(forms).len() > TX0 {
        error matches DbErrorKind::UnresolvedTempid(t) && t@ == mentioned(forms)[TX0
            - before.next_user]
    } else {
        exists|labels: Seq<int>| #[trigger]
            refused_with_classes(before, forms, instant, labels, error)
    }
}

impl Store {
    /// Transacts forms whose entities may be temporary ids. Each
    /// temporary id stands for the entity that the upserts of its class
    /// find, or else for a fresh one; the forms are then applied as terms.
    /// See [`forms_transacted`] and [`forms_refused`]. A transaction that
    /// is refused leaves the store as it was.
    pub fn transact_forms(&mut self, forms: &Vec<Form>, instant: i64) -> (r: Result<
        FormsReport,
        DbErrorKind,
    >)
        requires
            old(self)@.well_formed(),
        ensures
            final(self)@.well_formed(),
            match r {
                Ok(done) => {
                    &&& done.report.tx_instant == instant
                    &&& names_view(done.tempids@) == mentioned(forms_view(forms@))
                    &&& forms_transacted(
                        old(self)@,
                        forms_view(forms@),
                        instant,
                        labels_view(done.labels@),
                        done.entids@,
                        final(self)@,
                        done.report@,
                    )
                },
                Err(error) => {
                    &&& final(self)@ == old(self)@
                    &&& forms_refused(old(self)@, forms_view(forms@), instant, error)
                },
            },
    {
        let ghost before = self@;
        let ghost all = forms_view(forms@);
        let (tempids, owner, value_owner) = collect_tempids(forms);
        let ghost names = names_view(tempids@);
        let room = TX0 - self.next_user;
        if tempids.len() > room as usize {
            return Err(DbErrorKind::UnresolvedTempid(tempids[room as usize].clone()));
        }
        let edges = collect_edges(&self.schema, forms, &tempids, &owner);
        let labels = label_classes(
            Ghost(self.schema@),
            Ghost(all),
            &tempids,
            Ghost(owner@),
            &edges,
        );
        let ghost marks = labels_view(labels@);
        let targets = match find_targets(
            &self.schema,
            &self.datoms,
            forms,
            Ghost(names),
            &owner,
            &labels,
        ) {
            Ok(targets) => targets,
            Err(error) => {
                proof {
                    assert(refused_with_classes(before, all, instant, marks, error));
                }
                return Err(error);
            },
        };
        let (entids, next_after) = assign_entids(
            Ghost(self.schema@),
            Ghost(self@.datoms),
            Ghost(all),
            Ghost(names),
            Ghost(owner@),
            &labels,
            &targets,
            self.next_user,
        );
        let terms = resolve_forms(forms, Ghost(names), &owner, &value_owner, &entids);
        let next_before = self.next_user;
        self.next_user = next_after;
        proof {
            assert(self@ == (StoreView { next_user: next_after as int, ..before }));
            assert(self@.well_formed());
        }
        match self.transact(&terms, instant) {
            Ok(report) => Ok(FormsReport { report, tempids, labels, entids }),
            Err(error) => {
                self.next_user = next_before;
                proof {
                    assert(self@ == before);
                    assert(terms_refused(
                        before,
                        all,
                        instant,
                        marks,
                        entids@,
                        next_after as int,
                        error,
                    ));
                    assert(refused_with_classes(before, all, instant, marks, error));
                }
                Err(error)
            },
        }
    }
}

/// Whether a datom of the attribute is among the datoms.
fn any_datom_of(datoms: &Vec<Datom>, a: Entid) -> (r: bool)
    ensures
        r == has_datoms_of(datoms_view(datoms@), a),
{
    let mut i: usize = 0;
    while i < datoms.len()
        invariant
            i <= datoms@.len(),
            forall|k: int| 0 <= k < i ==> (#[trigger] datoms_view(datoms@)[k]).a != a,
        decreases datoms@.len() - i,
    {
        if datoms[i].a == a {
            assert(datoms_view(datoms@)[i as int].a == a);
            return true;
        }
        i += 1;
    }
    false
}

/// Whether two datoms of the attribute are about the same entity, if
/// `by_entity`, or else hold the same value.
fn any_pair_of(datoms: &Vec<Datom>, a: Entid, by_entity: bool) -> (r: bool)
    ensures
        r == (if by_entity {
            holds_several(datoms_view(datoms@), a)
        } else {
            shares_value(datoms_view(datoms@), a)
        }),
{
    let ghost all = datoms_view(datoms@);
    let mut j: usize = 0;
    while j < datoms.len()
        invariant
            j <= datoms@.len(),
            all == datoms_view(datoms@),
            forall|x: int, y: int|
                0 <= x < y < j && (#[trigger] all[x]).a == a && (#[trigger] all[y]).a == a ==> (
                if by_entity {
                    all[x].e != all[y].e
                } else {
                    all[x].v != all[y].v
                }),
        decreases datoms@.len() - j,
    {
        if datoms[j].a == a {
            let mut i: usize = 0;
            while i < j
                invariant
                    i <= j < datoms@.len(),
                    all == datoms_view(datoms@),
                    all[j as int].a == a,
                    forall|x: int|
                        0 <= x < i && (#[trigger] all[x]).a == a ==> (if by_entity {
                            all[x].e != all[j as int].e
                        } else {
                            all[x].v != all[j as int].v
                        }),
                decreases j - i,
            {
                let same = datoms[i].a == a && (if by_entity {
                    datoms[i].e == datoms[j].e
                } else {
                    datoms[i].v.same_as(&datoms[j].v)
                });
                if same {
                    proof {
                        assert(all[i as int].a == a && all[j as int].a == a);
                    }
                    return true;
                }
                i += 1;
            }
        }
        j += 1;
    }
    false
}

/// Why a text was not transacted.
#[derive(Debug, PartialEq, Eq)]
pub enum TransactionError {
    /// The text is no transaction.
    Parse(ParseError),
    /// A form cannot be applied.
    Normalize(NormalizeError),
    /// The transaction is refused.
    Db(DbErrorKind),
    /// The datoms that the transaction would write cannot change the
    /// schema as they ask.
    Schema(SchemaFault),
}

impl TransactionError {
    /// Whether an error of the store's boundary is what this error is
    /// shown as: a text that is no transaction is an error of the
    /// reader, and every other refusal is an error of the datom store.
    pub open spec fn shown_as(self, e: MentatError) -> bool {
        match self {
            TransactionError::Parse(p) => e.kind == MentatErrorKind::EdnParseError(p),
            TransactionError::Normalize(n) => e.kind == MentatErrorKind::DbError(
                DbError { kind: n.as_db_error() },
            ),
            TransactionError::Db(k) => e.kind == MentatErrorKind::DbError(DbError { kind: k }),
            TransactionError::Schema(f) => e.kind matches MentatErrorKind::DbError(d)
                && f.shown_as(d.kind),
        }
    }

    /// The error as an error of the store's boundary; see
    /// [`TransactionError::shown_as`].
    pub fn error(self) -> (r: MentatError)
        ensures
            self.shown_as(r),
    {
        match self {
            TransactionError::Parse(p) => MentatError { kind: MentatErrorKind::EdnParseError(p) },
            TransactionError::Normalize(n) => MentatError {
                kind: MentatErrorKind::DbError(DbError { kind: n.error() }),
            },
            TransactionError::Db(k) => MentatError {
                kind: MentatErrorKind::DbError(DbError { kind: k }),
            },
            TransactionError::Schema(f) => MentatError {
                kind: MentatErrorKind::DbError(DbError { kind: f.error() }),
            },
        }
    }
}

impl Store {
    /// Gives an attribute another definition, if it can take it; see
    /// [`alteration_fits`]. An attribute that is not defined is unknown;
    /// any other definition that does not fit is a conflict.
    pub fn alter_attribute(&mut self, a: Entid, attribute: Attribute) -> (r: Result<
        (),
        DbErrorKind,
    >)
        requires
            old(self)@.well_formed(),
        ensures
            final(self)@.well_formed(),
            match r {
                Ok(_) => alteration_fits(old(self)@, a, attribute) && final(self)@ == (StoreView {
                    schema: old(self)@.schema.with_altered(a as int, attribute),
                    ..old(self)@
                }),
                Err(error) => !alteration_fits(old(self)@, a, attribute) && final(self)@ == old(
                    self,
                )@ && error == (if old(self)@.schema.attribute_of(a as int) is None {
                    DbErrorKind::UnknownAttribute(a)
                } else {
                    DbErrorKind::SchemaAlterationConflict(a)
                }),
            },
    {
        let current = match self.schema.attribute_for_entid(a) {
            Some(current) => current,
            None => {
                return Err(DbErrorKind::UnknownAttribute(a));
            },
        };
        if attribute.validate().is_err() || a == DB_TX_INSTANT {
            return Err(DbErrorKind::SchemaAlterationConflict(a));
        }
        if attribute.value_type != current.value_type && any_datom_of(&self.datoms, a) {
            return Err(DbErrorKind::SchemaAlterationConflict(a));
        }
        if !attribute.multival && any_pair_of(&self.datoms, a, true) {
            return Err(DbErrorKind::SchemaAlterationConflict(a));
        }
        if attribute.unique.is_some() && any_pair_of(&self.datoms, a, false) {
            return Err(DbErrorKind::SchemaAlterationConflict(a));
        }
        proof {
            lemma_alteration_keeps_order(self@, a, attribute);
        }
        let altered = self.schema.alter_attribute(a, attribute);
        assert(altered);
        Ok(())
    }

    /// Defines an attribute under a new ident, at a fresh entity id of the
    /// partition of users, and returns the entity id. The definition must
    /// keep the rules for attributes, the ident must name no entity yet,
    /// and the partition must have an id left.
    pub fn define_attribute(&mut self, ident: Keyword, attribute: Attribute) -> (r: Result<
        Entid,
        DbErrorKind,
    >)
        requires
            old(self)@.well_formed(),
        ensures
            final(self)@.well_formed(),
            match r {
                Ok(a) => {
                    &&& attribute.valid()
                    &&& old(self)@.schema.entid_of(ident@) is None
                    &&& a == old(self)@.next_user
                    &&& final(self)@ == (StoreView {
                        schema: old(self)@.schema.with_attribute(a as int, attribute).with_ident(
                            ident@,
                            a as int,
                        ),
                        next_user: old(self)@.next_user + 1,
                        ..old(self)@
                    })
                },
                Err(error) => {
                    &&& final(self)@ == old(self)@
                    &&& error == (if !attribute.valid() {
                        DbErrorKind::InvalidAttribute
                    } else if old(self)@.schema.entid_of(ident@) is Some {
                        DbErrorKind::UniquenessConflict(
                            crate::db::DB_IDENT,
                            old(self)@.schema.entid_of(ident@)->0 as Entid,
                        )
                    } else {
                        DbErrorKind::NoRoomInPartition
                    })
                    &&& !attribute.valid() || old(self)@.schema.entid_of(ident@) is Some || old(
                        self,
                    )@.next_user == TX0
                },
            },
    {
        if attribute.validate().is_err() {
            return Err(DbErrorKind::InvalidAttribute);
        }
        match self.schema.get_entid(&ident) {
            Some(e) => {
                return Err(DbErrorKind::UniquenessConflict(crate::db::DB_IDENT, e));
            },
            None => {},
        }
        if self.next_user >= TX0 {
            return Err(DbErrorKind::NoRoomInPartition);
        }
        let a = self.next_user;
        let ghost before = self@;
        proof {
            // The fresh id defines no attribute and has no ident.
            crate::schema::lemma_entid_position(before.schema.entids, a as int);
            crate::schema::lemma_entid_position(before.schema.ident_entids, a as int);
            if before.schema.attribute_of(a as int) is Some {
                let i = crate::schema::entid_position(before.schema.entids, a as int);
                assert(before.schema.entids[i] == a);
            }
            if before.schema.ident_of(a as int) is Some {
                let i = crate::schema::entid_position(before.schema.ident_entids, a as int);
                assert(before.schema.ident_entids[i] == a);
            }
        }
        self.next_user = a + 1;
        proof {
            lemma_definition_keeps_order(self@, a, attribute);
        }
        let defined = self.schema.define_attribute(a, attribute);
        assert(defined);
        let named = self.schema.add_ident(ident, a);
        assert(named);
        proof {
            let after = self@;
            assert(after.schema.attribute_of(DB_TX_INSTANT as int)
                == before.schema.attribute_of(DB_TX_INSTANT as int)) by {
                crate::schema::lemma_added_keeps_others(
                    before.schema,
                    a as int,
                    attribute,
                    DB_TX_INSTANT as int,
                );
            }
            assert forall|i: int| 0 <= i < after.datoms.len() implies after.schema.attribute_of(
                (#[trigger] after.datoms[i]).a as int,
            ) == before.schema.attribute_of(after.datoms[i].a as int) by {
                crate::schema::lemma_added_keeps_others(
                    before.schema,
                    a as int,
                    attribute,
                    after.datoms[i].a as int,
                );
            }
        }
        Ok(a)
    }

    /// Defines an attribute at an entity id that is allocated and defines
    /// none yet, if the definition keeps the rules for attributes. Says
    /// whether it did.
    pub fn install_attribute(&mut self, a: Entid, attribute: Attribute) -> (r: bool)
        requires
            old(self)@.well_formed(),
        ensures
            final(self)@.well_formed(),
            r == (attribute.valid() && old(self)@.schema.attribute_of(a as int) is None
                && is_allocated(a, old(self)@.next_user, old(self)@.next_tx)),
            r ==> final(self)@ == (StoreView {
                schema: old(self)@.schema.with_attribute(a as int, attribute),
                ..old(self)@
            }),
            !r ==> final(self)@ == old(self)@,
    {
        let allocated = (0 <= a && a < USER0) || (USER0 <= a && a < self.next_user) || (TX0 <= a
            && a < self.next_tx);
        if !allocated || attribute.validate().is_err() || self.schema.attribute_for_entid(
            a,
        ).is_some() {
            return false;
        }
        proof {
            lemma_definition_keeps_order(self@, a, attribute);
        }
        let defined = self.schema.define_attribute(a, attribute);
        assert(defined);
        true
    }

    /// Lets an ident name an entity that is allocated, if the ident names
    /// none yet and the entity has no ident yet. Says whether it did.
    pub fn name_entity(&mut self, ident: Keyword, e: Entid) -> (r: bool)
        requires
            old(self)@.well_formed(),
        ensures
            final(self)@.well_formed(),
            r == (old(self)@.schema.entid_of(ident@) is None && old(self)@.schema.ident_of(
                e as int,
            ) is None && is_allocated(e, old(self)@.next_user, old(self)@.next_tx)),
            r ==> final(self)@ == (StoreView {
                schema: old(self)@.schema.with_ident(ident@, e as int),
                ..old(self)@
            }),
            !r ==> final(self)@ == old(self)@,
    {
        let allocated = (0 <= e && e < USER0) || (USER0 <= e && e < self.next_user) || (TX0 <= e
            && e < self.next_tx);
        if !allocated {
            return false;
        }
        let ghost before = self@;
        let named = self.schema.add_ident(ident, e);
        proof {
            if named {
                let after = self@;
                assert(after.schema.entids == before.schema.entids);
                assert(after.schema.attributes == before.schema.attributes);
                assert forall|b: int| after.schema.attribute_of(b) == before.schema.attribute_of(
                    b,
                ) by {}
                assert forall|i: int| 0 <= i < after.schema.ident_entids.len() implies (0
                    <= #[trigger] after.schema.ident_entids[i] < after.next_user) || (TX0
                    <= after.schema.ident_entids[i] < after.next_tx) by {
                    if i < before.schema.ident_entids.len() {
                        assert(after.schema.ident_entids[i] == before.schema.ident_entids[i]);
                    }
                }
            }
        }
        named
    }

    /// Takes an ident away, so that it names no entity. Says whether the
    /// ident named one.
    pub fn unname_entity(&mut self, ident: &Keyword) -> (r: bool)
        requires
            old(self)@.well_formed(),
        ensures
            final(self)@.well_formed(),
            r == (old(self)@.schema.entid_of(ident@) is Some),
            final(self)@ == (StoreView {
                schema: old(self)@.schema.without_ident(ident@),
                ..old(self)@
            }),
    {
        let ghost before = self@;
        let named = self.schema.remove_ident(ident);
        proof {
            let after = self@;
            assert(after.schema.entids == before.schema.entids);
            assert(after.schema.attributes == before.schema.attributes);
            assert forall|b: int| after.schema.attribute_of(b) == before.schema.attribute_of(
                b,
            ) by {}
            if named {
                let at = crate::schema::ident_position(before.schema.idents, ident@);
                assert forall|i: int| 0 <= i < after.schema.ident_entids.len() implies (0
                    <= #[trigger] after.schema.ident_entids[i] < after.next_user) || (TX0
                    <= after.schema.ident_entids[i] < after.next_tx) by {
                    if i < at {
                        assert(after.schema.ident_entids[i] == before.schema.ident_entids[i]);
                    } else {
                        assert(after.schema.ident_entids[i] == before.schema.ident_entids[i + 1]);
                    }
                }
            }
        }
        named
    }

    /// A store that holds what this one holds.
    pub fn copy(&self) -> (r: Store)
        ensures
            r@ == self@,
    {
        Store {
            schema: self.schema.copy(),
            datoms: copy_datoms(&self.datoms),
            next_user: self.next_user,
            next_tx: self.next_tx,
        }
    }

    /// Transacts forms as they were read: turns them into forms that can
    /// be applied, for the transaction that comes next, and transacts
    /// those; see [`normalized`] and [`forms_transacted`].
    pub fn transact_entities(&mut self, entities: &Vec<Entity>, instant: i64) -> (r: Result<
        FormsReport,
        TransactionError,
    >)
        requires
            old(self)@.well_formed(),
        ensures
            final(self)@.well_formed(),
            match r {
                Ok(done) => {
                    &&& done.report.tx_instant == instant
                    &&& normalized(
                        old(self)@.schema,
                        old(self)@.datoms,
                        old(self)@.next_tx as Entid,
                        entities_view(entities@),
                    ) matches Ok(forms)
                    &&& names_view(done.tempids@) == mentioned(forms)
                    &&& forms_transacted(
                        old(self)@,
                        forms,
                        instant,
                        labels_view(done.labels@),
                        done.entids@,
                        final(self)@,
                        done.report@,
                    )
                },
                Err(TransactionError::Normalize(error)) => {
                    &&& final(self)@ == old(self)@
                    &&& normalized(
                        old(self)@.schema,
                        old(self)@.datoms,
                        old(self)@.next_tx as Entid,
                        entities_view(entities@),
                    ) == Err::<Seq<FormView>, (int, NormalizeErrorKind)>(
                        (error.index as int, error.kind),
                    )
                },
                Err(TransactionError::Db(error)) => {
                    &&& final(self)@ == old(self)@
                    &&& normalized(
                        old(self)@.schema,
                        old(self)@.datoms,
                        old(self)@.next_tx as Entid,
                        entities_view(entities@),
                    ) matches Ok(forms)
                    &&& forms_refused(old(self)@, forms, instant, error)
                },
                Err(TransactionError::Parse(_)) => false,
                Err(TransactionError::Schema(_)) => false,
            },
    {
        let forms = match normalize(&self.schema, &self.datoms, self.next_tx, entities) {
            Ok(forms) => forms,
            Err(error) => {
                return Err(TransactionError::Normalize(error));
            },
        };
        match self.transact_forms(&forms, instant) {
            Ok(done) => Ok(done),
            Err(error) => Err(TransactionError::Db(error)),
        }
    }

    /// Transacts the text of a transaction: reads it, and transacts the
    /// forms that were read.
    pub fn transact_text(&mut self, text: &str, instant: i64) -> (r: Result<
        FormsReport,
        TransactionError,
    >)
        requires
            old(self)@.well_formed(),
        ensures
            final(self)@.well_formed(),
            match r {
                Ok(done) => {
                    &&& done.report.tx_instant == instant
                    &&& whole_entities(text@) matches Some(read)
                    &&& normalized(
                        old(self)@.schema,
                        old(self)@.datoms,
                        old(self)@.next_tx as Entid,
                        read,
                    ) matches Ok(forms)
                    &&& names_view(done.tempids@) == mentioned(forms)
                    &&& forms_transacted(
                        old(self)@,
                        forms,
                        instant,
                        labels_view(done.labels@),
                        done.entids@,
                        final(self)@,
                        done.report@,
                    )
                },
                Err(TransactionError::Parse(error)) => {
                    &&& final(self)@ == old(self)@
                    &&& whole_entities(text@) is None
                    &&& error.location == location_at(text@, entities_stop(text@))
                },
                Err(TransactionError::Normalize(error)) => {
                    &&& final(self)@ == old(self)@
                    &&& whole_entities(text@) matches Some(read)
                    &&& normalized(
                        old(self)@.schema,
                        old(self)@.datoms,
                        old(self)@.next_tx as Entid,
                        read,
                    ) == Err::<Seq<FormView>, (int, NormalizeErrorKind)>(
                        (error.index as int, error.kind),
                    )
                },
                Err(TransactionError::Db(error)) => {
                    &&& final(self)@ == old(self)@
                    &&& whole_entities(text@) matches Some(read)
                    &&& normalized(
                        old(self)@.schema,
                        old(self)@.datoms,
                        old(self)@.next_tx as Entid,
                        read,
                    ) matches Ok(forms)
                    &&& forms_refused(old(self)@, forms, instant, error)
                },
                Err(TransactionError::Schema(_)) => false,
            },
    {
        match entities(text) {
            Ok(read) => self.transact_entities(&read, instant),
            Err(error) => Err(TransactionError::Parse(error)),
        }
    }
}

} // verus!
