//! A cache of one attribute: the entities and values of its live datoms,
//! kept up to date from the datoms that transactions write.
//!
//! The datoms that a transaction writes say how the live datoms change:
//! an assertion joins them at the end, a retraction takes the fact away.
//! A cache that replays what was written therefore holds what a scan of
//! the live datoms would find.

use vstd::prelude::*;
use crate::db::{
    Entid, TX0,
};
use crate::schema::SchemaView;
use crate::transactor::laws::{
    in_order, lemma_applied_keeps_order,
};
use crate::transactor::model::{
    applied, applied_all, first_match, instant_datom, lemma_first_match, probe_matches, transacted,
    with_instant, DatomView, ProbeKind, Step, StoreView, TermView,
};
use crate::transactor::store::{datoms_view, Datom, Store};
use crate::values::{TypedValue, TypedValueView};

verus! {

/// The live datoms after a datom is written: an assertion joins them at
/// the end; a retraction takes the first datom of its entity, attribute
/// and value away.
pub open spec fn replayed_one(datoms: Seq<DatomView>, w: DatomView) -> Seq<DatomView> {
    if w.added {
        datoms.push(w)
    } else {
        let at = first_match(datoms, ProbeKind::Fact, w.e, w.a, w.v);
        if at < datoms.len() {
            datoms.remove(at)
        } else {
            datoms
        }
    }
}

/// The live datoms after datoms are written, one after the other.
pub open spec fn replayed(datoms: Seq<DatomView>, written: Seq<DatomView>) -> Seq<DatomView>
    decreases written.len(),
{
    if written.len() == 0 {
        datoms
    } else {
        replayed(replayed_one(datoms, written[0]), written.drop_first())
    }
}

/// Datoms that are written after others are replayed after them.
pub proof fn lemma_replayed_concat(
    datoms: Seq<DatomView>,
    first: Seq<DatomView>,
    second: Seq<DatomView>,
)
    ensures
        replayed(datoms, first + second) == replayed(replayed(datoms, first), second),
    decreases first.len(),
{
    if first.len() == 0 {
        assert(first + second =~= second);
    } else {
        assert((first + second)[0] == first[0]);
        assert((first + second).drop_first() =~= first.drop_first() + second);
        lemma_replayed_concat(replayed_one(datoms, first[0]), first.drop_first(), second);
    }
}

/// What one term writes says how it changes the live datoms.
pub proof fn lemma_applied_replays(
    schema: SchemaView,
    datoms: Seq<DatomView>,
    next_user: int,
    tx: Entid,
    term: TermView,
)
    requires
        in_order(schema, datoms, next_user, tx),
        applied(schema, datoms, next_user, tx, term) is Ok,
    ensures
        replayed(datoms, applied(schema, datoms, next_user, tx, term)->Ok_0.written) == applied(
            schema,
            datoms,
            next_user,
            tx,
            term,
        )->Ok_0.datoms,
{
    let step = applied(schema, datoms, next_user, tx, term)->Ok_0;
    let written = step.written;
    let none = Seq::<DatomView>::empty();
    assert(replayed(datoms, none) == datoms);
    if written.len() == 1 {
        let w = written[0];
        assert(written.drop_first() =~= none);
        assert(replayed(replayed_one(datoms, w), none) == replayed_one(datoms, w));
        if !w.added {
            lemma_first_match(datoms, ProbeKind::Fact, term.e, term.a, term.v);
        }
    } else if written.len() == 2 {
        let old = written[0];
        let new = written[1];
        let current = first_match(datoms, ProbeKind::Current, term.e, term.a, term.v);
        lemma_first_match(datoms, ProbeKind::Current, term.e, term.a, term.v);
        lemma_fact_is_first(schema, datoms, next_user, tx, current);
        let rest = replayed_one(datoms, old);
        assert(rest == datoms.remove(current));
        assert(written.drop_first()[0] == new);
        assert(written.drop_first().drop_first() =~= none);
        assert(replayed(replayed_one(rest, new), none) == replayed_one(rest, new));
        assert(replayed(rest, written.drop_first()) == rest.push(new));
    }
}

/// A live datom is the first datom of its entity, attribute and value.
pub proof fn lemma_fact_is_first(
    schema: SchemaView,
    datoms: Seq<DatomView>,
    next_user: int,
    tx: Entid,
    k: int,
)
    requires
        in_order(schema, datoms, next_user, tx),
        0 <= k < datoms.len(),
    ensures
        first_match(datoms, ProbeKind::Fact, datoms[k].e, datoms[k].a, datoms[k].v) == k,
{
    let d = datoms[k];
    lemma_first_match(datoms, ProbeKind::Fact, d.e, d.a, d.v);
    let at = first_match(datoms, ProbeKind::Fact, d.e, d.a, d.v);
    assert(probe_matches(ProbeKind::Fact, datoms[k], d.e, d.a, d.v));
    if at < k {
        assert(datoms[at].e == datoms[k].e && datoms[at].a == datoms[k].a);
    }
}

/// What terms write says how they change the live datoms: where the
/// datoms written so far lead from `base` to the live datoms, all that is
/// written leads from `base` to the live datoms after the terms.
pub proof fn lemma_applied_all_replays(
    schema: SchemaView,
    so_far: Step,
    next_user: int,
    tx: Entid,
    terms: Seq<TermView>,
    base: Seq<DatomView>,
)
    requires
        in_order(schema, so_far.datoms, next_user, tx),
        TX0 <= tx,
        forall|i: int| 0 <= i < so_far.written.len() ==> (#[trigger] so_far.written[i]).tx == tx,
        replayed(base, so_far.written) == so_far.datoms,
        applied_all(schema, so_far, next_user, tx, terms) is Ok,
    ensures
        replayed(base, applied_all(schema, so_far, next_user, tx, terms)->Ok_0.written)
            == applied_all(schema, so_far, next_user, tx, terms)->Ok_0.datoms,
    decreases terms.len(),
{
    if terms.len() > 0 {
        lemma_applied_keeps_order(schema, so_far.datoms, next_user, tx, terms[0]);
        lemma_applied_replays(schema, so_far.datoms, next_user, tx, terms[0]);
        let step = applied(schema, so_far.datoms, next_user, tx, terms[0])->Ok_0;
        let next = Step { datoms: step.datoms, written: so_far.written + step.written };
        lemma_replayed_concat(base, so_far.written, step.written);
        assert forall|i: int| 0 <= i < next.written.len() implies (#[trigger] next.written[i]).tx
            == tx by {
            if i >= so_far.written.len() {
                assert(next.written[i] == step.written[i - so_far.written.len()]);
            }
        }
        lemma_applied_all_replays(schema, next, next_user, tx, terms.drop_first(), base);
    }
}

/// The datoms that a transaction reports say how it changes the live
/// datoms: replayed on the live datoms before the transaction, they give
/// the live datoms after it.
pub proof fn lemma_report_replays(store: StoreView, terms: Seq<TermView>, instant: i64)
    requires
        store.well_formed(),
        transacted(store, terms, instant) is Ok,
    ensures
        replayed(store.datoms, transacted(store, terms, instant)->Ok_0.1.datoms) == transacted(
            store,
            terms,
            instant,
        )->Ok_0.0.datoms,
{
    let tx = store.next_tx as Entid;
    let none = Seq::<DatomView>::empty();
    let start = Step { datoms: store.datoms, written: none };
    assert(replayed(store.datoms, none) == store.datoms);
    lemma_applied_all_replays(store.schema, start, store.next_user, tx, terms, store.datoms);
    let step = applied_all(store.schema, start, store.next_user, tx, terms)->Ok_0;
    let done = with_instant(step, tx, instant);
    if done != step {
        let new = instant_datom(tx, instant);
        assert(step.written.push(new) =~= step.written + seq![new]);
        lemma_replayed_concat(store.datoms, step.written, seq![new]);
        assert(seq![new].drop_first() =~= none);
        assert(replayed(replayed_one(step.datoms, new), none) == replayed_one(step.datoms, new));
        assert(replayed(step.datoms, seq![new]) == step.datoms.push(new));
    }
}

/// The entities and values of the datoms of an attribute, in the order
/// of the datoms.
pub open spec fn held(datoms: Seq<DatomView>, a: Entid) -> Seq<(Entid, TypedValueView)>
    decreases datoms.len(),
{
    if datoms.len() == 0 {
        Seq::empty()
    } else if datoms[0].a == a {
        seq![(datoms[0].e, datoms[0].v)] + held(datoms.drop_first(), a)
    } else {
        held(datoms.drop_first(), a)
    }
}

/// The position of the first pair of an entity and a value, or the
/// number of pairs if there is none.
pub open spec fn pair_position(pairs: Seq<(Entid, TypedValueView)>, e: Entid, v: TypedValueView)
    -> int
    decreases pairs.len(),
{
    if pairs.len() == 0 || pairs[0] == (e, v) {
        0
    } else {
        1 + pair_position(pairs.drop_first(), e, v)
    }
}

/// The pairs of an attribute after a datom is written: an assertion of
/// the attribute adds its pair at the end, a retraction takes the first
/// such pair away, and a datom of another attribute changes nothing.
pub open spec fn pairs_after(pairs: Seq<(Entid, TypedValueView)>, w: DatomView, a: Entid) -> Seq<
    (Entid, TypedValueView),
> {
    if w.a != a {
        pairs
    } else if w.added {
        pairs.push((w.e, w.v))
    } else {
        let at = pair_position(pairs, w.e, w.v);
        if 0 <= at < pairs.len() {
            pairs.remove(at)
        } else {
            pairs
        }
    }
}

/// The pairs of an attribute after datoms are written, one after the
/// other.
pub open spec fn pairs_replayed(
    pairs: Seq<(Entid, TypedValueView)>,
    written: Seq<DatomView>,
    a: Entid,
) -> Seq<(Entid, TypedValueView)>
    decreases written.len(),
{
    if written.len() == 0 {
        pairs
    } else {
        pairs_replayed(pairs_after(pairs, written[0], a), written.drop_first(), a)
    }
}

/// The position of a pair is a position, or the number of pairs.
pub proof fn lemma_pair_position(pairs: Seq<(Entid, TypedValueView)>, e: Entid, v: TypedValueView)
    ensures
        0 <= pair_position(pairs, e, v) <= pairs.len(),
        pair_position(pairs, e, v) < pairs.len() ==> pairs[pair_position(pairs, e, v)] == (e, v),
    decreases pairs.len(),
{
    if pairs.len() > 0 && pairs[0] != (e, v) {
        lemma_pair_position(pairs.drop_first(), e, v);
    }
}

/// The pairs of datoms with one more at the end.
pub proof fn lemma_held_push(datoms: Seq<DatomView>, d: DatomView, a: Entid)
    ensures
        held(datoms.push(d), a) == (if d.a == a {
            held(datoms, a).push((d.e, d.v))
        } else {
            held(datoms, a)
        }),
    decreases datoms.len(),
{
    let all = datoms.push(d);
    let none = Seq::<DatomView>::empty();
    if datoms.len() == 0 {
        assert(all.drop_first() =~= none);
        assert(held(none, a) =~= Seq::empty());
        assert(held(all, a) =~= (if d.a == a {
            held(datoms, a).push((d.e, d.v))
        } else {
            held(datoms, a)
        }));
    } else {
        assert(all[0] == datoms[0]);
        assert(all.drop_first() =~= datoms.drop_first().push(d));
        lemma_held_push(datoms.drop_first(), d, a);
        assert(held(all, a) =~= (if d.a == a {
            held(datoms, a).push((d.e, d.v))
        } else {
            held(datoms, a)
        }));
    }
}

/// The pairs of datoms without the first datom of an entity, an
/// attribute and a value: the pairs without the first pair of the entity
/// and the value, for that attribute; the same pairs, for another.
pub proof fn lemma_held_remove(
    datoms: Seq<DatomView>,
    e: Entid,
    b: Entid,
    v: TypedValueView,
    a: Entid,
)
    ensures
        ({
            let at = first_match(datoms, ProbeKind::Fact, e, b, v);
            let pos = pair_position(held(datoms, a), e, v);
            &&& at < datoms.len() && b != a ==> held(datoms.remove(at), a) == held(datoms, a)
            &&& at < datoms.len() && b == a ==> 0 <= pos < held(datoms, a).len() && held(
                datoms.remove(at),
                a,
            ) == held(datoms, a).remove(pos)
            &&& at >= datoms.len() && b == a ==> pos >= held(datoms, a).len()
        }),
    decreases datoms.len(),
{
    let at = first_match(datoms, ProbeKind::Fact, e, b, v);
    lemma_first_match(datoms, ProbeKind::Fact, e, b, v);
    lemma_pair_position(held(datoms, a), e, v);
    if datoms.len() > 0 {
        let rest = datoms.drop_first();
        if probe_matches(ProbeKind::Fact, datoms[0], e, b, v) {
            assert(datoms.remove(0) =~= rest);
            if b == a {
                assert(held(datoms, a).remove(0) =~= held(rest, a));
            }
        } else {
            lemma_held_remove(rest, e, b, v, a);
            lemma_pair_position(held(rest, a), e, v);
            let inner = first_match(rest, ProbeKind::Fact, e, b, v);
            let below = pair_position(held(rest, a), e, v);
            if at < datoms.len() {
                let left = datoms.remove(at);
                assert(left[0] == datoms[0]);
                assert(left.drop_first() =~= rest.remove(inner));
                if datoms[0].a == a {
                    let head = seq![(datoms[0].e, datoms[0].v)];
                    if b == a {
                        assert(held(datoms, a)[0] == head[0]);
                        assert(held(datoms, a).drop_first() =~= held(rest, a));
                        assert(held(datoms, a).remove(1 + below) =~= head + held(rest, a).remove(
                            below,
                        ));
                    }
                }
            } else if b == a && datoms[0].a == a {
                let head = seq![(datoms[0].e, datoms[0].v)];
                assert(held(datoms, a)[0] == head[0]);
                assert(held(datoms, a).drop_first() =~= held(rest, a));
            }
        }
    }
}

/// The pairs of an attribute after a datom is written are the pairs of
/// the live datoms after it is written.
pub proof fn lemma_held_after(datoms: Seq<DatomView>, w: DatomView, a: Entid)
    ensures
        held(replayed_one(datoms, w), a) == pairs_after(held(datoms, a), w, a),
{
    if w.added {
        lemma_held_push(datoms, w, a);
    } else {
        lemma_held_remove(datoms, w.e, w.a, w.v, a);
        lemma_pair_position(held(datoms, a), w.e, w.v);
    }
}

/// The pairs of an attribute after datoms are written are the pairs of
/// the live datoms after they are written.
pub proof fn lemma_held_replayed(datoms: Seq<DatomView>, written: Seq<DatomView>, a: Entid)
    ensures
        held(replayed(datoms, written), a) == pairs_replayed(held(datoms, a), written, a),
    decreases written.len(),
{
    if written.len() > 0 {
        lemma_held_after(datoms, written[0], a);
        lemma_held_replayed(replayed_one(datoms, written[0]), written.drop_first(), a);
    }
}

/// A cache that holds the pairs of an attribute before a transaction,
/// and replays the datoms that the transaction reports, holds the pairs
/// of the attribute after the transaction.
pub proof fn lemma_cache_coherent(
    store: StoreView,
    terms: Seq<TermView>,
    instant: i64,
    a: Entid,
)
    requires
        store.well_formed(),
        transacted(store, terms, instant) is Ok,
    ensures
        pairs_replayed(
            held(store.datoms, a),
            transacted(store, terms, instant)->Ok_0.1.datoms,
            a,
        ) == held(transacted(store, terms, instant)->Ok_0.0.datoms, a),
{
    lemma_report_replays(store, terms, instant);
    lemma_held_replayed(store.datoms, transacted(store, terms, instant)->Ok_0.1.datoms, a);
}

/// The values that an entity has among the pairs, in their order.
pub open spec fn values_held(pairs: Seq<(Entid, TypedValueView)>, e: Entid) -> Seq<TypedValueView>
    decreases pairs.len(),
{
    if pairs.len() == 0 {
        Seq::empty()
    } else if pairs.last().0 == e {
        values_held(pairs.drop_last(), e).push(pairs.last().1)
    } else {
        values_held(pairs.drop_last(), e)
    }
}

/// The entities that have a value among the pairs, in their order.
pub open spec fn entities_held(pairs: Seq<(Entid, TypedValueView)>, v: TypedValueView) -> Seq<
    Entid,
>
    decreases pairs.len(),
{
    if pairs.len() == 0 {
        Seq::empty()
    } else if pairs.last().1 == v {
        entities_held(pairs.drop_last(), v).push(pairs.last().0)
    } else {
        entities_held(pairs.drop_last(), v)
    }
}

/// A cache of one attribute: the entities and values of its datoms.
#[derive(Debug, PartialEq, Eq)]
pub struct AttributeCache {
    attribute: Entid,
    pairs: Vec<(Entid, TypedValue)>,
}

/// What an [`AttributeCache`] holds.
pub struct CacheView {
    pub attribute: Entid,
    pub pairs: Seq<(Entid, TypedValueView)>,
}

/// What pairs of entities and values hold.
pub open spec fn pairs_view(pairs: Seq<(Entid, TypedValue)>) -> Seq<(Entid, TypedValueView)> {
    Seq::new(pairs.len(), |i: int| (pairs[i].0, pairs[i].1@))
}

impl View for AttributeCache {
    type V = CacheView;

    closed spec fn view(&self) -> CacheView {
        CacheView { attribute: self.attribute, pairs: pairs_view(self.pairs@) }
    }
}

impl AttributeCache {
    /// The cache of an attribute, filled from the datoms; see [`held`].
    pub fn fill(attribute: Entid, datoms: &Vec<Datom>) -> (r: Self)
        ensures
            r@.attribute == attribute,
            r@.pairs == held(datoms_view(datoms@), attribute),
    {
        let ghost all = datoms_view(datoms@);
        let mut pairs: Vec<(Entid, TypedValue)> = Vec::new();
        let mut i: usize = 0;
        proof {
            assert(all.skip(0) =~= all);
            assert(pairs_view(pairs@) + held(all, attribute) =~= held(all, attribute));
        }
        while i < datoms.len()
            invariant
                i <= datoms@.len(),
                all == datoms_view(datoms@),
                pairs_view(pairs@) + held(all.skip(i as int), attribute) == held(all, attribute),
            decreases datoms@.len() - i,
        {
            let ghost before = pairs_view(pairs@);
            proof {
                assert(all.skip(i as int)[0] == datoms@[i as int]@);
                assert(all.skip(i as int).drop_first() =~= all.skip(i + 1));
            }
            if datoms[i].a == attribute {
                pairs.push((datoms[i].e, datoms[i].v.clone()));
                proof {
                    let pair = (datoms@[i as int].e, datoms@[i as int].v@);
                    assert(pairs_view(pairs@) =~= before.push(pair));
                    assert(before.push(pair) + held(all.skip(i + 1), attribute) =~= before + (
                    seq![pair] + held(all.skip(i + 1), attribute)));
                }
            }
            i += 1;
        }
        proof {
            assert(all.skip(i as int) =~= Seq::empty());
            assert(pairs_view(pairs@) + Seq::<(Entid, TypedValueView)>::empty() =~= pairs_view(
                pairs@,
            ));
        }
        AttributeCache { attribute, pairs }
    }

    /// The attribute of the cache.
    pub fn attribute(&self) -> (r: Entid)
        ensures
            r == self@.attribute,
    {
        self.attribute
    }

    /// The number of pairs in the cache.
    pub fn len(&self) -> (r: usize)
        ensures
            r == self@.pairs.len(),
    {
        self.pairs.len()
    }

    fn find(&self, e: Entid, v: &TypedValue) -> (r: usize)
        ensures
            r == pair_position(self@.pairs, e, v@),
            r <= self@.pairs.len(),
    {
        let ghost all = self@.pairs;
        let mut i: usize = 0;
        proof {
            assert(all.skip(0) =~= all);
        }
        while i < self.pairs.len()
            invariant
                i <= self.pairs@.len(),
                all == self@.pairs,
                pair_position(all, e, v@) == i + pair_position(all.skip(i as int), e, v@),
            decreases self.pairs@.len() - i,
        {
            proof {
                assert(all.skip(i as int)[0] == all[i as int]);
                assert(all.skip(i as int).drop_first() =~= all.skip(i + 1));
            }
            if self.pairs[i].0 == e && self.pairs[i].1.same_as(v) {
                return i;
            }
            i += 1;
        }
        proof {
            assert(all.skip(i as int) =~= Seq::empty());
        }
        i
    }

    /// Brings the cache up to date with the datoms that a transaction
    /// wrote; see [`pairs_replayed`] and [`lemma_cache_coherent`].
    pub fn replay(&mut self, written: &Vec<Datom>)
        ensures
            final(self)@.attribute == old(self)@.attribute,
            final(self)@.pairs == pairs_replayed(
                old(self)@.pairs,
                datoms_view(written@),
                old(self)@.attribute,
            ),
    {
        let ghost all = datoms_view(written@);
        let ghost a = self@.attribute;
        let mut i: usize = 0;
        proof {
            assert(all.skip(0) =~= all);
        }
        while i < written.len()
            invariant
                i <= written@.len(),
                all == datoms_view(written@),
                self@.attribute == a,
                a == old(self)@.attribute,
                pairs_replayed(old(self)@.pairs, all, a) == pairs_replayed(
                    self@.pairs,
                    all.skip(i as int),
                    a,
                ),
            decreases written@.len() - i,
        {
            let ghost before = self@.pairs;
            proof {
                assert(all.skip(i as int)[0] == written@[i as int]@);
                assert(all.skip(i as int).drop_first() =~= all.skip(i + 1));
            }
            if written[i].a == self.attribute {
                if written[i].added {
                    self.pairs.push((written[i].e, written[i].v.clone()));
                    proof {
                        assert(self@.pairs =~= before.push(
                            (written@[i as int].e, written@[i as int].v@),
                        ));
                    }
                } else {
                    let at = self.find(written[i].e, &written[i].v);
                    if at < self.pairs.len() {
                        self.pairs.remove(at);
                        proof {
                            assert(self@.pairs =~= before.remove(at as int));
                        }
                    }
                }
            }
            i += 1;
        }
        proof {
            assert(all.skip(i as int) =~= Seq::empty());
        }
    }

    /// The values that an entity has, in their order.
    pub fn values_of(&self, e: Entid) -> (r: Vec<TypedValue>)
        ensures
            Seq::new(r@.len(), |i: int| r@[i]@) == values_held(self@.pairs, e),
    {
        let ghost all = self@.pairs;
        let mut out: Vec<TypedValue> = Vec::new();
        let mut i: usize = 0;
        proof {
            assert(all.take(0) =~= Seq::empty());
            assert(Seq::new(out@.len(), |i: int| out@[i]@) =~= values_held(all.take(0), e));
        }
        while i < self.pairs.len()
            invariant
                i <= self.pairs@.len(),
                all == self@.pairs,
                Seq::new(out@.len(), |i: int| out@[i]@) == values_held(all.take(i as int), e),
            decreases self.pairs@.len() - i,
        {
            let ghost before = Seq::new(out@.len(), |i: int| out@[i]@);
            proof {
                assert(all.take(i + 1).drop_last() =~= all.take(i as int));
                assert(all.take(i + 1).last() == all[i as int]);
            }
            if self.pairs[i].0 == e {
                out.push(self.pairs[i].1.clone());
                proof {
                    assert(Seq::new(out@.len(), |i: int| out@[i]@) =~= before.push(
                        all[i as int].1,
                    ));
                }
            }
            i += 1;
        }
        proof {
            assert(all.take(i as int) =~= all);
        }
        out
    }

    /// The entities that have a value, in their order.
    pub fn entities_with(&self, v: &TypedValue) -> (r: Vec<Entid>)
        ensures
            r@ == entities_held(self@.pairs, v@),
    {
        let ghost all = self@.pairs;
        let mut out: Vec<Entid> = Vec::new();
        let mut i: usize = 0;
        proof {
            assert(all.take(0) =~= Seq::empty());
            assert(out@ =~= entities_held(all.take(0), v@));
        }
        while i < self.pairs.len()
            invariant
                i <= self.pairs@.len(),
                all == self@.pairs,
                out@ == entities_held(all.take(i as int), v@),
            decreases self.pairs@.len() - i,
        {
            proof {
                assert(all.take(i + 1).drop_last() =~= all.take(i as int));
                assert(all.take(i + 1).last() == all[i as int]);
            }
            if self.pairs[i].1.same_as(v) {
                out.push(self.pairs[i].0);
            }
            i += 1;
        }
        proof {
            assert(all.take(i as int) =~= all);
        }
        out
    }
}

impl Store {
    /// A cache of an attribute, filled from the live datoms of the
    /// store.
    pub fn cache(&self, attribute: Entid) -> (r: AttributeCache)
        ensures
            r@.attribute == attribute,
            r@.pairs == held(self@.datoms, attribute),
    {
        AttributeCache::fill(attribute, self.datoms())
    }
}

} // verus!
