//! Observers of transactions: each is told of the datoms of a transaction
//! that are about the attributes it watches.

use vstd::prelude::*;
use vstd::string::StringExecFns;
use crate::db::Entid;
use crate::text::str_equal;
use crate::transactor::model::{DatomView, ReportView};
use crate::transactor::store::{datoms_view, Datom, TxReport};

verus! {

/// The datoms that are about one of the attributes, in their order.
pub open spec fn watched(datoms: Seq<DatomView>, attributes: Seq<Entid>) -> Seq<DatomView>
    decreases datoms.len(),
{
    if datoms.len() == 0 {
        Seq::empty()
    } else if attributes.contains(datoms.last().a) {
        watched(datoms.drop_last(), attributes).push(datoms.last())
    } else {
        watched(datoms.drop_last(), attributes)
    }
}

/// The watched datoms of two lists in a row are the watched datoms of the
/// first and those of the second in a row.
pub proof fn lemma_watched_concat(a: Seq<DatomView>, b: Seq<DatomView>, attributes: Seq<Entid>)
    ensures
        watched(a + b, attributes) == watched(a, attributes) + watched(b, attributes),
    decreases b.len(),
{
    if b.len() == 0 {
        assert(a + b =~= a);
        assert(watched(a, attributes) + watched(b, attributes) =~= watched(a, attributes));
    } else {
        assert((a + b).drop_last() =~= a + b.drop_last());
        assert((a + b).last() == b.last());
        lemma_watched_concat(a, b.drop_last(), attributes);
        assert(watched(a + b, attributes) =~= watched(a, attributes) + watched(b, attributes));
    }
}

/// Every watched datom is one of the datoms and is about a watched
/// attribute, and there are no more watched datoms than datoms.
pub proof fn lemma_watched_are_about(datoms: Seq<DatomView>, attributes: Seq<Entid>)
    ensures
        watched(datoms, attributes).len() <= datoms.len(),
        forall|i: int|
            0 <= i < watched(datoms, attributes).len() ==> attributes.contains(
                (#[trigger] watched(datoms, attributes)[i]).a,
            ) && datoms.contains(watched(datoms, attributes)[i]),
    decreases datoms.len(),
{
    if datoms.len() > 0 {
        lemma_watched_are_about(datoms.drop_last(), attributes);
        let rest = watched(datoms.drop_last(), attributes);
        assert forall|i: int| 0 <= i < watched(datoms, attributes).len() implies attributes.contains(
            (#[trigger] watched(datoms, attributes)[i]).a,
        ) && datoms.contains(watched(datoms, attributes)[i]) by {
            if i < rest.len() {
                let k = choose|k: int|
                    0 <= k < datoms.drop_last().len() && datoms.drop_last()[k] == rest[i];
                assert(datoms[k] == rest[i]);
            } else {
                assert(datoms[datoms.len() - 1] == datoms.last());
            }
        }
    }
}

/// What a sequence of transactions wrote, in their order.
pub open spec fn written_by(reports: Seq<ReportView>) -> Seq<DatomView>
    decreases reports.len(),
{
    if reports.len() == 0 {
        Seq::empty()
    } else {
        written_by(reports.drop_last()) + reports.last().datoms
    }
}

/// What an observer of the attributes is told over a sequence of
/// transactions, in their order.
pub open spec fn told_over(reports: Seq<ReportView>, attributes: Seq<Entid>) -> Seq<DatomView>
    decreases reports.len(),
{
    if reports.len() == 0 {
        Seq::empty()
    } else {
        told_over(reports.drop_last(), attributes) + watched(reports.last().datoms, attributes)
    }
}

/// An observer is told exactly of the datoms about its attributes: what
/// it is told over a sequence of transactions is what those transactions
/// wrote about its attributes, in the order in which they wrote it, each
/// datom as often as it was written.
pub proof fn lemma_observer_exactness(reports: Seq<ReportView>, attributes: Seq<Entid>)
    ensures
        told_over(reports, attributes) == watched(written_by(reports), attributes),
    decreases reports.len(),
{
    if reports.len() > 0 {
        lemma_observer_exactness(reports.drop_last(), attributes);
        lemma_watched_concat(
            written_by(reports.drop_last()),
            reports.last().datoms,
            attributes,
        );
    }
}

/// An observer: its key, and the attributes it watches.
#[derive(Debug, PartialEq, Eq)]
pub struct TxObserver {
    pub key: String,
    pub attributes: Vec<Entid>,
}

/// What an observer is told of one transaction.
#[derive(Debug, PartialEq, Eq)]
pub struct Delivery {
    pub key: String,
    pub tx_id: Entid,
    pub datoms: Vec<Datom>,
}

/// What a [`Delivery`] holds.
pub struct DeliveryView {
    pub key: Seq<char>,
    pub tx_id: Entid,
    pub datoms: Seq<DatomView>,
}

impl View for Delivery {
    type V = DeliveryView;

    open spec fn view(&self) -> DeliveryView {
        DeliveryView { key: self.key@, tx_id: self.tx_id, datoms: datoms_view(self.datoms@) }
    }
}

/// The views of a list of deliveries.
pub open spec fn deliveries_view(deliveries: Seq<Delivery>) -> Seq<DeliveryView> {
    Seq::new(deliveries.len(), |i: int| deliveries[i]@)
}

/// The observers with their keys and attributes.
pub type ObserversView = Seq<(Seq<char>, Seq<Entid>)>;

/// What the observers are told of a transaction: each observer that
/// watches an attribute of one of its datoms is told of the datoms about
/// its attributes, in the order of the observers.
pub open spec fn dispatched(observers: ObserversView, report: ReportView) -> Seq<DeliveryView>
    decreases observers.len(),
{
    if observers.len() == 0 {
        Seq::empty()
    } else {
        let before = dispatched(observers.drop_last(), report);
        let datoms = watched(report.datoms, observers.last().1);
        if datoms.len() > 0 {
            before.push(DeliveryView { key: observers.last().0, tx_id: report.tx_id, datoms })
        } else {
            before
        }
    }
}

/// The position of the observer with the key, or the number of observers
/// if there is none.
pub open spec fn observer_position(observers: ObserversView, key: Seq<char>) -> int
    decreases observers.len(),
{
    if observers.len() == 0 || observers[0].0 == key {
        0
    } else {
        1 + observer_position(observers.drop_first(), key)
    }
}

/// Whether a number is among the attributes.
fn watches(attributes: &Vec<Entid>, a: Entid) -> (r: bool)
    ensures
        r == attributes@.contains(a),
{
    let mut i: usize = 0;
    while i < attributes.len()
        invariant
            i <= attributes@.len(),
            forall|j: int| 0 <= j < i ==> attributes@[j] != a,
        decreases attributes@.len() - i,
    {
        if attributes[i] == a {
            return true;
        }
        i += 1;
    }
    false
}

/// The datoms that are about one of the attributes, in their order.
pub fn watched_datoms(datoms: &Vec<Datom>, attributes: &Vec<Entid>) -> (r: Vec<Datom>)
    ensures
        datoms_view(r@) == watched(datoms_view(datoms@), attributes@),
{
    let ghost all = datoms_view(datoms@);
    let mut out: Vec<Datom> = Vec::new();
    let mut i: usize = 0;
    proof {
        assert(all.take(0) =~= Seq::empty());
        assert(datoms_view(out@) =~= Seq::empty());
    }
    while i < datoms.len()
        invariant
            i <= datoms@.len(),
            all == datoms_view(datoms@),
            datoms_view(out@) == watched(all.take(i as int), attributes@),
        decreases datoms@.len() - i,
    {
        let ghost before = datoms_view(out@);
        proof {
            assert(all.take(i + 1).drop_last() =~= all.take(i as int));
            assert(all.take(i + 1).last() == datoms@[i as int]@);
        }
        if watches(attributes, datoms[i].a) {
            out.push(datoms[i].clone());
            proof {
                assert(datoms_view(out@) =~= before.push(datoms@[i as int]@));
            }
        }
        i += 1;
    }
    proof {
        assert(all.take(i as int) =~= all);
    }
    out
}

/// The observers of a store, each under its key.
#[derive(Debug, PartialEq, Eq)]
pub struct TxObservationService {
    observers: Vec<TxObserver>,
}

impl View for TxObservationService {
    type V = ObserversView;

    closed spec fn view(&self) -> ObserversView {
        Seq::new(
            self.observers@.len(),
            |i: int| (self.observers@[i].key@, self.observers@[i].attributes@),
        )
    }
}

impl TxObservationService {
    /// A service without observers.
    pub fn new() -> (r: Self)
        ensures
            r@ == Seq::<(Seq<char>, Seq<Entid>)>::empty(),
    {
        let r = TxObservationService { observers: Vec::new() };
        assert(r@ =~= Seq::empty());
        r
    }

    fn find(&self, key: &str) -> (r: usize)
        ensures
            r == observer_position(self@, key@),
            r <= self@.len(),
    {
        let ghost all = self@;
        let mut i: usize = 0;
        proof {
            assert(all.skip(0) =~= all);
        }
        while i < self.observers.len()
            invariant
                i <= self.observers@.len(),
                all == self@,
                observer_position(all, key@) == i + observer_position(all.skip(i as int), key@),
            decreases self.observers@.len() - i,
        {
            proof {
                assert(all.skip(i as int)[0] == all[i as int]);
                assert(all.skip(i as int).drop_first() =~= all.skip(i + 1));
            }
            if str_equal(self.observers[i].key.as_str(), key) {
                return i;
            }
            i += 1;
        }
        proof {
            assert(all.skip(i as int) =~= Seq::empty());
        }
        i
    }

    /// Whether an observer is registered under the key.
    pub fn is_registered(&self, key: &str) -> (r: bool)
        ensures
            r == (observer_position(self@, key@) < self@.len()),
    {
        self.find(key) < self.observers.len()
    }

    /// Whether no observer is registered.
    pub fn is_empty(&self) -> (r: bool)
        ensures
            r == (self@.len() == 0),
    {
        self.observers.len() == 0
    }

    /// Registers an observer of the attributes under the key. An
    /// observer that was registered under the key gives way to it, at the
    /// same place among the observers.
    pub fn register(&mut self, key: String, attributes: Vec<Entid>)
        ensures
            final(self)@ == (if observer_position(old(self)@, key@) < old(self)@.len() {
                old(self)@.update(observer_position(old(self)@, key@), (key@, attributes@))
            } else {
                old(self)@.push((key@, attributes@))
            }),
    {
        let i = self.find(key.as_str());
        let ghost pair = (key@, attributes@);
        if i < self.observers.len() {
            self.observers.set(i, TxObserver { key, attributes });
            proof {
                assert(self@ =~= old(self)@.update(i as int, pair));
            }
        } else {
            self.observers.push(TxObserver { key, attributes });
            proof {
                assert(self@ =~= old(self)@.push(pair));
            }
        }
    }

    /// Takes away the observer that is registered under the key, if there
    /// is one.
    pub fn deregister(&mut self, key: &str)
        ensures
            final(self)@ == (if observer_position(old(self)@, key@) < old(self)@.len() {
                old(self)@.remove(observer_position(old(self)@, key@))
            } else {
                old(self)@
            }),
    {
        let i = self.find(key);
        if i < self.observers.len() {
            self.observers.remove(i);
            proof {
                assert(self@ =~= old(self)@.remove(i as int));
            }
        }
    }

    /// What the observers are to be told of a transaction; see
    /// [`dispatched`].
    pub fn dispatch(&self, report: &TxReport) -> (r: Vec<Delivery>)
        ensures
            deliveries_view(r@) == dispatched(self@, report@),
    {
        let ghost all = self@;
        let mut out: Vec<Delivery> = Vec::new();
        let mut i: usize = 0;
        proof {
            assert(all.take(0) =~= Seq::empty());
            assert(deliveries_view(out@) =~= Seq::empty());
        }
        while i < self.observers.len()
            invariant
                i <= self.observers@.len(),
                all == self@,
                deliveries_view(out@) == dispatched(all.take(i as int), report@),
            decreases self.observers@.len() - i,
        {
            let ghost before = deliveries_view(out@);
            let observer = &self.observers[i];
            proof {
                assert(all.take(i + 1).drop_last() =~= all.take(i as int));
                assert(all.take(i + 1).last() == all[i as int]);
            }
            let datoms = watched_datoms(&report.datoms, &observer.attributes);
            if datoms.len() > 0 {
                let delivery = Delivery { key: observer.key.clone(), tx_id: report.tx_id, datoms };
                let ghost told = delivery@;
                out.push(delivery);
                proof {
                    assert(deliveries_view(out@) =~= before.push(told));
                }
            }
            i += 1;
        }
        proof {
            assert(all.take(i as int) =~= all);
        }
        out
    }
}

} // verus!
