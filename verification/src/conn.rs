//! A connection: a store with its observers and its caches.
//!
//! A transaction of a connection changes the store, then brings the
//! caches up to date, then tells the observers. A transaction that is
//! refused changes nothing and tells nobody.

use vstd::prelude::*;
use crate::db::{Entid, TX0, USER0};
use crate::errors::MentatError;
use crate::query::answers::{answered, query_fault, values_view, QueryOutput};
use crate::query::run::QueryError;
use crate::edn::query_grammar::{query_stop, whole_query};
use crate::edn::source::location_at;
use crate::transactor::bootstrap::{core_datoms, core_schema_view};
use crate::transactor::cache::{
    held, lemma_cache_coherent, pairs_replayed, AttributeCache, CacheView,
};
use crate::transactor::classes::{labels_view, names_view};
use crate::transactor::model::{instant_datom, DatomView, ReportView, StoreView};
use crate::transactor::observer::{
    deliveries_view, dispatched, observer_position, Delivery, ObserversView, TxObservationService,
};
use crate::transactor::reflect::{text_committed, text_refused};
use crate::transactor::store::{forms_transacted, FormsReport, Store, TransactionError};
use crate::transactor::upsert::{mentioned, resolved_all, FormView};
use crate::values::TypedValue;

verus! {

/// What each of several caches holds.
pub open spec fn caches_view(caches: Seq<AttributeCache>) -> Seq<CacheView> {
    Seq::new(caches.len(), |i: int| caches[i]@)
}

/// Whether each cache holds the pairs of its attribute among the datoms.
pub open spec fn caches_coherent(caches: Seq<CacheView>, datoms: Seq<DatomView>) -> bool {
    forall|i: int|
        0 <= i < caches.len() ==> (#[trigger] caches[i]).pairs == held(datoms, caches[i].attribute)
}

/// The position of the cache of an attribute, or the number of caches if
/// there is none.
pub open spec fn cache_position(caches: Seq<CacheView>, a: Entid) -> int
    decreases caches.len(),
{
    if caches.len() == 0 || caches[0].attribute == a {
        0
    } else {
        1 + cache_position(caches.drop_first(), a)
    }
}

/// The caches of the same attributes, filled from the datoms.
pub open spec fn refilled(caches: Seq<CacheView>, datoms: Seq<DatomView>) -> Seq<CacheView> {
    Seq::new(
        caches.len(),
        |i: int|
            CacheView { attribute: caches[i].attribute, pairs: held(datoms, caches[i].attribute) },
    )
}

/// A connection: a store, the observers of its transactions, and the
/// caches of some of its attributes.
#[derive(Debug)]
pub struct Conn {
    store: Store,
    observers: TxObservationService,
    caches: Vec<AttributeCache>,
}

/// What a [`Conn`] holds.
pub struct ConnView {
    pub store: StoreView,
    pub observers: ObserversView,
    pub caches: Seq<CacheView>,
}

impl ConnView {
    /// The connection is in order: its store is, and its caches hold
    /// what is live.
    pub open spec fn well_formed(self) -> bool {
        self.store.well_formed() && caches_coherent(self.caches, self.store.datoms)
    }
}

impl View for Conn {
    type V = ConnView;

    closed spec fn view(&self) -> ConnView {
        ConnView {
            store: self.store@,
            observers: self.observers@,
            caches: caches_view(self.caches@),
        }
    }
}

/// What a transaction of a connection gives: what it reports, and what
/// the observers were told of it.
#[derive(Debug, PartialEq, Eq)]
pub struct Committed {
    pub report: FormsReport,
    pub deliveries: Vec<Delivery>,
}

/// A transaction of forms leaves the pairs of an attribute as a replay of
/// what it reports says.
pub proof fn lemma_forms_cache_coherent(
    before: StoreView,
    forms: Seq<FormView>,
    instant: i64,
    labels: Seq<int>,
    entids: Seq<Entid>,
    after: StoreView,
    report: ReportView,
    a: Entid,
)
    requires
        before.well_formed(),
        forms_transacted(before, forms, instant, labels, entids, after, report),
    ensures
        pairs_replayed(held(before.datoms, a), report.datoms, a) == held(after.datoms, a),
{
    let started = StoreView { next_user: after.next_user, ..before };
    assert(started.well_formed());
    lemma_cache_coherent(
        started,
        resolved_all(forms, mentioned(forms), entids),
        instant,
        a,
    );
}

impl Conn {
    /// A connection to a store as it is first opened, without observers
    /// and caches: the schema is the core schema, and the first
    /// transaction has written the datoms of the core schema and its
    /// instant; see [`Store::open`].
    pub fn open(instant: i64) -> (r: Conn)
        ensures
            r@.well_formed(),
            r@ == (ConnView {
                store: StoreView {
                    schema: core_schema_view(),
                    datoms: core_datoms().push(instant_datom(TX0, instant)),
                    next_user: USER0 as int,
                    next_tx: TX0 + 1,
                },
                observers: Seq::empty(),
                caches: Seq::empty(),
            }),
    {
        let (store, _) = Store::open(instant);
        let r = Conn { store, observers: TxObservationService::new(), caches: Vec::new() };
        proof {
            assert(r@.caches =~= Seq::empty());
        }
        r
    }

    /// The store of the connection.
    pub fn store(&self) -> (r: &Store)
        ensures
            r@ == self@.store,
    {
        &self.store
    }

    /// Registers an observer under a key, to be told of the datoms of
    /// the given attributes; see [`TxObservationService::register`].
    pub fn register_observer(&mut self, key: String, attributes: Vec<Entid>)
        ensures
            final(self)@.store == old(self)@.store,
            final(self)@.caches == old(self)@.caches,
            final(self)@.observers == (if observer_position(old(self)@.observers, key@) < old(
                self,
            )@.observers.len() {
                old(self)@.observers.update(
                    observer_position(old(self)@.observers, key@),
                    (key@, attributes@),
                )
            } else {
                old(self)@.observers.push((key@, attributes@))
            }),
    {
        self.observers.register(key, attributes);
    }

    /// Takes the observer with the key away.
    pub fn unregister_observer(&mut self, key: &str)
        ensures
            final(self)@.store == old(self)@.store,
            final(self)@.caches == old(self)@.caches,
            final(self)@.observers == (if observer_position(old(self)@.observers, key@) < old(
                self,
            )@.observers.len() {
                old(self)@.observers.remove(observer_position(old(self)@.observers, key@))
            } else {
                old(self)@.observers
            }),
    {
        self.observers.deregister(key);
    }

    fn find_cache(&self, attribute: Entid) -> (r: usize)
        ensures
            r == cache_position(self@.caches, attribute),
            r <= self@.caches.len(),
    {
        let ghost all = self@.caches;
        let mut i: usize = 0;
        proof {
            assert(all.skip(0) =~= all);
        }
        while i < self.caches.len()
            invariant
                i <= self.caches@.len(),
                all == self@.caches,
                cache_position(all, attribute) == i + cache_position(
                    all.skip(i as int),
                    attribute,
                ),
            decreases self.caches@.len() - i,
        {
            proof {
                assert(all.skip(i as int)[0] == self.caches@[i as int]@);
                assert(all.skip(i as int).drop_first() =~= all.skip(i + 1));
            }
            if self.caches[i].attribute() == attribute {
                return i;
            }
            i += 1;
        }
        proof {
            assert(all.skip(i as int) =~= Seq::empty());
        }
        i
    }

    /// Caches an attribute: fills a cache of it from the live datoms,
    /// unless it is cached already.
    pub fn cache_attribute(&mut self, attribute: Entid)
        requires
            old(self)@.well_formed(),
        ensures
            final(self)@.well_formed(),
            final(self)@.store == old(self)@.store,
            final(self)@.observers == old(self)@.observers,
            final(self)@.caches == (if cache_position(old(self)@.caches, attribute) < old(
                self,
            )@.caches.len() {
                old(self)@.caches
            } else {
                old(self)@.caches.push(
                    CacheView { attribute, pairs: held(old(self)@.store.datoms, attribute) },
                )
            }),
    {
        if self.find_cache(attribute) < self.caches.len() {
            return ;
        }
        let ghost before = self@.caches;
        let cache = self.store.cache(attribute);
        let ghost added = cache@;
        self.caches.push(cache);
        proof {
            assert(self@.caches =~= before.push(added));
            assert forall|i: int| 0 <= i < self@.caches.len() implies (
            #[trigger] self@.caches[i]).pairs == held(
                self@.store.datoms,
                self@.caches[i].attribute,
            ) by {
                if i < before.len() {
                    assert(self@.caches[i] == before[i]);
                }
            }
        }
    }

    /// Stops caching an attribute.
    pub fn uncache_attribute(&mut self, attribute: Entid)
        requires
            old(self)@.well_formed(),
        ensures
            final(self)@.well_formed(),
            final(self)@.store == old(self)@.store,
            final(self)@.observers == old(self)@.observers,
            final(self)@.caches == (if cache_position(old(self)@.caches, attribute) < old(
                self,
            )@.caches.len() {
                old(self)@.caches.remove(cache_position(old(self)@.caches, attribute))
            } else {
                old(self)@.caches
            }),
    {
        let at = self.find_cache(attribute);
        if at < self.caches.len() {
            let ghost before = self@.caches;
            self.caches.remove(at);
            proof {
                assert(self@.caches =~= before.remove(at as int));
                assert forall|i: int| 0 <= i < self@.caches.len() implies (
                #[trigger] self@.caches[i]).pairs == held(
                    self@.store.datoms,
                    self@.caches[i].attribute,
                ) by {
                    if i < at {
                        assert(self@.caches[i] == before[i]);
                    } else {
                        assert(self@.caches[i] == before[i + 1]);
                    }
                }
            }
        }
    }

    /// The cache of an attribute, if the attribute is cached.
    pub fn cached(&self, attribute: Entid) -> (r: Option<&AttributeCache>)
        requires
            self@.well_formed(),
        ensures
            match r {
                Some(cache) => cache@.attribute == attribute && cache@.pairs == held(
                    self@.store.datoms,
                    attribute,
                ) && cache_position(self@.caches, attribute) < self@.caches.len(),
                None => cache_position(self@.caches, attribute) >= self@.caches.len(),
            },
    {
        let at = self.find_cache(attribute);
        if at < self.caches.len() {
            proof {
                lemma_cache_position(self@.caches, attribute);
                assert(self@.caches[at as int] == self.caches@[at as int]@);
            }
            Some(&self.caches[at])
        } else {
            None
        }
    }

    /// Transacts the text of a transaction; see [`Store::commit_text`].
    /// The caches then hold what is live, and the observers are told of
    /// what was written about their attributes. A transaction that is
    /// refused leaves the connection as it was.
    pub fn transact(&mut self, text: &str, instant: i64) -> (r: Result<Committed, TransactionError>)
        requires
            old(self)@.well_formed(),
        ensures
            final(self)@.well_formed(),
            final(self)@.observers == old(self)@.observers,
            match r {
                Ok(done) => {
                    &&& done.report.report.tx_instant == instant
                    &&& text_committed(
                        old(self)@.store,
                        text@,
                        instant,
                        names_view(done.report.tempids@),
                        labels_view(done.report.labels@),
                        done.report.entids@,
                        done.report.report@,
                        final(self)@.store,
                    )
                    &&& final(self)@.caches == refilled(
                        old(self)@.caches,
                        final(self)@.store.datoms,
                    )
                    &&& deliveries_view(done.deliveries@) == dispatched(
                        old(self)@.observers,
                        done.report.report@,
                    )
                },
                Err(error) => final(self)@ == old(self)@ && text_refused(
                    old(self)@.store,
                    text@,
                    instant,
                    error,
                ),
            },
    {
        let ghost before = self@;
        let report = match self.store.commit_text(text, instant) {
            Ok(report) => report,
            Err(error) => {
                return Err(error);
            },
        };
        let ghost after = self.store@;
        let ghost written = report.report@.datoms;
        let mut stale: Vec<AttributeCache> = Vec::new();
        core::mem::swap(&mut stale, &mut self.caches);
        let ghost all = before.caches;
        let mut fresh: Vec<AttributeCache> = Vec::new();
        proof {
            assert(caches_view(stale@) =~= all);
            assert(all.skip(0) =~= all);
            assert(caches_view(fresh@) =~= refilled(all, after.datoms).take(0));
        }
        while stale.len() > 0
            invariant
                fresh@.len() + stale@.len() == all.len(),
                caches_view(stale@) == all.skip(fresh@.len() as int),
                caches_view(fresh@) == refilled(all, after.datoms).take(fresh@.len() as int),
                before.well_formed(),
                all == before.caches,
                written == report.report@.datoms,
                report.report.tx_instant == instant,
                text_committed(
                    before.store,
                    text@,
                    instant,
                    names_view(report.tempids@),
                    labels_view(report.labels@),
                    report.entids@,
                    report.report@,
                    after,
                ),
            decreases stale@.len(),
        {
            let ghost at = fresh@.len() as int;
            let ghost done = caches_view(fresh@);
            let ghost rest = caches_view(stale@);
            let ghost waiting = stale@;
            let mut cache = stale.remove(0);
            proof {
                assert(cache@ == rest[0]);
                assert(rest[0] == all[at]);
                assert forall|i: int| 0 <= i < stale@.len() implies caches_view(stale@)[i]
                    == all.skip(at + 1)[i] by {
                    assert(stale@[i] == waiting[i + 1]);
                    assert(rest[i + 1] == waiting[i + 1]@);
                    assert(rest[i + 1] == all.skip(at)[i + 1]);
                }
                assert(caches_view(stale@) =~= all.skip(at + 1));
                let forms = crate::transactor::reflect::committed_forms(
                    before.store,
                    crate::edn::tx_grammar::whole_entities(text@)->0,
                )->Ok_0;
                lemma_forms_cache_coherent(
                    before.store,
                    forms,
                    instant,
                    labels_view(report.labels@),
                    report.entids@,
                    StoreView { schema: before.store.schema, ..after },
                    report.report@,
                    cache@.attribute,
                );
            }
            cache.replay(&report.report.datoms);
            let ghost now = cache@;
            fresh.push(cache);
            proof {
                assert(now == refilled(all, after.datoms)[at]);
                assert(caches_view(fresh@) =~= done.push(now));
                assert(done.push(now) =~= refilled(all, after.datoms).take(at + 1));
            }
        }
        proof {
            assert(refilled(all, after.datoms).take(fresh@.len() as int) =~= refilled(
                all,
                after.datoms,
            ));
        }
        self.caches = fresh;
        let deliveries = self.observers.dispatch(&report.report);
        Ok(Committed { report, deliveries })
    }

    /// Transacts the text of a transaction as [`Conn::transact`] does,
    /// and shows a refusal as an error of the store's boundary; see
    /// [`TransactionError::shown_as`].
    pub fn commit(&mut self, text: &str, instant: i64) -> (r: Result<Committed, MentatError>)
        requires
            old(self)@.well_formed(),
        ensures
            final(self)@.well_formed(),
            final(self)@.observers == old(self)@.observers,
            match r {
                Ok(done) => {
                    &&& done.report.report.tx_instant == instant
                    &&& text_committed(
                        old(self)@.store,
                        text@,
                        instant,
                        names_view(done.report.tempids@),
                        labels_view(done.report.labels@),
                        done.report.entids@,
                        done.report.report@,
                        final(self)@.store,
                    )
                    &&& final(self)@.caches == refilled(
                        old(self)@.caches,
                        final(self)@.store.datoms,
                    )
                    &&& deliveries_view(done.deliveries@) == dispatched(
                        old(self)@.observers,
                        done.report.report@,
                    )
                },
                Err(error) => final(self)@ == old(self)@ && exists|refusal: TransactionError|
                    #[trigger] text_refused(old(self)@.store, text@, instant, refusal)
                        && refusal.shown_as(error),
            },
    {
        match self.transact(text, instant) {
            Ok(done) => Ok(done),
            Err(refusal) => {
                let ghost told = refusal;
                let error = refusal.error();
                proof {
                    assert(text_refused(old(self)@.store, text@, instant, told) && told.shown_as(
                        error,
                    ));
                }
                Err(error)
            },
        }
    }

    /// The answer to the text of a query over the live datoms of the
    /// store; see [`Store::query_text`].
    pub fn query(&self, text: &str, inputs: &Vec<TypedValue>) -> (r: Result<QueryOutput, QueryError>)
        requires
            self@.well_formed(),
        ensures
            match r {
                Ok(out) => {
                    &&& whole_query(text@) matches Some(q)
                    &&& query_fault(q, inputs@.len()) is None
                    &&& out@ == answered(
                        self@.store.schema,
                        self@.store.datoms,
                        q,
                        values_view(inputs@),
                    )
                },
                Err(QueryError::Parse(error)) => whole_query(text@) is None && error.location
                    == location_at(text@, query_stop(text@)),
                Err(QueryError::Fault(fault)) => {
                    &&& whole_query(text@) matches Some(q)
                    &&& query_fault(q, inputs@.len()) == Some(fault)
                },
            },
    {
        self.store.query_text(text, inputs)
    }
}

/// The position of a cache is a position, or the number of caches; the
/// cache at it is of the attribute.
pub proof fn lemma_cache_position(caches: Seq<CacheView>, a: Entid)
    ensures
        0 <= cache_position(caches, a) <= caches.len(),
        cache_position(caches, a) < caches.len() ==> caches[cache_position(caches, a)].attribute
            == a,
    decreases caches.len(),
{
    if caches.len() > 0 && caches[0].attribute != a {
        lemma_cache_position(caches.drop_first(), a);
    }
}

} // verus!
