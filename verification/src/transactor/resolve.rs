//! Finding the entities that the temporary ids of a transaction stand
//! for.

use vstd::prelude::*;
use crate::db::{DbErrorKind, Entid, TX0, USER0};
use crate::schema::{Schema, SchemaView};
use crate::transactor::classes::{
    distinct_names, is_upsert, labels_view, owners_fit, value_owners_fit,
};
use crate::transactor::model::{DatomView, ProbeKind};
use crate::transactor::store::{datoms_view, find_datom, terms_view, Datom, Term};
use crate::transactor::upsert::{
    class_conflict, class_finds, forms_view, found_by, is_chain, is_fresh_id, is_found,
    is_upsert_of, labels_are_classes, resolved, resolved_all, shares, stands_for, tempid_position,
    EntityRef, EntityRefView, Form, FormView, ValueRef,
};
use crate::values::TypedValue;

verus! {

/// The temporary id of a form that is about the one at a position is that
/// one.
pub proof fn lemma_owner_is_position(
    forms: Seq<FormView>,
    tempids: Seq<Seq<char>>,
    owner: Seq<Option<usize>>,
    p: int,
    i: int,
)
    requires
        distinct_names(tempids),
        owners_fit(forms, tempids, owner),
        0 <= p < forms.len(),
        0 <= i < tempids.len(),
        forms[p].e == EntityRefView::TempId(tempids[i]),
    ensures
        owner[p] == Some(i as usize),
{
    let o = owner[p]->0 as int;
    if o < i {
        assert(tempids[o] != tempids[i]);
    } else if o > i {
        assert(tempids[i] != tempids[o]);
    }
}

/// All temporary ids of a chain that starts at a mentioned one have the
/// label of that one.
pub proof fn lemma_chain_has_one_label(
    schema: SchemaView,
    forms: Seq<FormView>,
    tempids: Seq<Seq<char>>,
    owner: Seq<Option<usize>>,
    labels: Seq<int>,
    chain: Seq<Seq<char>>,
    i: int,
    k: int,
)
    requires
        distinct_names(tempids),
        owners_fit(forms, tempids, owner),
        labels_are_classes(schema, forms, tempids, labels),
        0 <= i < tempids.len(),
        0 <= k < chain.len(),
        chain[0] == tempids[i],
        forall|m: int|
            0 <= m < chain.len() - 1 ==> shares(schema, forms, #[trigger] chain[m], chain[m + 1]),
    ensures
        exists|j: int| 0 <= j < tempids.len() && #[trigger] tempids[j] == chain[k] && labels[j] == labels[i],
    decreases k,
{
    if k == 0 {
        assert(tempids[i] == chain[0] && labels[i] == labels[i]);
    } else {
        lemma_chain_has_one_label(schema, forms, tempids, owner, labels, chain, i, k - 1);
        let j = choose|j: int|
            0 <= j < tempids.len() && #[trigger] tempids[j] == chain[k - 1] && labels[j]
                == labels[i];
        assert(shares(schema, forms, chain[k - 1], chain[k]));
        let (p, q) = choose|p: int, q: int|
            0 <= p < forms.len() && 0 <= q < forms.len() && is_upsert_of(
                schema,
                #[trigger] forms[p],
                chain[k - 1],
            ) && is_upsert_of(schema, #[trigger] forms[q], chain[k]) && forms[p].a == forms[q].a
                && forms[p].v == forms[q].v;
        let b = owner[q]->0 as int;
        assert(tempids[b] == chain[k]);
        assert(shares(schema, forms, tempids[j], tempids[b]));
        assert(labels[j] == labels[b]);
    }
}

/// The temporary id at the position of a label has that label.
pub proof fn lemma_label_of_label(
    schema: SchemaView,
    forms: Seq<FormView>,
    tempids: Seq<Seq<char>>,
    owner: Seq<Option<usize>>,
    labels: Seq<int>,
    i: int,
)
    requires
        distinct_names(tempids),
        owners_fit(forms, tempids, owner),
        labels_are_classes(schema, forms, tempids, labels),
        0 <= i < tempids.len(),
    ensures
        labels[labels[i]] == labels[i],
{
    let chain = choose|chain: Seq<Seq<char>>|
        is_chain(schema, forms, chain, tempids[i], tempids[labels[i]]);
    lemma_chain_has_one_label(
        schema,
        forms,
        tempids,
        owner,
        labels,
        chain,
        i,
        chain.len() - 1,
    );
    let j = choose|j: int|
        0 <= j < tempids.len() && #[trigger] tempids[j] == chain[chain.len() - 1] && labels[j]
            == labels[i];
    let l = labels[i];
    if j < l {
        assert(tempids[j] != tempids[l]);
    } else if j > l {
        assert(tempids[l] != tempids[j]);
    }
}

/// Whether `targets` holds, for each label, the entity that the upserts
/// of the class find.
pub open spec fn targets_fit(
    schema: SchemaView,
    datoms: Seq<DatomView>,
    forms: Seq<FormView>,
    tempids: Seq<Seq<char>>,
    labels: Seq<int>,
    targets: Seq<Option<Entid>>,
) -> bool {
    &&& targets.len() == tempids.len()
    &&& forall|i: int, e: Entid|
        0 <= i < tempids.len() ==> (#[trigger] class_finds(
            schema,
            datoms,
            forms,
            tempids,
            labels,
            i,
            e,
        ) <==> targets[labels[i]] == Some(e))
}

/// The entity that the upserts of each class find, by label. It is an
/// error if the upserts of a class find two.
#[verifier::rlimit(80)]
pub(crate) fn find_targets(
    schema: &Schema,
    datoms: &Vec<Datom>,
    forms: &Vec<Form>,
    Ghost(tempids): Ghost<Seq<Seq<char>>>,
    owner: &Vec<Option<usize>>,
    labels: &Vec<usize>,
) -> (r: Result<Vec<Option<Entid>>, DbErrorKind>)
    requires
        schema@.well_formed(),
        distinct_names(tempids),
        owners_fit(forms_view(forms@), tempids, owner@),
        labels_are_classes(schema@, forms_view(forms@), tempids, labels_view(labels@)),
    ensures
        match r {
            Ok(targets) => targets_fit(
                schema@,
                datoms_view(datoms@),
                forms_view(forms@),
                tempids,
                labels_view(labels@),
                targets@,
            ),
            Err(error) => error matches DbErrorKind::UpsertConflict(e1, e2) && class_conflict(
                schema@,
                datoms_view(datoms@),
                forms_view(forms@),
                tempids,
                labels_view(labels@),
                e1,
                e2,
            ),
        },
{
    let ghost all = forms_view(forms@);
    let ghost live = datoms_view(datoms@);
    let ghost marks = labels_view(labels@);
    let n = labels.len();
    let mut targets: Vec<Option<Entid>> = Vec::new();
    let mut i: usize = 0;
    while i < n
        invariant
            i <= n,
            targets@.len() == i,
            forall|j: int| 0 <= j < i ==> targets@[j] is None,
        decreases n - i,
    {
        targets.push(None);
        i += 1;
    }
    let mut p: usize = 0;
    while p < forms.len()
        invariant
            p <= forms@.len(),
            n == tempids.len(),
            schema@.well_formed(),
            all == forms_view(forms@),
            live == datoms_view(datoms@),
            marks == labels_view(labels@),
            distinct_names(tempids),
            owners_fit(all, tempids, owner@),
            labels_are_classes(schema@, all, tempids, marks),
            targets@.len() == n,
            forall|l: int, e: Entid|
                0 <= l < n && targets@[l] == Some(e) ==> exists|j: int, q: int|
                    0 <= j < n && 0 <= q < p && #[trigger] marks[j] == l && is_upsert_of(
                        schema@,
                        #[trigger] all[q],
                        tempids[j],
                    ) && found_by(live, all[q]) == Some(e),
            forall|q: int|
                0 <= q < p && (#[trigger] all[q]).e is TempId && is_upsert_of(
                    schema@,
                    all[q],
                    all[q].e->TempId_0,
                ) && found_by(live, all[q]) is Some ==> targets@[marks[owner@[q]->0 as int]]
                    == found_by(live, all[q]),
        decreases forms@.len() - p,
    {
        let ghost before = targets@;
        let form = &forms[p];
        assert(all[p as int] == form@);
        let holder = match (is_upsert(schema, form), &form.v) {
            (true, ValueRef::Value(v)) => find_datom(datoms, ProbeKind::Holder, 0, form.a, v),
            _ => datoms.len(),
        };
        if is_upsert(schema, form) {
            if holder < datoms.len() {
                let e = datoms[holder].e;
                assert(live[holder as int] == datoms@[holder as int]@);
                assert(found_by(live, all[p as int]) == Some(e));
                match owner[p] {
                    Some(i) => {
                        let l = labels[i];
                        assert(marks[i as int] == l);
                        match targets[l] {
                            Some(e0) => {
                                if e0 != e {
                                    proof {
                                        let (j, q) = choose|j: int, q: int|
                                            0 <= j < n && 0 <= q < p && #[trigger] marks[j] == l
                                                && is_upsert_of(
                                                schema@,
                                                #[trigger] all[q],
                                                tempids[j],
                                            ) && found_by(live, all[q]) == Some(e0);
                                        assert(class_finds(
                                            schema@,
                                            live,
                                            all,
                                            tempids,
                                            marks,
                                            i as int,
                                            e0,
                                        ));
                                        assert(marks[i as int] == marks[i as int]);
                                        assert(class_finds(
                                            schema@,
                                            live,
                                            all,
                                            tempids,
                                            marks,
                                            i as int,
                                            e,
                                        ));
                                    }
                                    return Err(DbErrorKind::UpsertConflict(e0, e));
                                }
                            },
                            None => {
                                targets.set(l, Some(e));
                            },
                        }
                        proof {
                            assert forall|l2: int, e2: Entid|
                                0 <= l2 < n && targets@[l2] == Some(e2) implies exists|
                                j: int,
                                q: int,
                            |
                                0 <= j < n && 0 <= q < p + 1 && #[trigger] marks[j] == l2
                                    && is_upsert_of(schema@, #[trigger] all[q], tempids[j])
                                    && found_by(live, all[q]) == Some(e2) by {
                                if before[l2] == Some(e2) {
                                    let (j, q) = choose|j: int, q: int|
                                        0 <= j < n && 0 <= q < p && #[trigger] marks[j] == l2
                                            && is_upsert_of(schema@, #[trigger] all[q], tempids[j])
                                            && found_by(live, all[q]) == Some(e2);
                                    assert(marks[j] == l2 && is_upsert_of(
                                        schema@,
                                        all[q],
                                        tempids[j],
                                    ));
                                } else {
                                    assert(marks[i as int] == l2 && is_upsert_of(
                                        schema@,
                                        all[p as int],
                                        tempids[i as int],
                                    ));
                                }
                            }
                            assert forall|q: int|
                                0 <= q < p + 1 && (#[trigger] all[q]).e is TempId && is_upsert_of(
                                    schema@,
                                    all[q],
                                    all[q].e->TempId_0,
                                ) && found_by(live, all[q]) is Some implies targets@[marks[owner@[q]->0 as int]]
                                == found_by(live, all[q]) by {
                                if q < p {
                                    let l3 = marks[owner@[q]->0 as int];
                                    assert(before[l3] == found_by(live, all[q]));
                                    if l3 == l {
                                        assert(before[l as int] is Some);
                                    }
                                }
                            }
                        }
                    },
                    None => {},
                }
            }
        }
        p += 1;
    }
    proof {
        assert forall|i: int, e: Entid| 0 <= i < tempids.len() implies (#[trigger] class_finds(
            schema@,
            live,
            all,
            tempids,
            marks,
            i,
            e,
        ) <==> targets@[marks[i]] == Some(e)) by {
            if class_finds(schema@, live, all, tempids, marks, i, e) {
                let (j, q) = choose|j: int, q: int|
                    0 <= j < tempids.len() && 0 <= q < all.len() && #[trigger] marks[j] == marks[i]
                        && is_upsert_of(schema@, #[trigger] all[q], tempids[j]) && found_by(
                        live,
                        all[q],
                    ) == Some(e);
                lemma_owner_is_position(all, tempids, owner@, q, j);
            }
            if targets@[marks[i]] == Some(e) {
                let (j, q) = choose|j: int, q: int|
                    0 <= j < n && 0 <= q < p && #[trigger] marks[j] == marks[i] && is_upsert_of(
                        schema@,
                        #[trigger] all[q],
                        tempids[j],
                    ) && found_by(live, all[q]) == Some(e);
                assert(marks[j] == marks[i] && is_upsert_of(schema@, all[q], tempids[j]));
            }
        }
    }
    Ok(targets)
}

/// Whether `id` is the fresh id of one of the first `upto` temporary ids
/// that is the first of its class.
pub open spec fn is_fresh_of(
    marks: Seq<int>,
    targets: Seq<Option<Entid>>,
    entids: Seq<Entid>,
    upto: int,
    id: int,
) -> bool {
    exists|r: int|
        0 <= r < upto && marks[r] == r && targets[r] is None && #[trigger] entids[r] == id
}

/// Gives each temporary id the entity it stands for: the one that the
/// upserts of its class find, or else the fresh id of its class. The
/// classes get their fresh ids in the order of their labels, from
/// `next_user` on. Returns the entity ids and the id after the last fresh
/// one.
pub(crate) fn assign_entids(
    Ghost(schema): Ghost<SchemaView>,
    Ghost(datoms): Ghost<Seq<DatomView>>,
    Ghost(forms): Ghost<Seq<FormView>>,
    Ghost(tempids): Ghost<Seq<Seq<char>>>,
    Ghost(owner): Ghost<Seq<Option<usize>>>,
    labels: &Vec<usize>,
    targets: &Vec<Option<Entid>>,
    next_user: Entid,
) -> (r: (Vec<Entid>, Entid))
    requires
        distinct_names(tempids),
        owners_fit(forms, tempids, owner),
        labels_are_classes(schema, forms, tempids, labels_view(labels@)),
        targets_fit(schema, datoms, forms, tempids, labels_view(labels@), targets@),
        USER0 <= next_user,
        next_user + tempids.len() <= TX0,
    ensures
        stands_for(
            schema,
            datoms,
            forms,
            tempids,
            labels_view(labels@),
            next_user as int,
            r.0@,
            r.1 as int,
        ),
        next_user <= r.1 <= next_user + tempids.len(),
{
    let ghost marks = labels_view(labels@);
    let n = labels.len();
    let mut entids: Vec<Entid> = Vec::new();
    let mut next: Entid = next_user;
    let mut i: usize = 0;
    proof {
        assert forall|j: int| 0 <= j < n implies marks[#[trigger] marks[j]] == marks[j] by {
            lemma_label_of_label(schema, forms, tempids, owner, marks, j);
        }
    }
    while i < n
        invariant
            i <= n,
            n == tempids.len(),
            marks == labels_view(labels@),
            labels@.len() == n,
            targets@.len() == n,
            forall|j: int| 0 <= j < n ==> 0 <= #[trigger] marks[j] <= j,
            forall|j: int| 0 <= j < n ==> marks[#[trigger] marks[j]] == marks[j],
            USER0 <= next_user <= next <= next_user + i,
            next_user + n <= TX0,
            entids@.len() == i,
            forall|j: int|
                0 <= j < i && targets@[marks[j]] is Some ==> Some(#[trigger] entids@[j])
                    == targets@[marks[j]],
            forall|j: int|
                0 <= j < i && targets@[marks[j]] is None ==> (#[trigger] entids@[j])
                    == entids@[marks[j]] && next_user <= entids@[j] < next,
            forall|r1: int, r2: int|
                0 <= r1 < r2 < i && marks[r1] == r1 && marks[r2] == r2 && targets@[r1] is None
                    && targets@[r2] is None ==> (#[trigger] entids@[r1]) < (#[trigger] entids@[r2]),
            forall|id: int|
                next_user <= id < next ==> #[trigger] is_fresh_of(
                    marks,
                    targets@,
                    entids@,
                    i as int,
                    id,
                ),
        decreases n - i,
    {
        let ghost before = entids@;
        let ghost next_before = next;
        let l = labels[i];
        assert(marks[i as int] == l);
        match targets[l] {
            Some(e) => {
                entids.push(e);
            },
            None => {
                if l == i {
                    entids.push(next);
                    next = next + 1;
                } else {
                    let e = entids[l];
                    entids.push(e);
                }
            },
        }
        proof {
            assert forall|j: int| 0 <= j < i implies entids@[j] == before[j] by {}
            assert forall|j: int|
                0 <= j < i + 1 && targets@[marks[j]] is None implies (#[trigger] entids@[j])
                == entids@[marks[j]] && next_user <= entids@[j] < next by {
                if j < i {
                    assert(before[j] == before[marks[j]]);
                } else if l != i {
                    assert(targets@[marks[l as int]] is None);
                    assert(before[l as int] == before[marks[l as int]] && next_user
                        <= before[l as int] < next_before);
                }
            }
            assert forall|r1: int, r2: int|
                0 <= r1 < r2 < i + 1 && marks[r1] == r1 && marks[r2] == r2 && targets@[r1] is None
                    && targets@[r2] is None implies (#[trigger] entids@[r1]) < (
            #[trigger] entids@[r2]) by {
                if r2 == i {
                    assert(targets@[marks[r1]] is None);
                    assert(before[r1] < next_before);
                } else {
                    assert(before[r1] < before[r2]);
                }
            }
            assert forall|id: int| next_user <= id < next implies #[trigger] is_fresh_of(
                marks,
                targets@,
                entids@,
                i + 1,
                id,
            ) by {
                if id < next_before {
                    assert(is_fresh_of(marks, targets@, before, i as int, id));
                    let r = choose|r: int|
                        0 <= r < i && marks[r] == r && targets@[r] is None && #[trigger] before[r]
                            == id;
                    assert(entids@[r] == id);
                } else {
                    assert(entids@[i as int] == id);
                }
            }
        }
        i += 1;
    }
    proof {
        let out = entids@;
        assert forall|a: int, b: int|
            0 <= a < n && 0 <= b < n && #[trigger] marks[a] == #[trigger] marks[b] implies out[a]
            == out[b] by {
            if targets@[marks[a]] is Some {
                assert(Some(out[a]) == targets@[marks[a]]);
                assert(Some(out[b]) == targets@[marks[b]]);
            } else {
                assert(out[a] == out[marks[a]]);
                assert(out[b] == out[marks[b]]);
            }
        }
        assert forall|a: int, e: Entid|
            0 <= a < n && #[trigger] class_finds(schema, datoms, forms, tempids, marks, a, e)
            implies out[a] == e by {
            assert(targets@[marks[a]] == Some(e));
            assert(Some(out[a]) == targets@[marks[a]]);
        }
        assert forall|a: int| 0 <= a < n implies #[trigger] is_found(
            schema,
            datoms,
            forms,
            tempids,
            marks,
            out,
            a,
        ) || next_user <= out[a] < next by {
            if targets@[marks[a]] is Some {
                assert(Some(out[a]) == targets@[marks[a]]);
                assert(class_finds(schema, datoms, forms, tempids, marks, a, out[a]));
            } else {
                assert(out[a] == out[marks[a]] && next_user <= out[a] < next);
            }
        }
        assert forall|a: int, b: int|
            0 <= a < n && 0 <= b < n && !#[trigger] is_found(
                schema,
                datoms,
                forms,
                tempids,
                marks,
                out,
                a,
            ) && !#[trigger] is_found(schema, datoms, forms, tempids, marks, out, b) && marks[a]
                < marks[b] implies out[a] < out[b] by {
            if targets@[marks[a]] is Some {
                assert(Some(out[a]) == targets@[marks[a]]);
                assert(class_finds(schema, datoms, forms, tempids, marks, a, out[a]));
            }
            if targets@[marks[b]] is Some {
                assert(Some(out[b]) == targets@[marks[b]]);
                assert(class_finds(schema, datoms, forms, tempids, marks, b, out[b]));
            }
            assert(out[a] == out[marks[a]]);
            assert(out[b] == out[marks[b]]);
            assert(marks[marks[a]] == marks[a]);
            assert(marks[marks[b]] == marks[b]);
            assert(out[marks[a]] < out[marks[b]]);
        }
        assert forall|id: int| next_user <= id < next implies #[trigger] is_fresh_id(
            schema,
            datoms,
            forms,
            tempids,
            marks,
            out,
            id,
        ) by {
            assert(is_fresh_of(marks, targets@, out, n as int, id));
            let r = choose|r: int|
                0 <= r < n && marks[r] == r && targets@[r] is None && #[trigger] out[r] == id;
            if is_found(schema, datoms, forms, tempids, marks, out, r) {
                assert(targets@[marks[r]] == Some(out[r]));
            }
            assert(out[r] == id && !is_found(schema, datoms, forms, tempids, marks, out, r));
        }
    }
    (entids, next)
}

/// The position of a temporary id among distinct ones is where it
/// stands.
pub proof fn lemma_tempid_position(tempids: Seq<Seq<char>>, k: int)
    requires
        distinct_names(tempids),
        0 <= k < tempids.len(),
    ensures
        tempid_position(tempids, tempids[k]) == k,
    decreases k,
{
    if k > 0 {
        assert(tempids[0] != tempids[k]);
        let rest = tempids.drop_first();
        assert forall|i: int, j: int| 0 <= i < j < rest.len() implies rest[i] != rest[j] by {
            assert(tempids[i + 1] != tempids[j + 1]);
        }
        assert(rest[k - 1] == tempids[k]);
        lemma_tempid_position(rest, k - 1);
    }
}

/// The terms that the forms become once each temporary id stands for its
/// entity.
pub(crate) fn resolve_forms(
    forms: &Vec<Form>,
    Ghost(tempids): Ghost<Seq<Seq<char>>>,
    owner: &Vec<Option<usize>>,
    value_owner: &Vec<Option<usize>>,
    entids: &Vec<Entid>,
) -> (terms: Vec<Term>)
    requires
        distinct_names(tempids),
        owners_fit(forms_view(forms@), tempids, owner@),
        value_owners_fit(forms_view(forms@), tempids, value_owner@),
        entids@.len() == tempids.len(),
    ensures
        terms_view(terms@) == resolved_all(forms_view(forms@), tempids, entids@),
{
    let ghost all = forms_view(forms@);
    let mut terms: Vec<Term> = Vec::new();
    let mut p: usize = 0;
    while p < forms.len()
        invariant
            p <= forms@.len(),
            all == forms_view(forms@),
            distinct_names(tempids),
            owners_fit(all, tempids, owner@),
            value_owners_fit(all, tempids, value_owner@),
            entids@.len() == tempids.len(),
            terms@.len() == p,
            forall|q: int| 0 <= q < p ==> (#[trigger] terms@[q])@ == resolved(all[q], tempids, entids@),
        decreases forms@.len() - p,
    {
        let form = &forms[p];
        assert(all[p as int] == form@);
        let e = match (&form.e, owner[p]) {
            (EntityRef::Entid(e), _) => *e,
            (EntityRef::TempId(_), Some(k)) => {
                proof {
                    lemma_tempid_position(tempids, k as int);
                }
                entids[k]
            },
            (EntityRef::TempId(_), None) => 0,
        };
        let v = match (&form.v, value_owner[p]) {
            (ValueRef::Value(v), _) => v.clone(),
            (ValueRef::TempId(_), Some(k)) => {
                proof {
                    lemma_tempid_position(tempids, k as int);
                }
                TypedValue::Ref(entids[k])
            },
            (ValueRef::TempId(_), None) => TypedValue::Ref(0),
        };
        terms.push(Term { op: form.op, e, a: form.a, v });
        p += 1;
    }
    assert(terms_view(terms@) =~= resolved_all(all, tempids, entids@));
    terms
}

} // verus!
