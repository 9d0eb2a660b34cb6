//! Sorting the temporary ids of a transaction into classes of linked
//! ones.

use vstd::prelude::*;
use crate::db::Entid;
use crate::edn::entities::OpType;
use crate::schema::{Schema, SchemaView, Unique};
use crate::transactor::upsert::{
    forms_view, is_upsert_of, labels_are_classes, lemma_linked_reflexive, lemma_linked_step,
    linked, mentioned, shares, with_name, EntityRef, EntityRefView, Form, FormView, ValueRef,
    ValueRefView,
};

verus! {

/// The views of a list of temporary ids.
pub open spec fn names_view(names: Seq<String>) -> Seq<Seq<char>> {
    Seq::new(names.len(), |i: int| names[i]@)
}

/// Whether no name stands twice.
pub open spec fn distinct_names(names: Seq<Seq<char>>) -> bool {
    forall|i: int, j: int| 0 <= i < j < names.len() ==> names[i] != names[j]
}

/// The labels as numbers.
pub open spec fn labels_view(labels: Seq<usize>) -> Seq<int> {
    Seq::new(labels.len(), |i: int| labels[i] as int)
}

/// Whether `owner` says of each form which temporary id it is about: the
/// position of its temporary id, or nothing for a form about an entity id.
pub open spec fn owners_fit(forms: Seq<FormView>, tempids: Seq<Seq<char>>, owner: Seq<Option<usize>>)
    -> bool {
    &&& owner.len() == forms.len()
    &&& forall|p: int|
        0 <= p < forms.len() ==> match (#[trigger] forms[p]).e {
            EntityRefView::TempId(t) => owner[p] is Some && owner[p]->0 < tempids.len()
                && tempids[owner[p]->0 as int] == t,
            EntityRefView::Entid(_) => owner[p] is None,
        }
}

/// Whether `owner` says of each form which temporary id its value is: the
/// position of the temporary id, or nothing for a form with a value.
pub open spec fn value_owners_fit(
    forms: Seq<FormView>,
    tempids: Seq<Seq<char>>,
    owner: Seq<Option<usize>>,
) -> bool {
    &&& owner.len() == forms.len()
    &&& forall|p: int|
        0 <= p < forms.len() ==> match (#[trigger] forms[p]).v {
            ValueRefView::TempId(t) => owner[p] is Some && owner[p]->0 < tempids.len()
                && tempids[owner[p]->0 as int] == t,
            ValueRefView::Value(_) => owner[p] is None,
        }
}

/// The position of the first name that is `t`, if there is one.
fn find_name(names: &Vec<String>, t: &String) -> (r: Option<usize>)
    ensures
        match r {
            Some(k) => k < names@.len() && names@[k as int]@ == t@,
            None => !names_view(names@).contains(t@),
        },
{
    let mut k: usize = 0;
    while k < names.len()
        invariant
            k <= names@.len(),
            forall|j: int| 0 <= j < k ==> names@[j]@ != t@,
        decreases names@.len() - k,
    {
        if names[k] == *t {
            return Some(k);
        }
        k += 1;
    }
    proof {
        if names_view(names@).contains(t@) {
            let j = choose|j: int| 0 <= j < names@.len() && names_view(names@)[j] == t@;
            assert(names@[j]@ == t@);
        }
    }
    None
}

/// Puts a name among the names unless it is there, and gives its
/// position.
fn note_name(names: &mut Vec<String>, t: &String) -> (k: usize)
    requires
        distinct_names(names_view(old(names)@)),
    ensures
        distinct_names(names_view(final(names)@)),
        names_view(final(names)@) == with_name(names_view(old(names)@), t@),
        k < final(names)@.len(),
        names_view(final(names)@)[k as int] == t@,
        final(names)@.len() >= old(names)@.len(),
        forall|i: int|
            0 <= i < old(names)@.len() ==> names_view(final(names)@)[i] == names_view(
                old(names)@,
            )[i],
{
    let ghost before = names_view(names@);
    match find_name(names, t) {
        Some(k) => {
            assert(before[k as int] == t@);
            assert(before.contains(t@));
            k
        },
        None => {
            let k = names.len();
            names.push(t.clone());
            proof {
                assert(names_view(names@) =~= before.push(t@));
                assert forall|i: int, j: int|
                    0 <= i < j < names_view(names@).len() implies names_view(names@)[i]
                    != names_view(names@)[j] by {
                    if j == before.len() {
                        assert(before[i] == names_view(names@)[i]);
                        assert(before.contains(before[i]));
                    } else {
                        assert(before[i] != before[j]);
                    }
                }
            }
            k
        },
    }
}

/// The temporary ids of the forms in the order in which they are first
/// mentioned, and for each form the positions of the temporary ids of its
/// entity and of its value.
pub fn collect_tempids(forms: &Vec<Form>) -> (r: (
    Vec<String>,
    Vec<Option<usize>>,
    Vec<Option<usize>>,
))
    ensures
        names_view(r.0@) == mentioned(forms_view(forms@)),
        distinct_names(names_view(r.0@)),
        owners_fit(forms_view(forms@), names_view(r.0@), r.1@),
        value_owners_fit(forms_view(forms@), names_view(r.0@), r.2@),
{
    let ghost all = forms_view(forms@);
    let mut tempids: Vec<String> = Vec::new();
    let mut owner: Vec<Option<usize>> = Vec::new();
    let mut value_owner: Vec<Option<usize>> = Vec::new();
    let mut p: usize = 0;
    proof {
        assert(all.take(0) =~= Seq::empty());
        assert(names_view(tempids@) =~= Seq::empty());
    }
    while p < forms.len()
        invariant
            p <= forms@.len(),
            all == forms_view(forms@),
            names_view(tempids@) == mentioned(all.take(p as int)),
            distinct_names(names_view(tempids@)),
            owners_fit(all.take(p as int), names_view(tempids@), owner@),
            value_owners_fit(all.take(p as int), names_view(tempids@), value_owner@),
        decreases forms@.len() - p,
    {
        let ghost before = names_view(tempids@);
        let ghost owners_before = owner@;
        let ghost value_owners_before = value_owner@;
        proof {
            assert(all.take(p + 1).drop_last() =~= all.take(p as int));
            assert(all.take(p + 1).last() == forms@[p as int]@);
        }
        match &forms[p].e {
            EntityRef::TempId(t) => {
                let k = note_name(&mut tempids, t);
                owner.push(Some(k));
            },
            EntityRef::Entid(_) => {
                owner.push(None);
            },
        }
        let ghost middle = names_view(tempids@);
        match &forms[p].v {
            ValueRef::TempId(t) => {
                let k = note_name(&mut tempids, t);
                value_owner.push(Some(k));
            },
            ValueRef::Value(_) => {
                value_owner.push(None);
            },
        }
        proof {
            let now = names_view(tempids@);
            assert forall|q: int| 0 <= q < all.take(p + 1).len() implies match (
            #[trigger] all.take(p + 1)[q]).e {
                EntityRefView::TempId(t) => owner@[q] is Some && owner@[q]->0 < now.len()
                    && now[owner@[q]->0 as int] == t,
                EntityRefView::Entid(_) => owner@[q] is None,
            } by {
                if q < p {
                    assert(all.take(p as int)[q] == all.take(p + 1)[q]);
                    assert(owner@[q] == owners_before[q]);
                    if owners_before[q] is Some {
                        let o = owners_before[q]->0 as int;
                        assert(middle[o] == before[o]);
                        assert(now[o] == middle[o]);
                    }
                } else {
                    if owner@[q] is Some {
                        let o = owner@[q]->0 as int;
                        assert(now[o] == middle[o]);
                    }
                }
            }
            assert forall|q: int| 0 <= q < all.take(p + 1).len() implies match (
            #[trigger] all.take(p + 1)[q]).v {
                ValueRefView::TempId(t) => value_owner@[q] is Some && value_owner@[q]->0 < now.len()
                    && now[value_owner@[q]->0 as int] == t,
                ValueRefView::Value(_) => value_owner@[q] is None,
            } by {
                if q < p {
                    assert(all.take(p as int)[q] == all.take(p + 1)[q]);
                    assert(value_owner@[q] == value_owners_before[q]);
                    if value_owners_before[q] is Some {
                        let o = value_owners_before[q]->0 as int;
                        assert(middle[o] == before[o]);
                        assert(now[o] == middle[o]);
                    }
                }
            }
        }
        p += 1;
    }
    proof {
        assert(all.take(p as int) =~= all);
    }
    (tempids, owner, value_owner)
}

/// Whether a form is an upsert: it asserts a value of a unique identity
/// attribute of a temporary id.
pub fn is_upsert(schema: &Schema, form: &Form) -> (r: bool)
    requires
        schema@.well_formed(),
    ensures
        r == (form@.e is TempId && is_upsert_of(schema@, form@, form@.e->TempId_0)),
{
    match (&form.op, &form.e, &form.v) {
        (OpType::Add, EntityRef::TempId(_), ValueRef::Value(_)) => match schema.attribute_for_entid(
            form.a,
        ) {
            Some(attribute) => match attribute.unique {
                Some(Unique::Identity) => true,
                _ => false,
            },
            None => false,
        },
        _ => false,
    }
}

/// Whether two values of forms are the same.
fn same_value(a: &ValueRef, b: &ValueRef) -> (r: bool)
    ensures
        r == (a@ == b@),
{
    match (a, b) {
        (ValueRef::Value(x), ValueRef::Value(y)) => x.same_as(y),
        (ValueRef::TempId(x), ValueRef::TempId(y)) => *x == *y,
        _ => false,
    }
}

/// Whether two forms are upserts of the same attribute and value.
pub open spec fn same_identity(schema: SchemaView, f: FormView, g: FormView) -> bool {
    &&& f.e is TempId
    &&& g.e is TempId
    &&& is_upsert_of(schema, f, f.e->TempId_0)
    &&& is_upsert_of(schema, g, g.e->TempId_0)
    &&& f.a == g.a
    &&& f.v == g.v
}

/// Whether `edges` holds the pairs of temporary ids that share an
/// identity, and no other pairs.
pub open spec fn edges_fit(
    schema: SchemaView,
    forms: Seq<FormView>,
    tempids: Seq<Seq<char>>,
    owner: Seq<Option<usize>>,
    edges: Seq<(usize, usize)>,
    upto: int,
) -> bool {
    &&& forall|k: int|
        0 <= k < edges.len() ==> (#[trigger] edges[k]).0 < tempids.len() && edges[k].1
            < tempids.len() && shares(
            schema,
            forms,
            tempids[edges[k].0 as int],
            tempids[edges[k].1 as int],
        ) && shares(schema, forms, tempids[edges[k].1 as int], tempids[edges[k].0 as int])
    &&& forall|p: int, q: int|
        0 <= p < q < upto && q < forms.len() && same_identity(
            schema,
            #[trigger] forms[p],
            #[trigger] forms[q],
        ) && owner[p] != owner[q] ==> exists|k: int|
            0 <= k < edges.len() && #[trigger] edges[k] == (owner[p]->0, owner[q]->0)
}

/// The pairs of temporary ids that share an identity.
pub fn collect_edges(
    schema: &Schema,
    forms: &Vec<Form>,
    tempids: &Vec<String>,
    owner: &Vec<Option<usize>>,
) -> (edges: Vec<(usize, usize)>)
    requires
        schema@.well_formed(),
        owners_fit(forms_view(forms@), names_view(tempids@), owner@),
    ensures
        edges_fit(
            schema@,
            forms_view(forms@),
            names_view(tempids@),
            owner@,
            edges@,
            forms@.len() as int,
        ),
{
    let ghost all = forms_view(forms@);
    let ghost names = names_view(tempids@);
    let mut edges: Vec<(usize, usize)> = Vec::new();
    let mut q: usize = 0;
    while q < forms.len()
        invariant
            q <= forms@.len(),
            schema@.well_formed(),
            all == forms_view(forms@),
            names == names_view(tempids@),
            owners_fit(all, names, owner@),
            edges_fit(schema@, all, names, owner@, edges@, q as int),
        decreases forms@.len() - q,
    {
        if is_upsert(schema, &forms[q]) {
            let mut p: usize = 0;
            while p < q
                invariant
                    p <= q < forms@.len(),
                    schema@.well_formed(),
                    all == forms_view(forms@),
                    names == names_view(tempids@),
                    owners_fit(all, names, owner@),
                    all[q as int].e is TempId,
                    is_upsert_of(schema@, all[q as int], all[q as int].e->TempId_0),
                    edges_fit(schema@, all, names, owner@, edges@, q as int),
                    forall|p2: int|
                        0 <= p2 < p && same_identity(schema@, #[trigger] all[p2], all[q as int])
                            && owner@[p2] != owner@[q as int] ==> exists|k: int|
                            0 <= k < edges@.len() && #[trigger] edges@[k] == (
                                owner@[p2]->0,
                                owner@[q as int]->0,
                            ),
                decreases q - p,
            {
                let ghost edges_before = edges@;
                if is_upsert(schema, &forms[p]) && forms[p].a == forms[q].a && same_value(
                    &forms[p].v,
                    &forms[q].v,
                ) {
                    assert(all[p as int] == forms@[p as int]@);
                    assert(all[q as int] == forms@[q as int]@);
                    match (owner[p], owner[q]) {
                        (Some(x), Some(y)) => {
                            if x != y {
                                edges.push((x, y));
                                proof {
                                    assert(shares(schema@, all, names[x as int], names[y as int]));
                                    assert(shares(schema@, all, names[y as int], names[x as int]));
                                    assert(edges@[edges_before.len() as int] == (x, y));
                                    assert forall|k: int|
                                        0 <= k < edges_before.len() implies edges@[k]
                                        == edges_before[k] by {}
                                }
                            }
                        },
                        _ => {},
                    }
                }
                proof {
                    assert forall|p2: int, q2: int|
                        0 <= p2 < q2 < q && q2 < all.len() && same_identity(
                            schema@,
                            #[trigger] all[p2],
                            #[trigger] all[q2],
                        ) && owner@[p2] != owner@[q2] implies exists|k: int|
                        0 <= k < edges@.len() && #[trigger] edges@[k] == (
                            owner@[p2]->0,
                            owner@[q2]->0,
                        ) by {
                        let k = choose|k: int|
                            0 <= k < edges_before.len() && #[trigger] edges_before[k] == (
                                owner@[p2]->0,
                                owner@[q2]->0,
                            );
                        assert(edges@[k] == edges_before[k]);
                    }
                    assert forall|p2: int|
                        0 <= p2 < p + 1 && same_identity(schema@, #[trigger] all[p2], all[q as int])
                            && owner@[p2] != owner@[q as int] implies exists|k: int|
                        0 <= k < edges@.len() && #[trigger] edges@[k] == (
                            owner@[p2]->0,
                            owner@[q as int]->0,
                        ) by {
                        if p2 < p {
                            let k = choose|k: int|
                                0 <= k < edges_before.len() && #[trigger] edges_before[k] == (
                                    owner@[p2]->0,
                                    owner@[q as int]->0,
                                );
                            assert(edges@[k] == edges_before[k]);
                        } else {
                            assert(edges@[edges@.len() - 1] == (
                                owner@[p2]->0,
                                owner@[q as int]->0,
                            ));
                        }
                    }
                }
                p += 1;
            }
        }
        q += 1;
    }
    edges
}

/// The sum of the labels.
pub open spec fn total(labels: Seq<usize>) -> int
    decreases labels.len(),
{
    if labels.len() == 0 {
        0
    } else {
        total(labels.drop_last()) + labels.last()
    }
}

/// A label that becomes smaller makes the sum smaller by as much.
pub proof fn lemma_total_update(labels: Seq<usize>, i: int, value: usize)
    requires
        0 <= i < labels.len(),
    ensures
        total(labels.update(i, value)) == total(labels) - labels[i] + value,
        total(labels) >= 0,
    decreases labels.len(),
{
    let changed = labels.update(i, value);
    if i == labels.len() - 1 {
        assert(changed.drop_last() =~= labels.drop_last());
        lemma_total_nonnegative(labels.drop_last());
    } else {
        assert(changed.drop_last() =~= labels.drop_last().update(i, value));
        lemma_total_update(labels.drop_last(), i, value);
    }
}

/// The sum of labels is not negative.
pub proof fn lemma_total_nonnegative(labels: Seq<usize>)
    ensures
        total(labels) >= 0,
    decreases labels.len(),
{
    if labels.len() > 0 {
        lemma_total_nonnegative(labels.drop_last());
    }
}

/// Whether each label is the position of a temporary id that is mentioned
/// no later and linked.
pub open spec fn labels_linked(
    schema: SchemaView,
    forms: Seq<FormView>,
    tempids: Seq<Seq<char>>,
    labels: Seq<usize>,
) -> bool {
    &&& labels.len() == tempids.len()
    &&& forall|i: int|
        0 <= i < tempids.len() ==> (#[trigger] labels[i]) <= i && linked(
            schema,
            forms,
            tempids[i],
            tempids[labels[i] as int],
        )
}

/// Sorts the temporary ids into classes: gives each the label of its
/// class, the position of the first temporary id of the class.
pub(crate) fn label_classes(
    Ghost(schema): Ghost<SchemaView>,
    Ghost(forms): Ghost<Seq<FormView>>,
    tempids: &Vec<String>,
    Ghost(owner): Ghost<Seq<Option<usize>>>,
    edges: &Vec<(usize, usize)>,
) -> (labels: Vec<usize>)
    requires
        distinct_names(names_view(tempids@)),
        owners_fit(forms, names_view(tempids@), owner),
        edges_fit(schema, forms, names_view(tempids@), owner, edges@, forms.len() as int),
    ensures
        labels_are_classes(schema, forms, names_view(tempids@), labels_view(labels@)),
{
    let ghost names = names_view(tempids@);
    let n = tempids.len();
    let mut labels: Vec<usize> = Vec::new();
    let mut i: usize = 0;
    while i < n
        invariant
            i <= n,
            n == tempids@.len(),
            names == names_view(tempids@),
            labels@.len() == i,
            forall|j: int| 0 <= j < i ==> labels@[j] == j,
        decreases n - i,
    {
        labels.push(i);
        i += 1;
    }
    proof {
        assert forall|j: int| 0 <= j < names.len() implies (#[trigger] labels@[j]) <= j && linked(
            schema,
            forms,
            names[j],
            names[labels@[j] as int],
        ) by {
            lemma_linked_reflexive(schema, forms, names[j]);
        }
    }
    let mut changed = true;
    while changed
        invariant
            n == tempids@.len(),
            names == names_view(tempids@),
            labels_linked(schema, forms, names, labels@),
            edges_fit(schema, forms, names, owner, edges@, forms.len() as int),
            !changed ==> forall|k: int|
                0 <= k < edges@.len() ==> labels@[(#[trigger] edges@[k]).0 as int]
                    == labels@[edges@[k].1 as int],
        decreases
            total(labels@) + (if changed {
                1int
            } else {
                0int
            }),
    {
        let ghost start = labels@;
        proof {
            lemma_total_nonnegative(start);
        }
        changed = false;
        let mut k: usize = 0;
        while k < edges.len()
            invariant
                k <= edges@.len(),
                n == tempids@.len(),
                names == names_view(tempids@),
                labels_linked(schema, forms, names, labels@),
                edges_fit(schema, forms, names, owner, edges@, forms.len() as int),
                total(labels@) <= total(start),
                changed ==> total(labels@) < total(start),
                !changed ==> labels@ == start,
                !changed ==> forall|k2: int|
                    0 <= k2 < k ==> labels@[(#[trigger] edges@[k2]).0 as int]
                        == labels@[edges@[k2].1 as int],
            decreases edges@.len() - k,
        {
            let (x, y) = edges[k];
            let lx = labels[x];
            let ly = labels[y];
            let ghost before = labels@;
            if lx < ly {
                labels.set(y, lx);
                changed = true;
                proof {
                    lemma_total_update(before, y as int, lx);
                    lemma_linked_step(
                        schema,
                        forms,
                        names[y as int],
                        names[x as int],
                        names[lx as int],
                    );
                    assert forall|j: int| 0 <= j < names.len() implies (#[trigger] labels@[j]) <= j
                        && linked(schema, forms, names[j], names[labels@[j] as int]) by {
                        if j != y {
                            assert(labels@[j] == before[j]);
                        }
                    }
                }
            } else if ly < lx {
                labels.set(x, ly);
                changed = true;
                proof {
                    lemma_total_update(before, x as int, ly);
                    lemma_linked_step(
                        schema,
                        forms,
                        names[x as int],
                        names[y as int],
                        names[ly as int],
                    );
                    assert forall|j: int| 0 <= j < names.len() implies (#[trigger] labels@[j]) <= j
                        && linked(schema, forms, names[j], names[labels@[j] as int]) by {
                        if j != x {
                            assert(labels@[j] == before[j]);
                        }
                    }
                }
            }
            k += 1;
        }
        proof {
            lemma_total_nonnegative(labels@);
        }
    }
    proof {
        let out = labels_view(labels@);
        assert forall|a: int, b: int|
            0 <= a < names.len() && 0 <= b < names.len() && shares(
                schema,
                forms,
                names[a],
                names[b],
            ) implies #[trigger] out[a] == #[trigger] out[b] by {
            if a != b {
                let (p, q) = choose|p: int, q: int|
                    0 <= p < forms.len() && 0 <= q < forms.len() && is_upsert_of(
                        schema,
                        #[trigger] forms[p],
                        names[a],
                    ) && is_upsert_of(schema, #[trigger] forms[q], names[b]) && forms[p].a
                        == forms[q].a && forms[p].v == forms[q].v;
                // The forms are about the temporary ids at `a` and `b`.
                assert(names[owner[p]->0 as int] == names[a]);
                assert(names[owner[q]->0 as int] == names[b]);
                assert(owner[p]->0 == a) by {
                    if owner[p]->0 < a {
                        assert(names[owner[p]->0 as int] != names[a]);
                    } else if owner[p]->0 > a {
                        assert(names[a] != names[owner[p]->0 as int]);
                    }
                }
                assert(owner[q]->0 == b) by {
                    if owner[q]->0 < b {
                        assert(names[owner[q]->0 as int] != names[b]);
                    } else if owner[q]->0 > b {
                        assert(names[b] != names[owner[q]->0 as int]);
                    }
                }
                assert(p != q);
                if p < q {
                    assert(same_identity(schema, forms[p], forms[q]));
                    let k = choose|k: int|
                        0 <= k < edges@.len() && #[trigger] edges@[k] == (owner[p]->0, owner[q]->0);
                    assert(labels@[edges@[k].0 as int] == labels@[edges@[k].1 as int]);
                } else {
                    assert(same_identity(schema, forms[q], forms[p]));
                    let k = choose|k: int|
                        0 <= k < edges@.len() && #[trigger] edges@[k] == (owner[q]->0, owner[p]->0);
                    assert(labels@[edges@[k].0 as int] == labels@[edges@[k].1 as int]);
                }
            }
        }
        assert forall|j: int| 0 <= j < names.len() implies 0 <= #[trigger] out[j] <= j && linked(
            schema,
            forms,
            names[j],
            names[out[j]],
        ) by {
            assert(labels@[j] <= j);
        }
    }
    labels
}

} // verus!
