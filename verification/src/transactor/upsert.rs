//! Temporary ids and upserts: which entity each temporary id of a
//! transaction stands for.
//!
//! A form that asserts a value of a unique identity attribute of a
//! temporary id is an upsert: if an entity holds that value, the
//! temporary id stands for that entity. Temporary ids that assert the same
//! value of the same identity attribute stand for the same entity, and so
//! do those that are linked by a chain of such pairs. A class of linked
//! temporary ids stands for the entity that its upserts find; it is an
//! error if they find two. A class whose upserts find none gets a fresh
//! entity id; the classes get theirs in the order in which they are first
//! mentioned.

use vstd::prelude::*;
use crate::db::Entid;
use crate::edn::entities::OpType;
use crate::schema::{SchemaView, Unique};
use crate::transactor::model::{first_match, DatomView, ProbeKind, TermView};
use crate::values::{TypedValue, TypedValueView};

verus! {

/// The entity of a form: an entity id, or a temporary id.
#[derive(Debug, PartialEq, Eq)]
pub enum EntityRef {
    Entid(Entid),
    TempId(String),
}

/// What an [`EntityRef`] holds.
pub enum EntityRefView {
    Entid(Entid),
    TempId(Seq<char>),
}

impl View for EntityRef {
    type V = EntityRefView;

    open spec fn view(&self) -> EntityRefView {
        match self {
            EntityRef::Entid(e) => EntityRefView::Entid(*e),
            EntityRef::TempId(t) => EntityRefView::TempId(t@),
        }
    }
}

/// The value of a form: a value, or a temporary id that stands for a
/// reference to an entity.
#[derive(Debug, PartialEq, Eq)]
pub enum ValueRef {
    Value(TypedValue),
    TempId(String),
}

/// What a [`ValueRef`] holds.
pub enum ValueRefView {
    Value(TypedValueView),
    TempId(Seq<char>),
}

impl View for ValueRef {
    type V = ValueRefView;

    open spec fn view(&self) -> ValueRefView {
        match self {
            ValueRef::Value(v) => ValueRefView::Value(v@),
            ValueRef::TempId(t) => ValueRefView::TempId(t@),
        }
    }
}

/// A form of a transaction whose attribute is known, and whose entity and
/// value may be temporary ids.
#[derive(Debug, PartialEq, Eq)]
pub struct Form {
    pub op: OpType,
    pub e: EntityRef,
    pub a: Entid,
    pub v: ValueRef,
}

/// What a [`Form`] holds.
pub struct FormView {
    pub op: OpType,
    pub e: EntityRefView,
    pub a: Entid,
    pub v: ValueRefView,
}

impl View for Form {
    type V = FormView;

    open spec fn view(&self) -> FormView {
        FormView { op: self.op, e: self.e@, a: self.a, v: self.v@ }
    }
}

/// The views of a list of forms.
pub open spec fn forms_view(forms: Seq<Form>) -> Seq<FormView> {
    Seq::new(forms.len(), |i: int| forms[i]@)
}

/// The names with one more, unless it is among them already.
pub open spec fn with_name(names: Seq<Seq<char>>, name: Seq<char>) -> Seq<Seq<char>> {
    if names.contains(name) {
        names
    } else {
        names.push(name)
    }
}

/// The temporary ids of the forms, each once, in the order in which they
/// are first mentioned; the entity of a form comes before its value.
pub open spec fn mentioned(forms: Seq<FormView>) -> Seq<Seq<char>>
    decreases forms.len(),
{
    if forms.len() == 0 {
        Seq::empty()
    } else {
        let before = mentioned(forms.drop_last());
        let with_entity = match forms.last().e {
            EntityRefView::TempId(t) => with_name(before, t),
            EntityRefView::Entid(_) => before,
        };
        match forms.last().v {
            ValueRefView::TempId(t) => with_name(with_entity, t),
            ValueRefView::Value(_) => with_entity,
        }
    }
}

/// Whether a form is an upsert of the temporary id `t`: it asserts a
/// value, not a temporary id, of a unique identity attribute of `t`.
pub open spec fn is_upsert_of(schema: SchemaView, form: FormView, t: Seq<char>) -> bool {
    &&& form.op == OpType::Add
    &&& form.e == EntityRefView::TempId(t)
    &&& form.v is Value
    &&& schema.attribute_of(form.a as int) is Some
    &&& schema.attribute_of(form.a as int)->0.unique == Some(Unique::Identity)
}

/// Whether two temporary ids share an identity: each has an upsert of the
/// same attribute and value.
pub open spec fn shares(schema: SchemaView, forms: Seq<FormView>, t1: Seq<char>, t2: Seq<char>)
    -> bool {
    exists|p: int, q: int|
        0 <= p < forms.len() && 0 <= q < forms.len() && is_upsert_of(schema, #[trigger] forms[p], t1)
            && is_upsert_of(schema, #[trigger] forms[q], t2) && forms[p].a == forms[q].a
            && forms[p].v == forms[q].v
}

/// Whether a chain leads from one temporary id to another: a list of
/// temporary ids that starts with the one and ends with the other, each of
/// which shares an identity with the next.
pub open spec fn is_chain(
    schema: SchemaView,
    forms: Seq<FormView>,
    chain: Seq<Seq<char>>,
    from: Seq<char>,
    to: Seq<char>,
) -> bool {
    &&& chain.len() >= 1
    &&& chain[0] == from
    &&& chain.last() == to
    &&& forall|k: int|
        0 <= k < chain.len() - 1 ==> shares(schema, forms, #[trigger] chain[k], chain[k + 1])
}

/// Whether two temporary ids are linked: a chain leads from the one to
/// the other.
pub open spec fn linked(schema: SchemaView, forms: Seq<FormView>, from: Seq<char>, to: Seq<char>)
    -> bool {
    exists|chain: Seq<Seq<char>>| is_chain(schema, forms, chain, from, to)
}

/// Every temporary id is linked to itself.
pub proof fn lemma_linked_reflexive(schema: SchemaView, forms: Seq<FormView>, t: Seq<char>)
    ensures
        linked(schema, forms, t, t),
{
    assert(is_chain(schema, forms, seq![t], t, t));
}

/// What shares an identity with a temporary id is linked to whatever that
/// one is linked to.
pub proof fn lemma_linked_step(
    schema: SchemaView,
    forms: Seq<FormView>,
    t: Seq<char>,
    next: Seq<char>,
    to: Seq<char>,
)
    requires
        shares(schema, forms, t, next),
        linked(schema, forms, next, to),
    ensures
        linked(schema, forms, t, to),
{
    let chain = choose|chain: Seq<Seq<char>>| is_chain(schema, forms, chain, next, to);
    let longer = seq![t] + chain;
    assert forall|k: int| 0 <= k < longer.len() - 1 implies shares(
        schema,
        forms,
        #[trigger] longer[k],
        longer[k + 1],
    ) by {
        if k > 0 {
            assert(longer[k] == chain[k - 1]);
            assert(longer[k + 1] == chain[k]);
        }
    }
    assert(is_chain(schema, forms, longer, t, to));
}

/// The entity that an upsert finds in the store: the one that holds the
/// value of the attribute.
pub open spec fn found_by(datoms: Seq<DatomView>, form: FormView) -> Option<Entid> {
    if form.v is Value && first_match(datoms, ProbeKind::Holder, 0, form.a, form.v->Value_0)
        < datoms.len() {
        Some(datoms[first_match(datoms, ProbeKind::Holder, 0, form.a, form.v->Value_0)].e)
    } else {
        None
    }
}

/// Whether the upserts of the class of a temporary id find an entity:
/// some temporary id that is in one class with `t` has an upsert that
/// finds it. Two temporary ids are in one class where their labels are
/// the same.
pub open spec fn class_finds(
    schema: SchemaView,
    datoms: Seq<DatomView>,
    forms: Seq<FormView>,
    tempids: Seq<Seq<char>>,
    labels: Seq<int>,
    i: int,
    e: Entid,
) -> bool {
    exists|j: int, p: int|
        0 <= j < tempids.len() && 0 <= p < forms.len() && #[trigger] labels[j] == labels[i]
            && is_upsert_of(schema, #[trigger] forms[p], tempids[j]) && found_by(datoms, forms[p])
            == Some(e)
}

/// Whether labels sort the temporary ids into the classes of linked ones:
/// the label of a temporary id is the position of one that is mentioned no
/// later and is linked to it, temporary ids that share an identity have
/// the same label, and the one at the position of a label has that label.
pub open spec fn labels_are_classes(
    schema: SchemaView,
    forms: Seq<FormView>,
    tempids: Seq<Seq<char>>,
    labels: Seq<int>,
) -> bool {
    &&& labels.len() == tempids.len()
    &&& forall|i: int|
        0 <= i < tempids.len() ==> 0 <= #[trigger] labels[i] <= i && linked(
            schema,
            forms,
            tempids[i],
            tempids[labels[i]],
        )
    &&& forall|i: int, j: int|
        0 <= i < tempids.len() && 0 <= j < tempids.len() && shares(
            schema,
            forms,
            tempids[i],
            tempids[j],
        ) ==> #[trigger] labels[i] == #[trigger] labels[j]
}

/// Whether the class of the temporary id at `i` stands for an entity
/// that its upserts found.
pub open spec fn is_found(
    schema: SchemaView,
    datoms: Seq<DatomView>,
    forms: Seq<FormView>,
    tempids: Seq<Seq<char>>,
    labels: Seq<int>,
    entids: Seq<Entid>,
    i: int,
) -> bool {
    class_finds(schema, datoms, forms, tempids, labels, i, entids[i])
}

/// Whether `id` is the fresh entity id of a class.
pub open spec fn is_fresh_id(
    schema: SchemaView,
    datoms: Seq<DatomView>,
    forms: Seq<FormView>,
    tempids: Seq<Seq<char>>,
    labels: Seq<int>,
    entids: Seq<Entid>,
    id: int,
) -> bool {
    exists|i: int|
        0 <= i < tempids.len() && #[trigger] entids[i] == id && !is_found(
            schema,
            datoms,
            forms,
            tempids,
            labels,
            entids,
            i,
        )
}

/// Whether entity ids are what the temporary ids stand for.
///
/// Temporary ids of one class stand for one entity. A class whose upserts
/// find an entity stands for it, and finds no other. A class whose
/// upserts find none stands for a fresh entity id: the fresh ids are those
/// from `next_user` up to `next_after`, each the id of one class, in the
/// order of the labels of the classes.
pub open spec fn stands_for(
    schema: SchemaView,
    datoms: Seq<DatomView>,
    forms: Seq<FormView>,
    tempids: Seq<Seq<char>>,
    labels: Seq<int>,
    next_user: int,
    entids: Seq<Entid>,
    next_after: int,
) -> bool {
    &&& entids.len() == tempids.len()
    &&& next_user <= next_after
    &&& forall|i: int, j: int|
        0 <= i < tempids.len() && 0 <= j < tempids.len() && #[trigger] labels[i]
            == #[trigger] labels[j] ==> entids[i] == entids[j]
    &&& forall|i: int, e: Entid|
        0 <= i < tempids.len() && #[trigger] class_finds(
            schema,
            datoms,
            forms,
            tempids,
            labels,
            i,
            e,
        ) ==> entids[i] == e
    &&& forall|i: int|
        0 <= i < tempids.len() ==> #[trigger] is_found(
            schema,
            datoms,
            forms,
            tempids,
            labels,
            entids,
            i,
        ) || next_user <= entids[i] < next_after
    &&& forall|i: int, j: int|
        0 <= i < tempids.len() && 0 <= j < tempids.len() && !#[trigger] is_found(
            schema,
            datoms,
            forms,
            tempids,
            labels,
            entids,
            i,
        ) && !#[trigger] is_found(schema, datoms, forms, tempids, labels, entids, j) && labels[i]
            < labels[j] ==> entids[i] < entids[j]
    &&& forall|id: int|
        next_user <= id < next_after ==> #[trigger] is_fresh_id(
            schema,
            datoms,
            forms,
            tempids,
            labels,
            entids,
            id,
        )
}

/// Whether the upserts of one class find two entities.
pub open spec fn class_conflict(
    schema: SchemaView,
    datoms: Seq<DatomView>,
    forms: Seq<FormView>,
    tempids: Seq<Seq<char>>,
    labels: Seq<int>,
    e1: Entid,
    e2: Entid,
) -> bool {
    e1 != e2 && exists|i: int|
        0 <= i < tempids.len() && #[trigger] class_finds(
            schema,
            datoms,
            forms,
            tempids,
            labels,
            i,
            e1,
        ) && class_finds(schema, datoms, forms, tempids, labels, i, e2)
}

/// The position of a temporary id among those mentioned, or their number
/// if it is not among them.
pub open spec fn tempid_position(tempids: Seq<Seq<char>>, t: Seq<char>) -> int
    decreases tempids.len(),
{
    if tempids.len() == 0 || tempids[0] == t {
        0
    } else {
        1 + tempid_position(tempids.drop_first(), t)
    }
}

/// The entity that a temporary id stands for, or zero if it is not
/// among those mentioned.
pub open spec fn entity_of(tempids: Seq<Seq<char>>, entids: Seq<Entid>, t: Seq<char>) -> Entid {
    if 0 <= tempid_position(tempids, t) < entids.len() {
        entids[tempid_position(tempids, t)]
    } else {
        0
    }
}

/// The term that a form becomes once its temporary ids stand for
/// entities. A temporary id as value becomes a reference.
pub open spec fn resolved(form: FormView, tempids: Seq<Seq<char>>, entids: Seq<Entid>) -> TermView {
    TermView {
        op: form.op,
        e: match form.e {
            EntityRefView::Entid(e) => e,
            EntityRefView::TempId(t) => entity_of(tempids, entids, t),
        },
        a: form.a,
        v: match form.v {
            ValueRefView::Value(v) => v,
            ValueRefView::TempId(t) => TypedValueView::Ref(entity_of(tempids, entids, t) as int),
        },
    }
}

/// The terms that forms become.
pub open spec fn resolved_all(forms: Seq<FormView>, tempids: Seq<Seq<char>>, entids: Seq<Entid>)
    -> Seq<TermView> {
    Seq::new(forms.len(), |i: int| resolved(forms[i], tempids, entids))
}

} // verus!
