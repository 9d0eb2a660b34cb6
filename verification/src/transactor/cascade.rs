//! Components: the retraction of a reference to a component retracts the
//! component.
//!
//! Where a form retracts a live reference of an attribute that is a
//! component, the datoms of the entity that is referred to are retracted
//! too. The retractions follow the forms of the transaction, and are made
//! of the datoms that are live when the transaction starts.

use vstd::prelude::*;
use crate::db::Entid;
use crate::edn::entities::OpType;
use crate::schema::{Schema, SchemaView};
use crate::transactor::model::{first_match, DatomView, ProbeKind};
use crate::transactor::store::{datoms_view, find_datom, Datom};
use crate::transactor::upsert::{
    forms_view, EntityRef, EntityRefView, Form, FormView, ValueRef, ValueRefView,
};
use crate::values::{TypedValue, TypedValueView};

verus! {

/// The component that a form retracts, if it retracts one: the form
/// retracts a reference of an attribute that is a component, and the
/// reference is live.
pub open spec fn component_retracted(schema: SchemaView, datoms: Seq<DatomView>, f: FormView)
    -> Option<Entid> {
    match (f.op, f.e, f.v) {
        (
            OpType::Retract,
            EntityRefView::Entid(e),
            ValueRefView::Value(TypedValueView::Ref(child)),
        ) => if schema.attribute_of(f.a as int) is Some && schema.attribute_of(
            f.a as int,
        )->0.component && first_match(
            datoms,
            ProbeKind::Fact,
            e,
            f.a,
            TypedValueView::Ref(child),
        ) < datoms.len() && i64::MIN <= child <= i64::MAX {
            Some(child as Entid)
        } else {
            None
        },
        _ => None,
    }
}

/// The forms that retract the datoms of an entity, in the order of the
/// datoms.
pub open spec fn retractions_of(datoms: Seq<DatomView>, e: Entid) -> Seq<FormView>
    decreases datoms.len(),
{
    if datoms.len() == 0 {
        Seq::empty()
    } else if datoms.last().e == e {
        retractions_of(datoms.drop_last(), e).push(
            FormView {
                op: OpType::Retract,
                e: EntityRefView::Entid(e),
                a: datoms.last().a,
                v: ValueRefView::Value(datoms.last().v),
            },
        )
    } else {
        retractions_of(datoms.drop_last(), e)
    }
}

/// The forms that retract the components that the forms retract, in the
/// order of the forms.
pub open spec fn cascade_of(schema: SchemaView, datoms: Seq<DatomView>, forms: Seq<FormView>)
    -> Seq<FormView>
    decreases forms.len(),
{
    if forms.len() == 0 {
        Seq::empty()
    } else {
        let before = cascade_of(schema, datoms, forms.drop_last());
        match component_retracted(schema, datoms, forms.last()) {
            Some(child) => before + retractions_of(datoms, child),
            None => before,
        }
    }
}

/// The forms, followed by those that retract the components that they
/// retract.
pub open spec fn cascaded(schema: SchemaView, datoms: Seq<DatomView>, forms: Seq<FormView>) -> Seq<
    FormView,
> {
    forms + cascade_of(schema, datoms, forms)
}

fn component_of(schema: &Schema, datoms: &Vec<Datom>, f: &Form) -> (r: Option<Entid>)
    requires
        schema@.well_formed(),
    ensures
        r == component_retracted(schema@, datoms_view(datoms@), f@),
{
    match f.op {
        OpType::Retract => {},
        OpType::Add => {
            return None;
        },
    }
    let e = match &f.e {
        EntityRef::Entid(e) => *e,
        EntityRef::TempId(_) => {
            return None;
        },
    };
    let child = match &f.v {
        ValueRef::Value(TypedValue::Ref(child)) => *child,
        _ => {
            return None;
        },
    };
    match schema.attribute_for_entid(f.a) {
        Some(attribute) => {
            if attribute.component && find_datom(
                datoms,
                ProbeKind::Fact,
                e,
                f.a,
                &TypedValue::Ref(child),
            ) < datoms.len() {
                Some(child)
            } else {
                None
            }
        },
        None => None,
    }
}

fn push_retractions(datoms: &Vec<Datom>, e: Entid, out: &mut Vec<Form>)
    ensures
        forms_view(final(out)@) == forms_view(old(out)@) + retractions_of(datoms_view(datoms@), e),
{
    let ghost all = datoms_view(datoms@);
    let ghost before = forms_view(out@);
    let mut i: usize = 0;
    proof {
        assert(all.take(0) =~= Seq::empty());
        assert(before + retractions_of(all.take(0), e) =~= before);
    }
    while i < datoms.len()
        invariant
            i <= datoms@.len(),
            all == datoms_view(datoms@),
            forms_view(out@) == before + retractions_of(all.take(i as int), e),
        decreases datoms@.len() - i,
    {
        let ghost so_far = forms_view(out@);
        proof {
            assert(all.take(i + 1).drop_last() =~= all.take(i as int));
            assert(all.take(i + 1).last() == datoms@[i as int]@);
        }
        if datoms[i].e == e {
            out.push(
                Form {
                    op: OpType::Retract,
                    e: EntityRef::Entid(e),
                    a: datoms[i].a,
                    v: ValueRef::Value(datoms[i].v.clone()),
                },
            );
            proof {
                let form = FormView {
                    op: OpType::Retract,
                    e: EntityRefView::Entid(e),
                    a: datoms@[i as int].a,
                    v: ValueRefView::Value(datoms@[i as int].v@),
                };
                assert(forms_view(out@) =~= so_far.push(form));
                assert(so_far.push(form) =~= before + retractions_of(all.take(i as int), e).push(
                    form,
                ));
            }
        }
        i += 1;
    }
    proof {
        assert(all.take(i as int) =~= all);
    }
}

/// The forms, followed by those that retract the components that they
/// retract; see [`cascaded`].
pub fn cascade(schema: &Schema, datoms: &Vec<Datom>, forms: Vec<Form>) -> (r: Vec<Form>)
    requires
        schema@.well_formed(),
    ensures
        forms_view(r@) == cascaded(schema@, datoms_view(datoms@), forms_view(forms@)),
{
    let ghost all = forms_view(forms@);
    let ghost facts = datoms_view(datoms@);
    let mut extra: Vec<Form> = Vec::new();
    let mut i: usize = 0;
    proof {
        assert(all.take(0) =~= Seq::empty());
        assert(forms_view(extra@) =~= Seq::empty());
    }
    while i < forms.len()
        invariant
            i <= forms@.len(),
            schema@.well_formed(),
            all == forms_view(forms@),
            facts == datoms_view(datoms@),
            forms_view(extra@) == cascade_of(schema@, facts, all.take(i as int)),
        decreases forms@.len() - i,
    {
        proof {
            assert(all.take(i + 1).drop_last() =~= all.take(i as int));
            assert(all.take(i + 1).last() == forms@[i as int]@);
        }
        match component_of(schema, datoms, &forms[i]) {
            Some(child) => {
                push_retractions(datoms, child, &mut extra);
            },
            None => {},
        }
        i += 1;
    }
    proof {
        assert(all.take(i as int) =~= all);
    }
    let mut out = forms;
    out.append(&mut extra);
    proof {
        assert(forms_view(out@) =~= all + cascade_of(schema@, facts, all));
    }
    out
}

} // verus!
