//! Bindings of variables to values, and how a pattern extends them.

use vstd::prelude::*;
use crate::db::Entid;
use crate::edn::query::{
    ConstantView, NonIntegerConstant, NonValuePlaceView, Pattern, PatternNonValuePlace,
    PatternValuePlace, PatternView, ValuePlaceView,
};
use crate::schema::{Schema, SchemaView};
use crate::text::str_equal;
use crate::transactor::model::DatomView;
use crate::transactor::store::{datoms_view, Datom};
use crate::values::{TypedValue, TypedValueView};

verus! {

/// What bindings hold: the names of variables with their values, in the
/// order in which they were bound.
pub type EnvView = Seq<(Seq<char>, TypedValueView)>;

/// Bindings of variables to values, in the order in which they were
/// bound.
pub type Env = Vec<(String, TypedValue)>;

/// What bindings hold.
pub open spec fn env_view(env: Seq<(String, TypedValue)>) -> EnvView {
    Seq::new(env.len(), |i: int| (env[i].0@, env[i].1@))
}

/// What each of several bindings holds.
pub open spec fn envs_view(envs: Seq<Env>) -> Seq<EnvView> {
    Seq::new(envs.len(), |i: int| env_view(envs[i]@))
}

/// The value that a variable is bound to, if it is bound.
pub open spec fn bound(env: EnvView, name: Seq<char>) -> Option<TypedValueView>
    decreases env.len(),
{
    if env.len() == 0 {
        None
    } else if env[0].0 == name {
        Some(env[0].1)
    } else {
        bound(env.drop_first(), name)
    }
}

/// The bindings in which a variable has the given value: those given, if
/// the variable is bound to the value; with the variable bound to it, if
/// it is not bound; none, if it is bound to another value.
pub open spec fn unified(env: EnvView, name: Seq<char>, value: TypedValueView) -> Option<EnvView> {
    match bound(env, name) {
        Some(held) => if held == value {
            Some(env)
        } else {
            None
        },
        None => Some(env.push((name, value))),
    }
}

/// The bindings in which the entity, the attribute or the transaction of
/// a pattern is that of a datom. A variable is bound to a reference.
pub open spec fn place_fits(schema: SchemaView, place: NonValuePlaceView, e: int, env: EnvView)
    -> Option<EnvView> {
    match place {
        NonValuePlaceView::Placeholder => Some(env),
        NonValuePlaceView::Variable(name) => unified(env, name, TypedValueView::Ref(e)),
        NonValuePlaceView::Entid(n) => if n == e {
            Some(env)
        } else {
            None
        },
        NonValuePlaceView::Ident(k) => if schema.entid_of(k) == Some(e) {
            Some(env)
        } else {
            None
        },
    }
}

/// The value that a constant of a query is. A floating point number and
/// an integer of any size are no values of datoms.
pub open spec fn constant_value(c: ConstantView) -> Option<TypedValueView> {
    match c {
        ConstantView::Boolean(b) => Some(TypedValueView::Boolean(b)),
        ConstantView::Text(t) => Some(TypedValueView::String(t)),
        ConstantView::Instant(micros) => Some(TypedValueView::Instant(micros)),
        ConstantView::Uuid(u) => Some(TypedValueView::Uuid(u)),
        _ => None,
    }
}

/// The bindings in which the value of a pattern is that of a datom. An
/// integer stands for a long and for a reference; a keyword stands for
/// itself and for a reference to the entity that it names.
pub open spec fn value_fits(
    schema: SchemaView,
    place: ValuePlaceView,
    v: TypedValueView,
    env: EnvView,
) -> Option<EnvView> {
    match place {
        ValuePlaceView::Placeholder => Some(env),
        ValuePlaceView::Variable(name) => unified(env, name, v),
        ValuePlaceView::EntidOrInteger(n) => if v == TypedValueView::Long(n) || v
            == TypedValueView::Ref(n) {
            Some(env)
        } else {
            None
        },
        ValuePlaceView::IdentOrKeyword(k) => if v == TypedValueView::Keyword(k) || (v is Ref
            && schema.entid_of(k) == Some(v->Ref_0)) {
            Some(env)
        } else {
            None
        },
        ValuePlaceView::Constant(c) => if constant_value(c) == Some(v) {
            Some(env)
        } else {
            None
        },
    }
}

/// The bindings in which a pattern is a datom: its entity, its
/// attribute, its value and its transaction are those of the datom, in
/// this order.
pub open spec fn matched(schema: SchemaView, p: PatternView, d: DatomView, env: EnvView)
    -> Option<EnvView> {
    match place_fits(schema, p.entity, d.e as int, env) {
        None => None,
        Some(with_entity) => match place_fits(schema, p.attribute, d.a as int, with_entity) {
            None => None,
            Some(with_attribute) => match value_fits(schema, p.value, d.v, with_attribute) {
                None => None,
                Some(with_value) => place_fits(schema, p.tx, d.tx as int, with_value),
            },
        },
    }
}

/// The bindings that extend the given ones so that a pattern is one of
/// the datoms, in the order of the datoms.
pub open spec fn extended(schema: SchemaView, p: PatternView, datoms: Seq<DatomView>, env: EnvView)
    -> Seq<EnvView>
    decreases datoms.len(),
{
    if datoms.len() == 0 {
        Seq::empty()
    } else {
        let before = extended(schema, p, datoms.drop_last(), env);
        match matched(schema, p, datoms.last(), env) {
            Some(found) => before.push(found),
            None => before,
        }
    }
}

/// The bindings that extend one of the given ones so that a pattern is
/// one of the datoms, in the order of the bindings and then of the datoms.
pub open spec fn joined(
    schema: SchemaView,
    p: PatternView,
    datoms: Seq<DatomView>,
    envs: Seq<EnvView>,
) -> Seq<EnvView>
    decreases envs.len(),
{
    if envs.len() == 0 {
        Seq::empty()
    } else {
        joined(schema, p, datoms, envs.drop_last()) + extended(schema, p, datoms, envs.last())
    }
}

/// The position of the binding of a variable, if it is bound.
pub fn lookup(env: &Env, name: &str) -> (r: Option<usize>)
    ensures
        match r {
            Some(i) => i < env@.len() && bound(env_view(env@), name@) == Some(env@[i as int].1@),
            None => bound(env_view(env@), name@) is None,
        },
{
    let ghost all = env_view(env@);
    let mut i: usize = 0;
    proof {
        assert(all.skip(0) =~= all);
    }
    while i < env.len()
        invariant
            i <= env@.len(),
            all == env_view(env@),
            bound(all, name@) == bound(all.skip(i as int), name@),
        decreases env@.len() - i,
    {
        proof {
            assert(all.skip(i as int)[0] == all[i as int]);
            assert(all.skip(i as int).drop_first() =~= all.skip(i + 1));
        }
        if str_equal(env[i].0.as_str(), name) {
            return Some(i);
        }
        i += 1;
    }
    proof {
        assert(all.skip(i as int) =~= Seq::empty());
    }
    None
}

/// Bindings that hold what the given ones hold.
pub fn copy_env(env: &Env) -> (r: Env)
    ensures
        env_view(r@) == env_view(env@),
{
    let mut out: Env = Vec::new();
    let mut i: usize = 0;
    while i < env.len()
        invariant
            i <= env@.len(),
            out@.len() == i,
            forall|j: int| 0 <= j < i ==> out@[j].0@ == env@[j].0@ && out@[j].1@ == env@[j].1@,
        decreases env@.len() - i,
    {
        out.push((env[i].0.clone(), env[i].1.clone()));
        i += 1;
    }
    proof {
        assert(env_view(out@) =~= env_view(env@));
    }
    out
}

/// The bindings in which a variable has the given value; see
/// [`unified`].
pub fn unify(env: Env, name: &str, value: &TypedValue) -> (r: Option<Env>)
    ensures
        match r {
            Some(found) => unified(env_view(env@), name@, value@) == Some(env_view(found@)),
            None => unified(env_view(env@), name@, value@) is None,
        },
{
    match lookup(&env, name) {
        Some(i) => {
            if env[i].1.same_as(value) {
                Some(env)
            } else {
                None
            }
        },
        None => {
            let mut env = env;
            let ghost before = env_view(env@);
            env.push((name.to_string(), value.clone()));
            proof {
                assert(env_view(env@) =~= before.push((name@, value@)));
            }
            Some(env)
        },
    }
}

/// The bindings in which the entity, the attribute or the transaction of
/// a pattern is that of a datom; see [`place_fits`].
pub fn fit_place(schema: &Schema, place: &PatternNonValuePlace, e: Entid, env: Env) -> (r: Option<
    Env,
>)
    requires
        schema@.well_formed(),
    ensures
        match r {
            Some(found) => place_fits(schema@, place@, e as int, env_view(env@)) == Some(
                env_view(found@),
            ),
            None => place_fits(schema@, place@, e as int, env_view(env@)) is None,
        },
{
    match place {
        PatternNonValuePlace::Placeholder => Some(env),
        PatternNonValuePlace::Variable(v) => unify(env, v.as_str(), &TypedValue::Ref(e)),
        PatternNonValuePlace::Entid(n) => {
            if *n == e {
                Some(env)
            } else {
                None
            }
        },
        PatternNonValuePlace::Ident(k) => {
            match schema.get_entid(k) {
                Some(named) => {
                    if named == e {
                        Some(env)
                    } else {
                        None
                    }
                },
                None => None,
            }
        },
    }
}

/// The value that a constant of a query is; see [`constant_value`].
pub fn value_of_constant(c: &NonIntegerConstant) -> (r: Option<TypedValue>)
    ensures
        match r {
            Some(v) => constant_value(c@) == Some(v@),
            None => constant_value(c@) is None,
        },
{
    match c {
        NonIntegerConstant::Boolean(b) => Some(TypedValue::Boolean(*b)),
        NonIntegerConstant::Text(t) => Some(TypedValue::String(t.clone())),
        NonIntegerConstant::Instant(micros) => Some(TypedValue::Instant(*micros)),
        NonIntegerConstant::Uuid(u) => Some(TypedValue::Uuid(u.clone())),
        _ => None,
    }
}

/// The bindings in which the value of a pattern is that of a datom; see
/// [`value_fits`].
pub fn fit_value(schema: &Schema, place: &PatternValuePlace, v: &TypedValue, env: Env) -> (r:
    Option<Env>)
    requires
        schema@.well_formed(),
    ensures
        match r {
            Some(found) => value_fits(schema@, place@, v@, env_view(env@)) == Some(
                env_view(found@),
            ),
            None => value_fits(schema@, place@, v@, env_view(env@)) is None,
        },
{
    match place {
        PatternValuePlace::Placeholder => Some(env),
        PatternValuePlace::Variable(name) => unify(env, name.as_str(), v),
        PatternValuePlace::EntidOrInteger(n) => {
            let fits = match v {
                TypedValue::Long(x) => *x == *n,
                TypedValue::Ref(x) => *x == *n,
                _ => false,
            };
            if fits {
                Some(env)
            } else {
                None
            }
        },
        PatternValuePlace::IdentOrKeyword(k) => {
            let fits = match v {
                TypedValue::Keyword(held) => held.same_as(k),
                TypedValue::Ref(x) => match schema.get_entid(k) {
                    Some(named) => named == *x,
                    None => false,
                },
                _ => false,
            };
            if fits {
                Some(env)
            } else {
                None
            }
        },
        PatternValuePlace::Constant(c) => {
            let fits = match value_of_constant(c) {
                Some(value) => value.same_as(v),
                None => false,
            };
            if fits {
                Some(env)
            } else {
                None
            }
        },
    }
}

/// The bindings in which a pattern is a datom; see [`matched`].
pub fn match_datom(schema: &Schema, p: &Pattern, d: &Datom, env: &Env) -> (r: Option<Env>)
    requires
        schema@.well_formed(),
    ensures
        match r {
            Some(found) => matched(schema@, p@, d@, env_view(env@)) == Some(env_view(found@)),
            None => matched(schema@, p@, d@, env_view(env@)) is None,
        },
{
    let start = copy_env(env);
    let with_entity = match fit_place(schema, &p.entity, d.e, start) {
        Some(found) => found,
        None => {
            return None;
        },
    };
    let with_attribute = match fit_place(schema, &p.attribute, d.a, with_entity) {
        Some(found) => found,
        None => {
            return None;
        },
    };
    let with_value = match fit_value(schema, &p.value, &d.v, with_attribute) {
        Some(found) => found,
        None => {
            return None;
        },
    };
    fit_place(schema, &p.tx, d.tx, with_value)
}

/// The bindings that extend one of the given ones so that a pattern is
/// one of the datoms; see [`joined`].
pub fn join(schema: &Schema, p: &Pattern, datoms: &Vec<Datom>, envs: &Vec<Env>) -> (r: Vec<Env>)
    requires
        schema@.well_formed(),
    ensures
        envs_view(r@) == joined(schema@, p@, datoms_view(datoms@), envs_view(envs@)),
{
    let ghost all = envs_view(envs@);
    let ghost facts = datoms_view(datoms@);
    let mut out: Vec<Env> = Vec::new();
    let mut i: usize = 0;
    proof {
        assert(all.take(0) =~= Seq::empty());
        assert(envs_view(out@) =~= Seq::empty());
    }
    while i < envs.len()
        invariant
            i <= envs@.len(),
            schema@.well_formed(),
            all == envs_view(envs@),
            facts == datoms_view(datoms@),
            envs_view(out@) == joined(schema@, p@, facts, all.take(i as int)),
        decreases envs@.len() - i,
    {
        let ghost before = envs_view(out@);
        let mut j: usize = 0;
        proof {
            assert(facts.take(0) =~= Seq::empty());
            assert(before + Seq::<EnvView>::empty() =~= before);
        }
        while j < datoms.len()
            invariant
                j <= datoms@.len(),
                i < envs@.len(),
                schema@.well_formed(),
                all == envs_view(envs@),
                facts == datoms_view(datoms@),
                envs_view(out@) == before + extended(
                    schema@,
                    p@,
                    facts.take(j as int),
                    all[i as int],
                ),
            decreases datoms@.len() - j,
        {
            let ghost so_far = envs_view(out@);
            proof {
                assert(facts.take(j + 1).drop_last() =~= facts.take(j as int));
                assert(facts.take(j + 1).last() == datoms@[j as int]@);
                assert(all[i as int] == env_view(envs@[i as int]@));
            }
            match match_datom(schema, p, &datoms[j], &envs[i]) {
                Some(found) => {
                    let ghost found_view = env_view(found@);
                    out.push(found);
                    proof {
                        assert(envs_view(out@) =~= so_far.push(found_view));
                        assert(so_far.push(found_view) =~= before + extended(
                            schema@,
                            p@,
                            facts.take(j as int),
                            all[i as int],
                        ).push(found_view));
                    }
                },
                None => {},
            }
            j += 1;
        }
        proof {
            assert(facts.take(j as int) =~= facts);
            assert(all.take(i + 1).drop_last() =~= all.take(i as int));
            assert(all.take(i + 1).last() == all[i as int]);
        }
        i += 1;
    }
    proof {
        assert(all.take(i as int) =~= all);
    }
    out
}

} // verus!
