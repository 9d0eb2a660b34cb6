//! What holds of the answers to a query: each row that is found comes
//! from bindings in which every clause holds, and whatever bindings
//! every clause holds in, their row is found.

use vstd::prelude::*;
use crate::edn::clauses::{ParsedQueryView, WhereClauseView};
use crate::edn::query::{FnArgView, NonValuePlaceView, PatternView, ValuePlaceView};
use crate::query::answers::{
    answers, clause_answers, clause_fault, clauses_checked, comparison_named, filtered, find_names,
    holds, input_env, names_after, noted, operand, operand_fault, pattern_names, place_names,
    query_fault, row_of, rows_of, value_names, Comparison, QueryFault,
};
use crate::query::bindings::{
    bound, extended, joined, matched, place_fits, unified, value_fits, EnvView,
};
use crate::schema::SchemaView;
use crate::transactor::model::DatomView;
use crate::values::TypedValueView;

verus! {

/// Whether bindings start with other bindings: they bind what the others
/// bind, and perhaps more after it.
pub open spec fn extends(big: EnvView, small: EnvView) -> bool {
    small.len() <= big.len() && big.take(small.len() as int) == small
}

/// Whether a pattern is one of the datoms in the bindings: the bindings
/// need nothing more to match the datom.
pub open spec fn pattern_holds(
    schema: SchemaView,
    p: PatternView,
    datoms: Seq<DatomView>,
    env: EnvView,
) -> bool {
    exists|i: int| 0 <= i < datoms.len() && #[trigger] matched(schema, p, datoms[i], env) == Some(env)
}

/// Whether a clause holds in the bindings: a pattern is one of the
/// datoms, a comparison holds of its arguments.
pub open spec fn clause_holds(
    schema: SchemaView,
    datoms: Seq<DatomView>,
    clause: WhereClauseView,
    env: EnvView,
) -> bool {
    match clause {
        WhereClauseView::Pattern(p) => pattern_holds(schema, p, datoms, env),
        WhereClauseView::Pred { operator, args } => match comparison_named(operator) {
            Some(c) => holds(c, args, env),
            None => true,
        },
        _ => true,
    }
}

/// Bindings that start with others start with what those start with.
pub proof fn lemma_extends_chain(big: EnvView, mid: EnvView, small: EnvView)
    requires
        extends(big, mid),
        extends(mid, small),
    ensures
        extends(big, small),
{
    assert(big.take(small.len() as int) =~= big.take(mid.len() as int).take(small.len() as int));
}

/// What bindings bind, bindings that start with them bind to the same
/// value.
pub proof fn lemma_bound_kept(small: EnvView, big: EnvView, name: Seq<char>)
    requires
        extends(big, small),
        bound(small, name) is Some,
    ensures
        bound(big, name) == bound(small, name),
    decreases small.len(),
{
    assert(small.len() > 0);
    assert(big.take(small.len() as int)[0] == big[0]);
    if small[0].0 != name {
        assert(big.drop_first().take(small.len() - 1) =~= big.take(
            small.len() as int,
        ).drop_first());
        lemma_bound_kept(small.drop_first(), big.drop_first(), name);
    }
}

/// A variable that is bound last, and was not bound, is bound to its
/// value.
pub proof fn lemma_bound_new(env: EnvView, name: Seq<char>, value: TypedValueView)
    requires
        bound(env, name) is None,
    ensures
        bound(env.push((name, value)), name) == Some(value),
    decreases env.len(),
{
    let more = env.push((name, value));
    if env.len() > 0 {
        assert(more[0] == env[0]);
        assert(more.drop_first() =~= env.drop_first().push((name, value)));
        lemma_bound_new(env.drop_first(), name, value);
    } else {
        assert(more.drop_first() =~= Seq::<(Seq<char>, TypedValueView)>::empty());
    }
}

/// The bindings in which a variable has a value start with the given
/// ones and bind the variable to the value.
pub proof fn lemma_unified(env: EnvView, name: Seq<char>, value: TypedValueView)
    requires
        unified(env, name, value) is Some,
    ensures
        extends(unified(env, name, value)->0, env),
        bound(unified(env, name, value)->0, name) == Some(value),
{
    let found = unified(env, name, value)->0;
    if bound(env, name) is None {
        lemma_bound_new(env, name, value);
        assert(found.take(env.len() as int) =~= env);
    } else {
        assert(found.take(env.len() as int) =~= env);
    }
}

/// Bindings that bind a variable to a value need nothing more for the
/// variable to have the value.
pub proof fn lemma_unified_kept(
    env: EnvView,
    name: Seq<char>,
    value: TypedValueView,
    more: EnvView,
)
    requires
        unified(env, name, value) is Some,
        extends(more, unified(env, name, value)->0),
    ensures
        unified(more, name, value) == Some(more),
{
    lemma_unified(env, name, value);
    lemma_bound_kept(unified(env, name, value)->0, more, name);
}

/// The bindings in which a place of a pattern is that of a datom start
/// with the given ones, and bindings that start with them need nothing
/// more.
pub proof fn lemma_place_kept(
    schema: SchemaView,
    place: NonValuePlaceView,
    e: int,
    env: EnvView,
    more: EnvView,
)
    requires
        place_fits(schema, place, e, env) is Some,
        extends(more, place_fits(schema, place, e, env)->0),
    ensures
        extends(place_fits(schema, place, e, env)->0, env),
        place_fits(schema, place, e, more) == Some(more),
{
    match place {
        NonValuePlaceView::Variable(name) => {
            lemma_unified(env, name, TypedValueView::Ref(e));
            lemma_unified_kept(env, name, TypedValueView::Ref(e), more);
        },
        _ => {
            assert(env.take(env.len() as int) =~= env);
        },
    }
}

/// The bindings in which the value of a pattern is that of a datom start
/// with the given ones, and bindings that start with them need nothing
/// more.
pub proof fn lemma_value_kept(
    schema: SchemaView,
    place: ValuePlaceView,
    v: TypedValueView,
    env: EnvView,
    more: EnvView,
)
    requires
        value_fits(schema, place, v, env) is Some,
        extends(more, value_fits(schema, place, v, env)->0),
    ensures
        extends(value_fits(schema, place, v, env)->0, env),
        value_fits(schema, place, v, more) == Some(more),
{
    match place {
        ValuePlaceView::Variable(name) => {
            lemma_unified(env, name, v);
            lemma_unified_kept(env, name, v, more);
        },
        _ => {
            assert(env.take(env.len() as int) =~= env);
        },
    }
}

/// The bindings in which a pattern is a datom start with the given ones,
/// and in bindings that start with them the pattern is the datom.
pub proof fn lemma_matched_kept(
    schema: SchemaView,
    p: PatternView,
    d: DatomView,
    env: EnvView,
    more: EnvView,
)
    requires
        matched(schema, p, d, env) is Some,
        extends(more, matched(schema, p, d, env)->0),
    ensures
        extends(matched(schema, p, d, env)->0, env),
        matched(schema, p, d, more) == Some(more),
{
    let with_entity = place_fits(schema, p.entity, d.e as int, env)->0;
    let with_attribute = place_fits(schema, p.attribute, d.a as int, with_entity)->0;
    let with_value = value_fits(schema, p.value, d.v, with_attribute)->0;
    let with_tx = place_fits(schema, p.tx, d.tx as int, with_value)->0;
    lemma_place_kept(schema, p.tx, d.tx as int, with_value, more);
    lemma_extends_chain(more, with_tx, with_value);
    lemma_value_kept(schema, p.value, d.v, with_attribute, more);
    lemma_extends_chain(more, with_value, with_attribute);
    lemma_place_kept(schema, p.attribute, d.a as int, with_entity, more);
    lemma_extends_chain(more, with_attribute, with_entity);
    lemma_place_kept(schema, p.entity, d.e as int, env, more);
    lemma_extends_chain(with_attribute, with_entity, env);
    lemma_extends_chain(with_value, with_attribute, env);
    lemma_extends_chain(with_tx, with_value, env);
}

/// A clause that holds in bindings holds in bindings that start with
/// them.
pub proof fn lemma_clause_kept(
    schema: SchemaView,
    datoms: Seq<DatomView>,
    clause: WhereClauseView,
    env: EnvView,
    more: EnvView,
)
    requires
        clause_holds(schema, datoms, clause, env),
        extends(more, env),
    ensures
        clause_holds(schema, datoms, clause, more),
{
    match clause {
        WhereClauseView::Pattern(p) => {
            let i = choose|i: int|
                0 <= i < datoms.len() && #[trigger] matched(schema, p, datoms[i], env) == Some(
                    env,
                );
            lemma_matched_kept(schema, p, datoms[i], env, more);
        },
        WhereClauseView::Pred { operator, args } => {
            match comparison_named(operator) {
                Some(c) => {
                    lemma_operand_kept(args[0], env, more);
                    lemma_operand_kept(args[1], env, more);
                },
                None => {},
            }
        },
        _ => {},
    }
}

/// The number that an argument is in bindings, it is in bindings that
/// start with them.
pub proof fn lemma_operand_kept(arg: FnArgView, env: EnvView, more: EnvView)
    requires
        operand(arg, env) is Some,
        extends(more, env),
    ensures
        operand(arg, more) == operand(arg, env),
{
    match arg {
        FnArgView::Variable(name) => {
            lemma_bound_kept(env, more, name);
        },
        _ => {},
    }
}

/// Each of the bindings that extend the given ones by a pattern matches
/// one of the datoms.
pub proof fn lemma_extended_members(
    schema: SchemaView,
    p: PatternView,
    datoms: Seq<DatomView>,
    env: EnvView,
    k: int,
)
    requires
        0 <= k < extended(schema, p, datoms, env).len(),
    ensures
        exists|i: int|
            0 <= i < datoms.len() && #[trigger] matched(schema, p, datoms[i], env) == Some(
                extended(schema, p, datoms, env)[k],
            ),
    decreases datoms.len(),
{
    let before = extended(schema, p, datoms.drop_last(), env);
    if k < before.len() {
        lemma_extended_members(schema, p, datoms.drop_last(), env, k);
        let i = choose|i: int|
            0 <= i < datoms.drop_last().len() && #[trigger] matched(
                schema,
                p,
                datoms.drop_last()[i],
                env,
            ) == Some(before[k]);
        assert(datoms.drop_last()[i] == datoms[i]);
        assert(matched(schema, p, datoms[i], env) == Some(extended(schema, p, datoms, env)[k]));
    } else {
        let i = datoms.len() - 1;
        assert(matched(schema, p, datoms[i], env) == Some(extended(schema, p, datoms, env)[k]));
    }
}

/// Each of the bindings that a pattern makes of the given ones holds the
/// pattern and starts with one of the given ones.
pub proof fn lemma_joined_members(
    schema: SchemaView,
    p: PatternView,
    datoms: Seq<DatomView>,
    envs: Seq<EnvView>,
    k: int,
)
    requires
        0 <= k < joined(schema, p, datoms, envs).len(),
    ensures
        pattern_holds(schema, p, datoms, joined(schema, p, datoms, envs)[k]),
        exists|j: int|
            0 <= j < envs.len() && extends(joined(schema, p, datoms, envs)[k], #[trigger] envs[j]),
    decreases envs.len(),
{
    let before = joined(schema, p, datoms, envs.drop_last());
    let found = joined(schema, p, datoms, envs)[k];
    if k < before.len() {
        lemma_joined_members(schema, p, datoms, envs.drop_last(), k);
        let j = choose|j: int|
            0 <= j < envs.drop_last().len() && extends(before[k], #[trigger] envs.drop_last()[j]);
        assert(envs.drop_last()[j] == envs[j]);
        assert(found == before[k]);
    } else {
        let env = envs.last();
        lemma_extended_members(schema, p, datoms, env, k - before.len());
        let i = choose|i: int|
            0 <= i < datoms.len() && #[trigger] matched(schema, p, datoms[i], env) == Some(found);
        assert(found.take(found.len() as int) =~= found);
        lemma_matched_kept(schema, p, datoms[i], env, found);
        assert(matched(schema, p, datoms[i], found) == Some(found));
        assert(envs[envs.len() - 1] == env);
    }
}

/// Each of the bindings that a comparison keeps is one of the given
/// ones, and the comparison holds in it.
pub proof fn lemma_filtered_members(
    c: Comparison,
    args: Seq<FnArgView>,
    envs: Seq<EnvView>,
    k: int,
)
    requires
        0 <= k < filtered(c, args, envs).len(),
    ensures
        holds(c, args, filtered(c, args, envs)[k]),
        exists|j: int| 0 <= j < envs.len() && filtered(c, args, envs)[k] == #[trigger] envs[j],
    decreases envs.len(),
{
    let before = filtered(c, args, envs.drop_last());
    if k < before.len() {
        lemma_filtered_members(c, args, envs.drop_last(), k);
        let j = choose|j: int|
            0 <= j < envs.drop_last().len() && before[k] == #[trigger] envs.drop_last()[j];
        assert(envs.drop_last()[j] == envs[j]);
    } else {
        assert(filtered(c, args, envs)[k] == envs[envs.len() - 1]);
    }
}

/// Each of the bindings that a clause makes of the given ones holds the
/// clause and starts with one of the given ones.
pub proof fn lemma_clause_members(
    schema: SchemaView,
    datoms: Seq<DatomView>,
    clause: WhereClauseView,
    envs: Seq<EnvView>,
    k: int,
)
    requires
        0 <= k < clause_answers(schema, datoms, clause, envs).len(),
    ensures
        clause_holds(schema, datoms, clause, clause_answers(schema, datoms, clause, envs)[k]),
        exists|j: int|
            0 <= j < envs.len() && extends(
                clause_answers(schema, datoms, clause, envs)[k],
                #[trigger] envs[j],
            ),
{
    let found = clause_answers(schema, datoms, clause, envs)[k];
    match clause {
        WhereClauseView::Pattern(p) => {
            lemma_joined_members(schema, p, datoms, envs, k);
        },
        WhereClauseView::Pred { operator, args } => {
            match comparison_named(operator) {
                Some(c) => {
                    lemma_filtered_members(c, args, envs, k);
                    let j = choose|j: int| 0 <= j < envs.len() && found == #[trigger] envs[j];
                    assert(found.take(found.len() as int) =~= found);
                    assert(extends(found, envs[j]));
                },
                None => {
                    assert(found.take(found.len() as int) =~= found);
                    assert(extends(found, envs[k]));
                },
            }
        },
        _ => {
            assert(found.take(found.len() as int) =~= found);
            assert(extends(found, envs[k]));
        },
    }
}

/// Where the clauses before `at` hold in each of the given bindings,
/// every clause holds in each of the bindings that the clauses from `at`
/// on make of them, and each of those starts with one of the given ones.
pub proof fn lemma_answers_hold(
    schema: SchemaView,
    datoms: Seq<DatomView>,
    clauses: Seq<WhereClauseView>,
    at: int,
    envs: Seq<EnvView>,
    k: int,
)
    requires
        0 <= at <= clauses.len(),
        forall|j: int, i: int|
            0 <= j < envs.len() && 0 <= i < at ==> clause_holds(
                schema,
                datoms,
                #[trigger] clauses[i],
                #[trigger] envs[j],
            ),
        0 <= k < answers(schema, datoms, clauses, at, envs).len(),
    ensures
        forall|i: int|
            0 <= i < clauses.len() ==> clause_holds(
                schema,
                datoms,
                #[trigger] clauses[i],
                answers(schema, datoms, clauses, at, envs)[k],
            ),
        exists|j: int|
            0 <= j < envs.len() && extends(
                answers(schema, datoms, clauses, at, envs)[k],
                #[trigger] envs[j],
            ),
    decreases clauses.len() - at,
{
    let found = answers(schema, datoms, clauses, at, envs)[k];
    if at == clauses.len() {
        assert(found.take(found.len() as int) =~= found);
        assert(extends(found, envs[k]));
    } else {
        let next = clause_answers(schema, datoms, clauses[at], envs);
        assert forall|j: int, i: int| 0 <= j < next.len() && 0 <= i < at + 1 implies clause_holds(
            schema,
            datoms,
            #[trigger] clauses[i],
            #[trigger] next[j],
        ) by {
            lemma_clause_members(schema, datoms, clauses[at], envs, j);
            if i < at {
                let from = choose|from: int|
                    0 <= from < envs.len() && extends(next[j], #[trigger] envs[from]);
                lemma_clause_kept(schema, datoms, clauses[i], envs[from], next[j]);
            }
        }
        lemma_answers_hold(schema, datoms, clauses, at + 1, next, k);
        let mid = choose|mid: int| 0 <= mid < next.len() && extends(found, #[trigger] next[mid]);
        lemma_clause_members(schema, datoms, clauses[at], envs, mid);
        let from = choose|from: int|
            0 <= from < envs.len() && extends(next[mid], #[trigger] envs[from]);
        lemma_extends_chain(found, next[mid], envs[from]);
    }
}

/// Each row that is found is the row of one of the bindings.
pub proof fn lemma_rows_members(names: Seq<Seq<char>>, envs: Seq<EnvView>, k: int)
    requires
        0 <= k < rows_of(names, envs).len(),
    ensures
        exists|j: int|
            0 <= j < envs.len() && row_of(names, #[trigger] envs[j]) == Some(
                rows_of(names, envs)[k],
            ),
    decreases envs.len(),
{
    let before = rows_of(names, envs.drop_last());
    if k < before.len() {
        lemma_rows_members(names, envs.drop_last(), k);
        let j = choose|j: int|
            0 <= j < envs.drop_last().len() && row_of(names, #[trigger] envs.drop_last()[j])
                == Some(before[k]);
        assert(envs.drop_last()[j] == envs[j]);
        assert(rows_of(names, envs)[k] == before[k]);
    } else {
        assert(row_of(names, envs[envs.len() - 1]) == Some(rows_of(names, envs)[k]));
    }
}

/// Whether what bindings bind, others bind to the same values.
pub open spec fn agrees(small: EnvView, big: EnvView) -> bool {
    forall|name: Seq<char>| #[trigger]
        bound(small, name) is Some ==> bound(big, name) == bound(small, name)
}

/// Whether bindings bind each of the variables.
pub open spec fn binds_all(env: EnvView, names: Seq<Seq<char>>) -> bool {
    forall|i: int| 0 <= i < names.len() ==> bound(env, #[trigger] names[i]) is Some
}

/// What bindings with one more at the end bind a variable to: what the
/// bindings before bind it to, or else, for the variable that was added,
/// the value added.
pub proof fn lemma_bound_push(
    env: EnvView,
    name: Seq<char>,
    value: TypedValueView,
    other: Seq<char>,
)
    ensures
        bound(env.push((name, value)), other) == (if bound(env, other) is Some {
            bound(env, other)
        } else if other == name {
            Some(value)
        } else {
            None
        }),
    decreases env.len(),
{
    let more = env.push((name, value));
    if env.len() > 0 {
        assert(more[0] == env[0]);
        assert(more.drop_first() =~= env.drop_first().push((name, value)));
        lemma_bound_push(env.drop_first(), name, value, other);
    } else {
        assert(more.drop_first() =~= Seq::<(Seq<char>, TypedValueView)>::empty());
        assert(bound(more.drop_first(), other) is None);
        assert(more[0] == (name, value));
    }
}

/// Each of the variables in bindings is bound.
pub proof fn lemma_bound_present(env: EnvView, i: int)
    requires
        0 <= i < env.len(),
    ensures
        bound(env, env[i].0) is Some,
    decreases env.len(),
{
    if i > 0 && env[0].0 != env[i].0 {
        assert(env.drop_first()[i - 1] == env[i]);
        lemma_bound_present(env.drop_first(), i - 1);
    }
}

/// Bindings that start with others and are as long are the same.
pub proof fn lemma_extends_same(big: EnvView, small: EnvView)
    requires
        extends(big, small),
        big.len() <= small.len(),
    ensures
        big == small,
{
    assert(big.take(small.len() as int) =~= big);
}

/// In bindings that agree with others in which a variable has a value,
/// the variable can have the value, and the bindings then still agree.
pub proof fn lemma_unified_agrees(
    env: EnvView,
    all: EnvView,
    name: Seq<char>,
    value: TypedValueView,
)
    requires
        agrees(env, all),
        bound(all, name) == Some(value),
    ensures
        unified(env, name, value) is Some,
        agrees(unified(env, name, value)->0, all),
{
    if bound(env, name) is None {
        let more = env.push((name, value));
        assert forall|other: Seq<char>| #[trigger] bound(more, other) is Some implies bound(
            all,
            other,
        ) == bound(more, other) by {
            lemma_bound_push(env, name, value, other);
            if bound(env, other) is Some {
            }
        }
    }
}

/// Where bindings need nothing more for a variable to have a value, they
/// bind it to the value.
pub proof fn lemma_unified_same(env: EnvView, name: Seq<char>, value: TypedValueView)
    requires
        unified(env, name, value) == Some(env),
    ensures
        bound(env, name) == Some(value),
{
    if bound(env, name) is None {
        assert(env.push((name, value)).len() == env.len() + 1);
    }
}

/// In bindings that agree with others in which a place of a pattern is
/// that of a datom, the place can be that of the datom, and the bindings
/// then still agree.
pub proof fn lemma_place_agrees(
    schema: SchemaView,
    place: NonValuePlaceView,
    e: int,
    env: EnvView,
    all: EnvView,
)
    requires
        agrees(env, all),
        place_fits(schema, place, e, all) == Some(all),
    ensures
        place_fits(schema, place, e, env) is Some,
        agrees(place_fits(schema, place, e, env)->0, all),
{
    match place {
        NonValuePlaceView::Variable(name) => {
            lemma_unified_same(all, name, TypedValueView::Ref(e));
            lemma_unified_agrees(env, all, name, TypedValueView::Ref(e));
        },
        _ => {},
    }
}

/// In bindings that agree with others in which the value of a pattern is
/// that of a datom, the value can be that of the datom, and the bindings
/// then still agree.
pub proof fn lemma_value_agrees(
    schema: SchemaView,
    place: ValuePlaceView,
    v: TypedValueView,
    env: EnvView,
    all: EnvView,
)
    requires
        agrees(env, all),
        value_fits(schema, place, v, all) == Some(all),
    ensures
        value_fits(schema, place, v, env) is Some,
        agrees(value_fits(schema, place, v, env)->0, all),
{
    match place {
        ValuePlaceView::Variable(name) => {
            lemma_unified_same(all, name, v);
            lemma_unified_agrees(env, all, name, v);
        },
        _ => {},
    }
}

/// Where bindings need nothing more for a pattern to be a datom, they
/// need nothing more for each place of the pattern.
pub proof fn lemma_matched_same(schema: SchemaView, p: PatternView, d: DatomView, all: EnvView)
    requires
        matched(schema, p, d, all) == Some(all),
    ensures
        place_fits(schema, p.entity, d.e as int, all) == Some(all),
        place_fits(schema, p.attribute, d.a as int, all) == Some(all),
        value_fits(schema, p.value, d.v, all) == Some(all),
        place_fits(schema, p.tx, d.tx as int, all) == Some(all),
{
    let with_entity = place_fits(schema, p.entity, d.e as int, all)->0;
    let with_attribute = place_fits(schema, p.attribute, d.a as int, with_entity)->0;
    let with_value = value_fits(schema, p.value, d.v, with_attribute)->0;
    assert(with_entity.take(with_entity.len() as int) =~= with_entity);
    assert(with_attribute.take(with_attribute.len() as int) =~= with_attribute);
    assert(with_value.take(with_value.len() as int) =~= with_value);
    assert(all.take(all.len() as int) =~= all);
    lemma_place_kept(schema, p.entity, d.e as int, all, with_entity);
    lemma_place_kept(schema, p.attribute, d.a as int, with_entity, with_attribute);
    lemma_value_kept(schema, p.value, d.v, with_attribute, with_value);
    lemma_place_kept(schema, p.tx, d.tx as int, with_value, all);
    lemma_extends_same(with_value, all);
    lemma_extends_same(with_attribute, all);
    lemma_extends_same(with_entity, all);
}

/// In bindings that agree with others in which a pattern is a datom, the
/// pattern can be the datom, and the bindings then still agree.
pub proof fn lemma_matched_agrees(
    schema: SchemaView,
    p: PatternView,
    d: DatomView,
    env: EnvView,
    all: EnvView,
)
    requires
        agrees(env, all),
        matched(schema, p, d, all) == Some(all),
    ensures
        matched(schema, p, d, env) is Some,
        agrees(matched(schema, p, d, env)->0, all),
{
    lemma_matched_same(schema, p, d, all);
    lemma_place_agrees(schema, p.entity, d.e as int, env, all);
    let with_entity = place_fits(schema, p.entity, d.e as int, env)->0;
    lemma_place_agrees(schema, p.attribute, d.a as int, with_entity, all);
    let with_attribute = place_fits(schema, p.attribute, d.a as int, with_entity)->0;
    lemma_value_agrees(schema, p.value, d.v, with_attribute, all);
    let with_value = value_fits(schema, p.value, d.v, with_attribute)->0;
    lemma_place_agrees(schema, p.tx, d.tx as int, with_value, all);
}

/// The bindings in which a pattern is one of the datoms are among those
/// that extend the given ones by the pattern.
pub proof fn lemma_extended_has(
    schema: SchemaView,
    p: PatternView,
    datoms: Seq<DatomView>,
    env: EnvView,
    i: int,
)
    requires
        0 <= i < datoms.len(),
        matched(schema, p, datoms[i], env) is Some,
    ensures
        extended(schema, p, datoms, env).contains(matched(schema, p, datoms[i], env)->0),
    decreases datoms.len(),
{
    let found = matched(schema, p, datoms[i], env)->0;
    let all = extended(schema, p, datoms, env);
    let before = extended(schema, p, datoms.drop_last(), env);
    if i == datoms.len() - 1 {
        assert(all[all.len() - 1] == found);
    } else {
        assert(datoms.drop_last()[i] == datoms[i]);
        lemma_extended_has(schema, p, datoms.drop_last(), env, i);
        let k = choose|k: int| 0 <= k < before.len() && before[k] == found;
        assert(all[k] == found);
    }
}

/// The bindings in which a pattern is one of the datoms, starting from
/// one of the given bindings, are among those that the pattern makes of
/// the given ones.
pub proof fn lemma_joined_has(
    schema: SchemaView,
    p: PatternView,
    datoms: Seq<DatomView>,
    envs: Seq<EnvView>,
    j: int,
    i: int,
)
    requires
        0 <= j < envs.len(),
        0 <= i < datoms.len(),
        matched(schema, p, datoms[i], envs[j]) is Some,
    ensures
        joined(schema, p, datoms, envs).contains(matched(schema, p, datoms[i], envs[j])->0),
    decreases envs.len(),
{
    let found = matched(schema, p, datoms[i], envs[j])->0;
    let all = joined(schema, p, datoms, envs);
    let before = joined(schema, p, datoms, envs.drop_last());
    let last = extended(schema, p, datoms, envs.last());
    if j == envs.len() - 1 {
        lemma_extended_has(schema, p, datoms, envs.last(), i);
        let k = choose|k: int| 0 <= k < last.len() && last[k] == found;
        assert(all[before.len() + k] == found);
    } else {
        assert(envs.drop_last()[j] == envs[j]);
        lemma_joined_has(schema, p, datoms, envs.drop_last(), j, i);
        let k = choose|k: int| 0 <= k < before.len() && before[k] == found;
        assert(all[k] == found);
    }
}

/// The bindings in which a comparison holds are among those that it
/// keeps.
pub proof fn lemma_filtered_has(c: Comparison, args: Seq<FnArgView>, envs: Seq<EnvView>, j: int)
    requires
        0 <= j < envs.len(),
        holds(c, args, envs[j]),
    ensures
        filtered(c, args, envs).contains(envs[j]),
    decreases envs.len(),
{
    let all = filtered(c, args, envs);
    let before = filtered(c, args, envs.drop_last());
    if j == envs.len() - 1 {
        assert(all[all.len() - 1] == envs[j]);
    } else {
        assert(envs.drop_last()[j] == envs[j]);
        lemma_filtered_has(c, args, envs.drop_last(), j);
        let k = choose|k: int| 0 <= k < before.len() && before[k] == envs[j];
        assert(all[k] == envs[j]);
    }
}

/// Each of the bindings that a pattern makes of the given ones is what
/// matching one of the datoms makes of one of the given ones.
pub proof fn lemma_joined_sources(
    schema: SchemaView,
    p: PatternView,
    datoms: Seq<DatomView>,
    envs: Seq<EnvView>,
    k: int,
)
    requires
        0 <= k < joined(schema, p, datoms, envs).len(),
    ensures
        exists|j: int, i: int|
            0 <= j < envs.len() && 0 <= i < datoms.len() && #[trigger] matched(
                schema,
                p,
                datoms[i],
                envs[j],
            ) == Some(joined(schema, p, datoms, envs)[k]),
    decreases envs.len(),
{
    let before = joined(schema, p, datoms, envs.drop_last());
    let found = joined(schema, p, datoms, envs)[k];
    if k < before.len() {
        lemma_joined_sources(schema, p, datoms, envs.drop_last(), k);
        let (j, i) = choose|j: int, i: int|
            0 <= j < envs.drop_last().len() && 0 <= i < datoms.len() && #[trigger] matched(
                schema,
                p,
                datoms[i],
                envs.drop_last()[j],
            ) == Some(before[k]);
        assert(envs.drop_last()[j] == envs[j]);
        assert(matched(schema, p, datoms[i], envs[j]) == Some(found));
    } else {
        let env = envs.last();
        lemma_extended_members(schema, p, datoms, env, k - before.len());
        let i = choose|i: int|
            0 <= i < datoms.len() && #[trigger] matched(schema, p, datoms[i], env) == Some(found);
        assert(matched(schema, p, datoms[i], envs[envs.len() - 1]) == Some(found));
    }
}

/// Bindings that start with others bind the variables that those bind.
pub proof fn lemma_binds_kept(env: EnvView, more: EnvView, names: Seq<Seq<char>>)
    requires
        binds_all(env, names),
        extends(more, env),
    ensures
        binds_all(more, names),
{
    assert forall|i: int| 0 <= i < names.len() implies bound(more, #[trigger] names[i])
        is Some by {
        lemma_bound_kept(env, more, names[i]);
    }
}

/// Bindings that bind the variables and one more bind the variables with
/// that one.
pub proof fn lemma_binds_noted(env: EnvView, names: Seq<Seq<char>>, name: Seq<char>)
    requires
        binds_all(env, names),
        bound(env, name) is Some,
    ensures
        binds_all(env, noted(names, name)),
{
}

/// The bindings in which a pattern is a datom bind the variables of the
/// pattern, and those that were bound.
pub proof fn lemma_matched_binds(
    schema: SchemaView,
    p: PatternView,
    d: DatomView,
    env: EnvView,
    names: Seq<Seq<char>>,
)
    requires
        matched(schema, p, d, env) is Some,
        binds_all(env, names),
    ensures
        binds_all(matched(schema, p, d, env)->0, pattern_names(p, names)),
{
    let found = matched(schema, p, d, env)->0;
    assert(found.take(found.len() as int) =~= found);
    lemma_matched_kept(schema, p, d, env, found);
    lemma_matched_same(schema, p, d, found);
    lemma_binds_kept(env, found, names);
    let with_entity = place_names(p.entity, names);
    match p.entity {
        NonValuePlaceView::Variable(name) => {
            lemma_unified_same(found, name, TypedValueView::Ref(d.e as int));
            lemma_binds_noted(found, names, name);
        },
        _ => {},
    }
    let with_attribute = place_names(p.attribute, with_entity);
    match p.attribute {
        NonValuePlaceView::Variable(name) => {
            lemma_unified_same(found, name, TypedValueView::Ref(d.a as int));
            lemma_binds_noted(found, with_entity, name);
        },
        _ => {},
    }
    let with_value = value_names(p.value, with_attribute);
    match p.value {
        ValuePlaceView::Variable(name) => {
            lemma_unified_same(found, name, d.v);
            lemma_binds_noted(found, with_attribute, name);
        },
        _ => {},
    }
    match p.tx {
        NonValuePlaceView::Variable(name) => {
            lemma_unified_same(found, name, TypedValueView::Ref(d.tx as int));
            lemma_binds_noted(found, with_value, name);
        },
        _ => {},
    }
}

/// Each of the bindings that a clause makes of bindings that bind the
/// variables binds the variables that are bound after the clause.
pub proof fn lemma_clause_binds(
    schema: SchemaView,
    datoms: Seq<DatomView>,
    clause: WhereClauseView,
    envs: Seq<EnvView>,
    names: Seq<Seq<char>>,
    k: int,
)
    requires
        forall|j: int| 0 <= j < envs.len() ==> binds_all(#[trigger] envs[j], names),
        0 <= k < clause_answers(schema, datoms, clause, envs).len(),
    ensures
        binds_all(clause_answers(schema, datoms, clause, envs)[k], names_after(clause, names)),
{
    let found = clause_answers(schema, datoms, clause, envs)[k];
    match clause {
        WhereClauseView::Pattern(p) => {
            lemma_joined_sources(schema, p, datoms, envs, k);
            let (j, i) = choose|j: int, i: int|
                0 <= j < envs.len() && 0 <= i < datoms.len() && #[trigger] matched(
                    schema,
                    p,
                    datoms[i],
                    envs[j],
                ) == Some(found);
            assert(binds_all(envs[j], names));
            lemma_matched_binds(schema, p, datoms[i], envs[j], names);
        },
        WhereClauseView::Pred { operator, args } => {
            match comparison_named(operator) {
                Some(c) => {
                    lemma_filtered_members(c, args, envs, k);
                    let j = choose|j: int| 0 <= j < envs.len() && found == #[trigger] envs[j];
                    assert(binds_all(envs[j], names));
                },
                None => {
                    assert(binds_all(envs[k], names));
                },
            }
        },
        _ => {
            assert(binds_all(envs[k], names));
        },
    }
}

/// The number that an argument is in bindings that agree with others
/// and bind the variables, where the argument can be compared.
pub proof fn lemma_operand_agrees(
    arg: FnArgView,
    env: EnvView,
    all: EnvView,
    names: Seq<Seq<char>>,
)
    requires
        agrees(env, all),
        binds_all(env, names),
        operand_fault(arg, names) is None,
    ensures
        operand(arg, env) == operand(arg, all),
{
    match arg {
        FnArgView::Variable(name) => {
            let i = choose|i: int| 0 <= i < names.len() && names[i] == name;
            assert(bound(env, names[i]) is Some);
        },
        _ => {},
    }
}

/// Where the clauses from `at` on can be answered and hold in some
/// bindings with which one of the given bindings agrees, one of the
/// bindings that the clauses make of the given ones agrees with them,
/// and binds the variables that are bound after the clauses.
pub proof fn lemma_answers_reach(
    schema: SchemaView,
    datoms: Seq<DatomView>,
    clauses: Seq<WhereClauseView>,
    at: int,
    envs: Seq<EnvView>,
    names: Seq<Seq<char>>,
    all: EnvView,
)
    requires
        0 <= at <= clauses.len(),
        clauses_checked(clauses, at, names) is Ok,
        forall|j: int| 0 <= j < envs.len() ==> binds_all(#[trigger] envs[j], names),
        exists|j: int| 0 <= j < envs.len() && agrees(#[trigger] envs[j], all),
        forall|i: int|
            at <= i < clauses.len() ==> clause_holds(schema, datoms, #[trigger] clauses[i], all),
    ensures
        exists|k: int|
            0 <= k < answers(schema, datoms, clauses, at, envs).len() && agrees(
                #[trigger] answers(schema, datoms, clauses, at, envs)[k],
                all,
            ) && binds_all(
                answers(schema, datoms, clauses, at, envs)[k],
                clauses_checked(clauses, at, names)->Ok_0,
            ),
    decreases clauses.len() - at,
{
    let j = choose|j: int| 0 <= j < envs.len() && agrees(#[trigger] envs[j], all);
    if at == clauses.len() {
        assert(answers(schema, datoms, clauses, at, envs) == envs);
        assert(clauses_checked(clauses, at, names) == Ok::<Seq<Seq<char>>, QueryFault>(names));
        assert(binds_all(envs[j], names));
        assert(agrees(envs[j], all));
    } else {
        let clause = clauses[at];
        let next = clause_answers(schema, datoms, clause, envs);
        let after = names_after(clause, names);
        assert(clause_holds(schema, datoms, clauses[at], all));
        assert(binds_all(envs[j], names));
        assert forall|k: int| 0 <= k < next.len() implies binds_all(#[trigger] next[k], after) by {
            lemma_clause_binds(schema, datoms, clause, envs, names, k);
        }
        match clause {
            WhereClauseView::Pattern(p) => {
                let i = choose|i: int|
                    0 <= i < datoms.len() && #[trigger] matched(schema, p, datoms[i], all) == Some(
                        all,
                    );
                lemma_matched_agrees(schema, p, datoms[i], envs[j], all);
                lemma_joined_has(schema, p, datoms, envs, j, i);
                let found = matched(schema, p, datoms[i], envs[j])->0;
                let k = choose|k: int| 0 <= k < next.len() && next[k] == found;
                assert(agrees(next[k], all));
            },
            WhereClauseView::Pred { operator, args } => {
                let c = comparison_named(operator)->0;
                lemma_operand_agrees(args[0], envs[j], all, names);
                lemma_operand_agrees(args[1], envs[j], all, names);
                lemma_filtered_has(c, args, envs, j);
                let k = choose|k: int| 0 <= k < next.len() && next[k] == envs[j];
                assert(agrees(next[k], all));
            },
            _ => {},
        }
        assert(clause_fault(clause, names) is None);
        assert(clauses_checked(clauses, at, names) == clauses_checked(clauses, at + 1, after));
        assert(answers(schema, datoms, clauses, at, envs) == answers(
            schema,
            datoms,
            clauses,
            at + 1,
            next,
        ));
        lemma_answers_reach(schema, datoms, clauses, at + 1, next, after, all);
        let found = answers(schema, datoms, clauses, at + 1, next);
        let k = choose|k: int|
            0 <= k < found.len() && agrees(#[trigger] found[k], all) && binds_all(
                found[k],
                clauses_checked(clauses, at + 1, after)->Ok_0,
            );
        assert(agrees(answers(schema, datoms, clauses, at, envs)[k], all));
    }
}

/// The row of the variables in bindings that bind them is their row in
/// bindings that those agree with.
pub proof fn lemma_row_agrees(names: Seq<Seq<char>>, env: EnvView, all: EnvView)
    requires
        binds_all(env, names),
        agrees(env, all),
    ensures
        row_of(names, env) is Some,
        row_of(names, all) == row_of(names, env),
    decreases names.len(),
{
    if names.len() > 0 {
        assert forall|i: int| 0 <= i < names.drop_last().len() implies bound(
            env,
            #[trigger] names.drop_last()[i],
        ) is Some by {
            assert(names.drop_last()[i] == names[i]);
        }
        lemma_row_agrees(names.drop_last(), env, all);
        assert(bound(env, names[names.len() - 1]) is Some);
    }
}

/// The row of each of the bindings is among the rows that are found.
pub proof fn lemma_rows_has(names: Seq<Seq<char>>, envs: Seq<EnvView>, k: int)
    requires
        0 <= k < envs.len(),
        row_of(names, envs[k]) is Some,
    ensures
        rows_of(names, envs).contains(row_of(names, envs[k])->0),
    decreases envs.len(),
{
    let row = row_of(names, envs[k])->0;
    let all = rows_of(names, envs);
    let before = rows_of(names, envs.drop_last());
    if k == envs.len() - 1 {
        if !before.contains(row) {
            assert(all[all.len() - 1] == row);
        } else {
            let at = choose|at: int| 0 <= at < before.len() && before[at] == row;
            assert(all[at] == row);
        }
    } else {
        assert(envs.drop_last()[k] == envs[k]);
        lemma_rows_has(names, envs.drop_last(), k);
        let at = choose|at: int| 0 <= at < before.len() && before[at] == row;
        assert(all[at] == row);
    }
}

/// Each row that a query finds is the row of bindings that start with
/// the inputs and in which every clause of the query holds.
pub proof fn lemma_query_sound(
    schema: SchemaView,
    datoms: Seq<DatomView>,
    q: ParsedQueryView,
    inputs: Seq<TypedValueView>,
    k: int,
)
    requires
        find_names(q.find_spec) is Some,
        0 <= k < rows_of(
            find_names(q.find_spec)->0,
            answers(schema, datoms, q.where_clauses, 0, seq![input_env(q.in_vars, inputs)]),
        ).len(),
    ensures
        exists|env: EnvView|
            {
                &&& extends(env, input_env(q.in_vars, inputs))
                &&& forall|i: int|
                    0 <= i < q.where_clauses.len() ==> clause_holds(
                        schema,
                        datoms,
                        #[trigger] q.where_clauses[i],
                        env,
                    )
                &&& #[trigger] row_of(find_names(q.find_spec)->0, env) == Some(
                    rows_of(
                        find_names(q.find_spec)->0,
                        answers(
                            schema,
                            datoms,
                            q.where_clauses,
                            0,
                            seq![input_env(q.in_vars, inputs)],
                        ),
                    )[k],
                )
            },
{
    let names = find_names(q.find_spec)->0;
    let start = seq![input_env(q.in_vars, inputs)];
    let found = answers(schema, datoms, q.where_clauses, 0, start);
    lemma_rows_members(names, found, k);
    let j = choose|j: int|
        0 <= j < found.len() && row_of(names, #[trigger] found[j]) == Some(
            rows_of(names, found)[k],
        );
    lemma_answers_hold(schema, datoms, q.where_clauses, 0, start, j);
    let from = choose|from: int| 0 <= from < start.len() && extends(found[j], #[trigger] start[from]);
    assert(start[from] == input_env(q.in_vars, inputs));
    assert(row_of(names, found[j]) == Some(rows_of(names, found)[k]));
}

/// Whatever bindings agree with the inputs of a query that can be
/// answered, and every clause of the query holds in them: their row is
/// among the rows that the query finds.
pub proof fn lemma_query_complete(
    schema: SchemaView,
    datoms: Seq<DatomView>,
    q: ParsedQueryView,
    inputs: Seq<TypedValueView>,
    all: EnvView,
)
    requires
        query_fault(q, inputs.len()) is None,
        agrees(input_env(q.in_vars, inputs), all),
        forall|i: int|
            0 <= i < q.where_clauses.len() ==> clause_holds(
                schema,
                datoms,
                #[trigger] q.where_clauses[i],
                all,
            ),
    ensures
        row_of(find_names(q.find_spec)->0, all) is Some,
        rows_of(
            find_names(q.find_spec)->0,
            answers(schema, datoms, q.where_clauses, 0, seq![input_env(q.in_vars, inputs)]),
        ).contains(row_of(find_names(q.find_spec)->0, all)->0),
{
    let names = find_names(q.find_spec)->0;
    let first = input_env(q.in_vars, inputs);
    let start = seq![first];
    let found = answers(schema, datoms, q.where_clauses, 0, start);
    let after = clauses_checked(q.where_clauses, 0, q.in_vars)->Ok_0;
    assert forall|i: int| 0 <= i < q.in_vars.len() implies bound(first, #[trigger] q.in_vars[i])
        is Some by {
        lemma_bound_present(first, i);
    }
    assert(binds_all(start[0], q.in_vars));
    assert(agrees(start[0], all));
    lemma_answers_reach(schema, datoms, q.where_clauses, 0, start, q.in_vars, all);
    let k = choose|k: int|
        0 <= k < found.len() && agrees(#[trigger] found[k], all) && binds_all(found[k], after);
    assert forall|i: int| 0 <= i < names.len() implies bound(found[k], #[trigger] names[i])
        is Some by {
        assert(after.contains(names[i]));
        let at = choose|at: int| 0 <= at < after.len() && after[at] == names[i];
        assert(bound(found[k], after[at]) is Some);
    }
    lemma_row_agrees(names, found[k], all);
    lemma_rows_has(names, found, k);
}

} // verus!
