//! Answering a query.

use vstd::prelude::*;
use crate::edn::clauses::{
    clauses_view, elements_view, Element, ElementView, FindSpec, Limit, ParsedQuery, WhereClause,
};
use crate::edn::query::{args_view, FnArg, Pattern, PatternNonValuePlace, PatternValuePlace};
use crate::query::answers::{
    all_among, answered, answers, clause_answers, clause_fault, clauses_checked,
    comparison_named, element_names, filtered, find_names, holds, input_env, names_after, noted,
    operand, operand_fault, pattern_names, query_fault, row_of, rows_of, rows_view, shaped,
    values_view, ClauseFault, Comparison, QueryFault, QueryOutput,
};
use crate::query::bindings::{copy_env, env_view, envs_view, join, lookup, Env, EnvView};
use crate::edn::query_grammar::{query_stop, whole_query};
use crate::edn::query_parse::parse_query;
use crate::edn::source::location_at;
use crate::edn::ParseError;
use crate::schema::Schema;
use crate::transactor::store::Store;
use crate::text::{str_equal, views_of};
use crate::transactor::store::{datoms_view, Datom};
use crate::values::TypedValue;

verus! {

/// The comparison that an operator names, if it names one.
pub fn comparison_of(operator: &str) -> (r: Option<Comparison>)
    ensures
        r == comparison_named(operator@),
{
    if str_equal(operator, "<") {
        Some(Comparison::Less)
    } else if str_equal(operator, "<=") {
        Some(Comparison::LessOrEqual)
    } else if str_equal(operator, ">") {
        Some(Comparison::Greater)
    } else if str_equal(operator, ">=") {
        Some(Comparison::GreaterOrEqual)
    } else if str_equal(operator, "=") {
        Some(Comparison::Equal)
    } else if str_equal(operator, "!=") {
        Some(Comparison::NotEqual)
    } else {
        None
    }
}

fn operand_of(arg: &FnArg, env: &Env) -> (r: Option<i64>)
    ensures
        match r {
            Some(x) => operand(arg@, env_view(env@)) == Some(x as int),
            None => operand(arg@, env_view(env@)) is None,
        },
{
    match arg {
        FnArg::Variable(v) => match lookup(env, v.as_str()) {
            Some(i) => match &env[i].1 {
                TypedValue::Long(x) => Some(*x),
                _ => None,
            },
            None => None,
        },
        FnArg::EntidOrInteger(n) => Some(*n),
        _ => None,
    }
}

fn compare(c: Comparison, x: i64, y: i64) -> (r: bool)
    ensures
        r == crate::query::answers::compares(c, x as int, y as int),
{
    match c {
        Comparison::Less => x < y,
        Comparison::LessOrEqual => x <= y,
        Comparison::Greater => x > y,
        Comparison::GreaterOrEqual => x >= y,
        Comparison::Equal => x == y,
        Comparison::NotEqual => x != y,
    }
}

fn check_holds(c: Comparison, args: &Vec<FnArg>, env: &Env) -> (r: bool)
    ensures
        r == holds(c, args_view(args@), env_view(env@)),
{
    if args.len() != 2 {
        return false;
    }
    proof {
        assert(args_view(args@)[0] == args@[0]@);
        assert(args_view(args@)[1] == args@[1]@);
    }
    match (operand_of(&args[0], env), operand_of(&args[1], env)) {
        (Some(x), Some(y)) => compare(c, x, y),
        _ => false,
    }
}

/// The bindings in which a comparison holds; see [`filtered`].
pub fn keep(c: Comparison, args: &Vec<FnArg>, envs: &Vec<Env>) -> (r: Vec<Env>)
    ensures
        envs_view(r@) == filtered(c, args_view(args@), envs_view(envs@)),
{
    let ghost all = envs_view(envs@);
    let mut out: Vec<Env> = Vec::new();
    let mut i: usize = 0;
    proof {
        assert(all.take(0) =~= Seq::empty());
        assert(envs_view(out@) =~= Seq::empty());
    }
    while i < envs.len()
        invariant
            i <= envs@.len(),
            all == envs_view(envs@),
            envs_view(out@) == filtered(c, args_view(args@), all.take(i as int)),
        decreases envs@.len() - i,
    {
        let ghost so_far = envs_view(out@);
        proof {
            assert(all.take(i + 1).drop_last() =~= all.take(i as int));
            assert(all.take(i + 1).last() == env_view(envs@[i as int]@));
        }
        if check_holds(c, args, &envs[i]) {
            let kept = copy_env(&envs[i]);
            out.push(kept);
            proof {
                assert(envs_view(out@) =~= so_far.push(env_view(envs@[i as int]@)));
            }
        }
        i += 1;
    }
    proof {
        assert(all.take(i as int) =~= all);
    }
    out
}

/// What a clause makes of the bindings; see [`clause_answers`].
pub fn apply_clause(schema: &Schema, datoms: &Vec<Datom>, clause: &WhereClause, envs: Vec<Env>)
    -> (r: Vec<Env>)
    requires
        schema@.well_formed(),
    ensures
        envs_view(r@) == clause_answers(schema@, datoms_view(datoms@), clause@, envs_view(envs@)),
{
    match clause {
        WhereClause::Pattern(p) => join(schema, p, datoms, &envs),
        WhereClause::Pred(p) => match comparison_of(p.operator.name()) {
            Some(c) => keep(c, &p.args, &envs),
            None => envs,
        },
        _ => envs,
    }
}

fn has_name(names: &Vec<String>, name: &str) -> (r: bool)
    ensures
        r == views_of(names@).contains(name@),
{
    let ghost all = views_of(names@);
    let mut i: usize = 0;
    while i < names.len()
        invariant
            i <= names@.len(),
            all == views_of(names@),
            forall|k: int| 0 <= k < i ==> all[k] != name@,
        decreases names@.len() - i,
    {
        if str_equal(names[i].as_str(), name) {
            proof {
                assert(all[i as int] == name@);
            }
            return true;
        }
        i += 1;
    }
    false
}

fn note(names: Vec<String>, name: &str) -> (r: Vec<String>)
    ensures
        views_of(r@) == noted(views_of(names@), name@),
{
    if has_name(&names, name) {
        names
    } else {
        let mut names = names;
        let ghost before = views_of(names@);
        names.push(name.to_string());
        proof {
            assert(views_of(names@) =~= before.push(name@));
        }
        names
    }
}

fn note_place(names: Vec<String>, place: &PatternNonValuePlace) -> (r: Vec<String>)
    ensures
        views_of(r@) == crate::query::answers::place_names(place@, views_of(names@)),
{
    match place {
        PatternNonValuePlace::Variable(v) => note(names, v.as_str()),
        _ => names,
    }
}

fn note_value(names: Vec<String>, place: &PatternValuePlace) -> (r: Vec<String>)
    ensures
        views_of(r@) == crate::query::answers::value_names(place@, views_of(names@)),
{
    match place {
        PatternValuePlace::Variable(v) => note(names, v.as_str()),
        _ => names,
    }
}

fn note_pattern(names: Vec<String>, p: &Pattern) -> (r: Vec<String>)
    ensures
        views_of(r@) == pattern_names(p@, views_of(names@)),
{
    let with_entity = note_place(names, &p.entity);
    let with_attribute = note_place(with_entity, &p.attribute);
    let with_value = note_value(with_attribute, &p.value);
    note_place(with_value, &p.tx)
}

fn check_operand(arg: &FnArg, names: &Vec<String>) -> (r: Option<ClauseFault>)
    ensures
        r == operand_fault(arg@, views_of(names@)),
{
    match arg {
        FnArg::Variable(v) => {
            if has_name(names, v.as_str()) {
                None
            } else {
                Some(ClauseFault::UnboundVariable)
            }
        },
        FnArg::EntidOrInteger(_) => None,
        _ => Some(ClauseFault::BadArguments),
    }
}

fn check_clause(clause: &WhereClause, names: &Vec<String>) -> (r: Option<ClauseFault>)
    ensures
        r == clause_fault(clause@, views_of(names@)),
{
    match clause {
        WhereClause::Pattern(_) => None,
        WhereClause::Pred(p) => {
            if comparison_of(p.operator.name()).is_none() {
                return Some(ClauseFault::UnknownFunction);
            }
            if p.args.len() != 2 {
                return Some(ClauseFault::BadArguments);
            }
            proof {
                assert(args_view(p.args@)[0] == p.args@[0]@);
                assert(args_view(p.args@)[1] == p.args@[1]@);
            }
            match check_operand(&p.args[0], names) {
                Some(fault) => Some(fault),
                None => check_operand(&p.args[1], names),
            }
        },
        _ => Some(ClauseFault::NotAnswered),
    }
}

fn note_clause(names: Vec<String>, clause: &WhereClause) -> (r: Vec<String>)
    ensures
        views_of(r@) == names_after(clause@, views_of(names@)),
{
    match clause {
        WhereClause::Pattern(p) => note_pattern(names, p),
        _ => names,
    }
}

/// The first clause that cannot be answered, or else the variables that
/// are bound after the clauses; see [`clauses_checked`].
pub fn check_clauses(clauses: &Vec<WhereClause>, names: Vec<String>) -> (r: Result<
    Vec<String>,
    QueryFault,
>)
    ensures
        match r {
            Ok(after) => clauses_checked(clauses_view(clauses@), 0, views_of(names@)) == Ok::<
                Seq<Seq<char>>,
                QueryFault,
            >(views_of(after@)),
            Err(fault) => clauses_checked(clauses_view(clauses@), 0, views_of(names@)) == Err::<
                Seq<Seq<char>>,
                QueryFault,
            >(fault),
        },
{
    let ghost all = clauses_view(clauses@);
    let ghost start = views_of(names@);
    let mut now = names;
    let mut i: usize = 0;
    while i < clauses.len()
        invariant
            i <= clauses@.len(),
            all == clauses_view(clauses@),
            start == views_of(names@),
            clauses_checked(all, 0, start) == clauses_checked(all, i as int, views_of(now@)),
        decreases clauses@.len() - i,
    {
        proof {
            assert(all[i as int] == clauses@[i as int]@);
        }
        match check_clause(&clauses[i], &now) {
            Some(fault) => {
                return Err(QueryFault::Clause(i, fault));
            },
            None => {},
        }
        now = note_clause(now, &clauses[i]);
        i += 1;
    }
    Ok(now)
}

fn names_of_elements(elements: &Vec<Element>) -> (r: Option<Vec<String>>)
    ensures
        match r {
            Some(names) => element_names(elements_view(elements@)) == Some(views_of(names@)),
            None => element_names(elements_view(elements@)) is None,
        },
{
    let ghost all = elements_view(elements@);
    let mut names: Vec<String> = Vec::new();
    let mut i: usize = 0;
    proof {
        assert(all.take(0) =~= Seq::empty());
        assert(views_of(names@) =~= Seq::empty());
    }
    while i < elements.len()
        invariant
            i <= elements@.len(),
            all == elements_view(elements@),
            element_names(all.take(i as int)) == Some(views_of(names@)),
        decreases elements@.len() - i,
    {
        proof {
            assert(all.take(i + 1).drop_last() =~= all.take(i as int));
            assert(all.take(i + 1).last() == elements@[i as int]@);
        }
        match &elements[i] {
            Element::Variable(v) => {
                let ghost before = views_of(names@);
                names.push(v.as_str().to_string());
                proof {
                    assert(views_of(names@) =~= before.push(v@));
                }
            },
            _ => {
                proof {
                    lemma_no_names(all, i + 1);
                }
                return None;
            },
        }
        i += 1;
    }
    proof {
        assert(all.take(i as int) =~= all);
    }
    Some(names)
}

/// Where some of the elements are no variables, the elements are not
/// all variables.
pub proof fn lemma_no_names(elements: Seq<ElementView>, n: int)
    requires
        0 <= n <= elements.len(),
        element_names(elements.take(n)) is None,
    ensures
        element_names(elements) is None,
    decreases elements.len() - n,
{
    if n < elements.len() {
        assert(elements.take(n + 1).drop_last() =~= elements.take(n));
        lemma_no_names(elements, n + 1);
    } else {
        assert(elements.take(n) =~= elements);
    }
}

fn names_of_element(element: &Element) -> (r: Option<Vec<String>>)
    ensures
        match r {
            Some(names) => element_names(seq![element@]) == Some(views_of(names@)),
            None => element_names(seq![element@]) is None,
        },
{
    proof {
        assert(seq![element@].drop_last() =~= Seq::<ElementView>::empty());
        assert(seq![element@].last() == element@);
        assert(element_names(Seq::<ElementView>::empty()) == Some(Seq::<Seq<char>>::empty()));
    }
    match element {
        Element::Variable(v) => {
            let mut names: Vec<String> = Vec::new();
            names.push(v.as_str().to_string());
            proof {
                assert(views_of(names@) =~= Seq::<Seq<char>>::empty().push(v@));
            }
            Some(names)
        },
        _ => None,
    }
}

/// The variables that are to be found, if only variables are; see
/// [`find_names`].
pub fn names_to_find(find: &FindSpec) -> (r: Option<Vec<String>>)
    ensures
        match r {
            Some(names) => find_names(find@) == Some(views_of(names@)),
            None => find_names(find@) is None,
        },
{
    match find {
        FindSpec::FindScalar(e) => names_of_element(e),
        FindSpec::FindColl(e) => names_of_element(e),
        FindSpec::FindTuple(es) => {
            if es.len() == 0 {
                None
            } else {
                names_of_elements(es)
            }
        },
        FindSpec::FindRel(es) => {
            if es.len() == 0 {
                None
            } else {
                names_of_elements(es)
            }
        },
    }
}

fn check_all_among(found: &Vec<String>, names: &Vec<String>) -> (r: bool)
    ensures
        r == all_among(views_of(found@), views_of(names@)),
{
    let mut i: usize = 0;
    while i < found.len()
        invariant
            i <= found@.len(),
            forall|k: int|
                0 <= k < i ==> views_of(names@).contains(#[trigger] views_of(found@)[k]),
        decreases found@.len() - i,
    {
        if !has_name(names, found[i].as_str()) {
            proof {
                assert(views_of(found@)[i as int] == found@[i as int]@);
            }
            return false;
        }
        i += 1;
    }
    true
}

/// Why a query with the given number of inputs cannot be answered, or
/// else the variables that are to be found; see [`query_fault`].
pub fn check_query(query: &ParsedQuery, inputs: usize) -> (r: Result<Vec<String>, QueryFault>)
    ensures
        match r {
            Ok(found) => query_fault(query@, inputs as nat) is None && find_names(
                query@.find_spec,
            ) == Some(views_of(found@)),
            Err(fault) => query_fault(query@, inputs as nat) == Some(fault),
        },
{
    let by_variable = match query.limit {
        Limit::Variable(_) => true,
        _ => false,
    };
    if query.with.len() > 0 || query.order.is_some() || by_variable {
        return Err(QueryFault::Section);
    }
    if query.in_vars.len() != inputs {
        return Err(QueryFault::Inputs);
    }
    let mut names: Vec<String> = Vec::new();
    let mut i: usize = 0;
    while i < query.in_vars.len()
        invariant
            i <= query.in_vars@.len(),
            names@.len() == i,
            forall|k: int| 0 <= k < i ==> names@[k]@ == query.in_vars@[k]@,
        decreases query.in_vars@.len() - i,
    {
        names.push(query.in_vars[i].as_str().to_string());
        i += 1;
    }
    proof {
        assert(views_of(names@) =~= query@.in_vars);
    }
    let after = match check_clauses(&query.where_clauses, names) {
        Ok(after) => after,
        Err(fault) => {
            return Err(fault);
        },
    };
    match names_to_find(&query.find_spec) {
        None => Err(QueryFault::Find),
        Some(found) => {
            if check_all_among(&found, &after) {
                Ok(found)
            } else {
                Err(QueryFault::Find)
            }
        },
    }
}

/// Where some of the variables are not bound, the variables are not all
/// bound.
pub proof fn lemma_no_row(names: Seq<Seq<char>>, n: int, env: EnvView)
    requires
        0 <= n <= names.len(),
        row_of(names.take(n), env) is None,
    ensures
        row_of(names, env) is None,
    decreases names.len() - n,
{
    if n < names.len() {
        assert(names.take(n + 1).drop_last() =~= names.take(n));
        lemma_no_row(names, n + 1, env);
    } else {
        assert(names.take(n) =~= names);
    }
}

/// A row has one value for each variable.
pub proof fn lemma_row_len(names: Seq<Seq<char>>, env: EnvView)
    requires
        row_of(names, env) is Some,
    ensures
        row_of(names, env)->0.len() == names.len(),
    decreases names.len(),
{
    if names.len() > 0 {
        lemma_row_len(names.drop_last(), env);
    }
}

/// There are as many names as elements, where each element is a
/// variable.
pub proof fn lemma_element_names_len(elements: Seq<ElementView>)
    requires
        element_names(elements) is Some,
    ensures
        element_names(elements)->0.len() == elements.len(),
    decreases elements.len(),
{
    if elements.len() > 0 {
        lemma_element_names_len(elements.drop_last());
    }
}

fn row(names: &Vec<String>, env: &Env) -> (r: Option<Vec<TypedValue>>)
    ensures
        match r {
            Some(row) => row_of(views_of(names@), env_view(env@)) == Some(values_view(row@))
                && row@.len() == names@.len(),
            None => row_of(views_of(names@), env_view(env@)) is None,
        },
{
    let ghost all = views_of(names@);
    let mut out: Vec<TypedValue> = Vec::new();
    let mut i: usize = 0;
    proof {
        assert(all.take(0) =~= Seq::empty());
        assert(values_view(out@) =~= Seq::empty());
    }
    while i < names.len()
        invariant
            i <= names@.len(),
            out@.len() == i,
            all == views_of(names@),
            row_of(all.take(i as int), env_view(env@)) == Some(values_view(out@)),
        decreases names@.len() - i,
    {
        proof {
            assert(all.take(i + 1).drop_last() =~= all.take(i as int));
            assert(all.take(i + 1).last() == names@[i as int]@);
        }
        match lookup(env, names[i].as_str()) {
            Some(at) => {
                let ghost before = values_view(out@);
                out.push(env[at].1.clone());
                proof {
                    assert(values_view(out@) =~= before.push(env@[at as int].1@));
                }
            },
            None => {
                proof {
                    lemma_no_row(all, i + 1, env_view(env@));
                }
                return None;
            },
        }
        i += 1;
    }
    proof {
        assert(all.take(i as int) =~= all);
    }
    Some(out)
}

fn same_row(a: &Vec<TypedValue>, b: &Vec<TypedValue>) -> (r: bool)
    ensures
        r == (values_view(a@) == values_view(b@)),
{
    if a.len() != b.len() {
        proof {
            assert(values_view(a@).len() != values_view(b@).len());
        }
        return false;
    }
    let mut i: usize = 0;
    while i < a.len()
        invariant
            i <= a@.len(),
            a@.len() == b@.len(),
            forall|k: int| 0 <= k < i ==> a@[k]@ == b@[k]@,
        decreases a@.len() - i,
    {
        if !a[i].same_as(&b[i]) {
            proof {
                assert(values_view(a@)[i as int] != values_view(b@)[i as int]);
            }
            return false;
        }
        i += 1;
    }
    proof {
        assert(values_view(a@) =~= values_view(b@));
    }
    true
}

fn has_row(rows: &Vec<Vec<TypedValue>>, row: &Vec<TypedValue>) -> (r: bool)
    ensures
        r == rows_view(rows@).contains(values_view(row@)),
{
    let ghost all = rows_view(rows@);
    let mut i: usize = 0;
    while i < rows.len()
        invariant
            i <= rows@.len(),
            all == rows_view(rows@),
            forall|k: int| 0 <= k < i ==> all[k] != values_view(row@),
        decreases rows@.len() - i,
    {
        if same_row(&rows[i], row) {
            proof {
                assert(all[i as int] == values_view(row@));
            }
            return true;
        }
        i += 1;
    }
    false
}

/// The rows of the values of the variables in the bindings, each row
/// once; see [`rows_of`].
pub fn rows(names: &Vec<String>, envs: &Vec<Env>) -> (r: Vec<Vec<TypedValue>>)
    ensures
        rows_view(r@) == rows_of(views_of(names@), envs_view(envs@)),
        forall|k: int| 0 <= k < r@.len() ==> (#[trigger] r@[k])@.len() == names@.len(),
{
    let ghost all = envs_view(envs@);
    let mut out: Vec<Vec<TypedValue>> = Vec::new();
    let mut i: usize = 0;
    proof {
        assert(all.take(0) =~= Seq::empty());
        assert(rows_view(out@) =~= Seq::empty());
    }
    while i < envs.len()
        invariant
            i <= envs@.len(),
            all == envs_view(envs@),
            rows_view(out@) == rows_of(views_of(names@), all.take(i as int)),
            forall|k: int| 0 <= k < out@.len() ==> (#[trigger] out@[k])@.len() == names@.len(),
        decreases envs@.len() - i,
    {
        proof {
            assert(all.take(i + 1).drop_last() =~= all.take(i as int));
            assert(all.take(i + 1).last() == env_view(envs@[i as int]@));
        }
        match row(names, &envs[i]) {
            Some(found) => {
                if !has_row(&out, &found) {
                    let ghost before = rows_view(out@);
                    let ghost found_view = values_view(found@);
                    out.push(found);
                    proof {
                        assert(rows_view(out@) =~= before.push(found_view));
                    }
                }
            },
            None => {},
        }
        i += 1;
    }
    proof {
        assert(all.take(i as int) =~= all);
    }
    out
}

fn copy_row(row: &Vec<TypedValue>) -> (r: Vec<TypedValue>)
    ensures
        values_view(r@) == values_view(row@),
{
    let mut out: Vec<TypedValue> = Vec::new();
    let mut i: usize = 0;
    while i < row.len()
        invariant
            i <= row@.len(),
            out@.len() == i,
            forall|k: int| 0 <= k < i ==> out@[k]@ == row@[k]@,
        decreases row@.len() - i,
    {
        out.push(row[i].clone());
        i += 1;
    }
    proof {
        assert(values_view(out@) =~= values_view(row@));
    }
    out
}

/// The rows in the shape that is to be found; see [`shaped`].
pub fn shape(find: &FindSpec, rows: Vec<Vec<TypedValue>>) -> (r: QueryOutput)
    requires
        forall|k: int| 0 <= k < rows@.len() ==> (#[trigger] rows@[k])@.len() >= 1,
    ensures
        r@ == shaped(find@, rows_view(rows@)),
{
    match find {
        FindSpec::FindScalar(_) => {
            if rows.len() > 0 {
                QueryOutput::Scalar(Some(rows[0][0].clone()))
            } else {
                QueryOutput::Scalar(None)
            }
        },
        FindSpec::FindTuple(_) => {
            if rows.len() > 0 {
                QueryOutput::Tuple(Some(copy_row(&rows[0])))
            } else {
                QueryOutput::Tuple(None)
            }
        },
        FindSpec::FindColl(_) => {
            let mut column: Vec<TypedValue> = Vec::new();
            let mut i: usize = 0;
            while i < rows.len()
                invariant
                    i <= rows@.len(),
                    column@.len() == i,
                    forall|k: int| 0 <= k < rows@.len() ==> (#[trigger] rows@[k])@.len() >= 1,
                    forall|k: int| 0 <= k < i ==> column@[k]@ == rows@[k]@[0]@,
                decreases rows@.len() - i,
            {
                column.push(rows[i][0].clone());
                i += 1;
            }
            proof {
                assert(values_view(column@) =~= Seq::new(
                    rows_view(rows@).len(),
                    |i: int| rows_view(rows@)[i][0],
                ));
            }
            QueryOutput::Coll(column)
        },
        FindSpec::FindRel(_) => QueryOutput::Rel(rows),
    }
}

/// The answer to a query over the datoms, with the given inputs for the
/// variables of its `:in` section; see [`answered`] and [`query_fault`].
pub fn answer(
    schema: &Schema,
    datoms: &Vec<Datom>,
    query: &ParsedQuery,
    inputs: &Vec<TypedValue>,
) -> (r: Result<QueryOutput, QueryFault>)
    requires
        schema@.well_formed(),
    ensures
        match r {
            Ok(out) => query_fault(query@, inputs@.len()) is None && out@ == answered(
                schema@,
                datoms_view(datoms@),
                query@,
                values_view(inputs@),
            ),
            Err(fault) => query_fault(query@, inputs@.len()) == Some(fault),
        },
{
    let found = match check_query(query, inputs.len()) {
        Ok(found) => found,
        Err(fault) => {
            return Err(fault);
        },
    };
    let mut first: Env = Vec::new();
    let mut i: usize = 0;
    while i < inputs.len()
        invariant
            i <= inputs@.len(),
            inputs@.len() == query.in_vars@.len(),
            first@.len() == i,
            forall|k: int|
                0 <= k < i ==> (#[trigger] first@[k]).0@ == query.in_vars@[k]@ && first@[k].1@
                    == inputs@[k]@,
        decreases inputs@.len() - i,
    {
        let name = query.in_vars[i].as_str().to_string();
        let value = inputs[i].clone();
        first.push((name, value));
        i += 1;
    }
    let ghost start = input_env(query@.in_vars, values_view(inputs@));
    proof {
        assert(env_view(first@) =~= start);
    }
    let mut envs: Vec<Env> = Vec::new();
    envs.push(first);
    let ghost all = clauses_view(query.where_clauses@);
    let ghost facts = datoms_view(datoms@);
    proof {
        assert(envs_view(envs@) =~= seq![start]);
    }
    let mut at: usize = 0;
    while at < query.where_clauses.len()
        invariant
            at <= query.where_clauses@.len(),
            schema@.well_formed(),
            all == clauses_view(query.where_clauses@),
            facts == datoms_view(datoms@),
            answers(schema@, facts, all, 0, seq![start]) == answers(
                schema@,
                facts,
                all,
                at as int,
                envs_view(envs@),
            ),
        decreases query.where_clauses@.len() - at,
    {
        proof {
            assert(all[at as int] == query.where_clauses@[at as int]@);
        }
        envs = apply_clause(schema, datoms, &query.where_clauses[at], envs);
        at += 1;
    }
    let mut found_rows = rows(&found, &envs);
    match query.limit {
        Limit::Fixed(n) => {
            if n < found_rows.len() as u64 {
                let ghost all_rows = rows_view(found_rows@);
                found_rows.truncate(n as usize);
                proof {
                    assert(rows_view(found_rows@) =~= all_rows.take(n as int));
                }
            }
        },
        _ => {},
    }
    proof {
        let names = views_of(found@);
        match query@.find_spec {
            crate::edn::clauses::FindSpecView::FindScalar(e) => {
                lemma_element_names_len(seq![e]);
            },
            crate::edn::clauses::FindSpecView::FindColl(e) => {
                lemma_element_names_len(seq![e]);
            },
            crate::edn::clauses::FindSpecView::FindTuple(es) => {
                lemma_element_names_len(es);
            },
            crate::edn::clauses::FindSpecView::FindRel(es) => {
                lemma_element_names_len(es);
            },
        }
        assert(names.len() >= 1);
    }
    Ok(shape(&query.find_spec, found_rows))
}

/// Why the text of a query was not answered.
#[derive(Debug, PartialEq, Eq)]
pub enum QueryError {
    /// The text is no query.
    Parse(ParseError),
    /// The query cannot be answered.
    Fault(QueryFault),
}

impl Store {
    /// The answer to a query over the live datoms of the store, with the
    /// given inputs for the variables of its `:in` section; see
    /// [`answered`] and [`query_fault`].
    pub fn query(&self, query: &ParsedQuery, inputs: &Vec<TypedValue>) -> (r: Result<
        QueryOutput,
        QueryFault,
    >)
        requires
            self@.well_formed(),
        ensures
            match r {
                Ok(out) => query_fault(query@, inputs@.len()) is None && out@ == answered(
                    self@.schema,
                    self@.datoms,
                    query@,
                    values_view(inputs@),
                ),
                Err(fault) => query_fault(query@, inputs@.len()) == Some(fault),
            },
    {
        answer(self.schema(), self.datoms(), query, inputs)
    }

    /// The answer to the text of a query: reads the query, and answers
    /// it.
    pub fn query_text(&self, text: &str, inputs: &Vec<TypedValue>) -> (r: Result<
        QueryOutput,
        QueryError,
    >)
        requires
            self@.well_formed(),
        ensures
            match r {
                Ok(out) => {
                    &&& whole_query(text@) matches Some(q)
                    &&& query_fault(q, inputs@.len()) is None
                    &&& out@ == answered(self@.schema, self@.datoms, q, values_view(inputs@))
                },
                Err(QueryError::Parse(error)) => whole_query(text@) is None && error.location
                    == location_at(text@, query_stop(text@)),
                Err(QueryError::Fault(fault)) => {
                    &&& whole_query(text@) matches Some(q)
                    &&& query_fault(q, inputs@.len()) == Some(fault)
                },
            },
    {
        match parse_query(text) {
            Ok(query) => match self.query(&query, inputs) {
                Ok(out) => Ok(out),
                Err(fault) => Err(QueryError::Fault(fault)),
            },
            Err(error) => Err(QueryError::Parse(error)),
        }
    }
}

} // verus!
