//! What a query asks for, and the answer to it.

use vstd::prelude::*;
use crate::edn::clauses::{
    ElementView, FindSpecView, LimitView, ParsedQueryView, WhereClauseView,
};
use crate::edn::query::{
    FnArgView, NonValuePlaceView, Pattern, PatternView, ValuePlaceView, Variable,
};
use crate::query::bindings::{
    bound, joined, EnvView,
};
use crate::schema::SchemaView;
use crate::transactor::model::DatomView;
use crate::values::{TypedValue, TypedValueView};

verus! {

/// The comparisons that a predicate can make.
#[derive(Debug, Clone, Copy, PartialEq, Eq, Structural)]
pub enum Comparison {
    Less,
    LessOrEqual,
    Greater,
    GreaterOrEqual,
    Equal,
    NotEqual,
}

/// The comparison that an operator names, if it names one.
pub open spec fn comparison_named(operator: Seq<char>) -> Option<Comparison> {
    if operator == "<"@ {
        Some(Comparison::Less)
    } else if operator == "<="@ {
        Some(Comparison::LessOrEqual)
    } else if operator == ">"@ {
        Some(Comparison::Greater)
    } else if operator == ">="@ {
        Some(Comparison::GreaterOrEqual)
    } else if operator == "="@ {
        Some(Comparison::Equal)
    } else if operator == "!="@ {
        Some(Comparison::NotEqual)
    } else {
        None
    }
}

/// Whether a comparison holds of two numbers.
pub open spec fn compares(c: Comparison, x: int, y: int) -> bool {
    match c {
        Comparison::Less => x < y,
        Comparison::LessOrEqual => x <= y,
        Comparison::Greater => x > y,
        Comparison::GreaterOrEqual => x >= y,
        Comparison::Equal => x == y,
        Comparison::NotEqual => x != y,
    }
}

/// The number that an argument of a predicate is: an integer, or a
/// variable that is bound to a long.
pub open spec fn operand(arg: FnArgView, env: EnvView) -> Option<int> {
    match arg {
        FnArgView::Variable(name) => match bound(env, name) {
            Some(TypedValueView::Long(x)) => Some(x),
            _ => None,
        },
        FnArgView::EntidOrInteger(n) => Some(n),
        _ => None,
    }
}

/// Whether a comparison holds of its two arguments in the bindings.
pub open spec fn holds(c: Comparison, args: Seq<FnArgView>, env: EnvView) -> bool {
    &&& args.len() == 2
    &&& operand(args[0], env) is Some
    &&& operand(args[1], env) is Some
    &&& compares(c, operand(args[0], env)->0, operand(args[1], env)->0)
}

/// The bindings in which a comparison holds, in their order.
pub open spec fn filtered(c: Comparison, args: Seq<FnArgView>, envs: Seq<EnvView>) -> Seq<EnvView>
    decreases envs.len(),
{
    if envs.len() == 0 {
        Seq::empty()
    } else {
        let before = filtered(c, args, envs.drop_last());
        if holds(c, args, envs.last()) {
            before.push(envs.last())
        } else {
            before
        }
    }
}

/// What a clause makes of the bindings: a pattern extends them, a
/// comparison keeps those in which it holds.
pub open spec fn clause_answers(
    schema: SchemaView,
    datoms: Seq<DatomView>,
    clause: WhereClauseView,
    envs: Seq<EnvView>,
) -> Seq<EnvView> {
    match clause {
        WhereClauseView::Pattern(p) => joined(schema, p, datoms, envs),
        WhereClauseView::Pred { operator, args } => match comparison_named(operator) {
            Some(c) => filtered(c, args, envs),
            None => envs,
        },
        _ => envs,
    }
}

/// What the clauses from `at` on make of the bindings, one after the
/// other.
pub open spec fn answers(
    schema: SchemaView,
    datoms: Seq<DatomView>,
    clauses: Seq<WhereClauseView>,
    at: int,
    envs: Seq<EnvView>,
) -> Seq<EnvView>
    decreases clauses.len() - at,
{
    if at < 0 || at >= clauses.len() {
        envs
    } else {
        answers(schema, datoms, clauses, at + 1, clause_answers(schema, datoms, clauses[at], envs))
    }
}

/// The names with one more, unless it is among them already.
pub open spec fn noted(names: Seq<Seq<char>>, name: Seq<char>) -> Seq<Seq<char>> {
    if names.contains(name) {
        names
    } else {
        names.push(name)
    }
}

/// The names with that of the variable of an entity, an attribute or a
/// transaction of a pattern.
pub open spec fn place_names(place: NonValuePlaceView, names: Seq<Seq<char>>) -> Seq<Seq<char>> {
    match place {
        NonValuePlaceView::Variable(name) => noted(names, name),
        _ => names,
    }
}

/// The names with that of the variable of a value of a pattern.
pub open spec fn value_names(place: ValuePlaceView, names: Seq<Seq<char>>) -> Seq<Seq<char>> {
    match place {
        ValuePlaceView::Variable(name) => noted(names, name),
        _ => names,
    }
}

/// The names with those of the variables of a pattern.
pub open spec fn pattern_names(p: PatternView, names: Seq<Seq<char>>) -> Seq<Seq<char>> {
    place_names(p.tx, value_names(p.value, place_names(p.attribute, place_names(p.entity, names))))
}

/// Why a clause cannot be answered.
#[derive(Debug, Clone, Copy, PartialEq, Eq, Structural)]
pub enum ClauseFault {
    /// The clause is neither a pattern nor a predicate.
    NotAnswered,
    /// The operator of the predicate names no comparison.
    UnknownFunction,
    /// The predicate does not have two arguments that are integers or
    /// variables.
    BadArguments,
    /// The predicate speaks of a variable that neither an input nor a
    /// pattern before it binds.
    UnboundVariable,
}

/// Why an argument of a predicate cannot be compared, where `names` are
/// the variables that are bound.
pub open spec fn operand_fault(arg: FnArgView, names: Seq<Seq<char>>) -> Option<ClauseFault> {
    match arg {
        FnArgView::Variable(name) => if names.contains(name) {
            None
        } else {
            Some(ClauseFault::UnboundVariable)
        },
        FnArgView::EntidOrInteger(_) => None,
        _ => Some(ClauseFault::BadArguments),
    }
}

/// Why a clause cannot be answered, where `names` are the variables that
/// are bound.
pub open spec fn clause_fault(clause: WhereClauseView, names: Seq<Seq<char>>) -> Option<
    ClauseFault,
> {
    match clause {
        WhereClauseView::Pattern(_) => None,
        WhereClauseView::Pred { operator, args } => if comparison_named(operator) is None {
            Some(ClauseFault::UnknownFunction)
        } else if args.len() != 2 {
            Some(ClauseFault::BadArguments)
        } else if operand_fault(args[0], names) is Some {
            operand_fault(args[0], names)
        } else {
            operand_fault(args[1], names)
        },
        _ => Some(ClauseFault::NotAnswered),
    }
}

/// The variables that are bound after a clause.
pub open spec fn names_after(clause: WhereClauseView, names: Seq<Seq<char>>) -> Seq<Seq<char>> {
    match clause {
        WhereClauseView::Pattern(p) => pattern_names(p, names),
        _ => names,
    }
}

/// Why a query cannot be answered.
#[derive(Debug, Clone, Copy, PartialEq, Eq, Structural)]
pub enum QueryFault {
    /// The query has a section that is not answered: `:with`, `:order`,
    /// or a `:limit` that is a variable.
    Section,
    /// There are more or fewer inputs than the query has variables for.
    Inputs,
    /// A clause cannot be answered: its position among the clauses.
    Clause(usize, ClauseFault),
    /// What is to be found is no variable, or a variable that is not
    /// bound.
    Find,
}

/// The first clause from `at` on that cannot be answered, or else the
/// variables that are bound after the clauses.
pub open spec fn clauses_checked(clauses: Seq<WhereClauseView>, at: int, names: Seq<Seq<char>>)
    -> Result<Seq<Seq<char>>, QueryFault>
    decreases clauses.len() - at,
{
    if at < 0 || at >= clauses.len() {
        Ok(names)
    } else {
        match clause_fault(clauses[at], names) {
            Some(fault) => Err(QueryFault::Clause(at as usize, fault)),
            None => clauses_checked(clauses, at + 1, names_after(clauses[at], names)),
        }
    }
}

/// The variables that the elements are, if each is one.
pub open spec fn element_names(elements: Seq<ElementView>) -> Option<Seq<Seq<char>>>
    decreases elements.len(),
{
    if elements.len() == 0 {
        Some(Seq::empty())
    } else {
        match (element_names(elements.drop_last()), elements.last()) {
            (Some(before), ElementView::Variable(name)) => Some(before.push(name)),
            _ => None,
        }
    }
}

/// The variables that are to be found, if only variables are. One value
/// or one column must be one variable; one row or many must be at least
/// one.
pub open spec fn find_names(find: FindSpecView) -> Option<Seq<Seq<char>>> {
    match find {
        FindSpecView::FindScalar(e) => element_names(seq![e]),
        FindSpecView::FindColl(e) => element_names(seq![e]),
        FindSpecView::FindTuple(es) => if es.len() == 0 {
            None
        } else {
            element_names(es)
        },
        FindSpecView::FindRel(es) => if es.len() == 0 {
            None
        } else {
            element_names(es)
        },
    }
}

/// Whether each of the names is among the others.
pub open spec fn all_among(names: Seq<Seq<char>>, others: Seq<Seq<char>>) -> bool {
    forall|i: int| 0 <= i < names.len() ==> others.contains(#[trigger] names[i])
}

/// Why a query with the given number of inputs cannot be answered, if it
/// cannot.
pub open spec fn query_fault(q: ParsedQueryView, inputs: nat) -> Option<QueryFault> {
    if q.with.len() > 0 || q.order is Some || q.limit is Variable {
        Some(QueryFault::Section)
    } else if q.in_vars.len() != inputs {
        Some(QueryFault::Inputs)
    } else {
        match clauses_checked(q.where_clauses, 0, q.in_vars) {
            Err(fault) => Some(fault),
            Ok(names) => match find_names(q.find_spec) {
                None => Some(QueryFault::Find),
                Some(found) => if all_among(found, names) {
                    None
                } else {
                    Some(QueryFault::Find)
                },
            },
        }
    }
}

/// The views of values.
pub open spec fn values_view(values: Seq<TypedValue>) -> Seq<TypedValueView> {
    Seq::new(values.len(), |i: int| values[i]@)
}

/// The views of rows of values.
pub open spec fn rows_view(rows: Seq<Vec<TypedValue>>) -> Seq<Seq<TypedValueView>> {
    Seq::new(rows.len(), |i: int| values_view(rows[i]@))
}

/// The bindings of the variables of a query to its inputs.
pub open spec fn input_env(names: Seq<Seq<char>>, values: Seq<TypedValueView>) -> EnvView {
    Seq::new(names.len(), |i: int| (names[i], values[i]))
}

/// The values of the variables in the bindings, if each is bound.
pub open spec fn row_of(names: Seq<Seq<char>>, env: EnvView) -> Option<Seq<TypedValueView>>
    decreases names.len(),
{
    if names.len() == 0 {
        Some(Seq::empty())
    } else {
        match (row_of(names.drop_last(), env), bound(env, names.last())) {
            (Some(before), Some(v)) => Some(before.push(v)),
            _ => None,
        }
    }
}

/// The rows of the values of the variables in the bindings, each row
/// once, in the order in which the rows first come.
pub open spec fn rows_of(names: Seq<Seq<char>>, envs: Seq<EnvView>) -> Seq<Seq<TypedValueView>>
    decreases envs.len(),
{
    if envs.len() == 0 {
        Seq::empty()
    } else {
        let before = rows_of(names, envs.drop_last());
        match row_of(names, envs.last()) {
            Some(row) => if before.contains(row) {
                before
            } else {
                before.push(row)
            },
            None => before,
        }
    }
}

/// What a query returns: one value, one row, one column, or rows.
#[derive(Debug, PartialEq, Eq)]
pub enum QueryOutput {
    Scalar(Option<TypedValue>),
    Tuple(Option<Vec<TypedValue>>),
    Coll(Vec<TypedValue>),
    Rel(Vec<Vec<TypedValue>>),
}

/// What a [`QueryOutput`] holds.
pub enum OutputView {
    Scalar(Option<TypedValueView>),
    Tuple(Option<Seq<TypedValueView>>),
    Coll(Seq<TypedValueView>),
    Rel(Seq<Seq<TypedValueView>>),
}

impl View for QueryOutput {
    type V = OutputView;

    open spec fn view(&self) -> OutputView {
        match self {
            QueryOutput::Scalar(v) => OutputView::Scalar(
                match v {
                    Some(v) => Some(v@),
                    None => None,
                },
            ),
            QueryOutput::Tuple(row) => OutputView::Tuple(
                match row {
                    Some(row) => Some(values_view(row@)),
                    None => None,
                },
            ),
            QueryOutput::Coll(values) => OutputView::Coll(values_view(values@)),
            QueryOutput::Rel(rows) => OutputView::Rel(rows_view(rows@)),
        }
    }
}

/// The rows in the shape that is to be found: the first value of the
/// first row, the first row, the first value of each row, or the rows.
pub open spec fn shaped(find: FindSpecView, rows: Seq<Seq<TypedValueView>>) -> OutputView {
    match find {
        FindSpecView::FindScalar(_) => OutputView::Scalar(
            if rows.len() > 0 {
                Some(rows[0][0])
            } else {
                None
            },
        ),
        FindSpecView::FindTuple(_) => OutputView::Tuple(
            if rows.len() > 0 {
                Some(rows[0])
            } else {
                None
            },
        ),
        FindSpecView::FindColl(_) => OutputView::Coll(Seq::new(rows.len(), |i: int| rows[i][0])),
        FindSpecView::FindRel(_) => OutputView::Rel(rows),
    }
}

/// The rows up to the limit of a query: the first rows, as many as the
/// limit says, or all of them where there are fewer or there is no limit.
pub open spec fn limited(rows: Seq<Seq<TypedValueView>>, limit: LimitView) -> Seq<
    Seq<TypedValueView>,
> {
    match limit {
        LimitView::Fixed(n) => if 0 <= n < rows.len() {
            rows.take(n)
        } else {
            rows
        },
        _ => rows,
    }
}

/// The answer to a query that can be answered: its clauses, one after
/// the other, extend and sift the bindings of its inputs; what is to be
/// found is read off the bindings that are left, each row once; and the
/// rows up to the limit are given in the shape that is to be found.
pub open spec fn answered(
    schema: SchemaView,
    datoms: Seq<DatomView>,
    q: ParsedQueryView,
    inputs: Seq<TypedValueView>,
) -> OutputView {
    shaped(
        q.find_spec,
        limited(
            rows_of(
                find_names(q.find_spec).unwrap(),
                answers(schema, datoms, q.where_clauses, 0, seq![input_env(q.in_vars, inputs)]),
            ),
            q.limit,
        ),
    )
}

} // verus!
