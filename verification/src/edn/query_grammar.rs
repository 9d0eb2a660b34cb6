//! The grammar of queries, as functions on the text.
//!
//! A variable, a source, an argument and the places of a pattern are
//! values that are then looked at: the rule matches where a value stands
//! and is of the kind that is asked for. A value takes the blanks around
//! it with it.

use vstd::prelude::*;
use crate::edn::clauses::{
    query_of, BindingView, Direction, ElementView, FindSpecView, LimitView, OrWhereClauseView,
    ParsedQueryView, PullAttributeSpecView, PullConcreteAttributeView, QueryPartView,
    UnifyVarsView, VariableOrPlaceholderView, WhereClauseView,
};
use crate::edn::grammar::{long_at, raw_keyword_at, symbol_name_len, value_at, Found};
use crate::edn::lexical::{blank_len, char_at, literal_at};
use crate::edn::query::{
    fn_arg_of, non_value_place_of, pattern_of, source_of, value_place_of, variable_of, FnArgView,
    NonValuePlaceView, PatternView, SrcVarView, ValuePlaceView,
};
use crate::edn::tx_grammar::{namespaced_keyword_at, KeywordDirection};
use crate::edn::types::ValueAndSpanView;
use crate::symbols::NameView;

verus! {

/// A value that is of the kind that `f` asks for.
pub open spec fn value_as<T>(s: Seq<char>, pos: int, f: spec_fn(ValueAndSpanView) -> Option<T>)
    -> Found<T> {
    match value_at(s, pos) {
        Some((v, end)) => match f(v) {
            Some(x) => Some((x, end)),
            None => None,
        },
        None => None,
    }
}

/// A variable.
pub open spec fn variable_at(s: Seq<char>, pos: int) -> Found<Seq<char>> {
    value_as(s, pos, |v: ValueAndSpanView| variable_of(v))
}

/// As many variables as stand at `pos`, after those in `acc`.
pub open spec fn variables_at(s: Seq<char>, pos: int, acc: Seq<Seq<char>>) -> (
    Seq<Seq<char>>,
    int,
)
    decreases s.len() - pos,
{
    match variable_at(s, pos) {
        Some((v, next)) => if pos < next <= s.len() {
            variables_at(s, next, acc.push(v))
        } else {
            (acc, pos)
        },
        None => (acc, pos),
    }
}

/// As many inputs as stand at `pos`, each a variable or a source, after
/// those in `vars` and `sources`.
pub open spec fn inputs_at(
    s: Seq<char>,
    pos: int,
    vars: Seq<Seq<char>>,
    sources: Seq<SrcVarView>,
) -> (Seq<Seq<char>>, Seq<SrcVarView>, int)
    decreases s.len() - pos,
{
    match value_at(s, pos) {
        Some((v, next)) => if pos < next <= s.len() {
            match variable_of(v) {
                Some(name) => inputs_at(s, next, vars.push(name), sources),
                None => match source_of(v) {
                    Some(source) => inputs_at(s, next, vars, sources.push(source)),
                    None => (vars, sources, pos),
                },
            }
        } else {
            (vars, sources, pos)
        },
        None => (vars, sources, pos),
    }
}

/// The position after the blanks at `pos`.
pub open spec fn skip(s: Seq<char>, pos: int) -> int {
    pos + blank_len(s, pos)
}

/// The position after an opening bracket with blanks in front of it.
pub open spec fn after_open(s: Seq<char>, pos: int, open: char) -> Option<int> {
    if char_at(s, skip(s, pos), open) {
        Some(skip(s, pos) + 1)
    } else {
        None
    }
}

/// The position after a closing bracket and the blanks behind it.
pub open spec fn after_close(s: Seq<char>, pos: int, close: char) -> Option<int> {
    if char_at(s, pos, close) {
        Some(skip(s, pos + 1))
    } else {
        None
    }
}

/// The position after a word with blanks in front of it.
pub open spec fn after_word(s: Seq<char>, pos: int, word: Seq<char>) -> Option<int> {
    if literal_at(s, skip(s, pos), word) {
        Some(skip(s, pos) + word.len())
    } else {
        None
    }
}

/// The name of a function, with the blanks around it.
pub open spec fn query_function_at(s: Seq<char>, pos: int) -> Found<Seq<char>> {
    let start = skip(s, pos);
    let n = symbol_name_len(s, start);
    if n >= 1 && start + n <= s.len() {
        Some((s.subrange(start, start + n), skip(s, start + n)))
    } else {
        None
    }
}

/// An argument of a function: a value that can be one, or several
/// arguments between brackets.
pub open spec fn fn_arg_at(s: Seq<char>, pos: int) -> Found<FnArgView>
    decreases s.len() - pos, 0nat,
{
    if value_as(s, pos, |v: ValueAndSpanView| fn_arg_of(v)) is Some {
        value_as(s, pos, |v: ValueAndSpanView| fn_arg_of(v))
    } else {
        match after_open(s, pos, '[') {
            Some(inside) => if pos < inside <= s.len() {
                let args = fn_args_at(s, inside, Seq::empty());
                match after_close(s, args.1, ']') {
                    Some(end) => if args.0.len() >= 1 {
                        Some((FnArgView::Vector(args.0), end))
                    } else {
                        None
                    },
                    None => None,
                }
            } else {
                None
            },
            None => None,
        }
    }
}

/// As many arguments as stand at `pos`, after those in `acc`.
pub open spec fn fn_args_at(s: Seq<char>, pos: int, acc: Seq<FnArgView>) -> (Seq<FnArgView>, int)
    decreases s.len() - pos, 1nat,
{
    match fn_arg_at(s, pos) {
        Some((arg, next)) => if pos < next <= s.len() {
            fn_args_at(s, next, acc.push(arg))
        } else {
            (acc, pos)
        },
        None => (acc, pos),
    }
}

/// A function with its arguments between parentheses: `(f arg ...)`.
#[verifier::opaque]
pub open spec fn call_at(s: Seq<char>, pos: int) -> Found<(Seq<char>, Seq<FnArgView>)> {
    if char_at(s, pos, '(') {
        match query_function_at(s, pos + 1) {
            Some((func, p1)) => {
                let args = fn_args_at(s, p1, Seq::empty());
                if char_at(s, args.1, ')') {
                    Some(((func, args.0), args.1 + 1))
                } else {
                    None
                }
            },
            None => None,
        }
    } else {
        None
    }
}

/// The alias of a pulled attribute, `:as` and a forward keyword, and the
/// position after it; nothing, and the same position, where none stands.
pub open spec fn alias_at(s: Seq<char>, pos: int) -> (Option<NameView>, int) {
    if literal_at(s, pos, ":as"@) {
        match raw_keyword_at(s, skip(s, pos + ":as"@.len())) {
            Some((k, end)) => if !k.is_backward() {
                (Some(k), skip(s, end))
            } else {
                (None, pos)
            },
            None => (None, pos),
        }
    } else {
        (None, pos)
    }
}

/// One entry of a pull: `*`, or a forward keyword with a namespace and
/// an optional alias.
#[verifier::opaque]
pub open spec fn pull_attribute_at(s: Seq<char>, pos: int) -> Found<PullAttributeSpecView> {
    let start = skip(s, pos);
    if char_at(s, start, '*') {
        Some((PullAttributeSpecView::Wildcard, skip(s, start + 1)))
    } else {
        match namespaced_keyword_at(s, start, KeywordDirection::Forward) {
            Some((k, end)) => Some(
                (
                    PullAttributeSpecView::Attribute {
                        attribute: PullConcreteAttributeView::Ident(k),
                        alias: alias_at(s, skip(s, end)).0,
                    },
                    alias_at(s, skip(s, end)).1,
                ),
            ),
            None => None,
        }
    }
}

/// As many entries of a pull as stand at `pos`, after those in `acc`.
pub open spec fn pull_attributes_at(s: Seq<char>, pos: int, acc: Seq<PullAttributeSpecView>) -> (
    Seq<PullAttributeSpecView>,
    int,
)
    decreases s.len() - pos,
{
    match pull_attribute_at(s, pos) {
        Some((spec, next)) => if pos < next <= s.len() {
            pull_attributes_at(s, next, acc.push(spec))
        } else {
            (acc, pos)
        },
        None => (acc, pos),
    }
}

/// `(the ?x)`, with the blanks around it.
#[verifier::opaque]
pub open spec fn corresponding_at(s: Seq<char>, pos: int) -> Found<ElementView> {
    match after_open(s, pos, '(') {
        Some(p1) => match after_word(s, p1, "the"@) {
            Some(p2) => match variable_at(s, p2) {
                Some((v, p3)) => match after_close(s, p3, ')') {
                    Some(end) => Some((ElementView::Corresponding(v), end)),
                    None => None,
                },
                None => None,
            },
            None => None,
        },
        None => None,
    }
}

/// `(pull ?x [attribute ...])`, with the blanks around it.
#[verifier::opaque]
pub open spec fn pull_at(s: Seq<char>, pos: int) -> Found<ElementView> {
    match after_open(s, pos, '(') {
        Some(p1) => match after_word(s, p1, "pull"@) {
            Some(p2) => match variable_at(s, p2) {
                Some((var, p3)) => if char_at(s, p3, '[') {
                    let specs = pull_attributes_at(s, p3 + 1, Seq::empty());
                    if specs.0.len() >= 1 && char_at(s, specs.1, ']') {
                        match after_close(s, skip(s, specs.1 + 1), ')') {
                            Some(end) => Some(
                                (ElementView::Pull { var, patterns: specs.0 }, end),
                            ),
                            None => None,
                        }
                    } else {
                        None
                    }
                } else {
                    None
                },
                None => None,
            },
            None => None,
        },
        None => None,
    }
}

/// An aggregate, `(f arg ...)`, with the blanks around it.
pub open spec fn aggregate_at(s: Seq<char>, pos: int) -> Found<ElementView> {
    match call_at(s, skip(s, pos)) {
        Some((call, end)) => Some(
            (ElementView::Aggregate { func: call.0, args: call.1 }, skip(s, end)),
        ),
        None => None,
    }
}

/// One thing to find: a variable, `(the ?x)`, a pull, or an aggregate.
pub open spec fn find_elem_at(s: Seq<char>, pos: int) -> Found<ElementView> {
    if variable_at(s, pos) is Some {
        match variable_at(s, pos) {
            Some((v, end)) => Some((ElementView::Variable(v), end)),
            None => None,
        }
    } else if corresponding_at(s, pos) is Some {
        corresponding_at(s, pos)
    } else if pull_at(s, pos) is Some {
        pull_at(s, pos)
    } else {
        aggregate_at(s, pos)
    }
}

/// As many things to find as stand at `pos`, after those in `acc`.
pub open spec fn find_elems_at(s: Seq<char>, pos: int, acc: Seq<ElementView>) -> (
    Seq<ElementView>,
    int,
)
    decreases s.len() - pos,
{
    match find_elem_at(s, pos) {
        Some((e, next)) => if pos < next <= s.len() {
            find_elems_at(s, next, acc.push(e))
        } else {
            (acc, pos)
        },
        None => (acc, pos),
    }
}

/// `?x .`: one value.
#[verifier::opaque]
pub open spec fn find_scalar_at(s: Seq<char>, pos: int) -> Found<FindSpecView> {
    match find_elem_at(s, pos) {
        Some((e, p1)) => if char_at(s, p1, '.') {
            Some((FindSpecView::FindScalar(e), skip(s, p1 + 1)))
        } else {
            None
        },
        None => None,
    }
}

/// `?x ?y`: the rows.
pub open spec fn find_rel_at(s: Seq<char>, pos: int) -> Found<FindSpecView> {
    let elems = find_elems_at(s, pos, Seq::empty());
    if elems.0.len() >= 1 {
        Some((FindSpecView::FindRel(elems.0), elems.1))
    } else {
        None
    }
}

/// `[?x ...]`: one column.
#[verifier::opaque]
pub open spec fn find_coll_at(s: Seq<char>, pos: int) -> Found<FindSpecView> {
    match after_open(s, pos, '[') {
        Some(p1) => match find_elem_at(s, p1) {
            Some((e, p2)) => match after_word(s, p2, "..."@) {
                Some(p3) => match after_close(s, skip(s, p3), ']') {
                    Some(end) => Some((FindSpecView::FindColl(e), end)),
                    None => None,
                },
                None => None,
            },
            None => None,
        },
        None => None,
    }
}

/// `[?x ?y]`: one row.
#[verifier::opaque]
pub open spec fn find_tuple_at(s: Seq<char>, pos: int) -> Found<FindSpecView> {
    match after_open(s, pos, '[') {
        Some(p1) => {
            let elems = find_elems_at(s, p1, Seq::empty());
            match after_close(s, elems.1, ']') {
                Some(end) => if elems.0.len() >= 1 {
                    Some((FindSpecView::FindTuple(elems.0), end))
                } else {
                    None
                },
                None => None,
            }
        },
        None => None,
    }
}

/// The find spec, in one of its four shapes.
pub open spec fn find_spec_at(s: Seq<char>, pos: int) -> Found<FindSpecView> {
    if find_scalar_at(s, pos) is Some {
        find_scalar_at(s, pos)
    } else if find_rel_at(s, pos) is Some {
        find_rel_at(s, pos)
    } else if find_coll_at(s, pos) is Some {
        find_coll_at(s, pos)
    } else {
        find_tuple_at(s, pos)
    }
}

/// The limit: a variable, or an integer above zero.
#[verifier::opaque]
pub open spec fn limit_at(s: Seq<char>, pos: int) -> Found<LimitView> {
    match variable_at(s, pos) {
        Some((v, end)) => Some((LimitView::Variable(v), end)),
        None => match long_at(s, skip(s, pos)) {
            Some((n, end)) => if n > 0 {
                Some((LimitView::Fixed(n), skip(s, end)))
            } else {
                None
            },
            None => None,
        },
    }
}

/// `(asc ?x)` or `(desc ?x)`, with the blanks around it.
#[verifier::opaque]
pub open spec fn directed_order_at(s: Seq<char>, pos: int, word: Seq<char>, direction: Direction)
    -> Found<(Direction, Seq<char>)> {
    match after_open(s, pos, '(') {
        Some(p1) => match after_word(s, p1, word) {
            Some(p2) => match variable_at(s, p2) {
                Some((v, p3)) => match after_close(s, p3, ')') {
                    Some(end) => Some(((direction, v), end)),
                    None => None,
                },
                None => None,
            },
            None => None,
        },
        None => None,
    }
}

/// One variable to order by: `(asc ?x)`, `(desc ?x)`, or `?x`, which is
/// ascending.
pub open spec fn order_at(s: Seq<char>, pos: int) -> Found<(Direction, Seq<char>)> {
    if directed_order_at(s, pos, "asc"@, Direction::Ascending) is Some {
        directed_order_at(s, pos, "asc"@, Direction::Ascending)
    } else if directed_order_at(s, pos, "desc"@, Direction::Descending) is Some {
        directed_order_at(s, pos, "desc"@, Direction::Descending)
    } else {
        match variable_at(s, pos) {
            Some((v, end)) => Some(((Direction::Ascending, v), end)),
            None => None,
        }
    }
}

/// As many orders as stand at `pos`, after those in `acc`.
pub open spec fn orders_at(s: Seq<char>, pos: int, acc: Seq<(Direction, Seq<char>)>) -> (
    Seq<(Direction, Seq<char>)>,
    int,
)
    decreases s.len() - pos,
{
    match order_at(s, pos) {
        Some((o, next)) => if pos < next <= s.len() {
            orders_at(s, next, acc.push(o))
        } else {
            (acc, pos)
        },
        None => (acc, pos),
    }
}

/// What an optional part of a pattern is, and the position after it: the
/// part if it stands at `pos`, else nothing and the same position.
pub open spec fn optional<T>(found: Found<T>, pos: int) -> (Option<T>, int) {
    match found {
        Some((x, end)) => (Some(x), end),
        None => (None, pos),
    }
}

/// A pattern: `[source? e a v? tx?]`, with the blanks around it. Value
/// and transaction are placeholders where they are left out. See
/// [`pattern_of`] for attributes in the backward direction.
#[verifier::opaque]
pub open spec fn pattern_at(s: Seq<char>, pos: int) -> Found<PatternView> {
    match after_open(s, pos, '[') {
        Some(p0) => {
            let src = optional(value_as(s, p0, |v: ValueAndSpanView| source_of(v)), p0);
            match value_as(s, src.1, |v: ValueAndSpanView| non_value_place_of(v)) {
                Some((e, p2)) => match value_as(
                    s,
                    p2,
                    |v: ValueAndSpanView| non_value_place_of(v),
                ) {
                    Some((a, p3)) => {
                        let v = optional(
                            value_as(s, p3, |v: ValueAndSpanView| value_place_of(v)),
                            p3,
                        );
                        let tx = optional(
                            value_as(s, v.1, |v: ValueAndSpanView| non_value_place_of(v)),
                            v.1,
                        );
                        match after_close(s, tx.1, ']') {
                            Some(end) => match pattern_of(
                                src.0,
                                e,
                                a,
                                match v.0 {
                                    Some(place) => place,
                                    None => ValuePlaceView::Placeholder,
                                },
                                match tx.0 {
                                    Some(place) => place,
                                    None => NonValuePlaceView::Placeholder,
                                },
                            ) {
                                Some(pattern) => Some((pattern, end)),
                                None => None,
                            },
                            None => None,
                        }
                    },
                    None => None,
                },
                None => None,
            }
        },
        None => None,
    }
}

/// Whether no name stands twice.
pub open spec fn all_distinct(names: Seq<Seq<char>>) -> bool {
    forall|i: int, j: int| 0 <= i < j < names.len() ==> names[i] != names[j]
}

/// The variables between the brackets of an `or-join` or a `not-join`: at
/// least one, none of them twice.
pub open spec fn rule_vars_at(s: Seq<char>, pos: int) -> Found<Seq<Seq<char>>> {
    let vars = variables_at(s, pos, Seq::empty());
    if vars.0.len() >= 1 && all_distinct(vars.0) {
        Some((vars.0, vars.1))
    } else {
        None
    }
}

/// A place of a binding: a variable, or `_`.
pub open spec fn variable_or_placeholder_at(s: Seq<char>, pos: int) -> Found<
    VariableOrPlaceholderView,
> {
    match variable_at(s, pos) {
        Some((v, end)) => Some((VariableOrPlaceholderView::Variable(v), end)),
        None => if char_at(s, skip(s, pos), '_') {
            Some((VariableOrPlaceholderView::Placeholder, skip(s, skip(s, pos) + 1)))
        } else {
            None
        },
    }
}

/// As many places of a binding as stand at `pos`, after those in `acc`.
pub open spec fn binding_places_at(
    s: Seq<char>,
    pos: int,
    acc: Seq<VariableOrPlaceholderView>,
) -> (Seq<VariableOrPlaceholderView>, int)
    decreases s.len() - pos,
{
    match variable_or_placeholder_at(s, pos) {
        Some((place, next)) => if pos < next <= s.len() {
            binding_places_at(s, next, acc.push(place))
        } else {
            (acc, pos)
        },
        None => (acc, pos),
    }
}

/// `[[?x _ ?y]]`: the rows.
#[verifier::opaque]
pub open spec fn bind_rel_at(s: Seq<char>, pos: int) -> Found<BindingView> {
    match after_open(s, pos, '[') {
        Some(p1) => match after_open(s, p1, '[') {
            Some(p2) => {
                let places = binding_places_at(s, p2, Seq::empty());
                if places.0.len() >= 1 && char_at(s, places.1, ']') {
                    match after_close(s, skip(s, places.1 + 1), ']') {
                        Some(end) => Some((BindingView::BindRel(places.0), end)),
                        None => None,
                    }
                } else {
                    None
                }
            },
            None => None,
        },
        None => None,
    }
}

/// `[?x ...]`: one column.
#[verifier::opaque]
pub open spec fn bind_coll_at(s: Seq<char>, pos: int) -> Found<BindingView> {
    match after_open(s, pos, '[') {
        Some(p1) => match variable_at(s, p1) {
            Some((v, p2)) => if literal_at(s, p2, "..."@) {
                match after_close(s, skip(s, p2 + "..."@.len()), ']') {
                    Some(end) => Some((BindingView::BindColl(v), end)),
                    None => None,
                }
            } else {
                None
            },
            None => None,
        },
        None => None,
    }
}

/// `[?x _ ?y]`: one row.
#[verifier::opaque]
pub open spec fn bind_tuple_at(s: Seq<char>, pos: int) -> Found<BindingView> {
    match after_open(s, pos, '[') {
        Some(p1) => {
            let places = binding_places_at(s, p1, Seq::empty());
            match after_close(s, places.1, ']') {
                Some(end) => if places.0.len() >= 1 {
                    Some((BindingView::BindTuple(places.0), end))
                } else {
                    None
                },
                None => None,
            }
        },
        None => None,
    }
}

/// What the result of a function is bound to, in one of four shapes.
pub open spec fn binding_at(s: Seq<char>, pos: int) -> Found<BindingView> {
    if bind_rel_at(s, pos) is Some {
        bind_rel_at(s, pos)
    } else if bind_coll_at(s, pos) is Some {
        bind_coll_at(s, pos)
    } else if bind_tuple_at(s, pos) is Some {
        bind_tuple_at(s, pos)
    } else {
        match variable_at(s, pos) {
            Some((v, end)) => Some((BindingView::BindScalar(v), end)),
            None => None,
        }
    }
}

/// `[(type ?x :db.type/string)]`, with the blanks around it.
#[verifier::opaque]
pub open spec fn type_annotation_at(s: Seq<char>, pos: int) -> Found<WhereClauseView> {
    match after_open(s, pos, '[') {
        Some(p1) => match after_open(s, p1, '(') {
            Some(p2) => match after_word(s, p2, "type"@) {
                Some(p3) => match variable_at(s, p3) {
                    Some((variable, p4)) => match raw_keyword_at(s, skip(s, p4)) {
                        Some((value_type, p5)) => if char_at(s, skip(s, p5), ')') {
                            match after_close(s, skip(s, skip(s, p5) + 1), ']') {
                                Some(end) => Some(
                                    (WhereClauseView::TypeAnnotation { value_type, variable }, end),
                                ),
                                None => None,
                            }
                        } else {
                            None
                        },
                        None => None,
                    },
                    None => None,
                },
                None => None,
            },
            None => None,
        },
        None => None,
    }
}

/// A predicate, `[(f arg ...)]`, with the blanks around it.
#[verifier::opaque]
pub open spec fn pred_at(s: Seq<char>, pos: int) -> Found<WhereClauseView> {
    match after_open(s, pos, '[') {
        Some(p1) => match call_at(s, skip(s, p1)) {
            Some((call, p2)) => match after_close(s, skip(s, p2), ']') {
                Some(end) => Some((WhereClauseView::Pred { operator: call.0, args: call.1 }, end)),
                None => None,
            },
            None => None,
        },
        None => None,
    }
}

/// A function with a binding, `[(f arg ...) binding]`, with the blanks
/// around it.
#[verifier::opaque]
pub open spec fn where_fn_at(s: Seq<char>, pos: int) -> Found<WhereClauseView> {
    match after_open(s, pos, '[') {
        Some(p1) => match call_at(s, skip(s, p1)) {
            Some((call, p2)) => match binding_at(s, skip(s, p2)) {
                Some((binding, p3)) => match after_close(s, p3, ']') {
                    Some(end) => Some(
                        (
                            WhereClauseView::WhereFn { operator: call.0, args: call.1, binding },
                            end,
                        ),
                    ),
                    None => None,
                },
                None => None,
            },
            None => None,
        },
        None => None,
    }
}

/// A clause that holds no other clauses.
pub open spec fn simple_clause_at(s: Seq<char>, pos: int) -> Found<WhereClauseView> {
    if type_annotation_at(s, pos) is Some {
        type_annotation_at(s, pos)
    } else if pred_at(s, pos) is Some {
        pred_at(s, pos)
    } else {
        where_fn_at(s, pos)
    }
}

/// The four clauses that hold other clauses.
#[derive(Debug, Clone, Copy, PartialEq, Eq, Structural)]
pub enum Junction {
    OrJoin,
    Or,
    NotJoin,
    Not,
}

/// The position after the word of a junction and, for a join, the
/// variables it lists.
#[verifier::opaque]
pub open spec fn junction_head_at(s: Seq<char>, pos: int, junction: Junction) -> Found<
    UnifyVarsView,
> {
    match after_open(s, pos, '(') {
        Some(p1) => match junction {
            Junction::Or => match after_word(s, p1, "or"@) {
                Some(p2) => Some((UnifyVarsView::Implicit, p2)),
                None => None,
            },
            Junction::Not => match after_word(s, p1, "not"@) {
                Some(p2) => Some((UnifyVarsView::Implicit, p2)),
                None => None,
            },
            Junction::OrJoin => joined_vars_at(s, after_word(s, p1, "or-join"@)),
            Junction::NotJoin => joined_vars_at(s, after_word(s, p1, "not-join"@)),
        },
        None => None,
    }
}

/// The variables of a join between brackets.
pub open spec fn joined_vars_at(s: Seq<char>, pos: Option<int>) -> Found<UnifyVarsView> {
    match pos {
        Some(p) => match after_open(s, p, '[') {
            Some(p1) => match rule_vars_at(s, p1) {
                Some((vars, p2)) => if char_at(s, p2, ']') {
                    Some((UnifyVarsView::Explicit(vars), p2 + 1))
                } else {
                    None
                },
                None => None,
            },
            None => None,
        },
        None => None,
    }
}

/// One clause of the where section: a pattern, an `or-join`, an `or`, a
/// `not-join`, a `not`, a type annotation, a predicate, or a function
/// with a binding.
pub open spec fn where_clause_at(s: Seq<char>, pos: int) -> Found<WhereClauseView>
    decreases s.len() - pos, 1nat,
{
    if pos < 0 || pos > s.len() {
        None
    } else if pattern_at(s, pos) is Some {
        match pattern_at(s, pos) {
            Some((p, end)) => Some((WhereClauseView::Pattern(p), end)),
            None => None,
        }
    } else if junction_at(s, pos, Junction::OrJoin) is Some {
        junction_at(s, pos, Junction::OrJoin)
    } else if junction_at(s, pos, Junction::Or) is Some {
        junction_at(s, pos, Junction::Or)
    } else if junction_at(s, pos, Junction::NotJoin) is Some {
        junction_at(s, pos, Junction::NotJoin)
    } else if junction_at(s, pos, Junction::Not) is Some {
        junction_at(s, pos, Junction::Not)
    } else {
        simple_clause_at(s, pos)
    }
}

/// A clause that holds other clauses: the head, at least one clause or
/// alternative, and the closing parenthesis.
pub open spec fn junction_at(s: Seq<char>, pos: int, junction: Junction) -> Found<
    WhereClauseView,
>
    decreases s.len() - pos, 0nat,
{
    match junction_head_at(s, pos, junction) {
        Some((unify_vars, p1)) => if pos < p1 <= s.len() {
            if junction == Junction::Or || junction == Junction::OrJoin {
                let alternatives = or_clauses_at(s, p1, Seq::empty());
                match after_close(s, alternatives.1, ')') {
                    Some(end) => if alternatives.0.len() >= 1 {
                        Some(
                            (
                                WhereClauseView::OrJoin { unify_vars, alternatives: alternatives.0 },
                                end,
                            ),
                        )
                    } else {
                        None
                    },
                    None => None,
                }
            } else {
                let clauses = where_clauses_at(s, p1, Seq::empty());
                match after_close(s, clauses.1, ')') {
                    Some(end) => if clauses.0.len() >= 1 {
                        Some((WhereClauseView::NotJoin { unify_vars, clauses: clauses.0 }, end))
                    } else {
                        None
                    },
                    None => None,
                }
            }
        } else {
            None
        },
        None => None,
    }
}

/// As many clauses as stand at `pos`, after those in `acc`.
pub open spec fn where_clauses_at(s: Seq<char>, pos: int, acc: Seq<WhereClauseView>) -> (
    Seq<WhereClauseView>,
    int,
)
    decreases s.len() - pos, 3nat,
{
    match where_clause_at(s, pos) {
        Some((clause, next)) => if pos < next <= s.len() {
            where_clauses_at(s, next, acc.push(clause))
        } else {
            (acc, pos)
        },
        None => (acc, pos),
    }
}

/// One alternative of an `or`: a clause, or `(and clause ...)`.
pub open spec fn or_where_clause_at(s: Seq<char>, pos: int) -> Found<OrWhereClauseView>
    decreases s.len() - pos, 2nat,
{
    if where_clause_at(s, pos) is Some {
        match where_clause_at(s, pos) {
            Some((clause, end)) => Some((OrWhereClauseView::Clause(clause), end)),
            None => None,
        }
    } else {
        match after_open(s, pos, '(') {
            Some(p1) => match after_word(s, p1, "and"@) {
                Some(p2) => if pos < p2 <= s.len() {
                    let clauses = where_clauses_at(s, p2, Seq::empty());
                    match after_close(s, clauses.1, ')') {
                        Some(end) => if clauses.0.len() >= 1 {
                            Some((OrWhereClauseView::And(clauses.0), end))
                        } else {
                            None
                        },
                        None => None,
                    }
                } else {
                    None
                },
                None => None,
            },
            None => None,
        }
    }
}

/// As many alternatives as stand at `pos`, after those in `acc`.
pub open spec fn or_clauses_at(s: Seq<char>, pos: int, acc: Seq<OrWhereClauseView>) -> (
    Seq<OrWhereClauseView>,
    int,
)
    decreases s.len() - pos, 3nat,
{
    match or_where_clause_at(s, pos) {
        Some((clause, next)) => if pos < next <= s.len() {
            or_clauses_at(s, next, acc.push(clause))
        } else {
            (acc, pos)
        },
        None => (acc, pos),
    }
}

/// One section of a query: its keyword and what belongs to it.
pub open spec fn query_part_at(s: Seq<char>, pos: int) -> Found<QueryPartView> {
    if after_word(s, pos, ":find"@) is Some && find_spec_at(s, after_word(s, pos, ":find"@)->0)
        is Some {
        match find_spec_at(s, after_word(s, pos, ":find"@)->0) {
            Some((f, end)) => Some((QueryPartView::FindSpec(f), end)),
            None => None,
        }
    } else if after_word(s, pos, ":in"@) is Some && inputs_at(
        s,
        after_word(s, pos, ":in"@)->0,
        Seq::empty(),
        Seq::empty(),
    ).2 > after_word(s, pos, ":in"@)->0 {
        Some(
            (
                QueryPartView::InVars(
                    inputs_at(s, after_word(s, pos, ":in"@)->0, Seq::empty(), Seq::empty()).0,
                    inputs_at(s, after_word(s, pos, ":in"@)->0, Seq::empty(), Seq::empty()).1,
                ),
                inputs_at(s, after_word(s, pos, ":in"@)->0, Seq::empty(), Seq::empty()).2,
            ),
        )
    } else if after_word(s, pos, ":limit"@) is Some && limit_at(
        s,
        after_word(s, pos, ":limit"@)->0,
    ) is Some {
        match limit_at(s, after_word(s, pos, ":limit"@)->0) {
            Some((l, end)) => Some((QueryPartView::Limit(l), end)),
            None => None,
        }
    } else if after_word(s, pos, ":order"@) is Some && orders_at(
        s,
        after_word(s, pos, ":order"@)->0,
        Seq::empty(),
    ).0.len() >= 1 {
        Some(
            (
                QueryPartView::Order(orders_at(s, after_word(s, pos, ":order"@)->0, Seq::empty()).0),
                orders_at(s, after_word(s, pos, ":order"@)->0, Seq::empty()).1,
            ),
        )
    } else if after_word(s, pos, ":where"@) is Some && where_clauses_at(
        s,
        after_word(s, pos, ":where"@)->0,
        Seq::empty(),
    ).0.len() >= 1 {
        Some(
            (
                QueryPartView::WhereClauses(
                    where_clauses_at(s, after_word(s, pos, ":where"@)->0, Seq::empty()).0,
                ),
                where_clauses_at(s, after_word(s, pos, ":where"@)->0, Seq::empty()).1,
            ),
        )
    } else if after_word(s, pos, ":with"@) is Some && variables_at(
        s,
        after_word(s, pos, ":with"@)->0,
        Seq::empty(),
    ).0.len() >= 1 {
        Some(
            (
                QueryPartView::WithVars(
                    variables_at(s, after_word(s, pos, ":with"@)->0, Seq::empty()).0,
                ),
                variables_at(s, after_word(s, pos, ":with"@)->0, Seq::empty()).1,
            ),
        )
    } else {
        None
    }
}

/// As many sections as stand at `pos`, after those in `acc`.
pub open spec fn query_parts_at(s: Seq<char>, pos: int, acc: Seq<QueryPartView>) -> (
    Seq<QueryPartView>,
    int,
)
    decreases s.len() - pos,
{
    match query_part_at(s, pos) {
        Some((part, next)) => if pos < next <= s.len() {
            query_parts_at(s, next, acc.push(part))
        } else {
            (acc, pos)
        },
        None => (acc, pos),
    }
}

/// The whole text as a query: `[section ...]` with blanks around it, at
/// least one section, and sections that make a query.
pub open spec fn whole_query(s: Seq<char>) -> Option<ParsedQueryView> {
    match after_open(s, 0, '[') {
        Some(p1) => {
            let parts = query_parts_at(s, p1, Seq::empty());
            match after_close(s, parts.1, ']') {
                Some(end) => if parts.0.len() >= 1 && end == s.len() {
                    match query_of(parts.0) {
                        Ok(q) => Some(q),
                        Err(_) => None,
                    }
                } else {
                    None
                },
                None => None,
            }
        },
        None => None,
    }
}

/// Where reading the text as a query stops, if it fails: at the bracket
/// that should open it, at the first section that cannot be read or the
/// bracket that should close it, after the query where the text should
/// end, or at the start where the sections do not make a query.
pub open spec fn query_stop(s: Seq<char>) -> int {
    match after_open(s, 0, '[') {
        Some(p1) => {
            let parts = query_parts_at(s, p1, Seq::empty());
            match after_close(s, parts.1, ']') {
                Some(end) => if parts.0.len() >= 1 && end == s.len() {
                    0
                } else if parts.0.len() >= 1 {
                    end
                } else {
                    parts.1
                },
                None => parts.1,
            }
        },
        None => skip(s, 0),
    }
}

} // verus!
