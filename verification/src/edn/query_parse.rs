//! The reader of queries.

use vstd::prelude::*;
use crate::edn::clauses::{
    clauses_view, elements_view, or_clauses_view, orders_view, parts_view, places_view,
    pull_specs_view, sources_view, variables_view, Aggregate, Binding, Direction, Element,
    FindSpec, Limit, NamedPullAttribute, NotJoin, OrJoin, OrWhereClause, Order, ParsedQuery,
    Predicate, Pull, PullAttributeSpec, PullConcreteAttribute, QueryFunction, QueryPart,
    TypeAnnotation, UnifyVars, VariableOrPlaceholder, WhereClause, WhereFn,
};
use crate::edn::lexical::{scan_blank, scan_char};
use crate::edn::parse::{
    read_keyword, read_long, read_symbol_name_len, read_value, read_word, reads,
};
use crate::edn::query::{
    args_view, fn_arg_of, non_value_place_of, opt_view, source_of, value_place_of, FnArg, Pattern,
    PatternNonValuePlace, PatternValuePlace, SrcVar, Variable,
};
use crate::edn::query_grammar::{
    after_close, after_open, after_word, alias_at, all_distinct, bind_coll_at, bind_rel_at,
    bind_tuple_at, binding_at, binding_places_at, call_at, corresponding_at, directed_order_at,
    find_coll_at, find_elem_at, find_elems_at, find_rel_at, find_scalar_at, find_spec_at,
    find_tuple_at, fn_arg_at, fn_args_at, inputs_at, joined_vars_at, junction_at, junction_head_at,
    limit_at, optional, or_clauses_at, or_where_clause_at, order_at, orders_at, pattern_at,
    pred_at, pull_at, pull_attribute_at, pull_attributes_at, query_function_at, query_part_at,
    query_parts_at, query_stop, type_annotation_at, value_as, variable_at,
    variable_or_placeholder_at, variables_at, where_clause_at, where_clauses_at, where_fn_at,
    whole_query, Junction,
};
use crate::edn::source::{location_at, Source};
use crate::edn::types::ValueAndSpanView;
use crate::edn::ParseError;
use crate::symbols::{Keyword, PlainSymbol};
use crate::text::string_of;

verus! {

/// The position after an opening bracket with blanks in front of it.
fn read_open(src: &Source, pos: usize, open: char) -> (r: Option<usize>)
    requires
        src.well_formed(),
        pos <= src@.len(),
    ensures
        match r {
            Some(p) => after_open(src@, pos as int, open) == Some(p as int) && pos < p
                <= src@.len(),
            None => after_open(src@, pos as int, open) is None,
        },
{
    let chars = src.chars();
    let start = pos + scan_blank(chars, pos);
    if scan_char(chars, start, open) {
        Some(start + 1)
    } else {
        None
    }
}

/// The position after a closing bracket and the blanks behind it.
fn read_close(src: &Source, pos: usize, close: char) -> (r: Option<usize>)
    requires
        src.well_formed(),
        pos <= src@.len(),
    ensures
        match r {
            Some(p) => after_close(src@, pos as int, close) == Some(p as int) && pos < p
                <= src@.len(),
            None => after_close(src@, pos as int, close) is None,
        },
{
    proof {
        src.lemma_bounded();
    }
    let chars = src.chars();
    if scan_char(chars, pos, close) {
        Some(pos + 1 + scan_blank(chars, pos + 1))
    } else {
        None
    }
}

/// The position after a word with blanks in front of it.
fn read_after_word(src: &Source, pos: usize, word: &str) -> (r: Option<usize>)
    requires
        src.well_formed(),
        pos <= src@.len(),
    ensures
        match r {
            Some(p) => after_word(src@, pos as int, word@) == Some(p as int) && pos <= p
                <= src@.len(),
            None => after_word(src@, pos as int, word@) is None,
        },
{
    let chars = src.chars();
    read_word(src, pos + scan_blank(chars, pos), word)
}

/// A variable.
pub fn read_variable(src: &Source, pos: usize) -> (r: Option<(Variable, usize)>)
    requires
        src.well_formed(),
        pos <= src@.len(),
    ensures
        reads(r, variable_at(src@, pos as int)),
        r matches Some((_, end)) ==> pos < end <= src@.len(),
{
    match read_value(src, pos) {
        Some((v, end)) => match Variable::from_value(&v) {
            Some(var) => Some((var, end)),
            None => None,
        },
        None => None,
    }
}

/// As many variables as stand at `pos`.
fn read_variables(src: &Source, pos: usize) -> (r: (Vec<Variable>, usize))
    requires
        src.well_formed(),
        pos <= src@.len(),
    ensures
        variables_at(src@, pos as int, Seq::empty()) == (variables_view(r.0@), r.1 as int),
        pos <= r.1 <= src@.len(),
        r.0@.len() >= 1 ==> pos < r.1,
{
    let mut vars: Vec<Variable> = Vec::new();
    let mut cur: usize = pos;
    proof {
        assert(variables_view(vars@) =~= Seq::empty());
    }
    loop
        invariant
            src.well_formed(),
            pos <= cur <= src@.len(),
            vars@.len() >= 1 ==> pos < cur,
            variables_at(src@, pos as int, Seq::empty()) == variables_at(
                src@,
                cur as int,
                variables_view(vars@),
            ),
        ensures
            pos <= cur <= src@.len(),
            vars@.len() >= 1 ==> pos < cur,
            variables_at(src@, pos as int, Seq::empty()) == (variables_view(vars@), cur as int),
        decreases src@.len() - cur,
    {
        match read_variable(src, cur) {
            Some((v, next)) => {
                let ghost before = variables_view(vars@);
                let ghost item = v@;
                vars.push(v);
                cur = next;
                proof {
                    assert(variables_view(vars@) =~= before.push(item));
                }
            },
            None => {
                break ;
            },
        }
    }
    (vars, cur)
}

/// As many inputs as stand at `pos`, each a variable or a source.
fn read_inputs(src: &Source, pos: usize) -> (r: (Vec<Variable>, Vec<SrcVar>, usize))
    requires
        src.well_formed(),
        pos <= src@.len(),
    ensures
        inputs_at(src@, pos as int, Seq::empty(), Seq::empty()) == (
            variables_view(r.0@),
            sources_view(r.1@),
            r.2 as int,
        ),
        pos <= r.2 <= src@.len(),
{
    let mut vars: Vec<Variable> = Vec::new();
    let mut sources: Vec<SrcVar> = Vec::new();
    let mut cur: usize = pos;
    proof {
        assert(variables_view(vars@) =~= Seq::empty());
        assert(sources_view(sources@) =~= Seq::empty());
    }
    loop
        invariant
            src.well_formed(),
            pos <= cur <= src@.len(),
            inputs_at(src@, pos as int, Seq::empty(), Seq::empty()) == inputs_at(
                src@,
                cur as int,
                variables_view(vars@),
                sources_view(sources@),
            ),
        ensures
            pos <= cur <= src@.len(),
            inputs_at(src@, pos as int, Seq::empty(), Seq::empty()) == (
                variables_view(vars@),
                sources_view(sources@),
                cur as int,
            ),
        decreases src@.len() - cur,
    {
        match read_value(src, cur) {
            Some((v, next)) => {
                match Variable::from_value(&v) {
                    Some(var) => {
                        let ghost before = variables_view(vars@);
                        let ghost item = var@;
                        vars.push(var);
                        cur = next;
                        proof {
                            assert(variables_view(vars@) =~= before.push(item));
                        }
                    },
                    None => match SrcVar::from_value(&v) {
                        Some(source) => {
                            let ghost before = sources_view(sources@);
                            let ghost item = source@;
                            sources.push(source);
                            cur = next;
                            proof {
                                assert(sources_view(sources@) =~= before.push(item));
                            }
                        },
                        None => {
                            break ;
                        },
                    },
                }
            },
            None => {
                break ;
            },
        }
    }
    (vars, sources, cur)
}

/// The name of a function, with the blanks around it.
fn read_query_function(src: &Source, pos: usize) -> (r: Option<(PlainSymbol, usize)>)
    requires
        src.well_formed(),
        pos <= src@.len(),
    ensures
        reads(r, query_function_at(src@, pos as int)),
        r matches Some((_, end)) ==> pos < end <= src@.len(),
{
    let chars = src.chars();
    let start = pos + scan_blank(chars, pos);
    let n = read_symbol_name_len(src, start);
    if n >= 1 {
        let name = string_of(chars, start, start + n);
        Some((PlainSymbol::plain(name.as_str()), start + n + scan_blank(chars, start + n)))
    } else {
        None
    }
}

/// An argument of a function.
pub fn read_fn_arg(src: &Source, pos: usize) -> (r: Option<(FnArg, usize)>)
    requires
        src.well_formed(),
        pos <= src@.len(),
    ensures
        reads(r, fn_arg_at(src@, pos as int)),
        r matches Some((_, end)) ==> pos < end <= src@.len(),
    decreases src@.len() - pos, 0nat,
{
    match read_value(src, pos) {
        Some((v, end)) => match FnArg::from_value(&v) {
            Some(arg) => {
                return Some((arg, end));
            },
            None => {},
        },
        None => {},
    }
    assert(value_as(src@, pos as int, |v: ValueAndSpanView| fn_arg_of(v)) is None);
    match read_open(src, pos, '[') {
        Some(inside) => {
            let found = read_fn_args(src, inside);
            let args = found.0;
            match read_close(src, found.1, ']') {
                Some(end) => {
                    if args.len() >= 1 {
                        Some((FnArg::Vector(args), end))
                    } else {
                        None
                    }
                },
                None => None,
            }
        },
        None => None,
    }
}

/// As many arguments as stand at `pos`.
fn read_fn_args(src: &Source, pos: usize) -> (r: (Vec<FnArg>, usize))
    requires
        src.well_formed(),
        pos <= src@.len(),
    ensures
        fn_args_at(src@, pos as int, Seq::empty()) == (args_view(r.0@), r.1 as int),
        pos <= r.1 <= src@.len(),
    decreases src@.len() - pos, 1nat,
{
    let mut args: Vec<FnArg> = Vec::new();
    let mut cur: usize = pos;
    proof {
        assert(args_view(args@) =~= Seq::empty());
    }
    loop
        invariant
            src.well_formed(),
            pos <= cur <= src@.len(),
            fn_args_at(src@, pos as int, Seq::empty()) == fn_args_at(
                src@,
                cur as int,
                args_view(args@),
            ),
        ensures
            pos <= cur <= src@.len(),
            fn_args_at(src@, pos as int, Seq::empty()) == (args_view(args@), cur as int),
        decreases src@.len() - cur,
    {
        match read_fn_arg(src, cur) {
            Some((arg, next)) => {
                let ghost before = args_view(args@);
                let ghost item = arg@;
                args.push(arg);
                cur = next;
                proof {
                    assert(args_view(args@) =~= before.push(item));
                }
            },
            None => {
                break ;
            },
        }
    }
    (args, cur)
}

/// A function with its arguments between parentheses.
fn read_call(src: &Source, pos: usize) -> (r: Option<(PlainSymbol, Vec<FnArg>, usize)>)
    requires
        src.well_formed(),
        pos <= src@.len(),
    ensures
        match r {
            Some((func, args, end)) => call_at(src@, pos as int) == Some(
                ((func@, args_view(args@)), end as int),
            ) && pos < end <= src@.len(),
            None => call_at(src@, pos as int) is None,
        },
{
    proof {
        reveal(call_at);
    }
    proof {
        src.lemma_bounded();
    }
    let chars = src.chars();
    if !scan_char(chars, pos, '(') {
        return None;
    }
    match read_query_function(src, pos + 1) {
        Some((func, p1)) => {
            let found = read_fn_args(src, p1);
            if scan_char(chars, found.1, ')') {
                Some((func, found.0, found.1 + 1))
            } else {
                None
            }
        },
        None => None,
    }
}

/// The alias of a pulled attribute.
fn read_alias(src: &Source, pos: usize) -> (r: (Option<Keyword>, usize))
    requires
        src.well_formed(),
        pos <= src@.len(),
    ensures
        alias_at(src@, pos as int) == (opt_view(r.0), r.1 as int),
        pos <= r.1 <= src@.len(),
{
    let chars = src.chars();
    match read_word(src, pos, ":as") {
        Some(p1) => match read_keyword(src, p1 + scan_blank(chars, p1)) {
            Some((k, end)) => {
                if k.is_forward() {
                    (Some(k), end + scan_blank(chars, end))
                } else {
                    (None, pos)
                }
            },
            None => (None, pos),
        },
        None => (None, pos),
    }
}

/// One entry of a pull.
fn read_pull_attribute(src: &Source, pos: usize) -> (r: Option<(PullAttributeSpec, usize)>)
    requires
        src.well_formed(),
        pos <= src@.len(),
    ensures
        reads(r, pull_attribute_at(src@, pos as int)),
        r matches Some((_, end)) ==> pos < end <= src@.len(),
{
    proof {
        reveal(pull_attribute_at);
    }
    proof {
        src.lemma_bounded();
    }
    let chars = src.chars();
    let start = pos + scan_blank(chars, pos);
    if scan_char(chars, start, '*') {
        return Some((PullAttributeSpec::Wildcard, start + 1 + scan_blank(chars, start + 1)));
    }
    match read_keyword(src, start) {
        Some((k, end)) => {
            if k.is_namespaced() && k.is_forward() {
                let found = read_alias(src, end + scan_blank(chars, end));
                Some(
                    (
                        PullAttributeSpec::Attribute(
                            NamedPullAttribute {
                                attribute: PullConcreteAttribute::Ident(k),
                                alias: found.0,
                            },
                        ),
                        found.1,
                    ),
                )
            } else {
                None
            }
        },
        None => None,
    }
}

/// As many entries of a pull as stand at `pos`.
fn read_pull_attributes(src: &Source, pos: usize) -> (r: (Vec<PullAttributeSpec>, usize))
    requires
        src.well_formed(),
        pos <= src@.len(),
    ensures
        pull_attributes_at(src@, pos as int, Seq::empty()) == (
            pull_specs_view(r.0@),
            r.1 as int,
        ),
        pos <= r.1 <= src@.len(),
{
    let mut specs: Vec<PullAttributeSpec> = Vec::new();
    let mut cur: usize = pos;
    proof {
        assert(pull_specs_view(specs@) =~= Seq::empty());
    }
    loop
        invariant
            src.well_formed(),
            pos <= cur <= src@.len(),
            pull_attributes_at(src@, pos as int, Seq::empty()) == pull_attributes_at(
                src@,
                cur as int,
                pull_specs_view(specs@),
            ),
        ensures
            pos <= cur <= src@.len(),
            pull_attributes_at(src@, pos as int, Seq::empty()) == (
                pull_specs_view(specs@),
                cur as int,
            ),
        decreases src@.len() - cur,
    {
        match read_pull_attribute(src, cur) {
            Some((spec, next)) => {
                let ghost before = pull_specs_view(specs@);
                let ghost item = spec@;
                specs.push(spec);
                cur = next;
                proof {
                    assert(pull_specs_view(specs@) =~= before.push(item));
                }
            },
            None => {
                break ;
            },
        }
    }
    (specs, cur)
}

/// `(the ?x)`.
fn read_corresponding(src: &Source, pos: usize) -> (r: Option<(Element, usize)>)
    requires
        src.well_formed(),
        pos <= src@.len(),
    ensures
        reads(r, corresponding_at(src@, pos as int)),
        r matches Some((_, end)) ==> pos < end <= src@.len(),
{
    proof {
        reveal(corresponding_at);
    }
    match read_open(src, pos, '(') {
        Some(p1) => match read_after_word(src, p1, "the") {
            Some(p2) => match read_variable(src, p2) {
                Some((v, p3)) => match read_close(src, p3, ')') {
                    Some(end) => Some((Element::Corresponding(v), end)),
                    None => None,
                },
                None => None,
            },
            None => None,
        },
        None => None,
    }
}

/// `(pull ?x [attribute ...])`.
fn read_pull(src: &Source, pos: usize) -> (r: Option<(Element, usize)>)
    requires
        src.well_formed(),
        pos <= src@.len(),
    ensures
        reads(r, pull_at(src@, pos as int)),
        r matches Some((_, end)) ==> pos < end <= src@.len(),
{
    proof {
        reveal(pull_at);
    }
    proof {
        src.lemma_bounded();
    }
    let chars = src.chars();
    match read_open(src, pos, '(') {
        Some(p1) => match read_after_word(src, p1, "pull") {
            Some(p2) => match read_variable(src, p2) {
                Some((var, p3)) => {
                    if !scan_char(chars, p3, '[') {
                        return None;
                    }
                    let found = read_pull_attributes(src, p3 + 1);
                    let patterns = found.0;
                    if patterns.len() >= 1 && scan_char(chars, found.1, ']') {
                        let p4 = found.1 + 1 + scan_blank(chars, found.1 + 1);
                        match read_close(src, p4, ')') {
                            Some(end) => Some((Element::Pull(Pull { var, patterns }), end)),
                            None => None,
                        }
                    } else {
                        None
                    }
                },
                None => None,
            },
            None => None,
        },
        None => None,
    }
}

/// One thing to find.
fn read_find_elem(src: &Source, pos: usize) -> (r: Option<(Element, usize)>)
    requires
        src.well_formed(),
        pos <= src@.len(),
    ensures
        reads(r, find_elem_at(src@, pos as int)),
        r matches Some((_, end)) ==> pos < end <= src@.len(),
{
    let chars = src.chars();
    match read_variable(src, pos) {
        Some((v, end)) => {
            return Some((Element::Variable(v), end));
        },
        None => {},
    }
    match read_corresponding(src, pos) {
        Some(found) => {
            return Some(found);
        },
        None => {},
    }
    match read_pull(src, pos) {
        Some(found) => {
            return Some(found);
        },
        None => {},
    }
    match read_call(src, pos + scan_blank(chars, pos)) {
        Some((func, args, end)) => Some(
            (
                Element::Aggregate(Aggregate { func: QueryFunction(func), args }),
                end + scan_blank(chars, end),
            ),
        ),
        None => None,
    }
}

/// As many things to find as stand at `pos`.
fn read_find_elems(src: &Source, pos: usize) -> (r: (Vec<Element>, usize))
    requires
        src.well_formed(),
        pos <= src@.len(),
    ensures
        find_elems_at(src@, pos as int, Seq::empty()) == (elements_view(r.0@), r.1 as int),
        pos <= r.1 <= src@.len(),
        r.0@.len() >= 1 ==> pos < r.1,
{
    let mut elems: Vec<Element> = Vec::new();
    let mut cur: usize = pos;
    proof {
        assert(elements_view(elems@) =~= Seq::empty());
    }
    loop
        invariant
            src.well_formed(),
            pos <= cur <= src@.len(),
            elems@.len() >= 1 ==> pos < cur,
            find_elems_at(src@, pos as int, Seq::empty()) == find_elems_at(
                src@,
                cur as int,
                elements_view(elems@),
            ),
        ensures
            pos <= cur <= src@.len(),
            elems@.len() >= 1 ==> pos < cur,
            find_elems_at(src@, pos as int, Seq::empty()) == (elements_view(elems@), cur as int),
        decreases src@.len() - cur,
    {
        match read_find_elem(src, cur) {
            Some((e, next)) => {
                let ghost before = elements_view(elems@);
                let ghost item = e@;
                elems.push(e);
                cur = next;
                proof {
                    assert(elements_view(elems@) =~= before.push(item));
                }
            },
            None => {
                break ;
            },
        }
    }
    (elems, cur)
}

/// `?x .`.
fn read_find_scalar(src: &Source, pos: usize) -> (r: Option<(FindSpec, usize)>)
    requires
        src.well_formed(),
        pos <= src@.len(),
    ensures
        reads(r, find_scalar_at(src@, pos as int)),
        r matches Some((_, end)) ==> pos < end <= src@.len(),
{
    proof {
        reveal(find_scalar_at);
    }
    proof {
        src.lemma_bounded();
    }
    let chars = src.chars();
    match read_find_elem(src, pos) {
        Some((e, p1)) => {
            if scan_char(chars, p1, '.') {
                Some((FindSpec::FindScalar(e), p1 + 1 + scan_blank(chars, p1 + 1)))
            } else {
                None
            }
        },
        None => None,
    }
}

/// `[?x ...]`.
fn read_find_coll(src: &Source, pos: usize) -> (r: Option<(FindSpec, usize)>)
    requires
        src.well_formed(),
        pos <= src@.len(),
    ensures
        reads(r, find_coll_at(src@, pos as int)),
        r matches Some((_, end)) ==> pos < end <= src@.len(),
{
    proof {
        reveal(find_coll_at);
    }
    let chars = src.chars();
    match read_open(src, pos, '[') {
        Some(p1) => match read_find_elem(src, p1) {
            Some((e, p2)) => match read_after_word(src, p2, "...") {
                Some(p3) => match read_close(src, p3 + scan_blank(chars, p3), ']') {
                    Some(end) => Some((FindSpec::FindColl(e), end)),
                    None => None,
                },
                None => None,
            },
            None => None,
        },
        None => None,
    }
}

/// `[?x ?y]`.
fn read_find_tuple(src: &Source, pos: usize) -> (r: Option<(FindSpec, usize)>)
    requires
        src.well_formed(),
        pos <= src@.len(),
    ensures
        reads(r, find_tuple_at(src@, pos as int)),
        r matches Some((_, end)) ==> pos < end <= src@.len(),
{
    proof {
        reveal(find_tuple_at);
    }
    match read_open(src, pos, '[') {
        Some(p1) => {
            let found = read_find_elems(src, p1);
            let elems = found.0;
            match read_close(src, found.1, ']') {
                Some(end) => {
                    if elems.len() >= 1 {
                        Some((FindSpec::FindTuple(elems), end))
                    } else {
                        None
                    }
                },
                None => None,
            }
        },
        None => None,
    }
}

/// The find spec.
pub fn read_find_spec(src: &Source, pos: usize) -> (r: Option<(FindSpec, usize)>)
    requires
        src.well_formed(),
        pos <= src@.len(),
    ensures
        reads(r, find_spec_at(src@, pos as int)),
        r matches Some((_, end)) ==> pos < end <= src@.len(),
{
    match read_find_scalar(src, pos) {
        Some(found) => {
            return Some(found);
        },
        None => {},
    }
    let found = read_find_elems(src, pos);
    if found.0.len() >= 1 {
        return Some((FindSpec::FindRel(found.0), found.1));
    }
    assert(find_rel_at(src@, pos as int) is None);
    match read_find_coll(src, pos) {
        Some(found) => {
            return Some(found);
        },
        None => {},
    }
    read_find_tuple(src, pos)
}

/// The limit.
fn read_limit(src: &Source, pos: usize) -> (r: Option<(Limit, usize)>)
    requires
        src.well_formed(),
        pos <= src@.len(),
    ensures
        reads(r, limit_at(src@, pos as int)),
        r matches Some((_, end)) ==> pos < end <= src@.len(),
{
    proof {
        reveal(limit_at);
    }
    let chars = src.chars();
    match read_variable(src, pos) {
        Some((v, end)) => {
            return Some((Limit::Variable(v), end));
        },
        None => {},
    }
    match read_long(src, pos + scan_blank(chars, pos)) {
        Some((n, end)) => {
            if n > 0 {
                Some((Limit::Fixed(n as u64), end + scan_blank(chars, end)))
            } else {
                None
            }
        },
        None => None,
    }
}

/// `(asc ?x)` or `(desc ?x)`.
fn read_directed_order(src: &Source, pos: usize, word: &str, direction: Direction) -> (r: Option<
    (Order, usize),
>)
    requires
        src.well_formed(),
        pos <= src@.len(),
    ensures
        reads(r, directed_order_at(src@, pos as int, word@, direction)),
        r matches Some((_, end)) ==> pos < end <= src@.len(),
{
    proof {
        reveal(directed_order_at);
    }
    match read_open(src, pos, '(') {
        Some(p1) => match read_after_word(src, p1, word) {
            Some(p2) => match read_variable(src, p2) {
                Some((v, p3)) => match read_close(src, p3, ')') {
                    Some(end) => Some((Order(direction, v), end)),
                    None => None,
                },
                None => None,
            },
            None => None,
        },
        None => None,
    }
}

/// One variable to order by.
fn read_order(src: &Source, pos: usize) -> (r: Option<(Order, usize)>)
    requires
        src.well_formed(),
        pos <= src@.len(),
    ensures
        reads(r, order_at(src@, pos as int)),
        r matches Some((_, end)) ==> pos < end <= src@.len(),
{
    match read_directed_order(src, pos, "asc", Direction::Ascending) {
        Some(found) => {
            return Some(found);
        },
        None => {},
    }
    match read_directed_order(src, pos, "desc", Direction::Descending) {
        Some(found) => {
            return Some(found);
        },
        None => {},
    }
    match read_variable(src, pos) {
        Some((v, end)) => Some((Order(Direction::Ascending, v), end)),
        None => None,
    }
}

/// As many orders as stand at `pos`.
fn read_orders(src: &Source, pos: usize) -> (r: (Vec<Order>, usize))
    requires
        src.well_formed(),
        pos <= src@.len(),
    ensures
        orders_at(src@, pos as int, Seq::empty()) == (orders_view(r.0@), r.1 as int),
        pos <= r.1 <= src@.len(),
        r.0@.len() >= 1 ==> pos < r.1,
{
    let mut orders: Vec<Order> = Vec::new();
    let mut cur: usize = pos;
    proof {
        assert(orders_view(orders@) =~= Seq::empty());
    }
    loop
        invariant
            src.well_formed(),
            pos <= cur <= src@.len(),
            orders@.len() >= 1 ==> pos < cur,
            orders_at(src@, pos as int, Seq::empty()) == orders_at(
                src@,
                cur as int,
                orders_view(orders@),
            ),
        ensures
            pos <= cur <= src@.len(),
            orders@.len() >= 1 ==> pos < cur,
            orders_at(src@, pos as int, Seq::empty()) == (orders_view(orders@), cur as int),
        decreases src@.len() - cur,
    {
        match read_order(src, cur) {
            Some((o, next)) => {
                let ghost before = orders_view(orders@);
                let ghost item = o@;
                orders.push(o);
                cur = next;
                proof {
                    assert(orders_view(orders@) =~= before.push(item));
                }
            },
            None => {
                break ;
            },
        }
    }
    (orders, cur)
}

/// A source, if one stands at `pos`.
fn read_optional_source(src: &Source, pos: usize) -> (r: (Option<SrcVar>, usize))
    requires
        src.well_formed(),
        pos <= src@.len(),
    ensures
        optional(value_as(src@, pos as int, |v: ValueAndSpanView| source_of(v)), pos as int) == (
            opt_view(r.0),
            r.1 as int,
        ),
        pos <= r.1 <= src@.len(),
{
    match read_value(src, pos) {
        Some((v, end)) => match SrcVar::from_value(&v) {
            Some(s) => (Some(s), end),
            None => (None, pos),
        },
        None => (None, pos),
    }
}

/// An entity, attribute or transaction of a pattern.
fn read_non_value_place(src: &Source, pos: usize) -> (r: Option<(PatternNonValuePlace, usize)>)
    requires
        src.well_formed(),
        pos <= src@.len(),
    ensures
        reads(r, value_as(src@, pos as int, |v: ValueAndSpanView| non_value_place_of(v))),
        r matches Some((_, end)) ==> pos < end <= src@.len(),
        r matches Some((PatternNonValuePlace::Ident(k), _)) ==> k@.well_formed(),
{
    match read_value(src, pos) {
        Some((v, end)) => {
            proof {
                crate::edn::grammar::lemma_keywords_well_formed(src@, pos as int);
            }
            match PatternNonValuePlace::from_value(&v) {
                Some(place) => Some((place, end)),
                None => None,
            }
        },
        None => None,
    }
}

/// The value of a pattern.
fn read_pattern_value_place(src: &Source, pos: usize) -> (r: Option<(PatternValuePlace, usize)>)
    requires
        src.well_formed(),
        pos <= src@.len(),
    ensures
        reads(r, value_as(src@, pos as int, |v: ValueAndSpanView| value_place_of(v))),
        r matches Some((_, end)) ==> pos < end <= src@.len(),
{
    match read_value(src, pos) {
        Some((v, end)) => match PatternValuePlace::from_value(&v) {
            Some(place) => Some((place, end)),
            None => None,
        },
        None => None,
    }
}

/// A pattern.
pub fn read_pattern(src: &Source, pos: usize) -> (r: Option<(Pattern, usize)>)
    requires
        src.well_formed(),
        pos <= src@.len(),
    ensures
        reads(r, pattern_at(src@, pos as int)),
        r matches Some((_, end)) ==> pos < end <= src@.len(),
{
    proof {
        reveal(pattern_at);
    }
    match read_open(src, pos, '[') {
        Some(p0) => {
            let source = read_optional_source(src, p0);
            match read_non_value_place(src, source.1) {
                Some((e, p2)) => match read_non_value_place(src, p2) {
                    Some((a, p3)) => {
                        let (v, p4) = match read_pattern_value_place(src, p3) {
                            Some((place, end)) => (Some(place), end),
                            None => (None, p3),
                        };
                        let (tx, p5) = match read_non_value_place(src, p4) {
                            Some((place, end)) => (Some(place), end),
                            None => (None, p4),
                        };
                        match read_close(src, p5, ']') {
                            Some(end) => {
                                let v = match v {
                                    Some(place) => place,
                                    None => PatternValuePlace::Placeholder,
                                };
                                let tx = match tx {
                                    Some(place) => place,
                                    None => PatternNonValuePlace::Placeholder,
                                };
                                match Pattern::new(source.0, e, a, v, tx) {
                                    Some(pattern) => Some((pattern, end)),
                                    None => None,
                                }
                            },
                            None => None,
                        }
                    },
                    None => None,
                },
                None => None,
            }
        },
        None => None,
    }
}

/// Whether no variable stands twice.
fn variables_distinct(vars: &Vec<Variable>) -> (r: bool)
    ensures
        r == all_distinct(variables_view(vars@)),
{
    let mut j: usize = 0;
    while j < vars.len()
        invariant
            j <= vars.len(),
            forall|a: int, b: int| 0 <= a < b < j ==> vars@[a]@ != vars@[b]@,
        decreases vars.len() - j,
    {
        let mut i: usize = 0;
        while i < j
            invariant
                i <= j < vars.len(),
                forall|a: int| 0 <= a < i ==> vars@[a]@ != vars@[j as int]@,
            decreases j - i,
        {
            if vars[i].0.0 == vars[j].0.0 {
                proof {
                    assert(variables_view(vars@)[i as int] == variables_view(vars@)[j as int]);
                }
                return false;
            }
            i += 1;
        }
        j += 1;
    }
    proof {
        assert forall|a: int, b: int| 0 <= a < b < vars@.len() implies variables_view(vars@)[a]
            != variables_view(vars@)[b] by {}
    }
    true
}

/// A place of a binding.
fn read_variable_or_placeholder(src: &Source, pos: usize) -> (r: Option<
    (VariableOrPlaceholder, usize),
>)
    requires
        src.well_formed(),
        pos <= src@.len(),
    ensures
        reads(r, variable_or_placeholder_at(src@, pos as int)),
        r matches Some((_, end)) ==> pos < end <= src@.len(),
{
    proof {
        src.lemma_bounded();
    }
    let chars = src.chars();
    match read_variable(src, pos) {
        Some((v, end)) => {
            return Some((VariableOrPlaceholder::Variable(v), end));
        },
        None => {},
    }
    let start = pos + scan_blank(chars, pos);
    if scan_char(chars, start, '_') {
        Some((VariableOrPlaceholder::Placeholder, start + 1 + scan_blank(chars, start + 1)))
    } else {
        None
    }
}

/// As many places of a binding as stand at `pos`.
fn read_binding_places(src: &Source, pos: usize) -> (r: (Vec<VariableOrPlaceholder>, usize))
    requires
        src.well_formed(),
        pos <= src@.len(),
    ensures
        binding_places_at(src@, pos as int, Seq::empty()) == (places_view(r.0@), r.1 as int),
        pos <= r.1 <= src@.len(),
{
    let mut places: Vec<VariableOrPlaceholder> = Vec::new();
    let mut cur: usize = pos;
    proof {
        assert(places_view(places@) =~= Seq::empty());
    }
    loop
        invariant
            src.well_formed(),
            pos <= cur <= src@.len(),
            binding_places_at(src@, pos as int, Seq::empty()) == binding_places_at(
                src@,
                cur as int,
                places_view(places@),
            ),
        ensures
            pos <= cur <= src@.len(),
            binding_places_at(src@, pos as int, Seq::empty()) == (
                places_view(places@),
                cur as int,
            ),
        decreases src@.len() - cur,
    {
        match read_variable_or_placeholder(src, cur) {
            Some((place, next)) => {
                let ghost before = places_view(places@);
                let ghost item = place@;
                places.push(place);
                cur = next;
                proof {
                    assert(places_view(places@) =~= before.push(item));
                }
            },
            None => {
                break ;
            },
        }
    }
    (places, cur)
}

/// `[[?x _ ?y]]`.
fn read_bind_rel(src: &Source, pos: usize) -> (r: Option<(Binding, usize)>)
    requires
        src.well_formed(),
        pos <= src@.len(),
    ensures
        reads(r, bind_rel_at(src@, pos as int)),
        r matches Some((_, end)) ==> pos < end <= src@.len(),
{
    proof {
        reveal(bind_rel_at);
    }
    proof {
        src.lemma_bounded();
    }
    let chars = src.chars();
    match read_open(src, pos, '[') {
        Some(p1) => match read_open(src, p1, '[') {
            Some(p2) => {
                let found = read_binding_places(src, p2);
                let places = found.0;
                if places.len() >= 1 && scan_char(chars, found.1, ']') {
                    let p3 = found.1 + 1 + scan_blank(chars, found.1 + 1);
                    match read_close(src, p3, ']') {
                        Some(end) => Some((Binding::BindRel(places), end)),
                        None => None,
                    }
                } else {
                    None
                }
            },
            None => None,
        },
        None => None,
    }
}

/// `[?x ...]`.
fn read_bind_coll(src: &Source, pos: usize) -> (r: Option<(Binding, usize)>)
    requires
        src.well_formed(),
        pos <= src@.len(),
    ensures
        reads(r, bind_coll_at(src@, pos as int)),
        r matches Some((_, end)) ==> pos < end <= src@.len(),
{
    proof {
        reveal(bind_coll_at);
    }
    let chars = src.chars();
    match read_open(src, pos, '[') {
        Some(p1) => match read_variable(src, p1) {
            Some((v, p2)) => match read_word(src, p2, "...") {
                Some(p3) => match read_close(src, p3 + scan_blank(chars, p3), ']') {
                    Some(end) => Some((Binding::BindColl(v), end)),
                    None => None,
                },
                None => None,
            },
            None => None,
        },
        None => None,
    }
}

/// `[?x _ ?y]`.
fn read_bind_tuple(src: &Source, pos: usize) -> (r: Option<(Binding, usize)>)
    requires
        src.well_formed(),
        pos <= src@.len(),
    ensures
        reads(r, bind_tuple_at(src@, pos as int)),
        r matches Some((_, end)) ==> pos < end <= src@.len(),
{
    proof {
        reveal(bind_tuple_at);
    }
    match read_open(src, pos, '[') {
        Some(p1) => {
            let found = read_binding_places(src, p1);
            let places = found.0;
            match read_close(src, found.1, ']') {
                Some(end) => {
                    if places.len() >= 1 {
                        Some((Binding::BindTuple(places), end))
                    } else {
                        None
                    }
                },
                None => None,
            }
        },
        None => None,
    }
}

/// What the result of a function is bound to.
fn read_binding(src: &Source, pos: usize) -> (r: Option<(Binding, usize)>)
    requires
        src.well_formed(),
        pos <= src@.len(),
    ensures
        reads(r, binding_at(src@, pos as int)),
        r matches Some((_, end)) ==> pos < end <= src@.len(),
{
    match read_bind_rel(src, pos) {
        Some(found) => {
            return Some(found);
        },
        None => {},
    }
    match read_bind_coll(src, pos) {
        Some(found) => {
            return Some(found);
        },
        None => {},
    }
    match read_bind_tuple(src, pos) {
        Some(found) => {
            return Some(found);
        },
        None => {},
    }
    match read_variable(src, pos) {
        Some((v, end)) => Some((Binding::BindScalar(v), end)),
        None => None,
    }
}

/// `[(type ?x :db.type/string)]`.
fn read_type_annotation(src: &Source, pos: usize) -> (r: Option<(WhereClause, usize)>)
    requires
        src.well_formed(),
        pos <= src@.len(),
    ensures
        reads(r, type_annotation_at(src@, pos as int)),
        r matches Some((_, end)) ==> pos < end <= src@.len(),
{
    proof {
        reveal(type_annotation_at);
    }
    proof {
        src.lemma_bounded();
    }
    let chars = src.chars();
    match read_open(src, pos, '[') {
        Some(p1) => match read_open(src, p1, '(') {
            Some(p2) => match read_after_word(src, p2, "type") {
                Some(p3) => match read_variable(src, p3) {
                    Some((variable, p4)) => match read_keyword(
                        src,
                        p4 + scan_blank(chars, p4),
                    ) {
                        Some((value_type, p5)) => {
                            let close = p5 + scan_blank(chars, p5);
                            if scan_char(chars, close, ')') {
                                let p6 = close + 1 + scan_blank(chars, close + 1);
                                match read_close(src, p6, ']') {
                                    Some(end) => Some(
                                        (
                                            WhereClause::TypeAnnotation(
                                                TypeAnnotation { value_type, variable },
                                            ),
                                            end,
                                        ),
                                    ),
                                    None => None,
                                }
                            } else {
                                None
                            }
                        },
                        None => None,
                    },
                    None => None,
                },
                None => None,
            },
            None => None,
        },
        None => None,
    }
}

/// A predicate.
fn read_pred(src: &Source, pos: usize) -> (r: Option<(WhereClause, usize)>)
    requires
        src.well_formed(),
        pos <= src@.len(),
    ensures
        reads(r, pred_at(src@, pos as int)),
        r matches Some((_, end)) ==> pos < end <= src@.len(),
{
    proof {
        reveal(pred_at);
    }
    let chars = src.chars();
    match read_open(src, pos, '[') {
        Some(p1) => match read_call(src, p1 + scan_blank(chars, p1)) {
            Some((operator, args, p2)) => match read_close(src, p2 + scan_blank(chars, p2), ']') {
                Some(end) => Some((WhereClause::Pred(Predicate { operator, args }), end)),
                None => None,
            },
            None => None,
        },
        None => None,
    }
}

/// A function with a binding.
fn read_where_fn(src: &Source, pos: usize) -> (r: Option<(WhereClause, usize)>)
    requires
        src.well_formed(),
        pos <= src@.len(),
    ensures
        reads(r, where_fn_at(src@, pos as int)),
        r matches Some((_, end)) ==> pos < end <= src@.len(),
{
    proof {
        reveal(where_fn_at);
    }
    let chars = src.chars();
    match read_open(src, pos, '[') {
        Some(p1) => match read_call(src, p1 + scan_blank(chars, p1)) {
            Some((operator, args, p2)) => match read_binding(src, p2 + scan_blank(chars, p2)) {
                Some((binding, p3)) => match read_close(src, p3, ']') {
                    Some(end) => Some(
                        (WhereClause::WhereFn(WhereFn { operator, args, binding }), end),
                    ),
                    None => None,
                },
                None => None,
            },
            None => None,
        },
        None => None,
    }
}

/// The variables of a join between brackets.
fn read_joined_vars(src: &Source, pos: Option<usize>) -> (r: Option<(UnifyVars, usize)>)
    requires
        src.well_formed(),
        pos matches Some(p) ==> p <= src@.len(),
    ensures
        reads(
            r,
            joined_vars_at(
                src@,
                match pos {
                    Some(p) => Some(p as int),
                    None => None,
                },
            ),
        ),
        r matches Some((_, end)) ==> pos is Some && pos->0 < end <= src@.len(),
{
    proof {
        src.lemma_bounded();
    }
    let chars = src.chars();
    match pos {
        Some(p) => match read_open(src, p, '[') {
            Some(p1) => {
                let found = read_variables(src, p1);
                let vars = found.0;
                if vars.len() >= 1 && variables_distinct(&vars) && scan_char(chars, found.1, ']') {
                    Some((UnifyVars::Explicit(vars), found.1 + 1))
                } else {
                    None
                }
            },
            None => None,
        },
        None => None,
    }
}

/// The head of a clause that holds other clauses.
fn read_junction_head(src: &Source, pos: usize, junction: Junction) -> (r: Option<
    (UnifyVars, usize),
>)
    requires
        src.well_formed(),
        pos <= src@.len(),
    ensures
        reads(r, junction_head_at(src@, pos as int, junction)),
        r matches Some((_, end)) ==> pos < end <= src@.len(),
{
    proof {
        reveal(junction_head_at);
    }
    match read_open(src, pos, '(') {
        Some(p1) => match junction {
            Junction::Or => match read_after_word(src, p1, "or") {
                Some(p2) => Some((UnifyVars::Implicit, p2)),
                None => None,
            },
            Junction::Not => match read_after_word(src, p1, "not") {
                Some(p2) => Some((UnifyVars::Implicit, p2)),
                None => None,
            },
            Junction::OrJoin => read_joined_vars(src, read_after_word(src, p1, "or-join")),
            Junction::NotJoin => read_joined_vars(src, read_after_word(src, p1, "not-join")),
        },
        None => None,
    }
}

/// One clause of the where section.
pub fn read_where_clause(src: &Source, pos: usize) -> (r: Option<(WhereClause, usize)>)
    requires
        src.well_formed(),
        pos <= src@.len(),
    ensures
        reads(r, where_clause_at(src@, pos as int)),
        r matches Some((_, end)) ==> pos < end <= src@.len(),
    decreases src@.len() - pos, 1nat,
{
    match read_pattern(src, pos) {
        Some((p, end)) => {
            return Some((WhereClause::Pattern(p), end));
        },
        None => {},
    }
    match read_junction(src, pos, Junction::OrJoin) {
        Some(found) => {
            return Some(found);
        },
        None => {},
    }
    match read_junction(src, pos, Junction::Or) {
        Some(found) => {
            return Some(found);
        },
        None => {},
    }
    match read_junction(src, pos, Junction::NotJoin) {
        Some(found) => {
            return Some(found);
        },
        None => {},
    }
    match read_junction(src, pos, Junction::Not) {
        Some(found) => {
            return Some(found);
        },
        None => {},
    }
    match read_type_annotation(src, pos) {
        Some(found) => {
            return Some(found);
        },
        None => {},
    }
    match read_pred(src, pos) {
        Some(found) => {
            return Some(found);
        },
        None => {},
    }
    read_where_fn(src, pos)
}

/// A clause that holds other clauses.
fn read_junction(src: &Source, pos: usize, junction: Junction) -> (r: Option<(WhereClause, usize)>)
    requires
        src.well_formed(),
        pos <= src@.len(),
    ensures
        reads(r, junction_at(src@, pos as int, junction)),
        r matches Some((_, end)) ==> pos < end <= src@.len(),
    decreases src@.len() - pos, 0nat,
{
    match read_junction_head(src, pos, junction) {
        Some((unify_vars, p1)) => {
            let alternatives = match junction {
                Junction::Or => true,
                Junction::OrJoin => true,
                _ => false,
            };
            if alternatives {
                let found = read_or_clauses(src, p1);
                let clauses = found.0;
                match read_close(src, found.1, ')') {
                    Some(end) => {
                        if clauses.len() >= 1 {
                            Some((WhereClause::OrJoin(OrJoin { unify_vars, clauses }), end))
                        } else {
                            None
                        }
                    },
                    None => None,
                }
            } else {
                let found = read_where_clauses(src, p1);
                let clauses = found.0;
                match read_close(src, found.1, ')') {
                    Some(end) => {
                        if clauses.len() >= 1 {
                            Some((WhereClause::NotJoin(NotJoin { unify_vars, clauses }), end))
                        } else {
                            None
                        }
                    },
                    None => None,
                }
            }
        },
        None => None,
    }
}

/// As many clauses as stand at `pos`.
fn read_where_clauses(src: &Source, pos: usize) -> (r: (Vec<WhereClause>, usize))
    requires
        src.well_formed(),
        pos <= src@.len(),
    ensures
        where_clauses_at(src@, pos as int, Seq::empty()) == (clauses_view(r.0@), r.1 as int),
        pos <= r.1 <= src@.len(),
        r.0@.len() >= 1 ==> pos < r.1,
    decreases src@.len() - pos, 3nat,
{
    let mut clauses: Vec<WhereClause> = Vec::new();
    let mut cur: usize = pos;
    proof {
        assert(clauses_view(clauses@) =~= Seq::empty());
    }
    loop
        invariant
            src.well_formed(),
            pos <= cur <= src@.len(),
            clauses@.len() >= 1 ==> pos < cur,
            where_clauses_at(src@, pos as int, Seq::empty()) == where_clauses_at(
                src@,
                cur as int,
                clauses_view(clauses@),
            ),
        ensures
            pos <= cur <= src@.len(),
            clauses@.len() >= 1 ==> pos < cur,
            where_clauses_at(src@, pos as int, Seq::empty()) == (
                clauses_view(clauses@),
                cur as int,
            ),
        decreases src@.len() - cur,
    {
        match read_where_clause(src, cur) {
            Some((clause, next)) => {
                let ghost before = clauses_view(clauses@);
                let ghost item = clause@;
                clauses.push(clause);
                cur = next;
                proof {
                    assert(clauses_view(clauses@) =~= before.push(item));
                }
            },
            None => {
                break ;
            },
        }
    }
    (clauses, cur)
}

/// One alternative of an `or`.
fn read_or_where_clause(src: &Source, pos: usize) -> (r: Option<(OrWhereClause, usize)>)
    requires
        src.well_formed(),
        pos <= src@.len(),
    ensures
        reads(r, or_where_clause_at(src@, pos as int)),
        r matches Some((_, end)) ==> pos < end <= src@.len(),
    decreases src@.len() - pos, 2nat,
{
    match read_where_clause(src, pos) {
        Some((clause, end)) => {
            return Some((OrWhereClause::Clause(clause), end));
        },
        None => {},
    }
    match read_open(src, pos, '(') {
        Some(p1) => match read_after_word(src, p1, "and") {
            Some(p2) => {
                let found = read_where_clauses(src, p2);
                let clauses = found.0;
                match read_close(src, found.1, ')') {
                    Some(end) => {
                        if clauses.len() >= 1 {
                            Some((OrWhereClause::And(clauses), end))
                        } else {
                            None
                        }
                    },
                    None => None,
                }
            },
            None => None,
        },
        None => None,
    }
}

/// As many alternatives as stand at `pos`.
fn read_or_clauses(src: &Source, pos: usize) -> (r: (Vec<OrWhereClause>, usize))
    requires
        src.well_formed(),
        pos <= src@.len(),
    ensures
        or_clauses_at(src@, pos as int, Seq::empty()) == (or_clauses_view(r.0@), r.1 as int),
        pos <= r.1 <= src@.len(),
    decreases src@.len() - pos, 3nat,
{
    let mut clauses: Vec<OrWhereClause> = Vec::new();
    let mut cur: usize = pos;
    proof {
        assert(or_clauses_view(clauses@) =~= Seq::empty());
    }
    loop
        invariant
            src.well_formed(),
            pos <= cur <= src@.len(),
            or_clauses_at(src@, pos as int, Seq::empty()) == or_clauses_at(
                src@,
                cur as int,
                or_clauses_view(clauses@),
            ),
        ensures
            pos <= cur <= src@.len(),
            or_clauses_at(src@, pos as int, Seq::empty()) == (
                or_clauses_view(clauses@),
                cur as int,
            ),
        decreases src@.len() - cur,
    {
        match read_or_where_clause(src, cur) {
            Some((clause, next)) => {
                let ghost before = or_clauses_view(clauses@);
                let ghost item = clause@;
                clauses.push(clause);
                cur = next;
                proof {
                    assert(or_clauses_view(clauses@) =~= before.push(item));
                }
            },
            None => {
                break ;
            },
        }
    }
    (clauses, cur)
}

/// One section of a query.
fn read_query_part(src: &Source, pos: usize) -> (r: Option<(QueryPart, usize)>)
    requires
        src.well_formed(),
        pos <= src@.len(),
    ensures
        reads(r, query_part_at(src@, pos as int)),
        r matches Some((_, end)) ==> pos < end <= src@.len(),
{
    match read_after_word(src, pos, ":find") {
        Some(p1) => match read_find_spec(src, p1) {
            Some((f, end)) => {
                return Some((QueryPart::FindSpec(f), end));
            },
            None => {},
        },
        None => {},
    }
    match read_after_word(src, pos, ":in") {
        Some(p1) => {
            let found = read_inputs(src, p1);
            if found.2 > p1 {
                return Some((QueryPart::InVars(found.0, found.1), found.2));
            }
        },
        None => {},
    }
    match read_after_word(src, pos, ":limit") {
        Some(p1) => match read_limit(src, p1) {
            Some((l, end)) => {
                return Some((QueryPart::Limit(l), end));
            },
            None => {},
        },
        None => {},
    }
    match read_after_word(src, pos, ":order") {
        Some(p1) => {
            let found = read_orders(src, p1);
            if found.0.len() >= 1 {
                return Some((QueryPart::Order(found.0), found.1));
            }
        },
        None => {},
    }
    match read_after_word(src, pos, ":where") {
        Some(p1) => {
            let found = read_where_clauses(src, p1);
            if found.0.len() >= 1 {
                return Some((QueryPart::WhereClauses(found.0), found.1));
            }
        },
        None => {},
    }
    match read_after_word(src, pos, ":with") {
        Some(p1) => {
            let found = read_variables(src, p1);
            if found.0.len() >= 1 {
                return Some((QueryPart::WithVars(found.0), found.1));
            }
        },
        None => {},
    }
    None
}

/// Reads a text as a query: a vector of sections, each a keyword and what
/// belongs to it. Blanks may stand around the vector, and nothing else.
///
/// Where the text is no query, the error gives the place where reading
/// stopped; it is the start of the text where the sections were read but
/// do not make a query.
pub fn parse_query(input: &str) -> (r: Result<ParsedQuery, ParseError>)
    ensures
        match r {
            Ok(q) => whole_query(input@) == Some(q@),
            Err(e) => whole_query(input@) is None && e.location == location_at(
                input@,
                query_stop(input@),
            ),
        },
{
    let src = Source::new(input);
    let chars = src.chars();
    let p1 = match read_open(&src, 0, '[') {
        Some(p1) => p1,
        None => {
            return Err(ParseError { location: src.location(scan_blank(chars, 0)) });
        },
    };
    let mut parts: Vec<QueryPart> = Vec::new();
    let mut cur: usize = p1;
    proof {
        assert(parts_view(parts@) =~= Seq::empty());
    }
    loop
        invariant
            src.well_formed(),
            p1 <= cur <= src@.len(),
            query_parts_at(src@, p1 as int, Seq::empty()) == query_parts_at(
                src@,
                cur as int,
                parts_view(parts@),
            ),
        ensures
            p1 <= cur <= src@.len(),
            query_parts_at(src@, p1 as int, Seq::empty()) == (parts_view(parts@), cur as int),
        decreases src@.len() - cur,
    {
        match read_query_part(&src, cur) {
            Some((part, next)) => {
                let ghost before = parts_view(parts@);
                let ghost item = part@;
                parts.push(part);
                cur = next;
                proof {
                    assert(parts_view(parts@) =~= before.push(item));
                }
            },
            None => {
                break ;
            },
        }
    }
    match read_close(&src, cur, ']') {
        Some(end) => {
            if parts.len() == 0 {
                Err(ParseError { location: src.location(cur) })
            } else if end != src.len() {
                Err(ParseError { location: src.location(end) })
            } else {
                match ParsedQuery::from_parts(parts) {
                    Ok(q) => Ok(q),
                    Err(_) => Err(ParseError { location: src.location(0) }),
                }
            }
        },
        None => Err(ParseError { location: src.location(cur) }),
    }
}

} // verus!
