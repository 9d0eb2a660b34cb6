//! The sections of a query: the find spec, the where clauses,
//! the order and the limit.

use vstd::prelude::*;
use crate::edn::query::{
    args_view, opt_view, FnArg, FnArgView, Pattern, PatternView, SrcVar, SrcVarView, Variable,
};
use crate::symbols::{Keyword, NameView, PlainSymbol};

verus! {

/// The views of a list of variables.
pub open spec fn variables_view(vars: Seq<Variable>) -> Seq<Seq<char>> {
    Seq::new(vars.len(), |i: int| vars[i]@)
}

/// The views of a list of sources.
pub open spec fn sources_view(sources: Seq<SrcVar>) -> Seq<SrcVarView> {
    Seq::new(sources.len(), |i: int| sources[i]@)
}

/// An attribute to pull: by its ident or by its entity id.
#[derive(Debug, PartialEq, Eq, Hash)]
pub enum PullConcreteAttribute {
    Ident(Keyword),
    Entid(i64),
}

/// What a [`PullConcreteAttribute`] holds.
pub enum PullConcreteAttributeView {
    Ident(NameView),
    Entid(int),
}

impl View for PullConcreteAttribute {
    type V = PullConcreteAttributeView;

    open spec fn view(&self) -> PullConcreteAttributeView {
        match self {
            PullConcreteAttribute::Ident(k) => PullConcreteAttributeView::Ident(k@),
            PullConcreteAttribute::Entid(e) => PullConcreteAttributeView::Entid(*e as int),
        }
    }
}

/// An attribute to pull, and the name under which its values are
/// returned if that is not its own.
#[derive(Debug, PartialEq, Eq, Hash)]
pub struct NamedPullAttribute {
    pub attribute: PullConcreteAttribute,
    pub alias: Option<Keyword>,
}

/// One entry of a pull: every attribute, or one.
#[derive(Debug, PartialEq, Eq, Hash)]
pub enum PullAttributeSpec {
    Wildcard,
    Attribute(NamedPullAttribute),
}

/// What a [`PullAttributeSpec`] holds.
pub enum PullAttributeSpecView {
    Wildcard,
    Attribute { attribute: PullConcreteAttributeView, alias: Option<NameView> },
}

impl View for PullAttributeSpec {
    type V = PullAttributeSpecView;

    open spec fn view(&self) -> PullAttributeSpecView {
        match self {
            PullAttributeSpec::Wildcard => PullAttributeSpecView::Wildcard,
            PullAttributeSpec::Attribute(named) => PullAttributeSpecView::Attribute {
                attribute: named.attribute@,
                alias: opt_view(named.alias),
            },
        }
    }
}

/// The views of the entries of a pull.
pub open spec fn pull_specs_view(specs: Seq<PullAttributeSpec>) -> Seq<PullAttributeSpecView> {
    Seq::new(specs.len(), |i: int| specs[i]@)
}

/// A pull: the attributes to fetch of the entities that a variable is
/// bound to.
#[derive(Debug, PartialEq, Eq, Hash)]
pub struct Pull {
    pub var: Variable,
    pub patterns: Vec<PullAttributeSpec>,
}

/// The name of a function of a query.
#[derive(Debug, PartialEq, Eq, Hash)]
pub struct QueryFunction(pub PlainSymbol);

/// An aggregate: a function over what the query found.
#[derive(Debug, PartialEq, Eq, Hash)]
pub struct Aggregate {
    pub func: QueryFunction,
    pub args: Vec<FnArg>,
}

/// One thing to find.
#[derive(Debug, PartialEq, Eq, Hash)]
pub enum Element {
    Variable(Variable),
    Aggregate(Aggregate),
    /// `(the ?x)`: the value that goes with the extreme of an aggregate.
    Corresponding(Variable),
    Pull(Pull),
}

/// What an [`Element`] holds.
pub enum ElementView {
    Variable(Seq<char>),
    Aggregate { func: Seq<char>, args: Seq<FnArgView> },
    Corresponding(Seq<char>),
    Pull { var: Seq<char>, patterns: Seq<PullAttributeSpecView> },
}

impl View for Element {
    type V = ElementView;

    open spec fn view(&self) -> ElementView {
        match self {
            Element::Variable(v) => ElementView::Variable(v@),
            Element::Aggregate(a) => ElementView::Aggregate {
                func: a.func.0@,
                args: args_view(a.args@),
            },
            Element::Corresponding(v) => ElementView::Corresponding(v@),
            Element::Pull(p) => ElementView::Pull {
                var: p.var@,
                patterns: pull_specs_view(p.patterns@),
            },
        }
    }
}

/// The views of a list of elements.
pub open spec fn elements_view(elements: Seq<Element>) -> Seq<ElementView> {
    Seq::new(elements.len(), |i: int| elements[i]@)
}

/// The shape of what a query returns.
#[derive(Debug, PartialEq, Eq, Hash)]
pub enum FindSpec {
    /// `:find ?x ?y`: the rows.
    FindRel(Vec<Element>),
    /// `:find [?x ...]`: one column.
    FindColl(Element),
    /// `:find [?x ?y]`: one row.
    FindTuple(Vec<Element>),
    /// `:find ?x .`: one value.
    FindScalar(Element),
}

/// What a [`FindSpec`] holds.
pub enum FindSpecView {
    FindRel(Seq<ElementView>),
    FindColl(ElementView),
    FindTuple(Seq<ElementView>),
    FindScalar(ElementView),
}

impl View for FindSpec {
    type V = FindSpecView;

    open spec fn view(&self) -> FindSpecView {
        match self {
            FindSpec::FindRel(es) => FindSpecView::FindRel(elements_view(es@)),
            FindSpec::FindColl(e) => FindSpecView::FindColl(e@),
            FindSpec::FindTuple(es) => FindSpecView::FindTuple(elements_view(es@)),
            FindSpec::FindScalar(e) => FindSpecView::FindScalar(e@),
        }
    }
}

/// How many results a query returns at most.
#[derive(Debug, PartialEq, Eq, Hash)]
pub enum Limit {
    Unlimited,
    Fixed(u64),
    Variable(Variable),
}

/// What a [`Limit`] holds.
pub enum LimitView {
    Unlimited,
    Fixed(int),
    Variable(Seq<char>),
}

impl View for Limit {
    type V = LimitView;

    open spec fn view(&self) -> LimitView {
        match self {
            Limit::Unlimited => LimitView::Unlimited,
            Limit::Fixed(n) => LimitView::Fixed(*n as int),
            Limit::Variable(v) => LimitView::Variable(v@),
        }
    }
}

/// The two directions of an order.
#[derive(Debug, Clone, Copy, PartialEq, Eq, Hash, Structural)]
pub enum Direction {
    Ascending,
    Descending,
}

/// A variable to order by, and the direction.
#[derive(Debug, PartialEq, Eq, Hash)]
pub struct Order(pub Direction, pub Variable);

impl View for Order {
    type V = (Direction, Seq<char>);

    open spec fn view(&self) -> (Direction, Seq<char>) {
        (self.0, self.1@)
    }
}

/// The views of a list of orders.
pub open spec fn orders_view(orders: Seq<Order>) -> Seq<(Direction, Seq<char>)> {
    Seq::new(orders.len(), |i: int| orders[i]@)
}

/// A place of a binding: a variable, or `_` for what is not bound.
#[derive(Debug, PartialEq, Eq, Hash)]
pub enum VariableOrPlaceholder {
    Placeholder,
    Variable(Variable),
}

/// What a [`VariableOrPlaceholder`] holds.
pub enum VariableOrPlaceholderView {
    Placeholder,
    Variable(Seq<char>),
}

impl View for VariableOrPlaceholder {
    type V = VariableOrPlaceholderView;

    open spec fn view(&self) -> VariableOrPlaceholderView {
        match self {
            VariableOrPlaceholder::Placeholder => VariableOrPlaceholderView::Placeholder,
            VariableOrPlaceholder::Variable(v) => VariableOrPlaceholderView::Variable(v@),
        }
    }
}

/// The views of the places of a binding.
pub open spec fn places_view(places: Seq<VariableOrPlaceholder>) -> Seq<
    VariableOrPlaceholderView,
> {
    Seq::new(places.len(), |i: int| places[i]@)
}

/// What the result of a function is bound to.
#[derive(Debug, PartialEq, Eq, Hash)]
pub enum Binding {
    BindScalar(Variable),
    BindColl(Variable),
    BindRel(Vec<VariableOrPlaceholder>),
    BindTuple(Vec<VariableOrPlaceholder>),
}

/// What a [`Binding`] holds.
pub enum BindingView {
    BindScalar(Seq<char>),
    BindColl(Seq<char>),
    BindRel(Seq<VariableOrPlaceholderView>),
    BindTuple(Seq<VariableOrPlaceholderView>),
}

impl View for Binding {
    type V = BindingView;

    open spec fn view(&self) -> BindingView {
        match self {
            Binding::BindScalar(v) => BindingView::BindScalar(v@),
            Binding::BindColl(v) => BindingView::BindColl(v@),
            Binding::BindRel(places) => BindingView::BindRel(places_view(places@)),
            Binding::BindTuple(places) => BindingView::BindTuple(places_view(places@)),
        }
    }
}

/// A predicate: a function that the bindings must satisfy.
#[derive(Debug, PartialEq, Eq, Hash)]
pub struct Predicate {
    pub operator: PlainSymbol,
    pub args: Vec<FnArg>,
}

/// A function whose result is bound to variables.
#[derive(Debug, PartialEq, Eq, Hash)]
pub struct WhereFn {
    pub operator: PlainSymbol,
    pub args: Vec<FnArg>,
    pub binding: Binding,
}

/// The variables that the parts of an `or` or a `not` share with what is
/// around them: those they mention, or those that are listed, none of
/// them twice.
#[derive(Debug, PartialEq, Eq, Hash)]
pub enum UnifyVars {
    Implicit,
    Explicit(Vec<Variable>),
}

/// What a [`UnifyVars`] holds.
pub enum UnifyVarsView {
    Implicit,
    Explicit(Seq<Seq<char>>),
}

impl View for UnifyVars {
    type V = UnifyVarsView;

    open spec fn view(&self) -> UnifyVarsView {
        match self {
            UnifyVars::Implicit => UnifyVarsView::Implicit,
            UnifyVars::Explicit(vars) => UnifyVarsView::Explicit(variables_view(vars@)),
        }
    }
}

/// The declaration that a variable has a type.
#[derive(Debug, PartialEq, Eq, Hash)]
pub struct TypeAnnotation {
    pub value_type: Keyword,
    pub variable: Variable,
}

/// One alternative of an `or`: a clause, or several that must all hold.
#[derive(Debug, PartialEq, Eq, Hash)]
pub enum OrWhereClause {
    Clause(WhereClause),
    And(Vec<WhereClause>),
}

/// Alternatives, one of which must hold.
#[derive(Debug, PartialEq, Eq, Hash)]
pub struct OrJoin {
    pub unify_vars: UnifyVars,
    pub clauses: Vec<OrWhereClause>,
}

/// Clauses that must not all hold.
#[derive(Debug, PartialEq, Eq, Hash)]
pub struct NotJoin {
    pub unify_vars: UnifyVars,
    pub clauses: Vec<WhereClause>,
}

/// One clause of the where section.
#[derive(Debug, PartialEq, Eq, Hash)]
pub enum WhereClause {
    NotJoin(NotJoin),
    OrJoin(OrJoin),
    Pred(Predicate),
    WhereFn(WhereFn),
    Pattern(Pattern),
    TypeAnnotation(TypeAnnotation),
}

/// What a [`WhereClause`] holds.
pub enum WhereClauseView {
    NotJoin { unify_vars: UnifyVarsView, clauses: Seq<WhereClauseView> },
    OrJoin { unify_vars: UnifyVarsView, alternatives: Seq<OrWhereClauseView> },
    Pred { operator: Seq<char>, args: Seq<FnArgView> },
    WhereFn { operator: Seq<char>, args: Seq<FnArgView>, binding: BindingView },
    Pattern(PatternView),
    TypeAnnotation { value_type: NameView, variable: Seq<char> },
}

/// What an [`OrWhereClause`] holds.
pub enum OrWhereClauseView {
    Clause(WhereClauseView),
    And(Seq<WhereClauseView>),
}

/// The views of a list of clauses.
pub open spec fn clauses_view(clauses: Seq<WhereClause>) -> Seq<WhereClauseView>
    decreases clauses,
{
    Seq::new(
        clauses.len(),
        |i: int|
            if 0 <= i < clauses.len() {
                clauses[i].view()
            } else {
                WhereClauseView::Pred { operator: Seq::empty(), args: Seq::empty() }
            },
    )
}

/// The views of a list of alternatives.
pub open spec fn or_clauses_view(clauses: Seq<OrWhereClause>) -> Seq<OrWhereClauseView>
    decreases clauses,
{
    Seq::new(
        clauses.len(),
        |i: int|
            if 0 <= i < clauses.len() {
                clauses[i].view()
            } else {
                OrWhereClauseView::And(Seq::empty())
            },
    )
}

impl View for OrWhereClause {
    type V = OrWhereClauseView;

    open spec fn view(&self) -> OrWhereClauseView
        decreases self,
    {
        match self {
            OrWhereClause::Clause(c) => OrWhereClauseView::Clause(c.view()),
            OrWhereClause::And(cs) => OrWhereClauseView::And(clauses_view(cs@)),
        }
    }
}

impl View for WhereClause {
    type V = WhereClauseView;

    open spec fn view(&self) -> WhereClauseView
        decreases self,
    {
        match self {
            WhereClause::NotJoin(j) => WhereClauseView::NotJoin {
                unify_vars: j.unify_vars@,
                clauses: clauses_view(j.clauses@),
            },
            WhereClause::OrJoin(j) => WhereClauseView::OrJoin {
                unify_vars: j.unify_vars@,
                alternatives: or_clauses_view(j.clauses@),
            },
            WhereClause::Pred(p) => WhereClauseView::Pred {
                operator: p.operator@,
                args: args_view(p.args@),
            },
            WhereClause::WhereFn(f) => WhereClauseView::WhereFn {
                operator: f.operator@,
                args: args_view(f.args@),
                binding: f.binding@,
            },
            WhereClause::Pattern(p) => WhereClauseView::Pattern(p@),
            WhereClause::TypeAnnotation(t) => WhereClauseView::TypeAnnotation {
                value_type: t.value_type@,
                variable: t.variable@,
            },
        }
    }
}

/// One section of a query.
#[derive(Debug, PartialEq, Eq, Hash)]
pub enum QueryPart {
    FindSpec(FindSpec),
    WithVars(Vec<Variable>),
    /// The inputs: variables, and sources.
    InVars(Vec<Variable>, Vec<SrcVar>),
    Limit(Limit),
    WhereClauses(Vec<WhereClause>),
    Order(Vec<Order>),
}

/// What a [`QueryPart`] holds.
pub enum QueryPartView {
    FindSpec(FindSpecView),
    WithVars(Seq<Seq<char>>),
    InVars(Seq<Seq<char>>, Seq<SrcVarView>),
    Limit(LimitView),
    WhereClauses(Seq<WhereClauseView>),
    Order(Seq<(Direction, Seq<char>)>),
}

impl View for QueryPart {
    type V = QueryPartView;

    open spec fn view(&self) -> QueryPartView {
        match self {
            QueryPart::FindSpec(f) => QueryPartView::FindSpec(f@),
            QueryPart::WithVars(vars) => QueryPartView::WithVars(variables_view(vars@)),
            QueryPart::InVars(vars, sources) => QueryPartView::InVars(
                variables_view(vars@),
                sources_view(sources@),
            ),
            QueryPart::Limit(l) => QueryPartView::Limit(l@),
            QueryPart::WhereClauses(cs) => QueryPartView::WhereClauses(clauses_view(cs@)),
            QueryPart::Order(os) => QueryPartView::Order(orders_view(os@)),
        }
    }
}

/// The views of a list of sections.
pub open spec fn parts_view(parts: Seq<QueryPart>) -> Seq<QueryPartView> {
    Seq::new(parts.len(), |i: int| parts[i]@)
}

/// A query.
#[derive(Debug, PartialEq, Eq, Hash)]
pub struct ParsedQuery {
    pub find_spec: FindSpec,
    pub default_source: SrcVar,
    pub with: Vec<Variable>,
    pub in_vars: Vec<Variable>,
    pub in_sources: Vec<SrcVar>,
    pub limit: Limit,
    pub where_clauses: Vec<WhereClause>,
    pub order: Option<Vec<Order>>,
}

/// What a [`ParsedQuery`] holds.
pub struct ParsedQueryView {
    pub find_spec: FindSpecView,
    pub default_source: SrcVarView,
    pub with: Seq<Seq<char>>,
    pub in_vars: Seq<Seq<char>>,
    pub in_sources: Seq<SrcVarView>,
    pub limit: LimitView,
    pub where_clauses: Seq<WhereClauseView>,
    pub order: Option<Seq<(Direction, Seq<char>)>>,
}

impl View for ParsedQuery {
    type V = ParsedQueryView;

    open spec fn view(&self) -> ParsedQueryView {
        ParsedQueryView {
            find_spec: self.find_spec@,
            default_source: self.default_source@,
            with: variables_view(self.with@),
            in_vars: variables_view(self.in_vars@),
            in_sources: sources_view(self.in_sources@),
            limit: self.limit@,
            where_clauses: clauses_view(self.where_clauses@),
            order: match self.order {
                Some(os) => Some(orders_view(os@)),
                None => None,
            },
        }
    }
}

/// The sections that a query can have.
#[derive(Debug, Clone, Copy, PartialEq, Eq, Hash, Structural)]
pub enum Section {
    Find,
    With,
    In,
    Limit,
    Where,
    Order,
}

/// Why sections do not make a query.
#[derive(Debug, Clone, Copy, PartialEq, Eq, Hash, Structural)]
pub enum QueryPartsError {
    /// A section stands twice.
    Repeated(Section),
    /// There is no find section.
    ExpectedFind,
    /// There is no where section.
    ExpectedWhere,
}

/// The section that a part is.
pub open spec fn section_of(part: QueryPartView) -> Section {
    match part {
        QueryPartView::FindSpec(_) => Section::Find,
        QueryPartView::WithVars(_) => Section::With,
        QueryPartView::InVars(_, _) => Section::In,
        QueryPartView::Limit(_) => Section::Limit,
        QueryPartView::WhereClauses(_) => Section::Where,
        QueryPartView::Order(_) => Section::Order,
    }
}

/// The sections that were collected of a query.
pub struct SectionsView {
    pub find_spec: Option<FindSpecView>,
    pub with: Option<Seq<Seq<char>>>,
    pub in_vars: Option<(Seq<Seq<char>>, Seq<SrcVarView>)>,
    pub limit: Option<LimitView>,
    pub where_clauses: Option<Seq<WhereClauseView>>,
    pub order: Option<Seq<(Direction, Seq<char>)>>,
}

impl SectionsView {
    /// No section yet.
    pub open spec fn empty() -> SectionsView {
        SectionsView {
            find_spec: None,
            with: None,
            in_vars: None,
            limit: None,
            where_clauses: None,
            order: None,
        }
    }

    /// Whether the section is there.
    pub open spec fn has(self, section: Section) -> bool {
        match section {
            Section::Find => self.find_spec is Some,
            Section::With => self.with is Some,
            Section::In => self.in_vars is Some,
            Section::Limit => self.limit is Some,
            Section::Where => self.where_clauses is Some,
            Section::Order => self.order is Some,
        }
    }

    /// The sections with one more, which must not be there already.
    pub open spec fn with_part(self, part: QueryPartView) -> Result<SectionsView, QueryPartsError> {
        if self.has(section_of(part)) {
            Err(QueryPartsError::Repeated(section_of(part)))
        } else {
            Ok(
                match part {
                    QueryPartView::FindSpec(x) => SectionsView { find_spec: Some(x), ..self },
                    QueryPartView::WithVars(x) => SectionsView { with: Some(x), ..self },
                    QueryPartView::InVars(x, y) => SectionsView { in_vars: Some((x, y)), ..self },
                    QueryPartView::Limit(x) => SectionsView { limit: Some(x), ..self },
                    QueryPartView::WhereClauses(x) => SectionsView {
                        where_clauses: Some(x),
                        ..self
                    },
                    QueryPartView::Order(x) => SectionsView { order: Some(x), ..self },
                },
            )
        }
    }

    /// The sections with more parts, in their order. The first part whose
    /// section is there already is the error.
    pub open spec fn with_parts(self, parts: Seq<QueryPartView>) -> Result<
        SectionsView,
        QueryPartsError,
    >
        decreases parts.len(),
    {
        if parts.len() == 0 {
            Ok(self)
        } else {
            match self.with_part(parts[0]) {
                Ok(next) => next.with_parts(parts.drop_first()),
                Err(e) => Err(e),
            }
        }
    }
}

/// The query that the sections make. No section may stand twice. The find
/// and the where section must be there; the others have defaults: no
/// variables, no sources, no limit, no order.
pub open spec fn query_of(parts: Seq<QueryPartView>) -> Result<ParsedQueryView, QueryPartsError> {
    match SectionsView::empty().with_parts(parts) {
        Err(e) => Err(e),
        Ok(sections) => if sections.find_spec is None {
            Err(QueryPartsError::ExpectedFind)
        } else if sections.where_clauses is None {
            Err(QueryPartsError::ExpectedWhere)
        } else {
            Ok(
                ParsedQueryView {
                    find_spec: sections.find_spec->0,
                    default_source: SrcVarView::DefaultSrc,
                    with: match sections.with {
                        Some(vars) => vars,
                        None => Seq::empty(),
                    },
                    in_vars: match sections.in_vars {
                        Some(inputs) => inputs.0,
                        None => Seq::empty(),
                    },
                    in_sources: match sections.in_vars {
                        Some(inputs) => inputs.1,
                        None => Seq::empty(),
                    },
                    limit: match sections.limit {
                        Some(limit) => limit,
                        None => LimitView::Unlimited,
                    },
                    where_clauses: sections.where_clauses->0,
                    order: sections.order,
                },
            )
        },
    }
}

/// The views of what an option of a list holds.
pub open spec fn opt_variables_view(vars: Option<Vec<Variable>>) -> Option<Seq<Seq<char>>> {
    match vars {
        Some(v) => Some(variables_view(v@)),
        None => None,
    }
}

impl ParsedQuery {
    /// Makes a query of its sections; see [`query_of`].
    pub fn from_parts(parts: Vec<QueryPart>) -> (r: Result<ParsedQuery, QueryPartsError>)
        ensures
            match r {
                Ok(q) => query_of(parts_view(parts@)) == Ok::<ParsedQueryView, QueryPartsError>(q@),
                Err(e) => query_of(parts_view(parts@)) == Err::<ParsedQueryView, QueryPartsError>(
                    e,
                ),
            },
    {
        let ghost all = parts_view(parts@);
        let mut find_spec: Option<FindSpec> = None;
        let mut with: Option<Vec<Variable>> = None;
        let mut in_vars: Option<(Vec<Variable>, Vec<SrcVar>)> = None;
        let mut limit: Option<Limit> = None;
        let mut where_clauses: Option<Vec<WhereClause>> = None;
        let mut order: Option<Vec<Order>> = None;
        proof {
            assert(all.skip(0) =~= all);
        }
        for part in it: parts
            invariant
                it.seq() == parts@,
                all == parts_view(parts@),
                SectionsView::empty().with_parts(all) == (SectionsView {
                    find_spec: opt_view(find_spec),
                    with: opt_variables_view(with),
                    in_vars: match in_vars {
                        Some(inputs) => Some((variables_view(inputs.0@), sources_view(inputs.1@))),
                        None => None,
                    },
                    limit: opt_view(limit),
                    where_clauses: match where_clauses {
                        Some(cs) => Some(clauses_view(cs@)),
                        None => None,
                    },
                    order: match order {
                        Some(os) => Some(orders_view(os@)),
                        None => None,
                    },
                }).with_parts(all.skip(it.index() as int)),
        {
            proof {
                let rest = all.skip(it.index() as int);
                assert(rest.len() > 0);
                assert(rest[0] == part@);
                assert(rest.drop_first() =~= all.skip(it.index() + 1));
            }
            match part {
                QueryPart::FindSpec(x) => {
                    if find_spec.is_some() {
                        return Err(QueryPartsError::Repeated(Section::Find));
                    }
                    find_spec = Some(x);
                },
                QueryPart::WithVars(x) => {
                    if with.is_some() {
                        return Err(QueryPartsError::Repeated(Section::With));
                    }
                    with = Some(x);
                },
                QueryPart::InVars(x, y) => {
                    if in_vars.is_some() {
                        return Err(QueryPartsError::Repeated(Section::In));
                    }
                    in_vars = Some((x, y));
                },
                QueryPart::Limit(x) => {
                    if limit.is_some() {
                        return Err(QueryPartsError::Repeated(Section::Limit));
                    }
                    limit = Some(x);
                },
                QueryPart::WhereClauses(x) => {
                    if where_clauses.is_some() {
                        return Err(QueryPartsError::Repeated(Section::Where));
                    }
                    where_clauses = Some(x);
                },
                QueryPart::Order(x) => {
                    if order.is_some() {
                        return Err(QueryPartsError::Repeated(Section::Order));
                    }
                    order = Some(x);
                },
            }
        }
        proof {
            assert(all.skip(all.len() as int) =~= Seq::empty());
        }
        let find_spec = match find_spec {
            Some(f) => f,
            None => {
                return Err(QueryPartsError::ExpectedFind);
            },
        };
        let where_clauses = match where_clauses {
            Some(cs) => cs,
            None => {
                return Err(QueryPartsError::ExpectedWhere);
            },
        };
        let with = match with {
            Some(vars) => vars,
            None => Vec::new(),
        };
        let (in_vars, in_sources) = match in_vars {
            Some(inputs) => inputs,
            None => (Vec::new(), Vec::new()),
        };
        let limit = match limit {
            Some(l) => l,
            None => Limit::Unlimited,
        };
        let q = ParsedQuery {
            find_spec,
            default_source: SrcVar::DefaultSrc,
            with,
            in_vars,
            in_sources,
            limit,
            where_clauses,
            order,
        };
        proof {
            assert(q@.with =~= (match SectionsView::empty().with_parts(all)->Ok_0.with {
                Some(vars) => vars,
                None => Seq::empty(),
            }));
            assert(q@.in_vars =~= (match SectionsView::empty().with_parts(all)->Ok_0.in_vars {
                Some(inputs) => inputs.0,
                None => Seq::empty(),
            }));
            assert(q@.in_sources =~= (match SectionsView::empty().with_parts(all)->Ok_0.in_vars {
                Some(inputs) => inputs.1,
                None => Seq::empty(),
            }));
        }
        Ok(q)
    }
}

} // verus!
