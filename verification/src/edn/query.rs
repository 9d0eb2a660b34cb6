//! The parts of a query: what to find, where to look, and how to order
//! and limit what was found.

use vstd::prelude::*;
use crate::edn::types::{
    BigInteger, Float, FloatView, SpannedValue, SpannedValueView, ValueAndSpan, ValueAndSpanView,
};
use crate::symbols::{Keyword, NameView, PlainSymbol};
use crate::text::{chars_of, string_of};
use crate::values::Uuid;

verus! {

/// The view of what an option holds.
pub open spec fn opt_view<T: View>(o: Option<T>) -> Option<T::V> {
    match o {
        Some(x) => Some(x@),
        None => None,
    }
}

/// A variable of a query: a symbol that starts with a question mark.
#[derive(Debug, PartialEq, Eq, Hash, PartialOrd, Ord)]
pub struct Variable(pub PlainSymbol);

impl View for Variable {
    type V = Seq<char>;

    open spec fn view(&self) -> Seq<char> {
        self.0@
    }
}

impl Clone for Variable {
    fn clone(&self) -> (r: Self)
        ensures
            r == *self,
    {
        Variable(self.0.clone())
    }
}

/// Whether a name is that of a variable.
pub open spec fn is_variable_name(name: Seq<char>) -> bool {
    name.len() > 0 && name[0] == '?'
}

/// Whether a name is that of a source.
pub open spec fn is_source_name(name: Seq<char>) -> bool {
    name.len() > 0 && name[0] == '$'
}

impl Variable {
    /// The variable with the given name, which starts with a question
    /// mark.
    pub fn from_valid_name(name: &str) -> (r: Variable)
        requires
            is_variable_name(name@),
        ensures
            r@ == name@,
    {
        Variable(PlainSymbol::plain(name))
    }

    /// The name of the variable, question mark included.
    pub fn as_str(&self) -> (r: &str)
        ensures
            r@ == self@,
    {
        self.0.name()
    }

    /// The variable that a symbol names, if it names one.
    pub fn from_symbol(sym: &PlainSymbol) -> (r: Option<Variable>)
        ensures
            match r {
                Some(v) => is_variable_name(sym@) && v@ == sym@,
                None => !is_variable_name(sym@),
            },
    {
        if sym.is_var_symbol() {
            Some(Variable(sym.clone()))
        } else {
            None
        }
    }

    /// The variable that a value is, if it is one.
    pub fn from_value(v: &ValueAndSpan) -> (r: Option<Variable>)
        ensures
            opt_view(r) == variable_of(v@),
    {
        match &v.inner {
            SpannedValue::PlainSymbol(sym) => {
                let r = Variable::from_symbol(sym);
                assert(opt_view(r) == variable_of(v@));
                r
            },
            _ => None,
        }
    }
}

/// The variable that a value is, if it is one.
pub open spec fn variable_of(v: ValueAndSpanView) -> Option<Seq<char>> {
    match v.inner {
        SpannedValueView::PlainSymbol(name) => if is_variable_name(name) {
            Some(name)
        } else {
            None
        },
        _ => None,
    }
}

/// The source of a pattern: the default one, `$`, or one with a name,
/// such as `$db`.
#[derive(Debug, PartialEq, Eq, Hash, PartialOrd, Ord)]
pub enum SrcVar {
    DefaultSrc,
    NamedSrc(String),
}

/// What a [`SrcVar`] holds.
pub enum SrcVarView {
    DefaultSrc,
    NamedSrc(Seq<char>),
}

impl View for SrcVar {
    type V = SrcVarView;

    open spec fn view(&self) -> SrcVarView {
        match self {
            SrcVar::DefaultSrc => SrcVarView::DefaultSrc,
            SrcVar::NamedSrc(name) => SrcVarView::NamedSrc(name@),
        }
    }
}

/// The source that a value is, if it is one.
pub open spec fn source_of(v: ValueAndSpanView) -> Option<SrcVarView> {
    match v.inner {
        SpannedValueView::PlainSymbol(name) => if is_source_name(name) {
            if name.len() == 1 {
                Some(SrcVarView::DefaultSrc)
            } else {
                Some(SrcVarView::NamedSrc(name.drop_first()))
            }
        } else {
            None
        },
        _ => None,
    }
}

impl SrcVar {
    /// The source that a symbol names, if it names one.
    pub fn from_symbol(sym: &PlainSymbol) -> (r: Option<SrcVar>)
        ensures
            opt_view(r) == (if is_source_name(sym@) {
                if sym@.len() == 1 {
                    Some(SrcVarView::DefaultSrc)
                } else {
                    Some(SrcVarView::NamedSrc(sym@.drop_first()))
                }
            } else {
                None
            }),
    {
        if sym.is_src_symbol() {
            let chars = chars_of(sym.name());
            if chars.len() == 1 {
                Some(SrcVar::DefaultSrc)
            } else {
                let name = string_of(&chars, 1, chars.len());
                assert(name@ =~= sym@.drop_first());
                Some(SrcVar::NamedSrc(name))
            }
        } else {
            None
        }
    }

    /// The source that a value is, if it is one.
    pub fn from_value(v: &ValueAndSpan) -> (r: Option<SrcVar>)
        ensures
            opt_view(r) == source_of(v@),
    {
        match &v.inner {
            SpannedValue::PlainSymbol(sym) => SrcVar::from_symbol(sym),
            _ => None,
        }
    }
}

/// A constant of a query that is no integer.
#[derive(Debug, PartialEq, Eq, Hash)]
pub enum NonIntegerConstant {
    Boolean(bool),
    BigInteger(BigInteger),
    Float(Float),
    Text(String),
    /// An instant, in microseconds since the Unix epoch, UTC.
    Instant(i64),
    Uuid(Uuid),
}

/// What a [`NonIntegerConstant`] holds.
pub enum ConstantView {
    Boolean(bool),
    BigInteger(int),
    Float(FloatView),
    Text(Seq<char>),
    Instant(int),
    Uuid(Seq<u8>),
}

impl View for NonIntegerConstant {
    type V = ConstantView;

    open spec fn view(&self) -> ConstantView {
        match self {
            NonIntegerConstant::Boolean(b) => ConstantView::Boolean(*b),
            NonIntegerConstant::BigInteger(v) => ConstantView::BigInteger(v@),
            NonIntegerConstant::Float(f) => ConstantView::Float(f@),
            NonIntegerConstant::Text(t) => ConstantView::Text(t@),
            NonIntegerConstant::Instant(micros) => ConstantView::Instant(*micros as int),
            NonIntegerConstant::Uuid(u) => ConstantView::Uuid(u@),
        }
    }
}

/// The constant that a value is, if it is one that is no integer.
pub open spec fn constant_of(v: SpannedValueView) -> Option<ConstantView> {
    match v {
        SpannedValueView::Boolean(b) => Some(ConstantView::Boolean(b)),
        SpannedValueView::BigInteger(n) => Some(ConstantView::BigInteger(n)),
        SpannedValueView::Float(f) => Some(ConstantView::Float(f)),
        SpannedValueView::Text(t) => Some(ConstantView::Text(t)),
        SpannedValueView::Instant(micros) => Some(ConstantView::Instant(micros)),
        SpannedValueView::Uuid(u) => Some(ConstantView::Uuid(u)),
        _ => None,
    }
}

fn clone_float(f: &Float) -> (r: Float)
    ensures
        r@ == f@,
{
    match f {
        Float::NaN => Float::NaN,
        Float::PositiveInfinity => Float::PositiveInfinity,
        Float::NegativeInfinity => Float::NegativeInfinity,
        Float::Literal(text) => Float::Literal(text.clone()),
    }
}

impl NonIntegerConstant {
    /// The constant that a value is, if it is one that is no integer.
    pub fn from_value(v: &ValueAndSpan) -> (r: Option<NonIntegerConstant>)
        ensures
            opt_view(r) == constant_of(v@.inner),
    {
        match &v.inner {
            SpannedValue::Boolean(b) => Some(NonIntegerConstant::Boolean(*b)),
            SpannedValue::BigInteger(n) => Some(NonIntegerConstant::BigInteger(n.clone())),
            SpannedValue::Float(f) => Some(NonIntegerConstant::Float(clone_float(f))),
            SpannedValue::Text(t) => Some(NonIntegerConstant::Text(t.clone())),
            SpannedValue::Instant(micros) => Some(NonIntegerConstant::Instant(*micros)),
            SpannedValue::Uuid(u) => Some(NonIntegerConstant::Uuid(*u)),
            _ => None,
        }
    }
}

/// An argument of a function of a query.
#[derive(Debug, PartialEq, Eq, Hash)]
pub enum FnArg {
    Variable(Variable),
    SrcVar(SrcVar),
    EntidOrInteger(i64),
    IdentOrKeyword(Keyword),
    Constant(NonIntegerConstant),
    /// Several arguments between brackets.
    Vector(Vec<FnArg>),
}

/// What an [`FnArg`] holds.
pub enum FnArgView {
    Variable(Seq<char>),
    SrcVar(SrcVarView),
    EntidOrInteger(int),
    IdentOrKeyword(NameView),
    Constant(ConstantView),
    Vector(Seq<FnArgView>),
}

/// The views of a list of arguments.
pub open spec fn args_view(args: Seq<FnArg>) -> Seq<FnArgView>
    decreases args,
{
    Seq::new(
        args.len(),
        |i: int|
            if 0 <= i < args.len() {
                args[i].view()
            } else {
                FnArgView::EntidOrInteger(0)
            },
    )
}

impl View for FnArg {
    type V = FnArgView;

    open spec fn view(&self) -> FnArgView
        decreases self,
    {
        match self {
            FnArg::Variable(v) => FnArgView::Variable(v@),
            FnArg::SrcVar(s) => FnArgView::SrcVar(s@),
            FnArg::EntidOrInteger(n) => FnArgView::EntidOrInteger(*n as int),
            FnArg::IdentOrKeyword(k) => FnArgView::IdentOrKeyword(k@),
            FnArg::Constant(c) => FnArgView::Constant(c@),
            FnArg::Vector(args) => FnArgView::Vector(args_view(args@)),
        }
    }
}

/// The argument that a value is, if it is one: an integer, a source, a
/// variable, a keyword or a constant.
pub open spec fn fn_arg_of(v: ValueAndSpanView) -> Option<FnArgView> {
    match v.inner {
        SpannedValueView::Integer(n) => Some(FnArgView::EntidOrInteger(n)),
        SpannedValueView::PlainSymbol(name) => if is_source_name(name) {
            Some(FnArgView::SrcVar(source_of(v)->0))
        } else if is_variable_name(name) {
            Some(FnArgView::Variable(name))
        } else {
            None
        },
        SpannedValueView::Keyword(k) => Some(FnArgView::IdentOrKeyword(k)),
        other => match constant_of(other) {
            Some(c) => Some(FnArgView::Constant(c)),
            None => None,
        },
    }
}

impl FnArg {
    /// The argument that a value is, if it is one.
    pub fn from_value(v: &ValueAndSpan) -> (r: Option<FnArg>)
        ensures
            opt_view(r) == fn_arg_of(v@),
    {
        match &v.inner {
            SpannedValue::Integer(n) => Some(FnArg::EntidOrInteger(*n)),
            SpannedValue::PlainSymbol(sym) => {
                if sym.is_src_symbol() {
                    match SrcVar::from_symbol(sym) {
                        Some(s) => Some(FnArg::SrcVar(s)),
                        None => None,
                    }
                } else {
                    match Variable::from_symbol(sym) {
                        Some(var) => Some(FnArg::Variable(var)),
                        None => None,
                    }
                }
            },
            SpannedValue::Keyword(k) => Some(FnArg::IdentOrKeyword(k.clone())),
            _ => match NonIntegerConstant::from_value(v) {
                Some(c) => Some(FnArg::Constant(c)),
                None => None,
            },
        }
    }
}

/// The entity, the attribute or the transaction of a pattern.
#[derive(Debug, PartialEq, Eq, Hash)]
pub enum PatternNonValuePlace {
    Placeholder,
    Variable(Variable),
    Entid(i64),
    Ident(Keyword),
}

/// What a [`PatternNonValuePlace`] holds.
pub enum NonValuePlaceView {
    Placeholder,
    Variable(Seq<char>),
    Entid(int),
    Ident(NameView),
}

impl View for PatternNonValuePlace {
    type V = NonValuePlaceView;

    open spec fn view(&self) -> NonValuePlaceView {
        match self {
            PatternNonValuePlace::Placeholder => NonValuePlaceView::Placeholder,
            PatternNonValuePlace::Variable(v) => NonValuePlaceView::Variable(v@),
            PatternNonValuePlace::Entid(e) => NonValuePlaceView::Entid(*e as int),
            PatternNonValuePlace::Ident(k) => NonValuePlaceView::Ident(k@),
        }
    }
}

/// The value of a pattern.
#[derive(Debug, PartialEq, Eq, Hash)]
pub enum PatternValuePlace {
    Placeholder,
    Variable(Variable),
    EntidOrInteger(i64),
    IdentOrKeyword(Keyword),
    Constant(NonIntegerConstant),
}

/// What a [`PatternValuePlace`] holds.
pub enum ValuePlaceView {
    Placeholder,
    Variable(Seq<char>),
    EntidOrInteger(int),
    IdentOrKeyword(NameView),
    Constant(ConstantView),
}

impl View for PatternValuePlace {
    type V = ValuePlaceView;

    open spec fn view(&self) -> ValuePlaceView {
        match self {
            PatternValuePlace::Placeholder => ValuePlaceView::Placeholder,
            PatternValuePlace::Variable(v) => ValuePlaceView::Variable(v@),
            PatternValuePlace::EntidOrInteger(e) => ValuePlaceView::EntidOrInteger(*e as int),
            PatternValuePlace::IdentOrKeyword(k) => ValuePlaceView::IdentOrKeyword(k@),
            PatternValuePlace::Constant(c) => ValuePlaceView::Constant(c@),
        }
    }
}

/// Whether a name is the placeholder, `_`.
pub open spec fn is_placeholder_name(name: Seq<char>) -> bool {
    name == seq!['_']
}

/// The entity, attribute or transaction that a value is in a pattern, if
/// it can be one: an integer that is not negative, the placeholder, a
/// variable, or a keyword.
pub open spec fn non_value_place_of(v: ValueAndSpanView) -> Option<NonValuePlaceView> {
    match v.inner {
        SpannedValueView::Integer(n) => if n >= 0 {
            Some(NonValuePlaceView::Entid(n))
        } else {
            None
        },
        SpannedValueView::PlainSymbol(name) => if is_placeholder_name(name) {
            Some(NonValuePlaceView::Placeholder)
        } else if is_variable_name(name) {
            Some(NonValuePlaceView::Variable(name))
        } else {
            None
        },
        SpannedValueView::Keyword(k) => Some(NonValuePlaceView::Ident(k)),
        _ => None,
    }
}

/// The value that a value is in a pattern, if it can be one: an integer,
/// the placeholder, a variable, a keyword with a namespace, or a
/// constant.
pub open spec fn value_place_of(v: ValueAndSpanView) -> Option<ValuePlaceView> {
    match v.inner {
        SpannedValueView::Integer(n) => Some(ValuePlaceView::EntidOrInteger(n)),
        SpannedValueView::PlainSymbol(name) => if is_placeholder_name(name) {
            Some(ValuePlaceView::Placeholder)
        } else if is_variable_name(name) {
            Some(ValuePlaceView::Variable(name))
        } else {
            None
        },
        SpannedValueView::Keyword(k) => if k.namespace is Some {
            Some(ValuePlaceView::IdentOrKeyword(k))
        } else {
            None
        },
        other => match constant_of(other) {
            Some(c) => Some(ValuePlaceView::Constant(c)),
            None => None,
        },
    }
}

fn is_placeholder(sym: &PlainSymbol) -> (r: bool)
    ensures
        r == is_placeholder_name(sym@),
{
    let n = sym.name();
    let r = n.unicode_len() == 1 && n.get_char(0) == '_';
    proof {
        if r {
            assert(sym@ =~= seq!['_']);
        }
    }
    r
}

impl PatternNonValuePlace {
    /// The place that a value is, if it can be one.
    pub fn from_value(v: &ValueAndSpan) -> (r: Option<PatternNonValuePlace>)
        ensures
            opt_view(r) == non_value_place_of(v@),
    {
        match &v.inner {
            SpannedValue::Integer(n) => {
                if *n >= 0 {
                    Some(PatternNonValuePlace::Entid(*n))
                } else {
                    None
                }
            },
            SpannedValue::PlainSymbol(sym) => {
                if is_placeholder(sym) {
                    Some(PatternNonValuePlace::Placeholder)
                } else {
                    match Variable::from_symbol(sym) {
                        Some(var) => Some(PatternNonValuePlace::Variable(var)),
                        None => None,
                    }
                }
            },
            SpannedValue::Keyword(k) => Some(PatternNonValuePlace::Ident(k.clone())),
            _ => None,
        }
    }

    /// The same place as the value of a pattern.
    pub fn to_pattern_value_place(self) -> (r: PatternValuePlace)
        ensures
            r@ == as_value_place(self@),
    {
        match self {
            PatternNonValuePlace::Placeholder => PatternValuePlace::Placeholder,
            PatternNonValuePlace::Variable(v) => PatternValuePlace::Variable(v),
            PatternNonValuePlace::Entid(e) => PatternValuePlace::EntidOrInteger(e),
            PatternNonValuePlace::Ident(k) => PatternValuePlace::IdentOrKeyword(k),
        }
    }
}

impl PatternValuePlace {
    /// The place that a value is, if it can be one.
    pub fn from_value(v: &ValueAndSpan) -> (r: Option<PatternValuePlace>)
        ensures
            opt_view(r) == value_place_of(v@),
    {
        match &v.inner {
            SpannedValue::Integer(n) => Some(PatternValuePlace::EntidOrInteger(*n)),
            SpannedValue::PlainSymbol(sym) => {
                if is_placeholder(sym) {
                    Some(PatternValuePlace::Placeholder)
                } else {
                    match Variable::from_symbol(sym) {
                        Some(var) => Some(PatternValuePlace::Variable(var)),
                        None => None,
                    }
                }
            },
            SpannedValue::Keyword(k) => {
                if k.is_namespaced() {
                    Some(PatternValuePlace::IdentOrKeyword(k.clone()))
                } else {
                    None
                }
            },
            _ => match NonIntegerConstant::from_value(v) {
                Some(c) => Some(PatternValuePlace::Constant(c)),
                None => None,
            },
        }
    }

    /// The same place as the entity of a pattern, if it can be one: a
    /// constant cannot, nor can a negative integer.
    pub fn into_pattern_non_value_place(self) -> (r: Option<PatternNonValuePlace>)
        ensures
            opt_view(r) == as_non_value_place(self@),
    {
        match self {
            PatternValuePlace::Placeholder => Some(PatternNonValuePlace::Placeholder),
            PatternValuePlace::Variable(v) => Some(PatternNonValuePlace::Variable(v)),
            PatternValuePlace::EntidOrInteger(e) => {
                if e >= 0 {
                    Some(PatternNonValuePlace::Entid(e))
                } else {
                    None
                }
            },
            PatternValuePlace::IdentOrKeyword(k) => Some(PatternNonValuePlace::Ident(k)),
            PatternValuePlace::Constant(_) => None,
        }
    }
}

/// An entity as the value of a pattern.
pub open spec fn as_value_place(place: NonValuePlaceView) -> ValuePlaceView {
    match place {
        NonValuePlaceView::Placeholder => ValuePlaceView::Placeholder,
        NonValuePlaceView::Variable(v) => ValuePlaceView::Variable(v),
        NonValuePlaceView::Entid(e) => ValuePlaceView::EntidOrInteger(e),
        NonValuePlaceView::Ident(k) => ValuePlaceView::IdentOrKeyword(k),
    }
}

/// A value as the entity of a pattern, if it can be one.
pub open spec fn as_non_value_place(place: ValuePlaceView) -> Option<NonValuePlaceView> {
    match place {
        ValuePlaceView::Placeholder => Some(NonValuePlaceView::Placeholder),
        ValuePlaceView::Variable(v) => Some(NonValuePlaceView::Variable(v)),
        ValuePlaceView::EntidOrInteger(e) => if e >= 0 {
            Some(NonValuePlaceView::Entid(e))
        } else {
            None
        },
        ValuePlaceView::IdentOrKeyword(k) => Some(NonValuePlaceView::Ident(k)),
        ValuePlaceView::Constant(_) => None,
    }
}

/// A pattern: what the datoms that match have for entity, attribute,
/// value and transaction.
#[derive(Debug, PartialEq, Eq, Hash)]
pub struct Pattern {
    pub source: Option<SrcVar>,
    pub entity: PatternNonValuePlace,
    pub attribute: PatternNonValuePlace,
    pub value: PatternValuePlace,
    pub tx: PatternNonValuePlace,
}

/// What a [`Pattern`] holds.
pub struct PatternView {
    pub source: Option<SrcVarView>,
    pub entity: NonValuePlaceView,
    pub attribute: NonValuePlaceView,
    pub value: ValuePlaceView,
    pub tx: NonValuePlaceView,
}

impl View for Pattern {
    type V = PatternView;

    open spec fn view(&self) -> PatternView {
        PatternView {
            source: opt_view(self.source),
            entity: self.entity@,
            attribute: self.attribute@,
            value: self.value@,
            tx: self.tx@,
        }
    }
}

/// Whether an attribute is a keyword in the backward direction that has a
/// forward one.
pub open spec fn is_reversible(attribute: NonValuePlaceView) -> bool {
    attribute matches NonValuePlaceView::Ident(k) && k.is_backward()
}

/// The pattern of the given parts. A backward attribute, such as
/// `:foo/_bar`, is turned around: the pattern is that of the forward
/// attribute with entity and value exchanged. There is no such pattern
/// where the value cannot be an entity, or where the attribute is nothing
/// but an underscore.
pub open spec fn pattern_of(
    source: Option<SrcVarView>,
    e: NonValuePlaceView,
    a: NonValuePlaceView,
    v: ValuePlaceView,
    tx: NonValuePlaceView,
) -> Option<PatternView> {
    if is_reversible(a) {
        match as_non_value_place(v) {
            Some(entity) => if a->Ident_0.name.len() > 1 {
                Some(
                    PatternView {
                        source,
                        entity,
                        attribute: NonValuePlaceView::Ident(a->Ident_0.reversed()),
                        value: as_value_place(e),
                        tx,
                    },
                )
            } else {
                None
            },
            None => None,
        }
    } else {
        Some(PatternView { source, entity: e, attribute: a, value: v, tx })
    }
}

impl Pattern {
    /// The pattern of the given parts; see [`pattern_of`].
    pub fn new(
        src: Option<SrcVar>,
        e: PatternNonValuePlace,
        a: PatternNonValuePlace,
        v: PatternValuePlace,
        tx: PatternNonValuePlace,
    ) -> (r: Option<Pattern>)
        requires
            a matches PatternNonValuePlace::Ident(k) ==> k@.well_formed(),
        ensures
            opt_view(r) == pattern_of(
                opt_view(src),
                e@,
                a@,
                v@,
                tx@,
            ),
    {
        let backward = match &a {
            PatternNonValuePlace::Ident(k) => k.is_backward(),
            _ => false,
        };
        if backward {
            match a {
                PatternNonValuePlace::Ident(k) => {
                    match v.into_pattern_non_value_place() {
                        Some(entity) => {
                            if k.name().unicode_len() > 1 {
                                Some(
                                    Pattern {
                                        source: src,
                                        entity,
                                        attribute: PatternNonValuePlace::Ident(k.to_reversed()),
                                        value: e.to_pattern_value_place(),
                                        tx,
                                    },
                                )
                            } else {
                                None
                            }
                        },
                        None => None,
                    }
                },
                _ => None,
            }
        } else {
            Some(Pattern { source: src, entity: e, attribute: a, value: v, tx })
        }
    }
}

/// A pattern with a backward attribute says what the pattern with the
/// forward attribute says of the value: `[?x :foo/_bar ?y]` is
/// `[?y :foo/bar ?x]`. This holds wherever the attribute is more than an
/// underscore and does not start with two, and the entity is no negative
/// number.
pub proof fn lemma_reversed_pattern(
    source: Option<SrcVarView>,
    x: NonValuePlaceView,
    attribute: NameView,
    y: NonValuePlaceView,
    tx: NonValuePlaceView,
)
    requires
        attribute.is_backward(),
        attribute.name.len() > 1,
        attribute.name[1] != '_',
        y matches NonValuePlaceView::Entid(e) ==> e >= 0,
    ensures
        pattern_of(source, x, NonValuePlaceView::Ident(attribute), as_value_place(y), tx)
            == pattern_of(
            source,
            y,
            NonValuePlaceView::Ident(attribute.reversed()),
            as_value_place(x),
            tx,
        ),
{
    assert(!attribute.reversed().is_backward());
}

} // verus!
