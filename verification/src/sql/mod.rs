//! Assembling parameterised SQL statements.
//!
//! A [`SQLiteQueryBuilder`] collects the text of a statement together with
//! the values that are bound to it by name. Strings and byte arrays are
//! bound once however often they are pushed; the finished bind list is
//! ordered by name, so that it does not depend on how it was collected.

pub mod builder;
pub mod errors;
use vstd::prelude::*;
use vstd::string::StringExecFns;
use crate::text::{decimal_nat, is_prefix_of, text_less};
use crate::values::TypedValueView;

verus! {

/// Whether a character beyond ASCII is alphabetic or numeric by the
/// Unicode tables of the standard library.
pub uninterp spec fn is_alphanumeric_beyond_ascii(c: char) -> bool;

/// Whether a character beyond ASCII is numeric by the Unicode tables of
/// the standard library.
pub uninterp spec fn is_numeric_beyond_ascii(c: char) -> bool;

/// Whether `c` is alphabetic or numeric: in ASCII, a letter or a digit;
/// beyond it, what the Unicode tables say.
pub open spec fn is_alphanumeric_char(c: char) -> bool {
    if c <= '\u{7f}' {
        ('0' <= c <= '9') || ('a' <= c <= 'z') || ('A' <= c <= 'Z')
    } else {
        is_alphanumeric_beyond_ascii(c)
    }
}

/// Whether `c` is numeric: in ASCII, a digit; beyond it, what the
/// Unicode tables say.
pub open spec fn is_numeric_char(c: char) -> bool {
    if c <= '\u{7f}' {
        '0' <= c <= '9'
    } else {
        is_numeric_beyond_ascii(c)
    }
}

/// `char::is_alphanumeric`: in ASCII exactly the letters and the digits
/// are alphabetic or numeric; beyond ASCII the result is a function of
/// the character alone.
pub assume_specification[ char::is_alphanumeric ](c: char) -> (r: bool)
    ensures
        r == is_alphanumeric_char(c),
        c > '\u{7f}' ==> r == is_alphanumeric_beyond_ascii(c),
;

/// `char::is_numeric`: in ASCII exactly the digits are numeric; beyond
/// ASCII the result is a function of the character alone.
pub assume_specification[ char::is_numeric ](c: char) -> (r: bool)
    ensures
        r == is_numeric_char(c),
        c > '\u{7f}' ==> r == is_numeric_beyond_ascii(c),
;

/// A value as the SQL engine stores it.
#[derive(Debug, PartialEq, Eq)]
pub enum SqlValue {
    Null,
    Integer(i64),
    /// A floating point number, as the bits of its IEEE 754 form.
    Real(u64),
    Text(String),
    Blob(Vec<u8>),
}

/// What an [`SqlValue`] holds.
pub enum SqlValueView {
    Null,
    Integer(int),
    Real(u64),
    Text(Seq<char>),
    Blob(Seq<u8>),
}

impl View for SqlValue {
    type V = SqlValueView;

    open spec fn view(&self) -> SqlValueView {
        match self {
            SqlValue::Null => SqlValueView::Null,
            SqlValue::Integer(v) => SqlValueView::Integer(*v as int),
            SqlValue::Real(bits) => SqlValueView::Real(*bits),
            SqlValue::Text(s) => SqlValueView::Text(s@),
            SqlValue::Blob(b) => SqlValueView::Blob(b@),
        }
    }
}

fn bytes_equal(a: &Vec<u8>, b: &Vec<u8>) -> (r: bool)
    ensures
        r == (a@ == b@),
{
    if a.len() != b.len() {
        return false;
    }
    let mut i: usize = 0;
    while i < a.len()
        invariant
            i <= a.len(),
            a.len() == b.len(),
            forall|j: int| 0 <= j < i ==> a@[j] == b@[j],
        decreases a.len() - i,
    {
        if a[i] != b[i] {
            return false;
        }
        i += 1;
    }
    assert(a@ =~= b@);
    true
}

impl SqlValue {
    /// Whether two values hold the same.
    pub fn same_as(&self, other: &SqlValue) -> (r: bool)
        ensures
            r == (self@ == other@),
    {
        match (self, other) {
            (SqlValue::Null, SqlValue::Null) => true,
            (SqlValue::Integer(a), SqlValue::Integer(b)) => *a == *b,
            (SqlValue::Real(a), SqlValue::Real(b)) => *a == *b,
            (SqlValue::Text(a), SqlValue::Text(b)) => *a == *b,
            (SqlValue::Blob(a), SqlValue::Blob(b)) => bytes_equal(a, b),
            _ => false,
        }
    }
}

/// The views of a list of values.
pub open spec fn values_view(values: Seq<SqlValue>) -> Seq<SqlValueView> {
    Seq::new(values.len(), |i: int| values[i]@)
}

/// A statement with positional parameters: its text, and the values of
/// the question marks in order.
#[derive(Debug, PartialEq, Eq)]
pub struct Statement {
    pub sql: String,
    pub params: Vec<SqlValue>,
}

/// What a [`Statement`] holds.
pub struct StatementView {
    pub sql: Seq<char>,
    pub params: Seq<SqlValueView>,
}

impl View for Statement {
    type V = StatementView;

    open spec fn view(&self) -> StatementView {
        StatementView { sql: self.sql@, params: values_view(self.params@) }
    }
}

/// The views of a list of named values.
pub open spec fn args_view(args: Seq<(String, SqlValue)>) -> Seq<(Seq<char>, SqlValueView)> {
    Seq::new(args.len(), |i: int| (args[i].0@, args[i].1@))
}

/// A finished statement: its text, and the values bound to its named
/// parameters.
#[derive(Debug, PartialEq, Eq)]
pub struct SQLQuery {
    pub sql: String,
    pub args: Vec<(String, SqlValue)>,
}

/// What an [`SQLQuery`] holds.
pub struct QueryView {
    pub sql: Seq<char>,
    pub args: Seq<(Seq<char>, SqlValueView)>,
}

impl View for SQLQuery {
    type V = QueryView;

    open spec fn view(&self) -> QueryView {
        QueryView { sql: self.sql@, args: args_view(self.args@) }
    }
}

/// Whether the names of a bind list strictly increase in the order of
/// texts.
pub open spec fn sorted_by_name(args: Seq<(Seq<char>, SqlValueView)>) -> bool {
    forall|i: int, j: int| 0 <= i < j < args.len() ==> text_less(args[i].0, args[j].0)
}

/// One value that the builder has bound to a generated name.
pub struct BindView {
    pub name: Seq<char>,
    pub value: SqlValueView,
    /// Whether the value is bound once however often it is pushed.
    pub interned: bool,
}

/// The state of a builder: the text so far, the prefix of generated names,
/// and the binds in the order in which their names were generated.
pub struct BuilderView {
    pub sql: Seq<char>,
    pub prefix: Seq<char>,
    pub binds: Seq<BindView>,
}

/// An identifier with each backtick written twice.
pub open spec fn doubled_backticks(s: Seq<char>) -> Seq<char>
    decreases s.len(),
{
    if s.len() == 0 {
        Seq::empty()
    } else if s.last() == '`' {
        doubled_backticks(s.drop_last()) + seq!['`', '`']
    } else {
        doubled_backticks(s.drop_last()).push(s.last())
    }
}

/// Whether a name is fit to be a bind parameter: every character is
/// alphanumeric or an underscore.
pub open spec fn valid_parameter_name(name: Seq<char>) -> bool {
    forall|i: int| 0 <= i < name.len() ==> is_parameter_char(#[trigger] name[i])
}

/// Whether a character may stand in the name of a bind parameter.
pub open spec fn is_parameter_char(c: char) -> bool {
    is_alphanumeric_char(c) || c == '_'
}

/// Whether a bind parameter with the given name could be taken for a
/// generated one: written with its dollar sign, it starts with the prefix
/// of the generated names, and every character after the prefix is
/// numeric.
pub open spec fn could_be_generated(prefix: Seq<char>, name: Seq<char>) -> bool {
    &&& prefix.len() <= name.len() + 1
    &&& forall|i: int| 0 <= i < prefix.len() ==> (seq!['$'] + name)[i] == #[trigger] prefix[i]
    &&& forall|i: int|
        prefix.len() <= i < name.len() + 1 ==> is_numeric_char(#[trigger] (seq!['$'] + name)[i])
}

impl BuilderView {
    /// The name of the bind at position `k` is the prefix followed by `k`
    /// in decimal, and no interned value is bound twice.
    pub open spec fn well_formed(self) -> bool {
        &&& forall|k: int|
            0 <= k < self.binds.len() ==> (#[trigger] self.binds[k]).name == self.prefix
                + decimal_nat(k as nat)
        &&& forall|i: int, j: int|
            0 <= i < j < self.binds.len() && self.binds[i].interned && self.binds[j].interned
                ==> self.binds[i].value != self.binds[j].value
    }

    /// The name that is generated next.
    pub open spec fn next_name(self) -> Seq<char> {
        self.prefix + decimal_nat(self.binds.len())
    }

    /// Whether the bind at position `k` is the interned bind of `value`.
    pub open spec fn interns_at(self, k: int, value: SqlValueView) -> bool {
        0 <= k < self.binds.len() && self.binds[k].interned && self.binds[k].value == value
    }

    /// The name to which an interned value is bound, if it is bound.
    pub open spec fn interned_name(self, value: SqlValueView) -> Option<Seq<char>> {
        if exists|k: int| self.interns_at(k, value) {
            Some(self.binds[choose|k: int| self.interns_at(k, value)].name)
        } else {
            None
        }
    }

    /// The state after more text.
    pub open spec fn with_sql(self, text: Seq<char>) -> BuilderView {
        BuilderView { sql: self.sql + text, ..self }
    }

    /// The state after a quoted identifier.
    pub open spec fn with_identifier(self, identifier: Seq<char>) -> BuilderView {
        self.with_sql(seq!['`'] + doubled_backticks(identifier) + seq!['`'])
    }

    /// The state after a value was bound to a fresh name.
    pub open spec fn with_bind(self, value: SqlValueView, interned: bool) -> BuilderView {
        BuilderView {
            sql: self.sql + self.next_name(),
            prefix: self.prefix,
            binds: self.binds.push(BindView { name: self.next_name(), value, interned }),
        }
    }

    /// The state after a value that is bound once: the name it is bound to
    /// already, or else a fresh one.
    pub open spec fn with_interned(self, value: SqlValueView) -> BuilderView {
        match self.interned_name(value) {
            Some(name) => self.with_sql(name),
            None => self.with_bind(value, true),
        }
    }

    /// The state after a typed value. References, longs and instants are
    /// written in decimal, booleans as `1` and `0`, doubles in scientific
    /// notation. Strings, identifiers and byte arrays are bound once;
    /// keywords are bound to a fresh name each time.
    pub open spec fn with_typed_value(self, value: TypedValueView) -> BuilderView {
        match value {
            TypedValueView::Ref(e) => self.with_sql(crate::text::decimal_int(e)),
            TypedValueView::Boolean(b) => self.with_sql(
                if b {
                    seq!['1']
                } else {
                    seq!['0']
                },
            ),
            TypedValueView::Long(v) => self.with_sql(crate::text::decimal_int(v)),
            TypedValueView::Double(d) => self.with_sql(d.scientific),
            TypedValueView::Instant(micros) => self.with_sql(crate::text::decimal_int(micros)),
            TypedValueView::Uuid(bytes) => self.with_interned(SqlValueView::Blob(bytes)),
            TypedValueView::Bytes(bytes) => self.with_interned(SqlValueView::Blob(bytes)),
            TypedValueView::String(s) => self.with_interned(SqlValueView::Text(s)),
            TypedValueView::Keyword(k) => self.with_bind(
                SqlValueView::Text(seq![':'] + k.qualified()),
                false,
            ),
        }
    }

    /// The state after a bind parameter of the caller.
    pub open spec fn with_bind_param(self, name: Seq<char>) -> BuilderView {
        self.with_sql(seq!['$'] + name)
    }

    /// The binds as named values, in the order of generation.
    pub open spec fn bind_pairs(self) -> Seq<(Seq<char>, SqlValueView)> {
        Seq::new(self.binds.len(), |k: int| (self.binds[k].name, self.binds[k].value))
    }

    /// Whether `q` is the statement that the builder finishes as: the text
    /// as it was collected, and the binds ordered by name.
    pub open spec fn finishes_as(self, q: QueryView) -> bool {
        &&& q.sql == self.sql
        &&& sorted_by_name(q.args)
        &&& q.args.to_multiset() == self.bind_pairs().to_multiset()
    }
}

} // verus!
