//! The builder for SQLite, and the contracts of builders and fragments.

use vstd::prelude::*;
use vstd::seq_lib::to_multiset_insert;
use vstd::string::StringExecFns;
use crate::sql::errors::{BuildQueryResult, SQLError, SQLErrorKind, SQLErrorKindView};
use crate::sql::{
    args_view, could_be_generated, doubled_backticks, sorted_by_name, valid_parameter_name,
    BindView, BuilderView, QueryView, SQLQuery, SqlValue, SqlValueView,
};
use crate::text::{
    is_prefix_of,
    chars_of, decimal_nat, lemma_decimal_nat_injective, lemma_text_less_irreflexive,
    lemma_text_less_total, lemma_text_less_transitive, push_decimal_u64, starts_with_chars,
    str_less, text_less,
};
use crate::values::TypedValue;

verus! {

/// What accumulates an SQL statement and the values bound to it.
pub trait QueryBuilder: Sized {
    /// The invariant of the builder, which every operation keeps.
    spec fn well_formed(&self) -> bool;

    /// Appends text to the statement as it is.
    fn push_sql(&mut self, sql: &str)
        requires
            old(self).well_formed(),
        ensures
            final(self).well_formed(),
    ;

    /// Appends an identifier, quoted.
    fn push_identifier(&mut self, identifier: &str) -> (r: BuildQueryResult)
        requires
            old(self).well_formed(),
        ensures
            final(self).well_formed(),
    ;

    /// Appends a typed value, as a literal or as a bind.
    fn push_typed_value(&mut self, value: &TypedValue) -> (r: BuildQueryResult)
        requires
            old(self).well_formed(),
        ensures
            final(self).well_formed(),
    ;

    /// Appends a named parameter that the caller binds.
    fn push_bind_param(&mut self, name: &str) -> (r: BuildQueryResult)
        requires
            old(self).well_formed(),
        ensures
            final(self).well_formed(),
    ;

    /// Ends the statement.
    fn finish(self) -> (q: SQLQuery)
        requires
            self.well_formed(),
    ;
}

/// What can write itself into a statement.
pub trait QueryFragment {
    /// Appends the SQL of the fragment, and its binds, to a builder.
    fn push_sql<B: QueryBuilder>(&self, out: &mut B) -> (r: BuildQueryResult)
        requires
            old(out).well_formed(),
        ensures
            final(out).well_formed(),
    ;
}

/// The empty fragment adds nothing.
impl QueryFragment for () {
    fn push_sql<B: QueryBuilder>(&self, out: &mut B) -> (r: BuildQueryResult)
        ensures
            r is Ok,
            *final(out) == *old(out),
    {
        Ok(())
    }
}

struct Bind {
    name: String,
    value: SqlValue,
    interned: bool,
}

impl View for Bind {
    type V = BindView;

    closed spec fn view(&self) -> BindView {
        BindView { name: self.name@, value: self.value@, interned: self.interned }
    }
}

/// A builder that follows the escaping rules of SQLite.
pub struct SQLiteQueryBuilder {
    pub sql: String,
    arg_prefix: String,
    binds: Vec<Bind>,
}

impl View for SQLiteQueryBuilder {
    type V = BuilderView;

    closed spec fn view(&self) -> BuilderView {
        BuilderView {
            sql: self.sql@,
            prefix: self.arg_prefix@,
            binds: Seq::new(self.binds@.len(), |k: int| self.binds@[k]@),
        }
    }
}

/// The names of the binds of a well-formed builder differ from each other.
pub proof fn lemma_names_distinct(b: BuilderView, i: int, j: int)
    requires
        b.well_formed(),
        0 <= i < b.binds.len(),
        0 <= j < b.binds.len(),
        i != j,
    ensures
        b.binds[i].name != b.binds[j].name,
{
    let di = decimal_nat(i as nat);
    let dj = decimal_nat(j as nat);
    if b.binds[i].name == b.binds[j].name {
        assert((b.prefix + di).skip(b.prefix.len() as int) =~= di);
        assert((b.prefix + dj).skip(b.prefix.len() as int) =~= dj);
        lemma_decimal_nat_injective(i as nat, j as nat);
    }
}

/// A bind list that is ordered by name is determined by what it holds: two
/// such lists with the same elements are the same list.
pub proof fn lemma_sorted_binds_unique(
    s: Seq<(Seq<char>, SqlValueView)>,
    t: Seq<(Seq<char>, SqlValueView)>,
)
    requires
        sorted_by_name(s),
        sorted_by_name(t),
        s.to_multiset() == t.to_multiset(),
    ensures
        s == t,
    decreases s.len(),
{
    s.to_multiset_ensures();
    t.to_multiset_ensures();
    assert(s.len() == t.len());
    if s.len() == 0 {
        assert(s =~= t);
    } else {
        assert(s.contains(s[0]));
        assert(t.contains(t[0]));
        assert(s.to_multiset().count(s[0]) > 0);
        assert(t.to_multiset().count(t[0]) > 0);
        assert(t.contains(s[0]));
        assert(s.contains(t[0]));
        let j = choose|j: int| 0 <= j < t.len() && t[j] == s[0];
        let i = choose|i: int| 0 <= i < s.len() && s[i] == t[0];
        if j > 0 {
            // t[0] comes before t[j] == s[0], which comes before or is s[i] == t[0].
            assert(text_less(t[0].0, t[j].0));
            if i > 0 {
                assert(text_less(s[0].0, s[i].0));
                lemma_text_less_transitive(t[0].0, s[0].0, t[0].0);
            }
            lemma_text_less_irreflexive(t[0].0);
        }
        assert(s[0] == t[0]);
        assert(s.remove(0) =~= s.drop_first());
        assert(t.remove(0) =~= t.drop_first());
        assert(s.drop_first().to_multiset() == t.drop_first().to_multiset());
        lemma_sorted_binds_unique(s.drop_first(), t.drop_first());
        assert(s =~= seq![s[0]] + s.drop_first());
        assert(t =~= seq![t[0]] + t.drop_first());
    }
}

/// A builder finishes in one way only: the statement does not depend on
/// the order in which the binds were collected.
pub proof fn lemma_finish_deterministic(b: BuilderView, q1: QueryView, q2: QueryView)
    requires
        b.finishes_as(q1),
        b.finishes_as(q2),
    ensures
        q1 == q2,
{
    lemma_sorted_binds_unique(q1.args, q2.args);
}

/// Puts a named value into a bind list that is ordered by name, at its
/// place in that order.
fn insert_sorted(sorted: &mut Vec<(String, SqlValue)>, name: String, value: SqlValue) -> (p: Ghost<
    int,
>)
    requires
        sorted_by_name(args_view(old(sorted)@)),
        forall|i: int| 0 <= i < old(sorted)@.len() ==> (#[trigger] old(sorted)@[i]).0@ != name@,
    ensures
        sorted_by_name(args_view(final(sorted)@)),
        0 <= p@ <= old(sorted)@.len(),
        args_view(final(sorted)@) == args_view(old(sorted)@).insert(p@, (name@, value@)),
{
    let ghost before = args_view(sorted@);
    let mut p: usize = sorted.len();
    while p > 0 && str_less(name.as_str(), sorted[p - 1].0.as_str())
        invariant
            p <= sorted.len(),
            *sorted == *old(sorted),
            before == args_view(sorted@),
            sorted_by_name(before),
            forall|j: int| p <= j < before.len() ==> text_less(name@, (#[trigger] before[j]).0),
        decreases p,
    {
        p -= 1;
    }
    proof {
        if p > 0 {
            let prev = before[p - 1].0;
            assert(sorted@[p - 1].0@ != name@);
            lemma_text_less_total(prev, name@);
            assert(text_less(prev, name@));
            assert forall|j: int| 0 <= j < p implies text_less((#[trigger] before[j]).0, name@) by {
                if j < p - 1 {
                    lemma_text_less_transitive(before[j].0, prev, name@);
                }
            }
        }
    }
    sorted.insert(p, (name, value));
    proof {
        let after = args_view(sorted@);
        assert(after =~= before.insert(p as int, (name@, value@)));
        assert forall|i: int, j: int| 0 <= i < j < after.len() implies text_less(
            after[i].0,
            after[j].0,
        ) by {
            if j < p {
                assert(after[i] == before[i] && after[j] == before[j]);
            } else if j == p {
                assert(after[i] == before[i]);
            } else if i < p {
                assert(after[i] == before[i] && after[j] == before[j - 1]);
            } else if i == p {
                assert(after[j] == before[j - 1]);
            } else {
                assert(after[i] == before[i - 1] && after[j] == before[j - 1]);
            }
        }
    }
    Ghost(p as int)
}

/// A bind parameter that could not be generated is written as no
/// generated name: with its dollar sign it differs from the prefix
/// followed by any number.
pub proof fn lemma_bind_param_is_not_generated(prefix: Seq<char>, name: Seq<char>, k: nat)
    requires
        !could_be_generated(prefix, name),
    ensures
        seq!['$'] + name != prefix + decimal_nat(k),
{
    let written = seq!['$'] + name;
    let generated = prefix + decimal_nat(k);
    if written == generated {
        crate::text::lemma_decimal_nat_digits(k);
        assert(written.len() == name.len() + 1);
        assert(generated.len() == prefix.len() + decimal_nat(k).len());
        assert forall|i: int| 0 <= i < prefix.len() implies written[i] == #[trigger] prefix[i] by {
            assert(generated[i] == prefix[i]);
        }
        assert forall|i: int| prefix.len() <= i < name.len() + 1 implies crate::sql::is_numeric_char(
            #[trigger] written[i],
        ) by {
            assert(generated[i] == decimal_nat(k)[i - prefix.len()]);
            assert(crate::text::is_digit(decimal_nat(k)[i - prefix.len()]));
        }
    }
}

impl SQLiteQueryBuilder {
    /// A builder whose generated names start with `$v`.
    pub fn new() -> (r: Self)
        ensures
            r@ == (BuilderView { sql: Seq::empty(), prefix: seq!['$', 'v'], binds: Seq::empty() }),
            r@.well_formed(),
    {
        proof {
            reveal_strlit("$v");
        }
        assert("$v"@ =~= seq!['$', 'v']);
        SQLiteQueryBuilder::with_prefix(String::from_str("$v"))
    }

    /// A builder whose generated names start with the given prefix.
    pub fn with_prefix(prefix: String) -> (r: Self)
        ensures
            r@ == (BuilderView { sql: Seq::empty(), prefix: prefix@, binds: Seq::empty() }),
            r@.well_formed(),
    {
        let r = SQLiteQueryBuilder { sql: String::new(), arg_prefix: prefix, binds: Vec::new() };
        assert(r@.binds =~= Seq::empty());
        r
    }

    /// The name that is bound next: the prefix, then the number of names
    /// generated so far.
    fn next_argument_name(&self) -> (r: String)
        ensures
            r@ == self@.next_name(),
    {
        let mut name = self.arg_prefix.clone();
        push_decimal_u64(&mut name, self.binds.len() as u64);
        name
    }

    /// Binds a value to a fresh name and appends the name to the
    /// statement.
    fn push_bind(&mut self, value: SqlValue, interned: bool)
        requires
            old(self)@.well_formed(),
            interned ==> forall|k: int| !old(self)@.interns_at(k, value@),
        ensures
            final(self)@ == old(self)@.with_bind(value@, interned),
            final(self)@.well_formed(),
    {
        let name = self.next_argument_name();
        self.sql.append(name.as_str());
        self.binds.push(Bind { name, value, interned });
        proof {
            let before = old(self)@;
            let after = self@;
            assert(after.binds =~= before.binds.push(
                BindView { name: before.next_name(), value: value@, interned },
            ));
            assert forall|i: int, j: int|
                0 <= i < j < after.binds.len() && after.binds[i].interned
                    && after.binds[j].interned implies after.binds[i].value
                != after.binds[j].value by {
                if j == before.binds.len() {
                    assert(!before.interns_at(i, value@));
                }
            }
        }
    }

    /// Binds a value to a fresh name and appends the name to the
    /// statement. The value is bound anew each time.
    pub fn push_static_arg(&mut self, value: SqlValue)
        requires
            old(self)@.well_formed(),
        ensures
            final(self)@ == old(self)@.with_bind(value@, false),
            final(self)@.well_formed(),
    {
        self.push_bind(value, false);
    }

    /// The position of the interned bind of a value, if it is bound.
    fn find_interned(&self, value: &SqlValue) -> (r: Option<usize>)
        ensures
            match r {
                Some(k) => self@.interns_at(k as int, value@),
                None => forall|k: int| !self@.interns_at(k, value@),
            },
    {
        let mut k: usize = 0;
        while k < self.binds.len()
            invariant
                k <= self.binds.len(),
                forall|j: int| 0 <= j < k ==> !self@.interns_at(j, value@),
            decreases self.binds.len() - k,
        {
            if self.binds[k].interned && self.binds[k].value.same_as(value) {
                return Some(k);
            }
            k += 1;
        }
        None
    }

    /// Appends the name of a value that is bound once: the name it has, or
    /// else a fresh one.
    fn push_interned(&mut self, value: SqlValue)
        requires
            old(self)@.well_formed(),
        ensures
            final(self)@ == old(self)@.with_interned(value@),
            final(self)@.well_formed(),
    {
        match self.find_interned(&value) {
            Some(k) => {
                proof {
                    let b = self@;
                    let chosen = choose|c: int| b.interns_at(c, value@);
                    assert(b.interns_at(k as int, value@));
                    assert(chosen == k);
                }
                let name = self.binds[k].name.clone();
                self.sql.append(name.as_str());
            },
            None => {
                self.push_bind(value, true);
            },
        }
    }
}

/// Whether one of the binds from position `from` on has the given name.
pub open spec fn named_from(b: BuilderView, from: int, name: Seq<char>) -> bool {
    exists|k: int| from <= k < b.binds.len() && (#[trigger] b.binds[k]).name == name
}

impl QueryBuilder for SQLiteQueryBuilder {
    open spec fn well_formed(&self) -> bool {
        self@.well_formed()
    }

    fn push_sql(&mut self, sql: &str)
        ensures
            final(self)@ == old(self)@.with_sql(sql@),
    {
        self.sql.append(sql);
    }

    /// Identifiers are quoted with backticks; a backtick inside is written
    /// twice.
    fn push_identifier(&mut self, identifier: &str) -> (r: BuildQueryResult)
        ensures
            r is Ok,
            final(self)@ == old(self)@.with_identifier(identifier@),
    {
        let chars = chars_of(identifier);
        self.sql.push('`');
        let mut i: usize = 0;
        while i < chars.len()
            invariant
                i <= chars.len(),
                chars@ == identifier@,
                self.arg_prefix == old(self).arg_prefix,
                self.binds == old(self).binds,
                self.sql@ == old(self).sql@ + seq!['`'] + doubled_backticks(
                    chars@.subrange(0, i as int),
                ),
            decreases chars.len() - i,
        {
            proof {
                assert(chars@.subrange(0, i + 1).drop_last() =~= chars@.subrange(0, i as int));
            }
            if chars[i] == '`' {
                self.sql.push('`');
                self.sql.push('`');
            } else {
                self.sql.push(chars[i]);
            }
            i += 1;
            proof {
                assert(self.sql@ =~= old(self).sql@ + seq!['`'] + doubled_backticks(
                    chars@.subrange(0, i as int),
                ));
            }
        }
        self.sql.push('`');
        proof {
            assert(chars@.subrange(0, chars.len() as int) =~= identifier@);
            assert(self.sql@ =~= old(self).sql@ + (seq!['`'] + doubled_backticks(identifier@)
                + seq!['`']));
        }
        Ok(())
    }

    fn push_typed_value(&mut self, value: &TypedValue) -> (r: BuildQueryResult)
        ensures
            r is Ok,
            final(self)@ == old(self)@.with_typed_value(value@),
    {
        match value {
            TypedValue::Ref(entid) => {
                crate::text::push_decimal_i64(&mut self.sql, *entid);
            },
            TypedValue::Boolean(v) => {
                proof {
                    reveal_strlit("1");
                    reveal_strlit("0");
                    assert("1"@ =~= seq!['1']);
                    assert("0"@ =~= seq!['0']);
                }
                if *v {
                    self.sql.append("1");
                } else {
                    self.sql.append("0");
                }
            },
            TypedValue::Long(v) => {
                crate::text::push_decimal_i64(&mut self.sql, *v);
            },
            TypedValue::Double(d) => {
                self.sql.append(d.scientific());
            },
            TypedValue::Instant(micros) => {
                crate::text::push_decimal_i64(&mut self.sql, *micros);
            },
            TypedValue::Uuid(u) => {
                self.push_interned(SqlValue::Blob(u.to_vec()));
            },
            TypedValue::Bytes(b) => {
                self.push_interned(SqlValue::Blob(b.clone()));
            },
            TypedValue::String(s) => {
                self.push_interned(SqlValue::Text(s.clone()));
            },
            TypedValue::Keyword(k) => {
                self.push_bind(SqlValue::Text(k.to_string()), false);
            },
        }
        Ok(())
    }

    /// Bind parameters are interleaved with pushed values, so they are
    /// named, not positional. The name must be made of alphanumeric
    /// characters and underscores, and, written with its dollar sign, must
    /// not look like a generated name; the two violations are told apart.
    /// A name that is refused leaves the statement as it was.
    fn push_bind_param(&mut self, name: &str) -> (r: BuildQueryResult)
        ensures
            match r {
                Ok(_) => {
                    &&& valid_parameter_name(name@)
                    &&& !could_be_generated(old(self)@.prefix, name@)
                    &&& final(self)@ == old(self)@.with_bind_param(name@)
                },
                Err(e) => {
                    &&& final(self)@ == old(self)@
                    &&& !valid_parameter_name(name@) ==> e@
                        == SQLErrorKindView::InvalidParameterName(name@)
                    &&& valid_parameter_name(name@) ==> could_be_generated(old(self)@.prefix, name@)
                        && e@ == SQLErrorKindView::BindParamCouldBeGenerated(name@)
                },
            },
    {
        let chars = chars_of(name);
        let mut i: usize = 0;
        while i < chars.len()
            invariant
                i <= chars.len(),
                chars@ == name@,
                *self == *old(self),
                old(self)@.well_formed(),
                forall|j: int| 0 <= j < i ==> crate::sql::is_parameter_char(#[trigger] chars@[j]),
            decreases chars.len() - i,
        {
            let c = chars[i];
            if !(c.is_alphanumeric() || c == '_') {
                proof {
                    assert(!crate::sql::is_parameter_char(name@[i as int]));
                }
                return Err(
                    SQLError::new(SQLErrorKind::InvalidParameterName(String::from_str(name))),
                );
            }
            i += 1;
        }
        let mut written: Vec<char> = Vec::new();
        written.push('$');
        let mut k: usize = 0;
        while k < chars.len()
            invariant
                k <= chars.len(),
                chars@ == name@,
                *self == *old(self),
                written@ == seq!['$'] + name@.take(k as int),
            decreases chars.len() - k,
        {
            written.push(chars[k]);
            proof {
                assert(written@ =~= seq!['$'] + name@.take(k + 1));
            }
            k += 1;
        }
        proof {
            assert(name@.take(k as int) =~= name@);
        }
        let prefix = chars_of(self.arg_prefix.as_str());
        proof {
            let all = seq!['$'] + name@;
            if is_prefix_of(prefix@, all) {
                assert forall|i: int| 0 <= i < prefix@.len() implies all[i]
                    == #[trigger] prefix@[i] by {
                    assert(all.subrange(0, prefix@.len() as int)[i] == all[i]);
                }
            }
            if prefix@.len() <= all.len() && (forall|i: int|
                0 <= i < prefix@.len() ==> all[i] == #[trigger] prefix@[i]) {
                assert(all.subrange(0, prefix@.len() as int) =~= prefix@);
            }
        }
        if starts_with_chars(&written, &prefix) {
            let mut j: usize = prefix.len();
            while j < written.len() && written[j].is_numeric()
                invariant
                    prefix@.len() <= j,
                    written@ == seq!['$'] + name@,
                    *self == *old(self),
                    forall|m: int|
                        prefix@.len() <= m < j && m < written.len() ==> crate::sql::is_numeric_char(
                            #[trigger] written@[m],
                        ),
                decreases written.len() - j,
            {
                j += 1;
            }
            if j >= written.len() {
                return Err(
                    SQLError::new(SQLErrorKind::BindParamCouldBeGenerated(String::from_str(name))),
                );
            }
            proof {
                assert(!crate::sql::is_numeric_char((seq!['$'] + name@)[j as int]));
            }
        }
        self.sql.push('$');
        self.sql.append(name);
        proof {
            assert(self.sql@ =~= old(self).sql@ + (seq!['$'] + name@));
        }
        Ok(())
    }

    /// The statement with its binds ordered by name, `$v0`, `$v1` and so
    /// on in the order of texts.
    fn finish(self) -> (q: SQLQuery)
        ensures
            self@.finishes_as(q@),
    {
        let ghost orig = self@;
        let ghost pairs = orig.bind_pairs();
        let SQLiteQueryBuilder { sql, arg_prefix: _, binds } = self;
        let mut binds = binds;
        let mut args: Vec<(String, SqlValue)> = Vec::new();
        proof {
            assert(pairs.skip(binds.len() as int) =~= Seq::empty());
            assert(args_view(args@) =~= Seq::empty());
        }
        while binds.len() > 0
            invariant
                orig.well_formed(),
                pairs == orig.bind_pairs(),
                binds@.len() <= orig.binds.len(),
                forall|k: int| 0 <= k < binds@.len() ==> (#[trigger] binds@[k])@ == orig.binds[k],
                sorted_by_name(args_view(args@)),
                args_view(args@).to_multiset() == pairs.skip(binds@.len() as int).to_multiset(),
                forall|i: int|
                    0 <= i < args@.len() ==> named_from(
                        orig,
                        binds@.len() as int,
                        (#[trigger] args@[i]).0@,
                    ),
            decreases binds@.len(),
        {
            let ghost n = binds@.len() as int;
            let ghost before = args_view(args@);
            let ghost args_before = args@;
            let b = binds.pop().unwrap();
            proof {
                assert(b@ == orig.binds[n - 1]);
                assert forall|i: int| 0 <= i < args@.len() implies (#[trigger] args@[i]).0@
                    != b.name@ by {
                    assert(named_from(orig, n, args@[i].0@));
                    let k = choose|k: int|
                        n <= k < orig.binds.len() && (#[trigger] orig.binds[k]).name
                            == args@[i].0@;
                    lemma_names_distinct(orig, k, n - 1);
                }
            }
            let ghost x = (b.name@, b.value@);
            let p = insert_sorted(&mut args, b.name, b.value);
            proof {
                let after = args_view(args@);
                assert(after.len() == before.len() + 1);
                assert(args@.len() == args_before.len() + 1);
                assert(x == pairs[n - 1]);
                to_multiset_insert(before, p@, x);
                to_multiset_insert(pairs.skip(n), 0, x);
                assert(pairs.skip(n).insert(0, x) =~= pairs.skip(n - 1));
                assert forall|i: int| 0 <= i < args@.len() implies named_from(
                    orig,
                    n - 1,
                    (#[trigger] args@[i]).0@,
                ) by {
                    assert(after[i].0 == args@[i].0@);
                    if i < p@ {
                        assert(before.insert(p@, x)[i] == before[i]);
                        assert(after[i] == before[i]);
                        assert(before[i].0 == args_before[i].0@);
                        assert(named_from(orig, n, args_before[i].0@));
                        let k = choose|k: int|
                            n <= k < orig.binds.len() && (#[trigger] orig.binds[k]).name
                                == args_before[i].0@;
                        assert(orig.binds[k].name == args@[i].0@);
                    } else if i == p@ {
                        assert(orig.binds[n - 1].name == args@[i].0@);
                    } else {
                        assert(before.insert(p@, x)[i] == before[i - 1]);
                        assert(after[i] == before[i - 1]);
                        assert(before[i - 1].0 == args_before[i - 1].0@);
                        assert(named_from(orig, n, args_before[i - 1].0@));
                        let k = choose|k: int|
                            n <= k < orig.binds.len() && (#[trigger] orig.binds[k]).name
                                == args_before[i - 1].0@;
                        assert(orig.binds[k].name == args@[i].0@);
                    }
                }
            }
        }
        proof {
            assert(pairs.skip(0) =~= pairs);
        }
        SQLQuery { sql, args }
    }
}

} // verus!
