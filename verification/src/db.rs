//! Helpers of the datom store: reserved entity ids, keyword texts and the
//! `VALUES` blocks of bulk inserts.

use itertools::Itertools;
use vstd::prelude::*;
use vstd::std_specs::convert::FromSpecImpl;
use vstd::string::StringExecFns;
use crate::symbols::{Keyword, NameView};
use crate::text::{chars_of, joined, string_of, views_of};
use crate::transactor::normalize::NormalizeErrorKind;

verus! {

/// A 64-bit entity id.
pub type Entid = i64;

/// The root transaction, which installs the core schema.
pub const TX0: i64 = 0x10000000;

/// The first entity id that users may allocate.
pub const USER0: i64 = 0x10000;

/// The version of the core schema that this code installs and expects.
pub const CORE_SCHEMA_VERSION: u32 = 1;

/// The entity id of `:db/ident`, the attribute that holds the keyword
/// that names an entity.
pub const DB_IDENT: i64 = 1;

/// The entity id of `:db/txInstant`, the attribute that holds the instant
/// of a transaction.
pub const DB_TX_INSTANT: i64 = 3;

/// The entity id of `:db/valueType`, the attribute that holds the type
/// of the values of an attribute.
pub const DB_VALUE_TYPE: i64 = 7;

/// The entity id of `:db/cardinality`, the attribute that says whether an
/// entity can hold several values of an attribute.
pub const DB_CARDINALITY: i64 = 8;

/// The entity id of `:db/unique`, the attribute that says whether the
/// values of an attribute are unique, and in which way.
pub const DB_UNIQUE: i64 = 9;

/// The entity id of `:db/isComponent`.
pub const DB_IS_COMPONENT: i64 = 10;

/// The entity id of `:db/index`.
pub const DB_INDEX: i64 = 11;

/// The entity id of `:db/fulltext`.
pub const DB_FULLTEXT: i64 = 12;

/// The entity id of `:db/noHistory`.
pub const DB_NO_HISTORY: i64 = 13;

/// The entity id of `:db.type/ref`.
pub const DB_TYPE_REF: i64 = 23;

/// The entity id of `:db.type/keyword`.
pub const DB_TYPE_KEYWORD: i64 = 24;

/// The entity id of `:db.type/long`.
pub const DB_TYPE_LONG: i64 = 25;

/// The entity id of `:db.type/double`.
pub const DB_TYPE_DOUBLE: i64 = 26;

/// The entity id of `:db.type/string`.
pub const DB_TYPE_STRING: i64 = 27;

/// The entity id of `:db.type/uuid`.
pub const DB_TYPE_UUID: i64 = 28;

/// The entity id of `:db.type/boolean`.
pub const DB_TYPE_BOOLEAN: i64 = 30;

/// The entity id of `:db.type/instant`.
pub const DB_TYPE_INSTANT: i64 = 31;

/// The entity id of `:db.type/bytes`.
pub const DB_TYPE_BYTES: i64 = 32;

/// The entity id of `:db.cardinality/one`.
pub const DB_CARDINALITY_ONE: i64 = 33;

/// The entity id of `:db.cardinality/many`.
pub const DB_CARDINALITY_MANY: i64 = 34;

/// The entity id of `:db.unique/value`.
pub const DB_UNIQUE_VALUE: i64 = 35;

/// The entity id of `:db.unique/identity`.
pub const DB_UNIQUE_IDENTITY: i64 = 36;

/// The entity id of `:db.schema/core`, the attribute that holds the
/// version of the core schema.
pub const DB_SCHEMA_CORE: i64 = 40;

/// The main timeline, on which transactions are committed.
pub const TIMELINE_MAIN: i64 = 0;

/// The ways in which transacting a batch of entity forms can fail.
#[derive(Debug, PartialEq, Eq)]
pub enum DbErrorKind {
    /// The feature is recognised but there is no code for it yet.
    NotYetImplemented(String),
    /// An assertion about the schema breaks a rule for attributes.
    BadSchemaAssertion(String),
    /// The definition of an attribute breaks a rule for attributes.
    InvalidAttribute,
    /// An entity was named whose id no partition has allocated.
    UnallocatedEntid(Entid),
    /// A partition has no id left to allocate.
    NoRoomInPartition,
    /// An attribute was named that the schema does not define.
    UnknownAttribute(Entid),
    /// A value could not be turned into the attribute's value type.
    BadTypeCoercion(Entid),
    /// Two values were asserted for one entity and a cardinality-one
    /// attribute: the entity and the attribute.
    CardinalityConflict(Entid, Entid),
    /// Two entities would share the value of a unique attribute: the
    /// attribute and the entity that holds the value.
    UniquenessConflict(Entid, Entid),
    /// The temporary ids of one upsert resolve to different entities.
    UpsertConflict(Entid, Entid),
    /// A lookup reference matched no live entity: the position of the
    /// form among the forms of the transaction.
    MissingLookupRef(usize),
    /// A form as it was read cannot be applied: its position among the
    /// forms of the transaction, and why it cannot.
    InputError(usize, NormalizeErrorKind),
    /// A change to an attribute does not fit the data that is stored.
    SchemaAlterationConflict(Entid),
    /// A temporary id was left without an entity id, because the
    /// partition of users has no id left for it.
    UnresolvedTempid(String),
    /// The ident of an entity of the system was asserted or retracted:
    /// the entity.
    ReservedIdent(Entid),
}

/// An error of the datom store.
#[derive(Debug, PartialEq, Eq)]
pub struct DbError {
    pub kind: DbErrorKind,
}

impl DbError {
    /// The kind of the error.
    pub fn kind(&self) -> (r: &DbErrorKind)
        ensures
            *r == self.kind,
    {
        &self.kind
    }
}

impl From<DbErrorKind> for DbError {
    fn from(error: DbErrorKind) -> (r: DbError) {
        DbError { kind: error }
    }
}

impl FromSpecImpl<DbErrorKind> for DbError {
    open spec fn obeys_from_spec() -> bool {
        true
    }

    open spec fn from_spec(error: DbErrorKind) -> DbError {
        DbError { kind: error }
    }
}

/// Whether `c` separates the parts of a keyword text.
pub open spec fn is_separator(c: char) -> bool {
    c == ':' || c == '/'
}

/// The index of the first separator at or after `from`, or the length of
/// the text if there is none.
pub open spec fn next_separator(s: Seq<char>, from: int) -> int
    decreases s.len() - from,
{
    if from < 0 || from >= s.len() {
        s.len() as int
    } else if is_separator(s[from]) {
        from
    } else {
        next_separator(s, from + 1)
    }
}

/// The namespace and the name of a keyword text: the text starts with a
/// colon, holds exactly one slash and no other colon, and both parts are
/// non-empty.
pub open spec fn namespaced_parts(s: Seq<char>) -> Option<(Seq<char>, Seq<char>)> {
    if s.len() > 0 && s[0] == ':' {
        let k = next_separator(s, 1);
        if 1 < k && k + 1 < s.len() && s[k] == '/' && next_separator(s, k + 1) == s.len() {
            Some((s.subrange(1, k), s.subrange(k + 1, s.len() as int)))
        } else {
            None
        }
    } else {
        None
    }
}

fn find_separator(chars: &Vec<char>, from: usize) -> (r: usize)
    requires
        from <= chars.len(),
    ensures
        r == next_separator(chars@, from as int),
        from <= r <= chars.len(),
{
    let mut i: usize = from;
    while i < chars.len() && !(chars[i] == ':' || chars[i] == '/')
        invariant
            from <= i <= chars.len(),
            next_separator(chars@, from as int) == next_separator(chars@, i as int),
        decreases chars.len() - i,
    {
        i += 1;
    }
    i
}

/// Reads a keyword with a namespace from a text such as `:person/name`:
/// a colon, a namespace, a slash and a name, where the namespace and the
/// name are non-empty and hold neither a colon nor a slash. The keyword
/// is written as the text. Any other text is refused with a message that
/// quotes it.
pub fn to_namespaced_keyword(s: &str) -> (r: Result<Keyword, DbError>)
    ensures
        match r {
            Ok(k) => {
                &&& namespaced_parts(s@) matches Some(parts)
                &&& k@ == (NameView { namespace: Some(parts.0), name: parts.1 })
                &&& k@.well_formed()
                &&& seq![':'] + k@.qualified() == s@
            },
            Err(e) => {
                &&& namespaced_parts(s@) is None
                &&& e.kind matches DbErrorKind::NotYetImplemented(msg)
                &&& msg@ == "InvalidKeyword: "@ + s@
            },
        },
{
    let chars = chars_of(s);
    let n = chars.len();
    if n > 0 && chars[0] == ':' {
        let k = find_separator(&chars, 1);
        if 1 < k && k < n - 1 && chars[k] == '/' {
            let end = find_separator(&chars, k + 1);
            if end == n {
                let namespace = string_of(&chars, 1, k);
                let name = string_of(&chars, k + 1, n);
                proof {
                    let text = s@;
                    assert(seq![':'] + (text.subrange(1, k as int) + seq!['/'] + text.subrange(
                        k + 1,
                        n as int,
                    )) =~= text);
                }
                return Ok(Keyword::namespaced(namespace.as_str(), name.as_str()));
            }
        }
    }
    let mut msg = String::from_str("InvalidKeyword: ");
    msg.append(s);
    Err(DbError { kind: DbErrorKind::NotYetImplemented(msg) })
}

/// `n` question marks, each a text of its own.
pub open spec fn placeholders(n: nat) -> Seq<Seq<char>> {
    Seq::new(n, |i: int| seq!['?'])
}

/// One tuple of placeholders, such as `(?, ?, ?)`.
pub open spec fn tuple_text(values_per_tuple: nat) -> Seq<char> {
    seq!['('] + joined(placeholders(values_per_tuple), seq![',', ' ']) + seq![')']
}

/// A `VALUES` block: `tuples` tuples of `values_per_tuple` placeholders,
/// such as `(?, ?), (?, ?)`.
pub open spec fn values_text(values_per_tuple: nat, tuples: nat) -> Seq<char> {
    joined(Seq::new(tuples, |i: int| tuple_text(values_per_tuple)), seq![',', ' '])
}

/// `Itertools::join` on the strings of a vector: the strings in order,
/// with the separator between each two neighbours and nowhere else. An
/// empty vector gives the empty string.
#[verifier::external_body]
fn join_strings(parts: &Vec<String>, sep: &str) -> (r: String)
    ensures
        r@ == joined(views_of(parts@), sep@),
{
    parts.iter().join(sep)
}

fn copies_of(item: &str, count: usize) -> (r: Vec<String>)
    ensures
        r@.len() == count,
        forall|i: int| 0 <= i < count ==> (#[trigger] r@[i])@ == item@,
{
    let mut out: Vec<String> = Vec::new();
    let mut i: usize = 0;
    while i < count
        invariant
            i <= count,
            out@.len() == i,
            forall|j: int| 0 <= j < i ==> (#[trigger] out@[j])@ == item@,
        decreases count - i,
    {
        out.push(String::from_str(item));
        i += 1;
    }
    out
}

/// Prepares an SQL `VALUES` block, like `(?, ?, ?), (?, ?, ?)`.
///
/// The number of values per tuple determines `(?, ?, ?)`; the number of
/// tuples determines `(...), (...)`. Both must be at least one.
pub fn repeat_values(values_per_tuple: usize, tuples: usize) -> (r: String)
    requires
        values_per_tuple >= 1,
        tuples >= 1,
    ensures
        r@ == values_text(values_per_tuple as nat, tuples as nat),
{
    proof {
        reveal_strlit("?");
        reveal_strlit(", ");
        reveal_strlit("(");
        reveal_strlit(")");
    }
    assert("?"@ =~= seq!['?']);
    assert(", "@ =~= seq![',', ' ']);
    assert("("@ =~= seq!['(']);
    assert(")"@ =~= seq![')']);
    let marks = copies_of("?", values_per_tuple);
    assert(views_of(marks@) =~= placeholders(values_per_tuple as nat));
    let mut inner = String::from_str("(");
    inner.append(join_strings(&marks, ", ").as_str());
    inner.append(")");
    assert(inner@ =~= tuple_text(values_per_tuple as nat));
    let all = copies_of(inner.as_str(), tuples);
    assert(views_of(all@) =~= Seq::new(
        tuples as nat,
        |i: int| tuple_text(values_per_tuple as nat),
    ));
    join_strings(&all, ", ")
}

} // verus!
