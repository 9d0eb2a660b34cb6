//! The store as it is first opened: the core schema, and the first
//! transaction.
//!
//! The core schema names the attributes that hold the ident of an entity,
//! the instant of a transaction and the properties of attributes, and the
//! entities that stand for the types of values, the cardinalities, the
//! kinds of uniqueness and the partitions. Its entities lie in the
//! partition of the system.

use vstd::pervasive::unreached;
use vstd::prelude::*;
use crate::db::{
    DbErrorKind, Entid, CORE_SCHEMA_VERSION,
    DB_CARDINALITY, DB_CARDINALITY_MANY, DB_CARDINALITY_ONE, DB_FULLTEXT, DB_IDENT, DB_INDEX,
    DB_IS_COMPONENT, DB_NO_HISTORY, DB_SCHEMA_CORE, DB_TX_INSTANT, DB_TYPE_BOOLEAN, DB_TYPE_BYTES,
    DB_TYPE_DOUBLE, DB_TYPE_INSTANT, DB_TYPE_KEYWORD, DB_TYPE_LONG, DB_TYPE_REF, DB_TYPE_STRING,
    DB_TYPE_UUID, DB_UNIQUE, DB_UNIQUE_IDENTITY, DB_UNIQUE_VALUE, DB_VALUE_TYPE, TX0, USER0,
};
use crate::schema::{
    entid_position, ident_position, lemma_entid_position, lemma_ident_position, Attribute, Schema,
    SchemaView, Unique,
};
use crate::edn::entities::OpType;
use crate::partition::{Partition, PartitionMap, PartitionView};
use crate::symbols::{Keyword, NameView};
use crate::transactor::model::{
    applied_all, asserted, defines_tx_instant, first_match, instant_datom, is_allocated,
    lemma_first_match, schema_allocated, transacted, with_instant, DatomView, ProbeKind,
    ReportView, Step, StoreView, TermView,
};
use crate::transactor::store::{terms_view, Store, Term, TxReport};
use crate::values::{TypedValue, TypedValueView, ValueType};

verus! {

/// The number of idents of the core schema.
pub const CORE_IDENTS: usize = 26;

/// The number of attributes of the core schema.
pub const CORE_ATTRIBUTES: usize = 10;

/// The idents of the core schema, in the order of their entities.
pub open spec fn core_ident(i: int) -> NameView {
    if i == 0 {
        NameView { namespace: Some("db"@), name: "ident"@ }
    } else if i == 1 {
        NameView { namespace: Some("db.part"@), name: "db"@ }
    } else if i == 2 {
        NameView { namespace: Some("db"@), name: "txInstant"@ }
    } else if i == 3 {
        NameView { namespace: Some("db"@), name: "valueType"@ }
    } else if i == 4 {
        NameView { namespace: Some("db"@), name: "cardinality"@ }
    } else if i == 5 {
        NameView { namespace: Some("db"@), name: "unique"@ }
    } else if i == 6 {
        NameView { namespace: Some("db"@), name: "isComponent"@ }
    } else if i == 7 {
        NameView { namespace: Some("db"@), name: "index"@ }
    } else if i == 8 {
        NameView { namespace: Some("db"@), name: "fulltext"@ }
    } else if i == 9 {
        NameView { namespace: Some("db"@), name: "noHistory"@ }
    } else if i == 10 {
        NameView { namespace: Some("db.part"@), name: "user"@ }
    } else if i == 11 {
        NameView { namespace: Some("db.part"@), name: "tx"@ }
    } else if i == 12 {
        NameView { namespace: Some("db.type"@), name: "ref"@ }
    } else if i == 13 {
        NameView { namespace: Some("db.type"@), name: "keyword"@ }
    } else if i == 14 {
        NameView { namespace: Some("db.type"@), name: "long"@ }
    } else if i == 15 {
        NameView { namespace: Some("db.type"@), name: "double"@ }
    } else if i == 16 {
        NameView { namespace: Some("db.type"@), name: "string"@ }
    } else if i == 17 {
        NameView { namespace: Some("db.type"@), name: "uuid"@ }
    } else if i == 18 {
        NameView { namespace: Some("db.type"@), name: "boolean"@ }
    } else if i == 19 {
        NameView { namespace: Some("db.type"@), name: "instant"@ }
    } else if i == 20 {
        NameView { namespace: Some("db.type"@), name: "bytes"@ }
    } else if i == 21 {
        NameView { namespace: Some("db.cardinality"@), name: "one"@ }
    } else if i == 22 {
        NameView { namespace: Some("db.cardinality"@), name: "many"@ }
    } else if i == 23 {
        NameView { namespace: Some("db.unique"@), name: "value"@ }
    } else if i == 24 {
        NameView { namespace: Some("db.unique"@), name: "identity"@ }
    } else {
        NameView { namespace: Some("db.schema"@), name: "core"@ }
    }
}

/// The entities that the idents of the core schema name.
pub open spec fn core_ident_entid(i: int) -> int {
    if i == 0 {
        DB_IDENT as int
    } else if i == 1 {
        2
    } else if i == 2 {
        DB_TX_INSTANT as int
    } else if i == 3 {
        DB_VALUE_TYPE as int
    } else if i == 4 {
        DB_CARDINALITY as int
    } else if i == 5 {
        DB_UNIQUE as int
    } else if i == 6 {
        DB_IS_COMPONENT as int
    } else if i == 7 {
        DB_INDEX as int
    } else if i == 8 {
        DB_FULLTEXT as int
    } else if i == 9 {
        DB_NO_HISTORY as int
    } else if i == 10 {
        16
    } else if i == 11 {
        17
    } else if i == 12 {
        DB_TYPE_REF as int
    } else if i == 13 {
        DB_TYPE_KEYWORD as int
    } else if i == 14 {
        DB_TYPE_LONG as int
    } else if i == 15 {
        DB_TYPE_DOUBLE as int
    } else if i == 16 {
        DB_TYPE_STRING as int
    } else if i == 17 {
        DB_TYPE_UUID as int
    } else if i == 18 {
        DB_TYPE_BOOLEAN as int
    } else if i == 19 {
        DB_TYPE_INSTANT as int
    } else if i == 20 {
        DB_TYPE_BYTES as int
    } else if i == 21 {
        DB_CARDINALITY_ONE as int
    } else if i == 22 {
        DB_CARDINALITY_MANY as int
    } else if i == 23 {
        DB_UNIQUE_VALUE as int
    } else if i == 24 {
        DB_UNIQUE_IDENTITY as int
    } else {
        DB_SCHEMA_CORE as int
    }
}

/// The entities that define the attributes of the core schema.
pub open spec fn core_attribute_entid(i: int) -> int {
    if i == 0 {
        DB_IDENT as int
    } else if i == 1 {
        DB_TX_INSTANT as int
    } else if i == 2 {
        DB_VALUE_TYPE as int
    } else if i == 3 {
        DB_CARDINALITY as int
    } else if i == 4 {
        DB_UNIQUE as int
    } else if i == 5 {
        DB_IS_COMPONENT as int
    } else if i == 6 {
        DB_INDEX as int
    } else if i == 7 {
        DB_FULLTEXT as int
    } else if i == 8 {
        DB_NO_HISTORY as int
    } else {
        DB_SCHEMA_CORE as int
    }
}

/// The attributes of the core schema: the ident of an entity is a
/// keyword that identifies it, the instant of a transaction is indexed,
/// and every attribute has cardinality one.
pub open spec fn core_attribute(i: int) -> Attribute {
    Attribute {
        value_type: core_value_type(i),
        multival: false,
        unique: if i == 0 {
            Some(Unique::Identity)
        } else {
            None
        },
        index: i == 0 || i == 1,
        fulltext: false,
        component: false,
        no_history: false,
    }
}

/// The types of the values of the attributes of the core schema.
pub open spec fn core_value_type(i: int) -> ValueType {
    if i == 0 {
        ValueType::Keyword
    } else if i == 1 {
        ValueType::Instant
    } else if i == 2 {
        ValueType::Ref
    } else if i == 3 {
        ValueType::Ref
    } else if i == 4 {
        ValueType::Ref
    } else if i == 5 {
        ValueType::Boolean
    } else if i == 6 {
        ValueType::Boolean
    } else if i == 7 {
        ValueType::Boolean
    } else if i == 8 {
        ValueType::Boolean
    } else {
        ValueType::Long
    }
}

/// What the core schema holds.
pub open spec fn core_schema_view() -> SchemaView {
    SchemaView {
        entids: Seq::new(CORE_ATTRIBUTES as nat, |i: int| core_attribute_entid(i)),
        attributes: Seq::new(CORE_ATTRIBUTES as nat, |i: int| core_attribute(i)),
        idents: Seq::new(CORE_IDENTS as nat, |i: int| core_ident(i)),
        ident_entids: Seq::new(CORE_IDENTS as nat, |i: int| core_ident_entid(i)),
    }
}

/// What tells the idents of the core schema apart: the length of the
/// namespace and its fourth character, and the length of the name and its
/// first two characters.
pub open spec fn mark(k: NameView) -> (nat, char, nat, char, char) {
    let ns = k.namespace.unwrap();
    (
        ns.len(),
        if ns.len() > 3 {
            ns[3]
        } else {
            ' '
        },
        k.name.len(),
        k.name[0],
        k.name[1],
    )
}

/// The marks of the idents of the core schema.
pub open spec fn core_mark(i: int) -> (nat, char, nat, char, char) {
    if i == 0 {
        (2nat, ' ', 5nat, 'i', 'd')
    } else if i == 1 {
        (7nat, 'p', 2nat, 'd', 'b')
    } else if i == 2 {
        (2nat, ' ', 9nat, 't', 'x')
    } else if i == 3 {
        (2nat, ' ', 9nat, 'v', 'a')
    } else if i == 4 {
        (2nat, ' ', 11nat, 'c', 'a')
    } else if i == 5 {
        (2nat, ' ', 6nat, 'u', 'n')
    } else if i == 6 {
        (2nat, ' ', 11nat, 'i', 's')
    } else if i == 7 {
        (2nat, ' ', 5nat, 'i', 'n')
    } else if i == 8 {
        (2nat, ' ', 8nat, 'f', 'u')
    } else if i == 9 {
        (2nat, ' ', 9nat, 'n', 'o')
    } else if i == 10 {
        (7nat, 'p', 4nat, 'u', 's')
    } else if i == 11 {
        (7nat, 'p', 2nat, 't', 'x')
    } else if i == 12 {
        (7nat, 't', 3nat, 'r', 'e')
    } else if i == 13 {
        (7nat, 't', 7nat, 'k', 'e')
    } else if i == 14 {
        (7nat, 't', 4nat, 'l', 'o')
    } else if i == 15 {
        (7nat, 't', 6nat, 'd', 'o')
    } else if i == 16 {
        (7nat, 't', 6nat, 's', 't')
    } else if i == 17 {
        (7nat, 't', 4nat, 'u', 'u')
    } else if i == 18 {
        (7nat, 't', 7nat, 'b', 'o')
    } else if i == 19 {
        (7nat, 't', 7nat, 'i', 'n')
    } else if i == 20 {
        (7nat, 't', 5nat, 'b', 'y')
    } else if i == 21 {
        (14nat, 'c', 3nat, 'o', 'n')
    } else if i == 22 {
        (14nat, 'c', 4nat, 'm', 'a')
    } else if i == 23 {
        (9nat, 'u', 5nat, 'v', 'a')
    } else if i == 24 {
        (9nat, 'u', 8nat, 'i', 'd')
    } else {
        (9nat, 's', 4nat, 'c', 'o')
    }
}

/// Each ident of the core schema has its mark.
pub proof fn lemma_core_marks(i: int)
    requires
        0 <= i < CORE_IDENTS,
    ensures
        mark(core_ident(i)) == core_mark(i),
{
    reveal_strlit("db");
    reveal_strlit("ident");
    reveal_strlit("db.part");
    reveal_strlit("txInstant");
    reveal_strlit("valueType");
    reveal_strlit("cardinality");
    reveal_strlit("unique");
    reveal_strlit("isComponent");
    reveal_strlit("index");
    reveal_strlit("fulltext");
    reveal_strlit("noHistory");
    reveal_strlit("user");
    reveal_strlit("tx");
    reveal_strlit("db.type");
    reveal_strlit("ref");
    reveal_strlit("keyword");
    reveal_strlit("long");
    reveal_strlit("double");
    reveal_strlit("string");
    reveal_strlit("uuid");
    reveal_strlit("boolean");
    reveal_strlit("instant");
    reveal_strlit("bytes");
    reveal_strlit("db.cardinality");
    reveal_strlit("one");
    reveal_strlit("many");
    reveal_strlit("db.unique");
    reveal_strlit("value");
    reveal_strlit("identity");
    reveal_strlit("db.schema");
    reveal_strlit("core");
}

/// No two idents of the core schema are the same.
pub proof fn lemma_core_idents_differ()
    ensures
        forall|i: int, j: int|
            0 <= i < j < CORE_IDENTS ==> #[trigger] core_ident(i) != #[trigger] core_ident(j),
{
    assert forall|i: int, j: int| 0 <= i < j < CORE_IDENTS implies #[trigger] core_ident(i)
        != #[trigger] core_ident(j) by {
        lemma_core_marks(i);
        lemma_core_marks(j);
        assert(core_mark(i) != core_mark(j));
    }
}

/// The entities of the core schema lie in the partition of the system
/// and come in rising order.
pub proof fn lemma_core_entids_rise()
    ensures
        forall|i: int| 0 <= i < CORE_IDENTS ==> 0 < #[trigger] core_ident_entid(i) < USER0,
        forall|i: int, j: int|
            0 <= i < j < CORE_IDENTS ==> #[trigger] core_ident_entid(i) < #[trigger] core_ident_entid(
                j,
            ),
        forall|i: int| 0 <= i < CORE_ATTRIBUTES ==> 0 < #[trigger] core_attribute_entid(i) < USER0,
        forall|i: int, j: int|
            0 <= i < j < CORE_ATTRIBUTES ==> #[trigger] core_attribute_entid(i)
                < #[trigger] core_attribute_entid(j),
{
}

/// The core schema is in order; each of its idents names its entity, and
/// each of its attributes is defined at its entity.
pub proof fn lemma_core_schema()
    ensures
        core_schema_view().well_formed(),
        forall|i: int|
            0 <= i < CORE_IDENTS ==> core_schema_view().entid_of(#[trigger] core_ident(i)) == Some(
                core_ident_entid(i),
            ),
        forall|i: int|
            0 <= i < CORE_ATTRIBUTES ==> core_schema_view().attribute_of(
                #[trigger] core_attribute_entid(i),
            ) == Some(core_attribute(i)),
        defines_tx_instant(core_schema_view()),
        schema_allocated(core_schema_view(), USER0 as int, TX0 as int),
{
    let s = core_schema_view();
    lemma_core_idents_differ();
    lemma_core_entids_rise();
    assert forall|i: int| 0 <= i < CORE_IDENTS implies s.entid_of(#[trigger] core_ident(i))
        == Some(core_ident_entid(i)) by {
        lemma_ident_position(s.idents, core_ident(i));
        let at = ident_position(s.idents, core_ident(i));
        assert(s.idents[i] == core_ident(i));
        if at < i {
            assert(s.idents[at] == core_ident(at));
        }
    }
    assert forall|i: int| 0 <= i < CORE_ATTRIBUTES implies s.attribute_of(
        #[trigger] core_attribute_entid(i),
    ) == Some(core_attribute(i)) by {
        lemma_entid_position(s.entids, core_attribute_entid(i));
        let at = entid_position(s.entids, core_attribute_entid(i));
        assert(s.entids[i] == core_attribute_entid(i));
        if at < i {
            assert(s.entids[at] == core_attribute_entid(at));
        }
    }
    assert(core_attribute_entid(1) == DB_TX_INSTANT);
}

/// An ident of the core schema.
pub fn core_keyword(i: usize) -> (r: Keyword)
    requires
        i < CORE_IDENTS,
    ensures
        r@ == core_ident(i as int),
{
    proof {
        reveal_strlit("db");
        reveal_strlit("ident");
        reveal_strlit("db.part");
        reveal_strlit("txInstant");
        reveal_strlit("valueType");
        reveal_strlit("cardinality");
        reveal_strlit("unique");
        reveal_strlit("isComponent");
        reveal_strlit("index");
        reveal_strlit("fulltext");
        reveal_strlit("noHistory");
        reveal_strlit("user");
        reveal_strlit("tx");
        reveal_strlit("db.type");
        reveal_strlit("ref");
        reveal_strlit("keyword");
        reveal_strlit("long");
        reveal_strlit("double");
        reveal_strlit("string");
        reveal_strlit("uuid");
        reveal_strlit("boolean");
        reveal_strlit("instant");
        reveal_strlit("bytes");
        reveal_strlit("db.cardinality");
        reveal_strlit("one");
        reveal_strlit("many");
        reveal_strlit("db.unique");
        reveal_strlit("value");
        reveal_strlit("identity");
        reveal_strlit("db.schema");
        reveal_strlit("core");
    }
    if i == 0 {
        Keyword::namespaced("db", "ident")
    } else if i == 1 {
        Keyword::namespaced("db.part", "db")
    } else if i == 2 {
        Keyword::namespaced("db", "txInstant")
    } else if i == 3 {
        Keyword::namespaced("db", "valueType")
    } else if i == 4 {
        Keyword::namespaced("db", "cardinality")
    } else if i == 5 {
        Keyword::namespaced("db", "unique")
    } else if i == 6 {
        Keyword::namespaced("db", "isComponent")
    } else if i == 7 {
        Keyword::namespaced("db", "index")
    } else if i == 8 {
        Keyword::namespaced("db", "fulltext")
    } else if i == 9 {
        Keyword::namespaced("db", "noHistory")
    } else if i == 10 {
        Keyword::namespaced("db.part", "user")
    } else if i == 11 {
        Keyword::namespaced("db.part", "tx")
    } else if i == 12 {
        Keyword::namespaced("db.type", "ref")
    } else if i == 13 {
        Keyword::namespaced("db.type", "keyword")
    } else if i == 14 {
        Keyword::namespaced("db.type", "long")
    } else if i == 15 {
        Keyword::namespaced("db.type", "double")
    } else if i == 16 {
        Keyword::namespaced("db.type", "string")
    } else if i == 17 {
        Keyword::namespaced("db.type", "uuid")
    } else if i == 18 {
        Keyword::namespaced("db.type", "boolean")
    } else if i == 19 {
        Keyword::namespaced("db.type", "instant")
    } else if i == 20 {
        Keyword::namespaced("db.type", "bytes")
    } else if i == 21 {
        Keyword::namespaced("db.cardinality", "one")
    } else if i == 22 {
        Keyword::namespaced("db.cardinality", "many")
    } else if i == 23 {
        Keyword::namespaced("db.unique", "value")
    } else if i == 24 {
        Keyword::namespaced("db.unique", "identity")
    } else {
        Keyword::namespaced("db.schema", "core")
    }
}

/// The entity that an ident of the core schema names.
pub fn core_entid(i: usize) -> (r: i64)
    requires
        i < CORE_IDENTS,
    ensures
        r == core_ident_entid(i as int),
{
    if i == 0 {
        DB_IDENT
    } else if i == 1 {
        2
    } else if i == 2 {
        DB_TX_INSTANT
    } else if i == 3 {
        DB_VALUE_TYPE
    } else if i == 4 {
        DB_CARDINALITY
    } else if i == 5 {
        DB_UNIQUE
    } else if i == 6 {
        DB_IS_COMPONENT
    } else if i == 7 {
        DB_INDEX
    } else if i == 8 {
        DB_FULLTEXT
    } else if i == 9 {
        DB_NO_HISTORY
    } else if i == 10 {
        16
    } else if i == 11 {
        17
    } else if i == 12 {
        DB_TYPE_REF
    } else if i == 13 {
        DB_TYPE_KEYWORD
    } else if i == 14 {
        DB_TYPE_LONG
    } else if i == 15 {
        DB_TYPE_DOUBLE
    } else if i == 16 {
        DB_TYPE_STRING
    } else if i == 17 {
        DB_TYPE_UUID
    } else if i == 18 {
        DB_TYPE_BOOLEAN
    } else if i == 19 {
        DB_TYPE_INSTANT
    } else if i == 20 {
        DB_TYPE_BYTES
    } else if i == 21 {
        DB_CARDINALITY_ONE
    } else if i == 22 {
        DB_CARDINALITY_MANY
    } else if i == 23 {
        DB_UNIQUE_VALUE
    } else if i == 24 {
        DB_UNIQUE_IDENTITY
    } else {
        DB_SCHEMA_CORE
    }
}

/// An attribute of the core schema, with the entity that defines it.
pub fn core_definition(i: usize) -> (r: (i64, Attribute))
    requires
        i < CORE_ATTRIBUTES,
    ensures
        r.0 == core_attribute_entid(i as int),
        r.1 == core_attribute(i as int),
{
    let value_type =     if i == 0 {
        ValueType::Keyword
    } else if i == 1 {
        ValueType::Instant
    } else if i == 2 {
        ValueType::Ref
    } else if i == 3 {
        ValueType::Ref
    } else if i == 4 {
        ValueType::Ref
    } else if i == 5 {
        ValueType::Boolean
    } else if i == 6 {
        ValueType::Boolean
    } else if i == 7 {
        ValueType::Boolean
    } else if i == 8 {
        ValueType::Boolean
    } else {
        ValueType::Long
    };
    let entid: i64 =     if i == 0 {
        DB_IDENT
    } else if i == 1 {
        DB_TX_INSTANT
    } else if i == 2 {
        DB_VALUE_TYPE
    } else if i == 3 {
        DB_CARDINALITY
    } else if i == 4 {
        DB_UNIQUE
    } else if i == 5 {
        DB_IS_COMPONENT
    } else if i == 6 {
        DB_INDEX
    } else if i == 7 {
        DB_FULLTEXT
    } else if i == 8 {
        DB_NO_HISTORY
    } else {
        DB_SCHEMA_CORE
    };
    (
        entid,
        Attribute {
            value_type,
            multival: false,
            unique: if i == 0 {
                Some(Unique::Identity)
            } else {
                None
            },
            index: i == 0 || i == 1,
            fulltext: false,
            component: false,
            no_history: false,
        },
    )
}

/// The core schema; see [`core_schema_view`].
pub fn core_schema() -> (r: Schema)
    ensures
        r@ == core_schema_view(),
        r@.well_formed(),
        defines_tx_instant(r@),
        schema_allocated(r@, USER0 as int, TX0 as int),
{
    let mut schema = Schema::new();
    proof {
        lemma_core_schema();
        lemma_core_idents_differ();
        lemma_core_entids_rise();
        assert(schema@.entids =~= Seq::new(0, |i: int| core_attribute_entid(i)));
        assert(schema@.idents =~= Seq::new(0, |i: int| core_ident(i)));
    }
    let mut k: usize = 0;
    while k < CORE_ATTRIBUTES
        invariant
            k <= CORE_ATTRIBUTES,
            schema@.well_formed(),
            schema@.entids == Seq::new(k as nat, |i: int| core_attribute_entid(i)),
            schema@.attributes == Seq::new(k as nat, |i: int| core_attribute(i)),
            schema@.idents.len() == 0,
            schema@.ident_entids.len() == 0,
        decreases CORE_ATTRIBUTES - k,
    {
        let (entid, attribute) = core_definition(k);
        proof {
            lemma_core_entids_rise();
            lemma_entid_position(schema@.entids, entid as int);
            let at = entid_position(schema@.entids, entid as int);
            if at < k {
                assert(schema@.entids[at] == core_attribute_entid(at));
            }
        }
        let ghost before = schema@;
        let defined = schema.define_attribute(entid, attribute);
        proof {
            assert(defined);
            assert(schema@.entids =~= Seq::new((k + 1) as nat, |i: int| core_attribute_entid(i)));
            assert(schema@.attributes =~= Seq::new((k + 1) as nat, |i: int| core_attribute(i)));
        }
        k += 1;
    }
    let mut i: usize = 0;
    proof {
        assert(schema@.idents =~= Seq::new(0, |i: int| core_ident(i)));
        assert(schema@.ident_entids =~= Seq::new(0, |i: int| core_ident_entid(i)));
    }
    while i < CORE_IDENTS
        invariant
            i <= CORE_IDENTS,
            schema@.well_formed(),
            schema@.entids == core_schema_view().entids,
            schema@.attributes == core_schema_view().attributes,
            schema@.idents == Seq::new(i as nat, |j: int| core_ident(j)),
            schema@.ident_entids == Seq::new(i as nat, |j: int| core_ident_entid(j)),
        decreases CORE_IDENTS - i,
    {
        let ident = core_keyword(i);
        let entid = core_entid(i);
        proof {
            lemma_core_idents_differ();
            lemma_core_entids_rise();
            lemma_ident_position(schema@.idents, ident@);
            lemma_entid_position(schema@.ident_entids, entid as int);
            let at = ident_position(schema@.idents, ident@);
            if at < i {
                assert(schema@.idents[at] == core_ident(at));
            }
            let held = entid_position(schema@.ident_entids, entid as int);
            if held < i {
                assert(schema@.ident_entids[held] == core_ident_entid(held));
            }
        }
        let named = schema.add_ident(ident, entid);
        proof {
            assert(named);
            assert(schema@.idents =~= Seq::new((i + 1) as nat, |j: int| core_ident(j)));
            assert(schema@.ident_entids =~= Seq::new((i + 1) as nat, |j: int| core_ident_entid(j)));
        }
        i += 1;
    }
    proof {
        assert(schema@.entids =~= core_schema_view().entids);
        assert(schema@.idents =~= core_schema_view().idents);
        assert(schema@.ident_entids =~= core_schema_view().ident_entids);
    }
    schema
}

/// The entity of the core schema that names a type of values.
pub open spec fn type_entid(value_type: ValueType) -> int {
    match value_type {
        ValueType::Ref => DB_TYPE_REF as int,
        ValueType::Keyword => DB_TYPE_KEYWORD as int,
        ValueType::Long => DB_TYPE_LONG as int,
        ValueType::Double => DB_TYPE_DOUBLE as int,
        ValueType::String => DB_TYPE_STRING as int,
        ValueType::Uuid => DB_TYPE_UUID as int,
        ValueType::Boolean => DB_TYPE_BOOLEAN as int,
        ValueType::Instant => DB_TYPE_INSTANT as int,
        ValueType::Bytes => DB_TYPE_BYTES as int,
    }
}

/// The entity of the core schema that names a type of values.
pub fn entid_of_type(value_type: ValueType) -> (r: i64)
    ensures
        r == type_entid(value_type),
{
    match value_type {
        ValueType::Ref => DB_TYPE_REF,
        ValueType::Keyword => DB_TYPE_KEYWORD,
        ValueType::Long => DB_TYPE_LONG,
        ValueType::Double => DB_TYPE_DOUBLE,
        ValueType::String => DB_TYPE_STRING,
        ValueType::Uuid => DB_TYPE_UUID,
        ValueType::Boolean => DB_TYPE_BOOLEAN,
        ValueType::Instant => DB_TYPE_INSTANT,
        ValueType::Bytes => DB_TYPE_BYTES,
    }
}

/// The number of terms that write the core schema.
pub const CORE_TERMS: usize = 50;

/// The terms that write the core schema: the ident of each of its
/// entities; the type of values and the cardinality of each of its
/// attributes; that the ident is indexed and identifies its entity; that
/// the instant of a transaction is indexed; and, about the first
/// transaction, the version of the core schema.
pub open spec fn core_term(i: int) -> TermView {
    if i < 26 {
        TermView {
            op: OpType::Add,
            e: core_ident_entid(i) as Entid,
            a: DB_IDENT,
            v: TypedValueView::Keyword(core_ident(i)),
        }
    } else if i < 36 {
        TermView {
            op: OpType::Add,
            e: core_attribute_entid(i - 26) as Entid,
            a: DB_VALUE_TYPE,
            v: TypedValueView::Ref(type_entid(core_value_type(i - 26))),
        }
    } else if i < 46 {
        TermView {
            op: OpType::Add,
            e: core_attribute_entid(i - 36) as Entid,
            a: DB_CARDINALITY,
            v: TypedValueView::Ref(DB_CARDINALITY_ONE as int),
        }
    } else if i == 46 {
        TermView { op: OpType::Add, e: DB_IDENT, a: DB_INDEX, v: TypedValueView::Boolean(true) }
    } else if i == 47 {
        TermView {
            op: OpType::Add,
            e: DB_IDENT,
            a: DB_UNIQUE,
            v: TypedValueView::Ref(DB_UNIQUE_IDENTITY as int),
        }
    } else if i == 48 {
        TermView {
            op: OpType::Add,
            e: DB_TX_INSTANT,
            a: DB_INDEX,
            v: TypedValueView::Boolean(true),
        }
    } else {
        TermView {
            op: OpType::Add,
            e: TX0,
            a: DB_SCHEMA_CORE,
            v: TypedValueView::Long(CORE_SCHEMA_VERSION as int),
        }
    }
}

/// The terms that write the core schema, in their order.
pub open spec fn core_terms() -> Seq<TermView> {
    Seq::new(CORE_TERMS as nat, |i: int| core_term(i))
}

/// The datom that a term of the core schema writes.
pub open spec fn core_datom(i: int) -> DatomView {
    DatomView {
        e: core_term(i).e,
        a: core_term(i).a,
        v: core_term(i).v,
        tx: TX0,
        added: true,
    }
}

/// The datoms of the core schema, in their order.
pub open spec fn core_datoms() -> Seq<DatomView> {
    Seq::new(CORE_TERMS as nat, |i: int| core_datom(i))
}

/// Each term of the core schema is about an entity that is allocated
/// and holds a value of the type of its attribute, which has cardinality
/// one and is not unique unless it is the ident.
pub proof fn lemma_core_term_fits(i: int)
    requires
        0 <= i < CORE_TERMS,
    ensures
        core_schema_view().attribute_of(core_term(i).a as int) is Some,
        core_schema_view().attribute_of(core_term(i).a as int)->0.value_type == core_term(
            i,
        ).v.value_type(),
        !core_schema_view().attribute_of(core_term(i).a as int)->0.multival,
        core_schema_view().attribute_of(core_term(i).a as int)->0.unique is Some ==> core_term(
            i,
        ).a == DB_IDENT,
        is_allocated(core_term(i).e, USER0 as int, TX0 + 1),
{
    lemma_core_schema();
    lemma_core_entids_rise();
    assert(core_attribute_entid(0) == DB_IDENT);
    assert(core_attribute_entid(2) == DB_VALUE_TYPE);
    assert(core_attribute_entid(3) == DB_CARDINALITY);
    assert(core_attribute_entid(4) == DB_UNIQUE);
    assert(core_attribute_entid(6) == DB_INDEX);
    assert(core_attribute_entid(9) == DB_SCHEMA_CORE);
    if i < 26 {
        assert(0 < core_ident_entid(i) < USER0);
    } else if i < 36 {
        assert(0 < core_attribute_entid(i - 26) < USER0);
    } else if i < 46 {
        assert(0 < core_attribute_entid(i - 36) < USER0);
    }
}

/// No two terms of the core schema are about the same attribute of the
/// same entity, and no two give the same ident.
pub proof fn lemma_core_terms_differ(j: int, k: int)
    requires
        0 <= j < k < CORE_TERMS,
    ensures
        core_term(j).e != core_term(k).e || core_term(j).a != core_term(k).a,
        core_term(j).a == DB_IDENT && core_term(k).a == DB_IDENT ==> core_term(j).v != core_term(
            k,
        ).v,
{
    lemma_core_entids_rise();
    lemma_core_idents_differ();
    if k < 26 {
        assert(core_ident_entid(j) < core_ident_entid(k));
        assert(core_ident(j) != core_ident(k));
    } else if 26 <= j && k < 36 {
        assert(core_attribute_entid(j - 26) < core_attribute_entid(k - 26));
    } else if 36 <= j && k < 46 {
        assert(core_attribute_entid(j - 36) < core_attribute_entid(k - 36));
    }
}

/// The terms of the core schema from `k` on, applied to the datoms that
/// the terms before them wrote, write the datoms of the core schema.
pub proof fn lemma_core_terms_apply(k: int)
    requires
        0 <= k <= CORE_TERMS,
    ensures
        applied_all(
            core_schema_view(),
            Step { datoms: core_datoms().take(k), written: core_datoms().take(k) },
            USER0 as int,
            TX0,
            core_terms().skip(k),
        ) == Ok::<Step, DbErrorKind>(Step { datoms: core_datoms(), written: core_datoms() }),
    decreases CORE_TERMS - k,
{
    let schema = core_schema_view();
    let all = core_datoms();
    let terms = core_terms().skip(k);
    if k == CORE_TERMS {
        assert(terms =~= Seq::empty());
        assert(all.take(k) =~= all);
    } else {
        let term = core_term(k);
        let so_far = all.take(k);
        assert(terms[0] == term);
        lemma_core_term_fits(k);
        lemma_first_match(so_far, ProbeKind::Fact, term.e, term.a, term.v);
        lemma_first_match(so_far, ProbeKind::Holder, term.e, term.a, term.v);
        lemma_first_match(so_far, ProbeKind::Current, term.e, term.a, term.v);
        let fact = first_match(so_far, ProbeKind::Fact, term.e, term.a, term.v);
        let holder = first_match(so_far, ProbeKind::Holder, term.e, term.a, term.v);
        let current = first_match(so_far, ProbeKind::Current, term.e, term.a, term.v);
        if fact < k {
            assert(so_far[fact] == core_datom(fact));
            lemma_core_terms_differ(fact, k);
        }
        if current < k {
            assert(so_far[current] == core_datom(current));
            lemma_core_terms_differ(current, k);
        }
        if holder < k && term.a == DB_IDENT {
            assert(so_far[holder] == core_datom(holder));
            lemma_core_terms_differ(holder, k);
        }
        let new = core_datom(k);
        assert(asserted(schema, so_far, USER0 as int, TX0, term.e, term.a, term.v) == Ok::<
            Step,
            DbErrorKind,
        >(Step { datoms: so_far.push(new), written: seq![new] }));
        assert(so_far.push(new) =~= all.take(k + 1));
        assert(so_far + seq![new] =~= all.take(k + 1));
        assert(terms.drop_first() =~= core_terms().skip(k + 1));
        lemma_core_terms_apply(k + 1);
    }
}

/// The terms that write the core schema; see [`core_terms`].
pub fn core_schema_terms() -> (r: Vec<Term>)
    ensures
        terms_view(r@) == core_terms(),
{
    let mut terms: Vec<Term> = Vec::new();
    let mut i: usize = 0;
    while i < CORE_IDENTS
        invariant
            i <= CORE_IDENTS,
            terms@.len() == i,
            forall|j: int| 0 <= j < i ==> (#[trigger] terms@[j])@ == core_term(j),
        decreases CORE_IDENTS - i,
    {
        let ident = core_keyword(i);
        let entid = core_entid(i);
        terms.push(Term { op: OpType::Add, e: entid, a: DB_IDENT, v: TypedValue::Keyword(ident) });
        i += 1;
    }
    let mut k: usize = 0;
    while k < CORE_ATTRIBUTES
        invariant
            k <= CORE_ATTRIBUTES,
            terms@.len() == 26 + k,
            forall|j: int| 0 <= j < 26 + k ==> (#[trigger] terms@[j])@ == core_term(j),
        decreases CORE_ATTRIBUTES - k,
    {
        let (entid, attribute) = core_definition(k);
        terms.push(
            Term {
                op: OpType::Add,
                e: entid,
                a: DB_VALUE_TYPE,
                v: TypedValue::Ref(entid_of_type(attribute.value_type)),
            },
        );
        k += 1;
    }
    let mut k: usize = 0;
    while k < CORE_ATTRIBUTES
        invariant
            k <= CORE_ATTRIBUTES,
            terms@.len() == 36 + k,
            forall|j: int| 0 <= j < 36 + k ==> (#[trigger] terms@[j])@ == core_term(j),
        decreases CORE_ATTRIBUTES - k,
    {
        let (entid, _) = core_definition(k);
        terms.push(
            Term {
                op: OpType::Add,
                e: entid,
                a: DB_CARDINALITY,
                v: TypedValue::Ref(DB_CARDINALITY_ONE),
            },
        );
        k += 1;
    }
    terms.push(Term { op: OpType::Add, e: DB_IDENT, a: DB_INDEX, v: TypedValue::Boolean(true) });
    terms.push(
        Term { op: OpType::Add, e: DB_IDENT, a: DB_UNIQUE, v: TypedValue::Ref(DB_UNIQUE_IDENTITY) },
    );
    terms.push(
        Term { op: OpType::Add, e: DB_TX_INSTANT, a: DB_INDEX, v: TypedValue::Boolean(true) },
    );
    terms.push(
        Term {
            op: OpType::Add,
            e: TX0,
            a: DB_SCHEMA_CORE,
            v: TypedValue::Long(CORE_SCHEMA_VERSION as i64),
        },
    );
    proof {
        assert(terms_view(terms@) =~= core_terms());
    }
    terms
}

impl Store {
    /// The store as it is first opened, and the report of its first
    /// transaction: the schema is the core schema, and the first
    /// transaction has written the datoms of the core schema and its
    /// instant.
    pub fn open(instant: i64) -> (r: (Store, TxReport))
        ensures
            r.0@.well_formed(),
            r.0@ == (StoreView {
                schema: core_schema_view(),
                datoms: core_datoms().push(instant_datom(TX0, instant)),
                next_user: USER0 as int,
                next_tx: TX0 + 1,
            }),
            r.1@ == (ReportView {
                tx_id: TX0,
                datoms: core_datoms().push(instant_datom(TX0, instant)),
            }),
            r.1.tx_instant == instant,
    {
        let mut store = Store::new(core_schema());
        let terms = core_schema_terms();
        let ghost before = store@;
        proof {
            let start = Step { datoms: before.datoms, written: Seq::empty() };
            assert(core_datoms().take(0) =~= Seq::empty());
            assert(core_terms().skip(0) =~= core_terms());
            lemma_core_terms_apply(0);
            let wrote = Step { datoms: core_datoms(), written: core_datoms() };
            let value = TypedValueView::Instant(instant as int);
            lemma_first_match(core_datoms(), ProbeKind::Current, TX0, DB_TX_INSTANT, value);
            let at = first_match(core_datoms(), ProbeKind::Current, TX0, DB_TX_INSTANT, value);
            if at < CORE_TERMS {
                assert(core_datoms()[at] == core_datom(at));
                lemma_core_term_fits(at);
            }
            assert(with_instant(wrote, TX0, instant) == (Step {
                datoms: core_datoms().push(instant_datom(TX0, instant)),
                written: core_datoms().push(instant_datom(TX0, instant)),
            }));
            assert(transacted(before, core_terms(), instant) is Ok);
        }
        match store.transact(&terms, instant) {
            Ok(report) => (store, report),
            Err(_) => unreached(),
        }
    }

    /// The partitions of the store: that of the system, whose ids are
    /// allocated up to the last entity of the core schema; that of users;
    /// and that of transactions; the latter two with the cursors of the
    /// store.
    pub fn partitions(&self) -> (r: PartitionMap)
        requires
            self@.well_formed(),
        ensures
            r.well_formed(),
            r@ == seq![
                (
                    ":db.part/db"@,
                    PartitionView {
                        start: 0,
                        end: USER0 as int,
                        next: DB_SCHEMA_CORE + 1,
                        allow_excision: false,
                    },
                ),
                (
                    ":db.part/user"@,
                    PartitionView {
                        start: USER0 as int,
                        end: TX0 as int,
                        next: self@.next_user,
                        allow_excision: true,
                    },
                ),
                (
                    ":db.part/tx"@,
                    PartitionView {
                        start: TX0 as int,
                        end: i64::MAX as int,
                        next: self@.next_tx,
                        allow_excision: false,
                    },
                ),
            ],
    {
        proof {
            reveal_strlit(":db.part/db");
            reveal_strlit(":db.part/user");
            reveal_strlit(":db.part/tx");
        }
        let mut map = PartitionMap::new();
        let system = map.insert(
            ":db.part/db",
            Partition::new(0, USER0, DB_SCHEMA_CORE + 1, false),
        );
        assert(system);
        proof {
            assert(map@.len() == 1);
            assert(map@[0].0 == ":db.part/db"@);
            assert(map@[0].1.end == USER0);
        }
        let users = map.insert(
            ":db.part/user",
            Partition::new(USER0, TX0, self.next_user(), true),
        );
        assert(users);
        proof {
            assert(map@.len() == 2);
            assert(map@[0].0 == ":db.part/db"@);
            assert(map@[0].1.end == USER0);
            assert(map@[1].0 == ":db.part/user"@);
            assert(map@[1].1.end == TX0);
            assert(":db.part/tx"@[9] != ":db.part/db"@[9]);
        }
        let transactions = map.insert(
            ":db.part/tx",
            Partition::new(TX0, i64::MAX, self.next_tx(), false),
        );
        assert(transactions);
        proof {
            assert(map@ =~= seq![
                (
                    ":db.part/db"@,
                    PartitionView {
                        start: 0,
                        end: USER0 as int,
                        next: DB_SCHEMA_CORE + 1,
                        allow_excision: false,
                    },
                ),
                (
                    ":db.part/user"@,
                    PartitionView {
                        start: USER0 as int,
                        end: TX0 as int,
                        next: self@.next_user,
                        allow_excision: true,
                    },
                ),
                (
                    ":db.part/tx"@,
                    PartitionView {
                        start: TX0 as int,
                        end: i64::MAX as int,
                        next: self@.next_tx,
                        allow_excision: false,
                    },
                ),
            ]);
        }
        map
    }
}

} // verus!
