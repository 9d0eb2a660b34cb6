//! Attribute definitions and their validation.

use vstd::prelude::*;
use crate::db::Entid;
use crate::symbols::{Keyword, NameView};
use crate::values::ValueType;

verus! {

/// Whether a unique attribute only forbids duplicates or also lets an
/// assertion find the entity that holds the value.
#[derive(Debug, Clone, Copy, PartialEq, Eq, Hash, PartialOrd, Ord, Structural)]
pub enum Unique {
    Value,
    Identity,
}

/// The definition of an attribute.
#[derive(Debug, Clone, Copy, PartialEq, Eq, Hash, PartialOrd, Ord, Structural)]
pub struct Attribute {
    /// The type of the values of the attribute.
    pub value_type: ValueType,
    /// Whether an entity can hold several values: cardinality many.
    pub multival: bool,
    /// Whether the values are unique, and in which way.
    pub unique: Option<Unique>,
    /// Whether the values are indexed.
    pub index: bool,
    /// Whether the values are indexed as full text.
    pub fulltext: bool,
    /// Whether retracting the attribute retracts the entity it refers to.
    pub component: bool,
    /// Whether only the current value is kept.
    pub no_history: bool,
}

/// Why an attribute definition is refused.
#[derive(Debug, Clone, Copy, PartialEq, Eq, Structural)]
pub enum AttributeFault {
    /// Cardinality many together with unique identity.
    ManyWithUniqueIdentity,
    /// Unique without an index.
    UniqueWithoutIndex,
    /// Full text on values that are not strings.
    FulltextOnNonString,
    /// Full text without an index.
    FulltextWithoutIndex,
    /// Component on values that are not references.
    ComponentOnNonRef,
}

impl Attribute {
    /// The first rule that the definition breaks, if it breaks one.
    pub open spec fn fault(self) -> Option<AttributeFault> {
        if self.multival && self.unique == Some(Unique::Identity) {
            Some(AttributeFault::ManyWithUniqueIdentity)
        } else if self.unique is Some && !self.index {
            Some(AttributeFault::UniqueWithoutIndex)
        } else if self.fulltext && self.value_type != ValueType::String {
            Some(AttributeFault::FulltextOnNonString)
        } else if self.fulltext && !self.index {
            Some(AttributeFault::FulltextWithoutIndex)
        } else if self.component && self.value_type != ValueType::Ref {
            Some(AttributeFault::ComponentOnNonRef)
        } else {
            None
        }
    }

    /// Whether the definition keeps every rule.
    pub open spec fn valid(self) -> bool {
        &&& !(self.multival && self.unique == Some(Unique::Identity))
        &&& self.unique is Some ==> self.index
        &&& self.fulltext ==> self.value_type == ValueType::String && self.index
        &&& self.component ==> self.value_type == ValueType::Ref
    }

    /// Checks the definition against the rules for attributes.
    pub fn validate(&self) -> (r: Result<(), AttributeFault>)
        ensures
            r is Ok <==> self.valid(),
            r matches Err(fault) ==> self.fault() == Some(fault),
    {
        if self.multival && self.unique == Some(Unique::Identity) {
            return Err(AttributeFault::ManyWithUniqueIdentity);
        }
        if self.unique.is_some() && !self.index {
            return Err(AttributeFault::UniqueWithoutIndex);
        }
        if self.fulltext && self.value_type != ValueType::String {
            return Err(AttributeFault::FulltextOnNonString);
        }
        if self.fulltext && !self.index {
            return Err(AttributeFault::FulltextWithoutIndex);
        }
        if self.component && self.value_type != ValueType::Ref {
            return Err(AttributeFault::ComponentOnNonRef);
        }
        Ok(())
    }
}

/// Collects the properties of an attribute one by one.
#[derive(Debug, Clone, Copy, PartialEq, Eq, Structural)]
pub struct AttributeBuilder {
    pub value_type: Option<ValueType>,
    pub multival: Option<bool>,
    pub unique: Option<Option<Unique>>,
    pub index: Option<bool>,
    pub fulltext: Option<bool>,
    pub component: Option<bool>,
    pub no_history: Option<bool>,
}

impl AttributeBuilder {
    /// A builder that has nothing set.
    pub fn new() -> (r: Self)
        ensures
            r == (AttributeBuilder {
                value_type: None,
                multival: None,
                unique: None,
                index: None,
                fulltext: None,
                component: None,
                no_history: None,
            }),
    {
        AttributeBuilder {
            value_type: None,
            multival: None,
            unique: None,
            index: None,
            fulltext: None,
            component: None,
            no_history: None,
        }
    }

    /// Sets the value type.
    pub fn value_type(self, value_type: ValueType) -> (r: Self)
        ensures
            r == (AttributeBuilder { value_type: Some(value_type), ..self }),
    {
        AttributeBuilder { value_type: Some(value_type), ..self }
    }

    /// Sets the cardinality: many if `multival`, else one.
    pub fn multival(self, multival: bool) -> (r: Self)
        ensures
            r == (AttributeBuilder { multival: Some(multival), ..self }),
    {
        AttributeBuilder { multival: Some(multival), ..self }
    }

    /// Makes the attribute unique in the given way. A unique attribute is
    /// indexed.
    pub fn unique(self, unique: Unique) -> (r: Self)
        ensures
            r == (AttributeBuilder { unique: Some(Some(unique)), index: Some(true), ..self }),
    {
        AttributeBuilder { unique: Some(Some(unique)), index: Some(true), ..self }
    }

    /// Makes the attribute not unique.
    pub fn non_unique(self) -> (r: Self)
        ensures
            r == (AttributeBuilder { unique: Some(None), ..self }),
    {
        AttributeBuilder { unique: Some(None), ..self }
    }

    /// Sets whether the values are indexed.
    pub fn index(self, index: bool) -> (r: Self)
        ensures
            r == (AttributeBuilder { index: Some(index), ..self }),
    {
        AttributeBuilder { index: Some(index), ..self }
    }

    /// Sets whether the values are indexed as full text. A full text
    /// attribute is indexed.
    pub fn fulltext(self, fulltext: bool) -> (r: Self)
        ensures
            r == (AttributeBuilder {
                fulltext: Some(fulltext),
                index: if fulltext {
                    Some(true)
                } else {
                    self.index
                },
                ..self
            }),
    {
        AttributeBuilder {
            fulltext: Some(fulltext),
            index: if fulltext {
                Some(true)
            } else {
                self.index
            },
            ..self
        }
    }

    /// Sets whether the attribute is a component.
    pub fn component(self, component: bool) -> (r: Self)
        ensures
            r == (AttributeBuilder { component: Some(component), ..self }),
    {
        AttributeBuilder { component: Some(component), ..self }
    }

    /// Sets whether only the current value is kept.
    pub fn no_history(self, no_history: bool) -> (r: Self)
        ensures
            r == (AttributeBuilder { no_history: Some(no_history), ..self }),
    {
        AttributeBuilder { no_history: Some(no_history), ..self }
    }

    /// The attribute that the builder describes: what was not set is off,
    /// and the cardinality is one.
    pub open spec fn built(self) -> Option<Attribute> {
        match self.value_type {
            Some(value_type) => Some(
                Attribute {
                    value_type,
                    multival: self.multival == Some(true),
                    unique: match self.unique {
                        Some(u) => u,
                        None => None,
                    },
                    index: self.index == Some(true),
                    fulltext: self.fulltext == Some(true),
                    component: self.component == Some(true),
                    no_history: self.no_history == Some(true),
                },
            ),
            None => None,
        }
    }

    /// Builds the attribute, if a value type was set and the definition
    /// keeps the rules for attributes.
    pub fn build(&self) -> (r: Option<Attribute>)
        ensures
            match r {
                Some(a) => self.built() == Some(a) && a.valid(),
                None => self.built() is None || !self.built()->0.valid(),
            },
    {
        match self.value_type {
            Some(value_type) => {
                let a = Attribute {
                    value_type,
                    multival: self.multival == Some(true),
                    unique: match self.unique {
                        Some(u) => u,
                        None => None,
                    },
                    index: self.index == Some(true),
                    fulltext: self.fulltext == Some(true),
                    component: self.component == Some(true),
                    no_history: self.no_history == Some(true),
                };
                match a.validate() {
                    Ok(_) => Some(a),
                    Err(_) => None,
                }
            },
            None => None,
        }
    }
}

/// The position of the first entry that is `e`, or the number of entries
/// if there is none.
pub open spec fn entid_position(entids: Seq<int>, e: int) -> int
    decreases entids.len(),
{
    if entids.len() == 0 || entids[0] == e {
        0
    } else {
        1 + entid_position(entids.drop_first(), e)
    }
}

/// The position of the first entry that is `ident`, or the number of
/// entries if there is none.
pub open spec fn ident_position(idents: Seq<NameView>, ident: NameView) -> int
    decreases idents.len(),
{
    if idents.len() == 0 || idents[0] == ident {
        0
    } else {
        1 + ident_position(idents.drop_first(), ident)
    }
}

/// The position of an entity id is that of the first entry that is it.
pub proof fn lemma_entid_position(entids: Seq<int>, e: int)
    ensures
        0 <= entid_position(entids, e) <= entids.len(),
        entid_position(entids, e) < entids.len() ==> entids[entid_position(entids, e)] == e,
        forall|i: int| 0 <= i < entid_position(entids, e) ==> entids[i] != e,
    decreases entids.len(),
{
    if entids.len() > 0 && entids[0] != e {
        lemma_entid_position(entids.drop_first(), e);
        assert forall|i: int| 0 <= i < entid_position(entids, e) implies entids[i] != e by {
            if i > 0 {
                assert(entids[i] == entids.drop_first()[i - 1]);
            }
        }
    }
}

/// The position of an ident is that of the first entry that is it.
pub proof fn lemma_ident_position(idents: Seq<NameView>, ident: NameView)
    ensures
        0 <= ident_position(idents, ident) <= idents.len(),
        ident_position(idents, ident) < idents.len() ==> idents[ident_position(idents, ident)]
            == ident,
        forall|i: int| 0 <= i < ident_position(idents, ident) ==> idents[i] != ident,
    decreases idents.len(),
{
    if idents.len() > 0 && idents[0] != ident {
        lemma_ident_position(idents.drop_first(), ident);
        assert forall|i: int| 0 <= i < ident_position(idents, ident) implies idents[i]
            != ident by {
            if i > 0 {
                assert(idents[i] == idents.drop_first()[i - 1]);
            }
        }
    }
}

/// What a [`Schema`] holds: the entity ids that define attributes with
/// their attributes, and the idents with the entities they name. Each
/// pair of lists goes position by position.
pub struct SchemaView {
    pub entids: Seq<int>,
    pub attributes: Seq<Attribute>,
    pub idents: Seq<NameView>,
    pub ident_entids: Seq<int>,
}

impl SchemaView {
    /// The lists of each pair are as long as each other, and no entity
    /// id and no ident stands twice in its list.
    pub open spec fn well_formed(self) -> bool {
        &&& self.entids.len() == self.attributes.len()
        &&& self.idents.len() == self.ident_entids.len()
        &&& forall|i: int, j: int| 0 <= i < j < self.entids.len() ==> self.entids[i] != self.entids[j]
        &&& forall|i: int, j: int| 0 <= i < j < self.idents.len() ==> self.idents[i] != self.idents[j]
        &&& forall|i: int, j: int|
            0 <= i < j < self.ident_entids.len() ==> self.ident_entids[i] != self.ident_entids[j]
    }

    /// The attribute that an entity id defines, if it defines one.
    pub open spec fn attribute_of(self, a: int) -> Option<Attribute> {
        if 0 <= entid_position(self.entids, a) < self.attributes.len() {
            Some(self.attributes[entid_position(self.entids, a)])
        } else {
            None
        }
    }

    /// The entity that an ident names, if it names one.
    pub open spec fn entid_of(self, ident: NameView) -> Option<int> {
        if 0 <= ident_position(self.idents, ident) < self.ident_entids.len() {
            Some(self.ident_entids[ident_position(self.idents, ident)])
        } else {
            None
        }
    }

    /// The ident that names an entity, if one does.
    pub open spec fn ident_of(self, e: int) -> Option<NameView> {
        if 0 <= entid_position(self.ident_entids, e) < self.idents.len() {
            Some(self.idents[entid_position(self.ident_entids, e)])
        } else {
            None
        }
    }

    /// The schema with one more attribute.
    pub open spec fn with_attribute(self, a: int, attribute: Attribute) -> SchemaView {
        SchemaView {
            entids: self.entids.push(a),
            attributes: self.attributes.push(attribute),
            ..self
        }
    }

    /// The schema with another definition of an attribute that it
    /// defines.
    pub open spec fn with_altered(self, a: int, attribute: Attribute) -> SchemaView {
        SchemaView {
            attributes: self.attributes.update(entid_position(self.entids, a), attribute),
            ..self
        }
    }

    /// The schema without an ident.
    pub open spec fn without_ident(self, ident: NameView) -> SchemaView {
        if 0 <= ident_position(self.idents, ident) < self.idents.len() {
            SchemaView {
                idents: self.idents.remove(ident_position(self.idents, ident)),
                ident_entids: self.ident_entids.remove(ident_position(self.idents, ident)),
                ..self
            }
        } else {
            self
        }
    }

    /// The schema with one more ident.
    pub open spec fn with_ident(self, ident: NameView, e: int) -> SchemaView {
        SchemaView {
            idents: self.idents.push(ident),
            ident_entids: self.ident_entids.push(e),
            ..self
        }
    }
}

/// The attributes of a store: their definitions by entity id, and the
/// idents that name entities.
#[derive(Debug, PartialEq, Eq)]
pub struct Schema {
    entids: Vec<Entid>,
    attributes: Vec<Attribute>,
    ident_names: Vec<Keyword>,
    ident_entids: Vec<Entid>,
}

impl View for Schema {
    type V = SchemaView;

    closed spec fn view(&self) -> SchemaView {
        SchemaView {
            entids: Seq::new(self.entids@.len(), |i: int| self.entids@[i] as int),
            attributes: self.attributes@,
            idents: Seq::new(self.ident_names@.len(), |i: int| self.ident_names@[i]@),
            ident_entids: Seq::new(self.ident_entids@.len(), |i: int| self.ident_entids@[i] as int),
        }
    }
}

impl Schema {
    /// A schema without attributes and idents.
    pub fn new() -> (r: Schema)
        ensures
            r@.well_formed(),
            r@.entids.len() == 0,
            r@.idents.len() == 0,
    {
        Schema {
            entids: Vec::new(),
            attributes: Vec::new(),
            ident_names: Vec::new(),
            ident_entids: Vec::new(),
        }
    }

    fn find_entid(list: &Vec<Entid>, e: Entid) -> (r: usize)
        ensures
            r == entid_position(Seq::new(list@.len(), |i: int| list@[i] as int), e as int),
            r <= list@.len(),
    {
        let ghost all = Seq::new(list@.len(), |i: int| list@[i] as int);
        let mut i: usize = 0;
        proof {
            assert(all.skip(0) =~= all);
        }
        while i < list.len()
            invariant
                i <= list@.len(),
                all == Seq::new(list@.len(), |i: int| list@[i] as int),
                entid_position(all, e as int) == i + entid_position(all.skip(i as int), e as int),
            decreases list@.len() - i,
        {
            proof {
                assert(all.skip(i as int)[0] == list@[i as int]);
                assert(all.skip(i as int).drop_first() =~= all.skip(i + 1));
            }
            if list[i] == e {
                return i;
            }
            i += 1;
        }
        proof {
            assert(all.skip(i as int) =~= Seq::empty());
        }
        i
    }

    /// The attribute that an entity id defines, if it defines one.
    pub fn attribute_for_entid(&self, a: Entid) -> (r: Option<Attribute>)
        requires
            self@.well_formed(),
        ensures
            r == self@.attribute_of(a as int),
    {
        let i = Schema::find_entid(&self.entids, a);
        if i < self.attributes.len() {
            Some(self.attributes[i])
        } else {
            None
        }
    }

    /// Defines an attribute, if the definition keeps the rules for
    /// attributes and the entity id defines none yet. Says whether it
    /// did.
    pub fn define_attribute(&mut self, a: Entid, attribute: Attribute) -> (r: bool)
        requires
            old(self)@.well_formed(),
        ensures
            final(self)@.well_formed(),
            r == (attribute.valid() && old(self)@.attribute_of(a as int) is None),
            r ==> final(self)@ == old(self)@.with_attribute(a as int, attribute),
            !r ==> final(self)@ == old(self)@,
    {
        if attribute.validate().is_err() {
            return false;
        }
        if self.attribute_for_entid(a).is_some() {
            return false;
        }
        proof {
            lemma_entid_position(self@.entids, a as int);
        }
        self.entids.push(a);
        self.attributes.push(attribute);
        proof {
            assert(self@.entids =~= old(self)@.entids.push(a as int));
            assert(self@.idents =~= old(self)@.idents);
            assert(self@.ident_entids =~= old(self)@.ident_entids);
        }
        true
    }

    /// Gives an attribute that the schema defines another definition, if
    /// that one keeps the rules for attributes. Says whether it did.
    pub fn alter_attribute(&mut self, a: Entid, attribute: Attribute) -> (r: bool)
        requires
            old(self)@.well_formed(),
        ensures
            final(self)@.well_formed(),
            r == (attribute.valid() && old(self)@.attribute_of(a as int) is Some),
            r ==> final(self)@ == old(self)@.with_altered(a as int, attribute),
            !r ==> final(self)@ == old(self)@,
    {
        if attribute.validate().is_err() {
            return false;
        }
        let i = Schema::find_entid(&self.entids, a);
        if i >= self.attributes.len() {
            return false;
        }
        self.attributes.set(i, attribute);
        proof {
            assert(self@.entids =~= old(self)@.entids);
            assert(self@.idents =~= old(self)@.idents);
            assert(self@.ident_entids =~= old(self)@.ident_entids);
        }
        true
    }

    /// The entity that an ident names, if it names one.
    pub fn get_entid(&self, ident: &Keyword) -> (r: Option<Entid>)
        requires
            self@.well_formed(),
        ensures
            match r {
                Some(e) => self@.entid_of(ident@) == Some(e as int),
                None => self@.entid_of(ident@) is None,
            },
    {
        let ghost all = self@.idents;
        let mut i: usize = 0;
        proof {
            assert(all.skip(0) =~= all);
        }
        while i < self.ident_names.len()
            invariant
                i <= self.ident_names@.len(),
                all == self@.idents,
                self@.well_formed(),
                ident_position(all, ident@) == i + ident_position(all.skip(i as int), ident@),
            decreases self.ident_names@.len() - i,
        {
            proof {
                assert(all.skip(i as int)[0] == self.ident_names@[i as int]@);
                assert(all.skip(i as int).drop_first() =~= all.skip(i + 1));
            }
            if self.ident_names[i].same_as(ident) {
                return Some(self.ident_entids[i]);
            }
            i += 1;
        }
        proof {
            assert(all.skip(i as int) =~= Seq::empty());
        }
        None
    }

    /// The ident that names an entity, if one does.
    pub fn get_ident(&self, e: Entid) -> (r: Option<&Keyword>)
        requires
            self@.well_formed(),
        ensures
            match r {
                Some(ident) => self@.ident_of(e as int) == Some(ident@),
                None => self@.ident_of(e as int) is None,
            },
    {
        let i = Schema::find_entid(&self.ident_entids, e);
        if i < self.ident_names.len() {
            Some(&self.ident_names[i])
        } else {
            None
        }
    }

    /// Takes an ident away, so that it names no entity. Says whether the
    /// ident named one.
    pub fn remove_ident(&mut self, ident: &Keyword) -> (r: bool)
        requires
            old(self)@.well_formed(),
        ensures
            final(self)@.well_formed(),
            r == (old(self)@.entid_of(ident@) is Some),
            final(self)@ == old(self)@.without_ident(ident@),
    {
        let ghost all = self@.idents;
        let mut i: usize = 0;
        proof {
            assert(all.skip(0) =~= all);
        }
        while i < self.ident_names.len()
            invariant
                i <= self.ident_names@.len(),
                all == self@.idents,
                self@.well_formed(),
                *self == *old(self),
                ident_position(all, ident@) == i + ident_position(all.skip(i as int), ident@),
            decreases self.ident_names@.len() - i,
        {
            proof {
                assert(all.skip(i as int)[0] == self.ident_names@[i as int]@);
                assert(all.skip(i as int).drop_first() =~= all.skip(i + 1));
            }
            if self.ident_names[i].same_as(ident) {
                let ghost before = self@;
                self.ident_names.remove(i);
                self.ident_entids.remove(i);
                proof {
                    assert(self@.idents =~= before.idents.remove(i as int));
                    assert(self@.ident_entids =~= before.ident_entids.remove(i as int));
                    assert(self@.entids =~= before.entids);
                }
                return true;
            }
            i += 1;
        }
        proof {
            assert(all.skip(i as int) =~= Seq::empty());
        }
        false
    }

    /// A schema that holds what this one holds.
    pub fn copy(&self) -> (r: Schema)
        ensures
            r@ == self@,
    {
        let mut entids: Vec<Entid> = Vec::new();
        let mut attributes: Vec<Attribute> = Vec::new();
        let mut i: usize = 0;
        while i < self.entids.len()
            invariant
                i <= self.entids@.len(),
                entids@ == self.entids@.subrange(0, i as int),
            decreases self.entids@.len() - i,
        {
            entids.push(self.entids[i]);
            proof {
                assert(entids@ =~= self.entids@.subrange(0, i + 1));
            }
            i += 1;
        }
        let mut i: usize = 0;
        while i < self.attributes.len()
            invariant
                i <= self.attributes@.len(),
                attributes@ == self.attributes@.subrange(0, i as int),
            decreases self.attributes@.len() - i,
        {
            attributes.push(self.attributes[i]);
            proof {
                assert(attributes@ =~= self.attributes@.subrange(0, i + 1));
            }
            i += 1;
        }
        let mut ident_names: Vec<Keyword> = Vec::new();
        let mut i: usize = 0;
        while i < self.ident_names.len()
            invariant
                i <= self.ident_names@.len(),
                ident_names@.len() == i,
                forall|j: int| 0 <= j < i ==> ident_names@[j]@ == self.ident_names@[j]@,
            decreases self.ident_names@.len() - i,
        {
            ident_names.push(self.ident_names[i].clone());
            i += 1;
        }
        let mut ident_entids: Vec<Entid> = Vec::new();
        let mut i: usize = 0;
        while i < self.ident_entids.len()
            invariant
                i <= self.ident_entids@.len(),
                ident_entids@ == self.ident_entids@.subrange(0, i as int),
            decreases self.ident_entids@.len() - i,
        {
            ident_entids.push(self.ident_entids[i]);
            proof {
                assert(ident_entids@ =~= self.ident_entids@.subrange(0, i + 1));
            }
            i += 1;
        }
        let r = Schema { entids, attributes, ident_names, ident_entids };
        proof {
            assert(r.entids@ =~= self.entids@);
            assert(r.attributes@ =~= self.attributes@);
            assert(r.ident_entids@ =~= self.ident_entids@);
            assert(r@.entids =~= self@.entids);
            assert(r@.idents =~= self@.idents);
            assert(r@.ident_entids =~= self@.ident_entids);
        }
        r
    }

    /// Lets an ident name an entity, if the ident names none yet and the
    /// entity has no ident yet. Says whether it did.
    pub fn add_ident(&mut self, ident: Keyword, e: Entid) -> (r: bool)
        requires
            old(self)@.well_formed(),
        ensures
            final(self)@.well_formed(),
            r == (old(self)@.entid_of(ident@) is None && old(self)@.ident_of(e as int) is None),
            r ==> final(self)@ == old(self)@.with_ident(ident@, e as int),
            !r ==> final(self)@ == old(self)@,
    {
        if self.get_entid(&ident).is_some() {
            return false;
        }
        if self.get_ident(e).is_some() {
            return false;
        }
        proof {
            lemma_ident_position(self@.idents, ident@);
            lemma_entid_position(self@.ident_entids, e as int);
        }
        let ghost name = ident@;
        self.ident_names.push(ident);
        self.ident_entids.push(e);
        proof {
            assert(self@.idents =~= old(self)@.idents.push(name));
            assert(self@.ident_entids =~= old(self)@.ident_entids.push(e as int));
            assert(self@.entids =~= old(self)@.entids);
        }
        true
    }
}

/// A schema with another definition of one attribute defines the other
/// attributes as before.
pub proof fn lemma_altered_keeps_others(schema: SchemaView, a: int, attribute: Attribute, b: int)
    requires
        schema.well_formed(),
        schema.attribute_of(a) is Some,
    ensures
        schema.with_altered(a, attribute).well_formed(),
        schema.with_altered(a, attribute).attribute_of(a) == Some(attribute),
        b != a ==> schema.with_altered(a, attribute).attribute_of(b) == schema.attribute_of(b),
{
    lemma_entid_position(schema.entids, a);
    lemma_entid_position(schema.entids, b);
}

/// A schema with one more attribute defines the other attributes as
/// before.
pub proof fn lemma_added_keeps_others(schema: SchemaView, a: int, attribute: Attribute, b: int)
    requires
        schema.well_formed(),
        schema.attribute_of(a) is None,
    ensures
        schema.with_attribute(a, attribute).attribute_of(a) == Some(attribute),
        b != a ==> schema.with_attribute(a, attribute).attribute_of(b) == schema.attribute_of(b),
{
    lemma_entid_position(schema.entids, a);
    lemma_entid_position(schema.entids, b);
    lemma_position_after_push(schema.entids, a, a);
    lemma_position_after_push(schema.entids, a, b);
}

/// The position of an entity id in a list with one more entry: as
/// before if it was there, and that of the new entry if it is that one.
pub proof fn lemma_position_after_push(entids: Seq<int>, new: int, e: int)
    ensures
        entid_position(entids, e) < entids.len() ==> entid_position(entids.push(new), e)
            == entid_position(entids, e),
        entid_position(entids, e) >= entids.len() && e == new ==> entid_position(
            entids.push(new),
            e,
        ) == entids.len(),
        entid_position(entids, e) >= entids.len() && e != new ==> entid_position(
            entids.push(new),
            e,
        ) == entids.len() + 1,
    decreases entids.len(),
{
    lemma_entid_position(entids, e);
    if entids.len() == 0 {
        assert(entids.push(new).drop_first() =~= Seq::<int>::empty());
        assert(entid_position(entids.push(new).drop_first(), e) == 0);
        assert(entids.push(new)[0] == new);
    } else if entids[0] != e {
        assert(entids.push(new).drop_first() =~= entids.drop_first().push(new));
        lemma_position_after_push(entids.drop_first(), new, e);
    }
}

/// Idents and entities go one to one: the ident of the entity that an
/// ident names is that ident.
pub proof fn lemma_idents_one_to_one(schema: SchemaView, ident: NameView)
    requires
        schema.well_formed(),
        schema.entid_of(ident) is Some,
    ensures
        schema.ident_of(schema.entid_of(ident)->0) == Some(ident),
{
    lemma_ident_position(schema.idents, ident);
    let i = ident_position(schema.idents, ident);
    let e = schema.ident_entids[i];
    lemma_entid_position(schema.ident_entids, e);
}

} // verus!
