//! Keywords and symbols: names with an optional namespace.

use vstd::prelude::*;
use vstd::string::StringExecFns;
use crate::text::{chars_of, string_of};

verus! {

/// What a keyword or symbol is made of: an optional namespace and a name.
pub struct NameView {
    pub namespace: Option<Seq<char>>,
    pub name: Seq<char>,
}

impl NameView {
    /// Neither part may be empty.
    pub open spec fn well_formed(self) -> bool {
        &&& self.name.len() > 0
        &&& self.namespace matches Some(ns) ==> ns.len() > 0
    }

    /// The name with its namespace in front, separated by a slash.
    pub open spec fn qualified(self) -> Seq<char> {
        match self.namespace {
            Some(ns) => ns + seq!['/'] + self.name,
            None => self.name,
        }
    }

    /// Whether the name starts with an underscore, which marks the reversed
    /// direction of a reference attribute.
    pub open spec fn is_backward(self) -> bool {
        self.name.len() > 0 && self.name[0] == '_'
    }

    /// The same name in the other direction: a leading underscore of the
    /// name is taken away, or one is put in front.
    pub open spec fn reversed(self) -> NameView {
        if self.is_backward() {
            NameView { namespace: self.namespace, name: self.name.drop_first() }
        } else {
            NameView { namespace: self.namespace, name: seq!['_'] + self.name }
        }
    }
}

/// A keyword such as `:person/name` or `:name`.
#[derive(Debug, PartialEq, Eq, Hash, PartialOrd, Ord)]
pub struct Keyword {
    namespace: Option<String>,
    name: String,
}

impl View for Keyword {
    type V = NameView;

    closed spec fn view(&self) -> NameView {
        NameView {
            namespace: match self.namespace {
                Some(ns) => Some(ns@),
                None => None,
            },
            name: self.name@,
        }
    }
}

impl Clone for Keyword {
    fn clone(&self) -> (r: Self)
        ensures
            r == *self,
    {
        let namespace = match &self.namespace {
            Some(ns) => Some(ns.clone()),
            None => None,
        };
        Keyword { namespace, name: self.name.clone() }
    }
}

impl Keyword {
    /// A keyword without a namespace.
    pub fn plain(name: &str) -> (r: Keyword)
        requires
            name@.len() > 0,
        ensures
            r@ == (NameView { namespace: None, name: name@ }),
            r@.well_formed(),
    {
        Keyword { namespace: None, name: String::from_str(name) }
    }

    /// A keyword with a namespace.
    pub fn namespaced(namespace: &str, name: &str) -> (r: Keyword)
        requires
            namespace@.len() > 0,
            name@.len() > 0,
        ensures
            r@ == (NameView { namespace: Some(namespace@), name: name@ }),
            r@.well_formed(),
    {
        Keyword { namespace: Some(String::from_str(namespace)), name: String::from_str(name) }
    }

    /// Whether two keywords are the same.
    pub fn same_as(&self, other: &Keyword) -> (r: bool)
        ensures
            r == (self@ == other@),
    {
        let same_namespace = match (&self.namespace, &other.namespace) {
            (Some(a), Some(b)) => *a == *b,
            (None, None) => true,
            _ => false,
        };
        same_namespace && self.name == other.name
    }

    /// The name part.
    pub fn name(&self) -> (r: &str)
        ensures
            r@ == self@.name,
    {
        self.name.as_str()
    }

    /// The namespace part, if there is one.
    pub fn namespace(&self) -> (r: Option<&str>)
        ensures
            match r {
                Some(ns) => self@.namespace == Some(ns@),
                None => self@.namespace is None,
            },
    {
        match &self.namespace {
            Some(ns) => Some(ns.as_str()),
            None => None,
        }
    }

    /// Whether the keyword has a namespace.
    pub fn is_namespaced(&self) -> (r: bool)
        ensures
            r == self@.namespace is Some,
    {
        self.namespace.is_some()
    }

    /// Whether the name starts with an underscore.
    pub fn is_backward(&self) -> (r: bool)
        ensures
            r == self@.is_backward(),
    {
        let n = self.name.as_str();
        n.unicode_len() > 0 && n.get_char(0) == '_'
    }

    /// Whether the name does not start with an underscore.
    pub fn is_forward(&self) -> (r: bool)
        ensures
            r == !self@.is_backward(),
    {
        !self.is_backward()
    }

    /// The keyword in the other direction. A keyword whose name is a lone
    /// underscore has no reversed form.
    pub fn to_reversed(&self) -> (r: Keyword)
        requires
            self@.name.len() > 0,
            self@.name != seq!['_'],
        ensures
            r@ == self@.reversed(),
            self@.well_formed() ==> r@.well_formed(),
    {
        let namespace = match &self.namespace {
            Some(ns) => Some(ns.clone()),
            None => None,
        };
        let chars = chars_of(self.name.as_str());
        if chars.len() > 0 && chars[0] == '_' {
            let name = string_of(&chars, 1, chars.len());
            proof {
                assert(name@ =~= self@.name.drop_first());
                if name@.len() == 0 {
                    assert(self@.name =~= seq!['_']);
                }
            }
            Keyword { namespace, name }
        } else {
            let mut name = String::new();
            name.push('_');
            name.append(self.name.as_str());
            proof {
                assert(name@ =~= seq!['_'] + self@.name);
            }
            Keyword { namespace, name }
        }
    }

    /// The forward form of a backward keyword, and nothing for a forward one.
    pub fn unreversed(&self) -> (r: Option<Keyword>)
        requires
            self@.name.len() > 0,
            self@.name != seq!['_'],
        ensures
            match r {
                Some(k) => self@.is_backward() && k@ == self@.reversed(),
                None => !self@.is_backward(),
            },
    {
        if self.is_backward() {
            Some(self.to_reversed())
        } else {
            None
        }
    }

    /// The text of the keyword: a colon, then the namespace and a slash if
    /// there is a namespace, then the name.
    pub fn to_string(&self) -> (r: String)
        ensures
            r@ == seq![':'] + self@.qualified(),
    {
        let mut out = String::new();
        out.push(':');
        match &self.namespace {
            Some(ns) => {
                out.append(ns.as_str());
                out.push('/');
            },
            None => {},
        }
        out.append(self.name.as_str());
        proof {
            assert(out@ =~= seq![':'] + self@.qualified());
        }
        out
    }
}

/// Reversing twice gives the keyword back, unless its name starts with
/// two underscores.
pub proof fn lemma_reversed_twice(k: NameView)
    requires
        k.well_formed(),
        !(k.name.len() >= 2 && k.name[0] == '_' && k.name[1] == '_'),
    ensures
        k.reversed().reversed() == k,
{
    if k.is_backward() {
        assert((seq!['_'] + k.name.drop_first()) =~= k.name);
    } else {
        assert((seq!['_'] + k.name).drop_first() =~= k.name);
    }
}

/// A symbol without a namespace, such as `foo` or `?x`.
#[derive(Debug, PartialEq, Eq, Hash, PartialOrd, Ord)]
pub struct PlainSymbol(pub String);

impl View for PlainSymbol {
    type V = Seq<char>;

    open spec fn view(&self) -> Seq<char> {
        self.0@
    }
}

impl Clone for PlainSymbol {
    fn clone(&self) -> (r: Self)
        ensures
            r == *self,
    {
        PlainSymbol(self.0.clone())
    }
}

impl PlainSymbol {
    /// The symbol with the given name.
    pub fn plain(name: &str) -> (r: PlainSymbol)
        requires
            name@.len() > 0,
        ensures
            r@ == name@,
    {
        PlainSymbol(String::from_str(name))
    }

    /// The name of the symbol.
    pub fn name(&self) -> (r: &str)
        ensures
            r@ == self@,
    {
        self.0.as_str()
    }

    /// Whether the symbol names a variable: it starts with a question
    /// mark.
    pub fn is_var_symbol(&self) -> (r: bool)
        ensures
            r == (self@.len() > 0 && self@[0] == '?'),
    {
        let n = self.0.as_str();
        n.unicode_len() > 0 && n.get_char(0) == '?'
    }

    /// Whether the symbol names a source: it starts with a dollar sign.
    pub fn is_src_symbol(&self) -> (r: bool)
        ensures
            r == (self@.len() > 0 && self@[0] == '$'),
    {
        let n = self.0.as_str();
        n.unicode_len() > 0 && n.get_char(0) == '$'
    }
}

/// A symbol with a namespace, such as `foo/bar`.
#[derive(Debug, PartialEq, Eq, Hash, PartialOrd, Ord)]
pub struct NamespacedSymbol {
    namespace: String,
    name: String,
}

impl View for NamespacedSymbol {
    type V = NameView;

    closed spec fn view(&self) -> NameView {
        NameView { namespace: Some(self.namespace@), name: self.name@ }
    }
}

impl Clone for NamespacedSymbol {
    fn clone(&self) -> (r: Self)
        ensures
            r == *self,
    {
        NamespacedSymbol { namespace: self.namespace.clone(), name: self.name.clone() }
    }
}

impl NamespacedSymbol {
    /// The symbol with the given namespace and name.
    pub fn namespaced(namespace: &str, name: &str) -> (r: NamespacedSymbol)
        requires
            namespace@.len() > 0,
            name@.len() > 0,
        ensures
            r@ == (NameView { namespace: Some(namespace@), name: name@ }),
    {
        NamespacedSymbol { namespace: String::from_str(namespace), name: String::from_str(name) }
    }

    /// The name part.
    pub fn name(&self) -> (r: &str)
        ensures
            r@ == self@.name,
    {
        self.name.as_str()
    }

    /// The namespace part.
    pub fn namespace(&self) -> (r: &str)
        ensures
            self@.namespace == Some(r@),
    {
        self.namespace.as_str()
    }
}

} // verus!
