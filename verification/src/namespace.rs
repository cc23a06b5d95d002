//! Qualified names and namespace declarations.

use vstd::prelude::*;

use crate::dom::{XmlAttribute, XmlElement};
use crate::records::{slice_chars, str_option};
use crate::syntax::{is_name_char, is_name_start_char, name_part, name_start};
use crate::text::{chars_of, find_char, find_char_from, starts_at, starts_with, str_eq};

verus! {

/// The namespace of the prefix `xml`.
pub const XML_NAMESPACE_URI: &'static str = "http://www.w3.org/XML/1998/namespace";

/// The namespace of the prefix `xmlns`.
pub const XMLNS_NAMESPACE_URI: &'static str = "http://www.w3.org/2000/xmlns/";

/// A name with its parts.
#[derive(Clone, Copy, Debug, Eq, PartialEq)]
pub struct XmlQualifiedName<'a> {
    /// The whole name.
    pub qualified: &'a str,
    /// The part before the colon.
    pub prefix: Option<&'a str>,
    /// The part behind the colon, or the whole name.
    pub local: &'a str,
}

/// A namespace declaration.
#[derive(Clone, Copy, Debug, Eq, PartialEq)]
pub struct XmlNamespace<'a> {
    /// The prefix; none for the default namespace.
    pub prefix: Option<&'a str>,
    /// The namespace.
    pub uri: &'a str,
}

/// The name of an element with its namespace.
#[derive(Clone, Debug, Eq, Hash, PartialEq)]
pub struct XmlExpandedName {
    /// The whole name.
    pub qualified: String,
    /// The part before the colon.
    pub prefix: Option<String>,
    /// The part behind the colon, or the whole name.
    pub local: String,
    /// The namespace, if there is one.
    pub namespace_uri: Option<String>,
}

/// A name that cannot be split.
#[derive(Clone, Debug, Eq, PartialEq)]
pub enum XmlNamespaceError {
    /// Not a qualified name.
    InvalidQualifiedName(String),
}

/// A name without a colon.
pub open spec fn plain_name(s: Seq<char>) -> bool {
    &&& s.len() > 0
    &&& name_start(s[0])
    &&& forall|i: int| 0 < i < s.len() ==> name_part(#[trigger] s[i])
    &&& forall|i: int| 0 <= i < s.len() ==> #[trigger] s[i] != ':'
}

/// The prefix and the local part of a qualified name.
pub open spec fn name_parts(s: Seq<char>) -> Option<(Option<Seq<char>>, Seq<char>)> {
    match find_char_from(s, 0, ':') {
        None => if plain_name(s) {
            Some((None, s))
        } else {
            None
        },
        Some(k) => if plain_name(s.take(k)) && plain_name(s.skip(k + 1)) {
            Some((Some(s.take(k)), s.skip(k + 1)))
        } else {
            None
        },
    }
}

/// Is `s` a name without a colon?
fn valid_ncname(s: &str) -> (r: bool)
    ensures
        r == plain_name(s@),
{
    let v = chars_of(s);
    if v.len() == 0 || v[0] == ':' || !is_name_start_char(v[0]) {
        return false;
    }
    let mut k: usize = 1;
    while k < v.len()
        invariant
            1 <= k <= v@.len(),
            v@ == s@,
            v@[0] != ':',
            forall|i: int| 0 < i < k ==> name_part(#[trigger] v@[i]),
            forall|i: int| 0 <= i < k ==> #[trigger] v@[i] != ':',
        decreases v@.len() - k,
    {
        if v[k] == ':' || !is_name_char(v[k]) {
            assert(s@[k as int] == v@[k as int]);
            return false;
        }
        k = k + 1;
    }
    true
}

/// The parts were found as `name_parts` says.
pub open spec fn parts_agree(r: Result<XmlQualifiedName<'_>, XmlNamespaceError>, s: Seq<char>) -> bool {
    match r {
        Ok(n) => n.qualified@ == s && name_parts(s) == Some((str_option(n.prefix), n.local@)),
        Err(XmlNamespaceError::InvalidQualifiedName(n)) => name_parts(s) is None && n@ == s,
    }
}

impl<'a> XmlQualifiedName<'a> {
    /// Splits a name.
    pub fn parse(name: &'a str) -> (r: Result<Self, XmlNamespaceError>)
        ensures
            parts_agree(r, name@),
    {
        let s = chars_of(name);
        let n: usize = s.len();
        let (prefix, local) = match find_char(s.as_slice(), 0, ':') {
            None => (None, name),
            Some(k) => {
                let a = slice_chars(name, 0, k);
                let b = slice_chars(name, k + 1, n);
                proof {
                    assert(a@ =~= name@.take(k as int));
                    assert(b@ =~= name@.skip(k + 1));
                }
                (Some(a), b)
            },
        };
        let prefix_ok = match prefix {
            Some(p) => valid_ncname(p),
            None => true,
        };
        if prefix_ok && valid_ncname(local) {
            Ok(XmlQualifiedName { qualified: name, prefix, local })
        } else {
            Err(XmlNamespaceError::InvalidQualifiedName(name.to_owned()))
        }
    }
}

/// The attribute declares a namespace.
pub open spec fn declares_namespace(name: Seq<char>) -> bool {
    name == "xmlns"@ || starts_at(name, 0, "xmlns:"@)
}

/// The prefix that an attribute declares; none for the default namespace.
pub open spec fn declared_prefix(name: Seq<char>) -> Option<Seq<char>> {
    if name == "xmlns"@ {
        None
    } else {
        Some(name.skip(6))
    }
}

/// The namespace declarations among the attributes, from `k` on, behind `acc`.
pub open spec fn declarations_from(
    a: Seq<XmlAttribute>,
    k: int,
    acc: Seq<(Option<Seq<char>>, Seq<char>)>,
) -> Seq<(Option<Seq<char>>, Seq<char>)>
    decreases a.len() - k,
{
    if k < 0 || k >= a.len() {
        acc
    } else if declares_namespace(a[k].name@) {
        declarations_from(a, k + 1, acc.push((declared_prefix(a[k].name@), a[k].value@)))
    } else {
        declarations_from(a, k + 1, acc)
    }
}

/// The prefixes and namespaces of declarations.
pub open spec fn namespace_pairs(v: Seq<XmlNamespace<'_>>) -> Seq<(Option<Seq<char>>, Seq<char>)> {
    Seq::new(v.len(), |i: int| (str_option(v[i].prefix), v[i].uri@))
}

/// Does an attribute with the name declare a namespace?
pub(crate) fn is_declaration_name(name: &str) -> (r: bool)
    ensures
        r == declares_namespace(name@),
{
    let s = chars_of(name);
    str_eq(name, "xmlns") || starts_with(s.as_slice(), 0, "xmlns:")
}

impl XmlElement {
    /// Returns the name with its parts.
    pub fn qualified_name(&self) -> (r: Result<XmlQualifiedName<'_>, XmlNamespaceError>)
        ensures
            parts_agree(r, self@.name),
    {
        XmlQualifiedName::parse(self.name.as_str())
    }

    /// Returns the part of the name before the colon.
    pub fn prefix(&self) -> (r: Result<Option<&str>, XmlNamespaceError>)
        ensures
            match r {
                Ok(p) => name_parts(self@.name) is Some && str_option(p) == name_parts(
                    self@.name,
                )->Some_0.0,
                Err(XmlNamespaceError::InvalidQualifiedName(n)) => name_parts(self@.name) is None
                    && n@ == self@.name,
            },
    {
        match self.qualified_name() {
            Ok(n) => Ok(n.prefix),
            Err(e) => Err(e),
        }
    }

    /// Returns the part of the name behind the colon.
    pub fn local_name(&self) -> (r: Result<&str, XmlNamespaceError>)
        ensures
            match r {
                Ok(l) => name_parts(self@.name) is Some && l@ == name_parts(self@.name)->Some_0.1,
                Err(XmlNamespaceError::InvalidQualifiedName(n)) => name_parts(self@.name) is None
                    && n@ == self@.name,
            },
    {
        match self.qualified_name() {
            Ok(n) => Ok(n.local),
            Err(e) => Err(e),
        }
    }

    /// Returns the namespace declarations of the element.
    pub fn namespace_declarations(&self) -> (r: Vec<XmlNamespace<'_>>)
        ensures
            namespace_pairs(r@) == declarations_from(self.attributes@, 0, Seq::empty()),
    {
        let mut out: Vec<XmlNamespace<'_>> = Vec::new();
        proof {
            reveal_strlit("xmlns:");
            assert(namespace_pairs(out@) =~= Seq::empty());
        }
        let mut k: usize = 0;
        while k < self.attributes.len()
            invariant
                k <= self.attributes@.len(),
                "xmlns:"@.len() == 6,
                declarations_from(self.attributes@, 0, Seq::empty()) == declarations_from(
                    self.attributes@,
                    k as int,
                    namespace_pairs(out@),
                ),
            decreases self.attributes@.len() - k,
        {
            let a = &self.attributes[k];
            let name = a.name.as_str();
            if is_declaration_name(name) {
                let prefix = if str_eq(name, "xmlns") {
                    None
                } else {
                    let n: usize = chars_of(name).len();
                    let p = slice_chars(name, 6, n);
                    proof {
                        assert(p@ =~= name@.skip(6));
                    }
                    Some(p)
                };
                let ghost before = out@;
                let x = XmlNamespace { prefix, uri: a.value.as_str() };
                out.push(x);
                proof {
                    assert(namespace_pairs(out@) =~= namespace_pairs(before).push(
                        (str_option(x.prefix), x.uri@),
                    ));
                }
            }
            k = k + 1;
        }
        out
    }
}

impl XmlAttribute {
    /// Returns the name with its parts.
    pub fn qualified_name(&self) -> (r: Result<XmlQualifiedName<'_>, XmlNamespaceError>)
        ensures
            parts_agree(r, self@.name),
    {
        XmlQualifiedName::parse(self.name.as_str())
    }

    /// Returns the part of the name before the colon.
    pub fn prefix(&self) -> (r: Result<Option<&str>, XmlNamespaceError>)
        ensures
            match r {
                Ok(p) => name_parts(self@.name) is Some && str_option(p) == name_parts(
                    self@.name,
                )->Some_0.0,
                Err(XmlNamespaceError::InvalidQualifiedName(n)) => name_parts(self@.name) is None
                    && n@ == self@.name,
            },
    {
        match self.qualified_name() {
            Ok(n) => Ok(n.prefix),
            Err(e) => Err(e),
        }
    }

    /// Returns the part of the name behind the colon.
    pub fn local_name(&self) -> (r: Result<&str, XmlNamespaceError>)
        ensures
            match r {
                Ok(l) => name_parts(self@.name) is Some && l@ == name_parts(self@.name)->Some_0.1,
                Err(XmlNamespaceError::InvalidQualifiedName(n)) => name_parts(self@.name) is None
                    && n@ == self@.name,
            },
    {
        match self.qualified_name() {
            Ok(n) => Ok(n.local),
            Err(e) => Err(e),
        }
    }

    /// Returns whether the attribute declares a namespace.
    pub fn is_namespace_declaration(&self) -> (r: bool)
        ensures
            r == declares_namespace(self@.name),
    {
        is_declaration_name(self.name.as_str())
    }
}

/// A qualified name is its prefix, a colon and its local part, or its local part alone.
pub proof fn lemma_name_parts_join(s: Seq<char>)
    requires
        name_parts(s) is Some,
    ensures
        s == (match name_parts(s)->Some_0 {
            (Some(p), l) => p.push(':') + l,
            (None, l) => l,
        }),
{
    if let Some(k) = find_char_from(s, 0, ':') {
        lemma_found_char(s, 0, ':');
        assert(s =~= s.take(k).push(':') + s.skip(k + 1));
    }
}

/// A character that is found is there.
proof fn lemma_found_char(s: Seq<char>, i: int, c: char)
    requires
        0 <= i,
    ensures
        find_char_from(s, i, c) matches Some(k) ==> i <= k < s.len() && s[k] == c,
    decreases s.len() - i,
{
    if i < s.len() && s[i] != c {
        lemma_found_char(s, i + 1, c);
    }
}

} // verus!
