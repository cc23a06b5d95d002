//! Namespaces in editable documents.

use vstd::prelude::*;
use vstd::slice::slice_subrange;

use crate::access::{attribute_value, attribute_values, pair_models};
use crate::dom::{AttributeModel, XmlNodeKind};
use crate::facade::{handle_of, resolved, StateModel, XmlDom};
use crate::handle::{
    handle_models, handles_outcome, optional_outcome, DomErrorModel, HandleModel, XmlDomError,
    XmlDomNode,
};
use crate::namespace::{
    declares_namespace, is_declaration_name, name_parts, XmlExpandedName, XmlQualifiedName,
    XMLNS_NAMESPACE_URI, XML_NAMESPACE_URI,
};
use crate::records::str_option;
use crate::text::{push_text, str_eq, string_of};
use crate::tree::{
    has_path, lemma_path_child, lemma_path_parent, node_at, node_ref, tree_models, DomNode,
};

verus! {

/// An expanded name as a mathematical value.
#[verifier::ext_equal]
pub struct ExpandedModel {
    pub qualified: Seq<char>,
    pub prefix: Option<Seq<char>>,
    pub local: Seq<char>,
    pub namespace: Option<Seq<char>>,
}

/// An optional text.
pub open spec fn string_option(s: Option<String>) -> Option<Seq<char>> {
    match s {
        Some(x) => Some(x@),
        None => None,
    }
}

impl View for XmlExpandedName {
    type V = ExpandedModel;

    open spec fn view(&self) -> ExpandedModel {
        ExpandedModel {
            qualified: self.qualified@,
            prefix: string_option(self.prefix),
            local: self.local@,
            namespace: string_option(self.namespace_uri),
        }
    }
}

/// The name of the attribute that binds a prefix.
pub open spec fn declaration_name(prefix: Option<Seq<char>>) -> Seq<char> {
    match prefix {
        None => "xmlns"@,
        Some(p) => "xmlns:"@ + p,
    }
}

/// The namespace that the nearest declaration with the name binds, from the node at `p` up. An
/// empty namespace unbinds.
pub open spec fn bound_at(s: StateModel, p: Seq<usize>, name: Seq<char>) -> Result<
    Option<Seq<char>>,
    DomErrorModel,
>
    decreases p.len(),
{
    match attribute_value(node_at(s.root, p), name, s.reading) {
        Err(e) => Err(e),
        Ok(Some(uri)) => Ok(
            if uri.len() == 0 {
                None
            } else {
                Some(uri)
            },
        ),
        Ok(None) => if p.len() == 0 {
            Ok(None)
        } else {
            bound_at(s, p.drop_last(), name)
        },
    }
}

/// The namespace of a prefix at the node that the path leads to. What is not an element has the
/// bindings of its parent.
pub open spec fn namespace_at(s: StateModel, p: Seq<usize>, prefix: Option<Seq<char>>) -> Result<
    Option<Seq<char>>,
    DomErrorModel,
> {
    if prefix == Some("xml"@) {
        Ok(Some(XML_NAMESPACE_URI@))
    } else if prefix == Some("xmlns"@) {
        Ok(Some(XMLNS_NAMESPACE_URI@))
    } else if node_at(s.root, p).kind == XmlNodeKind::Element {
        bound_at(s, p, declaration_name(prefix))
    } else if p.len() == 0 {
        Ok(None)
    } else {
        bound_at(s, p.drop_last(), declaration_name(prefix))
    }
}

/// The expanded name of the node that the path leads to; none if it is not an element.
pub open spec fn expanded_at(s: StateModel, p: Seq<usize>) -> Result<
    Option<ExpandedModel>,
    DomErrorModel,
> {
    let t = node_at(s.root, p);
    if t.kind != XmlNodeKind::Element {
        Ok(None)
    } else {
        match name_parts(t.name) {
            None => Err(DomErrorModel::Namespace(t.name)),
            Some((prefix, local)) => match namespace_at(s, p, prefix) {
                Err(e) => Err(e),
                Ok(namespace) => Ok(
                    Some(ExpandedModel { qualified: t.name, prefix, local, namespace }),
                ),
            },
        }
    }
}

/// The expanded name has the namespace and the local name.
pub open spec fn expands_to(
    x: Option<ExpandedModel>,
    namespace: Option<Seq<char>>,
    local: Seq<char>,
) -> bool {
    x matches Some(e) && e.local == local && e.namespace == namespace
}

/// The children from `k` on with the namespace and the local name, behind `acc`; of these the
/// first only, if `one` is set.
pub open spec fn children_in_namespace(
    s: StateModel,
    p: Seq<usize>,
    k: int,
    namespace: Option<Seq<char>>,
    local: Seq<char>,
    one: bool,
    acc: Seq<HandleModel>,
) -> Result<Seq<HandleModel>, DomErrorModel>
    decreases node_at(s.root, p).children.len() - k,
{
    let n = node_at(s.root, p).children;
    if k < 0 || k >= n.len() || (one && acc.len() > 0) {
        Ok(acc)
    } else {
        match expanded_at(s, p.push(k as usize)) {
            Err(e) => Err(e),
            Ok(x) => children_in_namespace(
                s,
                p,
                k + 1,
                namespace,
                local,
                one,
                if expands_to(x, namespace, local) {
                    acc.push(handle_of(s, n[k].id))
                } else {
                    acc
                },
            ),
        }
    }
}

/// The value of the first attribute from `k` on with the namespace and the local name. An
/// attribute without a prefix has no namespace, and declarations do not count.
pub open spec fn attribute_in_namespace(
    s: StateModel,
    p: Seq<usize>,
    a: Seq<AttributeModel>,
    k: int,
    namespace: Option<Seq<char>>,
    local: Seq<char>,
) -> Result<Option<Seq<char>>, DomErrorModel>
    decreases a.len() - k,
{
    if k < 0 || k >= a.len() {
        Ok(None)
    } else if declares_namespace(a[k].name) {
        attribute_in_namespace(s, p, a, k + 1, namespace, local)
    } else {
        match name_parts(a[k].name) {
            None => Err(DomErrorModel::Namespace(a[k].name)),
            Some((prefix, l)) => if l != local {
                attribute_in_namespace(s, p, a, k + 1, namespace, local)
            } else {
                match prefix_namespace(s, p, prefix) {
                    Err(e) => Err(e),
                    Ok(n) => if n == namespace {
                        Ok(Some(a[k].value))
                    } else {
                        attribute_in_namespace(s, p, a, k + 1, namespace, local)
                    },
                }
            },
        }
    }
}

/// The namespace of an attribute with the prefix.
pub open spec fn prefix_namespace(s: StateModel, p: Seq<usize>, prefix: Option<Seq<char>>) -> Result<
    Option<Seq<char>>,
    DomErrorModel,
> {
    match prefix {
        Some(x) => namespace_at(s, p, Some(x)),
        None => Ok(None),
    }
}

/// The nodes that a path leads through.
fn nodes_along<'a>(t: &'a DomNode, p: &[usize]) -> (r: Vec<&'a DomNode>)
    requires
        has_path(t.model(), p@),
    ensures
        r@.len() == p@.len() + 1,
        forall|i: int|
            0 <= i <= p@.len() ==> (#[trigger] r@[i]).model() == node_at(t.model(), p@.take(i)),
{
    let mut out: Vec<&'a DomNode> = Vec::with_capacity(p.len());
    let mut n = t;
    let mut k: usize = 0;
    out.push(n);
    proof {
        assert(p@.take(0) =~= Seq::<usize>::empty());
        assert(p@.skip(0) =~= p@);
    }
    while k < p.len()
        invariant
            k <= p@.len(),
            out@.len() == k + 1,
            has_path(t.model(), p@.take(k as int)),
            n.model() == node_at(t.model(), p@.take(k as int)),
            has_path(n.model(), p@.skip(k as int)),
            forall|i: int|
                0 <= i <= k ==> (#[trigger] out@[i]).model() == node_at(t.model(), p@.take(i)),
        decreases p@.len() - k,
    {
        proof {
            assert(p@.skip(k as int).skip(1) =~= p@.skip(k + 1));
            assert(p@.skip(k as int)[0] == p@[k as int]);
            assert(p@.take(k + 1) =~= p@.take(k as int).push(p@[k as int]));
            lemma_path_child(t.model(), p@.take(k as int), p@[k as int]);
        }
        n = &n.children[p[k]];
        out.push(n);
        k = k + 1;
    }
    out
}

/// Finds the nearest binding.
fn find_binding(dom: &XmlDom, p: &[usize], name: &str) -> (r: Result<Option<String>, XmlDomError>)
    requires
        has_path(dom@.root, p@),
    ensures
        optional_outcome(r) == bound_at(dom@, p@, name@),
{
    proof {
        reveal_strlit("");
    }
    let nodes = nodes_along(&dom.state().root, p);
    let mut end: usize = p.len();
    proof {
        assert(p@.take(end as int) =~= p@);
    }
    loop
        invariant
            end <= p@.len(),
            nodes@.len() == p@.len() + 1,
            forall|i: int|
                0 <= i <= p@.len() ==> (#[trigger] nodes@[i]).model() == node_at(
                    dom@.root,
                    p@.take(i),
                ),
            ""@.len() == 0,
            has_path(dom@.root, p@.take(end as int)),
            bound_at(dom@, p@.take(end as int), name@) == bound_at(dom@, p@, name@),
        decreases end,
    {
        let ghost q = p@.take(end as int);
        match nodes[end].attribute_of(name, dom.state().reading) {
            Err(e) => {
                return Err(e);
            },
            Ok(Some(uri)) => {
                proof {
                    assert(uri@.len() == 0 ==> uri@ =~= ""@);
                }
                return if str_eq(uri.as_str(), "") {
                    Ok(None)
                } else {
                    Ok(Some(uri))
                };
            },
            Ok(None) => {
                if end == 0 {
                    return Ok(None);
                }
                proof {
                    lemma_path_parent(dom@.root, q);
                    assert(q.drop_last() =~= p@.take(end - 1));
                }
                end = end - 1;
            },
        }
    }
}

/// The name of the attribute that binds a prefix.
fn binding_name(prefix: Option<&str>) -> (r: String)
    ensures
        r@ == declaration_name(str_option(prefix)),
{
    match prefix {
        None => "xmlns".to_owned(),
        Some(p) => {
            let mut v: Vec<char> = Vec::new();
            push_text(&mut v, "xmlns:");
            push_text(&mut v, p);
            let r = string_of(v.as_slice());
            proof {
                assert(r@ =~= "xmlns:"@ + p@);
            }
            r
        },
    }
}

/// Finds the namespace of a prefix.
fn find_namespace(dom: &XmlDom, p: &[usize], prefix: Option<&str>) -> (r: Result<
    Option<String>,
    XmlDomError,
>)
    requires
        has_path(dom@.root, p@),
    ensures
        optional_outcome(r) == namespace_at(dom@, p@, str_option(prefix)),
{
    if let Some(x) = prefix {
        if str_eq(x, "xml") {
            return Ok(Some(XML_NAMESPACE_URI.to_owned()));
        }
        if str_eq(x, "xmlns") {
            return Ok(Some(XMLNS_NAMESPACE_URI.to_owned()));
        }
    }
    let name = binding_name(prefix);
    let n = node_ref(&dom.state().root, p);
    if n.kind == XmlNodeKind::Element {
        return find_binding(dom, p, name.as_str());
    }
    if p.len() == 0 {
        return Ok(None);
    }
    proof {
        lemma_path_parent(dom@.root, p@);
        assert(p@.subrange(0, p@.len() - 1) =~= p@.drop_last());
    }
    find_binding(dom, slice_subrange(p, 0, p.len() - 1), name.as_str())
}

/// Finds the expanded name.
fn find_expanded(dom: &XmlDom, p: &[usize]) -> (r: Result<Option<XmlExpandedName>, XmlDomError>)
    requires
        has_path(dom@.root, p@),
    ensures
        optional_outcome(r) == expanded_at(dom@, p@),
{
    let n = node_ref(&dom.state().root, p);
    if n.kind != XmlNodeKind::Element {
        return Ok(None);
    }
    let parsed = match XmlQualifiedName::parse(n.name.as_str()) {
        Err(e) => {
            return Err(XmlDomError::Namespace(e));
        },
        Ok(x) => x,
    };
    match find_namespace(dom, p, parsed.prefix) {
        Err(e) => Err(e),
        Ok(namespace_uri) => Ok(
            Some(
                XmlExpandedName {
                    qualified: n.name.clone(),
                    prefix: match parsed.prefix {
                        Some(x) => Some(x.to_owned()),
                        None => None,
                    },
                    local: parsed.local.to_owned(),
                    namespace_uri,
                },
            ),
        ),
    }
}

/// Are two optional texts the same?
fn same_option(a: &Option<String>, b: Option<&str>) -> (r: bool)
    ensures
        r == (string_option(*a) == str_option(b)),
{
    match (a, b) {
        (Some(x), Some(y)) => str_eq(x.as_str(), y),
        (None, None) => true,
        _ => false,
    }
}

/// Finds the children with the namespace and the local name; the first only, if `one` is set.
fn find_children(
    dom: &XmlDom,
    h: &XmlDomNode,
    namespace_uri: Option<&str>,
    local_name: &str,
    one: bool,
) -> (r: Result<Vec<XmlDomNode>, XmlDomError>)
    ensures
        handles_outcome(r) == match resolved(dom@, h@) {
            Ok(p) => children_in_namespace(
                dom@,
                p,
                0,
                str_option(namespace_uri),
                local_name@,
                one,
                Seq::empty(),
            ),
            Err(e) => Err(e),
        },
{
    let mut p = match dom.resolve(h) {
        Err(e) => {
            return Err(e);
        },
        Ok(p) => p,
    };
    let ghost path = p@;
    let n = node_ref(&dom.state().root, p.as_slice());
    let ghost m = n.model().children;
    let ghost uri = str_option(namespace_uri);
    let mut out: Vec<XmlDomNode> = Vec::new();
    proof {
        assert(handle_models(out@) =~= Seq::<HandleModel>::empty());
    }
    let mut k: usize = 0;
    while k < n.children.len()
        invariant
            k <= n.children@.len(),
            p@ == path,
            has_path(dom@.root, path),
            resolved(dom@, h@) == Ok::<Seq<usize>, DomErrorModel>(path),
            n.model() == node_at(dom@.root, path),
            m == n.model().children,
            m == tree_models(n.children@),
            uri == str_option(namespace_uri),
            children_in_namespace(dom@, path, 0, uri, local_name@, one, Seq::empty())
                == children_in_namespace(
                dom@,
                path,
                k as int,
                uri,
                local_name@,
                one,
                handle_models(out@),
            ),
        decreases n.children@.len() - k,
    {
        if one && out.len() > 0 {
            return Ok(out);
        }
        assert(m[k as int] == n.children@[k as int].model());
        p.push(k);
        proof {
            lemma_path_child(dom@.root, path, k);
        }
        let x = find_expanded(dom, p.as_slice());
        p.pop();
        proof {
            assert(p@ =~= path);
        }
        match x {
            Err(e) => {
                return Err(e);
            },
            Ok(Some(e)) => {
                if str_eq(e.local.as_str(), local_name) && same_option(
                    &e.namespace_uri,
                    namespace_uri,
                ) {
                    let ghost before = out@;
                    let c = dom.handle(n.children[k].id);
                    out.push(c);
                    proof {
                        assert(handle_models(out@) =~= handle_models(before).push(c@));
                    }
                }
            },
            Ok(None) => {},
        }
        k = k + 1;
    }
    Ok(out)
}

impl XmlDomNode {
    /// Returns the expanded name of an element.
    pub fn expanded_name(&self, dom: &XmlDom) -> (r: Result<Option<XmlExpandedName>, XmlDomError>)
        ensures
            optional_outcome(r) == match resolved(dom@, self@) {
                Ok(p) => expanded_at(dom@, p),
                Err(e) => Err(e),
            },
    {
        match dom.resolve(self) {
            Err(e) => Err(e),
            Ok(p) => find_expanded(dom, p.as_slice()),
        }
    }

    /// Returns the namespace of a prefix; no prefix asks for the default namespace.
    pub fn lookup_namespace_uri(&self, dom: &XmlDom, prefix: Option<&str>) -> (r: Result<
        Option<String>,
        XmlDomError,
    >)
        ensures
            optional_outcome(r) == match resolved(dom@, self@) {
                Ok(p) => namespace_at(dom@, p, str_option(prefix)),
                Err(e) => Err(e),
            },
    {
        match dom.resolve(self) {
            Err(e) => Err(e),
            Ok(p) => find_namespace(dom, p.as_slice(), prefix),
        }
    }

    /// Returns the first child with the namespace and the local name.
    pub fn child_ns(&self, dom: &XmlDom, namespace_uri: Option<&str>, local_name: &str) -> (r:
        Result<Option<XmlDomNode>, XmlDomError>)
        ensures
            optional_outcome(r) == match resolved(dom@, self@) {
                Ok(p) => match children_in_namespace(
                    dom@,
                    p,
                    0,
                    str_option(namespace_uri),
                    local_name@,
                    true,
                    Seq::empty(),
                ) {
                    Ok(v) => Ok(
                        if v.len() > 0 {
                            Some(v[0])
                        } else {
                            None
                        },
                    ),
                    Err(e) => Err(e),
                },
                Err(e) => Err(e),
            },
    {
        match find_children(dom, self, namespace_uri, local_name, true) {
            Err(e) => Err(e),
            Ok(v) => if v.len() > 0 {
                assert(handle_models(v@)[0] == v@[0]@);
                Ok(Some(v[0].clone()))
            } else {
                Ok(None)
            },
        }
    }

    /// Returns the children with the namespace and the local name.
    pub fn children_ns(&self, dom: &XmlDom, namespace_uri: Option<&str>, local_name: &str) -> (r:
        Result<Vec<XmlDomNode>, XmlDomError>)
        ensures
            handles_outcome(r) == match resolved(dom@, self@) {
                Ok(p) => children_in_namespace(
                    dom@,
                    p,
                    0,
                    str_option(namespace_uri),
                    local_name@,
                    false,
                    Seq::empty(),
                ),
                Err(e) => Err(e),
            },
    {
        find_children(dom, self, namespace_uri, local_name, false)
    }

    /// Returns the value of the first attribute with the namespace and the local name.
    pub fn attribute_ns(&self, dom: &XmlDom, namespace_uri: Option<&str>, local_name: &str) -> (r:
        Result<Option<String>, XmlDomError>)
        ensures
            optional_outcome(r) == match resolved(dom@, self@) {
                Ok(p) => match attribute_values(node_at(dom@.root, p), dom@.reading) {
                    Ok(a) => attribute_in_namespace(
                        dom@,
                        p,
                        a,
                        0,
                        str_option(namespace_uri),
                        local_name@,
                    ),
                    Err(e) => Err(e),
                },
                Err(e) => Err(e),
            },
    {
        let p = match dom.resolve(self) {
            Err(e) => {
                return Err(e);
            },
            Ok(p) => p,
        };
        let v = match self.attributes(dom) {
            Err(e) => {
                return Err(e);
            },
            Ok(v) => v,
        };
        let ghost a = pair_models(v@);
        let ghost uri = str_option(namespace_uri);
        let mut k: usize = 0;
        while k < v.len()
            invariant
                k <= v@.len(),
                a == pair_models(v@),
                has_path(dom@.root, p@),
                uri == str_option(namespace_uri),
                resolved(dom@, self@) == Ok::<Seq<usize>, DomErrorModel>(p@),
                attribute_values(node_at(dom@.root, p@), dom@.reading) == Ok::<
                    Seq<AttributeModel>,
                    DomErrorModel,
                >(a),
                attribute_in_namespace(dom@, p@, a, 0, uri, local_name@) == attribute_in_namespace(
                    dom@,
                    p@,
                    a,
                    k as int,
                    uri,
                    local_name@,
                ),
            decreases v@.len() - k,
        {
            let name = v[k].0.as_str();
            assert(a[k as int].name == name@);
            if !is_declaration_name(name) {
                let parsed = match XmlQualifiedName::parse(name) {
                    Err(e) => {
                        return Err(XmlDomError::Namespace(e));
                    },
                    Ok(x) => x,
                };
                if str_eq(parsed.local, local_name) {
                    let found = match parsed.prefix {
                        Some(x) => match find_namespace(dom, p.as_slice(), Some(x)) {
                            Err(e) => {
                                return Err(e);
                            },
                            Ok(n) => n,
                        },
                        None => None,
                    };
                    if same_option(&found, namespace_uri) {
                        return Ok(Some(v[k].1.clone()));
                    }
                }
            }
            k = k + 1;
        }
        Ok(None)
    }
}

} // verus!
