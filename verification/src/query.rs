//! Selections of nodes of editable documents.

use vstd::prelude::*;

use crate::access::{
    attribute_index, attribute_value, elements_of, handles_of, holds_text, node_value, preorder,
    read_with,
};
use crate::dom::XmlNodeKind;
use crate::facade::{StateModel, XmlDom};
use crate::handle::{handle_models, outcome, DomErrorModel, HandleModel, XmlDomError, XmlDomNode};
use crate::namespace::{declares_namespace, is_declaration_name};
use crate::records::str_option;
use crate::scoping::string_option;
use crate::text::{push_text, str_eq, string_of};
use crate::tree::{tree_attribute_models, DomNode, Reading, TreeAttribute, TreeModel};
use crate::walking::{listed, listed_elements, pointed};

verus! {

/// Elements that were selected, in document order.
#[derive(Clone, Debug)]
pub struct XmlDomNodeSet {
    nodes: Vec<XmlDomNode>,
}

impl View for XmlDomNodeSet {
    type V = Seq<HandleModel>;

    closed spec fn view(&self) -> Seq<HandleModel> {
        handle_models(self.nodes@)
    }
}

impl XmlDomNodeSet {
    /// Returns how many elements there are.
    pub fn len(&self) -> (r: usize)
        ensures
            r == self@.len(),
    {
        self.nodes.len()
    }

    /// Are there no elements?
    pub fn is_empty(&self) -> (r: bool)
        ensures
            r == (self@.len() == 0),
    {
        self.nodes.len() == 0
    }

    /// Returns the handles of the elements.
    pub fn into_vec(self) -> (r: Vec<XmlDomNode>)
        ensures
            handle_models(r@) == self@,
    {
        self.nodes
    }
}

/// What elements to select: those with a name, if one is given, and with certain attributes.
#[derive(Clone, Debug)]
pub struct SimpleDescendantFilter {
    pub element_name: Option<String>,
    pub required_attributes: Vec<String>,
}

/// All attributes from `k` on are there.
pub open spec fn has_attributes(a: Seq<TreeAttribute>, names: Seq<String>, k: int) -> bool
    decreases names.len() - k,
{
    k < 0 || k >= names.len() || (attribute_index(a, 0, names[k]@) is Some && has_attributes(
        a,
        names,
        k + 1,
    ))
}

/// The filter lets the element through.
pub open spec fn lets_through(f: SimpleDescendantFilter, t: TreeModel) -> bool {
    &&& f.element_name matches Some(n) ==> t.name == n@
    &&& has_attributes(t.attributes, f.required_attributes@, 0)
}

/// The elements from `k` on that the filter lets through, behind `acc`.
pub open spec fn filtered(
    f: SimpleDescendantFilter,
    n: Seq<TreeModel>,
    k: int,
    acc: Seq<TreeModel>,
) -> Seq<TreeModel>
    decreases n.len() - k,
{
    if k < 0 || k >= n.len() {
        acc
    } else if lets_through(f, n[k]) {
        filtered(f, n, k + 1, acc.push(n[k]))
    } else {
        filtered(f, n, k + 1, acc)
    }
}

/// One of the attributes from `k` on declares a namespace.
pub open spec fn attributes_declare(a: Seq<TreeAttribute>, k: int) -> bool
    decreases a.len() - k,
{
    0 <= k < a.len() && (declares_namespace(a[k].name) || attributes_declare(a, k + 1))
}

/// One of the nodes from `k` on declares a namespace.
pub open spec fn nodes_declare(n: Seq<TreeModel>, k: int) -> bool
    decreases n.len() - k,
{
    0 <= k < n.len() && (attributes_declare(n[k].attributes, 0) || nodes_declare(n, k + 1))
}

/// The elements that a filter selects; a document that declares namespaces needs more than the
/// names, so that nothing is selected there.
pub open spec fn filter_selection(s: StateModel, f: SimpleDescendantFilter) -> Option<
    Seq<HandleModel>,
> {
    let n = elements_of(s.root);
    if nodes_declare(n, 0) {
        None
    } else {
        Some(handles_of(s, filtered(f, n, 0, Seq::empty())))
    }
}

impl SimpleDescendantFilter {
    /// Does the filter let the element through?
    fn matches_node(&self, n: &DomNode) -> (r: bool)
        ensures
            r == lets_through(*self, n.model()),
    {
        if let Some(name) = &self.element_name {
            if !str_eq(n.name.as_str(), name.as_str()) {
                return false;
            }
        }
        let ghost a = n.model().attributes;
        let ghost names = self.required_attributes@;
        let mut k: usize = 0;
        while k < self.required_attributes.len()
            invariant
                k <= self.required_attributes@.len(),
                a == n.model().attributes,
                names == self.required_attributes@,
                self.element_name matches Some(x) ==> n.model().name == x@,
                has_attributes(a, names, 0) == has_attributes(a, names, k as int),
            decreases self.required_attributes@.len() - k,
        {
            if n.attribute_position(self.required_attributes[k].as_str()).is_none() {
                return false;
            }
            k = k + 1;
        }
        true
    }
}

/// Does the node declare a namespace?
fn declares(n: &DomNode) -> (r: bool)
    ensures
        r == attributes_declare(n.model().attributes, 0),
{
    let ghost a = tree_attribute_models(n.attributes@);
    let mut k: usize = 0;
    while k < n.attributes.len()
        invariant
            k <= n.attributes@.len(),
            a == tree_attribute_models(n.attributes@),
            attributes_declare(a, 0) == attributes_declare(a, k as int),
        decreases n.attributes@.len() - k,
    {
        assert(a[k as int] == n.attributes@[k as int]@);
        if is_declaration_name(n.attributes[k].name.as_str()) {
            return true;
        }
        k = k + 1;
    }
    false
}

impl XmlDom {
    /// Selects elements by a filter, unless the document declares namespaces.
    pub fn select_simple_descendants(&self, filter: &SimpleDescendantFilter) -> (r: Option<
        XmlDomNodeSet,
    >)
        ensures
            match r {
                Some(v) => filter_selection(self@, *filter) == Some(v@),
                None => filter_selection(self@, *filter) is None,
            },
    {
        let all = listed_elements(&self.state().root);
        let ghost m = pointed(all@);
        let n: usize = all.len();
        let mut k: usize = 0;
        while k < n
            invariant
                k <= n == all@.len(),
                m == pointed(all@),
                m == elements_of(self@.root),
                nodes_declare(m, 0) == nodes_declare(m, k as int),
            decreases n - k,
        {
            assert(m[k as int] == all@[k as int].model());
            if declares(all[k]) {
                return None;
            }
            k = k + 1;
        }
        let ghost mut chosen = Seq::<TreeModel>::empty();
        let mut nodes: Vec<XmlDomNode> = Vec::new();
        proof {
            assert(handle_models(nodes@) =~= handles_of(self@, chosen));
        }
        let mut i: usize = 0;
        while i < n
            invariant
                i <= n == all@.len(),
                m == pointed(all@),
                handle_models(nodes@) == handles_of(self@, chosen),
                filtered(*filter, m, 0, Seq::empty()) == filtered(*filter, m, i as int, chosen),
            decreases n - i,
        {
            assert(m[i as int] == all@[i as int].model());
            if filter.matches_node(all[i]) {
                let h = self.handle(all[i].id);
                let ghost before = nodes@;
                nodes.push(h);
                proof {
                    assert(handle_models(nodes@) =~= handle_models(before).push(h@));
                    assert(handles_of(self@, chosen.push(m[i as int])) =~= handles_of(
                        self@,
                        chosen,
                    ).push(h@));
                    chosen = chosen.push(m[i as int]);
                }
            }
            i = i + 1;
        }
        Some(XmlDomNodeSet { nodes })
    }
}

/// A member of a selection: a node, or something that belongs to an element.
#[derive(Clone, Debug)]
pub enum XmlDomXPathNode {
    /// An element.
    Element(XmlDomNode),
    /// An attribute.
    Attribute {
        /// The element.
        owner: XmlDomNode,
        /// The name.
        name: String,
    },
    /// A text or a CDATA section.
    Text(XmlDomNode),
    /// A comment.
    Comment(XmlDomNode),
    /// A processing instruction.
    ProcessingInstruction(XmlDomNode),
    /// A binding of a namespace.
    Namespace {
        /// The element.
        owner: XmlDomNode,
        /// The prefix; none for the default namespace.
        prefix: Option<String>,
        /// The namespace.
        uri: String,
    },
}

/// The texts among the nodes from `k` on, behind `acc`.
pub open spec fn joined_from(n: Seq<TreeModel>, k: int, r: Reading, acc: Seq<char>) -> Result<
    Seq<char>,
    DomErrorModel,
>
    decreases n.len() - k,
{
    if k < 0 || k >= n.len() {
        Ok(acc)
    } else if holds_text(n[k].kind) {
        match node_value(n[k], r) {
            Err(e) => Err(e),
            Ok(Some(x)) => joined_from(n, k + 1, r, acc + x),
            Ok(None) => joined_from(n, k + 1, r, acc),
        }
    } else {
        joined_from(n, k + 1, r, acc)
    }
}

/// All text in a tree.
pub open spec fn joined_text(t: TreeModel, r: Reading) -> Result<Seq<char>, DomErrorModel> {
    joined_from(preorder(t), 0, r, Seq::empty())
}

/// A text, or an empty one.
pub open spec fn or_empty(r: Result<Option<Seq<char>>, DomErrorModel>) -> Result<
    Seq<char>,
    DomErrorModel,
> {
    match r {
        Ok(Some(x)) => Ok(x),
        Ok(None) => Ok(Seq::empty()),
        Err(e) => Err(e),
    }
}

/// The string value of a member of a selection.
pub open spec fn string_value_of(s: StateModel, x: XmlDomXPathNode) -> Result<
    Seq<char>,
    DomErrorModel,
> {
    match x {
        XmlDomXPathNode::Element(n) => read_with(
            s,
            n@,
            |t: TreeModel| joined_text(t, s.reading),
        ),
        XmlDomXPathNode::Attribute { owner, name } => or_empty(
            read_with(s, owner@, |t: TreeModel| attribute_value(t, name@, s.reading)),
        ),
        XmlDomXPathNode::Text(n) => or_empty(
            read_with(s, n@, |t: TreeModel| node_value(t, s.reading)),
        ),
        XmlDomXPathNode::Comment(n) => or_empty(
            read_with(s, n@, |t: TreeModel| node_value(t, s.reading)),
        ),
        XmlDomXPathNode::ProcessingInstruction(n) => or_empty(
            read_with(s, n@, |t: TreeModel| node_value(t, s.reading)),
        ),
        XmlDomXPathNode::Namespace { uri, .. } => Ok(uri@),
    }
}

/// A text, or an empty one.
fn unwrap_text(r: Result<Option<String>, XmlDomError>) -> (o: Result<String, XmlDomError>)
    ensures
        outcome(o) == or_empty(crate::handle::optional_outcome(r)),
{
    match r {
        Ok(Some(x)) => Ok(x),
        Ok(None) => {
            let x = String::new();
            proof {
                assert(x@ =~= Seq::<char>::empty());
            }
            Ok(x)
        },
        Err(e) => Err(e),
    }
}

impl XmlDomXPathNode {
    /// Returns the element.
    pub fn as_element(&self) -> (r: Option<&XmlDomNode>)
        ensures
            match r {
                Some(n) => *self == XmlDomXPathNode::Element(*n),
                None => !(*self is Element),
            },
    {
        match self {
            XmlDomXPathNode::Element(n) => Some(n),
            _ => None,
        }
    }

    /// Returns the node; attributes and namespaces have none.
    pub fn as_node(&self) -> (r: Option<&XmlDomNode>)
        ensures
            match *self {
                XmlDomXPathNode::Element(n) => r == Some(&n),
                XmlDomXPathNode::Text(n) => r == Some(&n),
                XmlDomXPathNode::Comment(n) => r == Some(&n),
                XmlDomXPathNode::ProcessingInstruction(n) => r == Some(&n),
                _ => r is None,
            },
    {
        match self {
            XmlDomXPathNode::Element(n) => Some(n),
            XmlDomXPathNode::Text(n) => Some(n),
            XmlDomXPathNode::Comment(n) => Some(n),
            XmlDomXPathNode::ProcessingInstruction(n) => Some(n),
            _ => None,
        }
    }

    /// Returns the element that an attribute or a namespace belongs to.
    pub fn owner(&self) -> (r: Option<&XmlDomNode>)
        ensures
            match *self {
                XmlDomXPathNode::Attribute { owner, .. } => r == Some(&owner),
                XmlDomXPathNode::Namespace { owner, .. } => r == Some(&owner),
                _ => r is None,
            },
    {
        match self {
            XmlDomXPathNode::Attribute { owner, .. } => Some(owner),
            XmlDomXPathNode::Namespace { owner, .. } => Some(owner),
            _ => None,
        }
    }

    /// Returns an attribute: its element and its name.
    pub fn as_attribute(&self) -> (r: Option<(&XmlDomNode, &str)>)
        ensures
            match *self {
                XmlDomXPathNode::Attribute { owner, name } => r matches Some(x) && *x.0 == owner
                    && x.1@ == name@,
                _ => r is None,
            },
    {
        match self {
            XmlDomXPathNode::Attribute { owner, name } => Some((owner, name.as_str())),
            _ => None,
        }
    }

    /// Returns a namespace: its element, its prefix and the namespace.
    pub fn as_namespace(&self) -> (r: Option<(&XmlDomNode, Option<&str>, &str)>)
        ensures
            match *self {
                XmlDomXPathNode::Namespace { owner, prefix, uri } => r matches Some(x) && *x.0
                    == owner && str_option(x.1) == string_option(prefix) && x.2@ == uri@,
                _ => r is None,
            },
    {
        match self {
            XmlDomXPathNode::Namespace { owner, prefix, uri } => {
                let p: Option<&str> = match prefix {
                    Some(x) => Some(x.as_str()),
                    None => None,
                };
                Some((owner, p, uri.as_str()))
            },
            _ => None,
        }
    }

    /// Returns the string value: all text in an element, or the value of anything else.
    pub fn string_value(&self, dom: &XmlDom) -> (r: Result<String, XmlDomError>)
        ensures
            outcome(r) == string_value_of(dom@, *self),
    {
        match self {
            XmlDomXPathNode::Element(h) => {
                let n = match dom.find(h) {
                    Err(e) => {
                        return Err(e);
                    },
                    Ok(n) => n,
                };
                join_text(n, dom.state().reading)
            },
            XmlDomXPathNode::Attribute { owner, name } => unwrap_text(
                owner.attribute(dom, name.as_str()),
            ),
            XmlDomXPathNode::Text(n) => unwrap_text(n.value(dom)),
            XmlDomXPathNode::Comment(n) => unwrap_text(n.value(dom)),
            XmlDomXPathNode::ProcessingInstruction(n) => unwrap_text(n.value(dom)),
            XmlDomXPathNode::Namespace { uri, .. } => Ok(uri.clone()),
        }
    }
}

/// Joins all text in a tree.
fn join_text(n: &DomNode, reading: Reading) -> (r: Result<String, XmlDomError>)
    ensures
        outcome(r) == joined_text(n.model(), reading),
{
    let all = listed(n);
    let ghost m = pointed(all@);
    let mut out: Vec<char> = Vec::new();
    proof {
        assert(out@ =~= Seq::<char>::empty());
    }
    let mut k: usize = 0;
    while k < all.len()
        invariant
            k <= all@.len(),
            m == pointed(all@),
            m == preorder(n.model()),
            joined_from(m, 0, reading, Seq::empty()) == joined_from(m, k as int, reading, out@),
        decreases all@.len() - k,
    {
        assert(m[k as int] == all@[k as int].model());
        let kind = all[k].kind;
        if kind == XmlNodeKind::Text || kind == XmlNodeKind::Cdata {
            match all[k].value_of(reading) {
                Err(e) => {
                    return Err(e);
                },
                Ok(Some(x)) => {
                    push_text(&mut out, x.as_str());
                },
                Ok(None) => {},
            }
        }
        k = k + 1;
    }
    Ok(string_of(out.as_slice()))
}

} // verus!
