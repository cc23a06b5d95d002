//! Reading the nodes of editable documents.

use vstd::prelude::*;

use crate::dom::{attribute_models, AttributeModel, XmlNode, XmlNodeKind};
use crate::error::ErrorModel;
use crate::facade::{handle_of, resolved, target, StateModel, XmlDom};
use crate::handle::{
    handle_models, handles_outcome, optional_outcome, outcome, plain_outcome, DomErrorModel,
    HandleModel, XmlDomError, XmlDomNode,
};
use crate::lexeme::CompactLexemeKind;
use crate::records::str_option;
use crate::text::{byte_len, lemma_byte_len_is_utf8, str_eq};
use crate::tree::{
    has_path, leaf_value, lemma_path_parent, node_at, node_ref, plain_attributes, read_text,
    snapshot, text_value, tree_attribute_models, tree_models, DomNode, Reading, TreeAttribute,
    TreeModel,
};

verus! {

/// The name of a node: that of an element, or the target of a processing instruction.
pub open spec fn node_name(t: TreeModel) -> Option<Seq<char>> {
    if t.kind == XmlNodeKind::Element || t.kind == XmlNodeKind::ProcessingInstruction {
        Some(t.name)
    } else {
        None
    }
}

/// What a node lets read: something of the node, or why the node is not there.
pub open spec fn read_with<T>(
    s: StateModel,
    h: HandleModel,
    f: spec_fn(TreeModel) -> Result<T, DomErrorModel>,
) -> Result<T, DomErrorModel> {
    match target(s, h) {
        Ok(t) => f(t),
        Err(e) => Err(e),
    }
}

/// A value, or the error of decoding it.
pub open spec fn decoded_value<T>(r: Result<T, ErrorModel>) -> Result<T, DomErrorModel> {
    match r {
        Ok(x) => Ok(x),
        Err(e) => Err(DomErrorModel::Parse(e)),
    }
}

/// The value of a node that is not an element.
pub open spec fn node_value(t: TreeModel, r: Reading) -> Result<Option<Seq<char>>, DomErrorModel> {
    if t.kind == XmlNodeKind::Element {
        Ok(None)
    } else {
        match leaf_value(t, r) {
            Ok(x) => Ok(Some(x)),
            Err(e) => Err(DomErrorModel::Parse(e)),
        }
    }
}

/// The first attribute with a name, from `k` on.
pub open spec fn attribute_index(a: Seq<TreeAttribute>, k: int, name: Seq<char>) -> Option<int>
    decreases a.len() - k,
{
    if k < 0 || k >= a.len() {
        None
    } else if a[k].name == name {
        Some(k)
    } else {
        attribute_index(a, k + 1, name)
    }
}

/// The value of the first attribute with a name.
pub open spec fn attribute_value(t: TreeModel, name: Seq<char>, r: Reading) -> Result<
    Option<Seq<char>>,
    DomErrorModel,
> {
    if t.kind != XmlNodeKind::Element {
        Ok(None)
    } else {
        match attribute_index(t.attributes, 0, name) {
            None => Ok(None),
            Some(k) => match text_value(t.attributes[k].value, CompactLexemeKind::Attribute, r) {
                Ok(x) => Ok(Some(x)),
                Err(e) => Err(DomErrorModel::Parse(e)),
            },
        }
    }
}

/// The names and values of the attributes.
pub open spec fn attribute_values(t: TreeModel, r: Reading) -> Result<
    Seq<AttributeModel>,
    DomErrorModel,
> {
    if t.kind != XmlNodeKind::Element {
        Err(DomErrorModel::NotElement)
    } else {
        decoded_value(plain_attributes(t, r))
    }
}

/// Pairs of names and values.
pub open spec fn pair_models(v: Seq<(String, String)>) -> Seq<AttributeModel> {
    Seq::new(v.len(), |i: int| AttributeModel { name: v[i].0@, value: v[i].1@ })
}

/// A kind of node that holds text.
pub open spec fn holds_text(kind: XmlNodeKind) -> bool {
    kind == XmlNodeKind::Text || kind == XmlNodeKind::Cdata
}

/// The first node that holds text, from `k` on.
pub open spec fn text_index(n: Seq<TreeModel>, k: int) -> Option<int>
    decreases n.len() - k,
{
    if k < 0 || k >= n.len() {
        None
    } else if holds_text(n[k].kind) {
        Some(k)
    } else {
        text_index(n, k + 1)
    }
}

/// The text of a node: its own, or that of the first child that holds text.
///
/// A comment or an instruction that was parsed has one if its value was set.
pub open spec fn node_content(t: TreeModel, r: Reading) -> Result<
    Option<Seq<char>>,
    DomErrorModel,
> {
    if t.kind == XmlNodeKind::Element {
        match text_index(t.children, 0) {
            None => Ok(None),
            Some(k) => node_value(t.children[k], r),
        }
    } else if holds_text(t.kind) {
        node_value(t, r)
    } else if t.recorded && !t.value.raw {
        Ok(Some(t.value.text))
    } else {
        Ok(None)
    }
}

/// The first node with a name, from `k` on.
pub open spec fn named_index(n: Seq<TreeModel>, k: int, name: Seq<char>) -> Option<int>
    decreases n.len() - k,
{
    if k < 0 || k >= n.len() {
        None
    } else if node_name(n[k]) == Some(name) {
        Some(k)
    } else {
        named_index(n, k + 1, name)
    }
}

/// The first element with a name, from `k` on.
pub open spec fn element_index(n: Seq<TreeModel>, k: int, name: Seq<char>) -> Option<int>
    decreases n.len() - k,
{
    if k < 0 || k >= n.len() {
        None
    } else if n[k].kind == XmlNodeKind::Element && n[k].name == name {
        Some(k)
    } else {
        element_index(n, k + 1, name)
    }
}

/// The last node with a name, up to `k`.
pub open spec fn named_index_back(n: Seq<TreeModel>, k: int, name: Seq<char>) -> Option<int>
    decreases k + 1,
{
    if k < 0 || k >= n.len() {
        None
    } else if node_name(n[k]) == Some(name) {
        Some(k)
    } else {
        named_index_back(n, k - 1, name)
    }
}

/// The handles of the nodes with a name, from `k` on, behind `acc`.
pub open spec fn named_handles(
    s: StateModel,
    n: Seq<TreeModel>,
    k: int,
    name: Seq<char>,
    acc: Seq<HandleModel>,
) -> Seq<HandleModel>
    decreases n.len() - k,
{
    if k < 0 || k >= n.len() {
        acc
    } else if node_name(n[k]) == Some(name) {
        named_handles(s, n, k + 1, name, acc.push(handle_of(s, n[k].id)))
    } else {
        named_handles(s, n, k + 1, name, acc)
    }
}

/// The handles of the nodes.
pub open spec fn handles_of(s: StateModel, n: Seq<TreeModel>) -> Seq<HandleModel> {
    Seq::new(n.len(), |i: int| handle_of(s, n[i].id))
}

/// An optional node as a handle.
pub open spec fn handle_at(s: StateModel, n: Seq<TreeModel>, k: Option<int>) -> Option<
    HandleModel,
> {
    match k {
        Some(i) => Some(handle_of(s, n[i].id)),
        None => None,
    }
}

/// A tree in document order, each node before its children.
pub open spec fn preorder(t: TreeModel) -> Seq<TreeModel>
    decreases t, 0int,
{
    seq![t] + preorders(t.children, t.children.len() as int)
}

/// The first `k` trees in document order.
pub open spec fn preorders(n: Seq<TreeModel>, k: int) -> Seq<TreeModel>
    decreases n, k,
{
    if k <= 0 || k > n.len() {
        Seq::empty()
    } else {
        preorders(n, k - 1) + preorder(n[k - 1])
    }
}

/// The elements among the nodes, from `k` on, behind `acc`.
pub open spec fn elements_from(n: Seq<TreeModel>, k: int, acc: Seq<TreeModel>) -> Seq<TreeModel>
    decreases n.len() - k,
{
    if k < 0 || k >= n.len() {
        acc
    } else if n[k].kind == XmlNodeKind::Element {
        elements_from(n, k + 1, acc.push(n[k]))
    } else {
        elements_from(n, k + 1, acc)
    }
}

/// The elements of a tree in document order.
pub open spec fn elements_of(t: TreeModel) -> Seq<TreeModel> {
    elements_from(preorder(t), 0, Seq::empty())
}

/// The parent of the node that a path leads to.
pub open spec fn parent_of(s: StateModel, p: Seq<usize>) -> Option<HandleModel> {
    if p.len() == 0 {
        None
    } else {
        Some(handle_of(s, node_at(s.root, p.drop_last()).id))
    }
}

/// The siblings of the node that a path leads to; none for the root.
pub open spec fn siblings_of(s: StateModel, p: Seq<usize>) -> Seq<TreeModel> {
    if p.len() == 0 {
        Seq::empty()
    } else {
        node_at(s.root, p.drop_last()).children
    }
}

/// The position among the siblings.
pub open spec fn place_of(p: Seq<usize>) -> int {
    if p.len() == 0 {
        0
    } else {
        p.last() as int
    }
}

/// The sibling at a position, if there is one.
pub open spec fn sibling_at(s: StateModel, p: Seq<usize>, k: int) -> Option<HandleModel> {
    let n = siblings_of(s, p);
    if 0 <= k < n.len() {
        Some(handle_of(s, n[k].id))
    } else {
        None
    }
}

impl DomNode {
    /// Returns the name.
    pub(crate) fn name_of(&self) -> (r: Option<&str>)
        ensures
            str_option(r) == node_name(self.model()),
    {
        match self.kind {
            XmlNodeKind::Element => Some(self.name.as_str()),
            XmlNodeKind::ProcessingInstruction => Some(self.name.as_str()),
            _ => None,
        }
    }

    /// Has the node the name?
    pub(crate) fn is_named(&self, name: &str) -> (r: bool)
        ensures
            r == (node_name(self.model()) == Some(name@)),
    {
        match self.name_of() {
            Some(n) => str_eq(n, name),
            None => false,
        }
    }

    /// Decodes the value of a node that is not an element.
    pub(crate) fn value_of(&self, r: Reading) -> (o: Result<Option<String>, XmlDomError>)
        ensures
            optional_outcome(o) == node_value(self.model(), r),
    {
        if self.kind == XmlNodeKind::Element {
            return Ok(None);
        }
        match self.read_value(r) {
            Ok(x) => Ok(Some(x)),
            Err(e) => Err(XmlDomError::Parse(e)),
        }
    }

    /// Finds the first attribute with a name.
    pub(crate) fn attribute_position(&self, name: &str) -> (r: Option<usize>)
        ensures
            match r {
                Some(k) => attribute_index(self.model().attributes, 0, name@) == Some(k as int)
                    && k < self.attributes@.len(),
                None => attribute_index(self.model().attributes, 0, name@) is None,
            },
    {
        let ghost a = tree_attribute_models(self.attributes@);
        let mut k: usize = 0;
        while k < self.attributes.len()
            invariant
                k <= self.attributes@.len(),
                a == tree_attribute_models(self.attributes@),
                attribute_index(a, 0, name@) == attribute_index(a, k as int, name@),
            decreases self.attributes@.len() - k,
        {
            assert(a[k as int] == self.attributes@[k as int]@);
            if str_eq(self.attributes[k].name.as_str(), name) {
                return Some(k);
            }
            k = k + 1;
        }
        None
    }

    /// Decodes the first attribute with a name.
    pub(crate) fn attribute_of(&self, name: &str, r: Reading) -> (o: Result<
        Option<String>,
        XmlDomError,
    >)
        ensures
            optional_outcome(o) == attribute_value(self.model(), name@, r),
    {
        if self.kind != XmlNodeKind::Element {
            return Ok(None);
        }
        match self.attribute_position(name) {
            None => Ok(None),
            Some(k) => {
                assert(self.model().attributes[k as int] == self.attributes@[k as int]@);
                match read_text(&self.attributes[k].value, CompactLexemeKind::Attribute, r) {
                    Ok(x) => Ok(Some(x)),
                    Err(e) => Err(XmlDomError::Parse(e)),
                }
            },
        }
    }

    /// Finds the first child that holds text.
    pub(crate) fn text_position(&self) -> (r: Option<usize>)
        ensures
            match r {
                Some(k) => text_index(self.model().children, 0) == Some(k as int) && k
                    < self.children@.len(),
                None => text_index(self.model().children, 0) is None,
            },
    {
        let ghost n = tree_models(self.children@);
        let mut k: usize = 0;
        while k < self.children.len()
            invariant
                k <= self.children@.len(),
                n == tree_models(self.children@),
                text_index(n, 0) == text_index(n, k as int),
            decreases self.children@.len() - k,
        {
            assert(n[k as int] == self.children@[k as int].model());
            let kind = self.children[k].kind;
            if kind == XmlNodeKind::Text || kind == XmlNodeKind::Cdata {
                return Some(k);
            }
            k = k + 1;
        }
        None
    }

    /// Finds the first child element with a name.
    pub(crate) fn element_position(&self, name: &str) -> (r: Option<usize>)
        ensures
            match r {
                Some(k) => element_index(self.model().children, 0, name@) == Some(k as int) && k
                    < self.children@.len(),
                None => element_index(self.model().children, 0, name@) is None,
            },
    {
        let ghost n = tree_models(self.children@);
        let mut k: usize = 0;
        while k < self.children.len()
            invariant
                n == tree_models(self.children@),
                element_index(n, 0, name@) == element_index(n, k as int, name@),
            decreases self.children@.len() - k,
        {
            assert(n[k as int] == self.children@[k as int].model());
            if self.children[k].kind == XmlNodeKind::Element && self.children[k].is_named(name) {
                return Some(k);
            }
            k = k + 1;
        }
        None
    }

    /// Finds the first child with a name, from `from` on.
    pub(crate) fn child_position(&self, from: usize, name: &str) -> (r: Option<usize>)
        ensures
            match r {
                Some(k) => named_index(self.model().children, from as int, name@) == Some(k as int)
                    && k < self.children@.len(),
                None => named_index(self.model().children, from as int, name@) is None,
            },
    {
        let ghost n = tree_models(self.children@);
        let mut k: usize = from;
        while k < self.children.len()
            invariant
                n == tree_models(self.children@),
                named_index(n, from as int, name@) == named_index(n, k as int, name@),
            decreases self.children@.len() - k,
        {
            assert(n[k as int] == self.children@[k as int].model());
            if self.children[k].is_named(name) {
                return Some(k);
            }
            k = k + 1;
        }
        None
    }
}

impl XmlDomNode {
    /// Returns what kind of node it is.
    pub fn kind(&self, dom: &XmlDom) -> (r: Result<XmlNodeKind, XmlDomError>)
        ensures
            plain_outcome(r) == read_with(dom@, self@, |t: TreeModel| Ok(t.kind)),
    {
        match dom.find(self) {
            Err(e) => Err(e),
            Ok(n) => Ok(n.kind),
        }
    }

    /// Returns the name of an element, or the target of a processing instruction.
    pub fn name(&self, dom: &XmlDom) -> (r: Result<Option<String>, XmlDomError>)
        ensures
            optional_outcome(r) == read_with(dom@, self@, |t: TreeModel| Ok(node_name(t))),
    {
        match dom.find(self) {
            Err(e) => Err(e),
            Ok(n) => match n.name_of() {
                Some(x) => Ok(Some(x.to_owned())),
                None => Ok(None),
            },
        }
    }

    /// Returns the length of the name in bytes.
    pub fn name_len(&self, dom: &XmlDom) -> (r: Result<Option<usize>, XmlDomError>)
        ensures
            match r {
                Err(e) => target(dom@, self@) == Err::<TreeModel, DomErrorModel>(e@),
                Ok(o) => target(dom@, self@) is Ok && match node_name(target(dom@, self@)->Ok_0) {
                    Some(x) => o matches Some(k) && k == byte_len(x),
                    None => o is None,
                },
            },
    {
        match dom.find(self) {
            Err(e) => Err(e),
            Ok(n) => match n.name_of() {
                Some(x) => {
                    proof {
                        lemma_byte_len_is_utf8(x@);
                    }
                    Ok(Some(x.as_bytes().len()))
                },
                None => Ok(None),
            },
        }
    }

    /// Returns the value of a text, a CDATA section, a comment or a processing instruction.
    pub fn value(&self, dom: &XmlDom) -> (r: Result<Option<String>, XmlDomError>)
        ensures
            optional_outcome(r) == read_with(
                dom@,
                self@,
                |t: TreeModel| node_value(t, dom@.reading),
            ),
    {
        match dom.find(self) {
            Err(e) => Err(e),
            Ok(n) => n.value_of(dom.state().reading),
        }
    }

    /// Returns the value of an attribute.
    pub fn attribute(&self, dom: &XmlDom, name: &str) -> (r: Result<Option<String>, XmlDomError>)
        ensures
            optional_outcome(r) == read_with(
                dom@,
                self@,
                |t: TreeModel| attribute_value(t, name@, dom@.reading),
            ),
    {
        match dom.find(self) {
            Err(e) => Err(e),
            Ok(n) => n.attribute_of(name, dom.state().reading),
        }
    }

    /// Returns the names and values of the attributes.
    pub fn attributes(&self, dom: &XmlDom) -> (r: Result<Vec<(String, String)>, XmlDomError>)
        ensures
            match r {
                Ok(v) => read_with(dom@, self@, |t: TreeModel| attribute_values(t, dom@.reading))
                    == Ok::<Seq<AttributeModel>, DomErrorModel>(pair_models(v@)),
                Err(e) => read_with(dom@, self@, |t: TreeModel| attribute_values(t, dom@.reading))
                    == Err::<Seq<AttributeModel>, DomErrorModel>(e@),
            },
    {
        let n = match dom.find(self) {
            Err(e) => {
                return Err(e);
            },
            Ok(n) => n,
        };
        if n.kind != XmlNodeKind::Element {
            return Err(XmlDomError::NotElement);
        }
        let a = match n.read_attributes(dom.state().reading) {
            Err(e) => {
                return Err(XmlDomError::Parse(e));
            },
            Ok(a) => a,
        };
        let mut out: Vec<(String, String)> = Vec::new();
        let mut k: usize = 0;
        while k < a.len()
            invariant
                k <= a@.len(),
                out@.len() == k,
                forall|i: int|
                    0 <= i < k ==> pair_models(out@)[i] == #[trigger] attribute_models(a@)[i],
            decreases a@.len() - k,
        {
            let ghost before = out@;
            out.push((a[k].name.clone(), a[k].value.clone()));
            proof {
                assert forall|i: int| 0 <= i < k + 1 implies pair_models(out@)[i]
                    == #[trigger] attribute_models(a@)[i] by {
                    if i < k {
                        assert(pair_models(before)[i] == attribute_models(a@)[i]);
                    }
                }
            }
            k = k + 1;
        }
        proof {
            assert(pair_models(out@) =~= attribute_models(a@));
        }
        Ok(out)
    }

    /// Returns the text: that of a text or a CDATA section, or of the first such child.
    ///
    /// A comment or an instruction that was parsed has one if its value was set.
    pub fn text(&self, dom: &XmlDom) -> (r: Result<Option<String>, XmlDomError>)
        ensures
            optional_outcome(r) == read_with(
                dom@,
                self@,
                |t: TreeModel| node_content(t, dom@.reading),
            ),
    {
        let n = match dom.find(self) {
            Err(e) => {
                return Err(e);
            },
            Ok(n) => n,
        };
        match n.kind {
            XmlNodeKind::Element => match n.text_position() {
                None => Ok(None),
                Some(k) => {
                    assert(n.model().children[k as int] == n.children@[k as int].model());
                    n.children[k].value_of(dom.state().reading)
                },
            },
            XmlNodeKind::Text => n.value_of(dom.state().reading),
            XmlNodeKind::Cdata => n.value_of(dom.state().reading),
            _ => if n.recorded && !n.value.raw {
                Ok(Some(n.value.text.clone()))
            } else {
                Ok(None)
            },
        }
    }

    /// Returns a copy of the node and of what is below it.
    pub fn snapshot(&self, dom: &XmlDom) -> (r: Result<XmlNode, XmlDomError>)
        ensures
            outcome(r) == read_with(
                dom@,
                self@,
                |t: TreeModel| decoded_value(snapshot(t, dom@.reading)),
            ),
    {
        match dom.find(self) {
            Err(e) => Err(e),
            Ok(n) => match n.snapshot(dom.state().reading) {
                Ok(x) => Ok(x),
                Err(e) => Err(XmlDomError::Parse(e)),
            },
        }
    }

    /// Returns how many elements the node is below the root.
    pub fn depth(&self, dom: &XmlDom) -> (r: Result<usize, XmlDomError>)
        ensures
            match r {
                Ok(d) => resolved(dom@, self@) is Ok && d == resolved(dom@, self@)->Ok_0.len(),
                Err(e) => resolved(dom@, self@) == Err::<Seq<usize>, DomErrorModel>(e@),
            },
    {
        match dom.resolve(self) {
            Err(e) => Err(e),
            Ok(p) => Ok(p.len()),
        }
    }

    /// Returns the root element.
    pub fn root(&self, dom: &XmlDom) -> (r: Result<XmlDomNode, XmlDomError>)
        ensures
            outcome(r) == read_with(dom@, self@, |t: TreeModel| Ok(handle_of(dom@, dom@.root.id))),
    {
        match dom.find(self) {
            Err(e) => Err(e),
            Ok(_) => Ok(dom.root()),
        }
    }

    /// Returns the parent; the root has none.
    pub fn parent(&self, dom: &XmlDom) -> (r: Result<Option<XmlDomNode>, XmlDomError>)
        ensures
            optional_outcome(r) == match resolved(dom@, self@) {
                Ok(p) => Ok(parent_of(dom@, p)),
                Err(e) => Err(e),
            },
    {
        let p = match dom.resolve(self) {
            Err(e) => {
                return Err(e);
            },
            Ok(p) => p,
        };
        if p.len() == 0 {
            return Ok(None);
        }
        let parent = parent_node(dom, &p);
        Ok(Some(dom.handle(parent.id)))
    }

    /// Returns the first child.
    pub fn first_child(&self, dom: &XmlDom) -> (r: Result<Option<XmlDomNode>, XmlDomError>)
        ensures
            optional_outcome(r) == read_with(
                dom@,
                self@,
                |t: TreeModel|
                    Ok(
                        if t.children.len() > 0 {
                            Some(handle_of(dom@, t.children[0].id))
                        } else {
                            None
                        },
                    ),
            ),
    {
        match dom.find(self) {
            Err(e) => Err(e),
            Ok(n) => if n.children.len() > 0 {
                assert(n.model().children[0] == n.children@[0].model());
                Ok(Some(dom.handle(n.children[0].id)))
            } else {
                Ok(None)
            },
        }
    }

    /// Returns the last child.
    pub fn last_child(&self, dom: &XmlDom) -> (r: Result<Option<XmlDomNode>, XmlDomError>)
        ensures
            optional_outcome(r) == read_with(
                dom@,
                self@,
                |t: TreeModel|
                    Ok(
                        if t.children.len() > 0 {
                            Some(handle_of(dom@, t.children.last().id))
                        } else {
                            None
                        },
                    ),
            ),
    {
        match dom.find(self) {
            Err(e) => Err(e),
            Ok(n) => {
                let k: usize = n.children.len();
                if k > 0 {
                    assert(n.model().children[k - 1] == n.children@[k - 1].model());
                    Ok(Some(dom.handle(n.children[k - 1].id)))
                } else {
                    Ok(None)
                }
            },
        }
    }

    /// Returns the first child with a name.
    pub fn child(&self, dom: &XmlDom, name: &str) -> (r: Result<Option<XmlDomNode>, XmlDomError>)
        ensures
            optional_outcome(r) == read_with(
                dom@,
                self@,
                |t: TreeModel|
                    Ok(handle_at(dom@, t.children, named_index(t.children, 0, name@))),
            ),
    {
        match dom.find(self) {
            Err(e) => Err(e),
            Ok(n) => match n.child_position(0, name) {
                Some(k) => {
                    assert(n.model().children[k as int] == n.children@[k as int].model());
                    Ok(Some(dom.handle(n.children[k].id)))
                },
                None => Ok(None),
            },
        }
    }

    /// Returns the children with a name.
    pub fn children_named(&self, dom: &XmlDom, name: &str) -> (r: Result<
        Vec<XmlDomNode>,
        XmlDomError,
    >)
        ensures
            handles_outcome(r) == read_with(
                dom@,
                self@,
                |t: TreeModel| Ok(named_handles(dom@, t.children, 0, name@, Seq::empty())),
            ),
    {
        let n = match dom.find(self) {
            Err(e) => {
                return Err(e);
            },
            Ok(n) => n,
        };
        let ghost m = n.model().children;
        let mut out: Vec<XmlDomNode> = Vec::new();
        proof {
            assert(handle_models(out@) =~= Seq::<HandleModel>::empty());
        }
        let mut k: usize = 0;
        while k < n.children.len()
            invariant
                k <= n.children@.len(),
                m == tree_models(n.children@),
                named_handles(dom@, m, 0, name@, Seq::empty()) == named_handles(
                    dom@,
                    m,
                    k as int,
                    name@,
                    handle_models(out@),
                ),
            decreases n.children@.len() - k,
        {
            assert(m[k as int] == n.children@[k as int].model());
            if n.children[k].is_named(name) {
                let ghost before = out@;
                let h = dom.handle(n.children[k].id);
                out.push(h);
                proof {
                    assert(handle_models(out@) =~= handle_models(before).push(h@));
                }
            }
            k = k + 1;
        }
        Ok(out)
    }

    /// Returns the children.
    pub fn children(&self, dom: &XmlDom) -> (r: Result<Vec<XmlDomNode>, XmlDomError>)
        ensures
            handles_outcome(r) == read_with(
                dom@,
                self@,
                |t: TreeModel| Ok(handles_of(dom@, t.children)),
            ),
    {
        let n = match dom.find(self) {
            Err(e) => {
                return Err(e);
            },
            Ok(n) => n,
        };
        let ghost m = n.model().children;
        let mut out: Vec<XmlDomNode> = Vec::new();
        let mut k: usize = 0;
        while k < n.children.len()
            invariant
                k <= n.children@.len(),
                m == tree_models(n.children@),
                out@.len() == k,
                forall|i: int| 0 <= i < k ==> (#[trigger] out@[i])@ == handle_of(dom@, m[i].id),
            decreases n.children@.len() - k,
        {
            assert(m[k as int] == n.children@[k as int].model());
            out.push(dom.handle(n.children[k].id));
            k = k + 1;
        }
        proof {
            assert(handle_models(out@) =~= handles_of(dom@, m));
        }
        Ok(out)
    }

    /// Returns the next sibling.
    pub fn next_sibling(&self, dom: &XmlDom) -> (r: Result<Option<XmlDomNode>, XmlDomError>)
        ensures
            optional_outcome(r) == match resolved(dom@, self@) {
                Ok(p) => Ok(sibling_at(dom@, p, place_of(p) + 1)),
                Err(e) => Err(e),
            },
    {
        let p = match dom.resolve(self) {
            Err(e) => {
                return Err(e);
            },
            Ok(p) => p,
        };
        if p.len() == 0 {
            return Ok(None);
        }
        let parent = parent_node(dom, &p);
        let k: usize = p[p.len() - 1];
        let n: usize = parent.children.len();
        if k < n && k + 1 < n {
            assert(parent.model().children[k + 1] == parent.children@[k + 1].model());
            return Ok(Some(dom.handle(parent.children[k + 1].id)));
        }
        Ok(None)
    }

    /// Returns the previous sibling.
    pub fn previous_sibling(&self, dom: &XmlDom) -> (r: Result<Option<XmlDomNode>, XmlDomError>)
        ensures
            optional_outcome(r) == match resolved(dom@, self@) {
                Ok(p) => Ok(sibling_at(dom@, p, place_of(p) - 1)),
                Err(e) => Err(e),
            },
    {
        let p = match dom.resolve(self) {
            Err(e) => {
                return Err(e);
            },
            Ok(p) => p,
        };
        if p.len() == 0 {
            return Ok(None);
        }
        let parent = parent_node(dom, &p);
        let k: usize = p[p.len() - 1];
        if k > 0 {
            proof {
                lemma_path_parent(dom@.root, p@);
            }
            assert(parent.model().children[k - 1] == parent.children@[k - 1].model());
            return Ok(Some(dom.handle(parent.children[k - 1].id)));
        }
        Ok(None)
    }

    /// Returns the next sibling with a name.
    pub fn next_sibling_named(&self, dom: &XmlDom, name: &str) -> (r: Result<
        Option<XmlDomNode>,
        XmlDomError,
    >)
        ensures
            optional_outcome(r) == match resolved(dom@, self@) {
                Ok(p) => Ok(
                    handle_at(
                        dom@,
                        siblings_of(dom@, p),
                        named_index(siblings_of(dom@, p), place_of(p) + 1, name@),
                    ),
                ),
                Err(e) => Err(e),
            },
    {
        let p = match dom.resolve(self) {
            Err(e) => {
                return Err(e);
            },
            Ok(p) => p,
        };
        if p.len() == 0 {
            return Ok(None);
        }
        let parent = parent_node(dom, &p);
        let k: usize = p[p.len() - 1];
        let n: usize = parent.children.len();
        proof {
            lemma_path_parent(dom@.root, p@);
        }
        match parent.child_position(k + 1, name) {
            Some(i) => {
                assert(parent.model().children[i as int] == parent.children@[i as int].model());
                Ok(Some(dom.handle(parent.children[i].id)))
            },
            None => Ok(None),
        }
    }

    /// Returns the previous sibling with a name.
    pub fn previous_sibling_named(&self, dom: &XmlDom, name: &str) -> (r: Result<
        Option<XmlDomNode>,
        XmlDomError,
    >)
        ensures
            optional_outcome(r) == match resolved(dom@, self@) {
                Ok(p) => Ok(
                    handle_at(
                        dom@,
                        siblings_of(dom@, p),
                        named_index_back(siblings_of(dom@, p), place_of(p) - 1, name@),
                    ),
                ),
                Err(e) => Err(e),
            },
    {
        let p = match dom.resolve(self) {
            Err(e) => {
                return Err(e);
            },
            Ok(p) => p,
        };
        if p.len() == 0 {
            return Ok(None);
        }
        let parent = parent_node(dom, &p);
        let ghost n = tree_models(parent.children@);
        let start: usize = p[p.len() - 1];
        let mut k: usize = start;
        proof {
            lemma_path_parent(dom@.root, p@);
        }
        while k > 0
            invariant
                n == tree_models(parent.children@),
                n == siblings_of(dom@, p@),
                resolved(dom@, self@) == Ok::<Seq<usize>, DomErrorModel>(p@),
                start == place_of(p@),
                k <= start < n.len(),
                named_index_back(n, start - 1, name@) == named_index_back(n, k - 1, name@),
            decreases k,
        {
            assert(n[k - 1] == parent.children@[k - 1].model());
            if parent.children[k - 1].is_named(name) {
                return Ok(Some(dom.handle(parent.children[k - 1].id)));
            }
            k = k - 1;
        }
        Ok(None)
    }
}

/// The parent of the node that a path leads to.
fn parent_node<'a>(dom: &'a XmlDom, p: &Vec<usize>) -> (r: &'a DomNode)
    requires
        has_path(dom@.root, p@),
        p@.len() > 0,
    ensures
        r.model() == node_at(dom@.root, p@.drop_last()),
{
    proof {
        lemma_path_parent(dom@.root, p@);
        assert(p@.subrange(0, p@.len() - 1) =~= p@.drop_last());
    }
    let s = vstd::slice::slice_subrange(p.as_slice(), 0, p.len() - 1);
    node_ref(&dom.state().root, s)
}

} // verus!
