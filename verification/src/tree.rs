//! The tree of an editable document.

use vstd::prelude::*;

use crate::dom::{
    attribute_models, node_models, AttributeModel, ElementModel, InstructionModel, NodeModel,
    XmlAttribute, XmlElement, XmlNode, XmlNodeKind, XmlProcessingInstruction,
};
use crate::error::{locate, located, ErrorModel, XmlResult};
use crate::lexeme::{
    decode_compact_lexeme, lexeme_value, CompactLexemeKind, XmlAttributeWhitespacePolicy,
    XmlVersion,
};
use crate::text::{string_of, Source};

verus! {

/// A text: as it is written in the source, or as it is meant.
#[derive(Debug)]
pub struct DomText {
    pub text: String,
    pub raw: bool,
}

/// A text as a mathematical value.
#[verifier::ext_equal]
pub struct TextModel {
    pub text: Seq<char>,
    pub raw: bool,
}

impl View for DomText {
    type V = TextModel;

    open spec fn view(&self) -> TextModel {
        TextModel { text: self.text@, raw: self.raw }
    }
}

/// An attribute of an editable element.
#[derive(Debug)]
pub struct DomAttribute {
    pub name: String,
    pub value: DomText,
}

/// An attribute of an editable element as a mathematical value.
#[verifier::ext_equal]
pub struct TreeAttribute {
    pub name: Seq<char>,
    pub value: TextModel,
}

impl View for DomAttribute {
    type V = TreeAttribute;

    open spec fn view(&self) -> TreeAttribute {
        TreeAttribute { name: self.name@, value: self.value@ }
    }
}

/// A node of an editable tree.
#[derive(Debug)]
pub struct DomNode {
    pub id: u64,
    pub origin: Option<u32>,
    pub kind: XmlNodeKind,
    pub name: String,
    pub value: DomText,
    pub attributes: Vec<DomAttribute>,
    pub children: Vec<DomNode>,
    /// It is a node of the text that was parsed, or a copy of one.
    pub recorded: bool,
    /// It is no longer what it was when it was parsed or added.
    pub touched: bool,
}

/// A node of an editable tree as a mathematical value.
#[verifier::ext_equal]
pub struct TreeModel {
    pub id: u64,
    pub origin: Option<u32>,
    pub kind: XmlNodeKind,
    pub name: Seq<char>,
    pub value: TextModel,
    pub attributes: Seq<TreeAttribute>,
    pub children: Seq<TreeModel>,
    pub recorded: bool,
    pub touched: bool,
}

/// The attributes of a list.
pub open spec fn tree_attribute_models(a: Seq<DomAttribute>) -> Seq<TreeAttribute> {
    Seq::new(a.len(), |i: int| a[i]@)
}

/// The nodes of a list.
pub open spec fn tree_models(n: Seq<DomNode>) -> Seq<TreeModel>
    decreases n,
{
    Seq::new(
        n.len(),
        |i: int|
            if 0 <= i < n.len() {
                n[i].model()
            } else {
                arbitrary()
            },
    )
}

impl DomNode {
    /// The node as a mathematical tree.
    pub open spec fn model(self) -> TreeModel
        decreases self,
    {
        TreeModel {
            id: self.id,
            origin: self.origin,
            kind: self.kind,
            name: self.name@,
            value: self.value@,
            attributes: tree_attribute_models(self.attributes@),
            children: tree_models(self.children@),
            recorded: self.recorded,
            touched: self.touched,
        }
    }
}

/// The path leads somewhere.
pub open spec fn has_path(t: TreeModel, path: Seq<usize>) -> bool
    decreases path.len(),
{
    path.len() == 0 || (path[0] < t.children.len() && has_path(
        t.children[path[0] as int],
        path.skip(1),
    ))
}

/// The node that a path leads to.
pub open spec fn node_at(t: TreeModel, path: Seq<usize>) -> TreeModel
    decreases path.len(),
{
    if path.len() == 0 {
        t
    } else {
        node_at(t.children[path[0] as int], path.skip(1))
    }
}

/// The tree with another node where the path leads.
pub open spec fn updated(t: TreeModel, path: Seq<usize>, n: TreeModel) -> TreeModel
    decreases path.len(),
{
    if path.len() == 0 {
        n
    } else {
        TreeModel {
            children: t.children.update(
                path[0] as int,
                updated(t.children[path[0] as int], path.skip(1), n),
            ),
            ..t
        }
    }
}

/// Another child is another node where the path leads, and one below it where the path goes on.
proof fn lemma_updated_child(t: TreeModel, path: Seq<usize>, k: usize, x: TreeModel)
    requires
        has_path(t, path),
        k < node_at(t, path).children.len(),
    ensures
        updated(t, path.push(k), x) == updated(
            t,
            path,
            TreeModel {
                children: node_at(t, path).children.update(k as int, x),
                ..node_at(t, path)
            },
        ),
    decreases path.len(),
{
    let p = path.push(k);
    if path.len() > 0 {
        lemma_updated_child(t.children[path[0] as int], path.skip(1), k, x);
        assert(p.skip(1) =~= path.skip(1).push(k));
        assert(p[0] == path[0]);
    } else {
        assert(p.skip(1) =~= Seq::<usize>::empty());
        assert(updated(t.children[k as int], p.skip(1), x) == x);
    }
}

/// The node that a path leads to, to be changed.
pub(crate) fn node_mut<'a>(t: &'a mut DomNode, path: &[usize]) -> (r: &'a mut DomNode)
    requires
        has_path(old(t).model(), path@),
    ensures
        r.model() == node_at(old(t).model(), path@),
        final(t).model() == updated(old(t).model(), path@, final(r).model()),
{
    let ghost start = t.model();
    let mut n = t;
    let mut i: usize = 0;
    proof {
        assert(path@.skip(0) =~= path@);
        assert(path@.take(0) =~= Seq::<usize>::empty());
    }
    while i < path.len()
        invariant
            i <= path@.len(),
            has_path(start, path@),
            start == old(t).model(),
            has_path(start, path@.take(i as int)),
            n.model() == node_at(start, path@.take(i as int)),
            has_path(n.model(), path@.skip(i as int)),
            final(t).model() == updated(start, path@.take(i as int), final(n).model()),
        decreases path@.len() - i,
    {
        let k: usize = path[i];
        let ghost before = n.model();
        proof {
            let p = path@.take(i as int);
            assert(path@.skip(i as int).skip(1) =~= path@.skip(i + 1));
            assert(path@.skip(i as int)[0] == k);
            assert(path@.take(i + 1) =~= p.push(k));
            lemma_path_child(start, p, k);
            let c = n.children@;
            assert forall|x: DomNode|
                tree_models(c.update(k as int, x)) == tree_models(c).update(
                    k as int,
                    #[trigger] x.model(),
                ) by {
                assert(tree_models(c.update(k as int, x)) =~= tree_models(c).update(
                    k as int,
                    x.model(),
                ));
            }
            assert forall|x: TreeModel|
                #[trigger] updated(start, p.push(k), x) == updated(
                    start,
                    p,
                    TreeModel { children: before.children.update(k as int, x), ..before },
                ) by {
                lemma_updated_child(start, p, k, x);
            }
        }
        n = &mut n.children[k];
        i = i + 1;
    }
    proof {
        assert(path@.take(path@.len() as int) =~= path@);
    }
    n
}

/// How values are written in the source: the version, and what becomes of white space in
/// attributes.
#[derive(Clone, Copy, Debug, PartialEq, Eq, Structural)]
pub struct Reading {
    pub version: XmlVersion,
    pub policy: XmlAttributeWhitespacePolicy,
}

/// What a text means.
pub open spec fn text_value(t: TextModel, kind: CompactLexemeKind, r: Reading) -> Result<
    Seq<char>,
    ErrorModel,
> {
    if t.raw {
        match lexeme_value(t.text, kind, r.version, r.policy) {
            Err(f) => Err(located(t.text, f)),
            Ok(x) => Ok(x),
        }
    } else {
        Ok(t.text)
    }
}

/// How the value of a node is written.
pub open spec fn value_kind(kind: XmlNodeKind) -> CompactLexemeKind {
    if kind == XmlNodeKind::Text {
        CompactLexemeKind::Text
    } else {
        CompactLexemeKind::Opaque
    }
}

/// The value of a node that is not an element.
pub open spec fn leaf_value(t: TreeModel, r: Reading) -> Result<Seq<char>, ErrorModel> {
    text_value(t.value, value_kind(t.kind), r)
}

/// The attributes from `k` on, behind `acc`.
pub open spec fn plain_attributes_from(
    a: Seq<TreeAttribute>,
    k: int,
    r: Reading,
    acc: Seq<AttributeModel>,
) -> Result<Seq<AttributeModel>, ErrorModel>
    decreases a.len() - k,
{
    if k < 0 || k >= a.len() {
        Ok(acc)
    } else {
        match text_value(a[k].value, CompactLexemeKind::Attribute, r) {
            Err(e) => Err(e),
            Ok(value) => plain_attributes_from(
                a,
                k + 1,
                r,
                acc.push(AttributeModel { name: a[k].name, value }),
            ),
        }
    }
}

/// The attributes with their values.
pub open spec fn plain_attributes(t: TreeModel, r: Reading) -> Result<
    Seq<AttributeModel>,
    ErrorModel,
> {
    plain_attributes_from(t.attributes, 0, r, Seq::empty())
}

/// What a node of the tree is outside of it.
pub open spec fn snapshot(t: TreeModel, r: Reading) -> Result<NodeModel, ErrorModel>
    decreases t, 0int,
{
    match t.kind {
        XmlNodeKind::Element => match plain_attributes(t, r) {
            Err(e) => Err(e),
            Ok(attributes) => match snapshots_from(t.children, 0, r, Seq::empty()) {
                Err(e) => Err(e),
                Ok(children) => Ok(
                    NodeModel::Element(ElementModel { name: t.name, attributes, children }),
                ),
            },
        },
        _ => match leaf_value(t, r) {
            Err(e) => Err(e),
            Ok(x) => Ok(leaf_node(t.kind, t.name, x)),
        },
    }
}

/// A node that is not an element.
pub open spec fn leaf_node(kind: XmlNodeKind, name: Seq<char>, value: Seq<char>) -> NodeModel {
    match kind {
        XmlNodeKind::Text => NodeModel::Text(value),
        XmlNodeKind::Comment => NodeModel::Comment(value),
        XmlNodeKind::ProcessingInstruction => NodeModel::ProcessingInstruction(
            InstructionModel { target: name, data: value },
        ),
        _ => NodeModel::Cdata(value),
    }
}

/// The nodes from `k` on, behind `acc`.
pub open spec fn snapshots_from(
    n: Seq<TreeModel>,
    k: int,
    r: Reading,
    acc: Seq<NodeModel>,
) -> Result<Seq<NodeModel>, ErrorModel>
    decreases n, n.len() - k,
{
    if k < 0 || k >= n.len() {
        Ok(acc)
    } else {
        match snapshot(n[k], r) {
            Err(e) => Err(e),
            Ok(x) => snapshots_from(n, k + 1, r, acc.push(x)),
        }
    }
}

/// How many nodes a node outside of a tree has, itself with them.
pub open spec fn node_count(n: NodeModel) -> nat
    decreases n, 0int,
{
    match n {
        NodeModel::Element(e) => 1 + nodes_count(e.children, e.children.len() as int),
        _ => 1,
    }
}

/// How many nodes the first `k` nodes have.
pub open spec fn nodes_count(n: Seq<NodeModel>, k: int) -> nat
    decreases n, k,
{
    if k <= 0 || k > n.len() {
        0
    } else {
        nodes_count(n, k - 1) + node_count(n[k - 1])
    }
}

/// A text that means what it says.
pub open spec fn plain_text(s: Seq<char>) -> TextModel {
    TextModel { text: s, raw: false }
}

/// Attributes that mean what they say.
pub open spec fn planted_attributes(a: Seq<AttributeModel>) -> Seq<TreeAttribute> {
    Seq::new(a.len(), |i: int| TreeAttribute { name: a[i].name, value: plain_text(a[i].value) })
}

/// The node in a tree, its nodes numbered from `first` on in document order.
pub open spec fn planted(n: NodeModel, first: int) -> TreeModel
    decreases n, 0int,
{
    let id = first as u64;
    match n {
        NodeModel::Element(e) => TreeModel {
            id,
            origin: None,
            kind: XmlNodeKind::Element,
            name: e.name,
            value: plain_text(Seq::empty()),
            attributes: planted_attributes(e.attributes),
            children: planted_all(e.children, e.children.len() as int, first + 1),
            recorded: false,
            touched: false,
        },
        NodeModel::Text(s) => planted_leaf(id, XmlNodeKind::Text, Seq::empty(), s),
        NodeModel::Comment(s) => planted_leaf(id, XmlNodeKind::Comment, Seq::empty(), s),
        NodeModel::Cdata(s) => planted_leaf(id, XmlNodeKind::Cdata, Seq::empty(), s),
        NodeModel::ProcessingInstruction(i) => planted_leaf(
            id,
            XmlNodeKind::ProcessingInstruction,
            i.target,
            i.data,
        ),
    }
}

/// A node that is not an element, in a tree.
pub open spec fn planted_leaf(
    id: u64,
    kind: XmlNodeKind,
    name: Seq<char>,
    value: Seq<char>,
) -> TreeModel {
    TreeModel {
        id,
        origin: None,
        kind,
        name,
        value: plain_text(value),
        attributes: Seq::empty(),
        children: Seq::empty(),
        recorded: false,
        touched: false,
    }
}

/// The first `k` nodes in a tree, numbered from `first` on.
pub open spec fn planted_all(n: Seq<NodeModel>, k: int, first: int) -> Seq<TreeModel>
    decreases n, k,
{
    if k <= 0 || k > n.len() {
        Seq::empty()
    } else {
        planted_all(n, k - 1, first).push(planted(n[k - 1], first + nodes_count(n, k - 1)))
    }
}

/// How many nodes a tree has.
pub open spec fn size(t: TreeModel) -> nat
    decreases t, 0int,
{
    1 + sizes(t.children, t.children.len() as int)
}

/// How many nodes the first `k` trees have.
pub open spec fn sizes(n: Seq<TreeModel>, k: int) -> nat
    decreases n, k,
{
    if k <= 0 || k > n.len() {
        0
    } else {
        sizes(n, k - 1) + size(n[k - 1])
    }
}

/// A copy of a tree, its nodes numbered from `first` on; a copy has no place in the source.
pub open spec fn copied(t: TreeModel, first: int) -> TreeModel
    decreases t, 0int,
{
    TreeModel {
        id: first as u64,
        origin: None,
        children: copied_all(t.children, t.children.len() as int, first + 1),
        ..t
    }
}

/// Copies of the first `k` trees, numbered from `first` on.
pub open spec fn copied_all(n: Seq<TreeModel>, k: int, first: int) -> Seq<TreeModel>
    decreases n, k,
{
    if k <= 0 || k > n.len() {
        Seq::empty()
    } else {
        copied_all(n, k - 1, first).push(copied(n[k - 1], first + sizes(n, k - 1)))
    }
}

/// The tree is as it was parsed.
pub open spec fn pristine(t: TreeModel) -> bool
    decreases t, 0int,
{
    t.recorded && !t.touched && pristine_all(t.children, t.children.len() as int)
}

/// The first `k` trees are as they were parsed.
pub open spec fn pristine_all(n: Seq<TreeModel>, k: int) -> bool
    decreases n, k,
{
    k <= 0 || k > n.len() || (pristine_all(n, k - 1) && pristine(n[k - 1]))
}

/// Attributes with their values, which mean what they say.
pub open spec fn settled_attributes(a: Seq<TreeAttribute>, r: Reading) -> Seq<TreeAttribute> {
    Seq::new(
        a.len(),
        |i: int|
            TreeAttribute {
                name: a[i].name,
                value: plain_text(text_value(a[i].value, CompactLexemeKind::Attribute, r)->Ok_0),
            },
    )
}

/// The tree with the same numbers and values that mean what they say; it has no place in the
/// source.
pub open spec fn settled(t: TreeModel, r: Reading) -> TreeModel
    decreases t, 0int,
{
    if t.kind == XmlNodeKind::Element {
        TreeModel {
            origin: None,
            attributes: settled_attributes(t.attributes, r),
            children: settled_all(t.children, t.children.len() as int, r),
            recorded: false,
            touched: false,
            ..t
        }
    } else {
        TreeModel {
            origin: None,
            value: plain_text(leaf_value(t, r)->Ok_0),
            recorded: false,
            touched: false,
            ..t
        }
    }
}

/// The first `k` trees with values that mean what they say.
pub open spec fn settled_all(n: Seq<TreeModel>, k: int, r: Reading) -> Seq<TreeModel>
    decreases n, k,
{
    if k <= 0 || k > n.len() {
        Seq::empty()
    } else {
        settled_all(n, k - 1, r).push(settled(n[k - 1], r))
    }
}

/// The path to the first node with a number.
pub open spec fn path_to(t: TreeModel, id: u64) -> Option<Seq<usize>>
    decreases t, 0int,
{
    if t.id == id {
        Some(Seq::empty())
    } else {
        path_among(t.children, 0, id)
    }
}

/// The path to the first node with a number below the nodes from `k` on.
pub open spec fn path_among(n: Seq<TreeModel>, k: int, id: u64) -> Option<Seq<usize>>
    decreases n, n.len() - k,
{
    if k < 0 || k >= n.len() || k > usize::MAX {
        None
    } else {
        match path_to(n[k], id) {
            Some(p) => Some(seq![k as usize] + p),
            None => path_among(n, k + 1, id),
        }
    }
}

/// How many nodes have a number.
pub open spec fn occurrences(t: TreeModel, id: u64) -> nat
    decreases t, 0int,
{
    (if t.id == id {
        1nat
    } else {
        0nat
    }) + occurrences_among(t.children, t.children.len() as int, id)
}

/// How many nodes below the first `k` have a number.
pub open spec fn occurrences_among(n: Seq<TreeModel>, k: int, id: u64) -> nat
    decreases n, k,
{
    if k <= 0 || k > n.len() {
        0
    } else {
        occurrences_among(n, k - 1, id) + occurrences(n[k - 1], id)
    }
}

/// Decodes a text.
pub(crate) fn read_text(t: &DomText, kind: CompactLexemeKind, r: Reading) -> (res: XmlResult<String>)
    ensures
        match res {
            Ok(x) => text_value(t@, kind, r) == Ok::<Seq<char>, ErrorModel>(x@),
            Err(e) => text_value(t@, kind, r) == Err::<Seq<char>, ErrorModel>(e@),
        },
{
    if !t.raw {
        return Ok(t.text.clone());
    }
    let source = Source::new(t.text.as_str());
    match decode_compact_lexeme(source.chars.as_slice(), kind, r.version, r.policy) {
        Ok(x) => Ok(string_of(x.as_slice())),
        Err(f) => Err(locate(&source, f)),
    }
}

/// How the value of a node is written.
fn lexeme_kind(kind: XmlNodeKind) -> (r: CompactLexemeKind)
    ensures
        r == value_kind(kind),
{
    match kind {
        XmlNodeKind::Text => CompactLexemeKind::Text,
        _ => CompactLexemeKind::Opaque,
    }
}

/// A text that means what it says.
pub(crate) fn to_plain_text(s: &str) -> (r: DomText)
    ensures
        r@ == plain_text(s@),
{
    DomText { text: s.to_owned(), raw: false }
}

impl DomText {
    /// Copies the text.
    pub(crate) fn copy(&self) -> (r: Self)
        ensures
            r@ == self@,
    {
        DomText { text: self.text.clone(), raw: self.raw }
    }
}

impl DomNode {
    /// Decodes the value of a node that is not an element.
    pub(crate) fn read_value(&self, r: Reading) -> (res: XmlResult<String>)
        ensures
            match res {
                Ok(x) => leaf_value(self.model(), r) == Ok::<Seq<char>, ErrorModel>(x@),
                Err(e) => leaf_value(self.model(), r) == Err::<Seq<char>, ErrorModel>(e@),
            },
    {
        read_text(&self.value, lexeme_kind(self.kind), r)
    }

    /// Decodes the attributes.
    pub(crate) fn read_attributes(&self, r: Reading) -> (res: XmlResult<Vec<XmlAttribute>>)
        ensures
            match res {
                Ok(x) => plain_attributes(self.model(), r) == Ok::<Seq<AttributeModel>, ErrorModel>(
                    attribute_models(x@),
                ),
                Err(e) => plain_attributes(self.model(), r) == Err::<
                    Seq<AttributeModel>,
                    ErrorModel,
                >(e@),
            },
    {
        let ghost a = tree_attribute_models(self.attributes@);
        let mut out: Vec<XmlAttribute> = Vec::new();
        proof {
            assert(attribute_models(out@) =~= Seq::<AttributeModel>::empty());
        }
        let mut k: usize = 0;
        while k < self.attributes.len()
            invariant
                k <= self.attributes@.len(),
                a == tree_attribute_models(self.attributes@),
                plain_attributes(self.model(), r) == plain_attributes_from(
                    a,
                    k as int,
                    r,
                    attribute_models(out@),
                ),
            decreases self.attributes@.len() - k,
        {
            let x = &self.attributes[k];
            assert(a[k as int] == x@);
            match read_text(&x.value, CompactLexemeKind::Attribute, r) {
                Err(e) => {
                    return Err(e);
                },
                Ok(value) => {
                    let ghost before = out@;
                    let y = XmlAttribute { name: x.name.clone(), value };
                    out.push(y);
                    proof {
                        assert(attribute_models(out@) =~= attribute_models(before).push(y@));
                    }
                },
            }
            k = k + 1;
        }
        Ok(out)
    }

    /// The node outside of the tree, if it is not an element.
    fn leaf_snapshot(&self, r: Reading) -> (res: XmlResult<XmlNode>)
        requires
            self.kind != XmlNodeKind::Element,
        ensures
            match res {
                Ok(x) => snapshot(self.model(), r) == Ok::<NodeModel, ErrorModel>(x.model()),
                Err(e) => snapshot(self.model(), r) == Err::<NodeModel, ErrorModel>(e@),
            },
    {
        match self.read_value(r) {
            Err(e) => Err(e),
            Ok(x) => match self.kind {
                XmlNodeKind::Text => Ok(XmlNode::Text(x)),
                XmlNodeKind::Comment => Ok(XmlNode::Comment(x)),
                XmlNodeKind::ProcessingInstruction => Ok(
                    XmlNode::ProcessingInstruction(
                        XmlProcessingInstruction { target: self.name.clone(), data: x },
                    ),
                ),
                _ => Ok(XmlNode::Cdata(x)),
            },
        }
    }

    /// The node outside of the tree.
    pub(crate) fn snapshot(&self, r: Reading) -> (res: XmlResult<XmlNode>)
        ensures
            match res {
                Ok(x) => snapshot(self.model(), r) == Ok::<NodeModel, ErrorModel>(x.model()),
                Err(e) => snapshot(self.model(), r) == Err::<NodeModel, ErrorModel>(e@),
            },
    {
        match self.kind {
            XmlNodeKind::Element => {
                let attributes = match self.read_attributes(r) {
                    Err(e) => {
                        return Err(e);
                    },
                    Ok(x) => x,
                };
                match snapshot_all(&self.children, r) {
                    Err(e) => Err(e),
                    Ok(children) => Ok(
                        XmlNode::Element(
                            XmlElement { name: self.name.clone(), attributes, children },
                        ),
                    ),
                }
            },
            _ => self.leaf_snapshot(r),
        }
    }
}

/// How many nodes the trees from `k` on have.
pub open spec fn later_sizes(n: Seq<TreeModel>, k: int) -> nat
    decreases n.len() - k,
{
    if k < 0 || k >= n.len() {
        0
    } else {
        size(n[k]) + later_sizes(n, k + 1)
    }
}

/// The nodes of trees are those of the first trees and those of the rest.
pub(crate) proof fn lemma_later_sizes(n: Seq<TreeModel>, k: int)
    requires
        0 <= k <= n.len(),
    ensures
        sizes(n, n.len() as int) == sizes(n, k) + later_sizes(n, k),
    decreases n.len() - k,
{
    if k < n.len() {
        lemma_later_sizes(n, k + 1);
    }
}

/// How many nodes are still to be gone through: for each list those from an index on.
pub open spec fn uncounted_trees(st: Seq<(&Vec<DomNode>, usize)>) -> nat
    decreases st.len(),
{
    if st.len() == 0 {
        0
    } else {
        uncounted_trees(st.drop_last()) + later_sizes(
            tree_models(st.last().0@),
            st.last().1 as int,
        )
    }
}

/// A list of nodes that is being taken out of a tree, and the element whose children they are,
/// with its attributes.
struct Taking<'a> {
    of: Option<&'a DomNode>,
    attributes: Vec<XmlAttribute>,
    nodes: &'a Vec<DomNode>,
    out: Vec<XmlNode>,
}

impl<'a> Taking<'a> {
    /// The first nodes and the attributes are taken.
    spec fn wf(self, r: Reading) -> bool {
        let m = tree_models(self.nodes@);
        &&& self.out@.len() <= m.len()
        &&& snapshots_from(m, 0, r, Seq::empty()) == snapshots_from(
            m,
            self.out@.len() as int,
            r,
            node_models(self.out@),
        )
        &&& self.of matches Some(d) ==> plain_attributes(d.model(), r) == Ok::<
            Seq<AttributeModel>,
            ErrorModel,
        >(attribute_models(self.attributes@))
    }

    /// The element is the next node of another list.
    spec fn next_of(self, parent: Taking<'a>) -> bool {
        &&& self.of matches Some(d) && self.nodes == d.children && d.kind == XmlNodeKind::Element
        &&& parent.out@.len() < parent.nodes@.len()
        &&& parent.nodes@[parent.out@.len() as int] == *self.of->Some_0
    }
}

/// What is left in the lists that wait for one of their nodes.
spec fn taking_left(st: Seq<Taking<'_>>) -> nat
    decreases st.len(),
{
    if st.len() == 0 {
        0
    } else {
        taking_left(st.drop_last()) + 2 * later_sizes(
            tree_models(st.last().nodes@),
            st.last().out@.len() as int + 1,
        ) + 1
    }
}

/// The lists wait for one another.
spec fn taking_chained(st: Seq<Taking<'_>>, top: Taking<'_>, r: Reading) -> bool
    decreases st.len(),
{
    &&& top.wf(r)
    &&& if st.len() == 0 {
        top.of is None
    } else {
        top.next_of(st.last()) && taking_chained(st.drop_last(), st.last(), r)
    }
}

/// The list at the bottom of the stack.
spec fn taking_bottom(st: Seq<Taking<'_>>, top: Taking<'_>) -> Seq<TreeModel> {
    if st.len() == 0 {
        tree_models(top.nodes@)
    } else {
        tree_models(st[0].nodes@)
    }
}

/// What fails in one list fails in those that wait for it.
proof fn lemma_taking_fails(st: Seq<Taking<'_>>, top: Taking<'_>, r: Reading, e: ErrorModel)
    requires
        taking_chained(st, top, r),
        snapshots_from(tree_models(top.nodes@), 0, r, Seq::empty()) == Err::<
            Seq<NodeModel>,
            ErrorModel,
        >(e),
    ensures
        snapshots_from(taking_bottom(st, top), 0, r, Seq::empty()) == Err::<
            Seq<NodeModel>,
            ErrorModel,
        >(e),
    decreases st.len(),
{
    if st.len() > 0 {
        let parent = st.last();
        let k = parent.out@.len() as int;
        let m = tree_models(parent.nodes@);
        let d = top.of->Some_0;
        assert(m[k] == d.model());
        assert(d.model().children == tree_models(top.nodes@));
        assert(snapshot(m[k], r) == Err::<NodeModel, ErrorModel>(e));
        assert(taking_chained(st.drop_last(), parent, r));
        assert(parent.wf(r));
        assert(snapshots_from(m, k, r, node_models(parent.out@)) == Err::<
            Seq<NodeModel>,
            ErrorModel,
        >(e));
        lemma_taking_fails(st.drop_last(), parent, r, e);
        assert(taking_bottom(st.drop_last(), parent) == taking_bottom(st, top));
    }
}

/// The nodes outside of the tree.
///
/// The lists that are not done wait on a stack, so that the depth of the tree does not matter.
pub(crate) fn snapshot_all(n: &Vec<DomNode>, r: Reading) -> (res: XmlResult<Vec<XmlNode>>)
    ensures
        match res {
            Ok(x) => snapshots_from(tree_models(n@), 0, r, Seq::empty()) == Ok::<
                Seq<NodeModel>,
                ErrorModel,
            >(node_models(x@)),
            Err(e) => snapshots_from(tree_models(n@), 0, r, Seq::empty()) == Err::<
                Seq<NodeModel>,
                ErrorModel,
            >(e@),
        },
{
    let mut stack: Vec<Taking<'_>> = Vec::new();
    let mut top = Taking { of: None, attributes: Vec::new(), nodes: n, out: Vec::new() };
    proof {
        assert(node_models(top.out@) =~= Seq::<NodeModel>::empty());
    }
    loop
        invariant
            taking_chained(stack@, top, r),
            taking_bottom(stack@, top) == tree_models(n@),
        decreases
                taking_left(stack@) + 2 * later_sizes(
                    tree_models(top.nodes@),
                    top.out@.len() as int,
                ) + 1,
    {
        let k: usize = top.out.len();
        let ghost m = tree_models(top.nodes@);
        if k < top.nodes.len() {
            let x = &top.nodes[k];
            proof {
                assert(m[k as int] == x.model());
                assert(later_sizes(m, k as int) == size(m[k as int]) + later_sizes(m, k + 1));
            }
            if x.kind == XmlNodeKind::Element {
                let attributes = match x.read_attributes(r) {
                    Err(e) => {
                        proof {
                            assert(snapshot(m[k as int], r) == Err::<NodeModel, ErrorModel>(e@));
                            lemma_taking_fails(stack@, top, r, e@);
                        }
                        return Err(e);
                    },
                    Ok(a) => a,
                };
                let below = Taking {
                    of: Some(x),
                    attributes,
                    nodes: &x.children,
                    out: Vec::new(),
                };
                let ghost before = stack@;
                let ghost held = top;
                let ghost c = tree_models(x.children@);
                stack.push(top);
                proof {
                    assert(x.model().children == c);
                    assert(node_models(below.out@) =~= Seq::<NodeModel>::empty());
                    assert(stack@.drop_last() =~= before);
                    assert(stack@.last() == held);
                    lemma_later_sizes(c, 0);
                    assert(size(m[k as int]) == 1 + later_sizes(c, 0));
                }
                top = below;
            } else {
                match x.leaf_snapshot(r) {
                    Err(e) => {
                        proof {
                            lemma_taking_fails(stack@, top, r, e@);
                        }
                        return Err(e);
                    },
                    Ok(y) => {
                        let ghost before = top.out@;
                        top.out.push(y);
                        proof {
                            assert(node_models(top.out@) =~= node_models(before).push(y.model()));
                        }
                    },
                }
            }
        } else {
            let ghost before = stack@;
            match stack.pop() {
                None => {
                    return Ok(top.out);
                },
                Some(parent) => {
                    let mut parent = parent;
                    let ghost list = tree_models(parent.nodes@);
                    let ghost i = parent.out@.len() as int;
                    proof {
                        assert(stack@ =~= before.drop_last());
                        assert(taking_chained(stack@, parent, r));
                        assert(list[i] == parent.nodes@[i].model());
                    }
                    if let Some(d) = top.of {
                        let x = XmlNode::Element(
                            XmlElement {
                                name: d.name.clone(),
                                attributes: top.attributes,
                                children: top.out,
                            },
                        );
                        let ghost done = parent.out@;
                        parent.out.push(x);
                        proof {
                            assert(d.model().children == m);
                            assert(snapshot(list[i], r) == Ok::<NodeModel, ErrorModel>(x.model()));
                            assert(node_models(parent.out@) =~= node_models(done).push(x.model()));
                            assert(parent.wf(r));
                        }
                    }
                    top = parent;
                },
            }
        }
    }
}

/// The indices before those that lists are searched from.
spec fn trail(st: Seq<(&Vec<DomNode>, usize)>) -> Seq<usize> {
    Seq::new(st.len(), |i: int| (st[i].1 - 1) as usize)
}

/// The path that is found below lists that are searched from an index on, the last list first.
spec fn path_below(st: Seq<(&Vec<DomNode>, usize)>, id: u64) -> Option<Seq<usize>>
    decreases st.len(),
{
    if st.len() == 0 {
        None
    } else {
        match path_among(tree_models(st.last().0@), st.last().1 as int, id) {
            Some(p) => Some(trail(st.drop_last()) + p),
            None => path_below(st.drop_last(), id),
        }
    }
}

/// Finds the path to the first node with a number.
///
/// The lists that are not done wait on a stack, so that the depth of the tree does not matter.
pub(crate) fn find_path(n: &DomNode, id: u64) -> (r: Option<Vec<usize>>)
    ensures
        match r {
            Some(p) => path_to(n.model(), id) == Some(p@),
            None => path_to(n.model(), id) is None,
        },
{
    if n.id == id {
        return Some(Vec::new());
    }
    let mut stack: Vec<(&Vec<DomNode>, usize)> = Vec::new();
    stack.push((&n.children, 0));
    proof {
        let m = tree_models(n.children@);
        assert(stack@.drop_last() =~= Seq::<(&Vec<DomNode>, usize)>::empty());
        assert(path_below(stack@.drop_last(), id) is None);
        if let Some(p) = path_among(m, 0, id) {
            assert(trail(stack@.drop_last()) + p =~= p);
        }
        lemma_later_sizes(m, 0);
    }
    while stack.len() > 0
        invariant
            path_to(n.model(), id) == path_below(stack@, id),
            forall|i: int| 0 <= i < stack@.len() - 1 ==> (#[trigger] stack@[i]).1 > 0,
        decreases uncounted_trees(stack@), stack@.len(),
    {
        let ghost before = stack@;
        if let Some((nodes, k)) = stack.pop() {
            let ghost m = tree_models(nodes@);
            let ghost below = stack@;
            proof {
                assert(before.drop_last() =~= below);
                assert(before.last() == (nodes, k));
                assert forall|i: int| 0 <= i < below.len() implies (#[trigger] below[i]).1 > 0 by {
                    assert(below[i] == before[i]);
                }
            }
            if k < nodes.len() {
                let x = &nodes[k];
                let ghost c = tree_models(x.children@);
                stack.push((nodes, k + 1));
                let ghost held = stack@;
                proof {
                    assert(m[k as int] == x.model());
                    assert(held.drop_last() =~= below);
                    assert(held.last() == (nodes, (k + 1) as usize));
                    assert(trail(held) =~= trail(below).push(k));
                    assert(path_among(m, k as int, id) == (match path_to(m[k as int], id) {
                        Some(p) => Some(seq![k] + p),
                        None => path_among(m, k + 1, id),
                    }));
                    assert(path_below(held, id) == (match path_among(m, k + 1, id) {
                        Some(p) => Some(trail(below) + p),
                        None => path_below(below, id),
                    }));
                }
                if x.id == id {
                    let mut path: Vec<usize> = Vec::with_capacity(stack.len());
                    let mut i: usize = 0;
                    while i < stack.len()
                        invariant
                            i <= stack@.len(),
                            forall|j: int| 0 <= j < stack@.len() ==> (#[trigger] stack@[j]).1 > 0,
                            path@ == trail(stack@).take(i as int),
                        decreases stack@.len() - i,
                    {
                        let at: usize = stack[i].1;
                        path.push(at - 1);
                        proof {
                            assert(trail(stack@).take(i + 1) =~= trail(stack@).take(i as int).push(
                                trail(stack@)[i as int],
                            ));
                        }
                        i = i + 1;
                    }
                    proof {
                        assert(trail(held).take(held.len() as int) =~= trail(held));
                        assert(trail(below) + (seq![k] + Seq::<usize>::empty()) =~= trail(held));
                    }
                    return Some(path);
                }
                stack.push((&x.children, 0));
                proof {
                    assert(stack@.drop_last() =~= held);
                    assert(path_to(m[k as int], id) == path_among(c, 0, id));
                    assert(path_below(stack@, id) == (match path_among(c, 0, id) {
                        Some(p) => Some(trail(held) + p),
                        None => path_below(held, id),
                    }));
                    if let Some(p) = path_among(c, 0, id) {
                        assert(trail(below) + (seq![k] + p) =~= trail(held) + p);
                    }
                    assert(later_sizes(m, k as int) == size(m[k as int]) + later_sizes(m, k + 1));
                    lemma_later_sizes(c, 0);
                    assert(uncounted_trees(held) == uncounted_trees(below) + later_sizes(m, k + 1));
                    assert(uncounted_trees(stack@) == uncounted_trees(held) + later_sizes(c, 0));
                }
            }
        }
    }
    None
}

/// The node that a path leads to.
pub(crate) fn node_ref<'a>(t: &'a DomNode, path: &[usize]) -> (r: &'a DomNode)
    requires
        has_path(t.model(), path@),
    ensures
        r.model() == node_at(t.model(), path@),
{
    let mut n = t;
    let mut i: usize = 0;
    proof {
        assert(path@.skip(0) =~= path@);
    }
    while i < path.len()
        invariant
            i <= path@.len(),
            has_path(n.model(), path@.skip(i as int)),
            node_at(n.model(), path@.skip(i as int)) == node_at(t.model(), path@),
        decreases path@.len() - i,
    {
        proof {
            assert(path@.skip(i as int).skip(1) =~= path@.skip(i + 1));
            assert(path@.skip(i as int)[0] == path@[i as int]);
        }
        n = &n.children[path[i]];
        i = i + 1;
    }
    n
}

/// A path that was found leads to a node with the number.
pub proof fn lemma_path_found(t: TreeModel, id: u64)
    ensures
        path_to(t, id) matches Some(p) ==> has_path(t, p) && node_at(t, p).id == id,
    decreases t, 0int,
{
    if t.id != id {
        lemma_path_found_among(t.children, 0, id);
        if let Some(p) = path_to(t, id) {
            assert(p.skip(1) =~= p.subrange(1, p.len() as int));
        }
    }
}

/// A path that was found below the nodes leads to a node with the number.
proof fn lemma_path_found_among(n: Seq<TreeModel>, k: int, id: u64)
    requires
        0 <= k,
    ensures
        path_among(n, k, id) matches Some(p) ==> p.len() > 0 && p[0] < n.len() && has_path(
            n[p[0] as int],
            p.skip(1),
        ) && node_at(n[p[0] as int], p.skip(1)).id == id,
    decreases n, n.len() - k,
{
    if k < n.len() && k <= usize::MAX {
        lemma_path_found(n[k], id);
        lemma_path_found_among(n, k + 1, id);
        if let Some(q) = path_to(n[k], id) {
            let p = seq![k as usize] + q;
            assert(p.skip(1) =~= q);
        }
    }
}

/// A path leads through the parent of the node that it leads to.
pub proof fn lemma_path_parent(t: TreeModel, path: Seq<usize>)
    requires
        has_path(t, path),
        path.len() > 0,
    ensures
        has_path(t, path.drop_last()),
        path.last() < node_at(t, path.drop_last()).children.len(),
        node_at(t, path) == node_at(t, path.drop_last()).children[path.last() as int],
    decreases path.len(),
{
    let c = t.children[path[0] as int];
    if path.len() > 1 {
        lemma_path_parent(c, path.skip(1));
        assert(path.drop_last().skip(1) =~= path.skip(1).drop_last());
        assert(path.drop_last()[0] == path[0]);
        assert(path.skip(1).last() == path.last());
    } else {
        assert(path.drop_last() =~= Seq::<usize>::empty());
        assert(node_at(c, path.skip(1)) == c);
    }
}

/// A path can be continued to a child.
pub proof fn lemma_path_child(t: TreeModel, path: Seq<usize>, k: usize)
    requires
        has_path(t, path),
        k < node_at(t, path).children.len(),
    ensures
        has_path(t, path.push(k)),
        node_at(t, path.push(k)) == node_at(t, path).children[k as int],
    decreases path.len(),
{
    let p = path.push(k);
    if path.len() > 0 {
        lemma_path_child(t.children[path[0] as int], path.skip(1), k);
        assert(p.skip(1) =~= path.skip(1).push(k));
        assert(p[0] == path[0]);
    } else {
        assert(has_path(t.children[k as int], p.skip(1)));
        assert(node_at(t.children[k as int], p.skip(1)) == t.children[k as int]);
    }
}

} // verus!
