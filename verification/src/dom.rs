//! The owned document tree.

use vstd::prelude::*;

verus! {

/// The kind of a node.
#[derive(Clone, Copy, Debug, Eq, Hash, PartialEq, Structural)]
pub enum XmlNodeKind {
    /// An element.
    Element,
    /// Character data.
    Text,
    /// A comment.
    Comment,
    /// A CDATA section.
    Cdata,
    /// A processing instruction.
    ProcessingInstruction,
}

/// A document type declaration.
#[derive(Debug)]
pub struct XmlDoctype {
    /// The name of the root element.
    pub name: String,
    /// The public identifier.
    pub public_id: Option<String>,
    /// The system identifier.
    pub system_id: Option<String>,
    /// The text between the square brackets.
    pub internal_subset: Option<String>,
}

/// An element with its attributes and children.
#[derive(Debug)]
pub struct XmlElement {
    /// The qualified name.
    pub name: String,
    /// The attributes in document order.
    pub attributes: Vec<XmlAttribute>,
    /// The children in document order.
    pub children: Vec<XmlNode>,
}

/// An attribute.
#[derive(Debug)]
pub struct XmlAttribute {
    /// The qualified name.
    pub name: String,
    /// The value.
    pub value: String,
}

/// A processing instruction.
#[derive(Debug)]
pub struct XmlProcessingInstruction {
    /// The target.
    pub target: String,
    /// The data.
    pub data: String,
}

/// How many nodes a tree has.
#[derive(Clone, Copy, Debug, Eq, Hash, PartialEq, Structural)]
pub struct XmlTreeStats {
    /// The number of elements.
    pub elements: usize,
    /// The number of attributes.
    pub attributes: usize,
    /// The number of nodes, elements included.
    pub nodes: usize,
}

impl Default for XmlTreeStats {
    fn default() -> (r: Self)
        ensures
            r.elements == 0,
            r.attributes == 0,
            r.nodes == 0,
    {
        XmlTreeStats { elements: 0, attributes: 0, nodes: 0 }
    }
}

/// What becomes of the memory that a removal frees.
#[derive(Clone, Copy, Debug, Eq, PartialEq, Structural)]
pub enum XmlMemoryRetention {
    /// Keep it for later insertions.
    RetainCapacity,
    /// Give it back.
    ReleaseSpareCapacity,
}

impl Default for XmlMemoryRetention {
    fn default() -> (r: Self)
        ensures
            r == XmlMemoryRetention::RetainCapacity,
    {
        XmlMemoryRetention::RetainCapacity
    }
}

/// A node of the tree.
#[derive(Debug)]
pub enum XmlNode {
    /// An element.
    Element(XmlElement),
    /// Character data.
    Text(String),
    /// A comment.
    Comment(String),
    /// A CDATA section.
    Cdata(String),
    /// A processing instruction.
    ProcessingInstruction(XmlProcessingInstruction),
}

/// An attribute as a pair of texts.
#[verifier::ext_equal]
pub struct AttributeModel {
    pub name: Seq<char>,
    pub value: Seq<char>,
}

/// A processing instruction as a pair of texts.
#[verifier::ext_equal]
pub struct InstructionModel {
    pub target: Seq<char>,
    pub data: Seq<char>,
}

/// An element as a mathematical tree.
#[verifier::ext_equal]
pub struct ElementModel {
    pub name: Seq<char>,
    pub attributes: Seq<AttributeModel>,
    pub children: Seq<NodeModel>,
}

/// A node as a mathematical tree.
#[verifier::ext_equal]
pub enum NodeModel {
    Element(ElementModel),
    Text(Seq<char>),
    Comment(Seq<char>),
    Cdata(Seq<char>),
    ProcessingInstruction(InstructionModel),
}

/// A document type declaration as texts.
#[verifier::ext_equal]
pub struct DoctypeModel {
    pub name: Seq<char>,
    pub public_id: Option<Seq<char>>,
    pub system_id: Option<Seq<char>>,
    pub internal_subset: Option<Seq<char>>,
}

/// The text of an optional string.
pub open spec fn text_option(o: Option<String>) -> Option<Seq<char>> {
    match o {
        Some(s) => Some(s@),
        None => None,
    }
}

impl View for XmlAttribute {
    type V = AttributeModel;

    open spec fn view(&self) -> AttributeModel {
        AttributeModel { name: self.name@, value: self.value@ }
    }
}

impl View for XmlProcessingInstruction {
    type V = InstructionModel;

    open spec fn view(&self) -> InstructionModel {
        InstructionModel { target: self.target@, data: self.data@ }
    }
}

impl View for XmlDoctype {
    type V = DoctypeModel;

    open spec fn view(&self) -> DoctypeModel {
        DoctypeModel {
            name: self.name@,
            public_id: text_option(self.public_id),
            system_id: text_option(self.system_id),
            internal_subset: text_option(self.internal_subset),
        }
    }
}

/// The attributes of an element as pairs of texts.
pub open spec fn attribute_models(a: Seq<XmlAttribute>) -> Seq<AttributeModel> {
    Seq::new(a.len(), |i: int| a[i]@)
}

/// The nodes of a list as mathematical trees.
pub open spec fn node_models(n: Seq<XmlNode>) -> Seq<NodeModel>
    decreases n,
{
    Seq::new(
        n.len(),
        |i: int|
            if 0 <= i < n.len() {
                n[i].model()
            } else {
                arbitrary()
            },
    )
}

impl XmlElement {
    /// The element as a mathematical tree.
    pub open spec fn model(self) -> ElementModel
        decreases self,
    {
        ElementModel {
            name: self.name@,
            attributes: attribute_models(self.attributes@),
            children: node_models(self.children@),
        }
    }
}

impl XmlNode {
    /// The node as a mathematical tree.
    pub open spec fn model(self) -> NodeModel
        decreases self,
    {
        match self {
            XmlNode::Element(e) => NodeModel::Element(e.model()),
            XmlNode::Text(t) => NodeModel::Text(t@),
            XmlNode::Comment(t) => NodeModel::Comment(t@),
            XmlNode::Cdata(t) => NodeModel::Cdata(t@),
            XmlNode::ProcessingInstruction(p) => NodeModel::ProcessingInstruction(p@),
        }
    }
}

impl View for XmlElement {
    type V = ElementModel;

    open spec fn view(&self) -> ElementModel {
        self.model()
    }
}

impl View for XmlNode {
    type V = NodeModel;

    open spec fn view(&self) -> NodeModel {
        self.model()
    }
}

impl Clone for XmlAttribute {
    fn clone(&self) -> (r: Self)
        ensures
            r == *self,
    {
        XmlAttribute { name: self.name.clone(), value: self.value.clone() }
    }
}

impl Clone for XmlProcessingInstruction {
    fn clone(&self) -> (r: Self)
        ensures
            r == *self,
    {
        XmlProcessingInstruction { target: self.target.clone(), data: self.data.clone() }
    }
}

/// Copies an optional string.
pub(crate) fn clone_text_option(o: &Option<String>) -> (r: Option<String>)
    ensures
        r == *o,
{
    match o {
        Some(s) => Some(s.clone()),
        None => None,
    }
}

impl Clone for XmlDoctype {
    fn clone(&self) -> (r: Self)
        ensures
            r == *self,
    {
        XmlDoctype {
            name: self.name.clone(),
            public_id: clone_text_option(&self.public_id),
            system_id: clone_text_option(&self.system_id),
            internal_subset: clone_text_option(&self.internal_subset),
        }
    }
}

/// Copies a list of attributes.
pub(crate) fn clone_attributes(a: &Vec<XmlAttribute>) -> (r: Vec<XmlAttribute>)
    ensures
        r@ == a@,
        attribute_models(r@) == attribute_models(a@),
{
    let mut out: Vec<XmlAttribute> = Vec::with_capacity(a.len());
    let mut i: usize = 0;
    while i < a.len()
        invariant
            0 <= i <= a.len(),
            out@ == a@.take(i as int),
        decreases a.len() - i,
    {
        out.push(a[i].clone());
        proof {
            assert(a@.take(i + 1) =~= a@.take(i as int).push(a@[i as int]));
        }
        i = i + 1;
    }
    proof {
        assert(a@.take(a@.len() as int) =~= a@);
    }
    out
}

/// How many nodes a node has, itself with them.
pub open spec fn weight(n: NodeModel) -> nat
    decreases n, 0int,
{
    match n {
        NodeModel::Element(e) => 1 + weights(e.children, 0),
        _ => 1,
    }
}

/// How many nodes the nodes from `k` on have.
pub open spec fn weights(n: Seq<NodeModel>, k: int) -> nat
    decreases n, n.len() - k,
{
    if k < 0 || k >= n.len() {
        0
    } else {
        weight(n[k]) + weights(n, k + 1)
    }
}

/// A list of nodes that is being copied, and the element whose children they are.
struct Copying<'a> {
    of: Option<&'a XmlElement>,
    nodes: &'a Vec<XmlNode>,
    out: Vec<XmlNode>,
}

impl<'a> Copying<'a> {
    /// The copies are those of the first nodes.
    spec fn wf(self) -> bool {
        &&& self.out@.len() <= self.nodes@.len()
        &&& node_models(self.out@) == node_models(self.nodes@).take(self.out@.len() as int)
    }

    /// The element is the next node of another list.
    spec fn next_of(self, parent: Copying<'a>) -> bool {
        &&& self.of matches Some(e) && self.nodes == e.children
        &&& parent.out@.len() < parent.nodes@.len()
        &&& parent.nodes@[parent.out@.len() as int] == XmlNode::Element(*self.of->Some_0)
    }

    /// What is left behind the next node.
    spec fn behind(self) -> nat {
        weights(node_models(self.nodes@), self.out@.len() as int + 1)
    }
}

/// What is left to copy in the lists that wait for one of their nodes.
spec fn waiting(st: Seq<Copying<'_>>) -> nat
    decreases st.len(),
{
    if st.len() == 0 {
        0
    } else {
        waiting(st.drop_last()) + 2 * st.last().behind() + 1
    }
}

/// The lists wait for one another.
spec fn chained(st: Seq<Copying<'_>>, top: Copying<'_>) -> bool
    decreases st.len(),
{
    &&& top.wf()
    &&& if st.len() == 0 {
        top.of is None
    } else {
        top.next_of(st.last()) && chained(st.drop_last(), st.last())
    }
}

/// Copies a node that is not an element.
fn clone_leaf(n: &XmlNode) -> (r: XmlNode)
    requires
        n !is Element,
    ensures
        r.model() == n.model(),
{
    match n {
        XmlNode::Element(e) => XmlNode::Text(e.name.clone()),
        XmlNode::Text(t) => XmlNode::Text(t.clone()),
        XmlNode::Comment(t) => XmlNode::Comment(t.clone()),
        XmlNode::Cdata(t) => XmlNode::Cdata(t.clone()),
        XmlNode::ProcessingInstruction(p) => XmlNode::ProcessingInstruction(p.clone()),
    }
}

/// Copies a list of nodes with everything below them.
///
/// The lists that are not done wait on a stack, so that the depth of the nodes does not matter.
pub(crate) fn clone_nodes(n: &Vec<XmlNode>) -> (r: Vec<XmlNode>)
    ensures
        node_models(r@) == node_models(n@),
{
    let mut stack: Vec<Copying<'_>> = Vec::new();
    let mut top = Copying { of: None, nodes: n, out: Vec::with_capacity(n.len()) };
    proof {
        assert(node_models(top.out@) =~= node_models(n@).take(0));
    }
    loop
        invariant
            chained(stack@, top),
            bottom_of(stack@, top) == node_models(n@),
        decreases
                waiting(stack@) + 2 * weights(node_models(top.nodes@), top.out@.len() as int) + 1,
    {
        let k: usize = top.out.len();
        let ghost m = node_models(top.nodes@);
        if k < top.nodes.len() {
            assert(m[k as int] == top.nodes@[k as int].model());
            match &top.nodes[k] {
                XmlNode::Element(e) => {
                    let next = Copying {
                        of: Some(e),
                        nodes: &e.children,
                        out: Vec::with_capacity(e.children.len()),
                    };
                    proof {
                        assert(node_models(next.out@) =~= node_models(e.children@).take(0));
                    }
                    let ghost before = stack@;
                    let ghost held = top;
                    stack.push(top);
                    proof {
                        assert(stack@.drop_last() =~= before);
                        assert(stack@.last() == held);
                        assert(e.model().children == node_models(e.children@));
                        assert(weight(m[k as int]) == 1 + weights(node_models(e.children@), 0));
                        assert(weights(m, k as int) == weight(m[k as int]) + weights(m, k + 1));
                    }
                    top = next;
                },
                leaf => {
                    let x = clone_leaf(leaf);
                    let ghost before = top.out@;
                    top.out.push(x);
                    proof {
                        assert(node_models(top.out@) =~= node_models(before).push(x.model()));
                        assert(m.take(k + 1) =~= m.take(k as int).push(m[k as int]));
                        assert(weights(m, k as int) == weight(m[k as int]) + weights(m, k + 1));
                    }
                },
            }
        } else {
            proof {
                assert(m.take(k as int) =~= m);
            }
            let ghost before = stack@;
            match stack.pop() {
                None => {
                    return top.out;
                },
                Some(parent) => {
                    proof {
                        assert(stack@ =~= before.drop_last());
                    }
                    let mut parent = parent;
                    let ghost list = node_models(parent.nodes@);
                    let i: usize = parent.out.len();
                    proof {
                        assert(chained(stack@, parent));
                        assert(parent.wf());
                    }
                    let ghost above = top;
                    let ghost held = parent;
                    if let Some(e) = top.of {
                        let x = XmlNode::Element(
                            XmlElement {
                                name: e.name.clone(),
                                attributes: clone_attributes(&e.attributes),
                                children: top.out,
                            },
                        );
                        let ghost done = parent.out@;
                        parent.out.push(x);
                        proof {
                            assert(list[i as int] == parent.nodes@[i as int].model());
                            assert(x.model() == list[i as int]);
                            assert(node_models(parent.out@) =~= node_models(done).push(x.model()));
                            assert(list.take(i + 1) =~= list.take(i as int).push(list[i as int]));
                            assert(parent.wf());
                            assert(stack@.len() > 0 ==> parent.next_of(stack@.last()));
                        }
                    }
                    proof {
                        assert(held.behind() == weights(list, i + 1));
                        assert(chained(stack@, parent));
                    }
                    top = parent;
                },
            }
        }
    }
}

/// The list at the bottom of the stack.
spec fn bottom_of(st: Seq<Copying<'_>>, top: Copying<'_>) -> Seq<NodeModel> {
    if st.len() == 0 {
        node_models(top.nodes@)
    } else {
        node_models(st[0].nodes@)
    }
}

/// Two lists have the nodes of both.
proof fn lemma_weights_joined(a: Seq<NodeModel>, b: Seq<NodeModel>, k: int)
    requires
        0 <= k <= a.len(),
    ensures
        weights(a + b, k) == weights(a, k) + weights(b, 0),
    decreases a.len() - k,
{
    if k < a.len() {
        lemma_weights_joined(a, b, k + 1);
    } else {
        lemma_weights_behind(a, b, 0);
    }
}

/// Behind the first list stands the second one.
proof fn lemma_weights_behind(a: Seq<NodeModel>, b: Seq<NodeModel>, k: int)
    requires
        0 <= k <= b.len(),
    ensures
        weights(a + b, a.len() + k) == weights(b, k),
    decreases b.len() - k,
{
    if k < b.len() {
        assert((a + b)[a.len() + k] == b[k]);
        lemma_weights_behind(a, b, k + 1);
    }
}

/// Gives up nodes with everything below them.
///
/// They are taken apart one by one, so that their depth does not matter.
pub(crate) fn release_nodes(n: Vec<XmlNode>) {
    let mut left = n;
    while left.len() > 0
        decreases weights(node_models(left@), 0),
    {
        let ghost before = left@;
        if let Some(x) = left.pop() {
            let ghost held = node_models(left@);
            proof {
                assert(node_models(before) =~= held + seq![x.model()]);
                lemma_weights_joined(held, seq![x.model()], 0);
                assert(weights(seq![x.model()], 1) == 0);
                assert(weights(seq![x.model()], 0) == weight(x.model()));
            }
            if let XmlNode::Element(e) = x {
                let mut children = e.children;
                let ghost c = node_models(children@);
                left.append(&mut children);
                proof {
                    assert(node_models(left@) =~= held + c);
                    lemma_weights_joined(held, c, 0);
                    assert(weight(x.model()) == 1 + weights(c, 0));
                }
            }
        }
    }
}

/// Gives up a node with everything below it.
pub(crate) fn release_node(n: XmlNode) {
    let mut v: Vec<XmlNode> = Vec::new();
    v.push(n);
    release_nodes(v);
}

/// Copies a node with everything below it.
pub(crate) fn clone_node(n: &XmlNode) -> (r: XmlNode)
    ensures
        r.model() == n.model(),
{
    match n {
        XmlNode::Element(e) => XmlNode::Element(clone_element(e)),
        leaf => clone_leaf(leaf),
    }
}

/// Copies an element with everything below it.
pub(crate) fn clone_element(e: &XmlElement) -> (r: XmlElement)
    ensures
        r.model() == e.model(),
{
    XmlElement {
        name: e.name.clone(),
        attributes: clone_attributes(&e.attributes),
        children: clone_nodes(&e.children),
    }
}

impl Clone for XmlElement {
    fn clone(&self) -> (r: Self)
        ensures
            r@ == self@,
    {
        clone_element(self)
    }
}

impl Clone for XmlNode {
    fn clone(&self) -> (r: Self)
        ensures
            r@ == self@,
    {
        clone_node(self)
    }
}

/// Are the attribute lists equal?
fn attributes_equal(a: &Vec<XmlAttribute>, b: &Vec<XmlAttribute>) -> (r: bool)
    ensures
        r == (attribute_models(a@) == attribute_models(b@)),
{
    if a.len() != b.len() {
        proof {
            assert(attribute_models(a@).len() != attribute_models(b@).len());
        }
        return false;
    }
    let mut i: usize = 0;
    while i < a.len()
        invariant
            0 <= i <= a.len(),
            a@.len() == b@.len(),
            forall|k: int| 0 <= k < i ==> (#[trigger] a@[k])@ == b@[k]@,
        decreases a.len() - i,
    {
        if !(a[i].name == b[i].name && a[i].value == b[i].value) {
            proof {
                assert(attribute_models(a@)[i as int] == a@[i as int]@);
                assert(attribute_models(b@)[i as int] == b@[i as int]@);
            }
            return false;
        }
        i = i + 1;
    }
    proof {
        assert(attribute_models(a@) =~= attribute_models(b@));
    }
    true
}

/// Two lists of nodes that are being compared; those before `at` are equal.
struct Comparing<'a> {
    a: &'a Vec<XmlNode>,
    b: &'a Vec<XmlNode>,
    at: usize,
}

impl<'a> Comparing<'a> {
    /// The nodes from `at` on are equal.
    spec fn rest_equal(self) -> bool {
        node_models(self.a@).skip(self.at as int) == node_models(self.b@).skip(self.at as int)
    }
}

/// Lists are equal from `k` on if they are at `k` and behind it.
proof fn lemma_skip_equal(x: Seq<NodeModel>, y: Seq<NodeModel>, k: int)
    requires
        x.len() == y.len(),
        0 <= k < x.len(),
    ensures
        (x.skip(k) == y.skip(k)) == (x[k] == y[k] && x.skip(k + 1) == y.skip(k + 1)),
{
    assert(x.skip(k) =~= seq![x[k]] + x.skip(k + 1));
    assert(y.skip(k) =~= seq![y[k]] + y.skip(k + 1));
    if x.skip(k) == y.skip(k) {
        assert(x[k] == x.skip(k)[0]);
        assert(y[k] == y.skip(k)[0]);
        assert(x.skip(k + 1) =~= x.skip(k).skip(1));
        assert(y.skip(k + 1) =~= y.skip(k).skip(1));
    }
}

/// The nodes that are still to be compared are equal.
spec fn all_equal(st: Seq<Comparing<'_>>) -> bool
    decreases st.len(),
{
    st.len() == 0 || (st.last().rest_equal() && all_equal(st.drop_last()))
}

/// What is left to compare.
spec fn uncompared(st: Seq<Comparing<'_>>) -> nat
    decreases st.len(),
{
    if st.len() == 0 {
        0
    } else {
        uncompared(st.drop_last()) + 2 * weights(node_models(st.last().a@), st.last().at as int) + 1
    }
}

/// Are the nodes equal, with everything below them?
pub(crate) fn nodes_equal(a: &XmlNode, b: &XmlNode) -> (r: bool)
    ensures
        r == (a.model() == b.model()),
{
    match (a, b) {
        (XmlNode::Element(x), XmlNode::Element(y)) => elements_equal(x, y),
        _ => leaves_equal(a, b),
    }
}

/// Are the nodes equal, at least one of which is not an element?
fn leaves_equal(a: &XmlNode, b: &XmlNode) -> (r: bool)
    requires
        !(a is Element && b is Element),
    ensures
        r == (a.model() == b.model()),
{
    match (a, b) {
        (XmlNode::Text(x), XmlNode::Text(y)) => *x == *y,
        (XmlNode::Comment(x), XmlNode::Comment(y)) => *x == *y,
        (XmlNode::Cdata(x), XmlNode::Cdata(y)) => *x == *y,
        (XmlNode::ProcessingInstruction(x), XmlNode::ProcessingInstruction(y)) => x.target
            == y.target && x.data == y.data,
        _ => false,
    }
}

/// Are the elements equal, with everything below them?
pub(crate) fn elements_equal(a: &XmlElement, b: &XmlElement) -> (r: bool)
    ensures
        r == (a.model() == b.model()),
{
    if a.name != b.name || !attributes_equal(&a.attributes, &b.attributes) {
        return false;
    }
    node_lists_equal(&a.children, &b.children)
}

/// Are the node lists equal, with everything below them?
///
/// The lists that are not done wait on a stack, so that the depth of the nodes does not matter.
pub(crate) fn node_lists_equal(a: &Vec<XmlNode>, b: &Vec<XmlNode>) -> (r: bool)
    ensures
        r == (node_models(a@) == node_models(b@)),
{
    proof {
        assert(node_models(a@).len() == a@.len());
        assert(node_models(b@).len() == b@.len());
    }
    if a.len() != b.len() {
        return false;
    }
    let mut stack: Vec<Comparing<'_>> = Vec::new();
    stack.push(Comparing { a, b, at: 0 });
    let ghost same = node_models(a@) == node_models(b@);
    proof {
        assert(stack@.drop_last() =~= Seq::<Comparing<'_>>::empty());
        assert(all_equal(stack@.drop_last()));
        assert(node_models(a@).skip(0) =~= node_models(a@));
        assert(node_models(b@).skip(0) =~= node_models(b@));
    }
    while stack.len() > 0
        invariant
            all_equal(stack@) == same,
            same == (node_models(a@) == node_models(b@)),
            forall|i: int|
                0 <= i < stack@.len() ==> (#[trigger] stack@[i]).at <= stack@[i].a@.len()
                    && stack@[i].a@.len() == stack@[i].b@.len(),
        decreases uncompared(stack@),
    {
        let ghost before = stack@;
        if let Some(top) = stack.pop() {
            proof {
                assert(stack@ =~= before.drop_last());
                assert(before.last() == top);
            }
            let k: usize = top.at;
            let ghost x = node_models(top.a@);
            let ghost y = node_models(top.b@);
            if k < top.a.len() {
                assert(x[k as int] == top.a@[k as int].model());
                assert(y[k as int] == top.b@[k as int].model());
                let rest = Comparing { a: top.a, b: top.b, at: k + 1 };
                proof {
                    lemma_skip_equal(x, y, k as int);
                }
                let ghost below = stack@;
                stack.push(rest);
                proof {
                    assert(stack@.drop_last() =~= below);
                    assert(weights(x, k as int) == weight(x[k as int]) + weights(x, k + 1));
                    assert(all_equal(stack@) == (rest.rest_equal() && all_equal(below)));
                    assert(uncompared(stack@) == uncompared(below) + 2 * weights(x, k + 1) + 1);
                }
                match (&top.a[k], &top.b[k]) {
                    (XmlNode::Element(e), XmlNode::Element(f)) => {
                        if e.name != f.name || !attributes_equal(&e.attributes, &f.attributes) {
                            return false;
                        }
                        proof {
                            assert(node_models(e.children@).len() == e.children@.len());
                            assert(node_models(f.children@).len() == f.children@.len());
                        }
                        if e.children.len() != f.children.len() {
                            return false;
                        }
                        let next = Comparing { a: &e.children, b: &f.children, at: 0 };
                        proof {
                            assert(node_models(e.children@).skip(0) =~= node_models(e.children@));
                            assert(node_models(f.children@).skip(0) =~= node_models(f.children@));
                        }
                        let ghost held = stack@;
                        stack.push(next);
                        proof {
                            assert(stack@.drop_last() =~= held);
                            assert(e.model().children == node_models(e.children@));
                            assert(weight(x[k as int]) == 1 + weights(node_models(e.children@), 0));
                        }
                    },
                    (m, n) => {
                        if !leaves_equal(m, n) {
                            return false;
                        }
                    },
                }
            } else {
                proof {
                    assert(x.skip(k as int) =~= y.skip(k as int));
                }
            }
        }
    }
    true
}

impl PartialEq for XmlAttribute {
    fn eq(&self, other: &Self) -> (r: bool) {
        self.name == other.name && self.value == other.value
    }
}

impl vstd::std_specs::cmp::PartialEqSpecImpl for XmlAttribute {
    open spec fn obeys_eq_spec() -> bool {
        true
    }

    open spec fn eq_spec(&self, other: &Self) -> bool {
        self@ == other@
    }
}

impl PartialEq for XmlProcessingInstruction {
    fn eq(&self, other: &Self) -> (r: bool) {
        self.target == other.target && self.data == other.data
    }
}

impl vstd::std_specs::cmp::PartialEqSpecImpl for XmlProcessingInstruction {
    open spec fn obeys_eq_spec() -> bool {
        true
    }

    open spec fn eq_spec(&self, other: &Self) -> bool {
        self@ == other@
    }
}

impl PartialEq for XmlElement {
    fn eq(&self, other: &Self) -> (r: bool) {
        elements_equal(self, other)
    }
}

impl vstd::std_specs::cmp::PartialEqSpecImpl for XmlElement {
    open spec fn obeys_eq_spec() -> bool {
        true
    }

    open spec fn eq_spec(&self, other: &Self) -> bool {
        self@ == other@
    }
}

impl PartialEq for XmlNode {
    fn eq(&self, other: &Self) -> (r: bool) {
        nodes_equal(self, other)
    }
}

impl vstd::std_specs::cmp::PartialEqSpecImpl for XmlNode {
    open spec fn obeys_eq_spec() -> bool {
        true
    }

    open spec fn eq_spec(&self, other: &Self) -> bool {
        self@ == other@
    }
}

/// Are the optional strings equal?
fn text_options_equal(a: &Option<String>, b: &Option<String>) -> (r: bool)
    ensures
        r == (text_option(*a) == text_option(*b)),
{
    match (a, b) {
        (Some(x), Some(y)) => *x == *y,
        (None, None) => true,
        _ => false,
    }
}

impl PartialEq for XmlDoctype {
    fn eq(&self, other: &Self) -> (r: bool) {
        self.name == other.name && text_options_equal(&self.public_id, &other.public_id)
            && text_options_equal(&self.system_id, &other.system_id) && text_options_equal(
            &self.internal_subset,
            &other.internal_subset,
        )
    }
}

impl vstd::std_specs::cmp::PartialEqSpecImpl for XmlDoctype {
    open spec fn obeys_eq_spec() -> bool {
        true
    }

    open spec fn eq_spec(&self, other: &Self) -> bool {
        self@ == other@
    }
}

impl Eq for XmlAttribute {

}

impl Eq for XmlProcessingInstruction {

}

impl Eq for XmlElement {

}

impl Eq for XmlNode {

}

impl Eq for XmlDoctype {

}

} // verus!
