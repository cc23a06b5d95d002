//! Walking through editable documents.

use vstd::prelude::*;

use crate::access::{
    elements_from, elements_of, handles_of, node_name, node_value, preorder, preorders, read_with,
};
use crate::dom::{AttributeModel, XmlNodeKind};
use crate::facade::{handle_of, target, XmlDom};
use crate::handle::{
    handle_models, handles_outcome, optional_outcome, DomErrorModel, HandleModel, XmlDomError,
    XmlDomNode,
};
use crate::lexeme::CompactLexemeKind;
use crate::records::str_option;
use crate::tree::{read_text, text_value, tree_models, DomNode, Reading, TreeAttribute, TreeModel};

verus! {

/// The nodes that references point to.
pub open spec fn pointed(v: Seq<&DomNode>) -> Seq<TreeModel> {
    Seq::new(v.len(), |i: int| v[i].model())
}

/// The trees from `k` on in document order.
spec fn later_nodes(n: Seq<TreeModel>, k: int) -> Seq<TreeModel>
    decreases n.len() - k,
{
    if k < 0 || k >= n.len() {
        Seq::empty()
    } else {
        preorder(n[k]) + later_nodes(n, k + 1)
    }
}

/// The nodes of trees are those of the first trees and those of the rest.
proof fn lemma_later_nodes(n: Seq<TreeModel>, k: int)
    requires
        0 <= k <= n.len(),
    ensures
        preorders(n, n.len() as int) == preorders(n, k) + later_nodes(n, k),
    decreases n.len() - k,
{
    if k == n.len() {
        assert(preorders(n, k) + later_nodes(n, k) =~= preorders(n, k));
    } else {
        lemma_later_nodes(n, k + 1);
        assert(preorders(n, k + 1) == preorders(n, k) + preorder(n[k]));
        assert(preorders(n, k) + later_nodes(n, k) =~= preorders(n, k + 1) + later_nodes(n, k + 1));
    }
}

/// A node, and then those below it.
proof fn lemma_preorder(t: TreeModel)
    ensures
        preorder(t) == seq![t] + later_nodes(t.children, 0),
{
    lemma_later_nodes(t.children, 0);
    assert(preorders(t.children, 0) + later_nodes(t.children, 0) =~= later_nodes(t.children, 0));
}

/// The nodes that are still to be listed: for each list those from an index on.
spec fn pending_nodes(st: Seq<(&Vec<DomNode>, usize)>) -> Seq<TreeModel>
    decreases st.len(),
{
    if st.len() == 0 {
        Seq::empty()
    } else {
        later_nodes(tree_models(st.last().0@), st.last().1 as int) + pending_nodes(st.drop_last())
    }
}

/// Lists a tree in document order.
///
/// The lists that are not done wait on a stack, so that the depth of the tree does not matter.
pub(crate) fn listed<'a>(n: &'a DomNode) -> (r: Vec<&'a DomNode>)
    ensures
        pointed(r@) == preorder(n.model()),
{
    let ghost goal = preorder(n.model());
    let mut out: Vec<&'a DomNode> = Vec::new();
    let mut stack: Vec<(&'a Vec<DomNode>, usize)> = Vec::new();
    out.push(n);
    stack.push((&n.children, 0));
    proof {
        let c = tree_models(n.children@);
        lemma_preorder(n.model());
        assert(stack@.drop_last() =~= Seq::<(&Vec<DomNode>, usize)>::empty());
        assert(pending_nodes(stack@.drop_last()) =~= Seq::<TreeModel>::empty());
        assert(pending_nodes(stack@) =~= later_nodes(c, 0) + pending_nodes(stack@.drop_last()));
        assert(pointed(out@) =~= seq![n.model()]);
        assert(pointed(out@) + pending_nodes(stack@) =~= goal);
    }
    while stack.len() > 0
        invariant
            pointed(out@) + pending_nodes(stack@) == goal,
        decreases pending_nodes(stack@).len(), stack@.len(),
    {
        let ghost before = stack@;
        let ghost start = out@;
        if let Some((list, k)) = stack.pop() {
            let ghost m = tree_models(list@);
            let ghost below = stack@;
            proof {
                assert(before.drop_last() =~= below);
                assert(before.last() == (list, k));
            }
            if k < list.len() {
                let x = &list[k];
                out.push(x);
                stack.push((list, k + 1));
                let ghost held = stack@;
                stack.push((&x.children, 0));
                proof {
                    let c = tree_models(x.children@);
                    assert(m[k as int] == x.model());
                    lemma_preorder(x.model());
                    assert(held.drop_last() =~= below);
                    assert(held.last() == (list, (k + 1) as usize));
                    assert(stack@.drop_last() =~= held);
                    assert(pending_nodes(held) == later_nodes(m, k + 1) + pending_nodes(below));
                    assert(pending_nodes(stack@) == later_nodes(c, 0) + pending_nodes(held));
                    assert(later_nodes(m, k as int) == preorder(m[k as int]) + later_nodes(
                        m,
                        k + 1,
                    ));
                    assert(pointed(out@) =~= pointed(start).push(x.model()));
                    assert(pointed(out@) + pending_nodes(stack@) =~= pointed(start)
                        + pending_nodes(before));
                }
            } else {
                assert(pending_nodes(before) =~= pending_nodes(below));
            }
        }
    }
    proof {
        assert(pointed(out@) + pending_nodes(stack@) =~= pointed(out@));
    }
    out
}

/// The handles of nodes.
fn handles(dom: &XmlDom, v: &Vec<&DomNode>) -> (r: Vec<XmlDomNode>)
    ensures
        handle_models(r@) == handles_of(dom@, pointed(v@)),
{
    let mut out: Vec<XmlDomNode> = Vec::new();
    let mut k: usize = 0;
    while k < v.len()
        invariant
            k <= v@.len(),
            out@.len() == k,
            forall|i: int|
                0 <= i < k ==> (#[trigger] out@[i])@ == handle_of(dom@, pointed(v@)[i].id),
        decreases v@.len() - k,
    {
        out.push(dom.handle(v[k].id));
        k = k + 1;
    }
    proof {
        assert(handle_models(out@) =~= handles_of(dom@, pointed(v@)));
    }
    out
}

/// Lists the elements of a tree in document order.
pub(crate) fn listed_elements<'a>(n: &'a DomNode) -> (r: Vec<&'a DomNode>)
    ensures
        pointed(r@) == elements_of(n.model()),
{
    let all = listed(n);
    let ghost m = pointed(all@);
    let mut out: Vec<&'a DomNode> = Vec::new();
    proof {
        assert(pointed(out@) =~= Seq::<TreeModel>::empty());
    }
    let mut k: usize = 0;
    while k < all.len()
        invariant
            k <= all@.len(),
            m == pointed(all@),
            elements_from(m, 0, Seq::empty()) == elements_from(m, k as int, pointed(out@)),
        decreases all@.len() - k,
    {
        assert(m[k as int] == all@[k as int].model());
        if all[k].kind == XmlNodeKind::Element {
            let ghost before = out@;
            out.push(all[k]);
            proof {
                assert(pointed(out@) =~= pointed(before).push(m[k as int]));
            }
        }
        k = k + 1;
    }
    out
}

/// A walk through nodes, from both ends.
#[derive(Debug)]
pub struct XmlDomWalk {
    nodes: Vec<XmlDomNode>,
    front: usize,
    back: usize,
}

impl XmlDomWalk {
    /// The ends have not passed each other.
    #[verifier::type_invariant]
    spec fn wf(self) -> bool {
        self.front <= self.back <= self.nodes@.len()
    }

    /// The nodes that are still to come.
    pub closed spec fn remaining(&self) -> Seq<HandleModel> {
        handle_models(self.nodes@).subrange(self.front as int, self.back as int)
    }

    fn over(nodes: Vec<XmlDomNode>) -> (r: Self)
        ensures
            r.remaining() == handle_models(nodes@),
    {
        let back: usize = nodes.len();
        proof {
            assert(handle_models(nodes@).subrange(0, back as int) =~= handle_models(nodes@));
        }
        XmlDomWalk { nodes, front: 0, back }
    }

    /// Returns the next node.
    pub fn next(&mut self) -> (r: Option<XmlDomNode>)
        ensures
            match r {
                Some(n) => old(self).remaining().len() > 0 && n@ == old(self).remaining()[0]
                    && final(self).remaining() == old(self).remaining().skip(1),
                None => old(self).remaining().len() == 0 && final(self).remaining() == old(
                    self,
                ).remaining(),
            },
    {
        proof {
            use_type_invariant(&*self);
        }
        if self.front >= self.back {
            return None;
        }
        let n = self.nodes[self.front].clone();
        let ghost all = handle_models(self.nodes@);
        let ghost f = self.front as int;
        let ghost b = self.back as int;
        self.front = self.front + 1;
        proof {
            assert(all.subrange(f, b).skip(1) =~= all.subrange(f + 1, b));
        }
        Some(n)
    }

    /// Returns the last node.
    pub fn next_back(&mut self) -> (r: Option<XmlDomNode>)
        ensures
            match r {
                Some(n) => old(self).remaining().len() > 0 && n@ == old(self).remaining().last()
                    && final(self).remaining() == old(self).remaining().drop_last(),
                None => old(self).remaining().len() == 0 && final(self).remaining() == old(
                    self,
                ).remaining(),
            },
    {
        proof {
            use_type_invariant(&*self);
        }
        if self.front >= self.back {
            return None;
        }
        let ghost all = handle_models(self.nodes@);
        let ghost f = self.front as int;
        let ghost b = self.back as int;
        self.back = self.back - 1;
        proof {
            assert(all.subrange(f, b).drop_last() =~= all.subrange(f, b - 1));
        }
        Some(self.nodes[self.back].clone())
    }

    /// Returns how many nodes are still to come.
    pub fn len(&self) -> (r: usize)
        ensures
            r == self.remaining().len(),
    {
        proof {
            use_type_invariant(self);
        }
        self.back - self.front
    }

    /// Returns the nodes that are still to come.
    pub fn into_vec(self) -> (r: Vec<XmlDomNode>)
        ensures
            handle_models(r@) == self.remaining(),
    {
        proof {
            use_type_invariant(&self);
        }
        let mut out: Vec<XmlDomNode> = Vec::new();
        let mut k: usize = self.front;
        while k < self.back
            invariant
                self.front <= k <= self.back <= self.nodes@.len(),
                out@.len() == k - self.front,
                forall|i: int|
                    0 <= i < out@.len() ==> (#[trigger] out@[i])@ == self.nodes@[self.front + i]@,
            decreases self.back - k,
        {
            out.push(self.nodes[k].clone());
            k = k + 1;
        }
        proof {
            assert(handle_models(out@) =~= self.remaining());
        }
        out
    }
}

/// The outcome of starting a walk.
pub open spec fn walk_outcome(r: Result<XmlDomWalk, XmlDomError>) -> Result<
    Seq<HandleModel>,
    DomErrorModel,
> {
    match r {
        Ok(w) => Ok(w.remaining()),
        Err(e) => Err(e@),
    }
}

impl XmlDomNode {
    /// Walks through the node and all nodes below it, in document order.
    pub fn walk(&self, dom: &XmlDom) -> (r: Result<XmlDomWalk, XmlDomError>)
        ensures
            walk_outcome(r) == read_with(
                dom@,
                self@,
                |t: TreeModel| Ok(handles_of(dom@, preorder(t))),
            ),
    {
        match dom.find(self) {
            Err(e) => Err(e),
            Ok(n) => {
                let all = listed(n);
                Ok(XmlDomWalk::over(handles(dom, &all)))
            },
        }
    }

    /// Walks through the elements among the node and all nodes below it, in document order.
    pub fn walk_elements(&self, dom: &XmlDom) -> (r: Result<XmlDomWalk, XmlDomError>)
        ensures
            walk_outcome(r) == read_with(
                dom@,
                self@,
                |t: TreeModel| Ok(handles_of(dom@, elements_of(t))),
            ),
    {
        match dom.find(self) {
            Err(e) => Err(e),
            Ok(n) => {
                let all = listed_elements(n);
                Ok(XmlDomWalk::over(handles(dom, &all)))
            },
        }
    }

    /// Returns all nodes below the node, in document order.
    pub fn descendants(&self, dom: &XmlDom) -> (r: Result<Vec<XmlDomNode>, XmlDomError>)
        ensures
            handles_outcome(r) == read_with(
                dom@,
                self@,
                |t: TreeModel| Ok(handles_of(dom@, preorder(t)).skip(1)),
            ),
    {
        match dom.find(self) {
            Err(e) => Err(e),
            Ok(n) => {
                let all = listed(n);
                let mut out = handles(dom, &all);
                let ghost before = out@;
                proof {
                    assert(preorder(n.model()).len() > 0);
                    assert(handle_models(out@).len() == out@.len());
                }
                let first = out.remove(0);
                proof {
                    assert(handle_models(out@) =~= handle_models(before).skip(1));
                }
                Ok(out)
            },
        }
    }

    /// Visits the node and all nodes below it, in document order, until a visit fails.
    pub fn scan<'a, F: FnMut(XmlDomScanNode<'a>) -> Result<(), XmlDomError>>(
        &self,
        dom: &'a XmlDom,
        visit: F,
    ) -> (r: Result<(), XmlDomError>)
        requires
            forall|n: XmlDomScanNode<'a>| call_requires(visit, (n,)),
        ensures
            match target(dom@, self@) {
                Err(e) => r matches Err(x) && x@ == e,
                Ok(t) => exists|calls: Seq<XmlDomScanNode<'a>>| #[trigger]
                    scanned(calls, preorder(t), dom@.reading) && visited(visit, calls, r) && (
                    r is Ok ==> calls.len() == preorder(t).len()),
            },
    {
        let n = match dom.find(self) {
            Err(e) => {
                return Err(e);
            },
            Ok(n) => n,
        };
        let all = listed(n);
        let reading = dom.state().reading;
        let mut call = visit;
        let ghost mut calls: Seq<XmlDomScanNode<'a>> = Seq::empty();
        let mut k: usize = 0;
        while k < all.len()
            invariant
                k <= all@.len(),
                call == visit,
                target(dom@, self@) matches Ok(t) && pointed(all@) == preorder(t),
                reading == dom@.reading,
                forall|n: XmlDomScanNode<'a>| call_requires(visit, (n,)),
                calls.len() == k,
                scanned(calls, pointed(all@), reading),
                forall|i: int|
                    0 <= i < k ==> call_ensures(
                        visit,
                        (#[trigger] calls[i],),
                        Ok::<(), XmlDomError>(()),
                    ),
            decreases all@.len() - k,
        {
            let node = XmlDomScanNode { node: all[k], reading };
            proof {
                calls = calls.push(node);
            }
            let r = call(node);
            assert(calls.last() == node);
            match r {
                Err(e) => {
                    assert(visited(visit, calls, Err(e)));
                    assert(scanned(calls, preorder(target(dom@, self@)->Ok_0), dom@.reading));
                    return Err(e);
                },
                Ok(x) => {
                    assert(Ok::<(), XmlDomError>(x) == Ok::<(), XmlDomError>(()));
                },
            }
            k = k + 1;
        }
        assert(visited(visit, calls, Ok(())));
        Ok(())
    }
}

impl XmlDom {
    /// Walks through the elements of the document, in document order.
    pub fn walk_elements(&self) -> (r: Result<XmlDomWalk, XmlDomError>)
        ensures
            walk_outcome(r) == Ok::<Seq<HandleModel>, DomErrorModel>(
                handles_of(self@, elements_of(self@.root)),
            ),
    {
        let all = listed_elements(&self.state().root);
        Ok(XmlDomWalk::over(handles(self, &all)))
    }
}

/// A node of a scan.
pub struct XmlDomScanNode<'a> {
    node: &'a DomNode,
    reading: Reading,
}

impl View for XmlDomScanNode<'_> {
    type V = TreeModel;

    closed spec fn view(&self) -> TreeModel {
        self.node.model()
    }
}

/// The first of the nodes, in their order.
pub open spec fn scanned(v: Seq<XmlDomScanNode<'_>>, n: Seq<TreeModel>, r: Reading) -> bool {
    &&& v.len() <= n.len()
    &&& forall|i: int| 0 <= i < v.len() ==> (#[trigger] v[i])@ == n[i] && v[i].reading() == r
}

/// The visits of a scan: all but the last succeeded, and the last decided the outcome.
pub open spec fn visited<'a, F: FnMut(XmlDomScanNode<'a>) -> Result<(), XmlDomError>>(
    visit: F,
    calls: Seq<XmlDomScanNode<'a>>,
    r: Result<(), XmlDomError>,
) -> bool {
    &&& forall|i: int|
        0 <= i < calls.len() - 1 ==> call_ensures(
            visit,
            (#[trigger] calls[i],),
            Ok::<(), XmlDomError>(()),
        )
    &&& calls.len() > 0 ==> call_ensures(visit, (calls.last(),), r)
    &&& r is Err ==> calls.len() > 0
}

impl<'a> XmlDomScanNode<'a> {
    /// How values that are kept as they are written are read.
    pub closed spec fn reading(&self) -> Reading {
        self.reading
    }

    /// Returns what kind of node it is.
    pub fn kind(&self) -> (r: XmlNodeKind)
        ensures
            r == self@.kind,
    {
        self.node.kind
    }

    /// Returns the name of an element, or the target of a processing instruction.
    pub fn name(&self) -> (r: Option<&'a str>)
        ensures
            str_option(r) == node_name(self@),
    {
        self.node.name_of()
    }

    /// Returns the value of a node that is not an element.
    pub fn value(&self) -> (r: Result<Option<String>, XmlDomError>)
        ensures
            optional_outcome(r) == node_value(self@, self.reading()),
    {
        self.node.value_of(self.reading)
    }

    /// Lists the attributes.
    pub fn attributes(&self) -> (r: XmlDomScanAttributes<'a>)
        ensures
            r.remaining() == self@.attributes,
            r.reading() == self.reading(),
    {
        proof {
            assert(self@.attributes.skip(0) =~= self@.attributes);
        }
        XmlDomScanAttributes { node: self.node, reading: self.reading, at: 0 }
    }
}

/// An attribute of a scan.
pub struct XmlDomScanAttribute<'a> {
    name: &'a str,
    value: String,
}

impl View for XmlDomScanAttribute<'_> {
    type V = AttributeModel;

    closed spec fn view(&self) -> AttributeModel {
        AttributeModel { name: self.name@, value: self.value@ }
    }
}

impl<'a> XmlDomScanAttribute<'a> {
    /// Returns the name.
    pub fn name(&self) -> (r: &str)
        ensures
            r@ == self@.name,
    {
        self.name
    }

    /// Returns the value.
    pub fn value(&self) -> (r: &str)
        ensures
            r@ == self@.value,
    {
        self.value.as_str()
    }
}

/// The attributes of a node of a scan, one after the other.
pub struct XmlDomScanAttributes<'a> {
    node: &'a DomNode,
    reading: Reading,
    at: usize,
}

/// An attribute with its value.
pub open spec fn scanned_attribute(a: TreeAttribute, r: Reading) -> Result<
    AttributeModel,
    DomErrorModel,
> {
    match text_value(a.value, CompactLexemeKind::Attribute, r) {
        Ok(value) => Ok(AttributeModel { name: a.name, value }),
        Err(e) => Err(DomErrorModel::Parse(e)),
    }
}

impl<'a> XmlDomScanAttributes<'a> {
    /// The position is inside the list.
    #[verifier::type_invariant]
    spec fn wf(self) -> bool {
        self.at <= self.node.attributes@.len()
    }

    /// How values that are kept as they are written are read.
    pub closed spec fn reading(&self) -> Reading {
        self.reading
    }

    /// The attributes that are still to come.
    pub closed spec fn remaining(&self) -> Seq<TreeAttribute> {
        self.node.model().attributes.skip(self.at as int)
    }

    /// Returns the next attribute.
    pub fn next(&mut self) -> (r: Option<Result<XmlDomScanAttribute<'a>, XmlDomError>>)
        ensures
            match r {
                Some(a) => old(self).remaining().len() > 0 && crate::handle::outcome(a)
                    == scanned_attribute(old(self).remaining()[0], old(self).reading())
                    && final(self).remaining() == old(self).remaining().skip(1),
                None => old(self).remaining().len() == 0 && final(self).remaining() == old(
                    self,
                ).remaining(),
            },
            final(self).reading() == old(self).reading(),
    {
        proof {
            use_type_invariant(&*self);
        }
        if self.at >= self.node.attributes.len() {
            return None;
        }
        let ghost all = self.node.model().attributes;
        let ghost k = self.at as int;
        let node: &'a DomNode = self.node;
        let a = &node.attributes[self.at];
        self.at = self.at + 1;
        proof {
            assert(all[k] == a@);
            assert(all.skip(k).skip(1) =~= all.skip(k + 1));
        }
        match read_text(&a.value, CompactLexemeKind::Attribute, self.reading) {
            Ok(value) => Some(Ok(XmlDomScanAttribute { name: a.name.as_str(), value })),
            Err(e) => Some(Err(XmlDomError::Parse(e))),
        }
    }
}

} // verus!
