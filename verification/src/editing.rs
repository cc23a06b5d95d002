//! Changing the nodes of editable documents.

use vstd::prelude::*;
use vstd::slice::slice_subrange;

use std::ops::Range;

use crate::changes::{
    attribute_copied, attribute_ensured, attribute_inserted, attribute_moved, attribute_removed,
    attribute_replaced, attribute_set, copy_added, edit_at, element_added, element_changed,
    element_ensured, element_put_first, empty_element, graft, graft_step, has_room, lemma_shifted,
    node_added, node_moved, node_removed, node_renamed, node_replaced, nodes_added, pruned, shifted,
    sibling_added, text_ensured, text_set, value_set,
};
use crate::copying::{copy_tree, count_tree, is_pristine, release_tree, settle};
use crate::dom::{
    node_models, release_node, release_nodes, AttributeModel, NodeModel, XmlElement, XmlNode,
    XmlNodeKind,
};
use crate::facade::{handle_of, refused, resolved, target, StateModel, XmlDom};
use crate::fragment::XmlFragment;
use crate::handle::{
    handle_models, handles_outcome, outcome, plain_outcome, DomErrorModel, HandleModel, XmlDomError,
    XmlDomNode,
};
use crate::mutation::{
    attribute_fault, name_fault, node_fault, nodes_fault, text_fault, validate_attribute,
    validate_characters, validate_name, validate_node, validate_node_value, validate_nodes,
    value_fault, XmlMutationError,
};
use crate::tree::{
    copied, has_path, lemma_path_parent, node_at, node_ref, nodes_count, snapshot, tree_models,
    DomNode, TreeModel,
};
use crate::value::ToXmlValue;

verus! {

/// One node as a list.
fn single(n: XmlNode) -> (r: Vec<XmlNode>)
    ensures
        node_models(r@) == seq![n@],
        r@.len() == 1,
{
    let mut v: Vec<XmlNode> = Vec::new();
    v.push(n);
    proof {
        assert(node_models(v@) =~= seq![n@]);
    }
    v
}

/// Is the path the start of another one?
fn starts_path(q: &Vec<usize>, p: &Vec<usize>, n: usize) -> (r: bool)
    requires
        n <= p@.len(),
    ensures
        r == (q@.len() >= n && q@.take(n as int) == p@.take(n as int)),
{
    if q.len() < n {
        return false;
    }
    let mut k: usize = 0;
    while k < n
        invariant
            k <= n <= p@.len(),
            n <= q@.len(),
            forall|j: int| 0 <= j < k ==> q@[j] == p@[j],
        decreases n - k,
    {
        if q[k] != p[k] {
            proof {
                assert(q@.take(n as int)[k as int] != p@.take(n as int)[k as int]);
            }
            return false;
        }
        k = k + 1;
    }
    proof {
        assert(q@.take(n as int) =~= p@.take(n as int));
    }
    true
}

/// An empty element.
fn new_element(name: &str) -> (r: XmlNode)
    ensures
        r@ == empty_element(name@),
{
    let e = XmlElement { name: name.to_owned(), attributes: Vec::new(), children: Vec::new() };
    proof {
        assert(crate::dom::attribute_models(e.attributes@) =~= Seq::<AttributeModel>::empty());
        assert(node_models(e.children@) =~= Seq::<NodeModel>::empty());
    }
    XmlNode::Element(e)
}

impl XmlDomNode {
    /// Inserts one node.
    fn graft_one(dom: &mut XmlDom, p: &[usize], k: usize, nodes: &Vec<XmlNode>) -> (r: Result<
        XmlDomNode,
        XmlDomError,
    >)
        requires
            has_path(old(dom)@.root, p@),
            k <= node_at(old(dom)@.root, p@).children.len(),
            nodes@.len() == 1,
        ensures
            (final(dom)@, outcome(r)) == graft_step(old(dom)@, p@, k as int, seq![nodes@[0]@]),
    {
        let id: u64 = dom.state().next_id;
        let h = dom.handle(id);
        assert(node_models(nodes@) =~= seq![nodes@[0]@]);
        if graft(dom, p, k, nodes) {
            Ok(h)
        } else {
            Err(XmlDomError::InvalidTarget)
        }
    }

    fn add_node(&self, dom: &mut XmlDom, nodes: &Vec<XmlNode>, first: bool) -> (r: Result<
        XmlDomNode,
        XmlDomError,
    >)
        requires
            nodes@.len() == 1,
        ensures
            (final(dom)@, outcome(r)) == node_added(old(dom)@, self@, nodes@[0]@, first),
    {
        let p = match dom.resolve(self) {
            Err(e) => {
                return Err(e);
            },
            Ok(p) => p,
        };
        if let Err(e) = refused(validate_node(&nodes[0]), Ghost(node_fault(nodes@[0]@))) {
            return Err(e);
        }
        let n = node_ref(&dom.state().root, p.as_slice());
        if n.kind != XmlNodeKind::Element {
            return Err(XmlDomError::NotElement);
        }
        let k: usize = if first {
            0
        } else {
            n.children.len()
        };
        proof {
            assert(n.model().children == tree_models(n.children@));
        }
        Self::graft_one(dom, p.as_slice(), k, nodes)
    }

    /// Adds a node to the end of the children of an element.
    pub fn append_node(&self, dom: &mut XmlDom, node: XmlNode) -> (r: Result<
        XmlDomNode,
        XmlDomError,
    >)
        ensures
            (final(dom)@, outcome(r)) == node_added(old(dom)@, self@, node@, false),
    {
        let nodes = single(node);
        let r = self.add_node(dom, &nodes, false);
        release_nodes(nodes);
        r
    }

    /// Adds a node to the start of the children of an element.
    pub fn prepend_node(&self, dom: &mut XmlDom, node: XmlNode) -> (r: Result<
        XmlDomNode,
        XmlDomError,
    >)
        ensures
            (final(dom)@, outcome(r)) == node_added(old(dom)@, self@, node@, true),
    {
        let nodes = single(node);
        let r = self.add_node(dom, &nodes, true);
        release_nodes(nodes);
        r
    }

    /// Adds nodes to the end of the children of an element.
    pub fn extend_children(&self, dom: &mut XmlDom, nodes: Vec<XmlNode>) -> (r: Result<
        Range<usize>,
        XmlDomError,
    >)
        ensures
            (
                final(dom)@,
                match r {
                    Ok(x) => Ok((x.start as int, x.end as int)),
                    Err(e) => Err(e@),
                },
            ) == nodes_added(old(dom)@, self@, node_models(nodes@)),
    {
        let r = self.add_nodes(dom, &nodes);
        release_nodes(nodes);
        r
    }

    fn add_nodes(&self, dom: &mut XmlDom, nodes: &Vec<XmlNode>) -> (r: Result<
        Range<usize>,
        XmlDomError,
    >)
        ensures
            (
                final(dom)@,
                match r {
                    Ok(x) => Ok((x.start as int, x.end as int)),
                    Err(e) => Err(e@),
                },
            ) == nodes_added(old(dom)@, self@, node_models(nodes@)),
    {
        let p = match dom.resolve(self) {
            Err(e) => {
                return Err(e);
            },
            Ok(p) => p,
        };
        if let Err(e) = refused(
            validate_nodes(nodes),
            Ghost(nodes_fault(node_models(nodes@), 0)),
        ) {
            return Err(e);
        }
        let n = node_ref(&dom.state().root, p.as_slice());
        if n.kind != XmlNodeKind::Element {
            return Err(XmlDomError::NotElement);
        }
        let k: usize = n.children.len();
        proof {
            assert(n.model().children == tree_models(n.children@));
        }
        let more: usize = nodes.len();
        if k > usize::MAX - more {
            return Err(XmlDomError::InvalidTarget);
        }
        if graft(dom, p.as_slice(), k, nodes) {
            Ok(k..k + more)
        } else {
            Err(XmlDomError::InvalidTarget)
        }
    }

    /// Adds the nodes of a fragment to the end of the children of an element.
    pub fn append_fragment(&self, dom: &mut XmlDom, fragment: XmlFragment) -> (r: Result<
        Vec<XmlDomNode>,
        XmlDomError,
    >)
        ensures
            final(dom)@ == nodes_added(old(dom)@, self@, fragment@).0,
            handles_outcome(r) == match nodes_added(
                old(dom)@,
                self@,
                fragment@,
            ).1 {
                Ok(_) => Ok(graft_handles(old(dom)@, fragment@)),
                Err(e) => Err(e),
            },
    {
        let nodes = fragment.into_nodes();
        let handles = match new_handles(dom, &nodes) {
            Some(v) => v,
            None => Vec::new(),
        };
        match self.extend_children(dom, nodes) {
            Err(e) => Err(e),
            Ok(_) => Ok(handles),
        }
    }

    fn add_sibling(&self, dom: &mut XmlDom, nodes: &Vec<XmlNode>, after: bool) -> (r: Result<
        XmlDomNode,
        XmlDomError,
    >)
        requires
            nodes@.len() == 1,
        ensures
            (final(dom)@, outcome(r)) == sibling_added(old(dom)@, self@, nodes@[0]@, after),
    {
        let p = match dom.resolve(self) {
            Err(e) => {
                return Err(e);
            },
            Ok(p) => p,
        };
        if let Err(e) = refused(validate_node(&nodes[0]), Ghost(node_fault(nodes@[0]@))) {
            return Err(e);
        }
        let n: usize = p.len();
        if n == 0 {
            return Err(XmlDomError::RootHasNoSiblings);
        }
        proof {
            lemma_path_parent(dom@.root, p@);
            assert(p@.subrange(0, n - 1) =~= p@.drop_last());
        }
        let parent = slice_subrange(p.as_slice(), 0, n - 1);
        let place: usize = p[n - 1];
        let count: usize = node_ref(&dom.state().root, parent).children.len();
        assert(place < count);
        let k: usize = if after {
            place + 1
        } else {
            place
        };
        Self::graft_one(dom, parent, k, nodes)
    }

    /// Adds a node before this one.
    pub fn insert_before(&self, dom: &mut XmlDom, node: XmlNode) -> (r: Result<
        XmlDomNode,
        XmlDomError,
    >)
        ensures
            (final(dom)@, outcome(r)) == sibling_added(old(dom)@, self@, node@, false),
    {
        let nodes = single(node);
        let r = self.add_sibling(dom, &nodes, false);
        release_nodes(nodes);
        r
    }

    /// Adds a node behind this one.
    pub fn insert_after(&self, dom: &mut XmlDom, node: XmlNode) -> (r: Result<
        XmlDomNode,
        XmlDomError,
    >)
        ensures
            (final(dom)@, outcome(r)) == sibling_added(old(dom)@, self@, node@, true),
    {
        let nodes = single(node);
        let r = self.add_sibling(dom, &nodes, true);
        release_nodes(nodes);
        r
    }

    /// Replaces the node, which is returned.
    pub fn replace(&self, dom: &mut XmlDom, node: XmlNode) -> (r: Result<XmlNode, XmlDomError>)
        ensures
            (final(dom)@, outcome(r)) == node_replaced(old(dom)@, self@, node@),
    {
        let r = self.replace_by(dom, &node);
        release_node(node);
        r
    }

    fn replace_by(&self, dom: &mut XmlDom, node: &XmlNode) -> (r: Result<XmlNode, XmlDomError>)
        ensures
            (final(dom)@, outcome(r)) == node_replaced(old(dom)@, self@, node@),
    {
        let p = match dom.resolve(self) {
            Err(e) => {
                return Err(e);
            },
            Ok(p) => p,
        };
        if let Err(e) = refused(validate_node(node), Ghost(node_fault(node@))) {
            return Err(e);
        }
        let n: usize = p.len();
        if n == 0 {
            return Err(XmlDomError::RootHasNoSiblings);
        }
        let x = node_ref(&dom.state().root, p.as_slice());
        let old_node = match x.snapshot(dom.state().reading) {
            Err(e) => {
                return Err(XmlDomError::Parse(e));
            },
            Ok(x) => x,
        };
        let next: u64 = dom.state().next_id;
        let count: u64 = match crate::planting::count_node(node, u64::MAX - next) {
            None => {
                return Err(XmlDomError::InvalidTarget);
            },
            Some(c) => c,
        };
        let new = crate::planting::plant(node, next);
        proof {
            lemma_path_parent(dom@.root, p@);
            assert(p@.subrange(0, n - 1) =~= p@.drop_last());
        }
        let parent = slice_subrange(p.as_slice(), 0, n - 1);
        {
            let s = dom.state_mut();
            s.next_id = next + count;
        }
        let t = edit_at(dom, parent);
        proof {
            assert(t.model().children == tree_models(t.children@));
        }
        t.replace_child(p[n - 1], new);
        Ok(old_node)
    }

    /// Adds a copy of a node of the same document to the end of the children of this one.
    pub fn append_copy(&self, dom: &mut XmlDom, source: &XmlDomNode) -> (r: Result<
        XmlDomNode,
        XmlDomError,
    >)
        ensures
            (final(dom)@, outcome(r)) == copy_added(old(dom)@, self@, source@),
    {
        let p = match dom.resolve(self) {
            Err(e) => {
                return Err(e);
            },
            Ok(p) => p,
        };
        let x = match dom.find(source) {
            Err(e) => {
                return Err(e);
            },
            Ok(x) => x,
        };
        if !is_pristine(x) {
            let node = match x.snapshot(dom.state().reading) {
                Err(e) => {
                    return Err(XmlDomError::Parse(e));
                },
                Ok(n) => n,
            };
            return self.append_node(dom, node);
        }
        let t = node_ref(&dom.state().root, p.as_slice());
        if t.kind != XmlNodeKind::Element {
            return Err(XmlDomError::NotElement);
        }
        let k: usize = t.children.len();
        let next: u64 = dom.state().next_id;
        let count: u64 = match count_tree(x, u64::MAX - next) {
            None => {
                return Err(XmlDomError::InvalidTarget);
            },
            Some(c) => c,
        };
        let mut new: Vec<DomNode> = Vec::new();
        new.push(copy_tree(x, next));
        proof {
            assert(tree_models(new@) =~= seq![copied(x.model(), next as int)]);
            assert(t.model().children == tree_models(t.children@));
        }
        let h = dom.handle(next);
        {
            let s = dom.state_mut();
            s.next_id = next + count;
        }
        let n = edit_at(dom, p.as_slice());
        proof {
            assert(n.model().children == tree_models(n.children@));
        }
        n.insert_children(k, new);
        n.touched = true;
        Ok(h)
    }

    /// Adds a copy of a node of another document to the end of the children of this one.
    pub fn append_copy_from(&self, dom: &mut XmlDom, other: &XmlDom, source: &XmlDomNode) -> (r:
        Result<XmlDomNode, XmlDomError>)
        ensures
            (final(dom)@, outcome(r)) == match resolved(old(dom)@, self@) {
                Err(e) => (old(dom)@, Err(e)),
                Ok(_) => match target(other@, source@) {
                    Err(e) => (old(dom)@, Err(e)),
                    Ok(t) => match snapshot(t, other@.reading) {
                        Err(e) => (old(dom)@, Err(DomErrorModel::Parse(e))),
                        Ok(n) => node_added(old(dom)@, self@, n, false),
                    },
                },
            },
    {
        if let Err(e) = dom.resolve(self) {
            return Err(e);
        }
        match source.snapshot(other) {
            Err(e) => Err(e),
            Ok(n) => self.append_node(dom, n),
        }
    }

    /// Moves the node to a position among the children of an element of the same document.
    pub fn move_to(&self, dom: &mut XmlDom, destination: &XmlDomNode, index: usize) -> (r: Result<
        XmlDomNode,
        XmlDomError,
    >)
        ensures
            (final(dom)@, outcome(r)) == node_moved(old(dom)@, self@, destination@, index),
    {
        let p = match dom.resolve(self) {
            Err(e) => {
                return Err(e);
            },
            Ok(p) => p,
        };
        let q = match dom.resolve(destination) {
            Err(e) => {
                return Err(e);
            },
            Ok(q) => q,
        };
        let h = dom.handle(self.id().local());
        let t = node_ref(&dom.state().root, q.as_slice());
        let kind = t.kind;
        let fixed = t.recorded;
        let len: usize = t.children.len();
        proof {
            assert(t.model().children == tree_models(t.children@));
        }
        let n: usize = p.len();
        if n > 0 {
            proof {
                lemma_path_parent(dom@.root, p@);
                assert(p@.subrange(0, n - 1) =~= p@.drop_last());
                assert(p@.take(n - 1) =~= p@.drop_last());
                if q@.len() == n - 1 {
                    assert(q@.take(n - 1) =~= q@);
                }
            }
            if q.len() == n - 1 && starts_path(&q, &p, n - 1) {
                if index > len {
                    return Err(
                        XmlDomError::Mutation(XmlMutationError::IndexOutOfBounds { index, len }),
                    );
                }
                let x = edit_at(dom, q.as_slice());
                proof {
                    assert(x.model().children == tree_models(x.children@));
                }
                x.reorder(p[n - 1], index);
                return Ok(h);
            }
        } else {
            return Err(XmlDomError::Mutation(XmlMutationError::RootHasNoSiblings));
        }
        proof {
            assert(p@.take(n as int) =~= p@);
        }
        if starts_path(&q, &p, n) {
            return Err(XmlDomError::Mutation(XmlMutationError::MoveIntoDescendant));
        }
        if kind != XmlNodeKind::Element {
            return Err(XmlDomError::Mutation(XmlMutationError::DestinationNotElement));
        }
        if index > len {
            return Err(XmlDomError::Mutation(XmlMutationError::IndexOutOfBounds { index, len }));
        }
        let ghost s = dom@;
        let mut d: Vec<usize> = Vec::new();
        let mut k: usize = 0;
        let shift = starts_path(&q, &p, n - 1) && q.len() >= n && q[n - 1] > p[n - 1];
        while k < q.len()
            invariant
                k <= q@.len(),
                d@.len() == k,
                1 <= n == p@.len(),
                shift ==> q@.len() >= n && q@[n - 1] > p@[n - 1],
                forall|i: int|
                    0 <= i < k ==> #[trigger] d@[i] == (if shift && i == n - 1 {
                        (q@[i] - 1) as usize
                    } else {
                        q@[i]
                    }),
            decreases q@.len() - k,
        {
            if shift && k == n - 1 {
                d.push(q[k] - 1);
            } else {
                d.push(q[k]);
            }
            k = k + 1;
        }
        proof {
            assert(d@ =~= shifted(q@, p@));
            lemma_shifted(s.root, p@, q@);
        }
        let parent = slice_subrange(p.as_slice(), 0, n - 1);
        let held = node_ref(&dom.state().root, p.as_slice());
        let kept = is_pristine(held) && node_ref(&dom.state().root, parent).recorded && fixed;
        let read: Option<DomNode> = if kept {
            None
        } else {
            match settle(held, dom.state().reading) {
                Err(e) => {
                    return Err(XmlDomError::Parse(e));
                },
                Ok(x) => Some(x),
            }
        };
        let x = edit_at(dom, parent);
        proof {
            assert(x.model().children == tree_models(x.children@));
        }
        let moved = x.remove_child(p[n - 1]);
        proof {
            assert(dom@ == pruned(s, p@));
            assert(moved.model() == node_at(s.root, p@));
        }
        let placed = match read {
            Some(x) => {
                release_tree(moved);
                x
            },
            None => moved,
        };
        let ghost z = placed.model();
        let mut new: Vec<DomNode> = Vec::new();
        new.push(placed);
        proof {
            assert(tree_models(new@) =~= seq![z]);
        }
        let y = edit_at(dom, d.as_slice());
        proof {
            assert(y.model().children == tree_models(y.children@));
        }
        y.insert_children(index, new);
        y.touched = true;
        Ok(h)
    }

    /// Adds an empty element to the end of the children of an element.
    pub fn append_element(&self, dom: &mut XmlDom, name: &str) -> (r: Result<
        XmlDomNode,
        XmlDomError,
    >)
        ensures
            (final(dom)@, outcome(r)) == element_added(old(dom)@, self@, name@),
    {
        if let Err(e) = dom.resolve(self) {
            return Err(e);
        }
        if let Err(e) = refused(validate_name(name), Ghost(name_fault(name@))) {
            return Err(e);
        }
        self.add_node(dom, &single(new_element(name)), false)
    }

    /// Adds an empty element to the start of the children of an element.
    pub fn prepend_element(&self, dom: &mut XmlDom, name: &str) -> (r: Result<
        XmlDomNode,
        XmlDomError,
    >)
        ensures
            (final(dom)@, outcome(r)) == element_put_first(old(dom)@, self@, name@),
    {
        if let Err(e) = refused(validate_name(name), Ghost(name_fault(name@))) {
            return Err(e);
        }
        self.add_node(dom, &single(new_element(name)), true)
    }

    /// Finds the first child element with a name, or adds an empty one.
    pub fn ensure_element(&self, dom: &mut XmlDom, name: &str) -> (r: Result<
        XmlDomNode,
        XmlDomError,
    >)
        ensures
            (final(dom)@, outcome(r)) == element_ensured(old(dom)@, self@, name@),
    {
        if let Err(e) = refused(validate_name(name), Ghost(name_fault(name@))) {
            return Err(e);
        }
        let n = match dom.find(self) {
            Err(e) => {
                return Err(e);
            },
            Ok(n) => n,
        };
        match n.element_position(name) {
            Some(k) => {
                assert(n.model().children[k as int] == n.children@[k as int].model());
                Ok(dom.handle(n.children[k].id))
            },
            None => self.append_element(dom, name),
        }
    }

    /// Renames an element or a processing instruction.
    pub fn set_name(&self, dom: &mut XmlDom, name: &str) -> (r: Result<(), XmlDomError>)
        ensures
            (final(dom)@, plain_outcome(r)) == node_renamed(old(dom)@, self@, name@),
    {
        let p = match dom.resolve(self) {
            Err(e) => {
                return Err(e);
            },
            Ok(p) => p,
        };
        if let Err(e) = refused(validate_name(name), Ghost(name_fault(name@))) {
            return Err(e);
        }
        if node_ref(&dom.state().root, p.as_slice()).name_of().is_none() {
            return Err(XmlDomError::InvalidTarget);
        }
        edit_at(dom, p.as_slice()).put_name(name);
        Ok(())
    }

    /// Sets the value of a node that is not an element.
    pub fn set_value(&self, dom: &mut XmlDom, value: &str) -> (r: Result<(), XmlDomError>)
        ensures
            (final(dom)@, plain_outcome(r)) == value_set(old(dom)@, self@, value@),
    {
        let p = match dom.resolve(self) {
            Err(e) => {
                return Err(e);
            },
            Ok(p) => p,
        };
        let kind = node_ref(&dom.state().root, p.as_slice()).kind;
        if let Err(e) = refused(
            validate_node_value(kind, value),
            Ghost(value_fault(kind, value@)),
        ) {
            return Err(e);
        }
        if kind == XmlNodeKind::Element {
            return Err(XmlDomError::InvalidTarget);
        }
        edit_at(dom, p.as_slice()).put_value(value);
        Ok(())
    }

    /// Sets an attribute of an element.
    pub fn set_attribute(&self, dom: &mut XmlDom, name: &str, value: &str) -> (r: Result<
        (),
        XmlDomError,
    >)
        ensures
            (final(dom)@, plain_outcome(r)) == attribute_set(old(dom)@, self@, name@, value@),
    {
        let p = match dom.resolve(self) {
            Err(e) => {
                return Err(e);
            },
            Ok(p) => p,
        };
        if let Err(e) = refused(
            validate_attribute(name, value),
            Ghost(attribute_fault(name@, value@)),
        ) {
            return Err(e);
        }
        if node_ref(&dom.state().root, p.as_slice()).kind != XmlNodeKind::Element {
            return Err(XmlDomError::NotElement);
        }
        edit_at(dom, p.as_slice()).put_attribute(name, value);
        Ok(())
    }

    /// Sets an attribute of an element to the text of a value.
    pub fn set_attribute_typed<T: ToXmlValue>(&self, dom: &mut XmlDom, name: &str, value: T) -> (r:
        Result<(), XmlDomError>)
        ensures
            (final(dom)@, plain_outcome(r)) == attribute_set(
                old(dom)@,
                self@,
                name@,
                value.xml_value(),
            ),
    {
        let text = value.to_xml_value();
        self.set_attribute(dom, name, text.as_str())
    }

    /// Sets an attribute that is not there. The value that it has then is returned.
    pub fn ensure_attribute(&self, dom: &mut XmlDom, name: &str, default: &str) -> (r: Result<
        String,
        XmlDomError,
    >)
        ensures
            (final(dom)@, outcome(r)) == attribute_ensured(old(dom)@, self@, name@, default@),
    {
        match self.attribute(dom, name) {
            Err(e) => Err(e),
            Ok(Some(x)) => Ok(x),
            Ok(None) => match self.set_attribute(dom, name, default) {
                Err(e) => Err(e),
                Ok(_) => Ok(default.to_owned()),
            },
        }
    }

    /// Copies an attribute of another element of the same document. Whether there was one is
    /// returned.
    pub fn copy_attribute_from(&self, dom: &mut XmlDom, source: &XmlDomNode, name: &str) -> (r:
        Result<bool, XmlDomError>)
        ensures
            (final(dom)@, plain_outcome(r)) == attribute_copied(
                old(dom)@,
                self@,
                old(dom)@,
                source@,
                name@,
            ),
    {
        match source.attribute(dom, name) {
            Err(e) => Err(e),
            Ok(None) => Ok(false),
            Ok(Some(x)) => match self.set_attribute(dom, name, x.as_str()) {
                Err(e) => Err(e),
                Ok(_) => Ok(true),
            },
        }
    }

    /// Copies an attribute of an element of another document. Whether there was one is returned.
    pub fn copy_attribute_from_document(
        &self,
        dom: &mut XmlDom,
        other: &XmlDom,
        source: &XmlDomNode,
        name: &str,
    ) -> (r: Result<bool, XmlDomError>)
        ensures
            (final(dom)@, plain_outcome(r)) == attribute_copied(
                old(dom)@,
                self@,
                other@,
                source@,
                name@,
            ),
    {
        match source.attribute(other, name) {
            Err(e) => Err(e),
            Ok(None) => Ok(false),
            Ok(Some(x)) => match self.set_attribute(dom, name, x.as_str()) {
                Err(e) => Err(e),
                Ok(_) => Ok(true),
            },
        }
    }

    /// Moves an attribute from another element of the same document. Whether it is there in the
    /// end is returned.
    pub fn move_attribute_from(&self, dom: &mut XmlDom, source: &XmlDomNode, name: &str) -> (r:
        Result<bool, XmlDomError>)
        ensures
            (final(dom)@, plain_outcome(r)) == attribute_moved(old(dom)@, self@, source@, name@),
    {
        let p = match dom.resolve(self) {
            Err(e) => {
                return Err(e);
            },
            Ok(p) => p,
        };
        let q = match dom.resolve(source) {
            Err(e) => {
                return Err(e);
            },
            Ok(q) => q,
        };
        proof {
            if p@.len() == q@.len() {
                assert(p@.take(p@.len() as int) =~= p@);
                assert(q@.take(p@.len() as int) =~= q@);
            }
        }
        if p.len() == q.len() && starts_path(&q, &p, p.len()) {
            return match self.attribute(dom, name) {
                Err(e) => Err(e),
                Ok(x) => Ok(x.is_some()),
            };
        }
        match self.copy_attribute_from(dom, source, name) {
            Err(e) => Err(e),
            Ok(false) => Ok(false),
            Ok(true) => source.remove_attribute(dom, name),
        }
    }

    /// Moves an attribute from an element of another document. Whether there was one is returned.
    pub fn move_attribute_from_document(
        &self,
        dom: &mut XmlDom,
        other: &mut XmlDom,
        source: &XmlDomNode,
        name: &str,
    ) -> (r: Result<bool, XmlDomError>)
        ensures
            ({
                let (next, copied) = attribute_copied(
                    old(dom)@,
                    self@,
                    old(other)@,
                    source@,
                    name@,
                );
                &&& final(dom)@ == next
                &&& copied == Ok::<bool, DomErrorModel>(true) ==> (
                final(other)@,
                plain_outcome(r),
                ) == attribute_removed(old(other)@, source@, name@)
                &&& copied != Ok::<bool, DomErrorModel>(true) ==> final(other)@ == old(other)@
                    && plain_outcome(r) == copied
            }),
    {
        match self.copy_attribute_from_document(dom, other, source, name) {
            Err(e) => Err(e),
            Ok(false) => Ok(false),
            Ok(true) => source.remove_attribute(other, name),
        }
    }

    /// Removes an attribute of an element. Whether there was one is returned.
    pub fn remove_attribute(&self, dom: &mut XmlDom, name: &str) -> (r: Result<bool, XmlDomError>)
        ensures
            (final(dom)@, plain_outcome(r)) == attribute_removed(old(dom)@, self@, name@),
    {
        let p = match dom.resolve(self) {
            Err(e) => {
                return Err(e);
            },
            Ok(p) => p,
        };
        let n = node_ref(&dom.state().root, p.as_slice());
        if n.kind != XmlNodeKind::Element {
            return Err(XmlDomError::NotElement);
        }
        match n.attribute_position(name) {
            None => Ok(false),
            Some(k) => {
                proof {
                    assert(n.model().attributes == crate::tree::tree_attribute_models(
                        n.attributes@,
                    ));
                }
                let x = edit_at(dom, p.as_slice());
                proof {
                    assert(x.model().attributes == crate::tree::tree_attribute_models(
                        x.attributes@,
                    ));
                }
                x.drop_attribute(k);
                Ok(true)
            },
        }
    }

    /// Replaces an attribute of an element by another one. Whether there was one is returned.
    pub fn replace_attribute(&self, dom: &mut XmlDom, old_name: &str, new_name: &str, value: &str) -> (r:
        Result<bool, XmlDomError>)
        ensures
            (final(dom)@, plain_outcome(r)) == attribute_replaced(
                old(dom)@,
                self@,
                old_name@,
                new_name@,
                value@,
            ),
    {
        let p = match dom.resolve(self) {
            Err(e) => {
                return Err(e);
            },
            Ok(p) => p,
        };
        if let Err(e) = refused(
            validate_attribute(new_name, value),
            Ghost(attribute_fault(new_name@, value@)),
        ) {
            return Err(e);
        }
        let n = node_ref(&dom.state().root, p.as_slice());
        if n.kind != XmlNodeKind::Element {
            return Err(XmlDomError::NotElement);
        }
        match n.attribute_position(old_name) {
            None => Ok(false),
            Some(k) => {
                proof {
                    assert(n.model().attributes == crate::tree::tree_attribute_models(
                        n.attributes@,
                    ));
                }
                let x = edit_at(dom, p.as_slice());
                proof {
                    assert(x.model().attributes == crate::tree::tree_attribute_models(
                        x.attributes@,
                    ));
                }
                x.swap_attribute(k, new_name, value);
                Ok(true)
            },
        }
    }

    /// Adds an attribute before the others.
    pub fn prepend_attribute(&self, dom: &mut XmlDom, name: &str, value: &str) -> (r: Result<
        (),
        XmlDomError,
    >)
        ensures
            (final(dom)@, plain_outcome(r)) == attribute_inserted(
                old(dom)@,
                self@,
                0,
                name@,
                value@,
            ),
    {
        self.insert_attribute(dom, 0, name, value)
    }

    /// Adds an attribute at a position.
    pub fn insert_attribute(&self, dom: &mut XmlDom, index: usize, name: &str, value: &str) -> (r:
        Result<(), XmlDomError>)
        ensures
            (final(dom)@, plain_outcome(r)) == attribute_inserted(
                old(dom)@,
                self@,
                index,
                name@,
                value@,
            ),
    {
        let p = match dom.resolve(self) {
            Err(e) => {
                return Err(e);
            },
            Ok(p) => p,
        };
        if let Err(e) = refused(
            validate_attribute(name, value),
            Ghost(attribute_fault(name@, value@)),
        ) {
            return Err(e);
        }
        let n = node_ref(&dom.state().root, p.as_slice());
        if n.kind != XmlNodeKind::Element {
            return Err(XmlDomError::NotElement);
        }
        proof {
            assert(n.model().attributes == crate::tree::tree_attribute_models(n.attributes@));
        }
        if index > n.attributes.len() {
            return Err(XmlDomError::InvalidTarget);
        }
        let x = edit_at(dom, p.as_slice());
        proof {
            assert(x.model().attributes == crate::tree::tree_attribute_models(x.attributes@));
        }
        x.add_attribute(index, name, value);
        Ok(())
    }

    /// Removes all attributes of an element.
    pub fn clear_attributes(&self, dom: &mut XmlDom) -> (r: Result<(), XmlDomError>)
        ensures
            (final(dom)@, plain_outcome(r)) == element_changed(
                old(dom)@,
                self@,
                |t: TreeModel| TreeModel { attributes: Seq::empty(), touched: true, ..t },
            ),
    {
        let p = match dom.resolve(self) {
            Err(e) => {
                return Err(e);
            },
            Ok(p) => p,
        };
        if node_ref(&dom.state().root, p.as_slice()).kind != XmlNodeKind::Element {
            return Err(XmlDomError::NotElement);
        }
        edit_at(dom, p.as_slice()).drop_attributes();
        Ok(())
    }

    /// Sets the text of an element.
    pub fn set_text(&self, dom: &mut XmlDom, value: &str) -> (r: Result<(), XmlDomError>)
        ensures
            (final(dom)@, plain_outcome(r)) == text_set(old(dom)@, self@, value@),
    {
        let p = match dom.resolve(self) {
            Err(e) => {
                return Err(e);
            },
            Ok(p) => p,
        };
        if let Err(e) = refused(validate_characters(value), Ghost(text_fault(value@))) {
            return Err(e);
        }
        let n = node_ref(&dom.state().root, p.as_slice());
        if n.kind != XmlNodeKind::Element {
            return Err(XmlDomError::NotElement);
        }
        proof {
            assert(n.model().children == tree_models(n.children@));
        }
        match n.text_position() {
            Some(k) => {
                let x = edit_at(dom, p.as_slice());
                proof {
                    assert(x.model().children == tree_models(x.children@));
                }
                x.put_child_value(k, value);
                Ok(())
            },
            None => match Self::graft_one(
                dom,
                p.as_slice(),
                0,
                &single(XmlNode::Text(value.to_owned())),
            ) {
                Err(e) => Err(e),
                Ok(_) => Ok(()),
            },
        }
    }

    /// Sets the text of an element to the text of a value.
    pub fn set_text_typed<T: ToXmlValue>(&self, dom: &mut XmlDom, value: T) -> (r: Result<
        (),
        XmlDomError,
    >)
        ensures
            (final(dom)@, plain_outcome(r)) == text_set(old(dom)@, self@, value.xml_value()),
    {
        let text = value.to_xml_value();
        self.set_text(dom, text.as_str())
    }

    /// Sets the text of an element that has none. The text that it has then is returned.
    pub fn ensure_text(&self, dom: &mut XmlDom, default: &str) -> (r: Result<String, XmlDomError>)
        ensures
            (final(dom)@, outcome(r)) == text_ensured(old(dom)@, self@, default@),
    {
        match self.text(dom) {
            Err(e) => Err(e),
            Ok(Some(x)) => Ok(x),
            Ok(None) => match self.set_text(dom, default) {
                Err(e) => Err(e),
                Ok(_) => Ok(default.to_owned()),
            },
        }
    }

    /// Removes the node, which is returned.
    pub fn remove(&self, dom: &mut XmlDom) -> (r: Result<XmlNode, XmlDomError>)
        ensures
            (final(dom)@, outcome(r)) == node_removed(old(dom)@, self@),
    {
        let p = match dom.resolve(self) {
            Err(e) => {
                return Err(e);
            },
            Ok(p) => p,
        };
        let n: usize = p.len();
        if n == 0 {
            return Err(XmlDomError::RootHasNoSiblings);
        }
        let x = node_ref(&dom.state().root, p.as_slice());
        let old_node = match x.snapshot(dom.state().reading) {
            Err(e) => {
                return Err(XmlDomError::Parse(e));
            },
            Ok(x) => x,
        };
        proof {
            lemma_path_parent(dom@.root, p@);
            assert(p@.subrange(0, n - 1) =~= p@.drop_last());
        }
        let parent = slice_subrange(p.as_slice(), 0, n - 1);
        let t = edit_at(dom, parent);
        proof {
            assert(t.model().children == tree_models(t.children@));
        }
        release_tree(t.remove_child(p[n - 1]));
        Ok(old_node)
    }

    /// Removes all children of an element.
    pub fn clear(&self, dom: &mut XmlDom) -> (r: Result<(), XmlDomError>)
        ensures
            (final(dom)@, plain_outcome(r)) == element_changed(
                old(dom)@,
                self@,
                |t: TreeModel| TreeModel { children: Seq::empty(), touched: true, ..t },
            ),
    {
        let p = match dom.resolve(self) {
            Err(e) => {
                return Err(e);
            },
            Ok(p) => p,
        };
        if node_ref(&dom.state().root, p.as_slice()).kind != XmlNodeKind::Element {
            return Err(XmlDomError::NotElement);
        }
        edit_at(dom, p.as_slice()).drop_children();
        Ok(())
    }
}

/// The handles of new nodes.
pub open spec fn graft_handles(s: StateModel, n: Seq<NodeModel>) -> Seq<HandleModel> {
    Seq::new(n.len(), |i: int| handle_of(s, (s.next_id + nodes_count(n, i)) as u64))
}

/// The handles that new nodes will have.
fn new_handles(dom: &XmlDom, nodes: &Vec<XmlNode>) -> (r: Option<Vec<XmlDomNode>>)
    ensures
        match r {
            Some(v) => handle_models(v@) == graft_handles(dom@, node_models(nodes@)),
            None => !has_room(dom@, nodes_count(node_models(nodes@), nodes@.len() as int)),
        },
{
    let ghost n = node_models(nodes@);
    let next: u64 = dom.state().next_id;
    let mut out: Vec<XmlDomNode> = Vec::new();
    let mut total: u64 = 0;
    let mut k: usize = 0;
    while k < nodes.len()
        invariant
            k <= nodes@.len(),
            n == node_models(nodes@),
            next == dom@.next_id,
            total == nodes_count(n, k as int),
            next + total <= u64::MAX,
            out@.len() == k,
            forall|i: int| 0 <= i < k ==> (#[trigger] out@[i])@ == graft_handles(dom@, n)[i],
        decreases nodes@.len() - k,
    {
        assert(n[k as int] == nodes@[k as int].model());
        out.push(dom.handle(next + total));
        match crate::planting::count_node(&nodes[k], u64::MAX - next - total) {
            Some(c) => {
                total = total + c;
            },
            None => {
                proof {
                    crate::planting::lemma_nodes_count_monotone(n, k + 1, nodes@.len() as int);
                }
                return None;
            },
        }
        k = k + 1;
    }
    proof {
        assert(handle_models(out@) =~= graft_handles(dom@, n));
    }
    Some(out)
}

} // verus!
