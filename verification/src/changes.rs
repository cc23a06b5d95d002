//! The changes of an editable document, as steps from one state to the next.

use vstd::prelude::*;

use crate::access::{
    attribute_index, attribute_value, element_index, node_content, node_name, text_index,
};
use crate::copying::{release_tree, release_trees};
use crate::dom::{node_models, NodeModel, XmlNode, XmlNodeKind};
use crate::facade::{handle_of, out_of_bounds, resolved, StateModel, XmlDom};
use crate::handle::{DomErrorModel, HandleModel};
use crate::mutation::{
    attribute_fault, name_fault, node_fault, nodes_fault, text_fault, value_fault, MutationModel,
};
use crate::planting::{count_nodes_within, plant_all};
use crate::tree::{
    copied, has_path, lemma_path_parent, node_at, node_count, node_mut, nodes_count, plain_text,
    planted_all, pristine, settled, size, snapshot, to_plain_text, tree_attribute_models,
    tree_models, updated, DomAttribute, DomNode, TreeAttribute, TreeModel,
};

verus! {

/// The node, marked as changed.
pub open spec fn marked(t: TreeModel) -> TreeModel {
    TreeModel { touched: true, ..t }
}

/// The node with more children, from position `k` on.
///
/// It counts as changed if something stood there: what was added at the end shows by itself.
pub open spec fn inserted(t: TreeModel, k: int, n: Seq<TreeModel>) -> TreeModel {
    TreeModel {
        children: t.children.subrange(0, k) + n + t.children.subrange(
            k,
            t.children.len() as int,
        ),
        touched: t.touched || k < t.children.len(),
        ..t
    }
}

/// The node without child `k`.
///
/// It counts as changed if the child was there from the start.
pub open spec fn removed(t: TreeModel, k: int) -> TreeModel {
    TreeModel {
        children: t.children.remove(k),
        touched: t.touched || t.children[k].recorded,
        ..t
    }
}

/// The node with another child `k`.
pub open spec fn replaced(t: TreeModel, k: int, n: TreeModel) -> TreeModel {
    TreeModel { children: t.children.update(k, n), ..t }
}

/// The parts of a node beside its children and its mark are the same.
pub open spec fn same_head(a: TreeModel, b: TreeModel) -> bool {
    a == (TreeModel { children: a.children, touched: a.touched, ..b })
}

/// The document with another node where the path leads.
pub open spec fn changed(s: StateModel, p: Seq<usize>, t: TreeModel) -> StateModel {
    StateModel { root: updated(s.root, p, t), edited: true, ..s }
}

/// There are numbers for that many new nodes.
pub open spec fn has_room(s: StateModel, n: nat) -> bool {
    s.next_id + n <= u64::MAX
}

/// The document with new nodes among the children of the node that the path leads to.
pub open spec fn grafted(s: StateModel, p: Seq<usize>, k: int, n: Seq<NodeModel>) -> StateModel {
    StateModel {
        next_id: (s.next_id + nodes_count(n, n.len() as int)) as u64,
        ..changed(
            s,
            p,
            inserted(
                node_at(s.root, p),
                k,
                planted_all(n, n.len() as int, s.next_id as int),
            ),
        )
    }
}

/// A step: the next state, and what is returned.
pub type Step<T> = (StateModel, Result<T, DomErrorModel>);

/// Inserts nodes among the children of an element at `k`, if there are numbers for them.
pub open spec fn graft_step(s: StateModel, p: Seq<usize>, k: int, n: Seq<NodeModel>) -> Step<
    HandleModel,
> {
    if !has_room(s, nodes_count(n, n.len() as int)) {
        (s, Err(DomErrorModel::InvalidTarget))
    } else {
        (grafted(s, p, k, n), Ok(handle_of(s, s.next_id)))
    }
}

/// Adds a node to the children of an element: at the end, or at the start.
pub open spec fn node_added(s: StateModel, h: HandleModel, n: NodeModel, first: bool) -> Step<
    HandleModel,
> {
    match resolved(s, h) {
        Err(e) => (s, Err(e)),
        Ok(p) => match node_fault(n) {
            Some(m) => (s, Err(DomErrorModel::Mutation(m))),
            None => if node_at(s.root, p).kind != XmlNodeKind::Element {
                (s, Err(DomErrorModel::NotElement))
            } else {
                graft_step(
                    s,
                    p,
                    if first {
                        0
                    } else {
                        node_at(s.root, p).children.len() as int
                    },
                    seq![n],
                )
            },
        },
    }
}

/// Adds nodes to the end of the children of an element. Their positions are returned.
pub open spec fn nodes_added(s: StateModel, h: HandleModel, n: Seq<NodeModel>) -> Step<(int, int)> {
    match resolved(s, h) {
        Err(e) => (s, Err(e)),
        Ok(p) => match nodes_fault(n, 0) {
            Some(m) => (s, Err(DomErrorModel::Mutation(m))),
            None => {
                let t = node_at(s.root, p);
                let len = t.children.len() as int;
                if t.kind != XmlNodeKind::Element {
                    (s, Err(DomErrorModel::NotElement))
                } else if !has_room(s, nodes_count(n, n.len() as int)) || len + n.len()
                    > usize::MAX {
                    (s, Err(DomErrorModel::InvalidTarget))
                } else {
                    (grafted(s, p, len, n), Ok((len, (len + n.len()) as int)))
                }
            },
        },
    }
}

/// Adds a node beside another one.
pub open spec fn sibling_added(s: StateModel, h: HandleModel, n: NodeModel, after: bool) -> Step<
    HandleModel,
> {
    match resolved(s, h) {
        Err(e) => (s, Err(e)),
        Ok(p) => match node_fault(n) {
            Some(m) => (s, Err(DomErrorModel::Mutation(m))),
            None => if p.len() == 0 {
                (s, Err(DomErrorModel::RootHasNoSiblings))
            } else {
                graft_step(
                    s,
                    p.drop_last(),
                    if after {
                        p.last() + 1
                    } else {
                        p.last() as int
                    },
                    seq![n],
                )
            },
        },
    }
}

/// Replaces a node by a new one. The old one is returned.
pub open spec fn node_replaced(s: StateModel, h: HandleModel, n: NodeModel) -> Step<NodeModel> {
    match resolved(s, h) {
        Err(e) => (s, Err(e)),
        Ok(p) => match node_fault(n) {
            Some(m) => (s, Err(DomErrorModel::Mutation(m))),
            None => if p.len() == 0 {
                (s, Err(DomErrorModel::RootHasNoSiblings))
            } else {
                match snapshot(node_at(s.root, p), s.reading) {
                    Err(e) => (s, Err(DomErrorModel::Parse(e))),
                    Ok(x) => if !has_room(s, node_count(n)) {
                        (s, Err(DomErrorModel::InvalidTarget))
                    } else {
                        (
                            StateModel {
                                next_id: (s.next_id + node_count(n)) as u64,
                                ..changed(
                                    s,
                                    p.drop_last(),
                                    marked(
                                        replaced(
                                            node_at(s.root, p.drop_last()),
                                            p.last() as int,
                                            crate::tree::planted(n, s.next_id as int),
                                        ),
                                    ),
                                )
                            },
                            Ok(x),
                        )
                    },
                }
            },
        },
    }
}

/// The document without the node that the path leads to.
pub open spec fn pruned(s: StateModel, p: Seq<usize>) -> StateModel {
    changed(s, p.drop_last(), removed(node_at(s.root, p.drop_last()), p.last() as int))
}

/// Removes a node. It is returned.
pub open spec fn node_removed(s: StateModel, h: HandleModel) -> Step<NodeModel> {
    match resolved(s, h) {
        Err(e) => (s, Err(e)),
        Ok(p) => if p.len() == 0 {
            (s, Err(DomErrorModel::RootHasNoSiblings))
        } else {
            match snapshot(node_at(s.root, p), s.reading) {
                Err(e) => (s, Err(DomErrorModel::Parse(e))),
                Ok(x) => (pruned(s, p), Ok(x)),
            }
        },
    }
}

/// Changes an element.
pub open spec fn element_changed(s: StateModel, h: HandleModel, f: spec_fn(TreeModel) -> TreeModel) -> Step<
    (),
> {
    match resolved(s, h) {
        Err(e) => (s, Err(e)),
        Ok(p) => if node_at(s.root, p).kind != XmlNodeKind::Element {
            (s, Err(DomErrorModel::NotElement))
        } else {
            (changed(s, p, f(node_at(s.root, p))), Ok(()))
        },
    }
}

/// Adds a copy of a node to the end of the children of an element.
///
/// A node that is as it was parsed is copied as it was parsed. Another one is read and added as a
/// new one.
pub open spec fn copy_added(s: StateModel, h: HandleModel, source: HandleModel) -> Step<
    HandleModel,
> {
    match resolved(s, h) {
        Err(e) => (s, Err(e)),
        Ok(p) => match resolved(s, source) {
            Err(e) => (s, Err(e)),
            Ok(q) => {
                let t = node_at(s.root, p);
                let x = node_at(s.root, q);
                if !pristine(x) {
                    match snapshot(x, s.reading) {
                        Err(e) => (s, Err(DomErrorModel::Parse(e))),
                        Ok(n) => node_added(s, h, n, false),
                    }
                } else if t.kind != XmlNodeKind::Element {
                    (s, Err(DomErrorModel::NotElement))
                } else if !has_room(s, size(x)) {
                    (s, Err(DomErrorModel::InvalidTarget))
                } else {
                    (
                        StateModel {
                            next_id: (s.next_id + size(x)) as u64,
                            ..changed(
                                s,
                                p,
                                marked(
                                    inserted(
                                        t,
                                        t.children.len() as int,
                                        seq![copied(x, s.next_id as int)],
                                    ),
                                ),
                            )
                        },
                        Ok(handle_of(s, s.next_id)),
                    )
                }
            },
        },
    }
}

/// The node with a child at another position among its children: what stood before position
/// `index` stands before the child.
pub open spec fn reordered(t: TreeModel, k: int, index: int) -> TreeModel {
    let j = if k < index {
        index - 1
    } else {
        index
    };
    TreeModel {
        children: t.children.remove(k).insert(j, t.children[k]),
        touched: true,
        ..t
    }
}

/// The path leads through the node that another one leads to.
pub open spec fn passes(q: Seq<usize>, p: Seq<usize>) -> bool {
    q.len() >= p.len() && q.take(p.len() as int) == p
}

/// Where a path leads when the node that `p` leads to is gone: siblings behind it move up.
pub open spec fn shifted(q: Seq<usize>, p: Seq<usize>) -> Seq<usize> {
    let i = p.len() - 1;
    if p.len() > 0 && q.len() >= p.len() && q.take(i) == p.drop_last() && q[i] > p[i] {
        q.update(i, (q[i] - 1) as usize)
    } else {
        q
    }
}

/// The document without the node that `p` leads to and with `x` at position `index` among the
/// children of another one.
pub open spec fn transplanted(
    s: StateModel,
    p: Seq<usize>,
    q: Seq<usize>,
    index: int,
    x: TreeModel,
) -> StateModel {
    let rest = pruned(s, p);
    let d = shifted(q, p);
    changed(rest, d, marked(inserted(node_at(rest.root, d), index, seq![x])))
}

/// Moves a node. It keeps its number.
///
/// A node that is as it was parsed moves as it is to an element that was parsed. Else its values
/// are read, and it loses its place in the source.
pub open spec fn node_moved(s: StateModel, h: HandleModel, destination: HandleModel, index: usize) -> Step<
    HandleModel,
> {
    match resolved(s, h) {
        Err(e) => (s, Err(e)),
        Ok(p) => match resolved(s, destination) {
            Err(e) => (s, Err(e)),
            Ok(q) => {
                let t = node_at(s.root, q);
                if p.len() > 0 && p.drop_last() == q {
                    if index > t.children.len() {
                        (s, Err(out_of_bounds(index, t.children.len())))
                    } else {
                        (
                            changed(s, q, reordered(t, p.last() as int, index as int)),
                            Ok(handle_of(s, h.local)),
                        )
                    }
                } else if p.len() == 0 {
                    (s, Err(DomErrorModel::Mutation(MutationModel::RootHasNoSiblings)))
                } else if passes(q, p) {
                    (s, Err(DomErrorModel::Mutation(MutationModel::MoveIntoDescendant)))
                } else if t.kind != XmlNodeKind::Element {
                    (s, Err(DomErrorModel::Mutation(MutationModel::DestinationNotElement)))
                } else if index > t.children.len() {
                    (s, Err(out_of_bounds(index, t.children.len())))
                } else if pristine(node_at(s.root, p)) && node_at(s.root, p.drop_last()).recorded
                    && t.recorded {
                    (
                        transplanted(s, p, q, index as int, node_at(s.root, p)),
                        Ok(handle_of(s, h.local)),
                    )
                } else if let Err(e) = snapshot(node_at(s.root, p), s.reading) {
                    (s, Err(DomErrorModel::Parse(e)))
                } else {
                    (
                        transplanted(
                            s,
                            p,
                            q,
                            index as int,
                            settled(node_at(s.root, p), s.reading),
                        ),
                        Ok(handle_of(s, h.local)),
                    )
                }
            },
        },
    }
}

/// Renames an element or a processing instruction.
pub open spec fn node_renamed(s: StateModel, h: HandleModel, name: Seq<char>) -> Step<()> {
    match resolved(s, h) {
        Err(e) => (s, Err(e)),
        Ok(p) => {
            let t = node_at(s.root, p);
            match name_fault(name) {
                Some(m) => (s, Err(DomErrorModel::Mutation(m))),
                None => if node_name(t) is None {
                    (s, Err(DomErrorModel::InvalidTarget))
                } else {
                    (changed(s, p, TreeModel { name, touched: true, ..t }), Ok(()))
                },
            }
        },
    }
}

/// Sets the value of a node that is not an element.
pub open spec fn value_set(s: StateModel, h: HandleModel, value: Seq<char>) -> Step<()> {
    match resolved(s, h) {
        Err(e) => (s, Err(e)),
        Ok(p) => {
            let t = node_at(s.root, p);
            match value_fault(t.kind, value) {
                Some(m) => (s, Err(DomErrorModel::Mutation(m))),
                None => if t.kind == XmlNodeKind::Element {
                    (s, Err(DomErrorModel::InvalidTarget))
                } else {
                    (changed(s, p, TreeModel { value: plain_text(value), touched: true, ..t }), Ok(()))
                },
            }
        },
    }
}

/// An attribute that means what it says.
pub open spec fn plain_attribute(name: Seq<char>, value: Seq<char>) -> TreeAttribute {
    TreeAttribute { name, value: plain_text(value) }
}

/// The node with the value of an attribute set: that of the first one with the name, or of a new
/// one at the end.
pub open spec fn attribute_put(t: TreeModel, name: Seq<char>, value: Seq<char>) -> TreeModel {
    TreeModel {
        attributes: match attribute_index(t.attributes, 0, name) {
            Some(k) => t.attributes.update(k, plain_attribute(name, value)),
            None => t.attributes.push(plain_attribute(name, value)),
        },
        touched: true,
        ..t
    }
}

/// Sets an attribute.
pub open spec fn attribute_set(s: StateModel, h: HandleModel, name: Seq<char>, value: Seq<char>) -> Step<
    (),
> {
    match resolved(s, h) {
        Err(e) => (s, Err(e)),
        Ok(p) => match attribute_fault(name, value) {
            Some(m) => (s, Err(DomErrorModel::Mutation(m))),
            None => element_changed(s, h, |t: TreeModel| attribute_put(t, name, value)),
        },
    }
}

/// Sets an attribute that is not there. The value that it has then is returned.
pub open spec fn attribute_ensured(
    s: StateModel,
    h: HandleModel,
    name: Seq<char>,
    value: Seq<char>,
) -> Step<Seq<char>> {
    match resolved(s, h) {
        Err(e) => (s, Err(e)),
        Ok(p) => match attribute_value(node_at(s.root, p), name, s.reading) {
            Err(e) => (s, Err(e)),
            Ok(Some(x)) => (s, Ok(x)),
            Ok(None) => {
                let (next, r) = attribute_set(s, h, name, value);
                (
                    next,
                    match r {
                        Ok(_) => Ok(value),
                        Err(e) => Err(e),
                    },
                )
            },
        },
    }
}

/// Sets an attribute to the value that an attribute of another document has, if it has one.
pub open spec fn attribute_copied(
    s: StateModel,
    h: HandleModel,
    o: StateModel,
    source: HandleModel,
    name: Seq<char>,
) -> Step<bool> {
    match resolved(o, source) {
        Err(e) => (s, Err(e)),
        Ok(q) => match attribute_value(node_at(o.root, q), name, o.reading) {
            Err(e) => (s, Err(e)),
            Ok(None) => (s, Ok(false)),
            Ok(Some(x)) => {
                let (next, r) = attribute_set(s, h, name, x);
                (
                    next,
                    match r {
                        Ok(_) => Ok(true),
                        Err(e) => Err(e),
                    },
                )
            },
        },
    }
}

/// Removes the first attribute with a name. Whether there was one is returned.
pub open spec fn attribute_removed(s: StateModel, h: HandleModel, name: Seq<char>) -> Step<bool> {
    match resolved(s, h) {
        Err(e) => (s, Err(e)),
        Ok(p) => {
            let t = node_at(s.root, p);
            if t.kind != XmlNodeKind::Element {
                (s, Err(DomErrorModel::NotElement))
            } else {
                match attribute_index(t.attributes, 0, name) {
                    None => (s, Ok(false)),
                    Some(k) => (
                        changed(
                            s,
                            p,
                            TreeModel {
                                attributes: t.attributes.remove(k),
                                touched: true,
                                ..t
                            },
                        ),
                        Ok(true),
                    ),
                }
            }
        },
    }
}

/// Moves an attribute from one element of a document to another one. Whether it is there in the
/// end is returned.
pub open spec fn attribute_moved(
    s: StateModel,
    h: HandleModel,
    source: HandleModel,
    name: Seq<char>,
) -> Step<bool> {
    match resolved(s, h) {
        Err(e) => (s, Err(e)),
        Ok(p) => match resolved(s, source) {
            Err(e) => (s, Err(e)),
            Ok(q) => if p == q {
                match attribute_value(node_at(s.root, p), name, s.reading) {
                    Err(e) => (s, Err(e)),
                    Ok(x) => (s, Ok(x is Some)),
                }
            } else {
                let (next, r) = attribute_copied(s, h, s, source, name);
                match r {
                    Ok(true) => attribute_removed(next, source, name),
                    _ => (next, r),
                }
            },
        },
    }
}

/// Replaces the first attribute with a name by another one. Whether there was one is returned.
pub open spec fn attribute_replaced(
    s: StateModel,
    h: HandleModel,
    old_name: Seq<char>,
    name: Seq<char>,
    value: Seq<char>,
) -> Step<bool> {
    match resolved(s, h) {
        Err(e) => (s, Err(e)),
        Ok(p) => {
            let t = node_at(s.root, p);
            match attribute_fault(name, value) {
                Some(m) => (s, Err(DomErrorModel::Mutation(m))),
                None => if t.kind != XmlNodeKind::Element {
                    (s, Err(DomErrorModel::NotElement))
                } else {
                    match attribute_index(t.attributes, 0, old_name) {
                        None => (s, Ok(false)),
                        Some(k) => (
                            changed(
                                s,
                                p,
                                TreeModel {
                                    attributes: t.attributes.update(
                                        k,
                                        plain_attribute(name, value),
                                    ),
                                    touched: true,
                                    ..t
                                },
                            ),
                            Ok(true),
                        ),
                    }
                },
            }
        },
    }
}

/// Inserts an attribute at a position.
pub open spec fn attribute_inserted(
    s: StateModel,
    h: HandleModel,
    index: usize,
    name: Seq<char>,
    value: Seq<char>,
) -> Step<()> {
    match resolved(s, h) {
        Err(e) => (s, Err(e)),
        Ok(p) => {
            let t = node_at(s.root, p);
            match attribute_fault(name, value) {
                Some(m) => (s, Err(DomErrorModel::Mutation(m))),
                None => if t.kind != XmlNodeKind::Element {
                    (s, Err(DomErrorModel::NotElement))
                } else if index > t.attributes.len() {
                    (s, Err(DomErrorModel::InvalidTarget))
                } else {
                    (
                        changed(
                            s,
                            p,
                            TreeModel {
                                attributes: t.attributes.insert(
                                    index as int,
                                    plain_attribute(name, value),
                                ),
                                touched: true,
                                ..t
                            },
                        ),
                        Ok(()),
                    )
                },
            }
        },
    }
}

/// Sets the text of an element: the value of the first child that holds text, or of a new text at
/// the start.
pub open spec fn text_set(s: StateModel, h: HandleModel, value: Seq<char>) -> Step<()> {
    match resolved(s, h) {
        Err(e) => (s, Err(e)),
        Ok(p) => {
            let t = node_at(s.root, p);
            match text_fault(value) {
                Some(m) => (s, Err(DomErrorModel::Mutation(m))),
                None => if t.kind != XmlNodeKind::Element {
                    (s, Err(DomErrorModel::NotElement))
                } else {
                    match text_index(t.children, 0) {
                        Some(k) => (
                            changed(
                                s,
                                p,
                                replaced(
                                    t,
                                    k,
                                    TreeModel {
                                        value: plain_text(value),
                                        touched: true,
                                        ..t.children[k]
                                    },
                                ),
                            ),
                            Ok(()),
                        ),
                        None => {
                            let (next, r) = graft_step(s, p, 0, seq![NodeModel::Text(value)]);
                            (
                                next,
                                match r {
                                    Ok(_) => Ok(()),
                                    Err(e) => Err(e),
                                },
                            )
                        },
                    }
                },
            }
        },
    }
}

/// Sets the text of a node that has none. The text that it has then is returned.
pub open spec fn text_ensured(s: StateModel, h: HandleModel, value: Seq<char>) -> Step<Seq<char>> {
    match resolved(s, h) {
        Err(e) => (s, Err(e)),
        Ok(p) => match node_content(node_at(s.root, p), s.reading) {
            Err(e) => (s, Err(e)),
            Ok(Some(x)) => (s, Ok(x)),
            Ok(None) => {
                let (next, r) = text_set(s, h, value);
                (
                    next,
                    match r {
                        Ok(_) => Ok(value),
                        Err(e) => Err(e),
                    },
                )
            },
        },
    }
}

/// A new element with nothing in it.
pub open spec fn empty_element(name: Seq<char>) -> NodeModel {
    NodeModel::Element(
        crate::dom::ElementModel { name, attributes: Seq::empty(), children: Seq::empty() },
    )
}

/// Adds an empty element to the end of the children of an element.
pub open spec fn element_added(s: StateModel, h: HandleModel, name: Seq<char>) -> Step<
    HandleModel,
> {
    match resolved(s, h) {
        Err(e) => (s, Err(e)),
        Ok(p) => match name_fault(name) {
            Some(m) => (s, Err(DomErrorModel::Mutation(m))),
            None => node_added(s, h, empty_element(name), false),
        },
    }
}

/// Adds an empty element to the start of the children of an element.
pub open spec fn element_put_first(s: StateModel, h: HandleModel, name: Seq<char>) -> Step<
    HandleModel,
> {
    match name_fault(name) {
        Some(m) => (s, Err(DomErrorModel::Mutation(m))),
        None => node_added(s, h, empty_element(name), true),
    }
}

/// Finds the first child element with a name, or adds an empty one.
pub open spec fn element_ensured(s: StateModel, h: HandleModel, name: Seq<char>) -> Step<
    HandleModel,
> {
    match name_fault(name) {
        Some(m) => (s, Err(DomErrorModel::Mutation(m))),
        None => match resolved(s, h) {
            Err(e) => (s, Err(e)),
            Ok(p) => {
                let n = node_at(s.root, p).children;
                match element_index(n, 0, name) {
                    Some(k) => (s, Ok(handle_of(s, n[k].id))),
                    None => element_added(s, h, name),
                }
            },
        },
    }
}

impl DomNode {
    /// Inserts children.
    pub(crate) fn insert_children(&mut self, k: usize, new: Vec<DomNode>)
        requires
            k <= old(self).children@.len(),
        ensures
            final(self).model() == inserted(old(self).model(), k as int, tree_models(new@)),
    {
        let ghost before = self.children@;
        let ghost m = tree_models(before);
        let ghost n = tree_models(new@);
        if k < self.children.len() {
            self.touched = true;
        }
        let mut tail = self.children.split_off(k);
        let mut new = new;
        self.children.append(&mut new);
        self.children.append(&mut tail);
        proof {
            assert(tree_models(self.children@) =~= m.subrange(0, k as int) + n + m.subrange(
                k as int,
                m.len() as int,
            ));
        }
    }

    /// Removes a child.
    pub(crate) fn remove_child(&mut self, k: usize) -> (r: DomNode)
        requires
            k < old(self).children@.len(),
        ensures
            r.model() == old(self).model().children[k as int],
            final(self).model() == removed(old(self).model(), k as int),
    {
        let ghost before = self.children@;
        let r = self.children.remove(k);
        if r.recorded {
            self.touched = true;
        }
        proof {
            assert(tree_models(self.children@) =~= tree_models(before).remove(k as int));
        }
        r
    }

    /// Replaces a child.
    pub(crate) fn replace_child(&mut self, k: usize, n: DomNode)
        requires
            k < old(self).children@.len(),
        ensures
            final(self).model() == marked(replaced(old(self).model(), k as int, n.model())),
    {
        let ghost before = self.children@;
        self.touched = true;
        release_tree(self.children.remove(k));
        self.children.insert(k, n);
        proof {
            assert(tree_models(self.children@) =~= tree_models(before).update(
                k as int,
                n.model(),
            ));
        }
    }

    /// Moves a child to another position.
    pub(crate) fn reorder(&mut self, k: usize, index: usize)
        requires
            k < old(self).children@.len(),
            index <= old(self).children@.len(),
        ensures
            final(self).model() == reordered(old(self).model(), k as int, index as int),
    {
        let ghost before = self.children@;
        let ghost m = tree_models(before);
        let x = self.children.remove(k);
        let j: usize = if k < index {
            index - 1
        } else {
            index
        };
        self.children.insert(j, x);
        self.touched = true;
        proof {
            assert(tree_models(self.children@) =~= m.remove(k as int).insert(
                j as int,
                m[k as int],
            ));
        }
    }

    /// Sets an attribute.
    pub(crate) fn put_attribute(&mut self, name: &str, value: &str)
        ensures
            final(self).model() == attribute_put(old(self).model(), name@, value@),
    {
        let ghost before = self.attributes@;
        let ghost m = tree_attribute_models(before);
        let a = DomAttribute { name: name.to_owned(), value: to_plain_text(value) };
        self.touched = true;
        match self.attribute_position(name) {
            Some(k) => {
                let x = self.attributes.remove(k);
                self.attributes.insert(k, a);
                proof {
                    assert(tree_attribute_models(self.attributes@) =~= m.update(k as int, a@));
                }
            },
            None => {
                self.attributes.push(a);
                proof {
                    assert(tree_attribute_models(self.attributes@) =~= m.push(a@));
                }
            },
        }
    }

    /// Removes an attribute.
    pub(crate) fn drop_attribute(&mut self, k: usize)
        requires
            k < old(self).attributes@.len(),
        ensures
            final(self).model() == (TreeModel {
                attributes: old(self).model().attributes.remove(k as int),
                touched: true,
                ..old(self).model()
            }),
    {
        let ghost m = tree_attribute_models(self.attributes@);
        let x = self.attributes.remove(k);
        self.touched = true;
        proof {
            assert(tree_attribute_models(self.attributes@) =~= m.remove(k as int));
        }
    }

    /// Replaces an attribute.
    pub(crate) fn swap_attribute(&mut self, k: usize, name: &str, value: &str)
        requires
            k < old(self).attributes@.len(),
        ensures
            final(self).model() == (TreeModel {
                attributes: old(self).model().attributes.update(
                    k as int,
                    plain_attribute(name@, value@),
                ),
                touched: true,
                ..old(self).model()
            }),
    {
        let ghost m = tree_attribute_models(self.attributes@);
        let a = DomAttribute { name: name.to_owned(), value: to_plain_text(value) };
        let x = self.attributes.remove(k);
        self.attributes.insert(k, a);
        self.touched = true;
        proof {
            assert(tree_attribute_models(self.attributes@) =~= m.update(k as int, a@));
        }
    }

    /// Inserts an attribute.
    pub(crate) fn add_attribute(&mut self, k: usize, name: &str, value: &str)
        requires
            k <= old(self).attributes@.len(),
        ensures
            final(self).model() == (TreeModel {
                attributes: old(self).model().attributes.insert(
                    k as int,
                    plain_attribute(name@, value@),
                ),
                touched: true,
                ..old(self).model()
            }),
    {
        let ghost m = tree_attribute_models(self.attributes@);
        let a = DomAttribute { name: name.to_owned(), value: to_plain_text(value) };
        self.attributes.insert(k, a);
        self.touched = true;
        proof {
            assert(tree_attribute_models(self.attributes@) =~= m.insert(k as int, a@));
        }
    }

    /// Sets the value.
    pub(crate) fn put_value(&mut self, value: &str)
        ensures
            final(self).model() == (TreeModel {
                value: plain_text(value@),
                touched: true,
                ..old(self).model()
            }),
    {
        self.value = to_plain_text(value);
        self.touched = true;
    }

    /// Sets the value of a child.
    pub(crate) fn put_child_value(&mut self, k: usize, value: &str)
        requires
            k < old(self).children@.len(),
        ensures
            final(self).model() == replaced(
                old(self).model(),
                k as int,
                TreeModel {
                    value: plain_text(value@),
                    touched: true,
                    ..old(self).model().children[k as int]
                },
            ),
    {
        let ghost before = self.children@;
        let ghost m = tree_models(before);
        let mut x = self.children.remove(k);
        x.put_value(value);
        let ghost y = x.model();
        self.children.insert(k, x);
        proof {
            assert(tree_models(self.children@) =~= m.update(k as int, y));
        }
    }

    /// Sets the name.
    pub(crate) fn put_name(&mut self, name: &str)
        ensures
            final(self).model() == (TreeModel {
                name: name@,
                touched: true,
                ..old(self).model()
            }),
    {
        self.name = name.to_owned();
        self.touched = true;
    }

    /// Removes all attributes.
    pub(crate) fn drop_attributes(&mut self)
        ensures
            final(self).model() == (TreeModel {
                attributes: Seq::empty(),
                touched: true,
                ..old(self).model()
            }),
    {
        self.attributes.clear();
        self.touched = true;
        proof {
            assert(tree_attribute_models(self.attributes@) =~= Seq::<TreeAttribute>::empty());
        }
    }

    /// Removes all children.
    pub(crate) fn drop_children(&mut self)
        ensures
            final(self).model() == (TreeModel {
                children: Seq::empty(),
                touched: true,
                ..old(self).model()
            }),
    {
        release_trees(self.children.split_off(0));
        self.touched = true;
        proof {
            assert(tree_models(self.children@) =~= Seq::<TreeModel>::empty());
        }
    }
}

/// The node that a path leads to, to be changed.
pub(crate) fn edit_at<'a>(dom: &'a mut XmlDom, p: &[usize]) -> (r: &'a mut DomNode)
    requires
        has_path(old(dom)@.root, p@),
    ensures
        (*r).model() == node_at(old(dom)@.root, p@),
        final(dom)@ == changed(old(dom)@, p@, final(r).model()),
{
    let s = dom.state_mut();
    s.edited = true;
    node_mut(&mut s.root, p)
}

/// Inserts new nodes, if there are numbers for them.
pub(crate) fn graft(dom: &mut XmlDom, p: &[usize], k: usize, nodes: &Vec<XmlNode>) -> (r: bool)
    requires
        has_path(old(dom)@.root, p@),
        k <= node_at(old(dom)@.root, p@).children.len(),
    ensures
        r == has_room(old(dom)@, nodes_count(node_models(nodes@), nodes@.len() as int)),
        final(dom)@ == (if r {
            grafted(old(dom)@, p@, k as int, node_models(nodes@))
        } else {
            old(dom)@
        }),
{
    let next: u64 = dom.state().next_id;
    let count: u64 = match count_nodes_within(nodes, u64::MAX - next) {
        None => {
            return false;
        },
        Some(c) => c,
    };
    let new = plant_all(nodes, next);
    {
        let s = dom.state_mut();
        s.next_id = next + count;
    }
    let n = edit_at(dom, p);
    proof {
        assert(n.model().children == tree_models(n.children@));
    }
    n.insert_children(k, new);
    true
}

/// When a node is gone, a path that does not lead through it leads, shifted, to the same node as
/// before: it has changed at most in its children, and has as many unless it was the parent.
pub proof fn lemma_shifted(t: TreeModel, p: Seq<usize>, q: Seq<usize>)
    requires
        p.len() > 0,
        has_path(t, p),
        has_path(t, q),
        !passes(q, p),
    ensures
        ({
            let rest = updated(
                t,
                p.drop_last(),
                removed(node_at(t, p.drop_last()), p.last() as int),
            );
            let d = shifted(q, p);
            &&& has_path(rest, d)
            &&& same_head(node_at(rest, d), node_at(t, q))
            &&& q != p.drop_last() ==> node_at(rest, d).children.len() == node_at(
                t,
                q,
            ).children.len()
        }),
    decreases p.len(),
{
    lemma_path_parent(t, p);
    let rest = updated(t, p.drop_last(), removed(node_at(t, p.drop_last()), p.last() as int));
    let d = shifted(q, p);
    if p.len() == 1 {
        assert(p.drop_last() =~= Seq::<usize>::empty());
        assert(rest == removed(t, p[0] as int));
        if q.len() > 0 {
            assert(q.take(0) =~= Seq::<usize>::empty());
            if q[0] == p[0] {
                assert(q.take(1) =~= p);
            }
            assert(d.skip(1) =~= q.skip(1));
            assert(rest.children[d[0] as int] == t.children[q[0] as int]);
        } else {
            assert(q =~= Seq::<usize>::empty());
        }
    } else {
        let c = t.children[p[0] as int];
        assert(p.drop_last().skip(1) =~= p.skip(1).drop_last());
        assert(p.skip(1).last() == p.last());
        assert(p.drop_last()[0] == p[0]);
        let below = updated(
            c,
            p.skip(1).drop_last(),
            removed(node_at(c, p.skip(1).drop_last()), p.last() as int),
        );
        assert(node_at(t, p.drop_last()) == node_at(c, p.skip(1).drop_last()));
        assert(rest.children == t.children.update(p[0] as int, below));
        if q.len() > 0 {
            let i = p.len() - 1;
            if q[0] == p[0] {
                if passes(q.skip(1), p.skip(1)) {
                    assert(q.take(p.len() as int) =~= p) by {
                        assert(q.skip(1).take(p.skip(1).len() as int) =~= p.skip(1));
                        assert forall|j: int| 0 <= j < p.len() implies q[j] == p[j] by {
                            if j > 0 {
                                assert(q.skip(1).take(p.skip(1).len() as int)[j - 1] == p.skip(1)[j
                                    - 1]);
                            }
                        }
                    }
                }
                lemma_shifted(c, p.skip(1), q.skip(1));
                if q.len() >= p.len() {
                    assert(q.take(i).skip(1) =~= q.skip(1).take(i - 1));
                    if q.take(i) == p.drop_last() {
                        assert(q.skip(1).take(i - 1) =~= p.skip(1).drop_last());
                    }
                    if q.skip(1).take(i - 1) == p.skip(1).drop_last() {
                        assert(q.take(i) =~= p.drop_last()) by {
                            assert forall|j: int| 0 <= j < i implies q[j] == p[j] by {
                                if j > 0 {
                                    assert(q.skip(1).take(i - 1)[j - 1] == p.skip(1).drop_last()[j
                                        - 1]);
                                }
                            }
                        }
                    }
                }
                assert(d.skip(1) =~= shifted(q.skip(1), p.skip(1)));
                assert(d[0] == p[0]);
                if q.skip(1) == p.skip(1).drop_last() {
                    assert(q =~= p.drop_last()) by {
                        assert(q.len() == p.len() - 1);
                        assert forall|j: int| 0 <= j < q.len() implies q[j] == p[j] by {
                            if j > 0 {
                                assert(q.skip(1)[j - 1] == p.skip(1).drop_last()[j - 1]);
                            }
                        }
                    }
                }
            } else {
                if q.len() >= p.len() && q.take(i) == p.drop_last() {
                    assert(q.take(i)[0] == p.drop_last()[0]);
                }
                assert(d == q);
                assert(rest.children[q[0] as int] == t.children[q[0] as int]);
            }
        } else {
            assert(d == q);
        }
    }
}

} // verus!
