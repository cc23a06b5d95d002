//! What the changes of an editable document keep, and what they undo.

use vstd::prelude::*;

use crate::access::{attribute_index, attribute_value, text_index};
use crate::changes::{
    attribute_copied, attribute_ensured, attribute_inserted, attribute_moved, attribute_put,
    attribute_removed, attribute_replaced, attribute_set, changed, copy_added, element_added,
    element_changed, element_ensured, element_put_first, empty_element, graft_step, grafted,
    has_room, inserted, lemma_shifted, marked, node_added, node_moved, node_removed, node_renamed,
    node_replaced, nodes_added, passes, plain_attribute, pruned, removed, reordered, replaced,
    shifted, sibling_added, text_ensured, text_set, value_set,
};
use crate::config::ConfigModel;
use crate::document::DocumentModel;
use crate::dom::{NodeModel, XmlNodeKind};
use crate::facade::{
    blank, declaration_set, doctype_set, misc_appended, misc_removed, misc_replaced, opened,
    resolved, StateModel,
};
use crate::flat::{lemma_tree_len, well_built};
use crate::grammar::{RawTree, MAX_DOM_DEPTH};
use crate::growth::{grown, lemma_grown_all, lemma_grown_numbers};
use crate::handle::HandleModel;
use crate::numbers::{
    lemma_copied_all_len, lemma_copied_numbers, lemma_occurrences_inserted,
    lemma_occurrences_removed, lemma_occurrences_reordered, lemma_occurrences_replaced,
    lemma_occurrences_single, lemma_occurrences_updated, lemma_planted_all_len,
    lemma_planted_all_numbers, lemma_planted_numbers, lemma_settled_all_len, lemma_settled_numbers,
};
use crate::tables::nodes_of;
use crate::tree::{
    copied, has_path, lemma_path_found, lemma_path_parent, node_at, node_count, nodes_count,
    occurrences, plain_text, planted, planted_all, pristine, settled, size, snapshot, updated,
    Reading, TreeModel,
};

verus! {

/// Only elements have attributes and children.
pub open spec fn shaped(t: TreeModel) -> bool
    decreases t,
{
    &&& t.kind != XmlNodeKind::Element ==> t.attributes.len() == 0 && t.children.len() == 0
    &&& forall|i: int| 0 <= i < t.children.len() ==> shaped(#[trigger] t.children[i])
}

/// A document as the library makes it: the root is an element, only elements have attributes and
/// children, and every node has a number of its own that has been given out.
pub open spec fn wf(s: StateModel) -> bool {
    &&& s.root.kind == XmlNodeKind::Element
    &&& shaped(s.root)
    &&& forall|id: u64| #[trigger]
        occurrences(s.root, id) <= 1 && (occurrences(s.root, id) == 1 ==> id < s.next_id)
}

/// The nodes of a well shaped tree are well shaped.
proof fn lemma_shaped_at(t: TreeModel, p: Seq<usize>)
    requires
        shaped(t),
        has_path(t, p),
    ensures
        shaped(node_at(t, p)),
    decreases p.len(),
{
    if p.len() > 0 {
        lemma_shaped_at(t.children[p[0] as int], p.skip(1));
    }
}

/// A tree that was well shaped stays so with a well shaped node in it.
proof fn lemma_shaped_updated(t: TreeModel, p: Seq<usize>, x: TreeModel)
    requires
        shaped(t),
        has_path(t, p),
        shaped(x),
    ensures
        shaped(updated(t, p, x)),
    decreases p.len(),
{
    if p.len() > 0 {
        let k = p[0] as int;
        lemma_shaped_updated(t.children[k], p.skip(1), x);
        let u = updated(t, p, x);
        assert forall|i: int| 0 <= i < u.children.len() implies shaped(#[trigger] u.children[i]) by {
            if i != k {
                assert(u.children[i] == t.children[i]);
            }
        }
    }
}

/// New nodes are well shaped.
proof fn lemma_shaped_planted(n: NodeModel, first: int)
    ensures
        shaped(planted(n, first)),
    decreases n,
{
    match n {
        NodeModel::Element(e) => {
            let c = e.children;
            lemma_planted_all_len(c, c.len() as int, first + 1);
            let t = planted(n, first);
            assert forall|i: int| 0 <= i < t.children.len() implies shaped(
                #[trigger] t.children[i],
            ) by {
                lemma_shaped_planted(c[i], first + 1 + nodes_count(c, i));
            }
        },
        _ => {},
    }
}

/// Copies are well shaped.
proof fn lemma_shaped_copied(t: TreeModel, first: int)
    requires
        shaped(t),
    ensures
        shaped(copied(t, first)),
    decreases t,
{
    let c = t.children;
    lemma_copied_all_len(c, c.len() as int, first + 1);
    let u = copied(t, first);
    assert forall|i: int| 0 <= i < u.children.len() implies shaped(#[trigger] u.children[i]) by {
        lemma_shaped_copied(c[i], first + 1 + crate::tree::sizes(c, i));
    }
}

/// A mark does not change the shape.
proof fn lemma_shaped_marked(t: TreeModel)
    requires
        shaped(t),
    ensures
        shaped(marked(t)),
        forall|id: u64| #[trigger] occurrences(marked(t), id) == occurrences(t, id),
{
    let u = marked(t);
    assert forall|i: int| 0 <= i < u.children.len() implies shaped(#[trigger] u.children[i]) by {
        assert(u.children[i] == t.children[i]);
    }
}

/// Trees whose values were read are well shaped.
proof fn lemma_shaped_settled(t: TreeModel, r: Reading)
    requires
        shaped(t),
    ensures
        shaped(settled(t, r)),
    decreases t,
{
    let c = t.children;
    lemma_settled_all_len(c, c.len() as int, r);
    let u = settled(t, r);
    assert forall|i: int| 0 <= i < u.children.len() implies shaped(#[trigger] u.children[i]) by {
        if t.kind == XmlNodeKind::Element {
            lemma_shaped_settled(c[i], r);
        }
    }
}

/// Parsed trees are well shaped.
proof fn lemma_shaped_grown(s: Seq<char>, t: RawTree, at: int, room: int)
    requires
        well_built(t, room),
    ensures
        shaped(grown(s, t, at)),
    decreases t,
{
    match t {
        RawTree::Element { children, .. } => {
            lemma_grown_all(s, children, children.len() as int, at);
            let g = grown(s, t, at);
            assert forall|i: int| 0 <= i < g.children.len() implies shaped(
                #[trigger] g.children[i],
            ) by {
                lemma_shaped_grown(
                    s,
                    children[i],
                    crate::flat::child_place(children, at, i),
                    room - 1,
                );
            }
        },
        RawTree::Leaf { .. } => {},
    }
}

/// A document that was parsed is well formed.
pub proof fn lemma_opened_wf(
    m: DocumentModel,
    c: ConfigModel,
    lineage: u64,
    document: u64,
    verbatim: bool,
)
    requires
        m.root is Element,
        well_built(m.root, MAX_DOM_DEPTH as int),
        nodes_of(m).len() <= u64::MAX,
    ensures
        wf(opened(m, c, lineage, document, verbatim)),
{
    let s = opened(m, c, lineage, document, verbatim);
    lemma_tree_len(m.root, 0, 0);
    lemma_shaped_grown(m.text, m.root, 0, MAX_DOM_DEPTH as int);
    assert forall|id: u64| #[trigger]
        occurrences(s.root, id) <= 1 && (occurrences(s.root, id) == 1 ==> id < s.next_id) by {
        lemma_grown_numbers(m.text, m.root, 0, id);
    }
}

/// A document with an empty root is well formed.
pub proof fn lemma_blank_wf(name: Seq<char>, lineage: u64, document: u64, generation: u64)
    ensures
        wf(blank(name, lineage, document, generation)),
{
    let s = blank(name, lineage, document, generation);
    assert forall|id: u64| #[trigger]
        occurrences(s.root, id) <= 1 && (occurrences(s.root, id) == 1 ==> id < s.next_id) by {
        assert(s.root.children =~= Seq::<TreeModel>::empty());
    }
}

/// A change that keeps the numbers of a node keeps a document well formed.
proof fn lemma_changed_wf(s: StateModel, p: Seq<usize>, x: TreeModel)
    requires
        wf(s),
        has_path(s.root, p),
        shaped(x),
        x.kind == node_at(s.root, p).kind,
        forall|id: u64| #[trigger] occurrences(x, id) == occurrences(node_at(s.root, p), id),
    ensures
        wf(changed(s, p, x)),
{
    lemma_shaped_updated(s.root, p, x);
    let c = changed(s, p, x);
    assert forall|id: u64| #[trigger]
        occurrences(c.root, id) <= 1 && (occurrences(c.root, id) == 1 ==> id < c.next_id) by {
        lemma_occurrences_updated(s.root, p, x, id);
        assert(occurrences(x, id) == occurrences(node_at(s.root, p), id));
        assert(occurrences(s.root, id) <= 1);
    }
}

/// A node with more children is well shaped if it is an element.
proof fn lemma_shaped_inserted(t: TreeModel, k: int, n: Seq<TreeModel>)
    requires
        shaped(t),
        t.kind == XmlNodeKind::Element,
        0 <= k <= t.children.len(),
        forall|i: int| 0 <= i < n.len() ==> shaped(#[trigger] n[i]),
    ensures
        shaped(inserted(t, k, n)),
{
    let u = inserted(t, k, n);
    assert forall|i: int| 0 <= i < u.children.len() implies shaped(#[trigger] u.children[i]) by {
        if i < k {
            assert(u.children[i] == t.children[i]);
        } else if i < k + n.len() {
            assert(u.children[i] == n[i - k]);
        } else {
            assert(u.children[i] == t.children[i - n.len()]);
        }
    }
}

/// A document with new nodes in it is well formed.
pub proof fn lemma_grafted_wf(s: StateModel, p: Seq<usize>, k: int, n: Seq<NodeModel>)
    requires
        wf(s),
        has_path(s.root, p),
        node_at(s.root, p).kind == XmlNodeKind::Element,
        0 <= k <= node_at(s.root, p).children.len(),
        has_room(s, nodes_count(n, n.len() as int)),
    ensures
        wf(grafted(s, p, k, n)),
{
    let t = node_at(s.root, p);
    let m = planted_all(n, n.len() as int, s.next_id as int);
    lemma_planted_all_len(n, n.len() as int, s.next_id as int);
    lemma_shaped_at(s.root, p);
    assert forall|i: int| 0 <= i < m.len() implies shaped(#[trigger] m[i]) by {
        lemma_shaped_planted(n[i], s.next_id + nodes_count(n, i));
    }
    lemma_shaped_inserted(t, k, m);
    let x = inserted(t, k, m);
    lemma_shaped_updated(s.root, p, x);
    let g = grafted(s, p, k, n);
    assert forall|id: u64| #[trigger]
        occurrences(g.root, id) <= 1 && (occurrences(g.root, id) == 1 ==> id < g.next_id) by {
        lemma_occurrences_updated(s.root, p, x, id);
        lemma_occurrences_inserted(t, k, m, id);
        lemma_planted_all_numbers(n, n.len() as int, s.next_id as int, id);
        assert(occurrences(s.root, id) <= 1);
    }
}

/// Inserting nodes keeps a document well formed.
proof fn lemma_graft_step_wf(s: StateModel, p: Seq<usize>, k: int, n: Seq<NodeModel>)
    requires
        wf(s),
        has_path(s.root, p),
        node_at(s.root, p).kind == XmlNodeKind::Element,
        0 <= k <= node_at(s.root, p).children.len(),
    ensures
        wf(graft_step(s, p, k, n).0),
{
    if has_room(s, nodes_count(n, n.len() as int)) {
        lemma_grafted_wf(s, p, k, n);
    }
}

/// The parent of a node is an element.
proof fn lemma_parent_is_element(t: TreeModel, p: Seq<usize>)
    requires
        shaped(t),
        has_path(t, p),
        p.len() > 0,
    ensures
        has_path(t, p.drop_last()),
        node_at(t, p.drop_last()).kind == XmlNodeKind::Element,
        shaped(node_at(t, p.drop_last())),
        p.last() < node_at(t, p.drop_last()).children.len(),
        node_at(t, p) == node_at(t, p.drop_last()).children[p.last() as int],
{
    lemma_path_parent(t, p);
    lemma_shaped_at(t, p.drop_last());
}

/// Adding a node keeps a document well formed.
pub proof fn lemma_node_added_wf(s: StateModel, h: HandleModel, n: NodeModel, first: bool)
    requires
        wf(s),
    ensures
        wf(node_added(s, h, n, first).0),
{
    if let Ok(p) = resolved(s, h) {
        lemma_path_found(s.root, h.local);
        let t = node_at(s.root, p);
        if t.kind == XmlNodeKind::Element {
            lemma_graft_step_wf(
                s,
                p,
                if first {
                    0
                } else {
                    t.children.len() as int
                },
                seq![n],
            );
        }
    }
}

/// Adding nodes keeps a document well formed.
pub proof fn lemma_nodes_added_wf(s: StateModel, h: HandleModel, n: Seq<NodeModel>)
    requires
        wf(s),
    ensures
        wf(nodes_added(s, h, n).0),
{
    if let Ok(p) = resolved(s, h) {
        lemma_path_found(s.root, h.local);
        let t = node_at(s.root, p);
        if t.kind == XmlNodeKind::Element && has_room(s, nodes_count(n, n.len() as int)) {
            lemma_grafted_wf(s, p, t.children.len() as int, n);
        }
    }
}

/// Adding a node beside another one keeps a document well formed.
pub proof fn lemma_sibling_added_wf(s: StateModel, h: HandleModel, n: NodeModel, after: bool)
    requires
        wf(s),
    ensures
        wf(sibling_added(s, h, n, after).0),
{
    if let Ok(p) = resolved(s, h) {
        lemma_path_found(s.root, h.local);
        if p.len() > 0 {
            lemma_parent_is_element(s.root, p);
            lemma_graft_step_wf(
                s,
                p.drop_last(),
                if after {
                    p.last() + 1
                } else {
                    p.last() as int
                },
                seq![n],
            );
        }
    }
}

/// A node with another child is well shaped.
proof fn lemma_shaped_replaced(t: TreeModel, k: int, x: TreeModel)
    requires
        shaped(t),
        0 <= k < t.children.len(),
        shaped(x),
    ensures
        shaped(replaced(t, k, x)),
{
    let u = replaced(t, k, x);
    assert forall|i: int| 0 <= i < u.children.len() implies shaped(#[trigger] u.children[i]) by {
        if i != k {
            assert(u.children[i] == t.children[i]);
        }
    }
}

/// Replacing a node keeps a document well formed.
pub proof fn lemma_node_replaced_wf(s: StateModel, h: HandleModel, n: NodeModel)
    requires
        wf(s),
    ensures
        wf(node_replaced(s, h, n).0),
{
    if let Ok(p) = resolved(s, h) {
        lemma_path_found(s.root, h.local);
        if p.len() > 0 && has_room(s, node_count(n)) {
            lemma_parent_is_element(s.root, p);
            let q = p.drop_last();
            let t = node_at(s.root, q);
            let k = p.last() as int;
            let y = planted(n, s.next_id as int);
            let x = marked(replaced(t, k, y));
            lemma_shaped_planted(n, s.next_id as int);
            lemma_shaped_replaced(t, k, y);
            lemma_shaped_marked(replaced(t, k, y));
            lemma_shaped_updated(s.root, q, x);
            let c = StateModel {
                next_id: (s.next_id + node_count(n)) as u64,
                ..changed(s, q, x)
            };
            assert forall|id: u64| #[trigger]
                occurrences(c.root, id) <= 1 && (occurrences(c.root, id) == 1 ==> id
                    < c.next_id) by {
                lemma_occurrences_updated(s.root, q, x, id);
                lemma_occurrences_replaced(t, k, y, id);
                lemma_planted_numbers(n, s.next_id as int, id);
                assert(occurrences(s.root, id) <= 1);
            }
        }
    }
}

/// A document without one of its nodes is well formed.
pub proof fn lemma_pruned_wf(s: StateModel, p: Seq<usize>)
    requires
        wf(s),
        has_path(s.root, p),
        p.len() > 0,
    ensures
        wf(pruned(s, p)),
        forall|id: u64| #[trigger]
            occurrences(pruned(s, p).root, id) + occurrences(node_at(s.root, p), id)
                == occurrences(s.root, id),
{
    lemma_parent_is_element(s.root, p);
    let q = p.drop_last();
    let t = node_at(s.root, q);
    let k = p.last() as int;
    let x = removed(t, k);
    assert forall|i: int| 0 <= i < x.children.len() implies shaped(#[trigger] x.children[i]) by {
        if i < k {
            assert(x.children[i] == t.children[i]);
        } else {
            assert(x.children[i] == t.children[i + 1]);
        }
    }
    lemma_shaped_updated(s.root, q, x);
    let c = pruned(s, p);
    assert forall|id: u64| #[trigger]
        occurrences(c.root, id) + occurrences(node_at(s.root, p), id) == occurrences(
        s.root,
        id,
    ) by {
        lemma_occurrences_updated(s.root, q, x, id);
        lemma_occurrences_removed(t, k, id);
    }
    assert forall|id: u64| #[trigger]
        occurrences(c.root, id) <= 1 && (occurrences(c.root, id) == 1 ==> id < c.next_id) by {
        assert(occurrences(c.root, id) + occurrences(node_at(s.root, p), id) == occurrences(
            s.root,
            id,
        ));
        assert(occurrences(s.root, id) <= 1);
    }
}

/// Removing a node keeps a document well formed.
pub proof fn lemma_node_removed_wf(s: StateModel, h: HandleModel)
    requires
        wf(s),
    ensures
        wf(node_removed(s, h).0),
{
    if let Ok(p) = resolved(s, h) {
        lemma_path_found(s.root, h.local);
        if p.len() > 0 {
            lemma_pruned_wf(s, p);
        }
    }
}

/// Adding a copy keeps a document well formed.
pub proof fn lemma_copy_added_wf(s: StateModel, h: HandleModel, source: HandleModel)
    requires
        wf(s),
    ensures
        wf(copy_added(s, h, source).0),
{
    if let (Ok(p), Ok(q)) = (resolved(s, h), resolved(s, source)) {
        lemma_path_found(s.root, h.local);
        lemma_path_found(s.root, source.local);
        let t = node_at(s.root, p);
        let x = node_at(s.root, q);
        if !pristine(x) {
            if let Ok(n) = snapshot(x, s.reading) {
                lemma_node_added_wf(s, h, n, false);
            }
        } else if t.kind == XmlNodeKind::Element && has_room(s, size(x)) {
            lemma_shaped_at(s.root, p);
            lemma_shaped_at(s.root, q);
            let y = copied(x, s.next_id as int);
            lemma_shaped_copied(x, s.next_id as int);
            let v = inserted(t, t.children.len() as int, seq![y]);
            let u = marked(v);
            lemma_shaped_inserted(t, t.children.len() as int, seq![y]);
            lemma_shaped_marked(v);
            lemma_shaped_updated(s.root, p, u);
            let c = copy_added(s, h, source).0;
            assert forall|id: u64| #[trigger]
                occurrences(c.root, id) <= 1 && (occurrences(c.root, id) == 1 ==> id
                    < c.next_id) by {
                lemma_occurrences_updated(s.root, p, u, id);
                lemma_occurrences_inserted(t, t.children.len() as int, seq![y], id);
                lemma_occurrences_single(y, id);
                lemma_copied_numbers(x, s.next_id as int, id);
                assert(occurrences(s.root, id) <= 1);
            }
        }
    }
}

/// Moving a node keeps a document well formed, and keeps the numbers that are in it.
pub proof fn lemma_node_moved_wf(
    s: StateModel,
    h: HandleModel,
    destination: HandleModel,
    index: usize,
)
    requires
        wf(s),
    ensures
        wf(node_moved(s, h, destination, index).0),
        forall|id: u64| #[trigger]
            occurrences(node_moved(s, h, destination, index).0.root, id) == occurrences(
                s.root,
                id,
            ),
{
    if let (Ok(p), Ok(q)) = (resolved(s, h), resolved(s, destination)) {
        lemma_path_found(s.root, h.local);
        lemma_path_found(s.root, destination.local);
        let t = node_at(s.root, q);
        lemma_shaped_at(s.root, q);
        lemma_shaped_at(s.root, p);
        let c = node_moved(s, h, destination, index).0;
        if p.len() > 0 && p.drop_last() == q {
            if index <= t.children.len() {
                lemma_path_parent(s.root, p);
                let k = p.last() as int;
                let x = reordered(t, k, index as int);
                let j = if k < index {
                    index - 1
                } else {
                    index as int
                };
                assert forall|i: int| 0 <= i < x.children.len() implies shaped(
                    #[trigger] x.children[i],
                ) by {
                    let rest = t.children.remove(k);
                    assert forall|a: int| 0 <= a < rest.len() implies shaped(
                        #[trigger] rest[a],
                    ) by {
                        if a < k {
                            assert(rest[a] == t.children[a]);
                        } else {
                            assert(rest[a] == t.children[a + 1]);
                        }
                    }
                    if i < j {
                        assert(x.children[i] == rest[i]);
                    } else if i == j {
                        assert(x.children[i] == t.children[k]);
                    } else {
                        assert(x.children[i] == rest[i - 1]);
                    }
                }
                assert forall|id: u64| #[trigger]
                    occurrences(x, id) == occurrences(t, id) by {
                    lemma_occurrences_reordered(t, k, index as int, id);
                }
                lemma_changed_wf(s, q, x);
                assert forall|id: u64| #[trigger]
                    occurrences(c.root, id) == occurrences(s.root, id) by {
                    lemma_occurrences_updated(s.root, q, x, id);
                    assert(occurrences(x, id) == occurrences(t, id));
                }
            }
        } else if p.len() > 0 && !passes(q, p) && t.kind == XmlNodeKind::Element && index
            <= t.children.len() && (snapshot(node_at(s.root, p), s.reading) is Ok || (pristine(
            node_at(s.root, p),
        ) && node_at(s.root, p.drop_last()).recorded && t.recorded)) {
            lemma_pruned_wf(s, p);
            lemma_shifted(s.root, p, q);
            let rest = pruned(s, p);
            let d = shifted(q, p);
            let y = node_at(rest.root, d);
            let w = node_at(s.root, p);
            let kept = pristine(w) && node_at(s.root, p.drop_last()).recorded && t.recorded;
            let x = if kept {
                w
            } else {
                settled(w, s.reading)
            };
            lemma_shaped_settled(w, s.reading);
            lemma_shaped_at(rest.root, d);
            lemma_shaped_inserted(y, index as int, seq![x]);
            let v = inserted(y, index as int, seq![x]);
            let u = marked(v);
            lemma_shaped_marked(v);
            lemma_shaped_updated(rest.root, d, u);
            assert forall|id: u64| #[trigger]
                occurrences(c.root, id) == occurrences(s.root, id) by {
                lemma_occurrences_updated(rest.root, d, u, id);
                lemma_occurrences_inserted(y, index as int, seq![x], id);
                lemma_occurrences_single(x, id);
                lemma_settled_numbers(w, s.reading, id);
                assert(occurrences(rest.root, id) + occurrences(w, id) == occurrences(s.root, id));
            }
            assert forall|id: u64| #[trigger]
                occurrences(c.root, id) <= 1 && (occurrences(c.root, id) == 1 ==> id
                    < c.next_id) by {
                assert(occurrences(c.root, id) == occurrences(s.root, id));
                assert(occurrences(s.root, id) <= 1);
            }
        }
    }
}

/// A change of a node beside its children keeps a document well formed.
proof fn lemma_head_changed_wf(s: StateModel, p: Seq<usize>, x: TreeModel)
    requires
        wf(s),
        has_path(s.root, p),
        x.kind == node_at(s.root, p).kind,
        x.id == node_at(s.root, p).id,
        x.children == node_at(s.root, p).children,
        x.kind != XmlNodeKind::Element ==> x.attributes.len() == 0,
    ensures
        wf(changed(s, p, x)),
{
    let t = node_at(s.root, p);
    lemma_shaped_at(s.root, p);
    assert forall|i: int| 0 <= i < x.children.len() implies shaped(#[trigger] x.children[i]) by {
        assert(x.children[i] == t.children[i]);
    }
    assert forall|id: u64| #[trigger] occurrences(x, id) == occurrences(t, id) by {}
    lemma_changed_wf(s, p, x);
}

/// Changing names, values and attributes keeps a document well formed.
pub proof fn lemma_heads_changed_wf(
    s: StateModel,
    h: HandleModel,
    index: usize,
    old_name: Seq<char>,
    name: Seq<char>,
    value: Seq<char>,
)
    requires
        wf(s),
    ensures
        wf(node_renamed(s, h, name).0),
        wf(value_set(s, h, value).0),
        wf(attribute_set(s, h, name, value).0),
        wf(attribute_ensured(s, h, name, value).0),
        wf(attribute_removed(s, h, name).0),
        wf(attribute_replaced(s, h, old_name, name, value).0),
        wf(attribute_inserted(s, h, index, name, value).0),
        wf(
            element_changed(
                s,
                h,
                |t: TreeModel| TreeModel { attributes: Seq::empty(), touched: true, ..t },
            ).0,
        ),
{
    if let Ok(p) = resolved(s, h) {
        lemma_path_found(s.root, h.local);
        let t = node_at(s.root, p);
        lemma_shaped_at(s.root, p);
        lemma_head_changed_wf(s, p, TreeModel { name, touched: true, ..t });
        lemma_head_changed_wf(s, p, TreeModel { value: plain_text(value), touched: true, ..t });
        if t.kind == XmlNodeKind::Element {
            lemma_head_changed_wf(s, p, attribute_put(t, name, value));
            lemma_head_changed_wf(
                s,
                p,
                TreeModel { attributes: Seq::empty(), touched: true, ..t },
            );
            if let Some(k) = attribute_index(t.attributes, 0, name) {
                lemma_head_changed_wf(
                    s,
                    p,
                    TreeModel { attributes: t.attributes.remove(k), touched: true, ..t },
                );
            }
            if let Some(k) = attribute_index(t.attributes, 0, old_name) {
                lemma_head_changed_wf(
                    s,
                    p,
                    TreeModel {
                        attributes: t.attributes.update(k, plain_attribute(name, value)),
                        touched: true,
                        ..t
                    },
                );
            }
            lemma_head_changed_wf(
                s,
                p,
                TreeModel {
                    attributes: t.attributes.insert(index as int, plain_attribute(name, value)),
                    touched: true,
                    ..t
                },
            );
        }
    }
}

/// Copying an attribute of another document, or moving one, keeps a document well formed.
pub proof fn lemma_attribute_copied_wf(
    s: StateModel,
    h: HandleModel,
    o: StateModel,
    source: HandleModel,
    name: Seq<char>,
)
    requires
        wf(s),
    ensures
        wf(attribute_copied(s, h, o, source, name).0),
        wf(attribute_moved(s, h, source, name).0),
{
    if let Ok(q) = resolved(o, source) {
        if let Ok(Some(x)) = attribute_value(node_at(o.root, q), name, o.reading) {
            lemma_heads_changed_wf(s, h, 0, name, name, x);
        }
    }
    if let Ok(q) = resolved(s, source) {
        if let Ok(Some(x)) = attribute_value(node_at(s.root, q), name, s.reading) {
            lemma_heads_changed_wf(s, h, 0, name, name, x);
            let next = attribute_copied(s, h, s, source, name).0;
            lemma_heads_changed_wf(next, source, 0, name, name, x);
        }
    }
}

/// Removing the children of an element keeps a document well formed.
pub proof fn lemma_cleared_wf(s: StateModel, h: HandleModel)
    requires
        wf(s),
    ensures
        wf(
            element_changed(
                s,
                h,
                |t: TreeModel| TreeModel { children: Seq::empty(), touched: true, ..t },
            ).0,
        ),
{
    if let Ok(p) = resolved(s, h) {
        lemma_path_found(s.root, h.local);
        let t = node_at(s.root, p);
        if t.kind == XmlNodeKind::Element {
            let x = TreeModel { children: Seq::empty(), touched: true, ..t };
            lemma_shaped_updated(s.root, p, x);
            let c = changed(s, p, x);
            assert forall|id: u64| #[trigger]
                occurrences(c.root, id) <= 1 && (occurrences(c.root, id) == 1 ==> id
                    < c.next_id) by {
                lemma_occurrences_updated(s.root, p, x, id);
                assert(occurrences(x, id) <= occurrences(t, id));
                assert(occurrences(s.root, id) <= 1);
            }
        }
    }
}

/// Setting the text of an element keeps a document well formed.
pub proof fn lemma_text_set_wf(s: StateModel, h: HandleModel, value: Seq<char>)
    requires
        wf(s),
    ensures
        wf(text_set(s, h, value).0),
        wf(text_ensured(s, h, value).0),
{
    if let Ok(p) = resolved(s, h) {
        lemma_path_found(s.root, h.local);
        let t = node_at(s.root, p);
        lemma_shaped_at(s.root, p);
        if t.kind == XmlNodeKind::Element {
            match text_index(t.children, 0) {
                Some(k) => {
                    lemma_text_index(t.children, 0);
                    let y = TreeModel { value: plain_text(value), touched: true, ..t.children[k] };
                    assert(shaped(t.children[k]));
                    assert(shaped(y));
                    lemma_shaped_replaced(t, k, y);
                    let x = replaced(t, k, y);
                    assert forall|id: u64| #[trigger]
                        occurrences(x, id) == occurrences(t, id) by {
                        lemma_occurrences_replaced(t, k, y, id);
                    }
                    lemma_changed_wf(s, p, x);
                },
                None => {
                    lemma_graft_step_wf(s, p, 0, seq![NodeModel::Text(value)]);
                },
            }
        }
    }
}

/// The first child that holds text is a child.
proof fn lemma_text_index(n: Seq<TreeModel>, k: int)
    requires
        0 <= k,
    ensures
        text_index(n, k) matches Some(i) ==> k <= i < n.len() && crate::access::holds_text(
            n[i].kind,
        ),
    decreases n.len() - k,
{
    if k < n.len() {
        lemma_text_index(n, k + 1);
    }
}

/// Adding elements keeps a document well formed.
pub proof fn lemma_elements_added_wf(s: StateModel, h: HandleModel, name: Seq<char>)
    requires
        wf(s),
    ensures
        wf(element_added(s, h, name).0),
        wf(element_put_first(s, h, name).0),
        wf(element_ensured(s, h, name).0),
{
    lemma_node_added_wf(s, h, empty_element(name), false);
    lemma_node_added_wf(s, h, empty_element(name), true);
}

/// Changing what stands beside the root keeps a document well formed.
pub proof fn lemma_outer_changed_wf(
    s: StateModel,
    after: bool,
    index: usize,
    n: NodeModel,
    data: Seq<char>,
    d: crate::dom::DoctypeModel,
)
    requires
        wf(s),
    ensures
        wf(misc_appended(s, after, n).0),
        wf(misc_removed(s, after, index).0),
        wf(misc_replaced(s, after, index, n).0),
        wf(declaration_set(s, data).0),
        wf(doctype_set(s, d).0),
        wf(StateModel { declaration: None, edited: true, ..s }),
        wf(StateModel { doctype: None, edited: true, ..s }),
{
    let root = s.root;
    assert forall|c: StateModel| c.root == root && c.next_id == s.next_id implies #[trigger] wf(
        c,
    ) by {}
}

} // verus!
