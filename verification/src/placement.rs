//! Where a change puts nodes, as it is seen from outside: what an element holds afterwards.

use vstd::prelude::*;

use crate::changes::{
    copy_added, grafted, has_room, inserted, marked, node_added, node_removed, node_replaced,
    nodes_added, removed, replaced, sibling_added,
};
use crate::dom::{ElementModel, NodeModel, XmlNodeKind};
use crate::effects::lemma_copied_snapshot;
use crate::error::ErrorModel;
use crate::facade::{handle_of, resolved, target, StateModel};
use crate::following::{
    lemma_new_handle, lemma_planted_snapshot, lemma_target_found, lemma_updated_below,
};
use crate::handle::{DomErrorModel, HandleModel};
use crate::laws::{
    lemma_copy_added_wf, lemma_grafted_wf, lemma_node_removed_wf, lemma_node_replaced_wf, wf,
};
use crate::mutation::{node_fault, nodes_fault};
use crate::numbers::lemma_planted_all_len;
use crate::tree::{
    has_path, lemma_path_found, lemma_path_parent, node_at, node_count, nodes_count,
    plain_attributes, planted, planted_all, pristine, size, snapshot, snapshots_from, updated,
    Reading, TreeModel,
};

verus! {

/// What the node of a handle is outside of the document.
pub open spec fn content(s: StateModel, h: HandleModel) -> Option<NodeModel> {
    match target(s, h) {
        Ok(t) => match snapshot(t, s.reading) {
            Ok(n) => Some(n),
            Err(_) => None,
        },
        Err(_) => None,
    }
}

/// An element with other children.
pub open spec fn holding(e: ElementModel, children: Seq<NodeModel>) -> Option<NodeModel> {
    Some(NodeModel::Element(ElementModel { children, ..e }))
}

/// The trees are, one by one, the nodes outside of the document.
pub open spec fn means(n: Seq<TreeModel>, v: Seq<NodeModel>, r: Reading) -> bool {
    &&& n.len() == v.len()
    &&& forall|i: int|
        0 <= i < n.len() ==> snapshot(#[trigger] n[i], r) == Ok::<NodeModel, ErrorModel>(v[i])
}

/// What trees are together is what they are one by one.
proof fn lemma_means_from(
    n: Seq<TreeModel>,
    k: int,
    r: Reading,
    acc: Seq<NodeModel>,
    v: Seq<NodeModel>,
)
    requires
        0 <= k <= n.len(),
        acc.len() == k,
        forall|i: int|
            0 <= i < k ==> snapshot(#[trigger] n[i], r) == Ok::<NodeModel, ErrorModel>(acc[i]),
    ensures
        snapshots_from(n, k, r, acc) == Ok::<Seq<NodeModel>, ErrorModel>(v) ==> means(n, v, r),
        means(n, v, r) ==> snapshots_from(n, k, r, acc) == Ok::<Seq<NodeModel>, ErrorModel>(v),
    decreases n.len() - k,
{
    if k < n.len() {
        match snapshot(n[k], r) {
            Ok(x) => {
                lemma_means_from(n, k + 1, r, acc.push(x), v);
            },
            Err(_) => {
                if means(n, v, r) {
                    assert(snapshot(n[k], r) == Ok::<NodeModel, ErrorModel>(v[k]));
                }
            },
        }
    } else if means(n, v, r) {
        assert forall|i: int| 0 <= i < v.len() implies v[i] == acc[i] by {
            assert(snapshot(n[i], r) == Ok::<NodeModel, ErrorModel>(v[i]));
        }
        assert(v =~= acc);
    }
}

/// What an element is: its name, its attributes, and what its children are one by one.
pub proof fn lemma_element_means(t: TreeModel, r: Reading, e: ElementModel)
    ensures
        snapshot(t, r) == Ok::<NodeModel, ErrorModel>(NodeModel::Element(e)) <==> {
            &&& t.kind == XmlNodeKind::Element
            &&& t.name == e.name
            &&& plain_attributes(t, r) == Ok::<Seq<crate::dom::AttributeModel>, ErrorModel>(
                e.attributes,
            )
            &&& means(t.children, e.children, r)
        },
{
    lemma_means_from(t.children, 0, r, Seq::empty(), e.children);
}

/// The node that a path leads to is found again where it was put.
pub proof fn lemma_put(s: StateModel, next: StateModel, h: HandleModel, p: Seq<usize>, t: TreeModel)
    requires
        wf(next),
        resolved(s, h) == Ok::<Seq<usize>, DomErrorModel>(p),
        next.lineage == s.lineage,
        next.document == s.document,
        next.generation == s.generation,
        has_path(s.root, p),
        next.root == updated(s.root, p, t),
        t.id == h.local,
    ensures
        resolved(next, h) == Ok::<Seq<usize>, DomErrorModel>(p),
        target(next, h) == Ok::<TreeModel, DomErrorModel>(t),
{
    lemma_updated_below(s.root, p, t, Seq::empty());
    assert(p + Seq::<usize>::empty() =~= p);
    lemma_target_found(next, h, p);
}

/// A handle that is resolved leads to a node with its number.
pub proof fn lemma_led(s: StateModel, h: HandleModel)
    requires
        resolved(s, h) is Ok,
    ensures
        has_path(s.root, resolved(s, h)->Ok_0),
        node_at(s.root, resolved(s, h)->Ok_0).id == h.local,
{
    lemma_path_found(s.root, h.local);
}

/// New nodes between the children of an element.
proof fn lemma_grafted_content(
    s: StateModel,
    h: HandleModel,
    k: int,
    n: Seq<NodeModel>,
    e: ElementModel,
)
    requires
        wf(s),
        content(s, h) == Some(NodeModel::Element(e)),
        0 <= k <= e.children.len(),
        has_room(s, nodes_count(n, n.len() as int)),
    ensures
        ({
            let next = grafted(s, resolved(s, h)->Ok_0, k, n);
            content(next, h) == holding(
                e,
                e.children.subrange(0, k) + n + e.children.subrange(k, e.children.len() as int),
            )
        }),
{
    let p = resolved(s, h)->Ok_0;
    let t = node_at(s.root, p);
    let r = s.reading;
    let next = grafted(s, p, k, n);
    let new = planted_all(n, n.len() as int, s.next_id as int);
    let x = inserted(t, k, new);
    let v = e.children.subrange(0, k) + n + e.children.subrange(k, e.children.len() as int);
    lemma_led(s, h);
    lemma_element_means(t, r, e);
    lemma_grafted_wf(s, p, k, n);
    lemma_put(s, next, h, p, x);
    lemma_planted_all_len(n, n.len() as int, s.next_id as int);
    assert forall|i: int| 0 <= i < x.children.len() implies snapshot(#[trigger] x.children[i], r)
        == Ok::<NodeModel, ErrorModel>(v[i]) by {
        if i < k {
            assert(x.children[i] == t.children[i]);
        } else if i < k + n.len() {
            assert(x.children[i] == new[i - k]);
            lemma_planted_snapshot(n[i - k], s.next_id + nodes_count(n, i - k), r);
        } else {
            assert(x.children[i] == t.children[i - n.len()]);
        }
    }
    lemma_element_means(x, r, ElementModel { children: v, ..e });
}

/// Children that are added as a batch stand behind those that were there, in the order in which
/// they were given, and the range that is returned is where they stand. Nodes that are well formed
/// are always taken, as long as there are numbers for them.
pub proof fn lemma_batch_is_appended(
    s: StateModel,
    h: HandleModel,
    n: Seq<NodeModel>,
    e: ElementModel,
)
    requires
        wf(s),
        content(s, h) == Some(NodeModel::Element(e)),
        nodes_fault(n, 0) is None,
        s.next_id + nodes_count(n, n.len() as int) <= u64::MAX,
        e.children.len() + n.len() <= usize::MAX,
    ensures
        ({
            let (next, r) = nodes_added(s, h, n);
            &&& r == Ok::<(int, int), DomErrorModel>(
                (e.children.len() as int, (e.children.len() + n.len()) as int),
            )
            &&& content(next, h) == holding(e, e.children + n)
        }),
{
    let t = node_at(s.root, resolved(s, h)->Ok_0);
    lemma_element_means(t, s.reading, e);
    let k = e.children.len() as int;
    lemma_grafted_content(s, h, k, n, e);
    assert(e.children.subrange(0, k) + n + e.children.subrange(k, k) =~= e.children + n);
}

/// A child that is prepended is the first one, a child that is appended is the last one; the
/// others stay as they are. The handle that is returned is that of the new child. A node that is
/// well formed is always taken, as long as there are numbers for it.
pub proof fn lemma_child_is_added(
    s: StateModel,
    h: HandleModel,
    n: NodeModel,
    first: bool,
    e: ElementModel,
)
    requires
        wf(s),
        content(s, h) == Some(NodeModel::Element(e)),
        node_fault(n) is None,
        s.next_id + node_count(n) <= u64::MAX,
        e.children.len() < usize::MAX,
    ensures
        ({
            let (next, r) = node_added(s, h, n, first);
            &&& r matches Ok(g) && content(next, g) == Some(n) && resolved(next, g) == Ok::<
                Seq<usize>,
                DomErrorModel,
            >(
                resolved(next, h)->Ok_0.push(
                    if first {
                        0
                    } else {
                        e.children.len() as usize
                    },
                ),
            )
            &&& content(next, h) == holding(
                e,
                if first {
                    seq![n] + e.children
                } else {
                    e.children + seq![n]
                },
            )
        }),
{
    let p = resolved(s, h)->Ok_0;
    let t = node_at(s.root, p);
    lemma_element_means(t, s.reading, e);
    lemma_led(s, h);
    let len = e.children.len() as int;
    let k = if first {
        0
    } else {
        len
    };
    let m = seq![n];
    assert(nodes_count(m, 0) == 0);
    assert(nodes_count(m, 1) == nodes_count(m, 0) + node_count(m[0]));
    lemma_grafted_content(s, h, k, m, e);
    assert(e.children.subrange(0, 0) + m + e.children.subrange(0, len) =~= m + e.children);
    assert(e.children.subrange(0, len) + m + e.children.subrange(len, len) =~= e.children + m);
    lemma_new_handle(s, p, k, m, 0);
    let next = grafted(s, p, k, m);
    lemma_grafted_wf(s, p, k, m);
    lemma_put(
        s,
        next,
        h,
        p,
        inserted(t, k, planted_all(m, 1, s.next_id as int)),
    );
    lemma_planted_snapshot(n, s.next_id as int, s.reading);
    assert(crate::editing::graft_handles(s, m)[0] == handle_of(s, s.next_id));
}

/// An element whose children are others afterwards.
pub proof fn lemma_children_set(
    s: StateModel,
    next: StateModel,
    g: HandleModel,
    x: TreeModel,
    e: ElementModel,
    v: Seq<NodeModel>,
)
    requires
        wf(next),
        content(s, g) == Some(NodeModel::Element(e)),
        next.lineage == s.lineage,
        next.document == s.document,
        next.generation == s.generation,
        next.reading == s.reading,
        next.root == updated(s.root, resolved(s, g)->Ok_0, x),
        crate::changes::same_head(x, target(s, g)->Ok_0),
        means(x.children, v, s.reading),
    ensures
        content(next, g) == holding(e, v),
        resolved(next, g) == resolved(s, g),
        target(next, g) == Ok::<TreeModel, DomErrorModel>(x),
{
    let p = resolved(s, g)->Ok_0;
    lemma_led(s, g);
    lemma_element_means(node_at(s.root, p), s.reading, e);
    lemma_put(s, next, g, p, x);
    lemma_element_means(x, s.reading, ElementModel { children: v, ..e });
}

/// The node of the handle `h` is the child number `k` of the element of the handle `g`.
pub open spec fn child_of(s: StateModel, h: HandleModel, g: HandleModel, k: int) -> bool {
    &&& resolved(s, h) is Ok
    &&& resolved(s, g) is Ok
    &&& 0 <= k <= usize::MAX
    &&& resolved(s, h)->Ok_0 == resolved(s, g)->Ok_0.push(k as usize)
}

/// A child is one of the nodes that its parent holds.
pub proof fn lemma_child_is_held(s: StateModel, h: HandleModel, g: HandleModel, k: int)
    requires
        child_of(s, h, g, k),
        content(s, g) is Some,
        content(s, g)->Some_0 is Element,
    ensures
        ({
            let e = content(s, g)->Some_0->Element_0;
            &&& k < e.children.len()
            &&& content(s, h) == Some(e.children[k])
        }),
{
    let e = content(s, g)->Some_0->Element_0;
    let p = resolved(s, h)->Ok_0;
    lemma_led(s, h);
    lemma_led(s, g);
    lemma_path_parent(s.root, p);
    assert(p.drop_last() =~= resolved(s, g)->Ok_0);
    lemma_element_means(node_at(s.root, p.drop_last()), s.reading, e);
}

/// A node that is inserted before another one stands at its place and the other one right behind
/// it; a node that is inserted after another one stands right behind that. The handle that is
/// returned is that of the new node.
pub proof fn lemma_sibling_is_added(
    s: StateModel,
    h: HandleModel,
    g: HandleModel,
    k: int,
    n: NodeModel,
    after: bool,
    e: ElementModel,
)
    requires
        wf(s),
        child_of(s, h, g, k),
        content(s, g) == Some(NodeModel::Element(e)),
        node_fault(n) is None,
        s.next_id + node_count(n) <= u64::MAX,
        e.children.len() < usize::MAX,
    ensures
        ({
            let (next, r) = sibling_added(s, h, n, after);
            &&& r matches Ok(x) && content(next, x) == Some(n)
            &&& content(next, g) == holding(
                e,
                e.children.insert(
                    if after {
                        k + 1
                    } else {
                        k
                    },
                    n,
                ),
            )
        }),
{
    let q = resolved(s, h)->Ok_0;
    let p = resolved(s, g)->Ok_0;
    lemma_child_is_held(s, h, g, k);
    lemma_led(s, g);
    assert(q.drop_last() =~= p);
    let t = node_at(s.root, p);
    lemma_element_means(t, s.reading, e);
    let m = seq![n];
    let i = if after {
        k + 1
    } else {
        k
    };
    assert(nodes_count(m, 0) == 0);
    assert(nodes_count(m, 1) == nodes_count(m, 0) + node_count(m[0]));
    lemma_grafted_content(s, g, i, m, e);
    assert(e.children.subrange(0, i) + m + e.children.subrange(i, e.children.len() as int)
        =~= e.children.insert(i, n));
    lemma_new_handle(s, p, i, m, 0);
    lemma_planted_snapshot(n, s.next_id as int, s.reading);
    assert(crate::editing::graft_handles(s, m)[0] == handle_of(s, s.next_id));
}

/// A node that is replaced is returned, and the new one stands in its place.
pub proof fn lemma_child_is_replaced(
    s: StateModel,
    h: HandleModel,
    g: HandleModel,
    k: int,
    n: NodeModel,
    e: ElementModel,
)
    requires
        wf(s),
        child_of(s, h, g, k),
        content(s, g) == Some(NodeModel::Element(e)),
        node_fault(n) is None,
        s.next_id + node_count(n) <= u64::MAX,
    ensures
        ({
            let (next, r) = node_replaced(s, h, n);
            &&& r == Ok::<NodeModel, DomErrorModel>(e.children[k])
            &&& content(next, g) == holding(e, e.children.update(k, n))
            &&& target(next, h) == Err::<TreeModel, DomErrorModel>(DomErrorModel::DeletedHandle)
        }),
{
    let q = resolved(s, h)->Ok_0;
    let p = resolved(s, g)->Ok_0;
    let r = s.reading;
    lemma_child_is_held(s, h, g, k);
    lemma_led(s, g);
    lemma_led(s, h);
    assert(q.drop_last() =~= p);
    let t = node_at(s.root, p);
    lemma_path_parent(s.root, q);
    lemma_element_means(t, r, e);
    lemma_node_replaced_wf(s, h, n);
    lemma_planted_snapshot(n, s.next_id as int, r);
    let new = planted(n, s.next_id as int);
    let x = marked(replaced(t, k, new));
    let v = e.children.update(k, n);
    assert forall|i: int| 0 <= i < x.children.len() implies snapshot(#[trigger] x.children[i], r)
        == Ok::<NodeModel, ErrorModel>(v[i]) by {
        if i != k {
            assert(x.children[i] == t.children[i]);
        }
    }
    let next = node_replaced(s, h, n).0;
    lemma_children_set(s, next, g, x, e, v);
    crate::numbers::lemma_occurrences_updated(s.root, p, x, h.local);
    crate::numbers::lemma_occurrences_replaced(t, k, new, h.local);
    crate::numbers::lemma_planted_numbers(n, s.next_id as int, h.local);
    crate::numbers::lemma_present(t.children[k], Seq::empty());
    crate::numbers::lemma_present(s.root, q);
    assert(crate::tree::occurrences(s.root, h.local) <= 1);
    assert(crate::tree::occurrences(marked(replaced(t, k, new)), h.local)
        == crate::tree::occurrences(replaced(t, k, new), h.local));
    crate::numbers::lemma_absent(next.root, h.local);
}

/// A node that is removed is returned, and the others close up.
pub proof fn lemma_child_is_removed(
    s: StateModel,
    h: HandleModel,
    g: HandleModel,
    k: int,
    e: ElementModel,
)
    requires
        wf(s),
        child_of(s, h, g, k),
        content(s, g) == Some(NodeModel::Element(e)),
    ensures
        ({
            let (next, r) = node_removed(s, h);
            &&& r == Ok::<NodeModel, DomErrorModel>(e.children[k])
            &&& content(next, g) == holding(e, e.children.remove(k))
        }),
{
    let q = resolved(s, h)->Ok_0;
    let p = resolved(s, g)->Ok_0;
    let r = s.reading;
    lemma_child_is_held(s, h, g, k);
    lemma_led(s, g);
    lemma_led(s, h);
    assert(q.drop_last() =~= p);
    let t = node_at(s.root, p);
    lemma_path_parent(s.root, q);
    lemma_element_means(t, r, e);
    lemma_node_removed_wf(s, h);
    let x = removed(t, k);
    let v = e.children.remove(k);
    assert forall|i: int| 0 <= i < x.children.len() implies snapshot(#[trigger] x.children[i], r)
        == Ok::<NodeModel, ErrorModel>(v[i]) by {
        if i < k {
            assert(x.children[i] == t.children[i]);
        } else {
            assert(x.children[i] == t.children[i + 1]);
        }
    }
    lemma_children_set(s, node_removed(s, h).0, g, x, e, v);
}

/// A copy of a node is appended as the node is: behind the children that the element has. The
/// handle that is returned is that of the copy; the node itself stays.
pub proof fn lemma_copy_is_appended(
    s: StateModel,
    h: HandleModel,
    source: HandleModel,
    e: ElementModel,
    n: NodeModel,
)
    requires
        wf(s),
        content(s, h) == Some(NodeModel::Element(e)),
        content(s, source) == Some(n),
        node_fault(n) is None,
        s.next_id + node_count(n) <= u64::MAX,
        s.next_id + size(target(s, source)->Ok_0) <= u64::MAX,
        e.children.len() < usize::MAX,
    ensures
        ({
            let (next, r) = copy_added(s, h, source);
            &&& r == Ok::<HandleModel, DomErrorModel>(handle_of(s, s.next_id))
            &&& content(next, r->Ok_0) == Some(n)
            &&& content(next, h) == holding(e, e.children.push(n))
        }),
{
    let p = resolved(s, h)->Ok_0;
    let q = resolved(s, source)->Ok_0;
    let r = s.reading;
    lemma_led(s, h);
    lemma_led(s, source);
    let t = node_at(s.root, p);
    let y = node_at(s.root, q);
    lemma_element_means(t, r, e);
    if !pristine(y) {
        lemma_child_is_added(s, h, n, false, e);
        assert(e.children + seq![n] =~= e.children.push(n));
    } else {
        let c = crate::tree::copied(y, s.next_id as int);
        let len = t.children.len() as int;
        let x = marked(inserted(t, len, seq![c]));
        let v = e.children.push(n);
        lemma_copied_snapshot(y, s.next_id as int, r);
        assert(x.children =~= t.children.push(c));
        assert forall|i: int|
            0 <= i < x.children.len() implies snapshot(#[trigger] x.children[i], r) == Ok::<
            NodeModel,
            ErrorModel,
        >(v[i]) by {
            if i < len {
                assert(x.children[i] == t.children[i]);
            }
        }
        lemma_copy_added_wf(s, h, source);
        let next = copy_added(s, h, source).0;
        lemma_children_set(s, next, h, x, e, v);
        let at = seq![len as usize];
        assert(has_path(x, at)) by {
            assert(has_path(c, at.skip(1)));
        }
        assert(node_at(x, at) == c) by {
            assert(node_at(c, at.skip(1)) == c);
        }
        lemma_updated_below(s.root, p, x, at);
        lemma_target_found(next, handle_of(s, s.next_id), p + at);
    }
}

} // verus!
