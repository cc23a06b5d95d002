//! Handles follow their nodes through the changes of an editable document.

use vstd::prelude::*;

use crate::changes::{
    grafted, has_room, inserted, lemma_shifted, marked, node_added, node_moved, node_removed,
    passes, pruned, removed, reordered, same_head, shifted,
};
use crate::dom::{AttributeModel, NodeModel, XmlNodeKind};
use crate::editing::graft_handles;
use crate::facade::{handle_of, next_generation, resolved, target, StateModel};
use crate::handle::{DomErrorModel, HandleModel};
use crate::laws::{lemma_grafted_wf, lemma_node_moved_wf, lemma_pruned_wf, wf};
use crate::lexeme::CompactLexemeKind;
use crate::numbers::{
    lemma_absent, lemma_found, lemma_planted_all_len, lemma_present, lemma_settled_all_len,
};
use crate::tree::{
    has_path, lemma_path_found, lemma_path_parent, node_at, nodes_count, occurrences,
    plain_attributes_from, planted, planted_all, planted_attributes, pristine, settled, settled_all,
    settled_attributes, snapshot, snapshots_from, text_value, updated, Reading, TreeAttribute,
    TreeModel,
};

verus! {

/// A path that does not lead through a node that was exchanged leads to the same node as before,
/// which has changed at most in its children.
pub proof fn lemma_updated_elsewhere(t: TreeModel, p: Seq<usize>, x: TreeModel, q: Seq<usize>)
    requires
        has_path(t, p),
        has_path(t, q),
        !passes(q, p),
    ensures
        has_path(updated(t, p, x), q),
        same_head(node_at(updated(t, p, x), q), node_at(t, q)),
    decreases p.len(),
{
    let u = updated(t, p, x);
    if p.len() == 0 {
        assert(q.take(0) =~= p);
    } else if q.len() > 0 {
        let k = p[0] as int;
        if q[0] == p[0] {
            if passes(q.skip(1), p.skip(1)) {
                lemma_passes_longer(q, p);
            }
            lemma_updated_elsewhere(t.children[k], p.skip(1), x, q.skip(1));
        } else {
            assert(u.children[q[0] as int] == t.children[q[0] as int]);
        }
    }
}

/// Paths that start alike and continue alike are alike.
proof fn lemma_passes_longer(q: Seq<usize>, p: Seq<usize>)
    requires
        p.len() > 0,
        q.len() > 0,
        q[0] == p[0],
        passes(q.skip(1), p.skip(1)),
    ensures
        passes(q, p),
{
    assert forall|j: int| 0 <= j < p.len() implies q[j] == p[j] by {
        if j > 0 {
            assert(q.skip(1).take(p.skip(1).len() as int)[j - 1] == p.skip(1)[j - 1]);
        }
    }
    assert(q.take(p.len() as int) =~= p);
}

/// A path that leads through a node that was exchanged goes on in the new node.
pub proof fn lemma_updated_below(t: TreeModel, p: Seq<usize>, x: TreeModel, r: Seq<usize>)
    requires
        has_path(t, p),
    ensures
        has_path(updated(t, p, x), p + r) == has_path(x, r),
        node_at(updated(t, p, x), p + r) == node_at(x, r),
    decreases p.len(),
{
    if p.len() == 0 {
        assert(p + r =~= r);
    } else {
        lemma_updated_below(t.children[p[0] as int], p.skip(1), x, r);
        assert((p + r).skip(1) =~= p.skip(1) + r);
        assert((p + r)[0] == p[0]);
    }
}

/// A path can be split.
pub proof fn lemma_path_split(t: TreeModel, p: Seq<usize>, r: Seq<usize>)
    requires
        has_path(t, p + r),
    ensures
        has_path(t, p),
        has_path(node_at(t, p), r),
        node_at(node_at(t, p), r) == node_at(t, p + r),
    decreases p.len(),
{
    if p.len() == 0 {
        assert(p + r =~= r);
    } else {
        assert((p + r).skip(1) =~= p.skip(1) + r);
        assert((p + r)[0] == p[0]);
        lemma_path_split(t.children[p[0] as int], p.skip(1), r);
    }
}

/// A node with the number of a handle is the node of the handle.
pub proof fn lemma_target_found(s: StateModel, h: HandleModel, p: Seq<usize>)
    requires
        wf(s),
        h.lineage == s.lineage,
        h.document == s.document,
        h.generation == s.generation,
        has_path(s.root, p),
        node_at(s.root, p).id == h.local,
    ensures
        resolved(s, h) == Ok::<Seq<usize>, DomErrorModel>(p),
        target(s, h) == Ok::<TreeModel, DomErrorModel>(node_at(s.root, p)),
{
    assert(occurrences(s.root, h.local) <= 1);
    lemma_found(s.root, p);
}

/// Where a path leads when nodes have been inserted: siblings behind them move on.
pub open spec fn moved_on(q: Seq<usize>, p: Seq<usize>, k: int, n: int) -> Seq<usize> {
    let i = p.len() as int;
    if q.len() > i && q.take(i) == p && q[i] >= k {
        q.update(i, (q[i] + n) as usize)
    } else {
        q
    }
}

/// When nodes have been inserted, a path, moved on, leads to the same node as before, which has
/// changed at most in its children.
proof fn lemma_moved_on(t: TreeModel, p: Seq<usize>, k: int, n: Seq<TreeModel>, q: Seq<usize>)
    requires
        has_path(t, p),
        has_path(t, q),
        0 <= k <= node_at(t, p).children.len(),
        node_at(t, p).children.len() + n.len() <= usize::MAX,
    ensures
        ({
            let u = updated(t, p, inserted(node_at(t, p), k, n));
            let d = moved_on(q, p, k, n.len() as int);
            has_path(u, d) && same_head(node_at(u, d), node_at(t, q))
        }),
{
    let x = node_at(t, p);
    let y = inserted(x, k, n);
    let i = p.len() as int;
    let d = moved_on(q, p, k, n.len() as int);
    if passes(q, p) {
        let r = q.skip(i);
        assert(q =~= p + r);
        lemma_path_split(t, p, r);
        if r.len() == 0 {
            assert(d =~= p + r);
            lemma_updated_below(t, p, y, r);
        } else {
            let e = if q[i] >= k {
                r.update(0, (q[i] + n.len()) as usize)
            } else {
                r
            };
            assert(d =~= p + e);
            lemma_updated_below(t, p, y, e);
            assert(r[0] == q[i]);
            assert(e.skip(1) =~= r.skip(1));
            assert(y.children[e[0] as int] == x.children[r[0] as int]);
        }
    } else {
        if q.len() > i && q.take(i) == p {
            assert(passes(q, p));
        }
        lemma_updated_elsewhere(t, p, y, q);
    }
}

/// New nodes are found by the handles that are returned for them.
pub proof fn lemma_new_handle(s: StateModel, p: Seq<usize>, k: int, n: Seq<NodeModel>, i: int)
    requires
        wf(s),
        has_path(s.root, p),
        node_at(s.root, p).kind == XmlNodeKind::Element,
        0 <= k <= node_at(s.root, p).children.len(),
        has_room(s, nodes_count(n, n.len() as int)),
        0 <= i < n.len(),
        k + i <= usize::MAX,
    ensures
        resolved(grafted(s, p, k, n), graft_handles(s, n)[i]) == Ok::<Seq<usize>, DomErrorModel>(
            p.push((k + i) as usize),
        ),
        target(grafted(s, p, k, n), graft_handles(s, n)[i]) == Ok::<TreeModel, DomErrorModel>(
            planted(n[i], s.next_id + nodes_count(n, i)),
        ),
{
    let x = node_at(s.root, p);
    let m = planted_all(n, n.len() as int, s.next_id as int);
    let y = inserted(x, k, m);
    let g = grafted(s, p, k, n);
    let h = graft_handles(s, n)[i];
    lemma_planted_all_len(n, n.len() as int, s.next_id as int);
    lemma_grafted_wf(s, p, k, n);
    let j = (k + i) as usize;
    let r = seq![j];
    assert(p + r =~= p.push(j));
    lemma_updated_below(s.root, p, y, r);
    assert(r.skip(1) =~= Seq::<usize>::empty());
    assert(y.children[k + i] == m[i]);
    assert(has_path(y.children[j as int], r.skip(1)));
    assert(node_at(y.children[j as int], r.skip(1)) == m[i]);
    assert(has_path(y, r));
    assert(node_at(y, r) == m[i]);
    crate::planting::lemma_nodes_count_monotone(n, i, n.len() as int);
    assert(m[i].id == h.local) by {
        match n[i] {
            NodeModel::Element(_) => {},
            _ => {},
        }
    }
    lemma_target_found(g, h, p.push(j));
}

/// Handles follow their nodes when nodes are inserted.
pub proof fn lemma_grafted_keeps(
    s: StateModel,
    p: Seq<usize>,
    k: int,
    n: Seq<NodeModel>,
    h: HandleModel,
)
    requires
        wf(s),
        has_path(s.root, p),
        node_at(s.root, p).kind == XmlNodeKind::Element,
        0 <= k <= node_at(s.root, p).children.len(),
        has_room(s, nodes_count(n, n.len() as int)),
        node_at(s.root, p).children.len() + n.len() <= usize::MAX,
        target(s, h) is Ok,
    ensures
        target(grafted(s, p, k, n), h) is Ok,
        same_head(target(grafted(s, p, k, n), h)->Ok_0, target(s, h)->Ok_0),
{
    lemma_path_found(s.root, h.local);
    let q = resolved(s, h)->Ok_0;
    let m = planted_all(n, n.len() as int, s.next_id as int);
    lemma_planted_all_len(n, n.len() as int, s.next_id as int);
    lemma_grafted_wf(s, p, k, n);
    lemma_moved_on(s.root, p, k, m, q);
    lemma_target_found(grafted(s, p, k, n), h, moved_on(q, p, k, n.len() as int));
}

/// What a new node is outside of the tree: the node that was added.
pub proof fn lemma_planted_snapshot(n: NodeModel, first: int, r: Reading)
    ensures
        snapshot(planted(n, first), r) == Ok::<NodeModel, crate::error::ErrorModel>(n),
    decreases n, 0int,
{
    match n {
        NodeModel::Element(e) => {
            lemma_planted_attributes(e.attributes, 0, r, Seq::empty());
            lemma_planted_all_len(e.children, e.children.len() as int, first + 1);
            lemma_planted_snapshots(e.children, 0, first + 1, r, Seq::empty());
            assert(Seq::<AttributeModel>::empty() + e.attributes.skip(0) =~= e.attributes);
            assert(Seq::<NodeModel>::empty() + e.children.skip(0) =~= e.children);
        },
        _ => {},
    }
}

/// What new attributes are outside of the tree.
proof fn lemma_planted_attributes(
    a: Seq<AttributeModel>,
    k: int,
    r: Reading,
    acc: Seq<AttributeModel>,
)
    requires
        0 <= k <= a.len(),
    ensures
        plain_attributes_from(planted_attributes(a), k, r, acc) == Ok::<
            Seq<AttributeModel>,
            crate::error::ErrorModel,
        >(acc + a.skip(k)),
    decreases a.len() - k,
{
    if k < a.len() {
        let p = planted_attributes(a);
        assert(AttributeModel { name: p[k].name, value: a[k].value } == a[k]);
        lemma_planted_attributes(a, k + 1, r, acc.push(a[k]));
        assert(acc.push(a[k]) + a.skip(k + 1) =~= acc + a.skip(k));
    } else {
        assert(acc + a.skip(k) =~= acc);
    }
}

/// What new nodes are outside of the tree.
proof fn lemma_planted_snapshots(
    n: Seq<NodeModel>,
    k: int,
    first: int,
    r: Reading,
    acc: Seq<NodeModel>,
)
    requires
        0 <= k <= n.len(),
    ensures
        snapshots_from(planted_all(n, n.len() as int, first), k, r, acc) == Ok::<
            Seq<NodeModel>,
            crate::error::ErrorModel,
        >(acc + n.skip(k)),
    decreases n, n.len() - k,
{
    lemma_planted_all_len(n, n.len() as int, first);
    if k < n.len() {
        lemma_planted_snapshot(n[k], first + nodes_count(n, k), r);
        lemma_planted_snapshots(n, k + 1, first, r, acc.push(n[k]));
        assert(acc.push(n[k]) + n.skip(k + 1) =~= acc + n.skip(k));
    } else {
        assert(acc + n.skip(k) =~= acc);
    }
}

/// A node that was added is read back by the handle that was returned, and removing it again
/// gives it back and leaves the tree as it was. If it was added before others, its parent then
/// counts as changed.
pub proof fn lemma_added_is_read_back_and_removed(
    s: StateModel,
    h: HandleModel,
    n: NodeModel,
    first: bool,
)
    requires
        wf(s),
        target(s, h) matches Ok(t) ==> t.children.len() < usize::MAX,
        node_added(s, h, n, first).1 is Ok,
    ensures
        ({
            let (next, r) = node_added(s, h, n, first);
            let g = r->Ok_0;
            &&& target(next, g) is Ok
            &&& snapshot(target(next, g)->Ok_0, next.reading) == Ok::<
                NodeModel,
                crate::error::ErrorModel,
            >(n)
            &&& node_removed(next, g).1 == Ok::<NodeModel, DomErrorModel>(n)
            &&& node_removed(next, g).0 == (StateModel {
                next_id: next.next_id,
                edited: true,
                root: node_removed(next, g).0.root,
                ..s
            })
            &&& node_removed(next, g).0.root == (if first && target(s, h)->Ok_0.children.len()
                > 0 {
                updated(s.root, resolved(s, h)->Ok_0, marked(target(s, h)->Ok_0))
            } else {
                s.root
            })
        }),
{
    lemma_path_found(s.root, h.local);
    let p = resolved(s, h)->Ok_0;
    let x = node_at(s.root, p);
    let k = if first {
        0
    } else {
        x.children.len() as int
    };
    let (next, r) = node_added(s, h, n, first);
    let g = r->Ok_0;
    assert(next == grafted(s, p, k, seq![n]));
    assert(nodes_count(seq![n], 0) == 0);
    assert(graft_handles(s, seq![n])[0] == g);
    lemma_new_handle(s, p, k, seq![n], 0);
    lemma_planted_snapshot(n, s.next_id as int, next.reading);
    let m = planted_all(seq![n], 1, s.next_id as int);
    lemma_planted_all_len(seq![n], 1, s.next_id as int);
    let y = inserted(x, k, m);
    let q = p.push(k as usize);
    assert(q.drop_last() =~= p);
    assert(p + Seq::<usize>::empty() =~= p);
    lemma_updated_below(s.root, p, y, Seq::empty());
    assert(removed(y, k).children =~= x.children);
    let z = TreeModel { touched: x.touched || k < x.children.len(), ..x };
    assert(m[0] == planted(n, s.next_id as int));
    assert(!m[0].recorded);
    assert(y.children[k] == m[0]);
    assert(removed(y, k) == z);
    lemma_updated_twice(s.root, p, y, z);
    lemma_updated_twice(s.root, p, y, x);
}

/// Exchanging a node twice is exchanging it once, and exchanging it by itself changes nothing.
proof fn lemma_updated_twice(t: TreeModel, p: Seq<usize>, x: TreeModel, y: TreeModel)
    requires
        has_path(t, p),
    ensures
        updated(updated(t, p, x), p, y) == updated(t, p, y),
        updated(t, p, node_at(t, p)) == t,
    decreases p.len(),
{
    if p.len() > 0 {
        let k = p[0] as int;
        lemma_updated_twice(t.children[k], p.skip(1), x, y);
        let u = updated(t, p, x);
        assert(u.children[k] == updated(t.children[k], p.skip(1), x));
        assert(updated(u, p, y).children =~= updated(t, p, y).children);
        assert(updated(t, p, node_at(t, p)).children =~= t.children);
    }
}

/// When a node is removed, the handles of the nodes in it no longer find anything, and the others
/// follow their nodes.
pub proof fn lemma_removed_handles(s: StateModel, h: HandleModel, g: HandleModel)
    requires
        wf(s),
        node_removed(s, h).1 is Ok,
        target(s, g) is Ok,
    ensures
        ({
            let next = node_removed(s, h).0;
            if passes(resolved(s, g)->Ok_0, resolved(s, h)->Ok_0) {
                target(next, g) == Err::<TreeModel, DomErrorModel>(DomErrorModel::DeletedHandle)
            } else {
                target(next, g) is Ok && same_head(target(next, g)->Ok_0, target(s, g)->Ok_0)
            }
        }),
{
    lemma_path_found(s.root, h.local);
    lemma_path_found(s.root, g.local);
    let p = resolved(s, h)->Ok_0;
    let q = resolved(s, g)->Ok_0;
    let next = node_removed(s, h).0;
    lemma_pruned_wf(s, p);
    if passes(q, p) {
        let r = q.skip(p.len() as int);
        assert(q =~= p + r);
        lemma_path_split(s.root, p, r);
        lemma_present(node_at(s.root, p), r);
        assert(occurrences(next.root, g.local) + occurrences(node_at(s.root, p), g.local)
            == occurrences(s.root, g.local));
        assert(occurrences(s.root, g.local) <= 1);
        lemma_absent(next.root, g.local);
    } else {
        lemma_shifted(s.root, p, q);
        lemma_target_found(next, g, shifted(q, p));
    }
}

/// A tree means what it meant when its values are read.
pub proof fn lemma_settled_snapshot(t: TreeModel, r: Reading)
    requires
        snapshot(t, r) is Ok,
    ensures
        snapshot(settled(t, r), r) == snapshot(t, r),
    decreases t, 0int,
{
    if t.kind == XmlNodeKind::Element {
        lemma_settled_attributes(t.attributes, 0, r, Seq::empty());
        lemma_settled_snapshots(t.children, 0, r, Seq::empty());
    }
}

/// Attributes mean what they meant when their values are read.
proof fn lemma_settled_attributes(
    a: Seq<TreeAttribute>,
    k: int,
    r: Reading,
    acc: Seq<AttributeModel>,
)
    requires
        0 <= k <= a.len(),
        plain_attributes_from(a, k, r, acc) is Ok,
    ensures
        plain_attributes_from(settled_attributes(a, r), k, r, acc) == plain_attributes_from(
            a,
            k,
            r,
            acc,
        ),
    decreases a.len() - k,
{
    if k < a.len() {
        let value = text_value(a[k].value, CompactLexemeKind::Attribute, r)->Ok_0;
        lemma_settled_attributes(
            a,
            k + 1,
            r,
            acc.push(AttributeModel { name: a[k].name, value }),
        );
    }
}

/// Trees mean what they meant when their values are read.
proof fn lemma_settled_snapshots(n: Seq<TreeModel>, k: int, r: Reading, acc: Seq<NodeModel>)
    requires
        0 <= k <= n.len(),
        snapshots_from(n, k, r, acc) is Ok,
    ensures
        snapshots_from(settled_all(n, n.len() as int, r), k, r, acc) == snapshots_from(
            n,
            k,
            r,
            acc,
        ),
    decreases n, n.len() - k,
{
    lemma_settled_all_len(n, n.len() as int, r);
    if k < n.len() {
        lemma_settled_snapshot(n[k], r);
        lemma_settled_snapshots(n, k + 1, r, acc.push(snapshot(n[k], r)->Ok_0));
    }
}

/// A node that is moved keeps its number, means what it meant, and stands where it was moved to.
pub proof fn lemma_moved_handle(
    s: StateModel,
    h: HandleModel,
    destination: HandleModel,
    index: usize,
)
    requires
        wf(s),
        node_moved(s, h, destination, index).1 is Ok,
        target(s, destination)->Ok_0.children.len() < usize::MAX,
    ensures
        ({
            let next = node_moved(s, h, destination, index).0;
            let p = resolved(next, h)->Ok_0;
            &&& node_moved(s, h, destination, index).1 == Ok::<HandleModel, DomErrorModel>(
                handle_of(s, h.local),
            )
            &&& target(next, h) is Ok
            &&& target(next, h) == target(s, h) || target(next, h)->Ok_0 == settled(
                target(s, h)->Ok_0,
                s.reading,
            )
            &&& snapshot(target(next, h)->Ok_0, next.reading) == snapshot(
                target(s, h)->Ok_0,
                s.reading,
            )
            &&& p.len() > 0
            &&& node_at(next.root, p.drop_last()).id == destination.local
        }),
{
    lemma_path_found(s.root, h.local);
    lemma_path_found(s.root, destination.local);
    let p = resolved(s, h)->Ok_0;
    let q = resolved(s, destination)->Ok_0;
    let t = node_at(s.root, q);
    let x = node_at(s.root, p);
    let next = node_moved(s, h, destination, index).0;
    lemma_node_moved_wf(s, h, destination, index);
    if p.drop_last() == q {
        lemma_path_parent(s.root, p);
        let k = p.last() as int;
        let j = if k < index {
            index - 1
        } else {
            index as int
        };
        let y = reordered(t, k, index as int);
        let r = seq![j as usize];
        lemma_updated_below(s.root, q, y, r);
        lemma_updated_below(s.root, q, y, Seq::empty());
        assert(q + Seq::<usize>::empty() =~= q);
        assert(r.skip(1) =~= Seq::<usize>::empty());
        assert(y.children[j] == x);
        assert(has_path(y.children[j], r.skip(1)));
        assert(node_at(y.children[j], r.skip(1)) == x);
        assert(has_path(y, r) && node_at(y, r) == x);
        lemma_target_found(next, h, q + r);
        assert((q + r).drop_last() =~= q);
    } else {
        lemma_shifted(s.root, p, q);
        let rest = pruned(s, p);
        let d = shifted(q, p);
        let kept = pristine(x) && node_at(s.root, p.drop_last()).recorded && t.recorded;
        if !kept {
            lemma_settled_snapshot(x, s.reading);
        }
        let x = if kept {
            x
        } else {
            settled(x, s.reading)
        };
        let y = marked(inserted(node_at(rest.root, d), index as int, seq![x]));
        let r = seq![index];
        lemma_updated_below(rest.root, d, y, r);
        lemma_updated_below(rest.root, d, y, Seq::empty());
        assert(d + Seq::<usize>::empty() =~= d);
        assert(r.skip(1) =~= Seq::<usize>::empty());
        assert(y.children[index as int] == x);
        assert(has_path(y.children[index as int], r.skip(1)));
        assert(node_at(y.children[index as int], r.skip(1)) == x);
        assert(has_path(y, r) && node_at(y, r) == x);
        lemma_target_found(next, h, d + r);
        assert((d + r).drop_last() =~= d);
    }
}

/// When a document is reset or replaced, the handles that were made before go stale.
pub proof fn lemma_replaced_document_stales(s: StateModel, next: StateModel, h: HandleModel)
    requires
        h.lineage == s.lineage,
        h.generation == s.generation,
        next.lineage == s.lineage,
        next.generation == next_generation(s.generation),
    ensures
        resolved(next, h) == Err::<Seq<usize>, DomErrorModel>(DomErrorModel::StaleHandle),
{
}

} // verus!
