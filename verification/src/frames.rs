//! What a change leaves as it was: every node that does not hold the place of the change.

use vstd::prelude::*;

use crate::changes::{
    attribute_inserted, attribute_removed, attribute_replaced, attribute_set, inserted,
    node_removed, node_renamed, nodes_added, passes, removed, shifted, value_set,
};
use crate::dom::NodeModel;
use crate::facade::{resolved, target, StateModel};
use crate::following::{lemma_path_split, lemma_target_found, lemma_updated_below, moved_on};
use crate::handle::{DomErrorModel, HandleModel};
use crate::laws::{lemma_heads_changed_wf, lemma_node_removed_wf, lemma_nodes_added_wf, wf};
use crate::numbers::lemma_planted_all_len;
use crate::placement::{content, lemma_led};
use crate::tree::{has_path, lemma_path_parent, node_at, planted_all, updated, TreeModel};

verus! {

/// A node that neither holds the place of a change nor stands below it is the same afterwards.
pub proof fn lemma_apart(t: TreeModel, p: Seq<usize>, x: TreeModel, q: Seq<usize>)
    requires
        has_path(t, p),
        has_path(t, q),
        !passes(q, p),
        !passes(p, q),
    ensures
        has_path(updated(t, p, x), q),
        node_at(updated(t, p, x), q) == node_at(t, q),
    decreases p.len(),
{
    if p.len() == 0 {
        assert(q.take(0) =~= p);
    } else if q.len() == 0 {
        assert(p.take(0) =~= q);
    } else if p[0] == q[0] {
        let a = p.skip(1);
        let b = q.skip(1);
        if passes(b, a) {
            assert(q.take(p.len() as int) =~= p) by {
                assert forall|j: int| 0 <= j < p.len() implies q[j] == p[j] by {
                    if j > 0 {
                        assert(b.take(a.len() as int)[j - 1] == a[j - 1]);
                    }
                }
            }
        }
        if passes(a, b) {
            assert(p.take(q.len() as int) =~= q) by {
                assert forall|j: int| 0 <= j < q.len() implies q[j] == p[j] by {
                    if j > 0 {
                        assert(a.take(b.len() as int)[j - 1] == b[j - 1]);
                    }
                }
            }
        }
        lemma_apart(t.children[p[0] as int], a, x, b);
    }
}

/// A node that does not hold the parent of a removed node is the same afterwards.
pub proof fn lemma_apart_from_removed(t: TreeModel, p: Seq<usize>, q: Seq<usize>)
    requires
        p.len() > 0,
        has_path(t, p),
        has_path(t, q),
        !passes(q, p),
        !passes(p.drop_last(), q),
    ensures
        ({
            let up = p.drop_last();
            let rest = updated(t, up, removed(node_at(t, up), p.last() as int));
            &&& has_path(rest, shifted(q, p))
            &&& node_at(rest, shifted(q, p)) == node_at(t, q)
        }),
{
    let up = p.drop_last();
    let i = up.len() as int;
    let k = p.last();
    lemma_path_parent(t, p);
    let x = node_at(t, up);
    let y = removed(x, k as int);
    let d = shifted(q, p);
    if passes(q, up) {
        let r = q.skip(i);
        assert(q =~= up + r);
        if r.len() == 0 {
            assert(q =~= up);
            assert(up.take(q.len() as int) =~= q);
        }
        if r[0] == k {
            assert(q.take(p.len() as int) =~= p) by {
                assert forall|j: int| 0 <= j < p.len() implies q[j] == p[j] by {
                    if j < i {
                        assert(q.take(i)[j] == up[j]);
                    } else {
                        assert(q[i] == r[0]);
                    }
                }
            }
        }
        lemma_path_split(t, up, r);
        assert(r[0] == q[i]);
        let e = if q[i] > k {
            r.update(0, (q[i] - 1) as usize)
        } else {
            r
        };
        assert(d =~= up + e);
        lemma_updated_below(t, up, y, e);
        assert(e.skip(1) =~= r.skip(1));
        assert(y.children[e[0] as int] == x.children[r[0] as int]);
    } else {
        lemma_apart(t, up, y, q);
        if q.len() >= p.len() && q.take(i) == up {
            assert(passes(q, up));
        }
        assert(d == q);
    }
}

/// A node that does not hold the parent of inserted nodes is the same afterwards.
pub proof fn lemma_apart_from_inserted(
    t: TreeModel,
    p: Seq<usize>,
    k: int,
    n: Seq<TreeModel>,
    q: Seq<usize>,
)
    requires
        has_path(t, p),
        has_path(t, q),
        !passes(p, q),
        0 <= k <= node_at(t, p).children.len(),
        node_at(t, p).children.len() + n.len() <= usize::MAX,
    ensures
        ({
            let u = updated(t, p, inserted(node_at(t, p), k, n));
            let d = moved_on(q, p, k, n.len() as int);
            &&& has_path(u, d)
            &&& node_at(u, d) == node_at(t, q)
        }),
{
    let x = node_at(t, p);
    let y = inserted(x, k, n);
    let i = p.len() as int;
    let d = moved_on(q, p, k, n.len() as int);
    if passes(q, p) {
        let r = q.skip(i);
        assert(q =~= p + r);
        if r.len() == 0 {
            assert(q =~= p);
            assert(p.take(q.len() as int) =~= q);
        }
        lemma_path_split(t, p, r);
        assert(r[0] == q[i]);
        let e = if q[i] >= k {
            r.update(0, (q[i] + n.len()) as usize)
        } else {
            r
        };
        assert(d =~= p + e);
        lemma_updated_below(t, p, y, e);
        assert(e.skip(1) =~= r.skip(1));
        assert(y.children[e[0] as int] == x.children[r[0] as int]);
    } else {
        if q.len() > i && q.take(i) == p {
            assert(passes(q, p));
        }
        lemma_apart(t, p, y, q);
    }
}

/// The two documents are one document at two times.
pub open spec fn same_document(s: StateModel, next: StateModel) -> bool {
    &&& next.lineage == s.lineage
    &&& next.document == s.document
    &&& next.generation == s.generation
    &&& next.reading == s.reading
}

/// A handle whose node is found elsewhere refers to it.
pub proof fn lemma_found_at(s: StateModel, next: StateModel, g: HandleModel, d: Seq<usize>)
    requires
        wf(next),
        same_document(s, next),
        resolved(s, g) is Ok,
        has_path(next.root, d),
        node_at(next.root, d) == node_at(s.root, resolved(s, g)->Ok_0),
    ensures
        resolved(next, g) == Ok::<Seq<usize>, DomErrorModel>(d),
        target(next, g) == target(s, g),
        content(next, g) == content(s, g),
{
    lemma_led(s, g);
    lemma_target_found(next, g, d);
}

/// Nodes that are added change nothing in a node that does not hold the element that they are
/// added to: its handle still refers to it, and it is as it was with everything below it.
pub proof fn lemma_added_nodes_leave_others(
    s: StateModel,
    h: HandleModel,
    n: Seq<NodeModel>,
    g: HandleModel,
)
    requires
        wf(s),
        nodes_added(s, h, n).1 is Ok,
        resolved(s, g) is Ok,
        !passes(resolved(s, h)->Ok_0, resolved(s, g)->Ok_0),
    ensures
        target(nodes_added(s, h, n).0, g) == target(s, g),
        content(nodes_added(s, h, n).0, g) == content(s, g),
{
    let p = resolved(s, h)->Ok_0;
    let q = resolved(s, g)->Ok_0;
    let next = nodes_added(s, h, n).0;
    lemma_led(s, h);
    lemma_led(s, g);
    lemma_nodes_added_wf(s, h, n);
    let k = node_at(s.root, p).children.len() as int;
    let m = planted_all(n, n.len() as int, s.next_id as int);
    lemma_planted_all_len(n, n.len() as int, s.next_id as int);
    lemma_apart_from_inserted(s.root, p, k, m, q);
    lemma_found_at(s, next, g, moved_on(q, p, k, n.len() as int));
}

/// A removed node takes nothing else with it: a node that neither stands below it nor holds its
/// parent is as it was.
pub proof fn lemma_removed_node_leaves_others(s: StateModel, h: HandleModel, g: HandleModel)
    requires
        wf(s),
        node_removed(s, h).1 is Ok,
        resolved(s, g) is Ok,
        !passes(resolved(s, g)->Ok_0, resolved(s, h)->Ok_0),
        !passes(resolved(s, h)->Ok_0.drop_last(), resolved(s, g)->Ok_0),
    ensures
        target(node_removed(s, h).0, g) == target(s, g),
        content(node_removed(s, h).0, g) == content(s, g),
{
    let p = resolved(s, h)->Ok_0;
    let q = resolved(s, g)->Ok_0;
    lemma_led(s, h);
    lemma_led(s, g);
    lemma_node_removed_wf(s, h);
    lemma_apart_from_removed(s.root, p, q);
    lemma_found_at(s, node_removed(s, h).0, g, shifted(q, p));
}

/// A change of the name, the value or the attributes of a node changes nothing in a node that does
/// not hold it.
pub proof fn lemma_head_changes_leave_others(
    s: StateModel,
    h: HandleModel,
    g: HandleModel,
    index: usize,
    old_name: Seq<char>,
    name: Seq<char>,
    value: Seq<char>,
)
    requires
        wf(s),
        resolved(s, h) is Ok,
        resolved(s, g) is Ok,
        !passes(resolved(s, h)->Ok_0, resolved(s, g)->Ok_0),
    ensures
        target(node_renamed(s, h, name).0, g) == target(s, g),
        target(value_set(s, h, value).0, g) == target(s, g),
        target(attribute_set(s, h, name, value).0, g) == target(s, g),
        target(attribute_removed(s, h, name).0, g) == target(s, g),
        target(attribute_replaced(s, h, old_name, name, value).0, g) == target(s, g),
        target(attribute_inserted(s, h, index, name, value).0, g) == target(s, g),
{
    lemma_heads_changed_wf(s, h, index, old_name, name, value);
    lemma_led(s, h);
    lemma_led(s, g);
    lemma_head_change(s, h, g, node_renamed(s, h, name).0);
    lemma_head_change(s, h, g, value_set(s, h, value).0);
    lemma_head_change(s, h, g, attribute_set(s, h, name, value).0);
    lemma_head_change(s, h, g, attribute_removed(s, h, name).0);
    lemma_head_change(s, h, g, attribute_replaced(s, h, old_name, name, value).0);
    lemma_head_change(s, h, g, attribute_inserted(s, h, index, name, value).0);
}

proof fn lemma_head_change(s: StateModel, h: HandleModel, g: HandleModel, next: StateModel)
    requires
        wf(next),
        same_document(s, next),
        resolved(s, h) is Ok,
        resolved(s, g) is Ok,
        has_path(s.root, resolved(s, h)->Ok_0),
        has_path(s.root, resolved(s, g)->Ok_0),
        !passes(resolved(s, h)->Ok_0, resolved(s, g)->Ok_0),
        next == s || exists|x: TreeModel|
            next.root == #[trigger] updated(s.root, resolved(s, h)->Ok_0, x) && x.children
                == node_at(s.root, resolved(s, h)->Ok_0).children,
    ensures
        target(next, g) == target(s, g),
{
    let p = resolved(s, h)->Ok_0;
    let q = resolved(s, g)->Ok_0;
    if next != s {
        let x = choose|x: TreeModel|
            next.root == #[trigger] updated(s.root, p, x) && x.children == node_at(
                s.root,
                p,
            ).children;
        if passes(q, p) {
            let r = q.skip(p.len() as int);
            assert(q =~= p + r);
            lemma_path_split(s.root, p, r);
            lemma_updated_below(s.root, p, x, r);
            if r.len() == 0 {
                assert(p.take(q.len() as int) =~= q);
            }
        } else {
            lemma_apart(s.root, p, x, q);
        }
        lemma_found_at(s, next, g, q);
    }
}

} // verus!
