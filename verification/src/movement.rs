//! Where a moved node stands, and what an element holds when its content is set.

use vstd::prelude::*;

use crate::changes::{
    changed, inserted, marked, node_moved, passes, pruned, removed, reordered, shifted,
    transplanted,
};
use crate::dom::{ElementModel, NodeModel, XmlNodeKind};
use crate::error::ErrorModel;
use crate::facade::{handle_of, resolved, target, StateModel};
use crate::following::{lemma_settled_snapshot, lemma_target_found, lemma_updated_below, moved_on};
use crate::frames::{lemma_apart_from_inserted, lemma_apart_from_removed, lemma_found_at};
use crate::handle::{DomErrorModel, HandleModel};
use crate::laws::{lemma_node_moved_wf, lemma_pruned_wf, wf};
use crate::mutation::MutationModel;
use crate::placement::{
    child_of, content, holding, lemma_child_is_held, lemma_child_is_removed, lemma_children_set,
    lemma_element_means, lemma_led, lemma_put,
};
use crate::tree::{
    has_path, lemma_path_parent, node_at, pristine, settled, snapshot, updated, TreeModel,
};

verus! {

/// A node that is moved among its siblings stands where it was asked to stand: before the sibling
/// that had the index, or at the end. The others keep their order.
pub proof fn lemma_moved_among_siblings(
    s: StateModel,
    h: HandleModel,
    g: HandleModel,
    k: int,
    index: usize,
    e: ElementModel,
)
    requires
        wf(s),
        child_of(s, h, g, k),
        content(s, g) == Some(NodeModel::Element(e)),
        index <= e.children.len(),
    ensures
        ({
            let (next, r) = node_moved(s, h, g, index);
            &&& r == Ok::<HandleModel, DomErrorModel>(handle_of(s, h.local))
            &&& content(next, g) == holding(
                e,
                if k < index {
                    e.children.subrange(0, k) + e.children.subrange(k + 1, index as int) + seq![
                        e.children[k],
                    ] + e.children.subrange(index as int, e.children.len() as int)
                } else {
                    e.children.subrange(0, index as int) + seq![e.children[k]]
                        + e.children.subrange(index as int, k) + e.children.subrange(
                        k + 1,
                        e.children.len() as int,
                    )
                },
            )
        }),
{
    let q = resolved(s, h)->Ok_0;
    let p = resolved(s, g)->Ok_0;
    let r = s.reading;
    lemma_child_is_held(s, h, g, k);
    lemma_led(s, g);
    lemma_led(s, h);
    assert(q.drop_last() =~= p);
    let t = node_at(s.root, p);
    lemma_element_means(t, r, e);
    lemma_node_moved_wf(s, h, g, index);
    let x = reordered(t, k, index as int);
    let j = if k < index {
        index - 1
    } else {
        index as int
    };
    let v = e.children.remove(k).insert(j, e.children[k]);
    assert forall|i: int| 0 <= i < x.children.len() implies snapshot(#[trigger] x.children[i], r)
        == Ok::<NodeModel, ErrorModel>(v[i]) by {
        let m = if i == j {
            k
        } else if i < j {
            if i < k {
                i
            } else {
                i + 1
            }
        } else {
            if i - 1 < k {
                i - 1
            } else {
                i
            }
        };
        assert(x.children[i] == t.children[m]);
        assert(v[i] == e.children[m]);
    }
    lemma_children_set(s, node_moved(s, h, g, index).0, g, x, e, v);
    let n = e.children.len() as int;
    if k < index {
        assert(v =~= e.children.subrange(0, k) + e.children.subrange(k + 1, index as int) + seq![
            e.children[k],
        ] + e.children.subrange(index as int, n));
    } else {
        assert(v =~= e.children.subrange(0, index as int) + seq![e.children[k]]
            + e.children.subrange(index as int, k) + e.children.subrange(k + 1, n));
    }
}

/// A node that is moved to another element becomes its child at the index, and is what it was. The
/// element that it leaves loses it, the element that it comes to gains it, and the other children
/// of both keep their order; where one of the two elements holds the other, this is said of the
/// inner one.
pub proof fn lemma_moved_to_another_element(
    s: StateModel,
    h: HandleModel,
    g: HandleModel,
    k: int,
    destination: HandleModel,
    index: usize,
    e: ElementModel,
    d: ElementModel,
)
    requires
        wf(s),
        child_of(s, h, g, k),
        content(s, g) == Some(NodeModel::Element(e)),
        content(s, destination) == Some(NodeModel::Element(d)),
        resolved(s, destination) != resolved(s, g),
        !passes(resolved(s, destination)->Ok_0, resolved(s, h)->Ok_0),
        index <= d.children.len(),
        d.children.len() < usize::MAX,
    ensures
        ({
            let (next, r) = node_moved(s, h, destination, index);
            &&& r == Ok::<HandleModel, DomErrorModel>(handle_of(s, h.local))
            &&& content(next, h) == Some(e.children[k])
            &&& child_of(next, h, destination, index as int)
            &&& !passes(resolved(s, h)->Ok_0, resolved(s, destination)->Ok_0) ==> content(
                next,
                destination,
            ) == holding(d, d.children.insert(index as int, e.children[k]))
            &&& !passes(resolved(s, destination)->Ok_0, resolved(s, g)->Ok_0) ==> content(next, g)
                == holding(e, e.children.remove(k))
        }),
{
    let p = resolved(s, h)->Ok_0;
    let a = resolved(s, g)->Ok_0;
    let q = resolved(s, destination)->Ok_0;
    lemma_transplant(s, h, g, k, destination, index, e, d);
    if !passes(p, q) {
        lemma_gained(s, h, g, k, destination, index, e, d);
    }
    if !passes(q, a) {
        lemma_lost(s, h, g, k, destination, index, e, d);
    }
}

/// The node that is put into another element: as it is, or settled.
spec fn carried(
    s: StateModel,
    h: HandleModel,
    g: HandleModel,
    destination: HandleModel,
) -> TreeModel {
    let y = target(s, h)->Ok_0;
    if pristine(y) && target(s, g)->Ok_0.recorded && target(s, destination)->Ok_0.recorded {
        y
    } else {
        settled(y, s.reading)
    }
}

proof fn lemma_transplant(
    s: StateModel,
    h: HandleModel,
    g: HandleModel,
    k: int,
    destination: HandleModel,
    index: usize,
    e: ElementModel,
    d: ElementModel,
)
    requires
        wf(s),
        child_of(s, h, g, k),
        content(s, g) == Some(NodeModel::Element(e)),
        content(s, destination) == Some(NodeModel::Element(d)),
        resolved(s, destination) != resolved(s, g),
        !passes(resolved(s, destination)->Ok_0, resolved(s, h)->Ok_0),
        index <= d.children.len(),
        d.children.len() < usize::MAX,
    ensures
        ({
            let p = resolved(s, h)->Ok_0;
            let q = resolved(s, destination)->Ok_0;
            let w = shifted(q, p);
            let (next, r) = node_moved(s, h, destination, index);
            let x = carried(s, h, g, destination);
            let u = node_at(pruned(s, p).root, w);
            let z = marked(inserted(u, index as int, seq![x]));
            &&& r == Ok::<HandleModel, DomErrorModel>(handle_of(s, h.local))
            &&& content(next, h) == Some(e.children[k])
            &&& child_of(next, h, destination, index as int)
            &&& wf(next)
            &&& wf(pruned(s, p))
            &&& p.len() > 0
            &&& p.drop_last() == resolved(s, g)->Ok_0
            &&& p.last() == k
            &&& has_path(pruned(s, p).root, w)
            &&& index <= u.children.len()
            &&& u.children.len() < usize::MAX
            &&& next == changed(pruned(s, p), w, z)
            &&& target(next, destination) == Ok::<TreeModel, DomErrorModel>(z)
            &&& snapshot(x, s.reading) == Ok::<NodeModel, ErrorModel>(e.children[k])
        }),
{
    let p = resolved(s, h)->Ok_0;
    let a = resolved(s, g)->Ok_0;
    let q = resolved(s, destination)->Ok_0;
    let r = s.reading;
    lemma_child_is_held(s, h, g, k);
    lemma_led(s, g);
    lemma_led(s, h);
    lemma_led(s, destination);
    assert(p.drop_last() =~= a);
    let t = node_at(s.root, q);
    lemma_element_means(t, r, d);
    lemma_path_parent(s.root, p);
    let y = node_at(s.root, p);
    let x = carried(s, h, g, destination);
    assert(snapshot(y, r) == Ok::<NodeModel, ErrorModel>(e.children[k]));
    lemma_settled_snapshot(y, r);
    let rest = pruned(s, p);
    let w = shifted(q, p);
    let next = node_moved(s, h, destination, index).0;
    assert(next == transplanted(s, p, q, index as int, x));
    lemma_node_moved_wf(s, h, destination, index);
    lemma_pruned_wf(s, p);
    crate::changes::lemma_shifted(s.root, p, q);
    let u = node_at(rest.root, w);
    let z = marked(inserted(u, index as int, seq![x]));
    lemma_target_found(rest, destination, w);
    lemma_put(rest, next, destination, w, z);
    let at = seq![index];
    assert(at.skip(1) =~= Seq::<usize>::empty());
    assert(z.children[index as int] == x);
    assert(has_path(x, at.skip(1)));
    assert(node_at(x, at.skip(1)) == x);
    assert(has_path(z, at) && node_at(z, at) == x);
    lemma_updated_below(rest.root, w, z, at);
    assert(w + at =~= w.push(index));
    lemma_target_found(next, h, w.push(index));
}

proof fn lemma_gained(
    s: StateModel,
    h: HandleModel,
    g: HandleModel,
    k: int,
    destination: HandleModel,
    index: usize,
    e: ElementModel,
    d: ElementModel,
)
    requires
        wf(s),
        child_of(s, h, g, k),
        content(s, g) == Some(NodeModel::Element(e)),
        content(s, destination) == Some(NodeModel::Element(d)),
        resolved(s, destination) != resolved(s, g),
        !passes(resolved(s, destination)->Ok_0, resolved(s, h)->Ok_0),
        !passes(resolved(s, h)->Ok_0, resolved(s, destination)->Ok_0),
        index <= d.children.len(),
        d.children.len() < usize::MAX,
    ensures
        content(node_moved(s, h, destination, index).0, destination) == holding(
            d,
            d.children.insert(index as int, e.children[k]),
        ),
{
    let p = resolved(s, h)->Ok_0;
    let a = resolved(s, g)->Ok_0;
    let q = resolved(s, destination)->Ok_0;
    let r = s.reading;
    lemma_transplant(s, h, g, k, destination, index, e, d);
    lemma_led(s, h);
    lemma_led(s, destination);
    let t = node_at(s.root, q);
    lemma_element_means(t, r, d);
    if passes(a, q) {
        assert(p.take(q.len() as int) =~= q) by {
            assert(a.take(q.len() as int) =~= p.take(q.len() as int));
        }
    }
    lemma_apart_from_removed(s.root, p, q);
    let x = carried(s, h, g, destination);
    let z = marked(inserted(t, index as int, seq![x]));
    let v = d.children.insert(index as int, e.children[k]);
    assert forall|i: int| 0 <= i < z.children.len() implies snapshot(#[trigger] z.children[i], r)
        == Ok::<NodeModel, ErrorModel>(v[i]) by {
        if i < index {
            assert(z.children[i] == t.children[i]);
        } else if i > index {
            assert(z.children[i] == t.children[i - 1]);
        }
    }
    lemma_element_means(z, r, ElementModel { children: v, ..d });
}

proof fn lemma_lost(
    s: StateModel,
    h: HandleModel,
    g: HandleModel,
    k: int,
    destination: HandleModel,
    index: usize,
    e: ElementModel,
    d: ElementModel,
)
    requires
        wf(s),
        child_of(s, h, g, k),
        content(s, g) == Some(NodeModel::Element(e)),
        content(s, destination) == Some(NodeModel::Element(d)),
        resolved(s, destination) != resolved(s, g),
        !passes(resolved(s, destination)->Ok_0, resolved(s, h)->Ok_0),
        !passes(resolved(s, destination)->Ok_0, resolved(s, g)->Ok_0),
        index <= d.children.len(),
        d.children.len() < usize::MAX,
    ensures
        content(node_moved(s, h, destination, index).0, g) == holding(e, e.children.remove(k)),
{
    let p = resolved(s, h)->Ok_0;
    let a = resolved(s, g)->Ok_0;
    let q = resolved(s, destination)->Ok_0;
    lemma_transplant(s, h, g, k, destination, index, e, d);
    lemma_led(s, g);
    let rest = pruned(s, p);
    let w = shifted(q, p);
    let x = carried(s, h, g, destination);
    let u = node_at(rest.root, w);
    let next = node_moved(s, h, destination, index).0;
    lemma_child_is_removed(s, h, g, k, e);
    lemma_child_is_held(s, h, g, k);
    assert(crate::changes::node_removed(s, h).0 == rest);
    let y = removed(node_at(s.root, a), k);
    lemma_put(s, rest, g, a, y);
    lemma_led(rest, g);
    assert(!passes(w, a)) by {
        if passes(w, a) {
            assert(q.take(a.len() as int) =~= a) by {
                assert(w.take(a.len() as int) =~= a);
                if w != q {
                    assert forall|j: int| 0 <= j < a.len() implies q[j] == w[j] by {}
                }
            }
        }
    }
    lemma_apart_from_inserted(rest.root, w, index as int, seq![x], a);
    let b = moved_on(a, w, index as int, 1);
    if b == w || (w.len() > b.len() && w.take(b.len() as int) == b) {
        assert(b == a || b.len() > w.len());
        assert(w.take(a.len() as int) =~= a);
    }
    lemma_marked_root(rest.root, w, inserted(u, index as int, seq![x]), b);
    lemma_found_at(rest, next, g, b);
}

/// A mark on a node that does not hold another one changes nothing in that.
proof fn lemma_marked_root(t: TreeModel, w: Seq<usize>, x: TreeModel, b: Seq<usize>)
    requires
        has_path(t, w),
        has_path(updated(t, w, x), b),
        b != w,
        !(w.len() > b.len() && w.take(b.len() as int) == b),
    ensures
        has_path(updated(t, w, marked(x)), b),
        node_at(updated(t, w, marked(x)), b) == node_at(updated(t, w, x), b),
    decreases w.len(),
{
    if w.len() == 0 {
        if b.len() == 0 {
            assert(b =~= w);
        }
    } else if b.len() == 0 {
        assert(w.take(0) =~= b);
    } else if b[0] == w[0] {
        let c = w.skip(1);
        let e = b.skip(1);
        if e == c {
            assert(e.len() == c.len());
            assert(b.len() == w.len());
            assert(b =~= w) by {
                assert forall|j: int| 0 <= j < w.len() implies b[j] == w[j] by {
                    if j > 0 {
                        assert(e[j - 1] == c[j - 1]);
                    }
                }
            }
        }
        if c.len() > e.len() && c.take(e.len() as int) == e {
            assert(w.take(b.len() as int) =~= b) by {
                assert forall|j: int| 0 <= j < b.len() implies b[j] == w[j] by {
                    if j > 0 {
                        assert(c.take(e.len() as int)[j - 1] == e[j - 1]);
                    }
                }
            }
        }
        lemma_marked_root(t.children[w[0] as int], c, x, e);
    }
}

/// What no move does: the root is not moved, no node is moved into itself or below itself, to a
/// node that is not an element, or behind the end of the children.
pub proof fn lemma_refused_moves(
    s: StateModel,
    h: HandleModel,
    destination: HandleModel,
    index: usize,
)
    requires
        resolved(s, h) is Ok,
        resolved(s, destination) is Ok,
    ensures
        ({
            let p = resolved(s, h)->Ok_0;
            let q = resolved(s, destination)->Ok_0;
            let t = node_at(s.root, q);
            let r = node_moved(s, h, destination, index).1;
            &&& p.len() == 0 ==> r == Err::<HandleModel, DomErrorModel>(
                DomErrorModel::Mutation(MutationModel::RootHasNoSiblings),
            )
            &&& p.len() > 0 && passes(q, p) ==> r == Err::<HandleModel, DomErrorModel>(
                DomErrorModel::Mutation(MutationModel::MoveIntoDescendant),
            )
            &&& p.len() > 0 && !passes(q, p) && t.kind != XmlNodeKind::Element && p.drop_last() != q
                ==> r == Err::<HandleModel, DomErrorModel>(
                DomErrorModel::Mutation(MutationModel::DestinationNotElement),
            )
            &&& p.len() > 0 && !passes(q, p) && (t.kind == XmlNodeKind::Element || p.drop_last()
                == q) && index > t.children.len() ==> r == Err::<HandleModel, DomErrorModel>(
                DomErrorModel::Mutation(
                    MutationModel::IndexOutOfBounds {
                        index: index as int,
                        len: t.children.len() as int,
                    },
                ),
            )
        }),
{
    let p = resolved(s, h)->Ok_0;
    let q = resolved(s, destination)->Ok_0;
    if p.len() > 0 && p.drop_last() == q {
        assert(q.len() < p.len());
    }
}

/// A way passes a node if it goes on from there, by any number of steps or by none.
pub proof fn lemma_ways_that_pass(p: Seq<usize>, q: Seq<usize>, r: Seq<usize>)
    ensures
        passes(p + r, p),
        passes(q, p) ==> q == p + q.skip(p.len() as int),
        p.len() > 0 && q.len() > 0 && p[0] != q[0] ==> !passes(q, p),
        q.len() < p.len() ==> !passes(q, p),
{
    assert((p + r).take(p.len() as int) =~= p);
    if passes(q, p) {
        assert(q =~= p + q.skip(p.len() as int));
        if p.len() > 0 {
            assert(q.take(p.len() as int)[0] == q[0]);
        }
    }
}

/// Nothing can be moved into itself or into a child of its own.
pub proof fn lemma_not_into_itself(
    s: StateModel,
    h: HandleModel,
    g: HandleModel,
    k: int,
    d: HandleModel,
    j: int,
    index: usize,
)
    requires
        child_of(s, h, g, k),
        child_of(s, d, h, j),
    ensures
        node_moved(s, h, h, index).1 == Err::<HandleModel, DomErrorModel>(
            DomErrorModel::Mutation(MutationModel::MoveIntoDescendant),
        ),
        node_moved(s, h, d, index).1 == Err::<HandleModel, DomErrorModel>(
            DomErrorModel::Mutation(MutationModel::MoveIntoDescendant),
        ),
        node_moved(s, h, d, index).0 == s,
{
    let p = resolved(s, h)->Ok_0;
    let q = resolved(s, d)->Ok_0;
    lemma_ways_that_pass(p, q, Seq::empty());
    lemma_ways_that_pass(p, q, seq![j as usize]);
    assert(p + Seq::<usize>::empty() =~= p);
    assert(p + seq![j as usize] =~= q);
    lemma_refused_moves(s, h, h, index);
    lemma_refused_moves(s, h, d, index);
}

} // verus!
