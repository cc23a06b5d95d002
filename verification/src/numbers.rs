//! The numbers of the nodes of an editable tree.

use vstd::prelude::*;

use crate::changes::{inserted, removed, reordered, replaced};
use crate::dom::{NodeModel, XmlNodeKind};
use crate::tree::{
    copied, copied_all, has_path, node_at, node_count, nodes_count, occurrences, occurrences_among,
    path_among, path_to, planted, planted_all, settled, settled_all, size, sizes, updated, Reading,
    TreeModel,
};

verus! {

/// How many of the nodes have a number.
pub open spec fn occurrences_in(n: Seq<TreeModel>, id: u64) -> nat {
    occurrences_among(n, n.len() as int, id)
}

/// Only the trees that are counted matter.
pub proof fn lemma_occurrences_prefix(a: Seq<TreeModel>, b: Seq<TreeModel>, k: int, id: u64)
    requires
        0 <= k <= a.len(),
        k <= b.len(),
        forall|i: int| 0 <= i < k ==> a[i] == b[i],
    ensures
        occurrences_among(a, k, id) == occurrences_among(b, k, id),
    decreases k,
{
    if k > 0 {
        lemma_occurrences_prefix(a, b, k - 1, id);
    }
}

/// The numbers of two lists are those of the one and those of the other.
pub proof fn lemma_occurrences_concat(a: Seq<TreeModel>, b: Seq<TreeModel>, id: u64)
    ensures
        occurrences_in(a + b, id) == occurrences_in(a, id) + occurrences_in(b, id),
    decreases b.len(),
{
    if b.len() == 0 {
        assert(a + b =~= a);
    } else {
        let c = b.drop_last();
        lemma_occurrences_concat(a, c, id);
        lemma_occurrences_prefix(a + b, a + c, (a + c).len() as int, id);
        lemma_occurrences_prefix(b, c, c.len() as int, id);
        assert((a + b)[(a + b).len() - 1] == b.last());
    }
}

/// A list of one tree has its numbers.
pub proof fn lemma_occurrences_single(t: TreeModel, id: u64)
    ensures
        occurrences_in(seq![t], id) == occurrences(t, id),
{
    let n = seq![t];
    assert(occurrences_among(n, 0, id) == 0);
    assert(occurrences_among(n, 1, id) == occurrences_among(n, 0, id) + occurrences(n[0], id));
}

/// The numbers of a list are those of its parts.
pub proof fn lemma_occurrences_split(n: Seq<TreeModel>, k: int, id: u64)
    requires
        0 <= k <= n.len(),
    ensures
        occurrences_in(n, id) == occurrences_in(n.subrange(0, k), id) + occurrences_in(
            n.subrange(k, n.len() as int),
            id,
        ),
{
    assert(n =~= n.subrange(0, k) + n.subrange(k, n.len() as int));
    lemma_occurrences_concat(n.subrange(0, k), n.subrange(k, n.len() as int), id);
}

/// The numbers of a list without one of its trees.
pub proof fn lemma_occurrences_remove(n: Seq<TreeModel>, k: int, id: u64)
    requires
        0 <= k < n.len(),
    ensures
        occurrences_in(n.remove(k), id) + occurrences(n[k], id) == occurrences_in(n, id),
{
    let a = n.subrange(0, k);
    let b = n.subrange(k + 1, n.len() as int);
    assert(n =~= a + seq![n[k]] + b);
    assert(n.remove(k) =~= a + b);
    lemma_occurrences_concat(a, b, id);
    lemma_occurrences_concat(a, seq![n[k]], id);
    lemma_occurrences_concat(a + seq![n[k]], b, id);
    lemma_occurrences_single(n[k], id);
}

/// The numbers of a list with another tree in it.
pub proof fn lemma_occurrences_insert(n: Seq<TreeModel>, k: int, m: Seq<TreeModel>, id: u64)
    requires
        0 <= k <= n.len(),
    ensures
        occurrences_in(n.subrange(0, k) + m + n.subrange(k, n.len() as int), id) == occurrences_in(
            n,
            id,
        ) + occurrences_in(m, id),
{
    let a = n.subrange(0, k);
    let b = n.subrange(k, n.len() as int);
    lemma_occurrences_split(n, k, id);
    lemma_occurrences_concat(a, m, id);
    lemma_occurrences_concat(a + m, b, id);
}

/// The numbers of a list with a tree in place of another one.
pub proof fn lemma_occurrences_update(n: Seq<TreeModel>, k: int, x: TreeModel, id: u64)
    requires
        0 <= k < n.len(),
    ensures
        occurrences_in(n.update(k, x), id) + occurrences(n[k], id) == occurrences_in(n, id)
            + occurrences(x, id),
{
    let m = n.update(k, x);
    lemma_occurrences_remove(n, k, id);
    lemma_occurrences_remove(m, k, id);
    assert(m.remove(k) =~= n.remove(k));
}

/// The numbers of a tree with a node in place of another one.
pub proof fn lemma_occurrences_updated(t: TreeModel, p: Seq<usize>, x: TreeModel, id: u64)
    requires
        has_path(t, p),
    ensures
        occurrences(updated(t, p, x), id) + occurrences(node_at(t, p), id) == occurrences(t, id)
            + occurrences(x, id),
        occurrences(node_at(t, p), id) <= occurrences(t, id),
    decreases p.len(),
{
    if p.len() > 0 {
        let k = p[0] as int;
        let c = t.children[k];
        lemma_occurrences_updated(c, p.skip(1), x, id);
        lemma_occurrences_update(t.children, k, updated(c, p.skip(1), x), id);
        lemma_occurrences_remove(t.children, k, id);
        assert(updated(t, p, x).children == t.children.update(k, updated(c, p.skip(1), x)));
    }
}

/// The numbers of a node with more children.
pub proof fn lemma_occurrences_inserted(t: TreeModel, k: int, n: Seq<TreeModel>, id: u64)
    requires
        0 <= k <= t.children.len(),
    ensures
        occurrences(inserted(t, k, n), id) == occurrences(t, id) + occurrences_in(n, id),
{
    lemma_occurrences_insert(t.children, k, n, id);
}

/// The numbers of a node without a child.
pub proof fn lemma_occurrences_removed(t: TreeModel, k: int, id: u64)
    requires
        0 <= k < t.children.len(),
    ensures
        occurrences(removed(t, k), id) + occurrences(t.children[k], id) == occurrences(t, id),
{
    lemma_occurrences_remove(t.children, k, id);
}

/// The numbers of a node with another child.
pub proof fn lemma_occurrences_replaced(t: TreeModel, k: int, x: TreeModel, id: u64)
    requires
        0 <= k < t.children.len(),
    ensures
        occurrences(replaced(t, k, x), id) + occurrences(t.children[k], id) == occurrences(t, id)
            + occurrences(x, id),
{
    lemma_occurrences_update(t.children, k, x, id);
}

/// The numbers of a node with its children in another order.
pub proof fn lemma_occurrences_reordered(t: TreeModel, k: int, index: int, id: u64)
    requires
        0 <= k < t.children.len(),
        0 <= index <= t.children.len(),
    ensures
        occurrences(reordered(t, k, index), id) == occurrences(t, id),
{
    let j = if k < index {
        index - 1
    } else {
        index
    };
    let rest = t.children.remove(k);
    let x = t.children[k];
    lemma_occurrences_remove(t.children, k, id);
    lemma_occurrences_insert(rest, j, seq![x], id);
    lemma_occurrences_single(x, id);
    assert(rest.insert(j, x) =~= rest.subrange(0, j) + seq![x] + rest.subrange(
        j,
        rest.len() as int,
    ));
}

/// New nodes have the numbers from `first` on.
pub proof fn lemma_planted_numbers(n: NodeModel, first: int, id: u64)
    requires
        0 <= first,
        first + node_count(n) <= u64::MAX,
    ensures
        occurrences(planted(n, first), id) == (if first <= id < first + node_count(n) {
            1nat
        } else {
            0nat
        }),
    decreases n, 0int,
{
    match n {
        NodeModel::Element(e) => {
            lemma_planted_all_numbers(e.children, e.children.len() as int, first + 1, id);
            lemma_planted_all_len(e.children, e.children.len() as int, first + 1);
        },
        _ => {},
    }
}

/// There is one new tree for each node.
pub proof fn lemma_planted_all_len(n: Seq<NodeModel>, k: int, first: int)
    requires
        0 <= k <= n.len(),
    ensures
        planted_all(n, k, first).len() == k,
        forall|i: int|
            0 <= i < k ==> #[trigger] planted_all(n, k, first)[i] == planted(
                n[i],
                first + nodes_count(n, i),
            ),
    decreases k,
{
    if k > 0 {
        lemma_planted_all_len(n, k - 1, first);
    }
}

/// New nodes have the numbers from `first` on.
pub proof fn lemma_planted_all_numbers(n: Seq<NodeModel>, k: int, first: int, id: u64)
    requires
        0 <= first,
        0 <= k <= n.len(),
        first + nodes_count(n, k) <= u64::MAX,
    ensures
        occurrences_in(planted_all(n, k, first), id) == (if first <= id < first + nodes_count(
            n,
            k,
        ) {
            1nat
        } else {
            0nat
        }),
    decreases n, k,
{
    if k > 0 {
        lemma_planted_all_numbers(n, k - 1, first, id);
        lemma_planted_numbers(n[k - 1], first + nodes_count(n, k - 1), id);
        let a = planted_all(n, k - 1, first);
        let x = planted(n[k - 1], first + nodes_count(n, k - 1));
        assert(planted_all(n, k, first) =~= a + seq![x]);
        lemma_occurrences_concat(a, seq![x], id);
        lemma_occurrences_single(x, id);
    }
}

/// Copies have the numbers from `first` on.
pub proof fn lemma_copied_numbers(t: TreeModel, first: int, id: u64)
    requires
        0 <= first,
        first + size(t) <= u64::MAX,
    ensures
        occurrences(copied(t, first), id) == (if first <= id < first + size(t) {
            1nat
        } else {
            0nat
        }),
    decreases t, 0int,
{
    lemma_copied_all_numbers(t.children, t.children.len() as int, first + 1, id);
    lemma_copied_all_len(t.children, t.children.len() as int, first + 1);
}

/// There is one copy for each tree.
pub proof fn lemma_copied_all_len(n: Seq<TreeModel>, k: int, first: int)
    requires
        0 <= k <= n.len(),
    ensures
        copied_all(n, k, first).len() == k,
        forall|i: int|
            0 <= i < k ==> #[trigger] copied_all(n, k, first)[i] == copied(
                n[i],
                first + sizes(n, i),
            ),
    decreases k,
{
    if k > 0 {
        lemma_copied_all_len(n, k - 1, first);
    }
}

/// Copies have the numbers from `first` on.
pub proof fn lemma_copied_all_numbers(n: Seq<TreeModel>, k: int, first: int, id: u64)
    requires
        0 <= first,
        0 <= k <= n.len(),
        first + sizes(n, k) <= u64::MAX,
    ensures
        occurrences_in(copied_all(n, k, first), id) == (if first <= id < first + sizes(n, k) {
            1nat
        } else {
            0nat
        }),
    decreases n, k,
{
    if k > 0 {
        lemma_copied_all_numbers(n, k - 1, first, id);
        lemma_copied_numbers(n[k - 1], first + sizes(n, k - 1), id);
        let a = copied_all(n, k - 1, first);
        let x = copied(n[k - 1], first + sizes(n, k - 1));
        assert(copied_all(n, k, first) =~= a + seq![x]);
        lemma_occurrences_concat(a, seq![x], id);
        lemma_occurrences_single(x, id);
    }
}

/// A number that a tree does not have is not found.
pub proof fn lemma_absent(t: TreeModel, id: u64)
    requires
        occurrences(t, id) == 0,
    ensures
        path_to(t, id) is None,
    decreases t, 0int,
{
    lemma_absent_among(t.children, 0, id);
}

/// A number that no tree from `k` on has is not found there.
pub proof fn lemma_absent_among(n: Seq<TreeModel>, k: int, id: u64)
    requires
        0 <= k,
        occurrences_in(n, id) == 0,
    ensures
        path_among(n, k, id) is None,
    decreases n, n.len() - k,
{
    if k < n.len() {
        lemma_occurrences_remove(n, k, id);
        lemma_absent(n[k], id);
        lemma_absent_among(n, k + 1, id);
    }
}

/// A node counts for its number.
pub proof fn lemma_present(t: TreeModel, p: Seq<usize>)
    requires
        has_path(t, p),
    ensures
        occurrences(t, node_at(t, p).id) >= 1,
    decreases p.len(),
{
    if p.len() > 0 {
        let k = p[0] as int;
        lemma_present(t.children[k], p.skip(1));
        lemma_occurrences_remove(t.children, k, node_at(t, p).id);
    }
}

/// Where every number is given once, a number is found where it stands.
pub proof fn lemma_found(t: TreeModel, p: Seq<usize>)
    requires
        has_path(t, p),
        occurrences(t, node_at(t, p).id) <= 1,
    ensures
        path_to(t, node_at(t, p).id) == Some(p),
    decreases p.len(),
{
    let id = node_at(t, p).id;
    if p.len() == 0 {
        assert(p =~= Seq::<usize>::empty());
    } else {
        let k = p[0] as int;
        lemma_present(t.children[k], p.skip(1));
        lemma_occurrences_remove(t.children, k, id);
        lemma_found(t.children[k], p.skip(1));
        lemma_found_among(t.children, 0, p, id);
    }
}

/// A number is found in the tree that has it.
proof fn lemma_found_among(n: Seq<TreeModel>, j: int, p: Seq<usize>, id: u64)
    requires
        p.len() > 0,
        0 <= j <= p[0] < n.len(),
        path_to(n[p[0] as int], id) == Some(p.skip(1)),
        occurrences(n[p[0] as int], id) >= 1,
        occurrences_in(n, id) <= 1,
    ensures
        path_among(n, j, id) == Some(p),
    decreases p[0] - j,
{
    let k = p[0] as int;
    if j < k {
        lemma_occurrences_remove(n, k, id);
        lemma_occurrences_remove(n.remove(k), j, id);
        assert(n.remove(k)[j] == n[j]);
        lemma_absent(n[j], id);
        lemma_found_among(n, j + 1, p, id);
    } else {
        assert(seq![k as usize] + p.skip(1) =~= p);
    }
}

/// Each tree whose values are read has its place.
pub proof fn lemma_settled_all_len(n: Seq<TreeModel>, k: int, r: Reading)
    requires
        0 <= k <= n.len(),
    ensures
        settled_all(n, k, r).len() == k,
        forall|i: int| 0 <= i < k ==> #[trigger] settled_all(n, k, r)[i] == settled(n[i], r),
    decreases k,
{
    if k > 0 {
        lemma_settled_all_len(n, k - 1, r);
    }
}

/// A tree keeps its numbers when its values are read.
pub proof fn lemma_settled_numbers(t: TreeModel, r: Reading, id: u64)
    ensures
        occurrences(settled(t, r), id) == occurrences(t, id),
    decreases t, 0int,
{
    if t.kind == XmlNodeKind::Element {
        lemma_settled_all_len(t.children, t.children.len() as int, r);
        lemma_settled_all_numbers(t.children, t.children.len() as int, r, id);
    }
}

/// Trees keep their numbers when their values are read.
proof fn lemma_settled_all_numbers(n: Seq<TreeModel>, k: int, r: Reading, id: u64)
    requires
        0 <= k <= n.len(),
    ensures
        occurrences_among(settled_all(n, n.len() as int, r), k, id) == occurrences_among(n, k, id),
    decreases n, k,
{
    lemma_settled_all_len(n, n.len() as int, r);
    if k > 0 {
        lemma_settled_all_numbers(n, k - 1, r, id);
        lemma_settled_numbers(n[k - 1], r, id);
    }
}

} // verus!
