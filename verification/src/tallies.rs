//! The editable form of a document counts what the compact form counts.

use vstd::prelude::*;

use crate::document::DocumentModel;
use crate::dom::{XmlNodeKind, XmlTreeStats};
use crate::facade::{attribute_count, attribute_counts, element_count, element_counts, stats_of};
use crate::flat::{child_place, lemma_tree_len, tree_nodes, trees_nodes, well_built};
use crate::grammar::{flat_tree, flat_trees, tree_attributes, trees_attributes, FlatModel, RawTree};
use crate::growth::{grown, grown_all, lemma_grown_all};
use crate::tables::{counts, elements_before};
use crate::tree::{size, sizes};

verus! {

/// The elements of two lists together.
proof fn lemma_elements_join(a: Seq<FlatModel>, b: Seq<FlatModel>, k: int)
    requires
        0 <= k <= b.len(),
    ensures
        elements_before(a + b, a.len() + k) == elements_before(a, a.len() as int)
            + elements_before(b, k),
    decreases k,
{
    if k == 0 {
        lemma_elements_prefix(a, b, a.len() as int);
    } else {
        lemma_elements_join(a, b, k - 1);
        assert((a + b)[a.len() + k - 1] == b[k - 1]);
    }
}

/// The elements of the first part of a list.
proof fn lemma_elements_prefix(a: Seq<FlatModel>, b: Seq<FlatModel>, k: int)
    requires
        0 <= k <= a.len(),
    ensures
        elements_before(a + b, k) == elements_before(a, k),
    decreases k,
{
    if k > 0 {
        lemma_elements_prefix(a, b, k - 1);
        assert((a + b)[k - 1] == a[k - 1]);
    }
}

/// The editable form of a tree has as many nodes, elements and attributes as the tree.
pub proof fn lemma_grown_tally(s: Seq<char>, t: RawTree, at: int, x: int, y: int, room: int)
    requires
        well_built(t, room),
    ensures
        size(grown(s, t, at)) == tree_nodes(t),
        element_count(grown(s, t, at)) == elements_before(
            flat_tree(t, x, y),
            flat_tree(t, x, y).len() as int,
        ),
        attribute_count(grown(s, t, at)) == tree_attributes(t).len(),
    decreases t, 0int,
{
    let g = grown(s, t, at);
    match t {
        RawTree::Element { span, name, attributes, children } => {
            assert(decreases_to!(t => children));
            let n = children.len() as int;
            let below = flat_trees(children, x + 1, y + attributes.len());
            lemma_grown_all(s, children, n, at);
            lemma_grown_all_tally(s, children, n, at, x + 1, y + attributes.len(), room - 1);
            assert(children.take(n) =~= children);
            let head = FlatModel {
                kind: XmlNodeKind::Element,
                span,
                primary: name,
                secondary: (y, y + attributes.len()),
                next: x + 1 + below.len(),
            };
            lemma_elements_join(seq![head], below, below.len() as int);
            assert(elements_before(seq![head], 0) == 0);
            assert(elements_before(seq![head], 1) == 1);
            assert(flat_tree(t, x, y) == seq![head] + below);
        },
        RawTree::Leaf { span, kind, primary, secondary } => {
            let f = flat_tree(t, x, y);
            assert(f.len() == 1);
            assert(elements_before(f, 0) == 0);
            assert(f[0].kind == kind);
            assert(elements_before(f, 1) == 0);
            assert(element_counts(g.children, 0) == 0);
            assert(attribute_counts(g.children, 0) == 0);
            assert(sizes(g.children, 0) == 0);
        },
    }
}

/// The editable forms of trees have as many nodes, elements and attributes as the trees.
proof fn lemma_grown_all_tally(
    s: Seq<char>,
    ts: Seq<RawTree>,
    k: int,
    at: int,
    x: int,
    y: int,
    room: int,
)
    requires
        0 <= k <= ts.len(),
        forall|j: int| 0 <= j < ts.len() ==> well_built(#[trigger] ts[j], room),
    ensures
        ({
            let g = grown_all(s, ts, ts.len() as int, at);
            let f = flat_trees(ts.take(k), x, y);
            &&& sizes(g, k) == trees_nodes(ts.take(k))
            &&& element_counts(g, k) == elements_before(f, f.len() as int)
            &&& attribute_counts(g, k) == trees_attributes(ts.take(k)).len()
        }),
    decreases ts, k,
{
    let g = grown_all(s, ts, ts.len() as int, at);
    lemma_grown_all(s, ts, ts.len() as int, at);
    if k > 0 {
        lemma_grown_all_tally(s, ts, k - 1, at, x, y, room);
        let a = ts.take(k);
        assert(a.drop_last() =~= ts.take(k - 1));
        assert(a.last() == ts[k - 1]);
        assert(g[k - 1] == grown(s, ts[k - 1], child_place(ts, at, k - 1)));
        let before = flat_trees(a.drop_last(), x, y);
        let p = x + before.len();
        let q = y + trees_attributes(a.drop_last()).len();
        lemma_grown_tally(s, ts[k - 1], child_place(ts, at, k - 1), p, q, room);
        let last = flat_tree(ts[k - 1], p, q);
        lemma_elements_join(before, last, last.len() as int);
    }
}

/// A document counts the same nodes, elements and attributes in its compact form and in its
/// editable form.
pub proof fn lemma_same_counts(m: DocumentModel, stats: XmlTreeStats, room: int)
    requires
        well_built(m.root, room),
        counts(m, stats),
    ensures
        stats_of(grown(m.text, m.root, 0)) == stats,
{
    lemma_grown_tally(m.text, m.root, 0, 0, 0, room);
    lemma_tree_len(m.root, 0, 0);
}

} // verus!
