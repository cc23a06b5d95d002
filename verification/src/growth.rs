//! The editable tree of a parsed document.

use vstd::prelude::*;

use crate::dom::{AttributeModel, NodeModel, XmlNodeKind};
use crate::error::ErrorModel;
use crate::flat::{
    attribute_values_from, child_place, materialized, materialized_from, tree_nodes, well_built,
};
use crate::grammar::{RawAttribute, RawTree};
use crate::lexeme::CompactLexemeKind;
use crate::text::byte_offset;
use crate::tree::{
    occurrences, occurrences_among, plain_attributes_from, plain_text, snapshot, snapshots_from,
    Reading, TextModel, TreeAttribute, TreeModel,
};

verus! {

/// The characters `p`, as they are written.
pub open spec fn written(s: Seq<char>, p: (int, int)) -> TextModel {
    TextModel { text: s.subrange(p.0, p.1), raw: true }
}

/// The attributes, as they are written.
pub open spec fn written_attributes(s: Seq<char>, a: Seq<RawAttribute>) -> Seq<TreeAttribute> {
    Seq::new(
        a.len(),
        |i: int|
            TreeAttribute {
                name: s.subrange(a[i].name.0, a[i].name.1),
                value: written(s, a[i].value),
            },
    )
}

/// The editable tree of a tree of positions, its nodes numbered from `at` on in document order.
pub open spec fn grown(s: Seq<char>, t: RawTree, at: int) -> TreeModel
    decreases t, 0int,
{
    match t {
        RawTree::Element { name, attributes, children, .. } => TreeModel {
            id: at as u64,
            origin: Some(byte_offset(s, name.0) as u32),
            kind: XmlNodeKind::Element,
            name: s.subrange(name.0, name.1),
            value: plain_text(Seq::empty()),
            attributes: written_attributes(s, attributes),
            children: grown_all(s, children, children.len() as int, at),
            recorded: true,
            touched: false,
        },
        RawTree::Leaf { kind, primary, secondary, .. } => grown_leaf(
            s,
            kind,
            primary,
            secondary,
            at,
        ),
    }
}

/// The editable form of a leaf.
pub open spec fn grown_leaf(
    s: Seq<char>,
    kind: XmlNodeKind,
    primary: (int, int),
    secondary: (int, int),
    at: int,
) -> TreeModel {
    TreeModel {
        id: at as u64,
        origin: Some(byte_offset(s, primary.0) as u32),
        kind,
        name: if kind == XmlNodeKind::ProcessingInstruction {
            s.subrange(primary.0, primary.1)
        } else {
            Seq::empty()
        },
        value: if kind == XmlNodeKind::ProcessingInstruction {
            written(s, secondary)
        } else {
            written(s, primary)
        },
        attributes: Seq::empty(),
        children: Seq::empty(),
        recorded: true,
        touched: false,
    }
}

/// The editable trees of the first `k` children of an element with the number `at`.
pub open spec fn grown_all(s: Seq<char>, ts: Seq<RawTree>, k: int, at: int) -> Seq<TreeModel>
    decreases ts, k,
{
    if k <= 0 || k > ts.len() {
        Seq::empty()
    } else {
        grown_all(s, ts, k - 1, at).push(grown(s, ts[k - 1], child_place(ts, at, k - 1)))
    }
}

/// There is one editable tree for each tree.
pub proof fn lemma_grown_all(s: Seq<char>, ts: Seq<RawTree>, k: int, at: int)
    requires
        0 <= k <= ts.len(),
    ensures
        grown_all(s, ts, k, at).len() == k,
        forall|j: int|
            0 <= j < k ==> #[trigger] grown_all(s, ts, k, at)[j] == grown(
                s,
                ts[j],
                child_place(ts, at, j),
            ),
    decreases k,
{
    if k > 0 {
        lemma_grown_all(s, ts, k - 1, at);
    }
}

/// Both are the same value, or errors of the same kind.
///
/// An error in a value that is kept as it was written counts from the start of the value in an
/// editable tree, and from the start of the text in a parsed one.
pub open spec fn alike<T>(a: Result<T, ErrorModel>, b: Result<T, ErrorModel>) -> bool {
    match (a, b) {
        (Ok(x), Ok(y)) => x == y,
        (Err(x), Err(y)) => x.kind == y.kind,
        _ => false,
    }
}

/// The attributes of an editable element mean what those of the parsed element mean.
proof fn lemma_written_attributes(
    s: Seq<char>,
    a: Seq<RawAttribute>,
    k: int,
    r: Reading,
    acc: Seq<AttributeModel>,
)
    requires
        0 <= k <= a.len(),
    ensures
        alike(
            plain_attributes_from(written_attributes(s, a), k, r, acc),
            attribute_values_from(s, a, k, r.version, r.policy, acc),
        ),
    decreases a.len() - k,
{
    if k < a.len() {
        let w = written_attributes(s, a);
        assert(w[k].name == s.subrange(a[k].name.0, a[k].name.1));
        match crate::tree::text_value(w[k].value, CompactLexemeKind::Attribute, r) {
            Err(_) => {},
            Ok(value) => {
                lemma_written_attributes(
                    s,
                    a,
                    k + 1,
                    r,
                    acc.push(AttributeModel { name: w[k].name, value }),
                );
            },
        }
    }
}

/// An editable tree means what the parsed tree means.
pub proof fn lemma_grown_means_the_same(s: Seq<char>, t: RawTree, at: int, r: Reading, room: int)
    requires
        well_built(t, room),
    ensures
        alike(snapshot(grown(s, t, at), r), materialized(s, t, r.version, r.policy)),
    decreases t, 0int,
{
    match t {
        RawTree::Element { attributes, children, .. } => {
            lemma_written_attributes(s, attributes, 0, r, Seq::empty());
            assert(decreases_to!(t => children));
            lemma_grown_all_mean_the_same(s, children, 0, at, r, room - 1, Seq::empty());
        },
        RawTree::Leaf { .. } => {},
    }
}

/// Editable trees mean what the parsed trees mean.
proof fn lemma_grown_all_mean_the_same(
    s: Seq<char>,
    ts: Seq<RawTree>,
    k: int,
    at: int,
    r: Reading,
    room: int,
    acc: Seq<NodeModel>,
)
    requires
        0 <= k <= ts.len(),
        forall|j: int| 0 <= j < ts.len() ==> well_built(#[trigger] ts[j], room),
    ensures
        alike(
            snapshots_from(grown_all(s, ts, ts.len() as int, at), k, r, acc),
            materialized_from(s, ts, k, r.version, r.policy, acc),
        ),
    decreases ts, ts.len() - k,
{
    lemma_grown_all(s, ts, ts.len() as int, at);
    if k < ts.len() {
        lemma_grown_means_the_same(s, ts[k], child_place(ts, at, k), r, room);
        match materialized(s, ts[k], r.version, r.policy) {
            Err(_) => {},
            Ok(x) => {
                lemma_grown_all_mean_the_same(s, ts, k + 1, at, r, room, acc.push(x));
            },
        }
    }
}

/// The nodes of an editable tree have numbers of their own, in a row from `at` on.
pub proof fn lemma_grown_numbers(s: Seq<char>, t: RawTree, at: int, id: u64)
    requires
        0 <= at,
        at + tree_nodes(t) <= u64::MAX,
    ensures
        occurrences(grown(s, t, at), id) == (if at <= id < at + tree_nodes(t) {
            1nat
        } else {
            0nat
        }),
    decreases t, 0int,
{
    match t {
        RawTree::Element { children, .. } => {
            assert(children.take(children.len() as int) =~= children);
            lemma_grown_all(s, children, children.len() as int, at);
            lemma_grown_all_numbers(s, children, children.len() as int, at, id);
        },
        RawTree::Leaf { .. } => {},
    }
}

/// The nodes of the first `k` editable trees have numbers of their own.
proof fn lemma_grown_all_numbers(s: Seq<char>, ts: Seq<RawTree>, k: int, at: int, id: u64)
    requires
        0 <= at,
        0 <= k <= ts.len(),
        child_place(ts, at, k) <= u64::MAX,
    ensures
        occurrences_among(grown_all(s, ts, ts.len() as int, at), k, id) == (if at + 1 <= id
            < child_place(ts, at, k) {
            1nat
        } else {
            0nat
        }),
    decreases ts, k,
{
    let g = grown_all(s, ts, ts.len() as int, at);
    lemma_grown_all(s, ts, ts.len() as int, at);
    if k > 0 {
        assert(ts.take(k).drop_last() =~= ts.take(k - 1));
        assert(ts.take(k).last() == ts[k - 1]);
        lemma_grown_all_numbers(s, ts, k - 1, at, id);
        lemma_grown_numbers(s, ts[k - 1], child_place(ts, at, k - 1), id);
        assert(g[k - 1] == grown(s, ts[k - 1], child_place(ts, at, k - 1)));
    } else {
        assert(ts.take(0) =~= Seq::<RawTree>::empty());
    }
}

} // verus!
