//! The node list of a tree: how it is laid out, and the tree values it stands for.

use vstd::prelude::*;

use crate::config::{ConfigModel, XmlTextWhitespacePolicy};
use crate::dom::{AttributeModel, ElementModel, InstructionModel, NodeModel, XmlNodeKind};
use crate::error::{located, ErrorModel, FaultModel};
use crate::grammar::{
    attributes_from, blank_text_end, content, element, flat_tree, flat_trees, markup_leaf, text_end,
    text_leaf, tree_attributes, trees_attributes, with_leaf, FlatModel, RawAttribute, RawTree,
    Resolver, MAX_DOM_DEPTH,
};
use crate::lexeme::{lexeme_value, CompactLexemeKind, XmlAttributeWhitespacePolicy, XmlVersion};
use crate::scan::{expected, name_end};
use crate::text::starts_at;

verus! {

/// How many nodes the tree has.
pub open spec fn tree_nodes(t: RawTree) -> nat
    decreases t,
{
    match t {
        RawTree::Leaf { .. } => 1,
        RawTree::Element { children, .. } => 1 + trees_nodes(children),
    }
}

/// How many nodes the trees have.
pub open spec fn trees_nodes(ts: Seq<RawTree>) -> nat
    decreases ts,
{
    if ts.len() == 0 {
        0
    } else {
        trees_nodes(ts.drop_last()) + tree_nodes(ts.last())
    }
}

/// The list of a tree has as many entries as the tree has nodes.
pub proof fn lemma_tree_len(t: RawTree, at: int, a: int)
    ensures
        flat_tree(t, at, a).len() == tree_nodes(t),
    decreases t,
{
    match t {
        RawTree::Leaf { .. } => {},
        RawTree::Element { attributes, children, .. } => {
            lemma_trees_len(children, at + 1, a + attributes.len());
        },
    }
}

/// The list of trees has as many entries as the trees have nodes.
pub proof fn lemma_trees_len(ts: Seq<RawTree>, at: int, a: int)
    ensures
        flat_trees(ts, at, a).len() == trees_nodes(ts),
    decreases ts,
{
    if ts.len() > 0 {
        lemma_trees_len(ts.drop_last(), at, a);
        lemma_tree_len(
            ts.last(),
            at + flat_trees(ts.drop_last(), at, a).len(),
            a + trees_attributes(ts.drop_last()).len(),
        );
    }
}

/// Every entry of a list points behind itself and not beyond the list, and the attributes it
/// counts are attributes of the tree.
pub open spec fn laid_out(f: Seq<FlatModel>, at: int, a: int, n: int) -> bool {
    &&& forall|k: int| 0 <= k < f.len() ==> at + k < (#[trigger] f[k]).next <= at + f.len()
    &&& forall|k: int|
        0 <= k < f.len() && (#[trigger] f[k]).kind == XmlNodeKind::Element ==> a <= f[k].secondary.0
            <= f[k].secondary.1 <= a + n
}

/// No leaf is an element, and elements nest at most `room` deep.
pub open spec fn well_built(t: RawTree, room: int) -> bool
    decreases t,
{
    match t {
        RawTree::Leaf { kind, .. } => kind != XmlNodeKind::Element,
        RawTree::Element { children, .. } => room >= 1 && forall|j: int|
            0 <= j < children.len() ==> well_built(#[trigger] children[j], room - 1),
    }
}

/// All trees are well built.
pub open spec fn all_well_built(ts: Seq<RawTree>, room: int) -> bool {
    forall|j: int| 0 <= j < ts.len() ==> well_built(#[trigger] ts[j], room)
}

/// The elements of a tree that was read nest no deeper than the limit allows.
pub proof fn lemma_element_well_built(
    s: Seq<char>,
    i: int,
    c: ConfigModel,
    v: XmlVersion,
    r: Resolver,
    depth: int,
    spent: int,
)
    requires
        depth <= MAX_DOM_DEPTH,
        element(s, i, c, v, r, depth, spent) is Ok,
    ensures
        well_built(element(s, i, c, v, r, depth, spent)->Ok_0.0, MAX_DOM_DEPTH - depth + 1),
    decreases s.len() - i, 0int,
{
    let start = expected(s, i, "<"@)->Ok_0;
    let k = name_end(s, start)->Ok_0;
    let (attributes, j, after) = attributes_from(s, k, c, v, r, Seq::empty(), spent)->Ok_0;
    if !starts_at(s, j, "/>"@) {
        let inner = expected(s, j, ">"@)->Ok_0;
        lemma_content_well_built(
            s,
            inner,
            c,
            v,
            r,
            s.subrange(start, k),
            depth,
            Seq::empty(),
            after,
        );
    }
}

/// The children that were read nest no deeper than the limit allows.
proof fn lemma_content_well_built(
    s: Seq<char>,
    i: int,
    c: ConfigModel,
    v: XmlVersion,
    r: Resolver,
    name: Seq<char>,
    depth: int,
    acc: Seq<RawTree>,
    spent: int,
)
    requires
        depth <= MAX_DOM_DEPTH,
        all_well_built(acc, MAX_DOM_DEPTH - depth),
        content(s, i, c, v, r, name, depth, acc, spent) is Ok,
    ensures
        all_well_built(
            content(s, i, c, v, r, name, depth, acc, spent)->Ok_0.0,
            MAX_DOM_DEPTH - depth,
        ),
    decreases s.len() - i, 1int,
{
    if s[i] == '<' {
        if s[i + 1] == '/' {
        } else if s[i + 1] == '!' || s[i + 1] == '?' {
            let (leaf, k) = markup_leaf(s, i, c, v)->Ok_0;
            lemma_content_well_built(
                s,
                k,
                c,
                v,
                r,
                name,
                depth,
                with_leaf(acc, leaf),
                spent,
            );
        } else {
            lemma_element_well_built(s, i, c, v, r, depth + 1, spent);
            let (child, k, after) = element(s, i, c, v, r, depth + 1, spent)->Ok_0;
            lemma_content_well_built(s, k, c, v, r, name, depth, acc.push(child), after);
        }
    } else if c.text_whitespace != XmlTextWhitespacePolicy::Preserve && blank_text_end(
        s,
        i,
        v,
    ) is Some {
        let k = blank_text_end(s, i, v)->Some_0;
        lemma_content_well_built(s, k, c, v, r, name, depth, acc, spent);
    } else {
        let (k, after) = text_end(s, i, c, v, r, spent)->Ok_0;
        lemma_content_well_built(
            s,
            k,
            c,
            v,
            r,
            name,
            depth,
            with_leaf(acc, text_leaf(s, None, i, k, c, v)),
            after,
        );
    }
}

/// The list of a tree is well laid out.
pub proof fn lemma_tree_laid_out(t: RawTree, at: int, a: int, room: int)
    requires
        well_built(t, room),
    ensures
        laid_out(flat_tree(t, at, a), at, a, tree_attributes(t).len() as int),
        flat_tree(t, at, a)[0].next == at + flat_tree(t, at, a).len(),
        flat_tree(t, at, a).len() >= 1,
    decreases t,
{
    match t {
        RawTree::Leaf { .. } => {},
        RawTree::Element { attributes, children, .. } => {
            lemma_trees_laid_out(children, at + 1, a + attributes.len(), room - 1);
            let f = flat_tree(t, at, a);
            let below = flat_trees(children, at + 1, a + attributes.len());
            assert forall|k: int| 0 < k < f.len() implies f[k] == below[k - 1] by {}
        },
    }
}

/// The list of trees is well laid out.
pub proof fn lemma_trees_laid_out(ts: Seq<RawTree>, at: int, a: int, room: int)
    requires
        all_well_built(ts, room),
    ensures
        laid_out(flat_trees(ts, at, a), at, a, trees_attributes(ts).len() as int),
    decreases ts,
{
    if ts.len() > 0 {
        let before = flat_trees(ts.drop_last(), at, a);
        let n = trees_attributes(ts.drop_last()).len();
        assert forall|j: int| 0 <= j < ts.drop_last().len() implies well_built(
            #[trigger] ts.drop_last()[j],
            room,
        ) by {
            assert(ts.drop_last()[j] == ts[j]);
        }
        lemma_trees_laid_out(ts.drop_last(), at, a, room);
        assert(ts.last() == ts[ts.len() - 1]);
        lemma_tree_laid_out(ts.last(), at + before.len(), a + n, room);
        let last = flat_tree(ts.last(), at + before.len(), a + n);
        let f = flat_trees(ts, at, a);
        assert(f == before + last);
        assert forall|k: int| 0 <= k < f.len() implies (if k < before.len() {
            f[k] == before[k]
        } else {
            f[k] == last[k - before.len()]
        }) by {}
    }
}

/// Entry `at` of `f` starts the list of `t`, whose attributes start at entry `a` of `attrs`.
pub open spec fn subtree_at(
    f: Seq<FlatModel>,
    attrs: Seq<RawAttribute>,
    t: RawTree,
    at: int,
    a: int,
) -> bool {
    &&& 0 <= at && at + tree_nodes(t) <= f.len()
    &&& f.subrange(at, at + tree_nodes(t)) == flat_tree(t, at, a)
    &&& 0 <= a && a + tree_attributes(t).len() <= attrs.len()
    &&& attrs.subrange(a, a + tree_attributes(t).len()) == tree_attributes(t)
}

/// The list of tree `j` stands in the list of the trees behind the lists of the earlier ones.
proof fn lemma_trees_split(ts: Seq<RawTree>, at: int, a: int, j: int)
    requires
        0 <= j < ts.len(),
    ensures
        trees_nodes(ts.take(j)) + tree_nodes(ts[j]) == trees_nodes(ts.take(j + 1)),
        trees_nodes(ts.take(j + 1)) <= trees_nodes(ts),
        flat_trees(ts, at, a).len() == trees_nodes(ts),
        flat_trees(ts, at, a).subrange(
            trees_nodes(ts.take(j)) as int,
            (trees_nodes(ts.take(j)) + tree_nodes(ts[j])) as int,
        ) == flat_tree(
            ts[j],
            at + trees_nodes(ts.take(j)),
            a + trees_attributes(ts.take(j)).len(),
        ),
        trees_attributes(ts.take(j)).len() + tree_attributes(ts[j]).len() == trees_attributes(
            ts.take(j + 1),
        ).len(),
        trees_attributes(ts.take(j + 1)).len() <= trees_attributes(ts).len(),
        trees_attributes(ts).subrange(
            trees_attributes(ts.take(j)).len() as int,
            (trees_attributes(ts.take(j)).len() + tree_attributes(ts[j]).len()) as int,
        ) == tree_attributes(ts[j]),
    decreases ts.len(),
{
    lemma_trees_len(ts, at, a);
    let init = ts.drop_last();
    lemma_trees_len(init, at, a);
    assert(ts.take(j + 1).drop_last() =~= ts.take(j));
    assert(ts.take(j + 1).last() == ts[j]);
    let n = trees_nodes(ts.take(j)) as int;
    let m = trees_attributes(ts.take(j)).len() as int;
    if j == ts.len() - 1 {
        assert(init =~= ts.take(j));
        assert(ts.take(j + 1) =~= ts);
        lemma_tree_len(ts[j], at + n, a + m);
        assert(flat_trees(ts, at, a).subrange(n, n + tree_nodes(ts[j])) =~= flat_tree(
            ts[j],
            at + n,
            a + m,
        ));
        assert(trees_attributes(ts).subrange(m, m + tree_attributes(ts[j]).len())
            =~= tree_attributes(ts[j]));
    } else {
        lemma_trees_split(init, at, a, j);
        assert(init.take(j) =~= ts.take(j));
        assert(init.take(j + 1) =~= ts.take(j + 1));
        let k = n + tree_nodes(ts[j]);
        assert(flat_trees(ts, at, a).subrange(n, k) =~= flat_trees(init, at, a).subrange(n, k));
        let l = m + tree_attributes(ts[j]).len();
        assert(trees_attributes(ts).subrange(m, l) =~= trees_attributes(init).subrange(m, l));
    }
}

/// The place of child `j` of an element that stands at `at`.
pub open spec fn child_place(children: Seq<RawTree>, at: int, j: int) -> int {
    at + 1 + trees_nodes(children.take(j))
}

/// The place of the first attribute below child `j`, if those of the children start at `a`.
pub open spec fn child_attributes(children: Seq<RawTree>, a: int, j: int) -> int {
    (a + trees_attributes(children.take(j)).len()) as int
}

/// The children of an element stand one behind the other, each followed by its own subtree.
pub proof fn lemma_children_at(
    f: Seq<FlatModel>,
    attrs: Seq<RawAttribute>,
    t: RawTree,
    at: int,
    a: int,
    j: int,
)
    requires
        subtree_at(f, attrs, t, at, a),
        t is Element,
        0 <= j < t->children.len(),
    ensures
        subtree_at(
            f,
            attrs,
            t->children[j],
            child_place(t->children, at, j),
            child_attributes(t->children, (a + t->attributes.len()) as int, j),
        ),
        child_place(t->children, at, j + 1) == child_place(t->children, at, j) + tree_nodes(
            t->children[j],
        ),
        child_place(t->children, at, j + 1) <= at + tree_nodes(t),
{
    let children = t->children;
    let own = t->attributes;
    let below = flat_trees(children, at + 1, a + own.len());
    let attributes_below = trees_attributes(children);
    lemma_trees_split(children, at + 1, a + own.len(), j);
    let n = trees_nodes(children.take(j)) as int;
    let m = trees_attributes(children.take(j)).len() as int;
    let c = children[j];
    assert(flat_tree(t, at, a).subrange(1, tree_nodes(t) as int) =~= below);
    assert(f.subrange(at + 1, at + tree_nodes(t)) =~= below) by {
        assert(f.subrange(at + 1, at + tree_nodes(t)) =~= f.subrange(
            at,
            at + tree_nodes(t),
        ).subrange(1, tree_nodes(t) as int));
    }
    assert(f.subrange(at + 1 + n, at + 1 + n + tree_nodes(c)) =~= below.subrange(
        n,
        n + tree_nodes(c),
    ));
    let b = (a + own.len()) as int;
    assert(attrs.subrange(b, b + attributes_below.len()) =~= attributes_below) by {
        assert(attrs.subrange(b, b + attributes_below.len()) =~= attrs.subrange(
            a,
            a + tree_attributes(t).len(),
        ).subrange(own.len() as int, tree_attributes(t).len() as int));
    }
    assert(attrs.subrange(b + m, b + m + tree_attributes(c).len()) =~= attributes_below.subrange(
        m,
        m + tree_attributes(c).len(),
    ));
}

/// What an element's entry says.
pub proof fn lemma_element_entry(
    f: Seq<FlatModel>,
    attrs: Seq<RawAttribute>,
    t: RawTree,
    at: int,
    a: int,
)
    requires
        subtree_at(f, attrs, t, at, a),
    ensures
        0 <= at < f.len(),
        f[at] == flat_tree(t, at, a)[0],
        f[at].next == at + tree_nodes(t),
        t is Element ==> f[at].kind == XmlNodeKind::Element && f[at].primary == t->name
            && f[at].secondary == (a, a + t->attributes.len()) && f[at].next == child_place(
            t->children,
            at,
            t->children.len() as int,
        ) && t->attributes == attrs.subrange(a, a + t->attributes.len()),
        t is Leaf ==> f[at].kind == t->Leaf_kind && f[at].primary == t->Leaf_primary
            && f[at].secondary == t->Leaf_secondary,
{
    lemma_tree_len(t, at, a);
    assert(f.subrange(at, at + tree_nodes(t))[0] == f[at]);
    if t is Element {
        assert(t->children.take(t->children.len() as int) =~= t->children);
        lemma_trees_len(t->children, at + 1, a + t->attributes.len());
        assert(t->attributes =~= tree_attributes(t).subrange(0, t->attributes.len() as int));
        assert(attrs.subrange(a, a + t->attributes.len()) =~= attrs.subrange(
            a,
            a + tree_attributes(t).len(),
        ).subrange(0, t->attributes.len() as int));
    }
}

/// The places from `k` on up to `end`, each behind the subtree of the one before, behind `acc`.
pub open spec fn places_from(f: Seq<FlatModel>, k: int, end: int, acc: Seq<int>) -> Seq<int>
    decreases
            if k < end {
                end - k
            } else {
                0
            },
{
    if k < 0 || k >= end || k >= f.len() || f[k].next <= k {
        acc
    } else {
        places_from(f, f[k].next, end, acc.push(k))
    }
}

/// The places of the children of node `k`.
pub open spec fn child_places(f: Seq<FlatModel>, k: int) -> Seq<int> {
    if 0 <= k < f.len() && f[k].kind == XmlNodeKind::Element {
        places_from(f, k + 1, f[k].next, Seq::empty())
    } else {
        Seq::empty()
    }
}

/// The value of the characters `p`; an error stands where it does in `s`.
pub open spec fn lexeme_at(
    s: Seq<char>,
    p: (int, int),
    kind: CompactLexemeKind,
    v: XmlVersion,
    policy: XmlAttributeWhitespacePolicy,
) -> Result<Seq<char>, ErrorModel> {
    match lexeme_value(s.subrange(p.0, p.1), kind, v, policy) {
        Err(f) => Err(located(s, FaultModel { kind: f.kind, at: p.0 + f.at })),
        Ok(x) => Ok(x),
    }
}

/// The attributes from `k` on, behind `acc`.
pub open spec fn attribute_values_from(
    s: Seq<char>,
    a: Seq<RawAttribute>,
    k: int,
    v: XmlVersion,
    policy: XmlAttributeWhitespacePolicy,
    acc: Seq<AttributeModel>,
) -> Result<Seq<AttributeModel>, ErrorModel>
    decreases a.len() - k,
{
    if k < 0 || k >= a.len() {
        Ok(acc)
    } else {
        match lexeme_at(s, a[k].value, CompactLexemeKind::Attribute, v, policy) {
            Err(e) => Err(e),
            Ok(value) => attribute_values_from(
                s,
                a,
                k + 1,
                v,
                policy,
                acc.push(
                    AttributeModel { name: s.subrange(a[k].name.0, a[k].name.1), value },
                ),
            ),
        }
    }
}

/// The tree of decoded values that a tree of positions stands for.
pub open spec fn materialized(
    s: Seq<char>,
    t: RawTree,
    v: XmlVersion,
    policy: XmlAttributeWhitespacePolicy,
) -> Result<NodeModel, ErrorModel>
    decreases t, 0int,
{
    match t {
        RawTree::Element { name, attributes, children, .. } => match attribute_values_from(
            s,
            attributes,
            0,
            v,
            policy,
            Seq::empty(),
        ) {
            Err(e) => Err(e),
            Ok(values) => match materialized_from(s, children, 0, v, policy, Seq::empty()) {
                Err(e) => Err(e),
                Ok(below) => Ok(
                    NodeModel::Element(
                        ElementModel {
                            name: s.subrange(name.0, name.1),
                            attributes: values,
                            children: below,
                        },
                    ),
                ),
            },
        },
        RawTree::Leaf { kind, primary, secondary, .. } => materialized_leaf(
            s,
            kind,
            primary,
            secondary,
            v,
            policy,
        ),
    }
}

/// The decoded value of a leaf.
pub open spec fn materialized_leaf(
    s: Seq<char>,
    kind: XmlNodeKind,
    primary: (int, int),
    secondary: (int, int),
    v: XmlVersion,
    policy: XmlAttributeWhitespacePolicy,
) -> Result<NodeModel, ErrorModel> {
    match kind {
        XmlNodeKind::Text => match lexeme_at(s, primary, CompactLexemeKind::Text, v, policy) {
            Err(e) => Err(e),
            Ok(x) => Ok(NodeModel::Text(x)),
        },
        XmlNodeKind::Comment => match lexeme_at(s, primary, CompactLexemeKind::Opaque, v, policy) {
            Err(e) => Err(e),
            Ok(x) => Ok(NodeModel::Comment(x)),
        },
        XmlNodeKind::ProcessingInstruction => match lexeme_at(
            s,
            secondary,
            CompactLexemeKind::Opaque,
            v,
            policy,
        ) {
            Err(e) => Err(e),
            Ok(x) => Ok(
                NodeModel::ProcessingInstruction(
                    InstructionModel { target: s.subrange(primary.0, primary.1), data: x },
                ),
            ),
        },
        _ => match lexeme_at(s, primary, CompactLexemeKind::Opaque, v, policy) {
            Err(e) => Err(e),
            Ok(x) => Ok(NodeModel::Cdata(x)),
        },
    }
}

/// The decoded trees from `k` on, behind `acc`.
pub open spec fn materialized_from(
    s: Seq<char>,
    ts: Seq<RawTree>,
    k: int,
    v: XmlVersion,
    policy: XmlAttributeWhitespacePolicy,
    acc: Seq<NodeModel>,
) -> Result<Seq<NodeModel>, ErrorModel>
    decreases ts, ts.len() - k,
{
    if k < 0 || k >= ts.len() {
        Ok(acc)
    } else {
        match materialized(s, ts[k], v, policy) {
            Err(e) => Err(e),
            Ok(n) => materialized_from(s, ts, k + 1, v, policy, acc.push(n)),
        }
    }
}

} // verus!
