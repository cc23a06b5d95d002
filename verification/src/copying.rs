//! Copying trees, and giving them up.

use vstd::prelude::*;

use crate::dom::{AttributeModel, NodeModel, XmlNodeKind};
use crate::error::{ErrorModel, XmlResult};
use crate::lexeme::CompactLexemeKind;
use crate::tree::{
    copied, copied_all, later_sizes, lemma_later_sizes, plain_attributes, plain_attributes_from,
    pristine, pristine_all, read_text, settled, settled_all, settled_attributes, size, sizes,
    snapshot, snapshots_from, tree_attribute_models, tree_models, uncounted_trees, DomAttribute,
    DomNode, DomText, Reading, TreeModel,
};

verus! {

/// Counts the nodes of a tree; stops at `limit`.
pub(crate) fn count_tree(n: &DomNode, limit: u64) -> (r: Option<u64>)
    ensures
        match r {
            Some(x) => x == size(n.model()) && x <= limit,
            None => size(n.model()) > limit,
        },
{
    if limit == 0 {
        return None;
    }
    match count_trees(&n.children, limit - 1) {
        Some(x) => Some(x + 1),
        None => None,
    }
}

/// Counts the nodes of trees; stops at `limit`.
///
/// The lists that are not done wait on a stack, so that the depth of the trees does not matter.
fn count_trees(n: &Vec<DomNode>, limit: u64) -> (r: Option<u64>)
    ensures
        match r {
            Some(x) => x == sizes(tree_models(n@), n@.len() as int) && x <= limit,
            None => sizes(tree_models(n@), n@.len() as int) > limit,
        },
{
    let ghost goal = sizes(tree_models(n@), n@.len() as int);
    let mut total: u64 = 0;
    let mut stack: Vec<(&Vec<DomNode>, usize)> = Vec::new();
    stack.push((n, 0));
    proof {
        lemma_later_sizes(tree_models(n@), 0);
        assert(stack@.drop_last() =~= Seq::<(&Vec<DomNode>, usize)>::empty());
        assert(uncounted_trees(stack@.drop_last()) == 0);
    }
    while stack.len() > 0
        invariant
            total <= limit,
            total + uncounted_trees(stack@) == goal,
            goal == sizes(tree_models(n@), n@.len() as int),
        decreases uncounted_trees(stack@), stack@.len(),
    {
        let ghost before = stack@;
        if let Some((nodes, k)) = stack.pop() {
            let ghost m = tree_models(nodes@);
            let ghost below = stack@;
            proof {
                assert(before.drop_last() =~= below);
                assert(before.last() == (nodes, k));
            }
            if k < nodes.len() {
                let ghost c = tree_models(nodes@[k as int].children@);
                proof {
                    assert(m[k as int] == nodes@[k as int].model());
                    assert(later_sizes(m, k as int) == size(m[k as int]) + later_sizes(m, k + 1));
                    lemma_later_sizes(c, 0);
                }
                if total == limit {
                    return None;
                }
                total = total + 1;
                stack.push((nodes, k + 1));
                let ghost held = stack@;
                stack.push((&nodes[k].children, 0));
                proof {
                    assert(held.drop_last() =~= below);
                    assert(uncounted_trees(held) == uncounted_trees(below) + later_sizes(m, k + 1));
                    assert(stack@.drop_last() =~= held);
                    assert(uncounted_trees(stack@) == uncounted_trees(held) + later_sizes(c, 0));
                }
            }
        }
    }
    Some(total)
}

/// More trees have more nodes.
proof fn lemma_sizes_monotone(n: Seq<TreeModel>, j: int, k: int)
    requires
        0 <= j <= k <= n.len(),
    ensures
        sizes(n, j) <= sizes(n, k),
    decreases k - j,
{
    if j < k {
        lemma_sizes_monotone(n, j, k - 1);
    }
}

/// Copies attributes.
fn copy_attributes(a: &Vec<DomAttribute>) -> (r: Vec<DomAttribute>)
    ensures
        tree_attribute_models(r@) == tree_attribute_models(a@),
{
    let mut out: Vec<DomAttribute> = Vec::new();
    let mut k: usize = 0;
    while k < a.len()
        invariant
            k <= a@.len(),
            out@.len() == k,
            forall|i: int| 0 <= i < k ==> (#[trigger] out@[i])@ == a@[i]@,
        decreases a@.len() - k,
    {
        out.push(DomAttribute { name: a[k].name.clone(), value: a[k].value.copy() });
        k = k + 1;
    }
    proof {
        assert(tree_attribute_models(out@) =~= tree_attribute_models(a@));
    }
    out
}

/// Copies a tree, its nodes numbered from `first` on.
pub(crate) fn copy_tree(n: &DomNode, first: u64) -> (r: DomNode)
    requires
        first + size(n.model()) <= u64::MAX,
    ensures
        r.model() == copied(n.model(), first as int),
{
    let children = copy_trees(&n.children, first + 1);
    copy_above(n, first, children)
}

/// Copies a node, above children that are copied.
fn copy_above(n: &DomNode, id: u64, children: Vec<DomNode>) -> (r: DomNode)
    requires
        tree_models(children@) == copied_all(
            n.model().children,
            n.model().children.len() as int,
            id + 1,
        ),
    ensures
        r.model() == copied(n.model(), id as int),
{
    DomNode {
        id,
        origin: None,
        kind: n.kind,
        name: n.name.clone(),
        value: n.value.copy(),
        attributes: copy_attributes(&n.attributes),
        children,
        recorded: n.recorded,
        touched: n.touched,
    }
}

/// A list of nodes that is being copied, numbered from `first` on, and the node whose children
/// they are, with the number of its copy.
struct Numbering<'a> {
    of: Option<&'a DomNode>,
    id: u64,
    nodes: &'a Vec<DomNode>,
    first: u64,
    out: Vec<DomNode>,
}

impl<'a> Numbering<'a> {
    /// The first nodes are copied, and there are numbers for all.
    spec fn wf(self) -> bool {
        let m = tree_models(self.nodes@);
        &&& self.out@.len() <= m.len()
        &&& tree_models(self.out@) == copied_all(m, self.out@.len() as int, self.first as int)
        &&& self.first + sizes(m, m.len() as int) <= u64::MAX
    }

    /// The number of the next copy.
    spec fn next(self) -> int {
        self.first + sizes(tree_models(self.nodes@), self.out@.len() as int)
    }

    /// The node is the next one of another list.
    spec fn next_of(self, parent: Numbering<'a>) -> bool {
        &&& self.of matches Some(d) && self.nodes == d.children
        &&& self.id == parent.next()
        &&& self.first == self.id + 1
        &&& parent.out@.len() < parent.nodes@.len()
        &&& parent.nodes@[parent.out@.len() as int] == *self.of->Some_0
    }
}

/// What is left in the lists that wait for one of their nodes.
spec fn numbering_left(st: Seq<Numbering<'_>>) -> nat
    decreases st.len(),
{
    if st.len() == 0 {
        0
    } else {
        numbering_left(st.drop_last()) + 2 * later_sizes(
            tree_models(st.last().nodes@),
            st.last().out@.len() as int + 1,
        ) + 1
    }
}

/// The lists wait for one another.
spec fn numbering_chained(st: Seq<Numbering<'_>>, top: Numbering<'_>) -> bool
    decreases st.len(),
{
    &&& top.wf()
    &&& if st.len() == 0 {
        top.of is None
    } else {
        top.next_of(st.last()) && numbering_chained(st.drop_last(), st.last())
    }
}

/// The list at the bottom of the stack, and its first number.
spec fn numbering_bottom(st: Seq<Numbering<'_>>, top: Numbering<'_>) -> (Seq<TreeModel>, u64) {
    if st.len() == 0 {
        (tree_models(top.nodes@), top.first)
    } else {
        (tree_models(st[0].nodes@), st[0].first)
    }
}

/// Copies trees, numbered from `first` on.
///
/// The lists that are not done wait on a stack, so that the depth of the trees does not matter.
fn copy_trees(n: &Vec<DomNode>, first: u64) -> (r: Vec<DomNode>)
    requires
        first + sizes(tree_models(n@), n@.len() as int) <= u64::MAX,
    ensures
        tree_models(r@) == copied_all(tree_models(n@), n@.len() as int, first as int),
{
    let mut stack: Vec<Numbering<'_>> = Vec::new();
    let mut top = Numbering { of: None, id: first, nodes: n, first, out: Vec::new() };
    let mut next: u64 = first;
    proof {
        assert(tree_models(top.out@) =~= Seq::<TreeModel>::empty());
    }
    loop
        invariant
            numbering_chained(stack@, top),
            numbering_bottom(stack@, top) == (tree_models(n@), first),
            next == top.next(),
        decreases
                numbering_left(stack@) + 2 * later_sizes(
                    tree_models(top.nodes@),
                    top.out@.len() as int,
                ) + 1,
    {
        let k: usize = top.out.len();
        let ghost m = tree_models(top.nodes@);
        if k < top.nodes.len() {
            let x = &top.nodes[k];
            let ghost c = tree_models(x.children@);
            proof {
                assert(m[k as int] == x.model());
                assert(x.model().children == c);
                assert(sizes(m, k + 1) == sizes(m, k as int) + size(m[k as int]));
                lemma_sizes_monotone(m, k + 1, m.len() as int);
                assert(later_sizes(m, k as int) == size(m[k as int]) + later_sizes(m, k + 1));
                lemma_later_sizes(c, 0);
            }
            let below = Numbering {
                of: Some(x),
                id: next,
                nodes: &x.children,
                first: next + 1,
                out: Vec::new(),
            };
            let ghost before = stack@;
            let ghost held = top;
            stack.push(top);
            proof {
                assert(tree_models(below.out@) =~= Seq::<TreeModel>::empty());
                assert(stack@.drop_last() =~= before);
                assert(stack@.last() == held);
                assert(below.wf());
                assert(below.next_of(held));
            }
            top = below;
            next = next + 1;
        } else {
            let ghost before = stack@;
            match stack.pop() {
                None => {
                    return top.out;
                },
                Some(parent) => {
                    let mut parent = parent;
                    let ghost list = tree_models(parent.nodes@);
                    let ghost i = parent.out@.len() as int;
                    proof {
                        assert(stack@ =~= before.drop_last());
                        assert(numbering_chained(stack@, parent));
                        assert(list[i] == parent.nodes@[i].model());
                        assert(sizes(list, i + 1) == sizes(list, i) + size(list[i]));
                    }
                    if let Some(d) = top.of {
                        assert(d.model().children == m);
                        let x = copy_above(d, top.id, top.out);
                        let ghost done = parent.out@;
                        parent.out.push(x);
                        proof {
                            assert(x.model() == copied(list[i], top.id as int));
                            assert(tree_models(parent.out@) =~= tree_models(done).push(x.model()));
                            assert(parent.wf());
                            assert(parent.next() == next);
                        }
                    }
                    top = parent;
                },
            }
        }
    }
}

/// Two lists have the nodes of both.
proof fn lemma_sizes_joined(a: Seq<TreeModel>, b: Seq<TreeModel>, k: int)
    requires
        0 <= k <= b.len(),
    ensures
        sizes(a + b, a.len() + k) == sizes(a, a.len() as int) + sizes(b, k),
    decreases k,
{
    if k > 0 {
        assert((a + b)[a.len() + k - 1] == b[k - 1]);
        lemma_sizes_joined(a, b, k - 1);
    } else {
        lemma_sizes_before(a, b, a.len() as int);
    }
}

/// Before the second list stands the first one.
proof fn lemma_sizes_before(a: Seq<TreeModel>, b: Seq<TreeModel>, k: int)
    requires
        0 <= k <= a.len(),
    ensures
        sizes(a + b, k) == sizes(a, k),
    decreases k,
{
    if k > 0 {
        assert((a + b)[k - 1] == a[k - 1]);
        lemma_sizes_before(a, b, k - 1);
    }
}

/// Gives up trees.
///
/// They are taken apart one by one, so that their depth does not matter.
pub(crate) fn release_trees(n: Vec<DomNode>) {
    let mut left = n;
    while left.len() > 0
        decreases sizes(tree_models(left@), left@.len() as int),
    {
        let ghost before = left@;
        if let Some(x) = left.pop() {
            let ghost held = tree_models(left@);
            let mut children = x.children;
            let ghost c = tree_models(children@);
            left.append(&mut children);
            proof {
                assert(tree_models(before) =~= held + seq![x.model()]);
                assert(sizes(seq![x.model()], 0) == 0);
                assert(sizes(seq![x.model()], 1) == size(x.model()));
                lemma_sizes_joined(held, seq![x.model()], 1);
                assert(tree_models(left@) =~= held + c);
                lemma_sizes_joined(held, c, c.len() as int);
                assert(size(x.model()) == 1 + sizes(c, c.len() as int));
            }
        }
    }
}

/// Gives up a tree.
pub(crate) fn release_tree(n: DomNode) {
    let mut v: Vec<DomNode> = Vec::new();
    v.push(n);
    release_trees(v);
}

/// Makes the same tree again.
pub(crate) fn clone_tree(n: &DomNode) -> (r: DomNode)
    ensures
        r.model() == n.model(),
{
    let children = clone_trees(&n.children);
    clone_above(n, children)
}

/// Makes a node again, above children that are made.
fn clone_above(n: &DomNode, children: Vec<DomNode>) -> (r: DomNode)
    requires
        tree_models(children@) == n.model().children,
    ensures
        r.model() == n.model(),
{
    DomNode {
        id: n.id,
        origin: n.origin,
        kind: n.kind,
        name: n.name.clone(),
        value: n.value.copy(),
        attributes: copy_attributes(&n.attributes),
        children,
        recorded: n.recorded,
        touched: n.touched,
    }
}

/// A list of nodes that is being made again, and the node whose children they are.
struct Remaking<'a> {
    of: Option<&'a DomNode>,
    nodes: &'a Vec<DomNode>,
    out: Vec<DomNode>,
}

impl<'a> Remaking<'a> {
    /// The first nodes are made.
    spec fn wf(self) -> bool {
        let m = tree_models(self.nodes@);
        &&& self.out@.len() <= m.len()
        &&& tree_models(self.out@) == m.take(self.out@.len() as int)
    }

    /// The node is the next one of another list.
    spec fn next_of(self, parent: Remaking<'a>) -> bool {
        &&& self.of matches Some(d) && self.nodes == d.children
        &&& parent.out@.len() < parent.nodes@.len()
        &&& parent.nodes@[parent.out@.len() as int] == *self.of->Some_0
    }
}

/// What is left in the lists that wait for one of their nodes.
spec fn remaking_left(st: Seq<Remaking<'_>>) -> nat
    decreases st.len(),
{
    if st.len() == 0 {
        0
    } else {
        remaking_left(st.drop_last()) + 2 * later_sizes(
            tree_models(st.last().nodes@),
            st.last().out@.len() as int + 1,
        ) + 1
    }
}

/// The lists wait for one another.
spec fn remaking_chained(st: Seq<Remaking<'_>>, top: Remaking<'_>) -> bool
    decreases st.len(),
{
    &&& top.wf()
    &&& if st.len() == 0 {
        top.of is None
    } else {
        top.next_of(st.last()) && remaking_chained(st.drop_last(), st.last())
    }
}

/// The list at the bottom of the stack.
spec fn remaking_bottom(st: Seq<Remaking<'_>>, top: Remaking<'_>) -> Seq<TreeModel> {
    if st.len() == 0 {
        tree_models(top.nodes@)
    } else {
        tree_models(st[0].nodes@)
    }
}

/// Makes the same trees again.
///
/// The lists that are not done wait on a stack, so that the depth of the trees does not matter.
fn clone_trees(n: &Vec<DomNode>) -> (r: Vec<DomNode>)
    ensures
        tree_models(r@) == tree_models(n@),
{
    let mut stack: Vec<Remaking<'_>> = Vec::new();
    let mut top = Remaking { of: None, nodes: n, out: Vec::new() };
    proof {
        assert(tree_models(top.out@) =~= tree_models(n@).take(0));
    }
    loop
        invariant
            remaking_chained(stack@, top),
            remaking_bottom(stack@, top) == tree_models(n@),
        decreases
                remaking_left(stack@) + 2 * later_sizes(
                    tree_models(top.nodes@),
                    top.out@.len() as int,
                ) + 1,
    {
        let k: usize = top.out.len();
        let ghost m = tree_models(top.nodes@);
        if k < top.nodes.len() {
            let x = &top.nodes[k];
            let below = Remaking { of: Some(x), nodes: &x.children, out: Vec::new() };
            let ghost before = stack@;
            let ghost held = top;
            stack.push(top);
            proof {
                let c = tree_models(x.children@);
                assert(m[k as int] == x.model());
                assert(x.model().children == c);
                assert(tree_models(below.out@) =~= c.take(0));
                assert(stack@.drop_last() =~= before);
                assert(stack@.last() == held);
                assert(later_sizes(m, k as int) == size(m[k as int]) + later_sizes(m, k + 1));
                lemma_later_sizes(c, 0);
                assert(size(m[k as int]) == 1 + later_sizes(c, 0));
            }
            top = below;
        } else {
            proof {
                assert(m.take(k as int) =~= m);
            }
            let ghost before = stack@;
            match stack.pop() {
                None => {
                    return top.out;
                },
                Some(parent) => {
                    let mut parent = parent;
                    let ghost list = tree_models(parent.nodes@);
                    let ghost i = parent.out@.len() as int;
                    proof {
                        assert(stack@ =~= before.drop_last());
                        assert(remaking_chained(stack@, parent));
                        assert(list[i] == parent.nodes@[i].model());
                    }
                    if let Some(d) = top.of {
                        let x = clone_above(d, top.out);
                        let ghost done = parent.out@;
                        parent.out.push(x);
                        proof {
                            assert(x.model() == list[i]);
                            assert(tree_models(parent.out@) =~= tree_models(done).push(x.model()));
                            assert(list.take(i + 1) =~= list.take(i).push(list[i]));
                            assert(parent.wf());
                        }
                    }
                    top = parent;
                },
            }
        }
    }
}

/// The trees from `k` on are as they were parsed.
spec fn pristine_from(n: Seq<TreeModel>, k: int) -> bool
    decreases n.len() - k,
{
    k < 0 || k >= n.len() || (pristine(n[k]) && pristine_from(n, k + 1))
}

/// Trees are as they were parsed if the first ones and the rest are.
proof fn lemma_pristine_from(n: Seq<TreeModel>, k: int)
    requires
        0 <= k <= n.len(),
    ensures
        pristine_all(n, n.len() as int) == (pristine_all(n, k) && pristine_from(n, k)),
    decreases n.len() - k,
{
    if k < n.len() {
        lemma_pristine_from(n, k + 1);
    }
}

/// The nodes of lists from an index on are as they were parsed.
spec fn pending_pristine(st: Seq<(&Vec<DomNode>, usize)>) -> bool
    decreases st.len(),
{
    st.len() == 0 || (pristine_from(tree_models(st.last().0@), st.last().1 as int)
        && pending_pristine(st.drop_last()))
}

/// Is the tree as it was parsed?
///
/// The lists that are not done wait on a stack, so that the depth of the tree does not matter.
pub(crate) fn is_pristine(n: &DomNode) -> (r: bool)
    ensures
        r == pristine(n.model()),
{
    if !n.recorded || n.touched {
        return false;
    }
    let mut stack: Vec<(&Vec<DomNode>, usize)> = Vec::new();
    stack.push((&n.children, 0));
    proof {
        lemma_pristine_from(tree_models(n.children@), 0);
        assert(stack@.drop_last() =~= Seq::<(&Vec<DomNode>, usize)>::empty());
        assert(pending_pristine(stack@.drop_last()));
    }
    while stack.len() > 0
        invariant
            pristine(n.model()) == pending_pristine(stack@),
        decreases uncounted_trees(stack@), stack@.len(),
    {
        let ghost before = stack@;
        if let Some((nodes, k)) = stack.pop() {
            let ghost m = tree_models(nodes@);
            let ghost below = stack@;
            proof {
                assert(before.drop_last() =~= below);
                assert(before.last() == (nodes, k));
            }
            if k < nodes.len() {
                let x = &nodes[k];
                assert(m[k as int] == x.model());
                if !x.recorded || x.touched {
                    return false;
                }
                stack.push((nodes, k + 1));
                let ghost held = stack@;
                stack.push((&x.children, 0));
                proof {
                    let c = tree_models(x.children@);
                    lemma_pristine_from(c, 0);
                    lemma_later_sizes(c, 0);
                    assert(held.drop_last() =~= below);
                    assert(held.last() == (nodes, (k + 1) as usize));
                    assert(stack@.drop_last() =~= held);
                    assert(pending_pristine(held) == (pristine_from(m, k + 1) && pending_pristine(
                        below,
                    )));
                    assert(pending_pristine(stack@) == (pristine_from(c, 0) && pending_pristine(
                        held,
                    )));
                    assert(later_sizes(m, k as int) == size(m[k as int]) + later_sizes(m, k + 1));
                    assert(uncounted_trees(held) == uncounted_trees(below) + later_sizes(m, k + 1));
                    assert(uncounted_trees(stack@) == uncounted_trees(held) + later_sizes(c, 0));
                }
            }
        }
    }
    true
}

/// Decodes attributes.
fn settle_attributes(n: &DomNode, r: Reading) -> (res: XmlResult<Vec<DomAttribute>>)
    ensures
        match res {
            Ok(x) => plain_attributes(n.model(), r) is Ok && tree_attribute_models(x@)
                == settled_attributes(n.model().attributes, r),
            Err(e) => plain_attributes(n.model(), r) == Err::<Seq<AttributeModel>, ErrorModel>(e@),
        },
{
    let ghost a = tree_attribute_models(n.attributes@);
    let ghost mut acc: Seq<AttributeModel> = Seq::empty();
    let mut out: Vec<DomAttribute> = Vec::new();
    let mut k: usize = 0;
    while k < n.attributes.len()
        invariant
            k <= n.attributes@.len(),
            a == tree_attribute_models(n.attributes@),
            out@.len() == k,
            forall|i: int| 0 <= i < k ==> (#[trigger] out@[i])@ == settled_attributes(a, r)[i],
            plain_attributes(n.model(), r) == plain_attributes_from(a, k as int, r, acc),
        decreases n.attributes@.len() - k,
    {
        let x = &n.attributes[k];
        assert(a[k as int] == x@);
        match read_text(&x.value, CompactLexemeKind::Attribute, r) {
            Err(e) => {
                return Err(e);
            },
            Ok(value) => {
                proof {
                    acc = acc.push(AttributeModel { name: x.name@, value: value@ });
                }
                out.push(
                    DomAttribute {
                        name: x.name.clone(),
                        value: DomText { text: value, raw: false },
                    },
                );
            },
        }
        k = k + 1;
    }
    proof {
        assert(tree_attribute_models(out@) =~= settled_attributes(a, r));
    }
    Ok(out)
}

/// Makes a tree with the same numbers and values that mean what they say.
pub(crate) fn settle(n: &DomNode, r: Reading) -> (res: XmlResult<DomNode>)
    ensures
        match res {
            Ok(x) => snapshot(n.model(), r) is Ok && x.model() == settled(n.model(), r),
            Err(e) => snapshot(n.model(), r) == Err::<NodeModel, ErrorModel>(e@),
        },
{
    match n.kind {
        XmlNodeKind::Element => {
            let attributes = match settle_attributes(n, r) {
                Err(e) => {
                    return Err(e);
                },
                Ok(x) => x,
            };
            match settle_all(&n.children, r) {
                Err(e) => Err(e),
                Ok(children) => Ok(settle_element(n, attributes, children, Ghost(r))),
            }
        },
        _ => settle_leaf(n, r),
    }
}

/// Settles an element, above children that are settled.
fn settle_element(
    n: &DomNode,
    attributes: Vec<DomAttribute>,
    children: Vec<DomNode>,
    r: Ghost<Reading>,
) -> (x: DomNode)
    requires
        n.kind == XmlNodeKind::Element,
        tree_attribute_models(attributes@) == settled_attributes(n.model().attributes, r@),
        tree_models(children@) == settled_all(
            n.model().children,
            n.model().children.len() as int,
            r@,
        ),
    ensures
        x.model() == settled(n.model(), r@),
{
    DomNode {
        id: n.id,
        origin: None,
        kind: n.kind,
        name: n.name.clone(),
        value: n.value.copy(),
        attributes,
        children,
        recorded: false,
        touched: false,
    }
}

/// Settles a node that is not an element.
fn settle_leaf(n: &DomNode, r: Reading) -> (res: XmlResult<DomNode>)
    requires
        n.kind != XmlNodeKind::Element,
    ensures
        match res {
            Ok(x) => snapshot(n.model(), r) is Ok && x.model() == settled(n.model(), r),
            Err(e) => snapshot(n.model(), r) == Err::<NodeModel, ErrorModel>(e@),
        },
{
    match n.read_value(r) {
        Err(e) => Err(e),
        Ok(text) => Ok(
            DomNode {
                id: n.id,
                origin: None,
                kind: n.kind,
                name: n.name.clone(),
                value: DomText { text, raw: false },
                attributes: copy_attributes(&n.attributes),
                children: clone_trees(&n.children),
                recorded: false,
                touched: false,
            },
        ),
    }
}

/// A list of nodes that is being settled, and the element whose children they are, with its
/// attributes; `acc` are the nodes outside of the tree.
struct Settling<'a> {
    of: Option<&'a DomNode>,
    attributes: Vec<DomAttribute>,
    nodes: &'a Vec<DomNode>,
    out: Vec<DomNode>,
    acc: Ghost<Seq<NodeModel>>,
}

impl<'a> Settling<'a> {
    /// The first nodes and the attributes are settled.
    spec fn wf(self, r: Reading) -> bool {
        let m = tree_models(self.nodes@);
        &&& self.out@.len() <= m.len()
        &&& tree_models(self.out@) == settled_all(m, self.out@.len() as int, r)
        &&& snapshots_from(m, 0, r, Seq::empty()) == snapshots_from(
            m,
            self.out@.len() as int,
            r,
            self.acc@,
        )
        &&& self.of matches Some(d) ==> plain_attributes(d.model(), r) is Ok
            && tree_attribute_models(self.attributes@) == settled_attributes(
            d.model().attributes,
            r,
        )
    }

    /// The element is the next node of another list.
    spec fn next_of(self, parent: Settling<'a>) -> bool {
        &&& self.of matches Some(d) && self.nodes == d.children && d.kind == XmlNodeKind::Element
        &&& parent.out@.len() < parent.nodes@.len()
        &&& parent.nodes@[parent.out@.len() as int] == *self.of->Some_0
    }
}

/// What is left in the lists that wait for one of their nodes.
spec fn settling_left(st: Seq<Settling<'_>>) -> nat
    decreases st.len(),
{
    if st.len() == 0 {
        0
    } else {
        settling_left(st.drop_last()) + 2 * later_sizes(
            tree_models(st.last().nodes@),
            st.last().out@.len() as int + 1,
        ) + 1
    }
}

/// The lists wait for one another.
spec fn settling_chained(st: Seq<Settling<'_>>, top: Settling<'_>, r: Reading) -> bool
    decreases st.len(),
{
    &&& top.wf(r)
    &&& if st.len() == 0 {
        top.of is None
    } else {
        top.next_of(st.last()) && settling_chained(st.drop_last(), st.last(), r)
    }
}

/// The list at the bottom of the stack.
spec fn settling_bottom(st: Seq<Settling<'_>>, top: Settling<'_>) -> Seq<TreeModel> {
    if st.len() == 0 {
        tree_models(top.nodes@)
    } else {
        tree_models(st[0].nodes@)
    }
}

/// What fails in one list fails in those that wait for it.
proof fn lemma_settling_fails(st: Seq<Settling<'_>>, top: Settling<'_>, r: Reading, e: ErrorModel)
    requires
        settling_chained(st, top, r),
        snapshots_from(tree_models(top.nodes@), 0, r, Seq::empty()) == Err::<
            Seq<NodeModel>,
            ErrorModel,
        >(e),
    ensures
        snapshots_from(settling_bottom(st, top), 0, r, Seq::empty()) == Err::<
            Seq<NodeModel>,
            ErrorModel,
        >(e),
    decreases st.len(),
{
    if st.len() > 0 {
        let parent = st.last();
        let k = parent.out@.len() as int;
        let m = tree_models(parent.nodes@);
        let d = top.of->Some_0;
        assert(m[k] == d.model());
        assert(d.model().children == tree_models(top.nodes@));
        assert(snapshot(m[k], r) == Err::<NodeModel, ErrorModel>(e));
        assert(settling_chained(st.drop_last(), parent, r));
        assert(parent.wf(r));
        assert(snapshots_from(m, k, r, parent.acc@) == Err::<Seq<NodeModel>, ErrorModel>(e));
        lemma_settling_fails(st.drop_last(), parent, r, e);
        assert(settling_bottom(st.drop_last(), parent) == settling_bottom(st, top));
    }
}

/// Makes trees with the same numbers and values that mean what they say.
///
/// The lists that are not done wait on a stack, so that the depth of the trees does not matter.
fn settle_all(n: &Vec<DomNode>, r: Reading) -> (res: XmlResult<Vec<DomNode>>)
    ensures
        match res {
            Ok(x) => snapshots_from(tree_models(n@), 0, r, Seq::empty()) is Ok && tree_models(x@)
                == settled_all(tree_models(n@), n@.len() as int, r),
            Err(e) => snapshots_from(tree_models(n@), 0, r, Seq::empty()) == Err::<
                Seq<NodeModel>,
                ErrorModel,
            >(e@),
        },
{
    let mut stack: Vec<Settling<'_>> = Vec::new();
    let mut top = Settling {
        of: None,
        attributes: Vec::new(),
        nodes: n,
        out: Vec::new(),
        acc: Ghost(Seq::empty()),
    };
    proof {
        assert(tree_models(top.out@) =~= Seq::<TreeModel>::empty());
    }
    loop
        invariant
            settling_chained(stack@, top, r),
            settling_bottom(stack@, top) == tree_models(n@),
        decreases
                settling_left(stack@) + 2 * later_sizes(
                    tree_models(top.nodes@),
                    top.out@.len() as int,
                ) + 1,
    {
        let k: usize = top.out.len();
        let ghost m = tree_models(top.nodes@);
        if k < top.nodes.len() {
            let x = &top.nodes[k];
            proof {
                assert(m[k as int] == x.model());
                assert(later_sizes(m, k as int) == size(m[k as int]) + later_sizes(m, k + 1));
            }
            if x.kind == XmlNodeKind::Element {
                let attributes = match settle_attributes(x, r) {
                    Err(e) => {
                        proof {
                            assert(snapshot(m[k as int], r) == Err::<NodeModel, ErrorModel>(e@));
                            lemma_settling_fails(stack@, top, r, e@);
                        }
                        return Err(e);
                    },
                    Ok(a) => a,
                };
                let below = Settling {
                    of: Some(x),
                    attributes,
                    nodes: &x.children,
                    out: Vec::new(),
                    acc: Ghost(Seq::empty()),
                };
                let ghost before = stack@;
                let ghost held = top;
                let ghost c = tree_models(x.children@);
                stack.push(top);
                proof {
                    assert(x.model().children == c);
                    assert(tree_models(below.out@) =~= Seq::<TreeModel>::empty());
                    assert(stack@.drop_last() =~= before);
                    assert(stack@.last() == held);
                    lemma_later_sizes(c, 0);
                    assert(size(m[k as int]) == 1 + later_sizes(c, 0));
                }
                top = below;
            } else {
                match settle_leaf(x, r) {
                    Err(e) => {
                        proof {
                            lemma_settling_fails(stack@, top, r, e@);
                        }
                        return Err(e);
                    },
                    Ok(y) => {
                        let ghost before = top.out@;
                        let ghost acc = top.acc@.push(snapshot(m[k as int], r)->Ok_0);
                        top.out.push(y);
                        top.acc = Ghost(acc);
                        proof {
                            assert(tree_models(top.out@) =~= tree_models(before).push(y.model()));
                        }
                    },
                }
            }
        } else {
            let ghost before = stack@;
            match stack.pop() {
                None => {
                    return Ok(top.out);
                },
                Some(parent) => {
                    let mut parent = parent;
                    let ghost list = tree_models(parent.nodes@);
                    let ghost i = parent.out@.len() as int;
                    proof {
                        assert(stack@ =~= before.drop_last());
                        assert(settling_chained(stack@, parent, r));
                        assert(list[i] == parent.nodes@[i].model());
                    }
                    if let Some(d) = top.of {
                        assert(d.model().children == m);
                        let x = settle_element(d, top.attributes, top.out, Ghost(r));
                        let ghost done = parent.out@;
                        let ghost acc = parent.acc@.push(snapshot(list[i], r)->Ok_0);
                        parent.out.push(x);
                        parent.acc = Ghost(acc);
                        proof {
                            assert(snapshot(list[i], r) is Ok);
                            assert(x.model() == settled(list[i], r));
                            assert(tree_models(parent.out@) =~= tree_models(done).push(x.model()));
                            assert(parent.wf(r));
                        }
                    }
                    top = parent;
                },
            }
        }
    }
}

} // verus!
