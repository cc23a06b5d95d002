//! Putting nodes into trees.

use vstd::prelude::*;

use crate::dom::{
    attribute_models, node_models, weight, weights, NodeModel, XmlAttribute, XmlElement, XmlNode,
    XmlNodeKind,
};
use crate::tree::{
    node_count, nodes_count, planted, planted_all, planted_attributes, planted_leaf, to_plain_text,
    tree_attribute_models, tree_models, DomAttribute, DomNode, DomText, TreeAttribute, TreeModel,
};

verus! {

/// Nodes are counted from the front or from the back.
proof fn lemma_weight(n: NodeModel)
    ensures
        node_count(n) == weight(n),
    decreases n, 0int,
{
    if let NodeModel::Element(e) = n {
        lemma_weights(e.children, 0);
    }
}

/// The nodes of a list are those of its first nodes and those of the rest.
proof fn lemma_weights(n: Seq<NodeModel>, k: int)
    requires
        0 <= k <= n.len(),
    ensures
        nodes_count(n, n.len() as int) == nodes_count(n, k) + weights(n, k),
    decreases n, n.len() - k,
{
    if k < n.len() {
        lemma_weight(n[k]);
        lemma_weights(n, k + 1);
    }
}

/// Counts the nodes of a node outside of a tree; stops at `limit`.
pub(crate) fn count_node(n: &XmlNode, limit: u64) -> (r: Option<u64>)
    ensures
        match r {
            Some(x) => x == node_count(n.model()) && x <= limit,
            None => node_count(n.model()) > limit,
        },
{
    if limit == 0 {
        proof {
            reveal_with_fuel(node_count, 1);
        }
        return None;
    }
    match n {
        XmlNode::Element(e) => match count_nodes_within(&e.children, limit - 1) {
            Some(x) => Some(x + 1),
            None => None,
        },
        _ => Some(1),
    }
}

/// How many nodes are still to be counted: for each list those from an index on.
spec fn uncounted(st: Seq<(&Vec<XmlNode>, usize)>) -> nat
    decreases st.len(),
{
    if st.len() == 0 {
        0
    } else {
        uncounted(st.drop_last()) + weights(node_models(st.last().0@), st.last().1 as int)
    }
}

/// Counts the nodes of nodes outside of a tree; stops at `limit`.
///
/// The lists that are not done wait on a stack, so that the depth of the nodes does not matter.
pub(crate) fn count_nodes_within(n: &Vec<XmlNode>, limit: u64) -> (r: Option<u64>)
    ensures
        match r {
            Some(x) => x == nodes_count(node_models(n@), n@.len() as int) && x <= limit,
            None => nodes_count(node_models(n@), n@.len() as int) > limit,
        },
{
    let ghost goal = nodes_count(node_models(n@), n@.len() as int);
    let mut total: u64 = 0;
    let mut stack: Vec<(&Vec<XmlNode>, usize)> = Vec::new();
    stack.push((n, 0));
    proof {
        lemma_weights(node_models(n@), 0);
        assert(stack@.drop_last() =~= Seq::<(&Vec<XmlNode>, usize)>::empty());
        assert(uncounted(stack@.drop_last()) == 0);
    }
    while stack.len() > 0
        invariant
            total <= limit,
            total + uncounted(stack@) == goal,
            goal == nodes_count(node_models(n@), n@.len() as int),
        decreases uncounted(stack@), stack@.len(),
    {
        let ghost before = stack@;
        if let Some((nodes, k)) = stack.pop() {
            let ghost m = node_models(nodes@);
            let ghost below = stack@;
            proof {
                assert(before.drop_last() =~= below);
                assert(before.last() == (nodes, k));
            }
            if k < nodes.len() {
                assert(m[k as int] == nodes@[k as int].model());
                assert(weights(m, k as int) == weight(m[k as int]) + weights(m, k + 1));
                if total == limit {
                    return None;
                }
                total = total + 1;
                stack.push((nodes, k + 1));
                let ghost held = stack@;
                proof {
                    assert(held.drop_last() =~= below);
                    assert(uncounted(held) == uncounted(below) + weights(m, k + 1));
                }
                if let XmlNode::Element(e) = &nodes[k] {
                    stack.push((&e.children, 0));
                    proof {
                        assert(stack@.drop_last() =~= held);
                        assert(uncounted(stack@) == uncounted(held) + weights(
                            node_models(e.children@),
                            0,
                        ));
                    }
                }
            }
        }
    }
    Some(total)
}

/// More nodes have more nodes.
pub proof fn lemma_nodes_count_monotone(n: Seq<NodeModel>, j: int, k: int)
    requires
        0 <= j <= k <= n.len(),
    ensures
        nodes_count(n, j) <= nodes_count(n, k),
    decreases k - j,
{
    if j < k {
        lemma_nodes_count_monotone(n, j, k - 1);
    }
}

/// Puts attributes into a tree.
fn plant_attributes(a: &Vec<XmlAttribute>) -> (r: Vec<DomAttribute>)
    ensures
        tree_attribute_models(r@) == planted_attributes(attribute_models(a@)),
{
    let mut out: Vec<DomAttribute> = Vec::new();
    let mut k: usize = 0;
    while k < a.len()
        invariant
            k <= a@.len(),
            out@.len() == k,
            forall|i: int|
                0 <= i < k ==> (#[trigger] out@[i])@ == planted_attributes(attribute_models(a@))[i],
        decreases a@.len() - k,
    {
        out.push(
            DomAttribute {
                name: a[k].name.clone(),
                value: to_plain_text(a[k].value.as_str()),
            },
        );
        k = k + 1;
    }
    proof {
        assert(tree_attribute_models(out@) =~= planted_attributes(attribute_models(a@)));
    }
    out
}

/// Puts a node into a tree, its nodes numbered from `first` on.
pub(crate) fn plant(n: &XmlNode, first: u64) -> (r: DomNode)
    requires
        first + node_count(n.model()) <= u64::MAX,
    ensures
        r.model() == planted(n.model(), first as int),
{
    match n {
        XmlNode::Element(e) => {
            let children = plant_all(&e.children, first + 1);
            plant_element(e, first, children)
        },
        leaf => plant_outer(leaf, first),
    }
}

/// Puts an element into a tree, above children that are there.
fn plant_element(e: &XmlElement, id: u64, children: Vec<DomNode>) -> (r: DomNode)
    requires
        tree_models(children@) == planted_all(
            e.model().children,
            e.model().children.len() as int,
            id + 1,
        ),
    ensures
        r.model() == planted(NodeModel::Element(e.model()), id as int),
{
    DomNode {
        id,
        origin: None,
        kind: XmlNodeKind::Element,
        name: e.name.clone(),
        value: DomText { text: String::new(), raw: false },
        attributes: plant_attributes(&e.attributes),
        children,
        recorded: false,
        touched: false,
    }
}

/// Puts a node that is not an element into a tree.
fn plant_outer(n: &XmlNode, id: u64) -> (r: DomNode)
    requires
        n !is Element,
    ensures
        r.model() == planted(n.model(), id as int),
{
    proof {
        reveal_strlit("");
        assert(""@ =~= Seq::<char>::empty());
    }
    match n {
        XmlNode::Element(e) => plant_leaf(id, XmlNodeKind::Element, e.name.as_str(), ""),
        XmlNode::Text(s) => plant_leaf(id, XmlNodeKind::Text, "", s.as_str()),
        XmlNode::Comment(s) => plant_leaf(id, XmlNodeKind::Comment, "", s.as_str()),
        XmlNode::Cdata(s) => plant_leaf(id, XmlNodeKind::Cdata, "", s.as_str()),
        XmlNode::ProcessingInstruction(i) => plant_leaf(
            id,
            XmlNodeKind::ProcessingInstruction,
            i.target.as_str(),
            i.data.as_str(),
        ),
    }
}

/// A node that is not an element, in a tree.
pub(crate) fn plant_leaf(id: u64, kind: XmlNodeKind, name: &str, value: &str) -> (r: DomNode)
    ensures
        r.model() == planted_leaf(id, kind, name@, value@),
{
    let r = DomNode {
        id,
        origin: None,
        kind,
        name: name.to_owned(),
        value: to_plain_text(value),
        attributes: Vec::new(),
        children: Vec::new(),
        recorded: false,
        touched: false,
    };
    proof {
        assert(tree_attribute_models(r.attributes@) =~= Seq::<TreeAttribute>::empty());
        assert(tree_models(r.children@) =~= Seq::<TreeModel>::empty());
    }
    r
}

/// A list of nodes that is being put into a tree, numbered from `first` on, and the element whose
/// children they are, with its number.
struct Planting<'a> {
    of: Option<&'a XmlElement>,
    id: u64,
    nodes: &'a Vec<XmlNode>,
    first: u64,
    out: Vec<DomNode>,
}

impl<'a> Planting<'a> {
    /// The first nodes are in the tree, and there are numbers for all.
    spec fn wf(self) -> bool {
        let m = node_models(self.nodes@);
        &&& self.out@.len() <= m.len()
        &&& tree_models(self.out@) == planted_all(m, self.out@.len() as int, self.first as int)
        &&& self.first + nodes_count(m, m.len() as int) <= u64::MAX
    }

    /// The number of the next node.
    spec fn next(self) -> int {
        self.first + nodes_count(node_models(self.nodes@), self.out@.len() as int)
    }

    /// The element is the next node of another list.
    spec fn next_of(self, parent: Planting<'a>) -> bool {
        &&& self.of matches Some(e) && self.nodes == e.children
        &&& self.id == parent.next()
        &&& self.first == self.id + 1
        &&& parent.out@.len() < parent.nodes@.len()
        &&& parent.nodes@[parent.out@.len() as int] == XmlNode::Element(*self.of->Some_0)
    }
}

/// What is left in the lists that wait for one of their nodes.
spec fn planting_left(st: Seq<Planting<'_>>) -> nat
    decreases st.len(),
{
    if st.len() == 0 {
        0
    } else {
        planting_left(st.drop_last()) + 2 * weights(
            node_models(st.last().nodes@),
            st.last().out@.len() as int + 1,
        ) + 1
    }
}

/// The lists wait for one another.
spec fn planting_chained(st: Seq<Planting<'_>>, top: Planting<'_>) -> bool
    decreases st.len(),
{
    &&& top.wf()
    &&& if st.len() == 0 {
        top.of is None
    } else {
        top.next_of(st.last()) && planting_chained(st.drop_last(), st.last())
    }
}

/// The list at the bottom of the stack, and its first number.
spec fn planting_bottom(st: Seq<Planting<'_>>, top: Planting<'_>) -> (Seq<NodeModel>, u64) {
    if st.len() == 0 {
        (node_models(top.nodes@), top.first)
    } else {
        (node_models(st[0].nodes@), st[0].first)
    }
}

/// Puts nodes into a tree, numbered from `first` on.
///
/// The lists that are not done wait on a stack, so that the depth of the nodes does not matter.
pub(crate) fn plant_all(n: &Vec<XmlNode>, first: u64) -> (r: Vec<DomNode>)
    requires
        first + nodes_count(node_models(n@), n@.len() as int) <= u64::MAX,
    ensures
        tree_models(r@) == planted_all(node_models(n@), n@.len() as int, first as int),
        r@.len() == n@.len(),
{
    let mut stack: Vec<Planting<'_>> = Vec::new();
    let mut top = Planting { of: None, id: first, nodes: n, first, out: Vec::new() };
    let mut next: u64 = first;
    proof {
        assert(tree_models(top.out@) =~= Seq::<TreeModel>::empty());
    }
    loop
        invariant
            planting_chained(stack@, top),
            planting_bottom(stack@, top) == (node_models(n@), first),
            next == top.next(),
        decreases
                planting_left(stack@) + 2 * weights(
                    node_models(top.nodes@),
                    top.out@.len() as int,
                ) + 1,
    {
        let k: usize = top.out.len();
        let ghost m = node_models(top.nodes@);
        if k < top.nodes.len() {
            proof {
                assert(m[k as int] == top.nodes@[k as int].model());
                assert(weights(m, k as int) == weight(m[k as int]) + weights(m, k + 1));
                assert(nodes_count(m, k + 1) == nodes_count(m, k as int) + node_count(
                    m[k as int],
                ));
                lemma_nodes_count_monotone(m, k + 1, m.len() as int);
                reveal_with_fuel(node_count, 1);
            }
            match &top.nodes[k] {
                XmlNode::Element(e) => {
                    let below = Planting {
                        of: Some(e),
                        id: next,
                        nodes: &e.children,
                        first: next + 1,
                        out: Vec::new(),
                    };
                    let ghost c = node_models(e.children@);
                    let ghost before = stack@;
                    let ghost held = top;
                    stack.push(top);
                    proof {
                        assert(e.model().children == c);
                        assert(tree_models(below.out@) =~= Seq::<TreeModel>::empty());
                        assert(stack@.drop_last() =~= before);
                        assert(stack@.last() == held);
                        assert(below.wf());
                        assert(below.next_of(held));
                        assert(weight(m[k as int]) == 1 + weights(c, 0));
                    }
                    top = below;
                    next = next + 1;
                },
                leaf => {
                    let x = plant_outer(leaf, next);
                    let ghost before = top.out@;
                    top.out.push(x);
                    proof {
                        assert(tree_models(top.out@) =~= tree_models(before).push(x.model()));
                        assert(node_count(m[k as int]) == 1);
                    }
                    next = next + 1;
                },
            }
        } else {
            let ghost before = stack@;
            match stack.pop() {
                None => {
                    return top.out;
                },
                Some(parent) => {
                    let mut parent = parent;
                    let ghost list = node_models(parent.nodes@);
                    let ghost i = parent.out@.len() as int;
                    proof {
                        assert(stack@ =~= before.drop_last());
                        assert(planting_chained(stack@, parent));
                        assert(list[i] == parent.nodes@[i].model());
                        assert(nodes_count(list, i + 1) == nodes_count(list, i) + node_count(
                            list[i],
                        ));
                    }
                    if let Some(e) = top.of {
                        let x = plant_element(e, top.id, top.out);
                        let ghost done = parent.out@;
                        parent.out.push(x);
                        proof {
                            assert(e.model().children == m);
                            assert(x.model() == planted(list[i], top.id as int));
                            assert(tree_models(parent.out@) =~= tree_models(done).push(x.model()));
                            assert(parent.wf());
                            assert(parent.next() == next);
                        }
                    }
                    top = parent;
                },
            }
        }
    }
}

} // verus!
