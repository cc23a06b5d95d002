//! What is found where: neighbours, children by name, descendants, texts and positions.

use vstd::prelude::*;

use crate::access::{
    elements_from, elements_of, holds_text, named_handles, named_index, named_index_back, node_name,
    node_value, parent_of, place_of, preorder, preorders, sibling_at, siblings_of, text_index,
};
use crate::dom::{ElementModel, NodeModel, XmlAttribute, XmlElement, XmlNode, XmlNodeKind};
use crate::dom_api::{
    attribute_from, element_from, element_walk, elements_below, elements_named_from, text_below,
    text_from, text_in, walk_all, walk_order, WalkModel,
};
use crate::error::ErrorModel;
use crate::facade::{handle_of, resolved, target, StateModel};
use crate::handle::{DomErrorModel, HandleModel};
use crate::laws::shaped;
use crate::namespace::declares_namespace;
use crate::output::{in_line, line_feeds, position_of};
use crate::placement::{child_of, lemma_element_means, lemma_led, means};
use crate::query::{
    attributes_declare, filter_selection, filtered, has_attributes, joined_from, joined_text,
    lets_through, nodes_declare, SimpleDescendantFilter,
};
use crate::tree::{has_path, node_at, snapshot, Reading, TreeAttribute, TreeModel};

verus! {

/// The parent of a child is the element that it is a child of, and its neighbours are the children
/// right before and right behind it. The root has neither.
pub proof fn lemma_neighbours(s: StateModel, h: HandleModel, g: HandleModel, k: int)
    requires
        child_of(s, h, g, k),
    ensures
        ({
            let p = resolved(s, h)->Ok_0;
            let c = target(s, g)->Ok_0.children;
            &&& parent_of(s, p) == Some(g)
            &&& place_of(p) == k
            &&& siblings_of(s, p) == c
            &&& sibling_at(s, p, place_of(p)) == Some(h)
            &&& sibling_at(s, p, place_of(p) + 1) == (if k + 1 < c.len() {
                Some(handle_of(s, c[k + 1].id))
            } else {
                None
            })
            &&& sibling_at(s, p, place_of(p) - 1) == (if k > 0 {
                Some(handle_of(s, c[k - 1].id))
            } else {
                None
            })
        }),
        parent_of(s, Seq::empty()) is None,
        siblings_of(s, Seq::empty()) == Seq::<TreeModel>::empty(),
        sibling_at(s, Seq::empty(), place_of(Seq::empty()) + 1) is None,
        sibling_at(s, Seq::empty(), place_of(Seq::empty()) - 1) is None,
{
    let p = resolved(s, h)->Ok_0;
    let q = resolved(s, g)->Ok_0;
    assert(p.drop_last() =~= q);
    lemma_led(s, h);
    lemma_led(s, g);
    lemma_last_step(s.root, q, k as usize);
}

proof fn lemma_last_step(t: TreeModel, q: Seq<usize>, k: usize)
    requires
        has_path(t, q.push(k)),
    ensures
        k < node_at(t, q).children.len(),
        node_at(t, q.push(k)) == node_at(t, q).children[k as int],
    decreases q.len(),
{
    let p = q.push(k);
    reveal_with_fuel(has_path, 2);
    reveal_with_fuel(node_at, 2);
    if q.len() > 0 {
        assert(p.drop_first() =~= q.drop_first().push(k));
        assert(p[0] == q[0]);
        lemma_last_step(t.children[q[0] as int], q.drop_first(), k);
    } else {
        assert(p[0] == k);
        assert(p.drop_first() =~= Seq::<usize>::empty());
    }
}

/// Searching from a place on finds the first child with the name at or behind it, searching back
/// the last one at or before it; elements and instructions have names.
pub proof fn lemma_child_by_name(n: Seq<TreeModel>, k: int, name: Seq<char>)
    requires
        0 <= k < n.len(),
    ensures
        node_name(n[k]) == (if n[k].kind == XmlNodeKind::Element || n[k].kind
            == XmlNodeKind::ProcessingInstruction {
            Some(n[k].name)
        } else {
            None
        }),
        match named_index(n, k, name) {
            Some(i) => k <= i < n.len() && node_name(n[i]) == Some(name) && forall|j: int|
                k <= j < i ==> node_name(#[trigger] n[j]) != Some(name),
            None => forall|j: int| k <= j < n.len() ==> node_name(#[trigger] n[j]) != Some(name),
        },
        match named_index_back(n, k, name) {
            Some(i) => 0 <= i <= k && node_name(n[i]) == Some(name) && forall|j: int|
                i < j <= k ==> node_name(#[trigger] n[j]) != Some(name),
            None => forall|j: int| 0 <= j <= k ==> node_name(#[trigger] n[j]) != Some(name),
        },
{
    lemma_named_on(n, k, name);
    lemma_named_back(n, k, name);
}

proof fn lemma_named_on(n: Seq<TreeModel>, k: int, name: Seq<char>)
    requires
        0 <= k <= n.len(),
    ensures
        match named_index(n, k, name) {
            Some(i) => k <= i < n.len() && node_name(n[i]) == Some(name) && forall|j: int|
                k <= j < i ==> node_name(#[trigger] n[j]) != Some(name),
            None => forall|j: int| k <= j < n.len() ==> node_name(#[trigger] n[j]) != Some(name),
        },
    decreases n.len() - k,
{
    if k < n.len() && node_name(n[k]) != Some(name) {
        lemma_named_on(n, k + 1, name);
    }
}

proof fn lemma_named_back(n: Seq<TreeModel>, k: int, name: Seq<char>)
    requires
        -1 <= k < n.len(),
    ensures
        match named_index_back(n, k, name) {
            Some(i) => 0 <= i <= k && node_name(n[i]) == Some(name) && forall|j: int|
                i < j <= k ==> node_name(#[trigger] n[j]) != Some(name),
            None => forall|j: int| 0 <= j <= k ==> node_name(#[trigger] n[j]) != Some(name),
        },
    decreases k + 1,
{
    if 0 <= k && node_name(n[k]) != Some(name) {
        lemma_named_back(n, k - 1, name);
    }
}

/// The first text of an element is its first child that is a text or a CDATA section.
pub proof fn lemma_first_text(n: Seq<TreeModel>, k: int)
    requires
        0 <= k <= n.len(),
    ensures
        match text_index(n, k) {
            Some(i) => k <= i < n.len() && (n[i].kind == XmlNodeKind::Text || n[i].kind
                == XmlNodeKind::Cdata) && forall|j: int|
                k <= j < i ==> (#[trigger] n[j]).kind != XmlNodeKind::Text && n[j].kind
                    != XmlNodeKind::Cdata,
            None => forall|j: int|
                k <= j < n.len() ==> (#[trigger] n[j]).kind != XmlNodeKind::Text && n[j].kind
                    != XmlNodeKind::Cdata,
        },
    decreases n.len() - k,
{
    if k < n.len() && !holds_text(n[k].kind) {
        lemma_first_text(n, k + 1);
    }
}

/// The children with a name come in the order in which they stand: one more child with the name is
/// one more result, behind the others, and any other child changes nothing.
pub proof fn lemma_children_by_name(s: StateModel, n: Seq<TreeModel>, x: TreeModel, name: Seq<char>)
    ensures
        named_handles(s, Seq::empty(), 0, name, Seq::empty()) == Seq::<HandleModel>::empty(),
        named_handles(s, n.push(x), 0, name, Seq::empty()) == (if (x.kind == XmlNodeKind::Element
            || x.kind == XmlNodeKind::ProcessingInstruction) && x.name == name {
            named_handles(s, n, 0, name, Seq::empty()).push(handle_of(s, x.id))
        } else {
            named_handles(s, n, 0, name, Seq::empty())
        }),
{
    lemma_named_push(s, n, x, name, 0, Seq::empty());
}

proof fn lemma_named_push(
    s: StateModel,
    n: Seq<TreeModel>,
    x: TreeModel,
    name: Seq<char>,
    k: int,
    acc: Seq<HandleModel>,
)
    requires
        0 <= k <= n.len(),
    ensures
        named_handles(s, n.push(x), k, name, acc) == (if node_name(x) == Some(name) {
            named_handles(s, n, k, name, acc).push(handle_of(s, x.id))
        } else {
            named_handles(s, n, k, name, acc)
        }),
    decreases n.len() - k,
{
    reveal_with_fuel(named_handles, 2);
    if k < n.len() {
        assert(n.push(x)[k] == n[k]);
        if node_name(n[k]) == Some(name) {
            lemma_named_push(s, n, x, name, k + 1, acc.push(handle_of(s, n[k].id)));
        } else {
            lemma_named_push(s, n, x, name, k + 1, acc);
        }
    } else {
        assert(n.push(x)[k] == x);
    }
}

/// A node comes before the nodes below it, and those below a child before the next child: one more
/// child adds the child and what is below it, at the end.
pub proof fn lemma_nodes_in_order(t: TreeModel, x: TreeModel)
    ensures
        preorder(t)[0] == t,
        t.children.len() == 0 ==> preorder(t) == seq![t],
        preorder(TreeModel { children: t.children.push(x), ..t }) == seq![
            TreeModel { children: t.children.push(x), ..t },
        ] + preorder(t).skip(1) + preorder(x),
{
    let u = TreeModel { children: t.children.push(x), ..t };
    let n = t.children.len() as int;
    assert(u.children[n] == x);
    lemma_preorders_prefix(t.children, x, n);
    assert(preorder(t).skip(1) =~= preorders(t.children, n));
    assert(preorders(u.children, n + 1) == preorders(u.children, n) + preorder(x));
    assert(preorder(u) =~= seq![u] + preorder(t).skip(1) + preorder(x));
    assert(preorder(t)[0] == t);
    if n == 0 {
        assert(preorder(t) =~= seq![t]);
    }
}

proof fn lemma_preorders_prefix(n: Seq<TreeModel>, x: TreeModel, k: int)
    requires
        0 <= k <= n.len(),
    ensures
        preorders(n.push(x), k) == preorders(n, k),
    decreases k,
{
    if k > 0 {
        assert(n.push(x)[k - 1] == n[k - 1]);
        lemma_preorders_prefix(n, x, k - 1);
    }
}

/// The elements of a list come in its order, and nothing else does.
pub proof fn lemma_elements_in_order(n: Seq<TreeModel>, x: TreeModel, t: TreeModel)
    ensures
        elements_from(Seq::empty(), 0, Seq::empty()) == Seq::<TreeModel>::empty(),
        elements_from(n.push(x), 0, Seq::empty()) == (if x.kind == XmlNodeKind::Element {
            elements_from(n, 0, Seq::empty()).push(x)
        } else {
            elements_from(n, 0, Seq::empty())
        }),
        elements_of(t) == elements_from(preorder(t), 0, Seq::empty()),
{
    lemma_elements_push(n, x, 0, Seq::empty());
}

proof fn lemma_elements_push(n: Seq<TreeModel>, x: TreeModel, k: int, acc: Seq<TreeModel>)
    requires
        0 <= k <= n.len(),
    ensures
        elements_from(n.push(x), k, acc) == (if x.kind == XmlNodeKind::Element {
            elements_from(n, k, acc).push(x)
        } else {
            elements_from(n, k, acc)
        }),
    decreases n.len() - k,
{
    reveal_with_fuel(elements_from, 2);
    if k < n.len() {
        assert(n.push(x)[k] == n[k]);
        if n[k].kind == XmlNodeKind::Element {
            lemma_elements_push(n, x, k + 1, acc.push(n[k]));
        } else {
            lemma_elements_push(n, x, k + 1, acc);
        }
    } else {
        assert(n.push(x)[k] == x);
    }
}

/// A filter lets an element through that has the name, if one is asked for, and every attribute
/// that is asked for. What it lets through keeps its order. A document that declares a namespace
/// is not filtered at all.
pub proof fn lemma_filter(
    f: SimpleDescendantFilter,
    n: Seq<TreeModel>,
    x: TreeModel,
    s: StateModel,
)
    ensures
        lets_through(f, x) <==> {
            &&& f.element_name is Some ==> x.name == f.element_name->Some_0@
            &&& forall|k: int|
                0 <= k < f.required_attributes@.len() ==> #[trigger] has_attribute(
                    x.attributes,
                    f.required_attributes@[k]@,
                )
        },
        filtered(f, Seq::empty(), 0, Seq::empty()) == Seq::<TreeModel>::empty(),
        filtered(f, n.push(x), 0, Seq::empty()) == (if lets_through(f, x) {
            filtered(f, n, 0, Seq::empty()).push(x)
        } else {
            filtered(f, n, 0, Seq::empty())
        }),
        filter_selection(s, f) is None <==> exists|i: int, j: int|
            0 <= i < elements_of(s.root).len() && 0 <= j < elements_of(s.root)[i].attributes.len()
                && #[trigger] declares_namespace(elements_of(s.root)[i].attributes[j].name),
        filter_selection(s, f) matches Some(r) ==> r.len() == filtered(
            f,
            elements_of(s.root),
            0,
            Seq::empty(),
        ).len() && forall|k: int|
            0 <= k < r.len() ==> #[trigger] r[k] == handle_of(
                s,
                filtered(f, elements_of(s.root), 0, Seq::empty())[k].id,
            ),
{
    lemma_has_attributes(x.attributes, f.required_attributes@, 0);
    lemma_filtered_push(f, n, x, 0, Seq::empty());
    let e = elements_of(s.root);
    lemma_nodes_declare(e, 0);
}

/// An attribute with the name is there.
pub open spec fn has_attribute(a: Seq<TreeAttribute>, name: Seq<char>) -> bool {
    exists|i: int| 0 <= i < a.len() && (#[trigger] a[i]).name == name
}

proof fn lemma_has_attributes(a: Seq<TreeAttribute>, names: Seq<String>, k: int)
    requires
        0 <= k <= names.len(),
    ensures
        has_attributes(a, names, k) <==> forall|i: int|
            k <= i < names.len() ==> #[trigger] has_attribute(a, names[i]@),
    decreases names.len() - k,
{
    if k < names.len() {
        lemma_has_attributes(a, names, k + 1);
        crate::effects::lemma_attribute_index(a, 0, names[k]@);
        assert(has_attribute(a, names[k]@) <==> crate::access::attribute_index(
            a,
            0,
            names[k]@,
        ) is Some);
    }
}

proof fn lemma_filtered_push(
    f: SimpleDescendantFilter,
    n: Seq<TreeModel>,
    x: TreeModel,
    k: int,
    acc: Seq<TreeModel>,
)
    requires
        0 <= k <= n.len(),
    ensures
        filtered(f, n.push(x), k, acc) == (if lets_through(f, x) {
            filtered(f, n, k, acc).push(x)
        } else {
            filtered(f, n, k, acc)
        }),
    decreases n.len() - k,
{
    reveal_with_fuel(filtered, 2);
    if k < n.len() {
        assert(n.push(x)[k] == n[k]);
        if lets_through(f, n[k]) {
            lemma_filtered_push(f, n, x, k + 1, acc.push(n[k]));
        } else {
            lemma_filtered_push(f, n, x, k + 1, acc);
        }
    } else {
        assert(n.push(x)[k] == x);
    }
}

proof fn lemma_attributes_declare(a: Seq<TreeAttribute>, k: int)
    requires
        0 <= k <= a.len(),
    ensures
        attributes_declare(a, k) <==> exists|j: int|
            k <= j < a.len() && #[trigger] declares_namespace(a[j].name),
    decreases a.len() - k,
{
    if k < a.len() {
        lemma_attributes_declare(a, k + 1);
    }
}

proof fn lemma_nodes_declare(n: Seq<TreeModel>, k: int)
    requires
        0 <= k <= n.len(),
    ensures
        nodes_declare(n, k) <==> exists|i: int, j: int|
            k <= i < n.len() && 0 <= j < n[i].attributes.len() && #[trigger] declares_namespace(
                n[i].attributes[j].name,
            ),
    decreases n.len() - k,
{
    if k < n.len() {
        lemma_nodes_declare(n, k + 1);
        lemma_attributes_declare(n[k].attributes, 0);
    }
}

/// The text of an element is that of the texts and CDATA sections below it, one behind the other.
pub proof fn lemma_joined_text(n: Seq<TreeModel>, x: TreeModel, r: Reading, t: TreeModel)
    ensures
        joined_from(Seq::empty(), 0, r, Seq::empty()) == Ok::<Seq<char>, DomErrorModel>(
            Seq::empty(),
        ),
        joined_from(n.push(x), 0, r, Seq::empty()) == (match joined_from(
            n,
            0,
            r,
            Seq::empty(),
        ) {
            Err(e) => Err::<Seq<char>, DomErrorModel>(e),
            Ok(a) => if x.kind == XmlNodeKind::Text || x.kind == XmlNodeKind::Cdata {
                match node_value(x, r) {
                    Err(e) => Err(e),
                    Ok(Some(b)) => Ok(a + b),
                    Ok(None) => Ok(a),
                }
            } else {
                Ok(a)
            },
        }),
        joined_text(t, r) == joined_from(preorder(t), 0, r, Seq::empty()),
{
    lemma_joined_push(n, x, r, 0, Seq::empty());
}

proof fn lemma_joined_push(n: Seq<TreeModel>, x: TreeModel, r: Reading, k: int, acc: Seq<char>)
    requires
        0 <= k <= n.len(),
    ensures
        joined_from(n.push(x), k, r, acc) == (match joined_from(n, k, r, acc) {
            Err(e) => Err::<Seq<char>, DomErrorModel>(e),
            Ok(a) => if holds_text(x.kind) {
                match node_value(x, r) {
                    Err(e) => Err(e),
                    Ok(Some(b)) => Ok(a + b),
                    Ok(None) => Ok(a),
                }
            } else {
                Ok(a)
            },
        }),
    decreases n.len() - k,
{
    reveal_with_fuel(joined_from, 2);
    if k < n.len() {
        assert(n.push(x)[k] == n[k]);
        if holds_text(n[k].kind) {
            match node_value(n[k], r) {
                Err(_) => {},
                Ok(Some(b)) => {
                    lemma_joined_push(n, x, r, k + 1, acc + b);
                },
                Ok(None) => {
                    lemma_joined_push(n, x, r, k + 1, acc);
                },
            }
        } else {
            lemma_joined_push(n, x, r, k + 1, acc);
        }
    } else {
        assert(n.push(x)[k] == x);
    }
}

/// Lines and columns count from one. Behind a line feed the next line starts at its first column;
/// any other character is one column.
pub proof fn lemma_lines_and_columns(s: Seq<char>, i: int)
    requires
        0 <= i < s.len(),
    ensures
        position_of(s, 0).line == 1,
        position_of(s, 0).column == 1,
        position_of(s, 0).byte == 0,
        s[i] == '\n' ==> line_feeds(s, i + 1) == line_feeds(s, i) + 1 && in_line(s, i + 1) == 0,
        s[i] != '\n' ==> line_feeds(s, i + 1) == line_feeds(s, i) && in_line(s, i + 1) == in_line(
            s,
            i,
        ) + 1,
        line_feeds(s, i) < usize::MAX ==> position_of(s, i).line == line_feeds(s, i) + 1,
        in_line(s, i) < usize::MAX ==> position_of(s, i).column == in_line(s, i) + 1,
{
    assert(crate::text::byte_offset(s, 0) == 0);
}

/// Of an element outside of a document: the first attribute with the name, the first child element
/// with the name, the first text or CDATA section.
pub proof fn lemma_first_of_an_element(
    a: Seq<XmlAttribute>,
    c: Seq<XmlNode>,
    k: int,
    name: Seq<char>,
)
    requires
        0 <= k,
    ensures
        match attribute_from(a, k, name) {
            Some(i) => k <= i < a.len() && a[i].name@ == name && forall|j: int|
                k <= j < i ==> (#[trigger] a[j]).name@ != name,
            None => forall|j: int| k <= j < a.len() ==> (#[trigger] a[j]).name@ != name,
        },
        match element_from(c, k, name) {
            Some(i) => k <= i < c.len() && (c[i] is Element && c[i]->Element_0.name@ == name)
                && forall|j: int|
                k <= j < i ==> !(#[trigger] c[j] is Element && c[j]->Element_0.name@ == name),
            None => forall|j: int|
                k <= j < c.len() ==> !(#[trigger] c[j] is Element && c[j]->Element_0.name@ == name),
        },
        match text_from(c, k) {
            Some(i) => k <= i < c.len() && (c[i] is Text || c[i] is Cdata) && forall|j: int|
                k <= j < i ==> !(#[trigger] c[j] is Text) && !(c[j] is Cdata),
            None => forall|j: int|
                k <= j < c.len() ==> !(#[trigger] c[j] is Text) && !(c[j] is Cdata),
        },
    decreases a.len() + c.len() - k,
{
    if k < a.len() || k < c.len() {
        lemma_first_of_an_element(a, c, k + 1, name);
    }
}

/// The child elements of an element outside of a document, all of them or those with a name, come
/// in the order in which they stand.
pub proof fn lemma_elements_of_an_element(c: Seq<XmlNode>, x: XmlNode, name: Seq<char>)
    ensures
        crate::dom_api::elements_from(c.push(x), 0, Seq::empty()) == (match x {
            XmlNode::Element(e) => crate::dom_api::elements_from(c, 0, Seq::empty()).push(e),
            _ => crate::dom_api::elements_from(c, 0, Seq::empty()),
        }),
        elements_named_from(c.push(x), 0, name, Seq::empty()) == (match x {
            XmlNode::Element(e) => if e.name@ == name {
                elements_named_from(c, 0, name, Seq::empty()).push(e)
            } else {
                elements_named_from(c, 0, name, Seq::empty())
            },
            _ => elements_named_from(c, 0, name, Seq::empty()),
        }),
        crate::dom_api::elements_from(Seq::empty(), 0, Seq::empty()) == Seq::<XmlElement>::empty(),
        elements_named_from(Seq::empty(), 0, name, Seq::empty()) == Seq::<XmlElement>::empty(),
{
    lemma_plain_elements_push(c, x, 0, Seq::empty());
    lemma_plain_named_push(c, x, name, 0, Seq::empty());
}

proof fn lemma_plain_elements_push(c: Seq<XmlNode>, x: XmlNode, k: int, acc: Seq<XmlElement>)
    requires
        0 <= k <= c.len(),
    ensures
        crate::dom_api::elements_from(c.push(x), k, acc) == (match x {
            XmlNode::Element(e) => crate::dom_api::elements_from(c, k, acc).push(e),
            _ => crate::dom_api::elements_from(c, k, acc),
        }),
    decreases c.len() - k,
{
    reveal_with_fuel(crate::dom_api::elements_from, 2);
    if k < c.len() {
        assert(c.push(x)[k] == c[k]);
        match c[k] {
            XmlNode::Element(e) => {
                lemma_plain_elements_push(c, x, k + 1, acc.push(e));
            },
            _ => {
                lemma_plain_elements_push(c, x, k + 1, acc);
            },
        }
    } else {
        assert(c.push(x)[k] == x);
    }
}

proof fn lemma_plain_named_push(
    c: Seq<XmlNode>,
    x: XmlNode,
    name: Seq<char>,
    k: int,
    acc: Seq<XmlElement>,
)
    requires
        0 <= k <= c.len(),
    ensures
        elements_named_from(c.push(x), k, name, acc) == (match x {
            XmlNode::Element(e) => if e.name@ == name {
                elements_named_from(c, k, name, acc).push(e)
            } else {
                elements_named_from(c, k, name, acc)
            },
            _ => elements_named_from(c, k, name, acc),
        }),
    decreases c.len() - k,
{
    reveal_with_fuel(elements_named_from, 2);
    if k < c.len() {
        assert(c.push(x)[k] == c[k]);
        if crate::dom_api::node_is_named(c[k], name) {
            lemma_plain_named_push(c, x, name, k + 1, acc.push(c[k]->Element_0));
        } else {
            lemma_plain_named_push(c, x, name, k + 1, acc);
        }
    } else {
        assert(c.push(x)[k] == x);
    }
}

/// The text of a node outside of a document: that of a text or a CDATA section is its own, that of
/// an element is that of its children, one behind the other, and other nodes have none.
pub proof fn lemma_text_of_a_node(e: ElementModel, x: NodeModel, t: Seq<char>)
    ensures
        text_in(NodeModel::Text(t)) == t,
        text_in(NodeModel::Cdata(t)) == t,
        text_in(NodeModel::Comment(t)) == Seq::<char>::empty(),
        x is ProcessingInstruction ==> text_in(x) == Seq::<char>::empty(),
        e.children.len() == 0 ==> text_in(NodeModel::Element(e)) == Seq::<char>::empty(),
        text_in(NodeModel::Element(ElementModel { children: e.children.push(x), ..e })) == text_in(
            NodeModel::Element(e),
        ) + text_in(x),
{
    let c = e.children.push(x);
    lemma_text_prefix(e.children, x, e.children.len() as int);
    assert(c[c.len() - 1] == x);
    assert(text_below(c, c.len() as int) == text_below(c, c.len() - 1) + text_in(x));
}

proof fn lemma_text_prefix(n: Seq<NodeModel>, x: NodeModel, k: int)
    requires
        0 <= k <= n.len(),
    ensures
        text_below(n.push(x), k) == text_below(n, k),
    decreases k,
{
    if k > 0 {
        assert(n.push(x)[k - 1] == n[k - 1]);
        lemma_text_prefix(n, x, k - 1);
    }
}

/// A walk comes to an element before what is below it, and to that before the next child; each
/// level is one deeper. The elements come in the same order.
pub proof fn lemma_walk_in_order(e: ElementModel, x: NodeModel, depth: usize)
    requires
        depth < usize::MAX,
    ensures
        ({
            let n = NodeModel::Element(e);
            let m = NodeModel::Element(ElementModel { children: e.children.push(x), ..e });
            &&& walk_order(n, depth)[0] == (WalkModel { node: n, depth })
            &&& e.children.len() == 0 ==> walk_order(n, depth) == seq![WalkModel { node: n, depth }]
            &&& walk_order(m, depth) == seq![WalkModel { node: m, depth }] + walk_order(
                n,
                depth,
            ).skip(1) + walk_order(x, (depth + 1) as usize)
            &&& element_walk(n)[0] == e
            &&& element_walk(m) == seq![m->Element_0] + element_walk(n).skip(1) + element_walk(x)
        }),
        !(x is Element) ==> walk_order(x, depth) == seq![WalkModel { node: x, depth }]
            && element_walk(x) == Seq::<ElementModel>::empty(),
{
    let c = e.children;
    lemma_walk_push(c, x, 0, (depth + 1) as usize);
    lemma_element_walk_push(c, x, 0);
    let n = NodeModel::Element(e);
    let m = NodeModel::Element(ElementModel { children: c.push(x), ..e });
    assert(walk_order(n, depth).skip(1) =~= walk_all(c, 0, (depth + 1) as usize));
    assert(walk_order(m, depth) =~= seq![WalkModel { node: m, depth }] + walk_order(
        n,
        depth,
    ).skip(1) + walk_order(x, (depth + 1) as usize));
    assert(element_walk(n).skip(1) =~= elements_below(c, 0));
    assert(element_walk(m) =~= seq![m->Element_0] + element_walk(n).skip(1) + element_walk(x));
    if c.len() == 0 {
        assert(walk_order(n, depth) =~= seq![WalkModel { node: n, depth }]);
    }
}

proof fn lemma_walk_push(n: Seq<NodeModel>, x: NodeModel, k: int, depth: usize)
    requires
        0 <= k <= n.len(),
    ensures
        walk_all(n.push(x), k, depth) == walk_all(n, k, depth) + walk_order(x, depth),
    decreases n.len() - k,
{
    reveal_with_fuel(walk_all, 2);
    if k < n.len() {
        assert(n.push(x)[k] == n[k]);
        lemma_walk_push(n, x, k + 1, depth);
        assert(walk_all(n.push(x), k, depth) =~= walk_all(n, k, depth) + walk_order(x, depth));
    } else {
        assert(n.push(x)[k] == x);
        assert(walk_all(n.push(x), k, depth) =~= walk_all(n, k, depth) + walk_order(x, depth));
    }
}

proof fn lemma_element_walk_push(n: Seq<NodeModel>, x: NodeModel, k: int)
    requires
        0 <= k <= n.len(),
    ensures
        elements_below(n.push(x), k) == elements_below(n, k) + element_walk(x),
    decreases n.len() - k,
{
    reveal_with_fuel(elements_below, 2);
    if k < n.len() {
        assert(n.push(x)[k] == n[k]);
        lemma_element_walk_push(n, x, k + 1);
        assert(elements_below(n.push(x), k) =~= elements_below(n, k) + element_walk(x));
    } else {
        assert(n.push(x)[k] == x);
        assert(elements_below(n.push(x), k) =~= elements_below(n, k) + element_walk(x));
    }
}

proof fn lemma_joined_shift(
    a: Seq<TreeModel>,
    b: Seq<TreeModel>,
    r: Reading,
    k: int,
    acc: Seq<char>,
)
    requires
        0 <= k <= b.len(),
    ensures
        joined_from(a + b, a.len() + k, r, acc) == joined_from(b, k, r, acc),
    decreases b.len() - k,
{
    if k < b.len() {
        assert((a + b)[a.len() + k] == b[k]);
        if holds_text(b[k].kind) {
            match node_value(b[k], r) {
                Err(_) => {},
                Ok(Some(x)) => {
                    lemma_joined_shift(a, b, r, k + 1, acc + x);
                },
                Ok(None) => {
                    lemma_joined_shift(a, b, r, k + 1, acc);
                },
            }
        } else {
            lemma_joined_shift(a, b, r, k + 1, acc);
        }
    }
}

proof fn lemma_joined_parts(
    a: Seq<TreeModel>,
    b: Seq<TreeModel>,
    r: Reading,
    k: int,
    acc: Seq<char>,
)
    requires
        0 <= k <= a.len(),
    ensures
        joined_from(a + b, k, r, acc) == (match joined_from(a, k, r, acc) {
            Err(e) => Err::<Seq<char>, DomErrorModel>(e),
            Ok(x) => joined_from(b, 0, r, x),
        }),
    decreases a.len() - k,
{
    if k < a.len() {
        assert((a + b)[k] == a[k]);
        if holds_text(a[k].kind) {
            match node_value(a[k], r) {
                Err(_) => {},
                Ok(Some(x)) => {
                    lemma_joined_parts(a, b, r, k + 1, acc + x);
                },
                Ok(None) => {
                    lemma_joined_parts(a, b, r, k + 1, acc);
                },
            }
        } else {
            lemma_joined_parts(a, b, r, k + 1, acc);
        }
    } else {
        lemma_joined_shift(a, b, r, 0, acc);
    }
}

proof fn lemma_joined_tree(t: TreeModel, r: Reading, n: NodeModel, acc: Seq<char>)
    requires
        shaped(t),
        snapshot(t, r) == Ok::<NodeModel, ErrorModel>(n),
    ensures
        joined_from(preorder(t), 0, r, acc) == Ok::<Seq<char>, DomErrorModel>(acc + text_in(n)),
    decreases t, 0int,
{
    let below = preorders(t.children, t.children.len() as int);
    let own = seq![t];
    lemma_joined_parts(own, below, r, 0, acc);
    reveal_with_fuel(joined_from, 2);
    assert(own[0] == t);
    match n {
        NodeModel::Element(e) => {
            lemma_element_means(t, r, e);
            lemma_joined_trees(t.children, e.children, t.children.len() as int, r, acc);
        },
        _ => {
            assert(t.kind != XmlNodeKind::Element);
            assert(t.children.len() == 0);
            assert(below =~= Seq::<TreeModel>::empty());
            assert(acc + Seq::<char>::empty() =~= acc);
        },
    }
}

proof fn lemma_joined_trees(
    c: Seq<TreeModel>,
    v: Seq<NodeModel>,
    k: int,
    r: Reading,
    acc: Seq<char>,
)
    requires
        0 <= k <= c.len(),
        forall|i: int| 0 <= i < c.len() ==> shaped(#[trigger] c[i]),
        means(c, v, r),
    ensures
        joined_from(preorders(c, k), 0, r, acc) == Ok::<Seq<char>, DomErrorModel>(
            acc + text_below(v, k),
        ),
    decreases c, k,
{
    if k > 0 {
        lemma_joined_trees(c, v, k - 1, r, acc);
        assert(snapshot(c[k - 1], r) == Ok::<NodeModel, ErrorModel>(v[k - 1]));
        let before = preorders(c, k - 1);
        lemma_joined_parts(before, preorder(c[k - 1]), r, 0, acc);
        let x = acc + text_below(v, k - 1);
        lemma_joined_tree(c[k - 1], r, v[k - 1], x);
        assert(x + text_in(v[k - 1]) =~= acc + text_below(v, k));
    } else {
        assert(acc + text_below(v, k) =~= acc);
    }
}

/// The text of an element of a document is that of the element when it was taken out of it.
pub proof fn lemma_same_text(t: TreeModel, r: Reading, n: NodeModel)
    requires
        shaped(t),
        snapshot(t, r) == Ok::<NodeModel, ErrorModel>(n),
    ensures
        joined_text(t, r) == Ok::<Seq<char>, DomErrorModel>(text_in(n)),
{
    lemma_joined_tree(t, r, n, Seq::empty());
    assert(Seq::<char>::empty() + text_in(n) =~= text_in(n));
}

} // verus!
