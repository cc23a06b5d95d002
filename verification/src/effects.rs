//! What is read after a change of an editable document, and that a refused change has no effect.

use vstd::prelude::*;

use crate::access::{
    attribute_index, attribute_value, element_index, holds_text, node_content, node_name,
    node_value, text_index,
};
use crate::changes::{
    attribute_copied, attribute_ensured, attribute_inserted, attribute_moved, attribute_put,
    attribute_removed, attribute_replaced, attribute_set, changed, copy_added, element_added,
    element_ensured, element_put_first, empty_element, inserted, node_added, node_moved,
    node_removed, node_renamed, node_replaced, nodes_added, replaced, sibling_added, text_ensured,
    text_set, value_set,
};
use crate::dom::{DoctypeModel, NodeModel, XmlNodeKind};
use crate::facade::{
    declaration_set, doctype_set, misc_appended, misc_removed, misc_replaced, resolved, target,
    StateModel,
};
use crate::following::{
    lemma_new_handle, lemma_target_found, lemma_updated_below, lemma_updated_elsewhere,
};
use crate::handle::{DomErrorModel, HandleModel};
use crate::laws::{lemma_heads_changed_wf, lemma_text_set_wf, wf};
use crate::numbers::{lemma_copied_all_len, lemma_planted_all_len};
use crate::tree::{
    copied, copied_all, has_path, lemma_path_found, node_at, nodes_count, plain_text, planted_all,
    sizes, snapshot, snapshots_from, Reading, TreeAttribute, TreeModel,
};

verus! {

/// A refused change of the structure leaves the document as it is.
pub proof fn lemma_refused_structure(
    s: StateModel,
    h: HandleModel,
    g: HandleModel,
    n: NodeModel,
    m: Seq<NodeModel>,
    name: Seq<char>,
    index: usize,
    flag: bool,
)
    ensures
        node_added(s, h, n, flag).1 is Err ==> node_added(s, h, n, flag).0 == s,
        nodes_added(s, h, m).1 is Err ==> nodes_added(s, h, m).0 == s,
        sibling_added(s, h, n, flag).1 is Err ==> sibling_added(s, h, n, flag).0 == s,
        node_replaced(s, h, n).1 is Err ==> node_replaced(s, h, n).0 == s,
        node_removed(s, h).1 is Err ==> node_removed(s, h).0 == s,
        copy_added(s, h, g).1 is Err ==> copy_added(s, h, g).0 == s,
        node_moved(s, h, g, index).1 is Err ==> node_moved(s, h, g, index).0 == s,
        element_added(s, h, name).1 is Err ==> element_added(s, h, name).0 == s,
        element_put_first(s, h, name).1 is Err ==> element_put_first(s, h, name).0 == s,
        element_ensured(s, h, name).1 is Err ==> element_ensured(s, h, name).0 == s,
{
}

/// A refused change of a name, a value, a text or an attribute leaves the document as it is.
pub proof fn lemma_refused_content(
    s: StateModel,
    h: HandleModel,
    o: StateModel,
    g: HandleModel,
    index: usize,
    old_name: Seq<char>,
    name: Seq<char>,
    value: Seq<char>,
)
    ensures
        node_renamed(s, h, name).1 is Err ==> node_renamed(s, h, name).0 == s,
        value_set(s, h, value).1 is Err ==> value_set(s, h, value).0 == s,
        text_set(s, h, value).1 is Err ==> text_set(s, h, value).0 == s,
        text_ensured(s, h, value).1 is Err ==> text_ensured(s, h, value).0 == s,
        attribute_set(s, h, name, value).1 is Err ==> attribute_set(s, h, name, value).0 == s,
        attribute_ensured(s, h, name, value).1 is Err ==> attribute_ensured(s, h, name, value).0
            == s,
        attribute_copied(s, h, o, g, name).1 is Err ==> attribute_copied(s, h, o, g, name).0 == s,
        attribute_removed(s, h, name).1 is Err ==> attribute_removed(s, h, name).0 == s,
        attribute_replaced(s, h, old_name, name, value).1 is Err ==> attribute_replaced(
            s,
            h,
            old_name,
            name,
            value,
        ).0 == s,
        attribute_inserted(s, h, index, name, value).1 is Err ==> attribute_inserted(
            s,
            h,
            index,
            name,
            value,
        ).0 == s,
{
}

/// A refused change of what stands beside the root leaves the document as it is.
pub proof fn lemma_refused_outer(
    s: StateModel,
    after: bool,
    index: usize,
    n: NodeModel,
    data: Seq<char>,
    d: DoctypeModel,
)
    ensures
        misc_appended(s, after, n).1 is Err ==> misc_appended(s, after, n).0 == s,
        misc_removed(s, after, index).1 is Err ==> misc_removed(s, after, index).0 == s,
        misc_replaced(s, after, index, n).1 is Err ==> misc_replaced(s, after, index, n).0 == s,
        declaration_set(s, data).1 is Err ==> declaration_set(s, data).0 == s,
        doctype_set(s, d).1 is Err ==> doctype_set(s, d).0 == s,
{
}

/// A handle finds its node after the node was changed.
proof fn lemma_changed_target(s: StateModel, h: HandleModel, x: TreeModel)
    requires
        wf(s),
        target(s, h) is Ok,
        x.id == h.local,
        wf(changed(s, resolved(s, h)->Ok_0, x)),
    ensures
        target(changed(s, resolved(s, h)->Ok_0, x), h) == Ok::<TreeModel, DomErrorModel>(x),
{
    let p = resolved(s, h)->Ok_0;
    lemma_path_found(s.root, h.local);
    lemma_updated_below(s.root, p, x, Seq::empty());
    assert(p + Seq::<usize>::empty() =~= p);
    lemma_target_found(changed(s, p, x), h, p);
}

/// The first attribute with a name is an attribute with the name.
pub proof fn lemma_attribute_index(a: Seq<TreeAttribute>, k: int, name: Seq<char>)
    requires
        0 <= k,
    ensures
        match attribute_index(a, k, name) {
            Some(i) => k <= i < a.len() && a[i].name == name && forall|j: int|
                k <= j < i ==> (#[trigger] a[j]).name != name,
            None => forall|j: int| k <= j < a.len() ==> (#[trigger] a[j]).name != name,
        },
    decreases a.len() - k,
{
    if k < a.len() {
        lemma_attribute_index(a, k + 1, name);
    }
}

/// The first attribute with a name, where one is known.
proof fn lemma_attribute_index_is(a: Seq<TreeAttribute>, k: int, i: int, name: Seq<char>)
    requires
        0 <= k <= i < a.len(),
        a[i].name == name,
        forall|j: int| k <= j < i ==> (#[trigger] a[j]).name != name,
    ensures
        attribute_index(a, k, name) == Some(i),
    decreases i - k,
{
    if k < i {
        lemma_attribute_index_is(a, k + 1, i, name);
    }
}

/// An attribute that was set has the value, and the other attributes have the values they had.
pub proof fn lemma_set_attribute_is_read(
    s: StateModel,
    h: HandleModel,
    name: Seq<char>,
    value: Seq<char>,
    other: Seq<char>,
)
    requires
        wf(s),
        attribute_set(s, h, name, value).1 is Ok,
    ensures
        ({
            let next = attribute_set(s, h, name, value).0;
            &&& target(next, h) is Ok
            &&& attribute_value(target(next, h)->Ok_0, name, next.reading) == Ok::<
                Option<Seq<char>>,
                DomErrorModel,
            >(Some(value))
            &&& other != name ==> attribute_value(target(next, h)->Ok_0, other, next.reading)
                == attribute_value(target(s, h)->Ok_0, other, s.reading)
        }),
{
    lemma_path_found(s.root, h.local);
    let t = target(s, h)->Ok_0;
    let x = attribute_put(t, name, value);
    lemma_heads_changed_wf(s, h, 0, name, name, value);
    lemma_changed_target(s, h, x);
    lemma_attribute_index(t.attributes, 0, name);
    match attribute_index(t.attributes, 0, name) {
        Some(k) => {
            lemma_attribute_index_is(x.attributes, 0, k, name);
        },
        None => {
            lemma_attribute_index_is(x.attributes, 0, t.attributes.len() as int, name);
        },
    }
    if other != name {
        lemma_attribute_index(t.attributes, 0, other);
        lemma_attribute_index(x.attributes, 0, other);
        match attribute_index(t.attributes, 0, other) {
            Some(i) => {
                assert(x.attributes[i] == t.attributes[i]);
                lemma_attribute_index_is(x.attributes, 0, i, other);
            },
            None => {
                if let Some(i) = attribute_index(x.attributes, 0, other) {
                    if i < t.attributes.len() {
                        assert(x.attributes[i].name == t.attributes[i].name);
                    }
                }
            },
        }
    }
}

/// An attribute that was removed is gone, if the element had no other one with the name.
pub proof fn lemma_removed_attribute_is_gone(s: StateModel, h: HandleModel, name: Seq<char>)
    requires
        wf(s),
        attribute_removed(s, h, name).1 is Ok,
        target(s, h) matches Ok(t) ==> forall|i: int, j: int|
            0 <= i < j < t.attributes.len() ==> (#[trigger] t.attributes[i]).name != (
            #[trigger] t.attributes[j]).name,
    ensures
        ({
            let (next, r) = attribute_removed(s, h, name);
            &&& target(next, h) is Ok
            &&& attribute_value(target(next, h)->Ok_0, name, next.reading) == Ok::<
                Option<Seq<char>>,
                DomErrorModel,
            >(None)
            &&& r == Ok::<bool, DomErrorModel>(
                attribute_index(target(s, h)->Ok_0.attributes, 0, name) is Some,
            )
        }),
{
    lemma_path_found(s.root, h.local);
    let t = target(s, h)->Ok_0;
    lemma_attribute_index(t.attributes, 0, name);
    if let Some(k) = attribute_index(t.attributes, 0, name) {
        let a = t.attributes.remove(k);
        let x = TreeModel { attributes: a, touched: true, ..t };
        lemma_heads_changed_wf(s, h, 0, name, name, name);
        lemma_changed_target(s, h, x);
        lemma_attribute_index(a, 0, name);
        if let Some(i) = attribute_index(a, 0, name) {
            if i < k {
                assert(a[i] == t.attributes[i]);
            } else {
                assert(a[i] == t.attributes[i + 1]);
            }
        }
    }
}

/// An attribute that was moved to an element of another document is read there with the value it
/// had, and is gone where it came from, if it was the only one with the name.
pub proof fn lemma_moved_attribute_is_read(
    s: StateModel,
    h: HandleModel,
    o: StateModel,
    source: HandleModel,
    name: Seq<char>,
)
    requires
        wf(s),
        wf(o),
        attribute_copied(s, h, o, source, name).1 == Ok::<bool, DomErrorModel>(true),
        target(o, source) matches Ok(t) ==> forall|i: int, j: int|
            0 <= i < j < t.attributes.len() ==> (#[trigger] t.attributes[i]).name != (
            #[trigger] t.attributes[j]).name,
    ensures
        ({
            let next = attribute_copied(s, h, o, source, name).0;
            let (left, r) = attribute_removed(o, source, name);
            &&& target(next, h) is Ok
            &&& attribute_value(target(next, h)->Ok_0, name, next.reading) == attribute_value(
                target(o, source)->Ok_0,
                name,
                o.reading,
            )
            &&& attribute_value(target(o, source)->Ok_0, name, o.reading) matches Ok(Some(_))
            &&& r == Ok::<bool, DomErrorModel>(true)
            &&& target(left, source) is Ok
            &&& attribute_value(target(left, source)->Ok_0, name, left.reading) == Ok::<
                Option<Seq<char>>,
                DomErrorModel,
            >(None)
        }),
{
    let t = target(o, source)->Ok_0;
    let x = attribute_value(t, name, o.reading)->Ok_0->Some_0;
    lemma_set_attribute_is_read(s, h, name, x, name);
    lemma_attribute_index(t.attributes, 0, name);
    lemma_removed_attribute_is_gone(o, source, name);
}

/// The first element with a name is an element with the name.
proof fn lemma_element_index(n: Seq<TreeModel>, k: int, name: Seq<char>)
    requires
        0 <= k,
    ensures
        element_index(n, k, name) matches Some(i) ==> k <= i < n.len() && n[i].kind
            == XmlNodeKind::Element && n[i].name == name,
    decreases n.len() - k,
{
    if k < n.len() {
        lemma_element_index(n, k + 1, name);
    }
}

/// The child that was asked for is there in the end, and is an element with the name.
pub proof fn lemma_ensured_element_is_read(s: StateModel, h: HandleModel, name: Seq<char>)
    requires
        wf(s),
        target(s, h) matches Ok(t) ==> t.children.len() < usize::MAX,
        element_ensured(s, h, name).1 is Ok,
    ensures
        ({
            let (next, r) = element_ensured(s, h, name);
            target(next, r->Ok_0) matches Ok(t) && t.kind == XmlNodeKind::Element && t.name == name
        }),
{
    lemma_path_found(s.root, h.local);
    let p = resolved(s, h)->Ok_0;
    let n = node_at(s.root, p).children;
    lemma_element_index(n, 0, name);
    match element_index(n, 0, name) {
        Some(k) => {
            let q = seq![k as usize];
            assert(q.skip(1) =~= Seq::<usize>::empty());
            assert(has_path(n[k], q.skip(1)));
            assert(node_at(n[k], q.skip(1)) == n[k]);
            assert(has_path(node_at(s.root, p), q));
            assert(node_at(node_at(s.root, p), q) == n[k]);
            lemma_path_joined(s.root, p, q);
            lemma_target_found(s, element_ensured(s, h, name).1->Ok_0, p + q);
        },
        None => {
            let m = seq![empty_element(name)];
            assert(nodes_count(m, 0) == 0);
            lemma_new_handle(s, p, n.len() as int, m, 0);
        },
    }
}

/// A path goes on from where another one leads.
proof fn lemma_path_joined(t: TreeModel, p: Seq<usize>, q: Seq<usize>)
    requires
        has_path(t, p),
        has_path(node_at(t, p), q),
    ensures
        has_path(t, p + q),
        node_at(t, p + q) == node_at(node_at(t, p), q),
    decreases p.len(),
{
    if p.len() == 0 {
        assert(p + q =~= q);
    } else {
        assert((p + q).skip(1) =~= p.skip(1) + q);
        lemma_path_joined(t.children[p[0] as int], p.skip(1), q);
    }
}

/// A value that was set is read.
pub proof fn lemma_set_value_is_read(s: StateModel, h: HandleModel, value: Seq<char>)
    requires
        wf(s),
        value_set(s, h, value).1 is Ok,
    ensures
        ({
            let next = value_set(s, h, value).0;
            &&& target(next, h) is Ok
            &&& node_value(target(next, h)->Ok_0, next.reading) == Ok::<
                Option<Seq<char>>,
                DomErrorModel,
            >(Some(value))
        }),
{
    lemma_path_found(s.root, h.local);
    lemma_heads_changed_wf(s, h, 0, value, value, value);
    lemma_changed_target(
        s,
        h,
        TreeModel { value: plain_text(value), touched: true, ..target(s, h)->Ok_0 },
    );
}

/// A name that was set is read.
pub proof fn lemma_set_name_is_read(s: StateModel, h: HandleModel, name: Seq<char>)
    requires
        wf(s),
        node_renamed(s, h, name).1 is Ok,
    ensures
        ({
            let next = node_renamed(s, h, name).0;
            target(next, h) is Ok && node_name(target(next, h)->Ok_0) == Some(name)
        }),
{
    lemma_path_found(s.root, h.local);
    lemma_heads_changed_wf(s, h, 0, name, name, name);
    lemma_changed_target(s, h, TreeModel { name, touched: true, ..target(s, h)->Ok_0 });
}

/// The first node that holds text, where one is known.
proof fn lemma_text_index_is(n: Seq<TreeModel>, k: int, i: int)
    requires
        0 <= k <= i < n.len(),
        holds_text(n[i].kind),
        forall|j: int| k <= j < i ==> !holds_text((#[trigger] n[j]).kind),
    ensures
        text_index(n, k) == Some(i),
    decreases i - k,
{
    if k < i {
        lemma_text_index_is(n, k + 1, i);
    }
}

/// The first node that holds text holds text, and none before it does.
proof fn lemma_text_index_first(n: Seq<TreeModel>, k: int)
    requires
        0 <= k,
    ensures
        text_index(n, k) matches Some(i) ==> k <= i < n.len() && holds_text(n[i].kind) && forall|
            j: int,
        |
            k <= j < i ==> !holds_text((#[trigger] n[j]).kind),
    decreases n.len() - k,
{
    if k < n.len() {
        lemma_text_index_first(n, k + 1);
    }
}

/// A text that was set is read.
pub proof fn lemma_set_text_is_read(s: StateModel, h: HandleModel, value: Seq<char>)
    requires
        wf(s),
        text_set(s, h, value).1 is Ok,
    ensures
        ({
            let next = text_set(s, h, value).0;
            &&& target(next, h) is Ok
            &&& node_content(target(next, h)->Ok_0, next.reading) == Ok::<
                Option<Seq<char>>,
                DomErrorModel,
            >(Some(value))
        }),
{
    lemma_path_found(s.root, h.local);
    let t = target(s, h)->Ok_0;
    let p = resolved(s, h)->Ok_0;
    let next = text_set(s, h, value).0;
    lemma_text_set_wf(s, h, value);
    lemma_text_index_first(t.children, 0);
    match text_index(t.children, 0) {
        Some(k) => {
            let y = TreeModel { value: plain_text(value), touched: true, ..t.children[k] };
            let x = replaced(t, k, y);
            lemma_changed_target(s, h, x);
            assert forall|j: int| 0 <= j < k implies !holds_text(
                (#[trigger] x.children[j]).kind,
            ) by {
                assert(x.children[j] == t.children[j]);
            }
            lemma_text_index_is(x.children, 0, k);
        },
        None => {
            let n = seq![NodeModel::Text(value)];
            let m = planted_all(n, 1, s.next_id as int);
            lemma_planted_all_len(n, 1, s.next_id as int);
            let x = inserted(t, 0, m);
            lemma_updated_below(s.root, p, x, Seq::empty());
            assert(p + Seq::<usize>::empty() =~= p);
            lemma_target_found(next, h, p);
            assert(nodes_count(n, 0) == 0);
            assert(x.children[0] == m[0]);
            lemma_text_index_is(x.children, 0, 0);
        },
    }
}

/// A copy means what the node means.
pub proof fn lemma_copied_snapshot(t: TreeModel, first: int, r: Reading)
    ensures
        snapshot(copied(t, first), r) == snapshot(t, r),
    decreases t, 0int,
{
    lemma_copied_all_len(t.children, t.children.len() as int, first + 1);
    lemma_copied_snapshots(t.children, 0, first + 1, r, Seq::empty());
}

/// Copies mean what the nodes mean.
proof fn lemma_copied_snapshots(
    n: Seq<TreeModel>,
    k: int,
    first: int,
    r: Reading,
    acc: Seq<NodeModel>,
)
    requires
        0 <= k <= n.len(),
    ensures
        snapshots_from(copied_all(n, n.len() as int, first), k, r, acc) == snapshots_from(
            n,
            k,
            r,
            acc,
        ),
    decreases n, n.len() - k,
{
    lemma_copied_all_len(n, n.len() as int, first);
    if k < n.len() {
        lemma_copied_snapshot(n[k], first + sizes(n, k), r);
        if let Ok(x) = snapshot(n[k], r) {
            lemma_copied_snapshots(n, k + 1, first, r, acc.push(x));
        }
    }
}

/// Moving an attribute of a well formed document is refused before anything is changed, or done.
pub proof fn lemma_refused_attribute_move(
    s: StateModel,
    h: HandleModel,
    source: HandleModel,
    name: Seq<char>,
)
    requires
        wf(s),
        attribute_moved(s, h, source, name).1 is Err,
    ensures
        attribute_moved(s, h, source, name).0 == s,
{
    if let (Ok(p), Ok(q)) = (resolved(s, h), resolved(s, source)) {
        lemma_path_found(s.root, h.local);
        lemma_path_found(s.root, source.local);
        let (next, r) = attribute_copied(s, h, s, source, name);
        if p != q && r == Ok::<bool, DomErrorModel>(true) {
            let value = attribute_value(node_at(s.root, q), name, s.reading)->Ok_0->Some_0;
            let t = node_at(s.root, p);
            let x = attribute_put(t, name, value);
            lemma_heads_changed_wf(s, h, 0, name, name, value);
            assert(next == changed(s, p, x));
            if crate::changes::passes(q, p) {
                let e = q.skip(p.len() as int);
                assert(q =~= p + e);
                crate::following::lemma_path_split(s.root, p, e);
                lemma_updated_below(s.root, p, x, e);
                if e.len() == 0 {
                    assert(q =~= p);
                }
                assert(has_path(x, e) && node_at(x, e) == node_at(t, e)) by {
                    assert(x.children == t.children);
                }
            } else {
                lemma_updated_elsewhere(s.root, p, x, q);
            }
            lemma_target_found(next, source, q);
        }
    }
}

} // verus!
