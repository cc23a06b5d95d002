//! What a node is when its name, its value, its attributes or its text was set.

use vstd::prelude::*;

use crate::access::{
    attribute_index, attribute_value, attribute_values, element_index, node_name, node_value,
    text_index,
};
use crate::changes::{
    attribute_copied, attribute_ensured, attribute_inserted, attribute_put, attribute_removed,
    attribute_replaced, attribute_set, element_added, element_ensured, element_put_first,
    empty_element, node_added, node_removed, node_renamed, node_replaced, nodes_added,
    plain_attribute, replaced, sibling_added, text_ensured, text_set, value_set,
};
use crate::dom::{
    AttributeModel, DoctypeModel, ElementModel, InstructionModel, NodeModel, XmlNodeKind,
};
use crate::effects::lemma_attribute_index;
use crate::error::ErrorModel;
use crate::facade::{
    doctype_set, handle_of, misc_appended, misc_removed, misc_replaced, resolved, target,
    StateModel,
};
use crate::handle::{DomErrorModel, HandleModel};
use crate::laws::{lemma_heads_changed_wf, lemma_text_set_wf, wf};
use crate::lexeme::CompactLexemeKind;
use crate::mutation::{
    attribute_fault, doctype_fault, name_fault, node_fault, nodes_fault, text_fault, value_fault,
    MutationModel,
};
use crate::placement::{
    content, holding, lemma_child_is_added, lemma_children_set, lemma_element_means, lemma_led,
    lemma_put, means,
};
use crate::tree::{
    node_at, node_count, plain_attributes_from, plain_text, snapshot, text_value, updated, Reading,
    TreeAttribute, TreeModel,
};
use crate::walking::scanned_attribute;

verus! {

/// The attributes are, one by one, those outside of the document.
pub open spec fn reads(a: Seq<TreeAttribute>, v: Seq<AttributeModel>, r: Reading) -> bool {
    &&& a.len() == v.len()
    &&& forall|i: int|
        0 <= i < a.len() ==> (#[trigger] a[i]).name == v[i].name && text_value(
            a[i].value,
            CompactLexemeKind::Attribute,
            r,
        ) == Ok::<Seq<char>, ErrorModel>(v[i].value)
}

proof fn lemma_reads_from(
    a: Seq<TreeAttribute>,
    k: int,
    r: Reading,
    acc: Seq<AttributeModel>,
    v: Seq<AttributeModel>,
)
    requires
        0 <= k <= a.len(),
        acc.len() == k,
        forall|i: int|
            0 <= i < k ==> (#[trigger] a[i]).name == acc[i].name && text_value(
                a[i].value,
                CompactLexemeKind::Attribute,
                r,
            ) == Ok::<Seq<char>, ErrorModel>(acc[i].value),
    ensures
        plain_attributes_from(a, k, r, acc) == Ok::<Seq<AttributeModel>, ErrorModel>(v) <==> reads(
            a,
            v,
            r,
        ),
    decreases a.len() - k,
{
    if k < a.len() {
        match text_value(a[k].value, CompactLexemeKind::Attribute, r) {
            Ok(value) => {
                lemma_reads_from(
                    a,
                    k + 1,
                    r,
                    acc.push(AttributeModel { name: a[k].name, value }),
                    v,
                );
            },
            Err(_) => {
                if reads(a, v, r) {
                    assert(a[k].name == v[k].name);
                }
            },
        }
    } else if reads(a, v, r) {
        assert forall|i: int| 0 <= i < v.len() implies v[i] == acc[i] by {
            assert(a[i].name == v[i].name);
        }
        assert(v =~= acc);
    }
}

/// What an element with other attributes is.
proof fn lemma_attributes_set(
    s: StateModel,
    next: StateModel,
    h: HandleModel,
    x: TreeModel,
    e: ElementModel,
    v: Seq<AttributeModel>,
)
    requires
        wf(next),
        content(s, h) == Some(NodeModel::Element(e)),
        next.lineage == s.lineage,
        next.document == s.document,
        next.generation == s.generation,
        next.reading == s.reading,
        next.root == updated(s.root, resolved(s, h)->Ok_0, x),
        x == (TreeModel {
            attributes: x.attributes,
            touched: x.touched,
            ..target(s, h)->Ok_0
        }),
        reads(x.attributes, v, s.reading),
    ensures
        content(next, h) == Some(NodeModel::Element(ElementModel { attributes: v, ..e })),
{
    let p = resolved(s, h)->Ok_0;
    lemma_led(s, h);
    lemma_element_means(node_at(s.root, p), s.reading, e);
    lemma_put(s, next, h, p, x);
    lemma_reads_from(x.attributes, 0, s.reading, Seq::empty(), v);
    lemma_element_means(x, s.reading, ElementModel { attributes: v, ..e });
}

/// The attribute number `k` is the first with the name; `k` is the number of attributes if there
/// is none.
pub open spec fn first_at(a: Seq<AttributeModel>, name: Seq<char>, k: int) -> bool {
    &&& 0 <= k <= a.len()
    &&& forall|i: int| 0 <= i < k ==> (#[trigger] a[i]).name != name
    &&& k < a.len() ==> a[k].name == name
}

/// The element has the attributes, and the first with a name is where it is.
proof fn lemma_attributes_of(
    s: StateModel,
    h: HandleModel,
    e: ElementModel,
    name: Seq<char>,
    k: int,
)
    requires
        content(s, h) == Some(NodeModel::Element(e)),
        first_at(e.attributes, name, k),
    ensures
        ({
            let t = target(s, h)->Ok_0;
            &&& resolved(s, h) is Ok
            &&& t.kind == XmlNodeKind::Element
            &&& reads(t.attributes, e.attributes, s.reading)
            &&& attribute_index(t.attributes, 0, name) == (if k < e.attributes.len() {
                Some(k)
            } else {
                None
            })
            &&& attribute_value(t, name, s.reading) == Ok::<Option<Seq<char>>, DomErrorModel>(
                if k < e.attributes.len() {
                    Some(e.attributes[k].value)
                } else {
                    None
                },
            )
        }),
{
    let t = target(s, h)->Ok_0;
    lemma_element_means(t, s.reading, e);
    lemma_reads_from(t.attributes, 0, s.reading, Seq::empty(), e.attributes);
    lemma_attribute_index(t.attributes, 0, name);
    match attribute_index(t.attributes, 0, name) {
        Some(i) => {
            assert(t.attributes[i].name == e.attributes[i].name);
            if k < i {
                assert(t.attributes[k].name == e.attributes[k].name);
            }
        },
        None => {
            if k < e.attributes.len() {
                assert(t.attributes[k].name == e.attributes[k].name);
            }
        },
    }
}

/// An attribute that is set has the value where it stood; one that was not there comes last. An
/// attribute that is well formed is always taken.
pub proof fn lemma_attribute_is_set(
    s: StateModel,
    h: HandleModel,
    e: ElementModel,
    name: Seq<char>,
    value: Seq<char>,
    k: int,
)
    requires
        wf(s),
        content(s, h) == Some(NodeModel::Element(e)),
        first_at(e.attributes, name, k),
        attribute_fault(name, value) is None,
    ensures
        ({
            let (next, r) = attribute_set(s, h, name, value);
            let a = AttributeModel { name, value };
            &&& r is Ok
            &&& content(next, h) == Some(
                NodeModel::Element(
                    ElementModel {
                        attributes: if k < e.attributes.len() {
                            e.attributes.update(k, a)
                        } else {
                            e.attributes.push(a)
                        },
                        ..e
                    },
                ),
            )
        }),
{
    lemma_attributes_of(s, h, e, name, k);
    let t = target(s, h)->Ok_0;
    let next = attribute_set(s, h, name, value).0;
    lemma_heads_changed_wf(s, h, 0, name, name, value);
    let x = attribute_put(t, name, value);
    let a = AttributeModel { name, value };
    let v = if k < e.attributes.len() {
        e.attributes.update(k, a)
    } else {
        e.attributes.push(a)
    };
    assert forall|i: int| 0 <= i < x.attributes.len() implies (#[trigger] x.attributes[i]).name
        == v[i].name && text_value(x.attributes[i].value, CompactLexemeKind::Attribute, s.reading)
        == Ok::<Seq<char>, ErrorModel>(v[i].value) by {
        if i != k {
            assert(x.attributes[i] == t.attributes[i]);
        }
    }
    lemma_attributes_set(s, next, h, x, e, v);
}

/// An attribute that is removed is gone, and nothing else; `true` says that there was one.
pub proof fn lemma_attribute_is_removed(
    s: StateModel,
    h: HandleModel,
    e: ElementModel,
    name: Seq<char>,
    k: int,
)
    requires
        wf(s),
        content(s, h) == Some(NodeModel::Element(e)),
        first_at(e.attributes, name, k),
    ensures
        ({
            let (next, r) = attribute_removed(s, h, name);
            &&& r == Ok::<bool, DomErrorModel>(k < e.attributes.len())
            &&& content(next, h) == Some(
                NodeModel::Element(
                    ElementModel {
                        attributes: if k < e.attributes.len() {
                            e.attributes.remove(k)
                        } else {
                            e.attributes
                        },
                        ..e
                    },
                ),
            )
        }),
{
    lemma_attributes_of(s, h, e, name, k);
    let t = target(s, h)->Ok_0;
    let next = attribute_removed(s, h, name).0;
    lemma_heads_changed_wf(s, h, 0, name, name, name);
    if k < e.attributes.len() {
        let x = TreeModel { attributes: t.attributes.remove(k), touched: true, ..t };
        let v = e.attributes.remove(k);
        assert forall|i: int| 0 <= i < x.attributes.len() implies (#[trigger] x.attributes[i]).name
            == v[i].name && text_value(
            x.attributes[i].value,
            CompactLexemeKind::Attribute,
            s.reading,
        ) == Ok::<Seq<char>, ErrorModel>(v[i].value) by {
            if i < k {
                assert(x.attributes[i] == t.attributes[i]);
            } else {
                assert(x.attributes[i] == t.attributes[i + 1]);
            }
        }
        lemma_attributes_set(s, next, h, x, e, v);
    } else {
        assert(NodeModel::Element(ElementModel { attributes: e.attributes, ..e })
            == NodeModel::Element(e));
    }
}

/// An attribute that is replaced has its new name and value where the old one stood; where there
/// is none with the old name nothing changes and `false` is returned.
pub proof fn lemma_attribute_is_replaced(
    s: StateModel,
    h: HandleModel,
    e: ElementModel,
    old_name: Seq<char>,
    name: Seq<char>,
    value: Seq<char>,
    k: int,
)
    requires
        wf(s),
        content(s, h) == Some(NodeModel::Element(e)),
        first_at(e.attributes, old_name, k),
        attribute_fault(name, value) is None,
    ensures
        ({
            let (next, r) = attribute_replaced(s, h, old_name, name, value);
            &&& r == Ok::<bool, DomErrorModel>(k < e.attributes.len())
            &&& content(next, h) == Some(
                NodeModel::Element(
                    ElementModel {
                        attributes: if k < e.attributes.len() {
                            e.attributes.update(k, AttributeModel { name, value })
                        } else {
                            e.attributes
                        },
                        ..e
                    },
                ),
            )
        }),
{
    lemma_attributes_of(s, h, e, old_name, k);
    let t = target(s, h)->Ok_0;
    let next = attribute_replaced(s, h, old_name, name, value).0;
    lemma_heads_changed_wf(s, h, 0, old_name, name, value);
    if k < e.attributes.len() {
        let x = TreeModel {
            attributes: t.attributes.update(k, plain_attribute(name, value)),
            touched: true,
            ..t
        };
        let v = e.attributes.update(k, AttributeModel { name, value });
        assert forall|i: int| 0 <= i < x.attributes.len() implies (#[trigger] x.attributes[i]).name
            == v[i].name && text_value(
            x.attributes[i].value,
            CompactLexemeKind::Attribute,
            s.reading,
        ) == Ok::<Seq<char>, ErrorModel>(v[i].value) by {
            if i != k {
                assert(x.attributes[i] == t.attributes[i]);
            }
        }
        lemma_attributes_set(s, next, h, x, e, v);
    } else {
        assert(NodeModel::Element(ElementModel { attributes: e.attributes, ..e })
            == NodeModel::Element(e));
    }
}

/// An attribute that is inserted stands at the index, and those from there on move up; behind the
/// end there is no place.
pub proof fn lemma_attribute_is_inserted(
    s: StateModel,
    h: HandleModel,
    e: ElementModel,
    index: usize,
    name: Seq<char>,
    value: Seq<char>,
)
    requires
        wf(s),
        content(s, h) == Some(NodeModel::Element(e)),
        attribute_fault(name, value) is None,
    ensures
        ({
            let (next, r) = attribute_inserted(s, h, index, name, value);
            if index <= e.attributes.len() {
                &&& r is Ok
                &&& content(next, h) == Some(
                    NodeModel::Element(
                        ElementModel {
                            attributes: e.attributes.insert(
                                index as int,
                                AttributeModel { name, value },
                            ),
                            ..e
                        },
                    ),
                )
            } else {
                r == Err::<(), DomErrorModel>(DomErrorModel::InvalidTarget)
            }
        }),
{
    let t = target(s, h)->Ok_0;
    lemma_element_means(t, s.reading, e);
    lemma_reads_from(t.attributes, 0, s.reading, Seq::empty(), e.attributes);
    let next = attribute_inserted(s, h, index, name, value).0;
    lemma_heads_changed_wf(s, h, index, name, name, value);
    if index <= e.attributes.len() {
        let x = TreeModel {
            attributes: t.attributes.insert(index as int, plain_attribute(name, value)),
            touched: true,
            ..t
        };
        let v = e.attributes.insert(index as int, AttributeModel { name, value });
        assert forall|i: int| 0 <= i < x.attributes.len() implies (#[trigger] x.attributes[i]).name
            == v[i].name && text_value(
            x.attributes[i].value,
            CompactLexemeKind::Attribute,
            s.reading,
        ) == Ok::<Seq<char>, ErrorModel>(v[i].value) by {
            if i < index {
                assert(x.attributes[i] == t.attributes[i]);
            } else if i > index {
                assert(x.attributes[i] == t.attributes[i - 1]);
            }
        }
        lemma_attributes_set(s, next, h, x, e, v);
    }
}

/// An attribute that is there is kept and returned; one that is not there gets the value that is
/// given. A copy of an attribute of another element has its value.
pub proof fn lemma_attribute_is_ensured(
    s: StateModel,
    h: HandleModel,
    e: ElementModel,
    name: Seq<char>,
    value: Seq<char>,
    k: int,
    o: StateModel,
    source: HandleModel,
)
    requires
        content(s, h) == Some(NodeModel::Element(e)),
        first_at(e.attributes, name, k),
        attribute_fault(name, value) is None,
    ensures
        k < e.attributes.len() ==> attribute_ensured(s, h, name, value) == (
            s,
            Ok::<Seq<char>, DomErrorModel>(e.attributes[k].value),
        ),
        k == e.attributes.len() ==> attribute_ensured(s, h, name, value) == (
            attribute_set(s, h, name, value).0,
            Ok::<Seq<char>, DomErrorModel>(value),
        ),
        target(o, source) matches Ok(t) ==> (attribute_value(t, name, o.reading) == Ok::<
            Option<Seq<char>>,
            DomErrorModel,
        >(Some(value)) ==> attribute_copied(s, h, o, source, name) == (
            attribute_set(s, h, name, value).0,
            Ok::<bool, DomErrorModel>(true),
        )),
        target(o, source) matches Ok(t) ==> (attribute_value(t, name, o.reading) == Ok::<
            Option<Seq<char>>,
            DomErrorModel,
        >(None) ==> attribute_copied(s, h, o, source, name) == (
            s,
            Ok::<bool, DomErrorModel>(false),
        )),
{
    lemma_attributes_of(s, h, e, name, k);
}

/// A node that is not an element keeps its kind, and an instruction its target, when its value is
/// set; a value that is well formed for the kind is always taken. An element has no value.
pub proof fn lemma_value_is_set(s: StateModel, h: HandleModel, n: NodeModel, value: Seq<char>)
    requires
        wf(s),
        content(s, h) == Some(n),
    ensures
        ({
            let (next, r) = value_set(s, h, value);
            match n {
                NodeModel::Element(_) => text_fault(value) is None ==> r == Err::<
                    (),
                    DomErrorModel,
                >(DomErrorModel::InvalidTarget),
                NodeModel::Text(_) => text_fault(value) is None ==> r is Ok && content(next, h)
                    == Some(NodeModel::Text(value)),
                NodeModel::Cdata(_) => text_fault(value) is None ==> r is Ok && content(next, h)
                    == Some(NodeModel::Cdata(value)),
                NodeModel::Comment(_) => node_fault(NodeModel::Comment(value)) is None ==> r is Ok
                    && content(next, h) == Some(NodeModel::Comment(value)),
                NodeModel::ProcessingInstruction(i) => node_fault(
                    NodeModel::ProcessingInstruction(InstructionModel { data: value, ..i }),
                ) is None ==> r is Ok && content(next, h) == Some(
                    NodeModel::ProcessingInstruction(InstructionModel { data: value, ..i }),
                ),
            }
        }),
{
    let p = resolved(s, h)->Ok_0;
    let t = node_at(s.root, p);
    lemma_led(s, h);
    lemma_heads_changed_wf(s, h, 0, value, value, value);
    let next = value_set(s, h, value).0;
    let x = TreeModel { value: plain_text(value), touched: true, ..t };
    if value_fault(t.kind, value) is None && t.kind != XmlNodeKind::Element {
        lemma_put(s, next, h, p, x);
    }
}

/// An element or an instruction that is renamed has the name, and is otherwise what it was; other
/// nodes have no name. A name is always taken.
pub proof fn lemma_node_is_renamed(s: StateModel, h: HandleModel, n: NodeModel, name: Seq<char>)
    requires
        wf(s),
        content(s, h) == Some(n),
        name_fault(name) is None,
    ensures
        ({
            let (next, r) = node_renamed(s, h, name);
            match n {
                NodeModel::Element(e) => r is Ok && content(next, h) == Some(
                    NodeModel::Element(ElementModel { name, ..e }),
                ),
                NodeModel::ProcessingInstruction(i) => r is Ok && content(next, h) == Some(
                    NodeModel::ProcessingInstruction(InstructionModel { target: name, ..i }),
                ),
                _ => r == Err::<(), DomErrorModel>(DomErrorModel::InvalidTarget),
            }
        }),
{
    let p = resolved(s, h)->Ok_0;
    let t = node_at(s.root, p);
    lemma_led(s, h);
    lemma_heads_changed_wf(s, h, 0, name, name, name);
    let next = node_renamed(s, h, name).0;
    let x = TreeModel { name, touched: true, ..t };
    match n {
        NodeModel::Element(e) => {
            lemma_put(s, next, h, p, x);
            lemma_element_means(t, s.reading, e);
            lemma_element_means(x, s.reading, ElementModel { name, ..e });
        },
        NodeModel::ProcessingInstruction(_) => {
            lemma_put(s, next, h, p, x);
        },
        _ => {},
    }
}

/// The child number `k` is the first text or CDATA section; `k` is the number of children if there
/// is none.
pub open spec fn first_text_at(n: Seq<NodeModel>, k: int) -> bool {
    &&& 0 <= k <= n.len()
    &&& forall|i: int| 0 <= i < k ==> !(#[trigger] n[i] is Text || n[i] is Cdata)
    &&& k < n.len() ==> n[k] is Text || n[k] is Cdata
}

proof fn lemma_text_index(n: Seq<TreeModel>, v: Seq<NodeModel>, r: Reading, i: int, k: int)
    requires
        means(n, v, r),
        first_text_at(v, k),
        0 <= i <= k,
    ensures
        text_index(n, i) == (if k < n.len() {
            Some(k)
        } else {
            None
        }),
    decreases k - i,
{
    if i < n.len() {
        assert(snapshot(n[i], r) == Ok::<NodeModel, ErrorModel>(v[i]));
        if i < k {
            assert(!(v[i] is Text || v[i] is Cdata));
            lemma_text_index(n, v, r, i + 1, k);
        }
    }
}

/// The text of an element is that of its first text or CDATA section. Setting it changes that one
/// and keeps its kind; an element without one gets a text before its other children. The text is
/// then the one that was set.
pub proof fn lemma_text_is_set(
    s: StateModel,
    h: HandleModel,
    e: ElementModel,
    value: Seq<char>,
    k: int,
)
    requires
        wf(s),
        content(s, h) == Some(NodeModel::Element(e)),
        first_text_at(e.children, k),
        text_fault(value) is None,
        s.next_id < u64::MAX,
        e.children.len() < usize::MAX,
    ensures
        ({
            let (next, r) = text_set(s, h, value);
            &&& r is Ok
            &&& content(next, h) == holding(
                e,
                if k == e.children.len() {
                    seq![NodeModel::Text(value)] + e.children
                } else if e.children[k] is Text {
                    e.children.update(k, NodeModel::Text(value))
                } else {
                    e.children.update(k, NodeModel::Cdata(value))
                },
            )
            &&& k < e.children.len() ==> text_ensured(s, h, value) == (
                s,
                Ok::<Seq<char>, DomErrorModel>(
                    match e.children[k] {
                        NodeModel::Text(t) => t,
                        NodeModel::Cdata(t) => t,
                        _ => Seq::empty(),
                    },
                ),
            )
            &&& k == e.children.len() ==> text_ensured(s, h, value) == (
                next,
                Ok::<Seq<char>, DomErrorModel>(value),
            )
        }),
{
    let p = resolved(s, h)->Ok_0;
    let t = node_at(s.root, p);
    let r = s.reading;
    lemma_led(s, h);
    lemma_element_means(t, r, e);
    lemma_text_index(t.children, e.children, r, 0, k);
    lemma_text_set_wf(s, h, value);
    let next = text_set(s, h, value).0;
    if k < e.children.len() {
        assert(snapshot(t.children[k], r) == Ok::<NodeModel, ErrorModel>(e.children[k]));
        let y = TreeModel { value: plain_text(value), touched: true, ..t.children[k] };
        let x = replaced(t, k, y);
        let v = if e.children[k] is Text {
            e.children.update(k, NodeModel::Text(value))
        } else {
            e.children.update(k, NodeModel::Cdata(value))
        };
        assert forall|i: int|
            0 <= i < x.children.len() implies snapshot(#[trigger] x.children[i], r) == Ok::<
            NodeModel,
            ErrorModel,
        >(v[i]) by {
            if i != k {
                assert(x.children[i] == t.children[i]);
            }
        }
        lemma_children_set(s, next, h, x, e, v);
    } else {
        assert(node_count(NodeModel::Text(value)) == 1);
        lemma_child_is_added(s, h, NodeModel::Text(value), true, e);
    }
}

/// An element that is asked for is the first child element with the name, or a new one behind the
/// other children.
pub proof fn lemma_element_is_ensured(
    s: StateModel,
    h: HandleModel,
    name: Seq<char>,
    e: ElementModel,
    k: int,
)
    requires
        content(s, h) == Some(NodeModel::Element(e)),
        name_fault(name) is None,
        0 <= k <= e.children.len(),
        forall|i: int|
            0 <= i < k ==> !(#[trigger] e.children[i] matches NodeModel::Element(x) && x.name
                == name),
        k < e.children.len() ==> (e.children[k] matches NodeModel::Element(x) && x.name == name),
    ensures
        k < e.children.len() ==> element_ensured(s, h, name) == (
            s,
            Ok::<HandleModel, DomErrorModel>(handle_of(s, target(s, h)->Ok_0.children[k].id)),
        ),
        k == e.children.len() ==> element_ensured(s, h, name) == node_added(
            s,
            h,
            empty_element(name),
            false,
        ),
        element_added(s, h, name) == node_added(s, h, empty_element(name), false),
        element_put_first(s, h, name) == node_added(s, h, empty_element(name), true),
{
    let t = target(s, h)->Ok_0;
    lemma_element_means(t, s.reading, e);
    lemma_element_index(t.children, e.children, s.reading, name, 0, k);
}

proof fn lemma_element_index(
    n: Seq<TreeModel>,
    v: Seq<NodeModel>,
    r: Reading,
    name: Seq<char>,
    i: int,
    k: int,
)
    requires
        means(n, v, r),
        0 <= i <= k <= v.len(),
        forall|i: int|
            0 <= i < k ==> !(#[trigger] v[i] matches NodeModel::Element(x) && x.name == name),
        k < v.len() ==> (v[k] matches NodeModel::Element(x) && x.name == name),
    ensures
        element_index(n, i, name) == (if k < n.len() {
            Some(k)
        } else {
            None
        }),
    decreases k - i,
{
    if i < n.len() {
        assert(snapshot(n[i], r) == Ok::<NodeModel, ErrorModel>(v[i]));
        if i < k {
            assert(!(v[i] matches NodeModel::Element(x) && x.name == name));
            lemma_element_index(n, v, r, name, i + 1, k);
        }
    }
}

/// What every change refuses: a handle that does not resolve is answered with its error, a node or
/// a value that is not well formed with what is wrong with it, a node that is not an element with
/// that, and the root has no siblings.
pub proof fn lemma_refusals(
    s: StateModel,
    h: HandleModel,
    n: NodeModel,
    m: Seq<NodeModel>,
    name: Seq<char>,
    value: Seq<char>,
    flag: bool,
)
    ensures
        resolved(s, h) matches Err(e) ==> {
            &&& node_added(s, h, n, flag).1 == Err::<HandleModel, DomErrorModel>(e)
            &&& nodes_added(s, h, m).1 == Err::<(int, int), DomErrorModel>(e)
            &&& sibling_added(s, h, n, flag).1 == Err::<HandleModel, DomErrorModel>(e)
            &&& node_replaced(s, h, n).1 == Err::<NodeModel, DomErrorModel>(e)
            &&& node_removed(s, h).1 == Err::<NodeModel, DomErrorModel>(e)
            &&& attribute_set(s, h, name, value).1 == Err::<(), DomErrorModel>(e)
            &&& text_set(s, h, value).1 == Err::<(), DomErrorModel>(e)
            &&& value_set(s, h, value).1 == Err::<(), DomErrorModel>(e)
            &&& node_renamed(s, h, name).1 == Err::<(), DomErrorModel>(e)
        },
        resolved(s, h) is Ok ==> {
            &&& node_fault(n) matches Some(f) ==> {
                &&& node_added(s, h, n, flag).1 == Err::<HandleModel, DomErrorModel>(
                    DomErrorModel::Mutation(f),
                )
                &&& sibling_added(s, h, n, flag).1 == Err::<HandleModel, DomErrorModel>(
                    DomErrorModel::Mutation(f),
                )
                &&& node_replaced(s, h, n).1 == Err::<NodeModel, DomErrorModel>(
                    DomErrorModel::Mutation(f),
                )
            }
            &&& nodes_fault(m, 0) matches Some(f) ==> nodes_added(s, h, m).1 == Err::<
                (int, int),
                DomErrorModel,
            >(DomErrorModel::Mutation(f))
            &&& attribute_fault(name, value) matches Some(f) ==> attribute_set(
                s,
                h,
                name,
                value,
            ).1 == Err::<(), DomErrorModel>(DomErrorModel::Mutation(f))
            &&& text_fault(value) matches Some(f) ==> text_set(s, h, value).1 == Err::<
                (),
                DomErrorModel,
            >(DomErrorModel::Mutation(f))
            &&& name_fault(name) matches Some(f) ==> node_renamed(s, h, name).1 == Err::<
                (),
                DomErrorModel,
            >(DomErrorModel::Mutation(f))
        },
        resolved(s, h) == Ok::<Seq<usize>, DomErrorModel>(Seq::empty()) ==> {
            &&& node_fault(n) is None ==> sibling_added(s, h, n, flag).1 == Err::<
                HandleModel,
                DomErrorModel,
            >(DomErrorModel::RootHasNoSiblings)
            &&& node_fault(n) is None ==> node_replaced(s, h, n).1 == Err::<
                NodeModel,
                DomErrorModel,
            >(DomErrorModel::RootHasNoSiblings)
            &&& node_removed(s, h).1 == Err::<NodeModel, DomErrorModel>(
                DomErrorModel::RootHasNoSiblings,
            )
        },
        target(s, h) matches Ok(t) ==> (t.kind != XmlNodeKind::Element ==> {
            &&& node_fault(n) is None ==> node_added(s, h, n, flag).1 == Err::<
                HandleModel,
                DomErrorModel,
            >(DomErrorModel::NotElement)
            &&& nodes_fault(m, 0) is None ==> nodes_added(s, h, m).1 == Err::<
                (int, int),
                DomErrorModel,
            >(DomErrorModel::NotElement)
            &&& attribute_fault(name, value) is None ==> attribute_set(s, h, name, value).1
                == Err::<(), DomErrorModel>(DomErrorModel::NotElement)
            &&& text_fault(value) is None ==> text_set(s, h, value).1 == Err::<(), DomErrorModel>(
                DomErrorModel::NotElement,
            )
            &&& attribute_removed(s, h, name).1 == Err::<bool, DomErrorModel>(
                DomErrorModel::NotElement,
            )
        }),
{
}

/// The nodes beside the root: a new one comes last, a removed one is returned and the others close
/// up, a replaced one is returned and the new one stands in its place. The document type
/// declaration stays between the same nodes; a new one stands behind those before the root.
pub proof fn lemma_nodes_beside_the_root(
    s: StateModel,
    after: bool,
    n: NodeModel,
    index: usize,
    d: DoctypeModel,
)
    requires
        s.doctype_index <= s.before.len(),
        s.before.len() <= usize::MAX,
    ensures
        (n is Comment || n is ProcessingInstruction) && node_fault(n) is None ==> {
            let (next, r) = misc_appended(s, after, n);
            &&& r is Ok
            &&& next.before == (if after {
                s.before
            } else {
                s.before.push(n)
            })
            &&& next.after == (if after {
                s.after.push(n)
            } else {
                s.after
            })
            &&& next.doctype_index == s.doctype_index
        },
        !(n is Comment || n is ProcessingInstruction) ==> misc_appended(s, after, n).1 == Err::<
            (),
            DomErrorModel,
        >(DomErrorModel::InvalidTarget),
        ({
            let (next, r) = misc_removed(s, after, index);
            let list = if after {
                s.after
            } else {
                s.before
            };
            if index < list.len() {
                &&& r == Ok::<NodeModel, DomErrorModel>(list[index as int])
                &&& next.before == (if after {
                    s.before
                } else {
                    s.before.remove(index as int)
                })
                &&& next.after == (if after {
                    s.after.remove(index as int)
                } else {
                    s.after
                })
                &&& next.before.take(next.doctype_index as int) == (if !after && index
                    < s.doctype_index {
                    s.before.take(s.doctype_index as int).remove(index as int)
                } else {
                    s.before.take(s.doctype_index as int)
                })
            } else {
                r == Err::<NodeModel, DomErrorModel>(
                    DomErrorModel::Mutation(
                        MutationModel::IndexOutOfBounds {
                            index: index as int,
                            len: list.len() as int,
                        },
                    ),
                )
            }
        }),
        (n is Comment || n is ProcessingInstruction) && node_fault(n) is None && index < (if after {
            s.after
        } else {
            s.before
        }).len() ==> {
            let (next, r) = misc_replaced(s, after, index, n);
            &&& r == Ok::<NodeModel, DomErrorModel>(
                if after {
                    s.after[index as int]
                } else {
                    s.before[index as int]
                },
            )
            &&& next.before == (if after {
                s.before
            } else {
                s.before.update(index as int, n)
            })
            &&& next.after == (if after {
                s.after.update(index as int, n)
            } else {
                s.after
            })
            &&& next.doctype_index == s.doctype_index
        },
        doctype_fault(d) is None ==> {
            let (next, r) = doctype_set(s, d);
            &&& r is Ok
            &&& next.doctype == Some(d)
            &&& next.before.take(next.doctype_index as int) == s.before
        },
{
    assert(s.before.take(s.before.len() as int) =~= s.before);
    let next = misc_removed(s, after, index).0;
    if !after && index < s.before.len() {
        if index < s.doctype_index {
            assert(s.before.remove(index as int).take(s.doctype_index - 1) =~= s.before.take(
                s.doctype_index as int,
            ).remove(index as int));
        } else {
            assert(s.before.remove(index as int).take(s.doctype_index as int) =~= s.before.take(
                s.doctype_index as int,
            ));
        }
    }
}

/// What is read of a node piece by piece is what the whole node has: its name, its value, its
/// attributes one by one and all together.
pub proof fn lemma_pieces_agree(
    t: TreeModel,
    r: Reading,
    n: NodeModel,
    name: Seq<char>,
    k: int,
    i: int,
)
    requires
        snapshot(t, r) == Ok::<NodeModel, ErrorModel>(n),
    ensures
        n matches NodeModel::Text(x) ==> node_name(t) is None && node_value(t, r) == Ok::<
            Option<Seq<char>>,
            DomErrorModel,
        >(Some(x)),
        n matches NodeModel::Cdata(x) ==> node_name(t) is None && node_value(t, r) == Ok::<
            Option<Seq<char>>,
            DomErrorModel,
        >(Some(x)),
        n matches NodeModel::Comment(x) ==> node_name(t) is None && node_value(t, r) == Ok::<
            Option<Seq<char>>,
            DomErrorModel,
        >(Some(x)),
        n matches NodeModel::ProcessingInstruction(x) ==> node_name(t) == Some(x.target)
            && node_value(t, r) == Ok::<Option<Seq<char>>, DomErrorModel>(Some(x.data)),
        n matches NodeModel::Element(e) ==> {
            &&& node_name(t) == Some(e.name)
            &&& node_value(t, r) == Ok::<Option<Seq<char>>, DomErrorModel>(None)
            &&& attribute_values(t, r) == Ok::<Seq<AttributeModel>, DomErrorModel>(e.attributes)
            &&& t.attributes.len() == e.attributes.len()
            &&& 0 <= i < e.attributes.len() ==> scanned_attribute(t.attributes[i], r) == Ok::<
                AttributeModel,
                DomErrorModel,
            >(e.attributes[i])
            &&& first_at(e.attributes, name, k) ==> attribute_value(t, name, r) == Ok::<
                Option<Seq<char>>,
                DomErrorModel,
            >(
                if k < e.attributes.len() {
                    Some(e.attributes[k].value)
                } else {
                    None
                },
            )
        },
{
    match n {
        NodeModel::Element(e) => {
            lemma_element_means(t, r, e);
            lemma_reads_from(t.attributes, 0, r, Seq::empty(), e.attributes);
            if 0 <= i < e.attributes.len() {
                assert(t.attributes[i].name == e.attributes[i].name);
            }
            if first_at(e.attributes, name, k) {
                lemma_attribute_index(t.attributes, 0, name);
                match attribute_index(t.attributes, 0, name) {
                    Some(j) => {
                        assert(t.attributes[j].name == e.attributes[j].name);
                        if k < j {
                            assert(t.attributes[k].name == e.attributes[k].name);
                        }
                    },
                    None => {
                        if k < e.attributes.len() {
                            assert(t.attributes[k].name == e.attributes[k].name);
                        }
                    },
                }
            }
        },
        _ => {},
    }
}

} // verus!
