//! What the tables of a parsed document, the counts and the handles say.

use vstd::prelude::*;

use crate::changes::{
    attribute_removed, attribute_set, node_added, node_removed, node_renamed, node_replaced,
    sibling_added, text_set, value_set,
};
use crate::document::DocumentModel;
use crate::dom::{InstructionModel, NodeModel, XmlNodeKind};
use crate::error::ErrorModel;
use crate::facade::{
    attribute_count, attribute_counts, declaration_set, document_output, document_stats_of,
    element_count, element_counts, misc_appended, misc_removed, plain_document, resolved, stats_of,
    StateModel,
};
use crate::flat::{
    child_place, lemma_children_at, lemma_element_entry, lemma_tree_len, places_from, subtree_at,
};
use crate::grammar::{FlatModel, RawAttribute, RawTree};
use crate::handle::{DomErrorModel, HandleModel};
use crate::serialize::{default_options, document_text, XmlSerializeOptions};
use crate::tables::{
    attributes_of, children_in, elements_before, first_named, first_pair, is_element_named,
    named_from, node_attributes_in, node_name_in, node_value_in, nodes_of,
};
use crate::tree::{path_to, size, sizes, snapshot, TreeModel};

verus! {

/// The tables of a document hold its root at the first place.
pub proof fn lemma_root_in_the_tables(m: DocumentModel)
    ensures
        subtree_at(nodes_of(m), attributes_of(m), m.root, 0, 0),
{
    lemma_tree_len(m.root, 0, 0);
    let f = nodes_of(m);
    let a = attributes_of(m);
    assert(f.subrange(0, f.len() as int) =~= f);
    assert(a.subrange(0, a.len() as int) =~= a);
}

/// What the tables say of an element: its name, its attributes in their order, and where each of
/// its children is, in their order. It has no value.
pub proof fn lemma_element_in_the_tables(m: DocumentModel, t: RawTree, at: int, a: int)
    requires
        subtree_at(nodes_of(m), attributes_of(m), t, at, a),
        t is Element,
    ensures
        node_name_in(m, at) == Some(m.text.subrange(t->name.0, t->name.1)),
        node_value_in(m, at) is None,
        node_attributes_in(m, at).len() == t->attributes.len(),
        forall|i: int|
            0 <= i < t->attributes.len() ==> #[trigger] node_attributes_in(m, at)[i] == (
                m.text.subrange(t->attributes[i].name.0, t->attributes[i].name.1),
                m.text.subrange(t->attributes[i].value.0, t->attributes[i].value.1),
            ),
        children_in(m, at).len() == t->children.len(),
        forall|j: int|
            0 <= j < t->children.len() ==> #[trigger] children_in(m, at)[j] == child_place(
                t->children,
                at,
                j,
            ),
{
    let f = nodes_of(m);
    let attrs = attributes_of(m);
    lemma_element_entry(f, attrs, t, at, a);
    assert forall|i: int| 0 <= i < t->attributes.len() implies #[trigger] node_attributes_in(
        m,
        at,
    )[i] == (
        m.text.subrange(t->attributes[i].name.0, t->attributes[i].name.1),
        m.text.subrange(t->attributes[i].value.0, t->attributes[i].value.1),
    ) by {
        assert(t->attributes[i] == attrs.subrange(a, a + t->attributes.len())[i]);
        assert(attrs[a + i] == t->attributes[i]);
    }
    assert(t->children.take(0) =~= Seq::empty());
    lemma_places(f, attrs, t, at, a, 0, Seq::empty());
}

proof fn lemma_places(
    f: Seq<FlatModel>,
    attrs: Seq<RawAttribute>,
    t: RawTree,
    at: int,
    a: int,
    j: int,
    acc: Seq<int>,
)
    requires
        subtree_at(f, attrs, t, at, a),
        t is Element,
        0 <= j <= t->children.len(),
        acc.len() == j,
        forall|i: int| 0 <= i < j ==> #[trigger] acc[i] == child_place(t->children, at, i),
    ensures
        ({
            let p = places_from(
                f,
                child_place(t->children, at, j),
                child_place(t->children, at, t->children.len() as int),
                acc,
            );
            &&& p.len() == t->children.len()
            &&& forall|i: int|
                0 <= i < t->children.len() ==> #[trigger] p[i] == child_place(t->children, at, i)
        }),
    decreases t->children.len() - j,
{
    let c = t->children;
    let k = child_place(c, at, j);
    if j < c.len() {
        lemma_children_at(f, attrs, t, at, a, j);
        lemma_child_order(f, attrs, t, at, a, j + 1);
        let b = crate::flat::child_attributes(c, (a + t->attributes.len()) as int, j);
        lemma_element_entry(f, attrs, c[j], k, b);
        lemma_places(f, attrs, t, at, a, j + 1, acc.push(k));
    }
}

proof fn lemma_child_order(
    f: Seq<FlatModel>,
    attrs: Seq<RawAttribute>,
    t: RawTree,
    at: int,
    a: int,
    j: int,
)
    requires
        subtree_at(f, attrs, t, at, a),
        t is Element,
        0 <= j <= t->children.len(),
    ensures
        child_place(t->children, at, j) <= child_place(
            t->children,
            at,
            t->children.len() as int,
        ),
    decreases t->children.len() - j,
{
    if j < t->children.len() {
        lemma_children_at(f, attrs, t, at, a, j);
        lemma_child_order(f, attrs, t, at, a, j + 1);
    }
}

/// What the tables say of a node that is not an element: the target of an instruction and its
/// data, and the text of any other; and it has no children.
pub proof fn lemma_leaf_in_the_tables(m: DocumentModel, t: RawTree, at: int, a: int)
    requires
        subtree_at(nodes_of(m), attributes_of(m), t, at, a),
        t is Leaf,
        t->Leaf_kind != XmlNodeKind::Element,
    ensures
        t->Leaf_kind == XmlNodeKind::ProcessingInstruction ==> node_name_in(m, at) == Some(
            m.text.subrange(t->Leaf_primary.0, t->Leaf_primary.1),
        ) && node_value_in(m, at) == Some(
            m.text.subrange(t->Leaf_secondary.0, t->Leaf_secondary.1),
        ),
        t->Leaf_kind != XmlNodeKind::ProcessingInstruction ==> node_name_in(m, at) is None
            && node_value_in(m, at) == Some(
            m.text.subrange(t->Leaf_primary.0, t->Leaf_primary.1),
        ),
        children_in(m, at).len() == 0,
        node_attributes_in(m, at).len() == 0,
{
    lemma_element_entry(nodes_of(m), attributes_of(m), t, at, a);
}

/// Of several attributes, or children, with a name the first is found, and all of them in order.
pub proof fn lemma_found_in_the_tables(
    m: DocumentModel,
    a: Seq<(Seq<char>, Seq<char>)>,
    x: (Seq<char>, Seq<char>),
    p: Seq<int>,
    k: int,
    name: Seq<char>,
)
    ensures
        first_pair(Seq::empty(), 0, name) is None,
        first_pair(a.push(x), 0, name) == (match first_pair(a, 0, name) {
            Some(y) => Some(y),
            None => if x.0 == name {
                Some(x)
            } else {
                None
            },
        }),
        first_named(m, Seq::empty(), 0, name) is None,
        first_named(m, p.push(k), 0, name) == (match first_named(m, p, 0, name) {
            Some(y) => Some(y),
            None => if is_element_named(m, k, name) {
                Some(k)
            } else {
                None
            },
        }),
        named_from(m, Seq::empty(), 0, name, Seq::empty()) == Seq::<int>::empty(),
        named_from(m, p.push(k), 0, name, Seq::empty()) == (if is_element_named(m, k, name) {
            named_from(m, p, 0, name, Seq::empty()).push(k)
        } else {
            named_from(m, p, 0, name, Seq::empty())
        }),
        is_element_named(m, k, name) <==> 0 <= k < nodes_of(m).len() && nodes_of(m)[k].kind
            == XmlNodeKind::Element && m.text.subrange(
            nodes_of(m)[k].primary.0,
            nodes_of(m)[k].primary.1,
        ) == name,
{
    lemma_pair_push(a, x, 0, name);
    lemma_named_push(m, p, k, 0, name, Seq::empty());
}

proof fn lemma_pair_push(
    a: Seq<(Seq<char>, Seq<char>)>,
    x: (Seq<char>, Seq<char>),
    i: int,
    name: Seq<char>,
)
    requires
        0 <= i <= a.len(),
    ensures
        first_pair(a.push(x), i, name) == (match first_pair(a, i, name) {
            Some(y) => Some(y),
            None => if x.0 == name {
                Some(x)
            } else {
                None
            },
        }),
    decreases a.len() - i,
{
    reveal_with_fuel(first_pair, 2);
    if i < a.len() {
        assert(a.push(x)[i] == a[i]);
        lemma_pair_push(a, x, i + 1, name);
    } else {
        assert(a.push(x)[i] == x);
    }
}

proof fn lemma_named_push(
    m: DocumentModel,
    p: Seq<int>,
    k: int,
    i: int,
    name: Seq<char>,
    acc: Seq<int>,
)
    requires
        0 <= i <= p.len(),
    ensures
        first_named(m, p.push(k), i, name) == (match first_named(m, p, i, name) {
            Some(y) => Some(y),
            None => if is_element_named(m, k, name) {
                Some(k)
            } else {
                None
            },
        }),
        named_from(m, p.push(k), i, name, acc) == (if is_element_named(m, k, name) {
            named_from(m, p, i, name, acc).push(k)
        } else {
            named_from(m, p, i, name, acc)
        }),
    decreases p.len() - i,
{
    reveal_with_fuel(first_named, 2);
    reveal_with_fuel(named_from, 2);
    if i < p.len() {
        assert(p.push(k)[i] == p[i]);
        if is_element_named(m, p[i], name) {
            lemma_named_push(m, p, k, i + 1, name, acc.push(p[i]));
        } else {
            lemma_named_push(m, p, k, i + 1, name, acc);
        }
    } else {
        assert(p.push(k)[i] == k);
    }
}

/// Every element of the tables is counted once.
pub proof fn lemma_counted_in_the_tables(f: Seq<FlatModel>, x: FlatModel)
    ensures
        elements_before(f, 0) == 0,
        elements_before(f.push(x), 1int + f.len()) == elements_before(f, f.len() as int) + (
        if x.kind == XmlNodeKind::Element {
            1nat
        } else {
            0nat
        }),
{
    lemma_elements_prefix(f, x, f.len() as int);
    assert(f.push(x)[f.len() as int] == x);
}

proof fn lemma_elements_prefix(f: Seq<FlatModel>, x: FlatModel, n: int)
    requires
        0 <= n <= f.len(),
    ensures
        elements_before(f.push(x), n) == elements_before(f, n),
    decreases n,
{
    if n > 0 {
        assert(f.push(x)[n - 1] == f[n - 1]);
        lemma_elements_prefix(f, x, n - 1);
    }
}

/// One more child adds its elements, its attributes and its nodes to the counts. A node alone is
/// one node, and one element if it is one.
pub proof fn lemma_counts_grow(t: TreeModel, x: TreeModel)
    ensures
        ({
            let u = TreeModel { children: t.children.push(x), ..t };
            &&& element_count(u) == element_count(t) + element_count(x)
            &&& attribute_count(u) == attribute_count(t) + attribute_count(x)
            &&& size(u) == size(t) + size(x)
        }),
        t.children.len() == 0 ==> {
            &&& element_count(t) == (if t.kind == XmlNodeKind::Element {
                1nat
            } else {
                0nat
            })
            &&& attribute_count(t) == t.attributes.len()
            &&& size(t) == 1
        },
{
    let u = TreeModel { children: t.children.push(x), ..t };
    let n = t.children.len() as int;
    lemma_counts_prefix(t.children, x, n);
    assert(u.children[n] == x);
}

proof fn lemma_counts_prefix(n: Seq<TreeModel>, x: TreeModel, k: int)
    requires
        0 <= k <= n.len(),
    ensures
        element_counts(n.push(x), k) == element_counts(n, k),
        attribute_counts(n.push(x), k) == attribute_counts(n, k),
        sizes(n.push(x), k) == sizes(n, k),
    decreases k,
{
    if k > 0 {
        assert(n.push(x)[k - 1] == n[k - 1]);
        lemma_counts_prefix(n, x, k - 1);
    }
}

/// The statistics of a document count, beside the nodes of its tree, the XML declaration, the
/// document type declaration and the nodes beside the root.
pub proof fn lemma_statistics(s: StateModel, t: TreeModel)
    requires
        size(s.root) + s.before.len() + s.after.len() + 2 <= usize::MAX,
        element_count(s.root) <= usize::MAX,
        attribute_count(s.root) <= usize::MAX,
    ensures
        document_stats_of(s).elements == element_count(s.root),
        document_stats_of(s).attributes == attribute_count(s.root),
        document_stats_of(s).nodes == size(s.root) + s.before.len() + s.after.len() + (
        if s.declaration is Some {
            1nat
        } else {
            0nat
        }) + (if s.doctype is Some {
            1nat
        } else {
            0nat
        }),
        stats_of(s.root).elements == document_stats_of(s).elements,
        stats_of(s.root).attributes == document_stats_of(s).attributes,
        stats_of(s.root).nodes == size(s.root),
{
}

/// A handle of another document is refused as that, one of an earlier state of the document as
/// stale, and one whose node is gone as deleted.
pub proof fn lemma_refused_handles(s: StateModel, h: HandleModel)
    ensures
        h.lineage != s.lineage ==> resolved(s, h) == Err::<Seq<usize>, DomErrorModel>(
            DomErrorModel::WrongDocument,
        ),
        h.lineage == s.lineage && (h.document != s.document || h.generation != s.generation)
            ==> resolved(s, h) == Err::<Seq<usize>, DomErrorModel>(DomErrorModel::StaleHandle),
        h.lineage == s.lineage && h.document == s.document && h.generation == s.generation
            && path_to(s.root, h.local) is None ==> resolved(s, h) == Err::<
            Seq<usize>,
            DomErrorModel,
        >(DomErrorModel::DeletedHandle),
{
}

/// A document that was not changed is written as it was read, if nothing else is asked for; any
/// other is written anew.
pub proof fn lemma_unchanged_output(s: StateModel, root: NodeModel, options: XmlSerializeOptions)
    ensures
        s.verbatim && !s.edited ==> document_output(s, default_options()) == Ok::<
            Seq<char>,
            ErrorModel,
        >(s.source),
        (s.edited || !s.verbatim || options != default_options()) && snapshot(s.root, s.reading)
            == Ok::<NodeModel, ErrorModel>(root) ==> document_output(s, options) == Ok::<
            Seq<char>,
            ErrorModel,
        >(document_text(plain_document(s, root), options)),
        plain_document(s, root).root == root,
        plain_document(s, root).before == s.before,
        plain_document(s, root).after == s.after,
        plain_document(s, root).doctype == s.doctype,
        plain_document(s, root).declaration == s.declaration,
        plain_document(s, root).doctype_index == s.doctype_index,
{
}

/// A change that was made is noted, so that the document is not written as it was read.
pub proof fn lemma_changes_are_noted(
    s: StateModel,
    h: HandleModel,
    n: NodeModel,
    name: Seq<char>,
    value: Seq<char>,
    flag: bool,
    index: usize,
)
    ensures
        node_added(s, h, n, flag).1 is Ok ==> node_added(s, h, n, flag).0.edited,
        sibling_added(s, h, n, flag).1 is Ok ==> sibling_added(s, h, n, flag).0.edited,
        node_replaced(s, h, n).1 is Ok ==> node_replaced(s, h, n).0.edited,
        node_removed(s, h).1 is Ok ==> node_removed(s, h).0.edited,
        attribute_set(s, h, name, value).1 is Ok ==> attribute_set(s, h, name, value).0.edited,
        attribute_removed(s, h, name).1 == Ok::<bool, DomErrorModel>(true) ==> attribute_removed(
            s,
            h,
            name,
        ).0.edited,
        text_set(s, h, value).1 is Ok ==> text_set(s, h, value).0.edited,
        value_set(s, h, value).1 is Ok ==> value_set(s, h, value).0.edited,
        node_renamed(s, h, name).1 is Ok ==> node_renamed(s, h, name).0.edited,
        misc_appended(s, flag, n).1 is Ok ==> misc_appended(s, flag, n).0.edited,
        misc_removed(s, flag, index).1 is Ok ==> misc_removed(s, flag, index).0.edited,
{
}

/// An XML declaration that is set has the data that was given, and the rest of the document is
/// what it was.
pub proof fn lemma_declaration_is_set(s: StateModel, data: Seq<char>)
    ensures
        ({
            let (next, r) = declaration_set(s, data);
            if r is Ok {
                next == (StateModel {
                    declaration: Some(
                        InstructionModel { target: seq!['x', 'm', 'l'], data },
                    ),
                    edited: true,
                    ..s
                })
            } else {
                next == s
            }
        }),
{
    reveal_strlit("xml");
    assert("xml"@ =~= seq!['x', 'm', 'l']);
}

} // verus!
