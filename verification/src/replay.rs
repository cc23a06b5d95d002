//! What is built piece by piece is what the whole tree is written as.

use vstd::prelude::*;

use crate::builder::{
    content_text, ended, start_closed, started, with_attribute, with_child, with_content,
    BuilderModel,
};
use crate::compact::compact_parse;
use crate::config::preserving_config;
use crate::dom::{AttributeModel, ElementModel, NodeModel};
use crate::facade::opened;
use crate::lexeme::XmlVersion;
use crate::readback::writable;
use crate::saving::{lemma_opened_root, same_root};
use crate::serialize::{
    attributes_text, cdata_text, default_options, document_text, escaped_attribute, escaped_text,
    instruction_text, node_text, nodes_text, PlainDocument, XmlQuoteStyle,
};
use crate::text::byte_len;

verus! {

/// The builder after the attributes `a[..k]` have been added.
pub open spec fn attributes_added(b: BuilderModel, a: Seq<AttributeModel>, k: int) -> BuilderModel
    decreases k,
{
    if k <= 0 || k > a.len() {
        b
    } else {
        with_attribute(attributes_added(b, a, k - 1), a[k - 1].name, a[k - 1].value)
    }
}

/// The builder of an element after everything in the element has been added.
pub open spec fn filled(b: BuilderModel, e: ElementModel) -> BuilderModel
    decreases e, 0int,
{
    nodes_added(
        attributes_added(b, e.attributes, e.attributes.len() as int),
        e.children,
        e.children.len() as int,
    )
}

/// The builder after the node has been added.
pub open spec fn node_added(b: BuilderModel, n: NodeModel) -> BuilderModel
    decreases n, 0int,
{
    match n {
        NodeModel::Element(e) => with_child(
            b,
            ended(filled(started(start_closed(b).text, b.error, e.name), e)),
        ),
        NodeModel::Text(t) => with_content(b, content_text(t)),
        NodeModel::Cdata(t) => with_content(b, cdata_text(t)),
        NodeModel::Comment(t) => with_content(b, "<!--"@ + t + "-->"@),
        NodeModel::ProcessingInstruction(i) => with_content(b, instruction_text(i)),
    }
}

/// The builder after the first `k` nodes have been added.
pub open spec fn nodes_added(b: BuilderModel, n: Seq<NodeModel>, k: int) -> BuilderModel
    decreases n, k,
{
    if k <= 0 || k > n.len() {
        b
    } else {
        node_added(nodes_added(b, n, k - 1), n[k - 1])
    }
}

/// No text of the tree holds a carriage return.
pub open spec fn without_returns(n: NodeModel) -> bool
    decreases n,
{
    match n {
        NodeModel::Element(e) => forall|k: int|
            0 <= k < e.children.len() ==> without_returns(#[trigger] e.children[k]),
        NodeModel::Text(t) => !t.contains('\r'),
        _ => true,
    }
}

/// A text without a carriage return is built as it is written.
proof fn lemma_content_text(t: Seq<char>)
    requires
        !t.contains('\r'),
    ensures
        content_text(t) == escaped_text(t),
    decreases t.len(),
{
    if t.len() > 0 {
        let rest = t.drop_last();
        if rest.contains('\r') {
            let k = choose|k: int| 0 <= k < rest.len() && rest[k] == '\r';
            assert(t[k] == '\r');
        }
        lemma_content_text(rest);
        assert(t.contains(t.last()));
    }
}

/// Attributes are built as they are written.
proof fn lemma_attributes_added(b: BuilderModel, a: Seq<AttributeModel>, k: int)
    requires
        b.open,
        0 <= k <= a.len(),
    ensures
        attributes_added(b, a, k) == (BuilderModel {
            text: b.text + attributes_text(a, k, XmlQuoteStyle::Double),
            ..b
        }),
    decreases k,
{
    let q = XmlQuoteStyle::Double;
    if k == 0 {
        assert(b.text + attributes_text(a, k, q) =~= b.text);
    } else {
        lemma_attributes_added(b, a, k - 1);
        let x = attributes_added(b, a, k - 1).text;
        let e = escaped_attribute(a[k - 1].value, q);
        assert(x + seq![' '] + a[k - 1].name + seq!['=', '"'] + e + seq!['"'] =~= b.text
            + attributes_text(a, k, q));
    }
}

/// A node is built as it is written.
pub proof fn lemma_node_added(b: BuilderModel, n: NodeModel, depth: int)
    requires
        writable(n, depth, XmlVersion::Xml10),
        without_returns(n),
    ensures
        node_added(b, n) == (BuilderModel {
            text: start_closed(b).text + node_text(n, XmlQuoteStyle::Double),
            error: b.error,
            name: b.name,
            open: false,
        }),
    decreases n, 0int,
{
    let q = XmlQuoteStyle::Double;
    match n {
        NodeModel::Element(e) => {
            let c = started(start_closed(b).text, b.error, e.name);
            lemma_filled(c, e, depth);
            assert(start_closed(b).text + seq!['<'] + e.name + attributes_text(
                e.attributes,
                e.attributes.len() as int,
                q,
            ) + element_tail(e) =~= start_closed(b).text + node_text(n, q));
        },
        NodeModel::Text(t) => {
            lemma_content_text(t);
        },
        _ => {},
    }
}

/// What follows the attributes of an element.
pub open spec fn element_tail(e: ElementModel) -> Seq<char> {
    if e.children.len() == 0 {
        "/>"@
    } else {
        seq!['>'] + nodes_text(e.children, e.children.len() as int, XmlQuoteStyle::Double) + "</"@
            + e.name + seq!['>']
    }
}

/// An element is built as it is written.
pub proof fn lemma_filled(b: BuilderModel, e: ElementModel, depth: int)
    requires
        writable(NodeModel::Element(e), depth, XmlVersion::Xml10),
        without_returns(NodeModel::Element(e)),
        b.open,
        b.name == e.name,
    ensures
        ended(filled(b, e)) == (BuilderModel {
            text: b.text + attributes_text(
                e.attributes,
                e.attributes.len() as int,
                XmlQuoteStyle::Double,
            ) + element_tail(e),
            open: false,
            ..b
        }),
    decreases e, 0int,
{
    let q = XmlQuoteStyle::Double;
    let n = e.children.len() as int;
    lemma_attributes_added(b, e.attributes, e.attributes.len() as int);
    let c = attributes_added(b, e.attributes, e.attributes.len() as int);
    lemma_nodes_added(c, e.children, n, depth + 1);
    if n > 0 {
        let inner = nodes_text(e.children, n, q);
        assert(c.text.push('>') + inner + "</"@ + e.name + seq!['>'] =~= c.text + element_tail(e));
    }
}

/// Nodes are built as they are written.
pub proof fn lemma_nodes_added(b: BuilderModel, n: Seq<NodeModel>, k: int, depth: int)
    requires
        0 <= k <= n.len(),
        forall|m: int| 0 <= m < n.len() ==> writable(#[trigger] n[m], depth, XmlVersion::Xml10),
        forall|m: int| 0 <= m < n.len() ==> without_returns(#[trigger] n[m]),
    ensures
        nodes_added(b, n, k) == (if k == 0 {
            b
        } else {
            BuilderModel {
                text: start_closed(b).text + nodes_text(n, k, XmlQuoteStyle::Double),
                error: b.error,
                name: b.name,
                open: false,
            }
        }),
    decreases n, k,
{
    let q = XmlQuoteStyle::Double;
    if k > 0 {
        lemma_nodes_added(b, n, k - 1, depth);
        let c = nodes_added(b, n, k - 1);
        lemma_node_added(c, n[k - 1], depth);
        if k == 1 {
            assert(nodes_text(n, 0, q) =~= Seq::<char>::empty());
            assert(nodes_text(n, 1, q) =~= node_text(n[0], q));
        } else {
            assert(start_closed(b).text + nodes_text(n, k - 1, q) + node_text(n[k - 1], q)
                =~= start_closed(b).text + nodes_text(n, k, q));
        }
    }
}

/// The document whose root is the given tree and that has nothing beside it.
pub open spec fn lone(root: NodeModel) -> PlainDocument {
    PlainDocument {
        declaration: None,
        doctype: None,
        doctype_index: 0,
        before: Seq::empty(),
        root,
        after: Seq::empty(),
    }
}

/// A document that is built piece by piece from the parts of a tree holds the tree.
///
/// Carriage returns in texts are left out: the builder writes them as they are, and they read
/// back as line feeds.
pub proof fn lemma_built_document(e: ElementModel, lineage: u64, document: u64)
    requires
        writable(NodeModel::Element(e), 1, XmlVersion::Xml10),
        without_returns(NodeModel::Element(e)),
        byte_len(node_text(NodeModel::Element(e), XmlQuoteStyle::Double)) <= u32::MAX,
    ensures
        ({
            let b = ended(filled(started(Seq::empty(), None, e.name), e));
            &&& b.error is None
            &&& b.text == node_text(NodeModel::Element(e), XmlQuoteStyle::Double)
            &&& compact_parse(b.text, preserving_config()) matches Ok(m) && same_root(
                NodeModel::Element(e),
                opened(m, preserving_config(), lineage, document, true),
            )
        }),
{
    let q = XmlQuoteStyle::Double;
    let root = NodeModel::Element(e);
    let c = started(Seq::empty(), None, e.name);
    let b = ended(filled(c, e));
    lemma_filled(c, e, 1);
    assert(b.text =~= node_text(root, q));
    let d = lone(root);
    assert(d.before.take(0) =~= Seq::<NodeModel>::empty());
    assert(d.before.skip(0) =~= Seq::<NodeModel>::empty());
    assert(nodes_text(Seq::empty(), 0, q) =~= Seq::<char>::empty());
    assert(document_text(d, default_options()) =~= node_text(root, q));
    lemma_opened_root(d, default_options(), lineage, document, true);
}

} // verus!
