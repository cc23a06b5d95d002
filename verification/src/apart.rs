//! What belongs to one document is told apart from what belongs to another.

use vstd::prelude::*;

use crate::document::DocumentModel;
use crate::dom::XmlNodeKind;
use crate::facade::{document_output, handle_of, resolved, target, StateModel};
use crate::handle::{DomErrorModel, HandleModel};
use crate::laws::wf;
use crate::records::{
    attribute_name_from, attribute_recorded, attribute_value_from, attributes_recorded,
    lemma_range_text, name_from, node_recorded, nodes_recorded, value_from, RawXmlAttribute,
    RawXmlNode,
};
use crate::serialize::XmlSerializeOptions;
use crate::tables::{
    attribute_name_in, attribute_value_in, attributes_of, node_name_in, node_value_in, nodes_of,
};
use crate::tree::TreeModel;

verus! {

/// A record of a node gives the name and the value of its node with the source of its document,
/// and nothing with a source that has another token.
pub proof fn lemma_node_record_belongs(
    m: DocumentModel,
    owner: u64,
    nodes: Seq<RawXmlNode>,
    i: int,
    other: Seq<char>,
    token: u64,
)
    requires
        nodes_recorded(m.text, nodes_of(m), owner, nodes),
        0 <= i < nodes.len(),
    ensures
        name_from(nodes[i], m.text, owner) == node_name_in(m, i),
        value_from(nodes[i], m.text, owner) == node_value_in(m, i),
        token != owner ==> name_from(nodes[i], other, token) is None,
        token != owner ==> value_from(nodes[i], other, token) is None,
{
    let n = nodes[i];
    let f = nodes_of(m)[i];
    assert(node_recorded(m.text, f, i, owner, n));
    lemma_range_text(m.text, f.primary, n.name_start, n.name_len);
    if f.kind != XmlNodeKind::Element {
        lemma_range_text(m.text, f.secondary, n.attribute_start, n.attribute_count);
    }
}

/// A record of an attribute gives the name and the value of its attribute with the source of its
/// document, and nothing with a source that has another token.
pub proof fn lemma_attribute_record_belongs(
    m: DocumentModel,
    owner: u64,
    attributes: Seq<RawXmlAttribute>,
    i: int,
    other: Seq<char>,
    token: u64,
)
    requires
        attributes_recorded(m.text, attributes_of(m), owner, attributes),
        0 <= i < attributes.len(),
    ensures
        attribute_name_from(attributes[i], m.text, owner) == attribute_name_in(m, i),
        attribute_value_from(attributes[i], m.text, owner) == attribute_value_in(m, i),
        token != owner ==> attribute_name_from(attributes[i], other, token) is None,
        token != owner ==> attribute_value_from(attributes[i], other, token) is None,
{
    let a = attributes[i];
    let f = attributes_of(m)[i];
    assert(attribute_recorded(m.text, f, owner, a));
    lemma_range_text(m.text, f.name, a.name_start, a.name_len);
    lemma_range_text(m.text, f.value, a.value_start, a.value_len);
}

/// `c` is a copy of `s` that is a document of its own.
pub open spec fn deep_copy(s: StateModel, c: StateModel) -> bool {
    &&& c == (StateModel { lineage: c.lineage, document: c.document, generation: 0, ..s })
    &&& c.lineage != s.lineage
    &&& c.document != s.document
}

/// A deep copy is written as the document is, its nodes have other identities, and neither of the
/// two takes a handle of the other, however the two were edited since.
///
/// `now` and `then` are what the document and the copy have become; a change keeps the lineage.
pub proof fn lemma_deep_copy_stands_apart(
    s: StateModel,
    c: StateModel,
    options: XmlSerializeOptions,
    now: StateModel,
    then: StateModel,
    h: HandleModel,
)
    requires
        deep_copy(s, c),
        now.lineage == s.lineage,
        then.lineage == c.lineage,
    ensures
        document_output(c, options) == document_output(s, options),
        wf(s) ==> wf(c),
        handle_of(c, c.root.id).local == handle_of(s, s.root.id).local,
        handle_of(c, c.root.id).document != handle_of(s, s.root.id).document,
        resolved(now, h) is Ok ==> target(then, h) == Err::<TreeModel, DomErrorModel>(
            DomErrorModel::WrongDocument,
        ),
        resolved(then, h) is Ok ==> target(now, h) == Err::<TreeModel, DomErrorModel>(
            DomErrorModel::WrongDocument,
        ),
{
    if wf(s) {
        assert forall|id: u64| #[trigger]
            crate::tree::occurrences(c.root, id) <= 1 && (crate::tree::occurrences(c.root, id) == 1
                ==> id < c.next_id) by {
            assert(crate::tree::occurrences(s.root, id) <= 1);
        }
    }
}

} // verus!
