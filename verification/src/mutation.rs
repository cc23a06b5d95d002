//! The rules that trees built by hand keep.

use vstd::prelude::*;

use crate::dom::{
    attribute_models, node_models, text_option, weight, weights, AttributeModel, DoctypeModel,
    NodeModel, XmlAttribute, XmlDoctype, XmlElement, XmlNode, XmlNodeKind,
};
use crate::dtd::{parse_internal_subset_entities, subset_entities};
use crate::lexeme::XmlVersion;
use crate::syntax::{
    is_pubid_char, is_valid_name, is_xml_target, pubid_char, valid_name, xml_target,
};
use crate::text::{chars_of, contains_text, has_text, str_eq};

verus! {

/// A change that a document refuses.
#[derive(Clone, Debug, PartialEq, Eq)]
pub enum XmlMutationError {
    /// Not a name.
    InvalidName(String),
    /// A character that XML cannot represent.
    InvalidCharacter,
    /// A comment with two hyphens in a row, or with a hyphen at its end.
    InvalidComment,
    /// A reserved target, or data with the end of an instruction in it.
    InvalidProcessingInstruction,
    /// Two attributes with one name.
    DuplicateAttribute(String),
    /// A malformed document type declaration.
    InvalidDoctype,
    /// A malformed XML declaration.
    InvalidDeclaration,
    /// A path that leads nowhere.
    InvalidPath,
    /// The root element cannot be removed and has no siblings.
    RootHasNoSiblings,
    /// Only an element has children.
    DestinationNotElement,
    /// A position behind the end of a list.
    IndexOutOfBounds {
        /// The position.
        index: usize,
        /// The length of the list.
        len: usize,
    },
    /// A node cannot move into its own subtree.
    MoveIntoDescendant,
}

/// A refusal as a mathematical value.
#[verifier::ext_equal]
pub enum MutationModel {
    InvalidName(Seq<char>),
    InvalidCharacter,
    InvalidComment,
    InvalidProcessingInstruction,
    DuplicateAttribute(Seq<char>),
    InvalidDoctype,
    InvalidDeclaration,
    InvalidPath,
    RootHasNoSiblings,
    DestinationNotElement,
    IndexOutOfBounds { index: int, len: int },
    MoveIntoDescendant,
}

impl View for XmlMutationError {
    type V = MutationModel;

    open spec fn view(&self) -> MutationModel {
        match *self {
            XmlMutationError::InvalidName(n) => MutationModel::InvalidName(n@),
            XmlMutationError::InvalidCharacter => MutationModel::InvalidCharacter,
            XmlMutationError::InvalidComment => MutationModel::InvalidComment,
            XmlMutationError::InvalidProcessingInstruction =>
                MutationModel::InvalidProcessingInstruction,
            XmlMutationError::DuplicateAttribute(n) => MutationModel::DuplicateAttribute(n@),
            XmlMutationError::InvalidDoctype => MutationModel::InvalidDoctype,
            XmlMutationError::InvalidDeclaration => MutationModel::InvalidDeclaration,
            XmlMutationError::InvalidPath => MutationModel::InvalidPath,
            XmlMutationError::RootHasNoSiblings => MutationModel::RootHasNoSiblings,
            XmlMutationError::DestinationNotElement => MutationModel::DestinationNotElement,
            XmlMutationError::IndexOutOfBounds { index, len } => MutationModel::IndexOutOfBounds {
                index: index as int,
                len: len as int,
            },
            XmlMutationError::MoveIntoDescendant => MutationModel::MoveIntoDescendant,
        }
    }
}

/// A character that may stand in a tree.
pub open spec fn tree_char(c: char) -> bool {
    (c as u32 >= 0x20 || c == '\t' || c == '\n' || c == '\r') && c != '\u{fffe}' && c != '\u{ffff}'
}

/// All characters may stand in a tree.
pub open spec fn tree_text(s: Seq<char>) -> bool {
    forall|i: int| 0 <= i < s.len() ==> tree_char(#[trigger] s[i])
}

/// What is wrong with a name.
pub open spec fn name_fault(s: Seq<char>) -> Option<MutationModel> {
    if valid_name(s) {
        None
    } else {
        Some(MutationModel::InvalidName(s))
    }
}

/// What is wrong with a text.
pub open spec fn text_fault(s: Seq<char>) -> Option<MutationModel> {
    if tree_text(s) {
        None
    } else {
        Some(MutationModel::InvalidCharacter)
    }
}

/// The first of two faults.
pub open spec fn first_fault(a: Option<MutationModel>, b: Option<MutationModel>) -> Option<
    MutationModel,
> {
    if a is Some {
        a
    } else {
        b
    }
}

/// What is wrong with an attribute.
pub open spec fn attribute_fault(name: Seq<char>, value: Seq<char>) -> Option<MutationModel> {
    first_fault(name_fault(name), text_fault(value))
}

/// One of the first `k` attributes has the name.
pub open spec fn named_before(a: Seq<AttributeModel>, k: int, name: Seq<char>) -> bool {
    exists|i: int| 0 <= i < k && i < a.len() && (#[trigger] a[i]).name == name
}

/// What is wrong with the attributes from `k` on.
pub open spec fn attributes_fault(a: Seq<AttributeModel>, k: int) -> Option<MutationModel>
    decreases a.len() - k,
{
    if k < 0 || k >= a.len() {
        None
    } else if attribute_fault(a[k].name, a[k].value) is Some {
        attribute_fault(a[k].name, a[k].value)
    } else if named_before(a, k, a[k].name) {
        Some(MutationModel::DuplicateAttribute(a[k].name))
    } else {
        attributes_fault(a, k + 1)
    }
}

/// A text that cannot be a comment.
pub open spec fn comment_breaks(s: Seq<char>) -> bool {
    contains_text(s, "--"@) || (s.len() > 0 && s.last() == '-')
}

/// What is wrong with a comment.
pub open spec fn comment_fault(s: Seq<char>) -> Option<MutationModel> {
    if text_fault(s) is Some {
        text_fault(s)
    } else if comment_breaks(s) {
        Some(MutationModel::InvalidComment)
    } else {
        None
    }
}

/// What is wrong with the data of an instruction.
pub open spec fn data_fault(s: Seq<char>) -> Option<MutationModel> {
    if text_fault(s) is Some {
        text_fault(s)
    } else if contains_text(s, "?>"@) {
        Some(MutationModel::InvalidProcessingInstruction)
    } else {
        None
    }
}

/// What is wrong with an instruction.
pub open spec fn instruction_fault(target: Seq<char>, data: Seq<char>) -> Option<MutationModel> {
    if name_fault(target) is Some {
        name_fault(target)
    } else if text_fault(data) is Some {
        text_fault(data)
    } else if xml_target(target) || contains_text(data, "?>"@) {
        Some(MutationModel::InvalidProcessingInstruction)
    } else {
        None
    }
}

/// What is wrong with a node, in document order.
pub open spec fn node_fault(n: NodeModel) -> Option<MutationModel>
    decreases n, 0int,
{
    match n {
        NodeModel::Element(e) => if name_fault(e.name) is Some {
            name_fault(e.name)
        } else if attributes_fault(e.attributes, 0) is Some {
            attributes_fault(e.attributes, 0)
        } else {
            nodes_fault(e.children, 0)
        },
        NodeModel::Text(s) => text_fault(s),
        NodeModel::Cdata(s) => text_fault(s),
        NodeModel::Comment(s) => comment_fault(s),
        NodeModel::ProcessingInstruction(i) => instruction_fault(i.target, i.data),
    }
}

/// What is wrong with a node beside what is below it.
pub open spec fn head_fault(n: NodeModel) -> Option<MutationModel> {
    match n {
        NodeModel::Element(e) => if name_fault(e.name) is Some {
            name_fault(e.name)
        } else {
            attributes_fault(e.attributes, 0)
        },
        _ => node_fault(n),
    }
}

/// What is wrong with the nodes from `k` on.
pub open spec fn nodes_fault(n: Seq<NodeModel>, k: int) -> Option<MutationModel>
    decreases n, n.len() - k,
{
    if k < 0 || k >= n.len() {
        None
    } else if node_fault(n[k]) is Some {
        node_fault(n[k])
    } else {
        nodes_fault(n, k + 1)
    }
}

/// What is wrong with the new value of a node.
pub open spec fn value_fault(kind: XmlNodeKind, s: Seq<char>) -> Option<MutationModel> {
    match kind {
        XmlNodeKind::Comment => comment_fault(s),
        XmlNodeKind::ProcessingInstruction => data_fault(s),
        _ => text_fault(s),
    }
}

/// Both kinds of quotation mark occur.
pub open spec fn unquotable(s: Seq<char>) -> bool {
    s.contains('"') && s.contains('\'')
}

/// What is wrong with an optional identifier.
pub open spec fn identifier_fault(s: Option<Seq<char>>) -> Option<MutationModel> {
    match s {
        None => None,
        Some(x) => if text_fault(x) is Some {
            text_fault(x)
        } else if unquotable(x) {
            Some(MutationModel::InvalidDoctype)
        } else {
            None
        },
    }
}

/// All characters may stand in a public identifier.
pub open spec fn pubid_text(s: Seq<char>) -> bool {
    forall|i: int| 0 <= i < s.len() ==> pubid_char(#[trigger] s[i])
}

/// What is wrong with a document type declaration.
pub open spec fn doctype_fault(d: DoctypeModel) -> Option<MutationModel> {
    if name_fault(d.name) is Some {
        name_fault(d.name)
    } else if d.public_id is Some && (d.system_id is None || !pubid_text(d.public_id->Some_0)) {
        Some(MutationModel::InvalidDoctype)
    } else if identifier_fault(d.public_id) is Some {
        identifier_fault(d.public_id)
    } else if identifier_fault(d.system_id) is Some {
        identifier_fault(d.system_id)
    } else if d.internal_subset is Some && subset_entities(
        d.internal_subset->Some_0,
        XmlVersion::Xml10,
    ) is Err {
        Some(MutationModel::InvalidDoctype)
    } else {
        None
    }
}

/// The check found the fault `m`.
pub open spec fn checked(r: Result<(), XmlMutationError>, m: Option<MutationModel>) -> bool {
    match r {
        Ok(_) => m is None,
        Err(e) => m == Some(e@),
    }
}

pub(crate) fn validate_name(name: &str) -> (r: Result<(), XmlMutationError>)
    ensures
        checked(r, name_fault(name@)),
{
    if is_valid_name(name) {
        Ok(())
    } else {
        Err(XmlMutationError::InvalidName(name.to_owned()))
    }
}

/// May all characters stand in a tree?
fn is_tree_text(value: &str) -> (r: bool)
    ensures
        r == tree_text(value@),
{
    let s = chars_of(value);
    let mut k: usize = 0;
    while k < s.len()
        invariant
            k <= s@.len(),
            s@ == value@,
            forall|i: int| 0 <= i < k ==> tree_char(#[trigger] s@[i]),
        decreases s@.len() - k,
    {
        let c: char = s[k];
        if !((c as u32 >= 0x20 || c == '\t' || c == '\n' || c == '\r') && c != '\u{fffe}' && c
            != '\u{ffff}') {
            assert(!tree_char(value@[k as int]));
            return false;
        }
        k = k + 1;
    }
    true
}

pub(crate) fn validate_characters(value: &str) -> (r: Result<(), XmlMutationError>)
    ensures
        checked(r, text_fault(value@)),
{
    if is_tree_text(value) {
        Ok(())
    } else {
        Err(XmlMutationError::InvalidCharacter)
    }
}

pub(crate) fn validate_attribute(name: &str, value: &str) -> (r: Result<(), XmlMutationError>)
    ensures
        checked(r, attribute_fault(name@, value@)),
{
    match validate_name(name) {
        Err(e) => Err(e),
        Ok(_) => validate_characters(value),
    }
}

/// Can the text not be a comment?
fn breaks_comment(value: &str) -> (r: bool)
    ensures
        r == comment_breaks(value@),
{
    let s = chars_of(value);
    has_text(s.as_slice(), "--") || (s.len() > 0 && s[s.len() - 1] == '-')
}

pub(crate) fn validate_comment(value: &str) -> (r: Result<(), XmlMutationError>)
    ensures
        checked(r, comment_fault(value@)),
{
    match validate_characters(value) {
        Err(e) => Err(e),
        Ok(_) => if breaks_comment(value) {
            Err(XmlMutationError::InvalidComment)
        } else {
            Ok(())
        },
    }
}

pub(crate) fn validate_data(value: &str) -> (r: Result<(), XmlMutationError>)
    ensures
        checked(r, data_fault(value@)),
{
    match validate_characters(value) {
        Err(e) => Err(e),
        Ok(_) => {
            let s = chars_of(value);
            if has_text(s.as_slice(), "?>") {
                Err(XmlMutationError::InvalidProcessingInstruction)
            } else {
                Ok(())
            }
        },
    }
}

pub(crate) fn validate_instruction(target: &str, data: &str) -> (r: Result<(), XmlMutationError>)
    ensures
        checked(r, instruction_fault(target@, data@)),
{
    match validate_name(target) {
        Err(e) => Err(e),
        Ok(_) => match validate_characters(data) {
            Err(e) => Err(e),
            Ok(_) => {
                let s = chars_of(data);
                if is_xml_target(target) || has_text(s.as_slice(), "?>") {
                    Err(XmlMutationError::InvalidProcessingInstruction)
                } else {
                    Ok(())
                }
            },
        },
    }
}

fn validate_attributes(a: &Vec<XmlAttribute>) -> (r: Result<(), XmlMutationError>)
    ensures
        checked(r, attributes_fault(attribute_models(a@), 0)),
{
    let ghost m = attribute_models(a@);
    let mut k: usize = 0;
    while k < a.len()
        invariant
            k <= a@.len(),
            m == attribute_models(a@),
            attributes_fault(m, 0) == attributes_fault(m, k as int),
        decreases a@.len() - k,
    {
        let x = &a[k];
        assert(m[k as int] == x@);
        if let Err(e) = validate_attribute(x.name.as_str(), x.value.as_str()) {
            return Err(e);
        }
        let mut j: usize = 0;
        while j < k
            invariant
                j <= k < a@.len(),
                m == attribute_models(a@),
                x == a@[k as int],
                m[k as int] == x@,
                attributes_fault(m, 0) == attributes_fault(m, k as int),
                attribute_fault(x.name@, x.value@) is None,
                forall|i: int| 0 <= i < j ==> (#[trigger] m[i]).name != x.name@,
            decreases k - j,
        {
            assert(m[j as int] == a@[j as int]@);
            if str_eq(a[j].name.as_str(), x.name.as_str()) {
                assert(named_before(m, k as int, x.name@));
                return Err(XmlMutationError::DuplicateAttribute(x.name.clone()));
            }
            j = j + 1;
        }
        assert(!named_before(m, k as int, x.name@));
        k = k + 1;
    }
    Ok(())
}

/// Checks a subtree before it enters a document.
pub(crate) fn validate_node(n: &XmlNode) -> (r: Result<(), XmlMutationError>)
    ensures
        checked(r, node_fault(n.model())),
{
    match n {
        XmlNode::Element(e) => validate_element(e),
        leaf => validate_head(leaf),
    }
}

/// Checks an element before it enters a document.
pub(crate) fn validate_element(e: &XmlElement) -> (r: Result<(), XmlMutationError>)
    ensures
        checked(r, node_fault(NodeModel::Element(e.model()))),
{
    if let Err(x) = validate_name(e.name.as_str()) {
        return Err(x);
    }
    if let Err(x) = validate_attributes(&e.attributes) {
        return Err(x);
    }
    validate_nodes(&e.children)
}

/// A list of nodes that is being checked; those before `at` are right.
struct Checking<'a> {
    nodes: &'a Vec<XmlNode>,
    at: usize,
}

/// What is wrong with the nodes that are still to be checked.
spec fn pending_fault(st: Seq<Checking<'_>>) -> Option<MutationModel>
    decreases st.len(),
{
    if st.len() == 0 {
        None
    } else {
        match nodes_fault(node_models(st.last().nodes@), st.last().at as int) {
            Some(f) => Some(f),
            None => pending_fault(st.drop_last()),
        }
    }
}

/// How much is left to check.
spec fn unchecked(st: Seq<Checking<'_>>) -> nat
    decreases st.len(),
{
    if st.len() == 0 {
        0
    } else {
        unchecked(st.drop_last()) + 2 * weights(
            node_models(st.last().nodes@),
            st.last().at as int,
        ) + 1
    }
}

/// Checks a node beside what is below it.
fn validate_head(n: &XmlNode) -> (r: Result<(), XmlMutationError>)
    ensures
        checked(r, head_fault(n.model())),
{
    match n {
        XmlNode::Element(e) => {
            if let Err(x) = validate_name(e.name.as_str()) {
                return Err(x);
            }
            validate_attributes(&e.attributes)
        },
        XmlNode::Text(s) => validate_characters(s.as_str()),
        XmlNode::Cdata(s) => validate_characters(s.as_str()),
        XmlNode::Comment(s) => validate_comment(s.as_str()),
        XmlNode::ProcessingInstruction(i) => validate_instruction(
            i.target.as_str(),
            i.data.as_str(),
        ),
    }
}

/// Checks nodes before they enter a document.
///
/// The lists that are not done wait on a stack, so that the depth of the nodes does not matter.
pub(crate) fn validate_nodes(n: &Vec<XmlNode>) -> (r: Result<(), XmlMutationError>)
    ensures
        checked(r, nodes_fault(node_models(n@), 0)),
{
    let mut stack: Vec<Checking<'_>> = Vec::new();
    stack.push(Checking { nodes: n, at: 0 });
    let ghost fault = nodes_fault(node_models(n@), 0);
    proof {
        assert(stack@.drop_last() =~= Seq::<Checking<'_>>::empty());
        assert(pending_fault(stack@.drop_last()) is None);
    }
    while stack.len() > 0
        invariant
            fault == nodes_fault(node_models(n@), 0),
            pending_fault(stack@) == fault,
        decreases unchecked(stack@),
    {
        let ghost before = stack@;
        if let Some(top) = stack.pop() {
            proof {
                assert(stack@ =~= before.drop_last());
                assert(before.last() == top);
            }
            let k: usize = top.at;
            let ghost m = node_models(top.nodes@);
            if k < top.nodes.len() {
                let x = &top.nodes[k];
                assert(m[k as int] == x.model());
                if let Err(e) = validate_head(x) {
                    return Err(e);
                }
                let rest = Checking { nodes: top.nodes, at: k + 1 };
                let ghost below = stack@;
                stack.push(rest);
                proof {
                    assert(stack@.drop_last() =~= below);
                    assert(weights(m, k as int) == weight(m[k as int]) + weights(m, k + 1));
                    assert(pending_fault(stack@) == (match nodes_fault(m, k + 1) {
                        Some(f) => Some(f),
                        None => pending_fault(below),
                    }));
                    assert(unchecked(stack@) == unchecked(below) + 2 * weights(m, k + 1) + 1);
                }
                if let XmlNode::Element(e) = x {
                    let ghost held = stack@;
                    stack.push(Checking { nodes: &e.children, at: 0 });
                    proof {
                        assert(stack@.drop_last() =~= held);
                        assert(e.model().children == node_models(e.children@));
                        assert(weight(m[k as int]) == 1 + weights(node_models(e.children@), 0));
                    }
                }
            }
        }
    }
    Ok(())
}

pub(crate) fn validate_node_value(kind: XmlNodeKind, value: &str) -> (r: Result<
    (),
    XmlMutationError,
>)
    ensures
        checked(r, value_fault(kind, value@)),
{
    match kind {
        XmlNodeKind::Comment => validate_comment(value),
        XmlNodeKind::ProcessingInstruction => validate_data(value),
        _ => validate_characters(value),
    }
}

/// Does the character occur?
fn has_char(s: &Vec<char>, c: char) -> (r: bool)
    ensures
        r == s@.contains(c),
{
    let mut k: usize = 0;
    while k < s.len()
        invariant
            k <= s@.len(),
            forall|i: int| 0 <= i < k ==> s@[i] != c,
        decreases s@.len() - k,
    {
        if s[k] == c {
            return true;
        }
        k = k + 1;
    }
    false
}

fn validate_identifier(o: &Option<String>) -> (r: Result<(), XmlMutationError>)
    ensures
        checked(r, identifier_fault(text_option(*o))),
{
    match o {
        None => Ok(()),
        Some(x) => match validate_characters(x.as_str()) {
            Err(e) => Err(e),
            Ok(_) => {
                let s = chars_of(x.as_str());
                if has_char(&s, '"') && has_char(&s, '\'') {
                    Err(XmlMutationError::InvalidDoctype)
                } else {
                    Ok(())
                }
            },
        },
    }
}

/// May all characters stand in a public identifier?
pub(crate) fn is_pubid_text(value: &str) -> (r: bool)
    ensures
        r == pubid_text(value@),
{
    let s = chars_of(value);
    let mut k: usize = 0;
    while k < s.len()
        invariant
            k <= s@.len(),
            s@ == value@,
            forall|i: int| 0 <= i < k ==> pubid_char(#[trigger] s@[i]),
        decreases s@.len() - k,
    {
        if !is_pubid_char(s[k]) {
            assert(!pubid_char(value@[k as int]));
            return false;
        }
        k = k + 1;
    }
    true
}

/// Checks a document type declaration before it enters a document.
pub(crate) fn validate_doctype(d: &XmlDoctype) -> (r: Result<(), XmlMutationError>)
    ensures
        checked(r, doctype_fault(d@)),
{
    if let Err(e) = validate_name(d.name.as_str()) {
        return Err(e);
    }
    if let Some(x) = &d.public_id {
        if d.system_id.is_none() || !is_pubid_text(x.as_str()) {
            return Err(XmlMutationError::InvalidDoctype);
        }
    }
    if let Err(e) = validate_identifier(&d.public_id) {
        return Err(e);
    }
    if let Err(e) = validate_identifier(&d.system_id) {
        return Err(e);
    }
    if let Some(x) = &d.internal_subset {
        let s = chars_of(x.as_str());
        if parse_internal_subset_entities(s.as_slice(), XmlVersion::Xml10).is_err() {
            return Err(XmlMutationError::InvalidDoctype);
        }
    }
    Ok(())
}

} // verus!
