//! Reading and changing owned trees.

use vstd::prelude::*;
use vstd::pervasive::unreached;

use crate::dom::{
    attribute_models, node_models, release_node, release_nodes, weight, weights, AttributeModel,
    DoctypeModel, ElementModel, InstructionModel, NodeModel, XmlAttribute, XmlDoctype, XmlElement,
    XmlMemoryRetention, XmlNode, XmlProcessingInstruction,
};
use crate::mutation::{
    attribute_fault, data_fault, instruction_fault, is_pubid_text, name_fault, node_fault,
    pubid_text, text_fault, validate_attribute, validate_characters, validate_data,
    validate_instruction, validate_name, validate_node, MutationModel, XmlMutationError,
};
use crate::records::str_option;
use crate::text::{chars_of, push_text, str_eq, string_of};

verus! {

/// The first of the attributes, from `k` on, with the name.
pub open spec fn attribute_from(a: Seq<XmlAttribute>, k: int, name: Seq<char>) -> Option<int>
    decreases a.len() - k,
{
    if k < 0 || k >= a.len() {
        None
    } else if a[k].name@ == name {
        Some(k)
    } else {
        attribute_from(a, k + 1, name)
    }
}

/// The node is an element with the name.
pub open spec fn node_is_named(n: XmlNode, name: Seq<char>) -> bool {
    n matches XmlNode::Element(e) && e.name@ == name
}

/// The first of the nodes, from `k` on, that is an element with the name.
pub open spec fn element_from(c: Seq<XmlNode>, k: int, name: Seq<char>) -> Option<int>
    decreases c.len() - k,
{
    if k < 0 || k >= c.len() {
        None
    } else if node_is_named(c[k], name) {
        Some(k)
    } else {
        element_from(c, k + 1, name)
    }
}

/// The node holds text.
pub open spec fn node_is_text(n: XmlNode) -> bool {
    n is Text || n is Cdata
}

/// The first of the nodes, from `k` on, that holds text.
pub open spec fn text_from(c: Seq<XmlNode>, k: int) -> Option<int>
    decreases c.len() - k,
{
    if k < 0 || k >= c.len() {
        None
    } else if node_is_text(c[k]) {
        Some(k)
    } else {
        text_from(c, k + 1)
    }
}

/// The text of a node that holds text.
pub open spec fn held_text(n: XmlNode) -> Seq<char> {
    match n {
        XmlNode::Text(t) => t@,
        XmlNode::Cdata(t) => t@,
        _ => Seq::empty(),
    }
}

/// The elements among the nodes, from `k` on, behind `acc`.
pub open spec fn elements_from(c: Seq<XmlNode>, k: int, acc: Seq<XmlElement>) -> Seq<XmlElement>
    decreases c.len() - k,
{
    if k < 0 || k >= c.len() {
        acc
    } else {
        match c[k] {
            XmlNode::Element(e) => elements_from(c, k + 1, acc.push(e)),
            _ => elements_from(c, k + 1, acc),
        }
    }
}

/// The elements with the name among the nodes, from `k` on, behind `acc`.
pub open spec fn elements_named_from(
    c: Seq<XmlNode>,
    k: int,
    name: Seq<char>,
    acc: Seq<XmlElement>,
) -> Seq<XmlElement>
    decreases c.len() - k,
{
    if k < 0 || k >= c.len() {
        acc
    } else if node_is_named(c[k], name) {
        elements_named_from(c, k + 1, name, acc.push(c[k]->Element_0))
    } else {
        elements_named_from(c, k + 1, name, acc)
    }
}

/// The elements that references point to.
pub open spec fn referents(v: Seq<&XmlElement>) -> Seq<XmlElement> {
    Seq::new(v.len(), |i: int| *v[i])
}

/// Everything but the attributes stays.
pub open spec fn keeps_rest_of_attributes(a: XmlElement, b: XmlElement) -> bool {
    a.name == b.name && a.children == b.children
}

/// Everything but the children stays.
pub open spec fn keeps_rest_of_children(a: XmlElement, b: XmlElement) -> bool {
    a.name == b.name && a.attributes == b.attributes
}

impl XmlDoctype {
    /// Makes a declaration with a name only.
    pub fn new(name: &str) -> (r: Result<Self, XmlMutationError>)
        ensures
            match r {
                Ok(d) => name_fault(name@) is None && d@ == (DoctypeModel {
                    name: name@,
                    public_id: None,
                    system_id: None,
                    internal_subset: None,
                }),
                Err(e) => name_fault(name@) == Some(e@),
            },
    {
        match validate_name(name) {
            Err(e) => Err(e),
            Ok(_) => Ok(
                XmlDoctype {
                    name: name.to_owned(),
                    public_id: None,
                    system_id: None,
                    internal_subset: None,
                },
            ),
        }
    }

    /// Returns the name of the root element.
    pub fn name(&self) -> (r: &str)
        ensures
            r@ == self@.name,
    {
        self.name.as_str()
    }

    /// Returns the public identifier.
    pub fn public_id(&self) -> (r: Option<&str>)
        ensures
            str_option(r) == self@.public_id,
    {
        match &self.public_id {
            Some(x) => Some(x.as_str()),
            None => None,
        }
    }

    /// Returns the system identifier.
    pub fn system_id(&self) -> (r: Option<&str>)
        ensures
            str_option(r) == self@.system_id,
    {
        match &self.system_id {
            Some(x) => Some(x.as_str()),
            None => None,
        }
    }

    /// Returns the text between the square brackets.
    pub fn internal_subset(&self) -> (r: Option<&str>)
        ensures
            str_option(r) == self@.internal_subset,
    {
        match &self.internal_subset {
            Some(x) => Some(x.as_str()),
            None => None,
        }
    }

    /// Sets the public identifier.
    pub fn set_public_id(&mut self, value: Option<String>) -> (r: Result<(), XmlMutationError>)
        ensures
            match r {
                Ok(_) => (value is Some ==> pubid_text(value->Some_0@)) && *final(self)
                    == (XmlDoctype { public_id: value, ..*old(self) }),
                Err(e) => value is Some && !pubid_text(value->Some_0@) && e@
                    == MutationModel::InvalidCharacter && *final(self) == *old(self),
            },
    {
        if let Some(x) = &value {
            if !is_pubid_text(x.as_str()) {
                return Err(XmlMutationError::InvalidCharacter);
            }
        }
        self.public_id = value;
        Ok(())
    }

    /// Sets the system identifier.
    pub fn set_system_id(&mut self, value: Option<String>) -> (r: Result<(), XmlMutationError>)
        ensures
            match r {
                Ok(_) => (value is Some ==> text_fault(value->Some_0@) is None) && *final(self)
                    == (XmlDoctype { system_id: value, ..*old(self) }),
                Err(e) => value is Some && text_fault(value->Some_0@) == Some(e@) && *final(self)
                    == *old(self),
            },
    {
        if let Some(x) = &value {
            if let Err(e) = validate_characters(x.as_str()) {
                return Err(e);
            }
        }
        self.system_id = value;
        Ok(())
    }

    /// Sets the text between the square brackets.
    pub fn set_internal_subset(&mut self, value: Option<String>) -> (r: Result<
        (),
        XmlMutationError,
    >)
        ensures
            match r {
                Ok(_) => (value is Some ==> text_fault(value->Some_0@) is None) && *final(self)
                    == (XmlDoctype { internal_subset: value, ..*old(self) }),
                Err(e) => value is Some && text_fault(value->Some_0@) == Some(e@) && *final(self)
                    == *old(self),
            },
    {
        if let Some(x) = &value {
            if let Err(e) = validate_characters(x.as_str()) {
                return Err(e);
            }
        }
        self.internal_subset = value;
        Ok(())
    }
}

/// The element without attributes and children.
pub open spec fn bare_element(name: Seq<char>) -> ElementModel {
    ElementModel { name, attributes: Seq::empty(), children: Seq::empty() }
}

impl XmlElement {
    /// Returns the name.
    pub fn name(&self) -> (r: &str)
        ensures
            r@ == self@.name,
    {
        self.name.as_str()
    }

    /// Renames the element.
    pub fn set_name(&mut self, name: &str) -> (r: Result<(), XmlMutationError>)
        ensures
            match r {
                Ok(_) => name_fault(name@) is None && final(self).name@ == name@
                    && final(self).attributes == old(self).attributes
                    && final(self).children == old(self).children,
                Err(e) => name_fault(name@) == Some(e@) && *final(self) == *old(self),
            },
    {
        if let Err(e) = validate_name(name) {
            return Err(e);
        }
        self.name = name.to_owned();
        Ok(())
    }

    /// Returns the attributes in document order.
    pub fn attributes(&self) -> (r: &[XmlAttribute])
        ensures
            r@ == self.attributes@,
    {
        self.attributes.as_slice()
    }

    /// Returns the children in document order.
    pub fn children(&self) -> (r: &[XmlNode])
        ensures
            r@ == self.children@,
    {
        self.children.as_slice()
    }

    /// Makes an element without attributes and children.
    pub fn new(name: &str) -> (r: Result<Self, XmlMutationError>)
        ensures
            match r {
                Ok(e) => name_fault(name@) is None && e.model() == bare_element(name@),
                Err(e) => name_fault(name@) == Some(e@),
            },
    {
        XmlElement::with_capacity(name, 0, 0)
    }

    pub(crate) fn new_unchecked(name: &str) -> (r: Self)
        ensures
            r.model() == bare_element(name@),
            r.name@ == name@,
            r.attributes@.len() == 0,
            r.children@.len() == 0,
    {
        let e = XmlElement { name: name.to_owned(), attributes: Vec::new(), children: Vec::new() };
        proof {
            assert(attribute_models(e.attributes@) =~= Seq::<AttributeModel>::empty());
            assert(node_models(e.children@) =~= Seq::<NodeModel>::empty());
        }
        e
    }

    /// Makes an element with room for attributes and children.
    pub fn with_capacity(
        name: &str,
        attribute_capacity: usize,
        child_capacity: usize,
    ) -> (r: Result<Self, XmlMutationError>)
        ensures
            match r {
                Ok(e) => name_fault(name@) is None && e.model() == bare_element(name@),
                Err(e) => name_fault(name@) == Some(e@),
            },
    {
        if let Err(e) = validate_name(name) {
            return Err(e);
        }
        let e = XmlElement {
            name: name.to_owned(),
            attributes: Vec::with_capacity(attribute_capacity),
            children: Vec::with_capacity(child_capacity),
        };
        proof {
            assert(attribute_models(e.attributes@) =~= Seq::<AttributeModel>::empty());
            assert(node_models(e.children@) =~= Seq::<NodeModel>::empty());
        }
        Ok(e)
    }

    /// Makes an element with a text.
    pub fn with_text(name: &str, value: &str) -> (r: Result<Self, XmlMutationError>)
        ensures
            match r {
                Ok(e) => attribute_fault(name@, value@) is None && e.model() == (ElementModel {
                    name: name@,
                    attributes: Seq::empty(),
                    children: seq![NodeModel::Text(value@)],
                }),
                Err(e) => attribute_fault(name@, value@) == Some(e@),
            },
    {
        if let Err(e) = validate_attribute(name, value) {
            return Err(e);
        }
        let mut e = XmlElement::new_unchecked(name);
        e.children.push(XmlNode::Text(value.to_owned()));
        proof {
            assert(attribute_models(e.attributes@) =~= Seq::<AttributeModel>::empty());
            assert(node_models(e.children@) =~= seq![NodeModel::Text(value@)]);
        }
        Ok(e)
    }

    /// The place of the first attribute with a name.
    pub(crate) fn attribute_position(&self, name: &str) -> (r: Option<usize>)
        ensures
            match r {
                Some(k) => attribute_from(self.attributes@, 0, name@) == Some(k as int) && k
                    < self.attributes@.len() && self.attributes@[k as int].name@ == name@,
                None => attribute_from(self.attributes@, 0, name@) is None,
            },
    {
        let mut k: usize = 0;
        while k < self.attributes.len()
            invariant
                k <= self.attributes@.len(),
                attribute_from(self.attributes@, 0, name@) == attribute_from(
                    self.attributes@,
                    k as int,
                    name@,
                ),
            decreases self.attributes@.len() - k,
        {
            if str_eq(self.attributes[k].name.as_str(), name) {
                return Some(k);
            }
            k = k + 1;
        }
        None
    }

    /// The place of the first child element with a name.
    fn element_position(&self, name: &str) -> (r: Option<usize>)
        ensures
            match r {
                Some(k) => element_from(self.children@, 0, name@) == Some(k as int) && k
                    < self.children@.len() && node_is_named(self.children@[k as int], name@),
                None => element_from(self.children@, 0, name@) is None,
            },
    {
        let mut k: usize = 0;
        while k < self.children.len()
            invariant
                k <= self.children@.len(),
                element_from(self.children@, 0, name@) == element_from(
                    self.children@,
                    k as int,
                    name@,
                ),
            decreases self.children@.len() - k,
        {
            if let XmlNode::Element(e) = &self.children[k] {
                if str_eq(e.name.as_str(), name) {
                    return Some(k);
                }
            }
            k = k + 1;
        }
        None
    }

    /// The place of the first child that holds text.
    fn text_position(&self) -> (r: Option<usize>)
        ensures
            match r {
                Some(k) => text_from(self.children@, 0) == Some(k as int) && k
                    < self.children@.len() && node_is_text(self.children@[k as int]),
                None => text_from(self.children@, 0) is None,
            },
    {
        let mut k: usize = 0;
        while k < self.children.len()
            invariant
                k <= self.children@.len(),
                text_from(self.children@, 0) == text_from(self.children@, k as int),
            decreases self.children@.len() - k,
        {
            match &self.children[k] {
                XmlNode::Text(_) | XmlNode::Cdata(_) => {
                    return Some(k);
                },
                _ => {},
            }
            k = k + 1;
        }
        None
    }

    /// Returns the first attribute with a name.
    pub fn attribute(&self, name: &str) -> (r: Option<&XmlAttribute>)
        ensures
            match r {
                Some(a) => attribute_from(self.attributes@, 0, name@) is Some && *a
                    == self.attributes@[attribute_from(self.attributes@, 0, name@)->Some_0],
                None => attribute_from(self.attributes@, 0, name@) is None,
            },
    {
        match self.attribute_position(name) {
            Some(k) => Some(&self.attributes[k]),
            None => None,
        }
    }

    /// Returns the first attribute with a name, to be changed.
    pub fn attribute_mut(&mut self, name: &str) -> (r: Option<&mut XmlAttribute>)
        ensures
            match r {
                Some(a) => attribute_from(old(self).attributes@, 0, name@) is Some && ({
                    let k = attribute_from(old(self).attributes@, 0, name@)->Some_0;
                    *a == old(self).attributes@[k]
                        && final(self).attributes@ == old(self).attributes@.update(k, *final(a))
                }) && keeps_rest_of_attributes(*old(self), *final(self)),
                None => attribute_from(old(self).attributes@, 0, name@) is None && *final(self)
                    == *old(self),
            },
    {
        match self.attribute_position(name) {
            Some(k) => Some(&mut self.attributes[k]),
            None => None,
        }
    }

    /// Appends an attribute.
    pub fn append_attribute(&mut self, name: &str, value: &str) -> (r: Result<
        &mut XmlAttribute,
        XmlMutationError,
    >)
        ensures
            match r {
                Ok(a) => attribute_fault(name@, value@) is None && a@ == (AttributeModel {
                    name: name@,
                    value: value@,
                }) && final(self).attributes@ == old(self).attributes@.push(*final(a))
                    && keeps_rest_of_attributes(*old(self), *final(self)),
                Err(e) => attribute_fault(name@, value@) == Some(e@) && *final(self) == *old(self),
            },
    {
        match XmlAttribute::new(name, value) {
            Err(e) => Err(e),
            Ok(a) => {
                self.attributes.push(a);
                let k: usize = self.attributes.len() - 1;
                Ok(&mut self.attributes[k])
            },
        }
    }

    /// Sets the first attribute with a name, or appends one.
    pub fn set_attribute(&mut self, name: &str, value: &str) -> (r: Result<
        &mut XmlAttribute,
        XmlMutationError,
    >)
        ensures
            match r {
                Ok(a) => attribute_fault(name@, value@) is None && a@ == (AttributeModel {
                    name: name@,
                    value: value@,
                }) && final(self).attributes@ == (match attribute_from(
                    old(self).attributes@,
                    0,
                    name@,
                ) {
                    Some(k) => old(self).attributes@.update(k, *final(a)),
                    None => old(self).attributes@.push(*final(a)),
                }) && keeps_rest_of_attributes(*old(self), *final(self)),
                Err(e) => attribute_fault(name@, value@) == Some(e@) && *final(self) == *old(self),
            },
    {
        if let Err(e) = validate_attribute(name, value) {
            return Err(e);
        }
        match self.attribute_position(name) {
            Some(k) => {
                self.attributes[k].value = value.to_owned();
                Ok(&mut self.attributes[k])
            },
            None => {
                self.attributes.push(
                    XmlAttribute { name: name.to_owned(), value: value.to_owned() },
                );
                let k: usize = self.attributes.len() - 1;
                Ok(&mut self.attributes[k])
            },
        }
    }

    /// Puts an attribute in front of the others.
    pub fn prepend_attribute(&mut self, name: &str, value: &str) -> (r: Result<
        &mut XmlAttribute,
        XmlMutationError,
    >)
        ensures
            match r {
                Ok(a) => attribute_fault(name@, value@) is None && a@ == (AttributeModel {
                    name: name@,
                    value: value@,
                }) && final(self).attributes@ == old(self).attributes@.insert(0, *final(a))
                    && keeps_rest_of_attributes(*old(self), *final(self)),
                Err(e) => attribute_fault(name@, value@) == Some(e@) && *final(self) == *old(self),
            },
    {
        match XmlAttribute::new(name, value) {
            Err(e) => Err(e),
            Ok(a) => {
                self.attributes.insert(0, a);
                Ok(&mut self.attributes[0])
            },
        }
    }

    /// Inserts an attribute at a position.
    pub fn insert_attribute(&mut self, index: usize, attribute: XmlAttribute) -> (r: Result<
        &mut XmlAttribute,
        XmlMutationError,
    >)
        ensures
            match r {
                Ok(a) => index <= old(self).attributes@.len() && *a == attribute
                    && final(self).attributes@ == old(self).attributes@.insert(index as int, *final(a))
                    && keeps_rest_of_attributes(*old(self), *final(self)),
                Err(e) => index > old(self).attributes@.len() && e@
                    == (MutationModel::IndexOutOfBounds {
                    index: index as int,
                    len: old(self).attributes@.len() as int,
                }) && *final(self) == *old(self),
            },
    {
        if index > self.attributes.len() {
            return Err(
                XmlMutationError::IndexOutOfBounds { index, len: self.attributes.len() },
            );
        }
        self.attributes.insert(index, attribute);
        Ok(&mut self.attributes[index])
    }

    /// Removes the first attribute with a name.
    pub fn remove_attribute(&mut self, name: &str) -> (r: Option<XmlAttribute>)
        ensures
            match r {
                Some(a) => attribute_from(old(self).attributes@, 0, name@) is Some && ({
                    let k = attribute_from(old(self).attributes@, 0, name@)->Some_0;
                    a == old(self).attributes@[k]
                        && final(self).attributes@ == old(self).attributes@.remove(k)
                }) && keeps_rest_of_attributes(*old(self), *final(self)),
                None => attribute_from(old(self).attributes@, 0, name@) is None && *final(self)
                    == *old(self),
            },
    {
        match self.attribute_position(name) {
            Some(k) => Some(self.attributes.remove(k)),
            None => None,
        }
    }

    /// Removes all attributes.
    pub fn clear_attributes(&mut self)
        ensures
            final(self).attributes@.len() == 0,
            keeps_rest_of_attributes(*old(self), *final(self)),
    {
        self.attributes.clear();
    }

    /// Returns the first child.
    pub fn first_child(&self) -> (r: Option<&XmlNode>)
        ensures
            match r {
                Some(n) => self.children@.len() > 0 && *n == self.children@[0],
                None => self.children@.len() == 0,
            },
    {
        if self.children.len() > 0 {
            Some(&self.children[0])
        } else {
            None
        }
    }

    /// Returns the first child, to be changed.
    pub fn first_child_mut(&mut self) -> (r: Option<&mut XmlNode>)
        ensures
            match r {
                Some(n) => old(self).children@.len() > 0 && *n == old(self).children@[0]
                    && final(self).children@ == old(self).children@.update(0, *final(n))
                    && keeps_rest_of_children(
                    *old(self),
                    *final(self),
                ),
                None => old(self).children@.len() == 0 && *final(self) == *old(self),
            },
    {
        if self.children.len() > 0 {
            Some(&mut self.children[0])
        } else {
            None
        }
    }

    /// Returns the last child.
    pub fn last_child(&self) -> (r: Option<&XmlNode>)
        ensures
            match r {
                Some(n) => self.children@.len() > 0 && *n == self.children@.last(),
                None => self.children@.len() == 0,
            },
    {
        let n: usize = self.children.len();
        if n > 0 {
            Some(&self.children[n - 1])
        } else {
            None
        }
    }

    /// Returns the last child, to be changed.
    pub fn last_child_mut(&mut self) -> (r: Option<&mut XmlNode>)
        ensures
            match r {
                Some(n) => old(self).children@.len() > 0 && *n == old(self).children@.last()
                    && final(self).children@ == old(self).children@.update(
                    old(self).children@.len() - 1,
                    *final(n),
                ) && keeps_rest_of_children(*old(self), *final(self)),
                None => old(self).children@.len() == 0 && *final(self) == *old(self),
            },
    {
        let n: usize = self.children.len();
        if n > 0 {
            Some(&mut self.children[n - 1])
        } else {
            None
        }
    }

    /// Returns the first child element with a name.
    pub fn child(&self, name: &str) -> (r: Option<&XmlElement>)
        ensures
            match r {
                Some(e) => element_from(self.children@, 0, name@) is Some
                    && self.children@[element_from(self.children@, 0, name@)->Some_0]
                    == XmlNode::Element(*e),
                None => element_from(self.children@, 0, name@) is None,
            },
    {
        match self.element_position(name) {
            Some(k) => match &self.children[k] {
                XmlNode::Element(e) => Some(e),
                _ => None,
            },
            None => None,
        }
    }

    /// Returns the first child element with a name, to be changed.
    pub fn child_mut(&mut self, name: &str) -> (r: Option<&mut XmlElement>)
        ensures
            match r {
                Some(e) => element_from(old(self).children@, 0, name@) is Some && ({
                    let k = element_from(old(self).children@, 0, name@)->Some_0;
                    old(self).children@[k] == XmlNode::Element(*e)
                        && final(self).children@ == old(self).children@.update(k, XmlNode::Element(*final(e)))
                }) && keeps_rest_of_children(*old(self), *final(self)),
                None => element_from(old(self).children@, 0, name@) is None && *final(self)
                    == *old(self),
            },
    {
        match self.element_position(name) {
            Some(k) => match &mut self.children[k] {
                XmlNode::Element(e) => Some(e),
                _ => None,
            },
            None => None,
        }
    }

    /// Returns the child elements with a name.
    pub fn children_named(&self, name: &str) -> (r: Vec<&XmlElement>)
        ensures
            referents(r@) == elements_named_from(self.children@, 0, name@, Seq::empty()),
    {
        let mut out: Vec<&XmlElement> = Vec::new();
        proof {
            assert(referents(out@) =~= Seq::<XmlElement>::empty());
        }
        let mut k: usize = 0;
        while k < self.children.len()
            invariant
                k <= self.children@.len(),
                elements_named_from(self.children@, 0, name@, Seq::empty()) == elements_named_from(
                    self.children@,
                    k as int,
                    name@,
                    referents(out@),
                ),
            decreases self.children@.len() - k,
        {
            if let XmlNode::Element(e) = &self.children[k] {
                if str_eq(e.name.as_str(), name) {
                    let ghost before = out@;
                    out.push(e);
                    proof {
                        assert(referents(out@) =~= referents(before).push(*e));
                    }
                }
            }
            k = k + 1;
        }
        out
    }

    /// Returns the child elements.
    pub fn element_children(&self) -> (r: Vec<&XmlElement>)
        ensures
            referents(r@) == elements_from(self.children@, 0, Seq::empty()),
    {
        let mut out: Vec<&XmlElement> = Vec::new();
        proof {
            assert(referents(out@) =~= Seq::<XmlElement>::empty());
        }
        let mut k: usize = 0;
        while k < self.children.len()
            invariant
                k <= self.children@.len(),
                elements_from(self.children@, 0, Seq::empty()) == elements_from(
                    self.children@,
                    k as int,
                    referents(out@),
                ),
            decreases self.children@.len() - k,
        {
            if let XmlNode::Element(e) = &self.children[k] {
                let ghost before = out@;
                out.push(e);
                proof {
                    assert(referents(out@) =~= referents(before).push(*e));
                }
            }
            k = k + 1;
        }
        out
    }

    /// Appends a child.
    pub fn append_child(&mut self, node: XmlNode) -> (r: Result<&mut XmlNode, XmlMutationError>)
        ensures
            match r {
                Ok(n) => node_fault(node.model()) is None && *n == node && final(self).children@
                    == old(self).children@.push(*final(n)) && keeps_rest_of_children(
                    *old(self),
                    *final(self),
                ),
                Err(e) => node_fault(node.model()) == Some(e@) && *final(self) == *old(self),
            },
    {
        if let Err(e) = validate_node(&node) {
            release_node(node);
            return Err(e);
        }
        self.children.push(node);
        let k: usize = self.children.len() - 1;
        Ok(&mut self.children[k])
    }

    /// Puts a child in front of the others.
    pub fn prepend_child(&mut self, node: XmlNode) -> (r: Result<&mut XmlNode, XmlMutationError>)
        ensures
            match r {
                Ok(n) => node_fault(node.model()) is None && *n == node && final(self).children@
                    == old(self).children@.insert(0, *final(n)) && keeps_rest_of_children(
                    *old(self),
                    *final(self),
                ),
                Err(e) => node_fault(node.model()) == Some(e@) && *final(self) == *old(self),
            },
    {
        if let Err(e) = validate_node(&node) {
            release_node(node);
            return Err(e);
        }
        self.children.insert(0, node);
        Ok(&mut self.children[0])
    }

    /// Inserts a child at a position.
    pub fn insert_child(&mut self, index: usize, node: XmlNode) -> (r: Result<
        &mut XmlNode,
        XmlMutationError,
    >)
        ensures
            match r {
                Ok(n) => node_fault(node.model()) is None && index <= old(self).children@.len()
                    && *n == node && final(self).children@ == old(self).children@.insert(
                    index as int,
                    *final(n),
                ) && keeps_rest_of_children(*old(self), *final(self)),
                Err(e) => *final(self) == *old(self) && (if node_fault(node.model()) is Some {
                    node_fault(node.model()) == Some(e@)
                } else {
                    index > old(self).children@.len() && e@ == (MutationModel::IndexOutOfBounds {
                        index: index as int,
                        len: old(self).children@.len() as int,
                    })
                }),
            },
    {
        if let Err(e) = validate_node(&node) {
            release_node(node);
            return Err(e);
        }
        if index > self.children.len() {
            release_node(node);
            return Err(XmlMutationError::IndexOutOfBounds { index, len: self.children.len() });
        }
        self.children.insert(index, node);
        Ok(&mut self.children[index])
    }

    /// Replaces the child at a position, and returns it.
    pub fn replace_child(&mut self, index: usize, node: XmlNode) -> (r: Result<
        XmlNode,
        XmlMutationError,
    >)
        ensures
            match r {
                Ok(n) => node_fault(node.model()) is None && index < old(self).children@.len() && n
                    == old(self).children@[index as int]
                        && final(self).children@ == old(self).children@.update(index as int, node) && keeps_rest_of_children(
                    *old(self),
                    *final(self),
                ),
                Err(e) => *final(self) == *old(self) && (if node_fault(node.model()) is Some {
                    node_fault(node.model()) == Some(e@)
                } else {
                    index >= old(self).children@.len() && e@ == (MutationModel::IndexOutOfBounds {
                        index: index as int,
                        len: old(self).children@.len() as int,
                    })
                }),
            },
    {
        if let Err(e) = validate_node(&node) {
            release_node(node);
            return Err(e);
        }
        let len: usize = self.children.len();
        if index >= len {
            release_node(node);
            return Err(XmlMutationError::IndexOutOfBounds { index, len });
        }
        let mut slot = node;
        std::mem::swap(&mut self.children[index], &mut slot);
        Ok(slot)
    }

    /// Removes the child at a position.
    pub fn remove_child_at(&mut self, index: usize) -> (r: Option<XmlNode>)
        ensures
            match r {
                Some(n) => index < old(self).children@.len()
                    && n == old(self).children@[index as int]
                    && final(self).children@ == old(self).children@.remove(
                    index as int,
                ) && keeps_rest_of_children(*old(self), *final(self)),
                None => index >= old(self).children@.len() && *final(self) == *old(self),
            },
    {
        self.remove_child_at_with_retention(index, XmlMemoryRetention::RetainCapacity)
    }

    /// Removes the child at a position; `retention` says what becomes of the memory.
    pub fn remove_child_at_with_retention(
        &mut self,
        index: usize,
        retention: XmlMemoryRetention,
    ) -> (r: Option<XmlNode>)
        ensures
            match r {
                Some(n) => index < old(self).children@.len()
                    && n == old(self).children@[index as int]
                    && final(self).children@ == old(self).children@.remove(
                    index as int,
                ) && keeps_rest_of_children(*old(self), *final(self)),
                None => index >= old(self).children@.len() && *final(self) == *old(self),
            },
    {
        if index >= self.children.len() {
            return None;
        }
        let removed = self.children.remove(index);
        if retention == XmlMemoryRetention::ReleaseSpareCapacity {
            release_spare_capacity(&mut self.children);
        }
        Some(removed)
    }

    /// Removes the first child element with a name.
    pub fn remove_child(&mut self, name: &str) -> (r: Option<XmlNode>)
        ensures
            match r {
                Some(n) => element_from(old(self).children@, 0, name@) is Some && ({
                    let k = element_from(old(self).children@, 0, name@)->Some_0;
                    n == old(self).children@[k]
                        && final(self).children@ == old(self).children@.remove(k)
                }) && keeps_rest_of_children(*old(self), *final(self)),
                None => element_from(old(self).children@, 0, name@) is None && *final(self)
                    == *old(self),
            },
    {
        match self.element_position(name) {
            Some(k) => self.remove_child_at(k),
            None => None,
        }
    }

    /// Removes all children.
    pub fn clear_children(&mut self)
        ensures
            final(self).children@.len() == 0,
            keeps_rest_of_children(*old(self), *final(self)),
    {
        release_nodes(self.children.split_off(0));
    }

    /// Appends an element without attributes and children.
    pub fn append_element(&mut self, name: &str) -> (r: Result<&mut XmlElement, XmlMutationError>)
        ensures
            match r {
                Ok(e) => name_fault(name@) is None && e.model() == bare_element(name@)
                    && final(self).children@ == old(self).children@.push(XmlNode::Element(*final(e)))
                    && keeps_rest_of_children(*old(self), *final(self)),
                Err(e) => name_fault(name@) == Some(e@) && *final(self) == *old(self),
            },
    {
        if let Err(e) = validate_name(name) {
            return Err(e);
        }
        Ok(self.append_element_unchecked(name))
    }

    pub(crate) fn append_element_unchecked(&mut self, name: &str) -> (r: &mut XmlElement)
        ensures
            r.model() == bare_element(name@),
            final(self).children@ == old(self).children@.push(XmlNode::Element(*final(r))),
            keeps_rest_of_children(*old(self), *final(self)),
    {
        let mut e = XmlElement::new_unchecked(name);
        let k: usize = self.children.len();
        self.children.push(XmlNode::Element(e));
        match &mut self.children[k] {
            XmlNode::Element(x) => x,
            _ => unreached(),
        }
    }

    /// Puts an element without attributes and children in front of the others.
    pub fn prepend_element(&mut self, name: &str) -> (r: Result<&mut XmlElement, XmlMutationError>)
        ensures
            match r {
                Ok(e) => name_fault(name@) is None && e.model() == bare_element(name@)
                    && final(self).children@ == old(self).children@.insert(0, XmlNode::Element(*final(e)))
                    && keeps_rest_of_children(*old(self), *final(self)),
                Err(e) => name_fault(name@) == Some(e@) && *final(self) == *old(self),
            },
    {
        if let Err(e) = validate_name(name) {
            return Err(e);
        }
        self.children.insert(0, XmlNode::Element(XmlElement::new_unchecked(name)));
        match &mut self.children[0] {
            XmlNode::Element(x) => Ok(x),
            _ => unreached(),
        }
    }

    /// Returns the first child element with a name, or appends one.
    pub fn ensure_child(&mut self, name: &str) -> (r: Result<&mut XmlElement, XmlMutationError>)
        ensures
            match r {
                Ok(e) => name_fault(name@) is None && (match element_from(
                    old(self).children@,
                    0,
                    name@,
                ) {
                    Some(k) => old(self).children@[k] == XmlNode::Element(*e)
                        && final(self).children@ == old(self).children@.update(k, XmlNode::Element(*final(e))),
                    None => e.model() == bare_element(name@)
                        && final(self).children@ == old(self).children@.push(XmlNode::Element(*final(e))),
                }) && keeps_rest_of_children(*old(self), *final(self)),
                Err(e) => name_fault(name@) == Some(e@) && *final(self) == *old(self),
            },
    {
        if let Err(e) = validate_name(name) {
            return Err(e);
        }
        match self.element_position(name) {
            Some(k) => match &mut self.children[k] {
                XmlNode::Element(x) => Ok(x),
                _ => unreached(),
            },
            None => Ok(self.append_element_unchecked(name)),
        }
    }

    /// Returns the text of the first child that holds text.
    pub fn text(&self) -> (r: Option<&str>)
        ensures
            match r {
                Some(t) => text_from(self.children@, 0) is Some && t@ == held_text(
                    self.children@[text_from(self.children@, 0)->Some_0],
                ),
                None => text_from(self.children@, 0) is None,
            },
    {
        match self.text_position() {
            Some(k) => match &self.children[k] {
                XmlNode::Text(t) => Some(t.as_str()),
                XmlNode::Cdata(t) => Some(t.as_str()),
                _ => None,
            },
            None => None,
        }
    }

    /// Sets the text of the first child that holds text, or puts a text in front of the children.
    pub fn set_text(&mut self, value: &str) -> (r: Result<&mut String, XmlMutationError>)
        ensures
            match r {
                Ok(t) => text_fault(value@) is None && t@ == value@ && final(self).children@ == (
                match text_from(old(self).children@, 0) {
                    Some(k) => old(self).children@.update(
                        k,
                        match old(self).children@[k] {
                            XmlNode::Text(_) => XmlNode::Text(*final(t)),
                            _ => XmlNode::Cdata(*final(t)),
                        },
                    ),
                    None => old(self).children@.insert(0, XmlNode::Text(*final(t))),
                }) && keeps_rest_of_children(*old(self), *final(self)),
                Err(e) => text_fault(value@) == Some(e@) && *final(self) == *old(self),
            },
    {
        if let Err(e) = validate_characters(value) {
            return Err(e);
        }
        match self.text_position() {
            Some(k) => match &mut self.children[k] {
                XmlNode::Text(t) => {
                    *t = value.to_owned();
                    Ok(t)
                },
                XmlNode::Cdata(t) => {
                    *t = value.to_owned();
                    Ok(t)
                },
                _ => unreached(),
            },
            None => {
                self.children.insert(0, XmlNode::Text(value.to_owned()));
                match &mut self.children[0] {
                    XmlNode::Text(t) => Ok(t),
                    _ => unreached(),
                }
            },
        }
    }

    /// Returns the texts in the subtree, joined in document order.
    pub fn text_content(&self) -> (r: String)
        ensures
            r@ == text_below(self.model().children, self.model().children.len() as int),
    {
        let mut out: Vec<char> = Vec::new();
        push_text_below(&self.children, &mut out);
        proof {
            let t = text_below(self.model().children, self.model().children.len() as int);
            assert(Seq::<char>::empty() + t =~= t);
        }
        string_of(out.as_slice())
    }

    /// Walks the elements below this one in document order.
    pub fn descendants(&self) -> (r: XmlDescendants<'_>)
        ensures
            r.remaining() == elements_below(self.model().children, 0),
    {
        let mut stack: Vec<&XmlElement> = Vec::new();
        push_elements(&mut stack, self);
        proof {
            assert(element_order(Seq::<&XmlElement>::empty(), 0) =~= Seq::<ElementModel>::empty());
            assert(elements_below(self.model().children, 0) + Seq::<ElementModel>::empty()
                =~= elements_below(self.model().children, 0));
        }
        XmlDescendants { stack }
    }

    /// Walks this element and all that is in it in document order.
    pub fn walk(&self) -> (r: XmlWalk<'_>)
        ensures
            r.remaining() == walk_order(NodeModel::Element(self.model()), 0),
    {
        let mut stack: Vec<(XmlNodeRef<'_>, usize)> = Vec::new();
        stack.push((XmlNodeRef::Element(self), 0));
        proof {
            let w = walk_order(NodeModel::Element(self.model()), 0);
            assert(stack_order(stack@, 0) =~= Seq::<WalkModel>::empty());
            assert(w + Seq::<WalkModel>::empty() =~= w);
        }
        XmlWalk { stack }
    }
}

/// Gives back the memory that a list does not use.
///
/// Calls `Vec::shrink_to_fit`, which changes nothing that the list holds.
#[verifier::external_body]
pub(crate) fn release_spare_capacity<T>(v: &mut Vec<T>)
    ensures
        final(v)@ == old(v)@,
{
    v.shrink_to_fit();
}

/// The texts in the first `k` nodes, joined in document order.
pub open spec fn text_below(n: Seq<NodeModel>, k: int) -> Seq<char>
    decreases n, k,
{
    if k <= 0 || k > n.len() {
        Seq::empty()
    } else {
        text_below(n, k - 1) + text_in(n[k - 1])
    }
}

/// The texts in a node, joined in document order.
pub open spec fn text_in(n: NodeModel) -> Seq<char>
    decreases n, 0int,
{
    match n {
        NodeModel::Text(t) => t,
        NodeModel::Cdata(t) => t,
        NodeModel::Element(e) => text_below(e.children, e.children.len() as int),
        _ => Seq::empty(),
    }
}

/// The texts in the nodes from `k` on, joined in document order.
spec fn later_text(n: Seq<NodeModel>, k: int) -> Seq<char>
    decreases n.len() - k,
{
    if k < 0 || k >= n.len() {
        Seq::empty()
    } else {
        text_in(n[k]) + later_text(n, k + 1)
    }
}

/// The texts in the nodes are those in the first of them and those in the rest.
proof fn lemma_later_text(n: Seq<NodeModel>, k: int)
    requires
        0 <= k <= n.len(),
    ensures
        text_below(n, n.len() as int) == text_below(n, k) + later_text(n, k),
    decreases n.len() - k,
{
    if k == n.len() {
        assert(text_below(n, k) + later_text(n, k) =~= text_below(n, k));
    } else {
        lemma_later_text(n, k + 1);
        assert(text_below(n, k + 1) == text_below(n, k) + text_in(n[k]));
        assert(text_below(n, k) + later_text(n, k) =~= text_below(n, k + 1) + later_text(n, k + 1));
    }
}

/// The texts that are still to be appended: for each list those of its nodes from an index on.
spec fn pending_texts(st: Seq<(&Vec<XmlNode>, usize)>) -> Seq<char>
    decreases st.len(),
{
    if st.len() == 0 {
        Seq::empty()
    } else {
        later_text(node_models(st.last().0@), st.last().1 as int) + pending_texts(st.drop_last())
    }
}

/// How much is left to go through.
spec fn unread(st: Seq<(&Vec<XmlNode>, usize)>) -> nat
    decreases st.len(),
{
    if st.len() == 0 {
        0
    } else {
        unread(st.drop_last()) + 2 * weights(node_models(st.last().0@), st.last().1 as int) + 1
    }
}

/// Appends the texts in the nodes.
///
/// The lists that are not done wait on a stack, so that the depth of the nodes does not matter.
fn push_text_below(n: &Vec<XmlNode>, out: &mut Vec<char>)
    ensures
        final(out)@ == old(out)@ + text_below(node_models(n@), n@.len() as int),
{
    let ghost goal = out@ + text_below(node_models(n@), n@.len() as int);
    let mut stack: Vec<(&Vec<XmlNode>, usize)> = Vec::new();
    stack.push((n, 0));
    proof {
        let m = node_models(n@);
        lemma_later_text(m, 0);
        assert(text_below(m, 0) + later_text(m, 0) =~= later_text(m, 0));
        assert(stack@.drop_last() =~= Seq::<(&Vec<XmlNode>, usize)>::empty());
        assert(pending_texts(stack@.drop_last()) =~= Seq::<char>::empty());
        assert(pending_texts(stack@) =~= later_text(m, 0) + pending_texts(stack@.drop_last()));
        assert(out@ + pending_texts(stack@) =~= goal);
    }
    while stack.len() > 0
        invariant
            out@ + pending_texts(stack@) == goal,
        decreases unread(stack@),
    {
        let ghost before = stack@;
        let ghost start = out@;
        if let Some((nodes, k)) = stack.pop() {
            let ghost m = node_models(nodes@);
            let ghost below = stack@;
            proof {
                assert(before.drop_last() =~= below);
                assert(before.last() == (nodes, k));
            }
            if k < nodes.len() {
                stack.push((nodes, k + 1));
                let ghost held = stack@;
                proof {
                    assert(m[k as int] == nodes@[k as int].model());
                    assert(held.drop_last() =~= below);
                    assert(weights(m, k as int) == weight(m[k as int]) + weights(m, k + 1));
                    assert(pending_texts(held) == later_text(m, k + 1) + pending_texts(below));
                    assert(unread(held) == unread(below) + 2 * weights(m, k + 1) + 1);
                    assert(goal =~= start + text_in(m[k as int]) + pending_texts(held));
                }
                match &nodes[k] {
                    XmlNode::Text(t) => {
                        push_text(out, t.as_str());
                    },
                    XmlNode::Cdata(t) => {
                        push_text(out, t.as_str());
                    },
                    XmlNode::Element(e) => {
                        stack.push((&e.children, 0));
                        proof {
                            let c = node_models(e.children@);
                            lemma_later_text(c, 0);
                            assert(text_below(c, 0) + later_text(c, 0) =~= later_text(c, 0));
                            assert(stack@.drop_last() =~= held);
                            assert(pending_texts(stack@) == later_text(c, 0) + pending_texts(held));
                            assert(weight(m[k as int]) == 1 + weights(c, 0));
                            assert(out@ + pending_texts(stack@) =~= goal);
                        }
                    },
                    _ => {
                        assert(start + text_in(m[k as int]) =~= start);
                    },
                }
            } else {
                assert(later_text(m, k as int) + pending_texts(below) =~= pending_texts(below));
            }
        }
    }
    assert(out@ + pending_texts(stack@) =~= out@);
}

/// The elements among the nodes from `k` on, each followed by those below it.
pub open spec fn elements_below(n: Seq<NodeModel>, k: int) -> Seq<ElementModel>
    decreases n, n.len() - k,
{
    if k < 0 || k >= n.len() {
        Seq::empty()
    } else {
        element_walk(n[k]) + elements_below(n, k + 1)
    }
}

/// The node, if it is an element, and the elements below it.
pub open spec fn element_walk(n: NodeModel) -> Seq<ElementModel>
    decreases n, 0int,
{
    match n {
        NodeModel::Element(e) => seq![e] + elements_below(e.children, 0),
        _ => Seq::empty(),
    }
}

/// What is left of a walk over the first `k` elements of a stack, the last one first.
pub open spec fn element_order(stack: Seq<&XmlElement>, k: int) -> Seq<ElementModel>
    decreases k,
{
    if k <= 0 || k > stack.len() {
        Seq::empty()
    } else {
        element_walk(NodeModel::Element(stack[k - 1].model())) + element_order(stack, k - 1)
    }
}

/// The order depends on the part of the stack that it covers.
proof fn lemma_element_order_prefix(a: Seq<&XmlElement>, b: Seq<&XmlElement>, k: int)
    requires
        0 <= k <= a.len(),
        k <= b.len(),
        forall|i: int| 0 <= i < k ==> a[i] == b[i],
    ensures
        element_order(a, k) == element_order(b, k),
    decreases k,
{
    if k > 0 {
        lemma_element_order_prefix(a, b, k - 1);
    }
}

/// Puts the child elements on a stack, the first on top.
fn push_elements<'a>(stack: &mut Vec<&'a XmlElement>, e: &'a XmlElement)
    ensures
        element_order(final(stack)@, final(stack)@.len() as int) == elements_below(
            e.model().children,
            0,
        ) + element_order(old(stack)@, old(stack)@.len() as int),
{
    let ghost m = e.model().children;
    let ghost rest = element_order(stack@, stack@.len() as int);
    let mut k: usize = e.children.len();
    proof {
        assert(elements_below(m, k as int) + rest =~= rest);
    }
    while k > 0
        invariant
            k <= e.children@.len(),
            m == node_models(e.children@),
            rest == element_order(old(stack)@, old(stack)@.len() as int),
            element_order(stack@, stack@.len() as int) == elements_below(m, k as int) + rest,
        decreases k,
    {
        assert(m[k - 1] == e.children@[k - 1].model());
        let ghost before = stack@;
        if let XmlNode::Element(x) = &e.children[k - 1] {
            stack.push(x);
            proof {
                lemma_element_order_prefix(stack@, before, before.len() as int);
            }
        }
        proof {
            assert(elements_below(m, k - 1) + rest =~= element_walk(m[k - 1]) + (elements_below(
                m,
                k as int,
            ) + rest));
            assert(Seq::<ElementModel>::empty() + (elements_below(m, k as int) + rest)
                =~= elements_below(m, k as int) + rest);
        }
        k = k - 1;
    }
}

/// A walk over the elements of a subtree.
pub struct XmlDescendants<'a> {
    stack: Vec<&'a XmlElement>,
}

impl<'a> XmlDescendants<'a> {
    /// The elements that are still to come.
    pub closed spec fn remaining(&self) -> Seq<ElementModel> {
        element_order(self.stack@, self.stack@.len() as int)
    }

    /// Returns the next element.
    pub fn next(&mut self) -> (r: Option<&'a XmlElement>)
        ensures
            match r {
                Some(e) => old(self).remaining() == seq![e.model()] + final(self).remaining(),
                None => old(self).remaining().len() == 0 && final(self).remaining().len() == 0,
            },
    {
        let ghost before = self.stack@;
        match self.stack.pop() {
            None => None,
            Some(e) => {
                proof {
                    lemma_element_order_prefix(self.stack@, before, self.stack@.len() as int);
                }
                let ghost rest = element_order(self.stack@, self.stack@.len() as int);
                push_elements(&mut self.stack, e);
                proof {
                    let below = elements_below(e.model().children, 0);
                    assert(seq![e.model()] + below + rest =~= seq![e.model()] + (below + rest));
                }
                Some(e)
            },
        }
    }
}

/// A node of an owned tree.
#[derive(Clone, Copy, Debug)]
pub enum XmlNodeRef<'a> {
    /// An element.
    Element(&'a XmlElement),
    /// Character data.
    Text(&'a str),
    /// A comment.
    Comment(&'a str),
    /// A CDATA section.
    Cdata(&'a str),
    /// A processing instruction.
    ProcessingInstruction(&'a XmlProcessingInstruction),
}

impl<'a> View for XmlNodeRef<'a> {
    type V = NodeModel;

    open spec fn view(&self) -> NodeModel {
        match *self {
            XmlNodeRef::Element(e) => NodeModel::Element(e.model()),
            XmlNodeRef::Text(t) => NodeModel::Text(t@),
            XmlNodeRef::Comment(t) => NodeModel::Comment(t@),
            XmlNodeRef::Cdata(t) => NodeModel::Cdata(t@),
            XmlNodeRef::ProcessingInstruction(i) => NodeModel::ProcessingInstruction(i@),
        }
    }
}

/// A reference to a node.
fn node_ref<'a>(n: &'a XmlNode) -> (r: XmlNodeRef<'a>)
    ensures
        r@ == n.model(),
{
    match n {
        XmlNode::Element(e) => XmlNodeRef::Element(e),
        XmlNode::Text(t) => XmlNodeRef::Text(t.as_str()),
        XmlNode::Comment(t) => XmlNodeRef::Comment(t.as_str()),
        XmlNode::Cdata(t) => XmlNodeRef::Cdata(t.as_str()),
        XmlNode::ProcessingInstruction(i) => XmlNodeRef::ProcessingInstruction(i),
    }
}

/// A step of a walk.
#[derive(Clone, Copy, Debug)]
pub struct XmlWalkEntry<'a> {
    /// The node.
    pub node: XmlNodeRef<'a>,
    /// How far below the start of the walk it stands.
    pub depth: usize,
}

/// A step of a walk as a mathematical value.
#[verifier::ext_equal]
pub struct WalkModel {
    pub node: NodeModel,
    pub depth: usize,
}

/// One level deeper; the count stops at the largest number.
pub open spec fn deeper(depth: usize) -> usize {
    if depth < usize::MAX {
        (depth + 1) as usize
    } else {
        depth
    }
}

/// A walk over a node at a depth, and all that is in it.
pub open spec fn walk_order(n: NodeModel, depth: usize) -> Seq<WalkModel>
    decreases n, 0int,
{
    match n {
        NodeModel::Element(e) => seq![WalkModel { node: n, depth }] + walk_all(
            e.children,
            0,
            deeper(depth),
        ),
        _ => seq![WalkModel { node: n, depth }],
    }
}

/// A walk over the nodes from `k` on.
pub open spec fn walk_all(n: Seq<NodeModel>, k: int, depth: usize) -> Seq<WalkModel>
    decreases n, n.len() - k,
{
    if k < 0 || k >= n.len() {
        Seq::empty()
    } else {
        walk_order(n[k], depth) + walk_all(n, k + 1, depth)
    }
}

/// What is left of a walk over the first `k` entries of a stack, the last one first.
pub open spec fn stack_order(stack: Seq<(XmlNodeRef<'_>, usize)>, k: int) -> Seq<WalkModel>
    decreases k,
{
    if k <= 0 || k > stack.len() {
        Seq::empty()
    } else {
        walk_order(stack[k - 1].0@, stack[k - 1].1) + stack_order(stack, k - 1)
    }
}

/// The order depends on the part of the stack that it covers.
proof fn lemma_stack_order_prefix(
    a: Seq<(XmlNodeRef<'_>, usize)>,
    b: Seq<(XmlNodeRef<'_>, usize)>,
    k: int,
)
    requires
        0 <= k <= a.len(),
        k <= b.len(),
        forall|i: int| 0 <= i < k ==> a[i] == b[i],
    ensures
        stack_order(a, k) == stack_order(b, k),
    decreases k,
{
    if k > 0 {
        lemma_stack_order_prefix(a, b, k - 1);
    }
}

/// A walk over a subtree.
pub struct XmlWalk<'a> {
    stack: Vec<(XmlNodeRef<'a>, usize)>,
}

impl<'a> XmlWalk<'a> {
    /// The steps that are still to come.
    pub closed spec fn remaining(&self) -> Seq<WalkModel> {
        stack_order(self.stack@, self.stack@.len() as int)
    }

    /// Returns the next step.
    pub fn next(&mut self) -> (r: Option<XmlWalkEntry<'a>>)
        ensures
            match r {
                Some(e) => old(self).remaining() == seq![
                    WalkModel { node: e.node@, depth: e.depth },
                ] + final(self).remaining(),
                None => old(self).remaining().len() == 0 && final(self).remaining().len() == 0,
            },
    {
        let ghost before = self.stack@;
        match self.stack.pop() {
            None => None,
            Some((node, depth)) => {
                proof {
                    lemma_stack_order_prefix(self.stack@, before, self.stack@.len() as int);
                }
                let ghost first = seq![WalkModel { node: node@, depth }];
                let ghost rest = stack_order(self.stack@, self.stack@.len() as int);
                if let XmlNodeRef::Element(e) = node {
                    let below: usize = if depth < usize::MAX {
                        depth + 1
                    } else {
                        depth
                    };
                    let ghost m = e.model().children;
                    let mut k: usize = e.children.len();
                    proof {
                        assert(walk_all(m, k as int, below) + rest =~= rest);
                    }
                    while k > 0
                        invariant
                            k <= e.children@.len(),
                            m == node_models(e.children@),
                            stack_order(self.stack@, self.stack@.len() as int) == walk_all(
                                m,
                                k as int,
                                below,
                            ) + rest,
                        decreases k,
                    {
                        assert(m[k - 1] == e.children@[k - 1].model());
                        let ghost held = self.stack@;
                        self.stack.push((node_ref(&e.children[k - 1]), below));
                        proof {
                            lemma_stack_order_prefix(self.stack@, held, held.len() as int);
                            assert(walk_all(m, k - 1, below) + rest =~= walk_order(m[k - 1], below)
                                + (walk_all(m, k as int, below) + rest));
                        }
                        k = k - 1;
                    }
                    proof {
                        let w = walk_all(m, 0, below);
                        assert(first + w + rest =~= first + (w + rest));
                    }
                } else {
                    proof {
                        assert(walk_order(node@, depth) =~= first);
                    }
                }
                Some(XmlWalkEntry { node, depth })
            },
        }
    }
}

impl XmlAttribute {
    /// Returns the name.
    pub fn name(&self) -> (r: &str)
        ensures
            r@ == self@.name,
    {
        self.name.as_str()
    }

    /// Returns the value.
    pub fn value(&self) -> (r: &str)
        ensures
            r@ == self@.value,
    {
        self.value.as_str()
    }

    /// Sets the value.
    pub fn set_value(&mut self, value: &str) -> (r: Result<(), XmlMutationError>)
        ensures
            match r {
                Ok(_) => text_fault(value@) is None && final(self)@ == (AttributeModel {
                    name: old(self)@.name,
                    value: value@,
                }),
                Err(e) => text_fault(value@) == Some(e@) && *final(self) == *old(self),
            },
    {
        if let Err(e) = validate_characters(value) {
            return Err(e);
        }
        self.value = value.to_owned();
        Ok(())
    }

    /// Makes an attribute.
    pub fn new(name: &str, value: &str) -> (r: Result<Self, XmlMutationError>)
        ensures
            match r {
                Ok(a) => attribute_fault(name@, value@) is None && a@ == (AttributeModel {
                    name: name@,
                    value: value@,
                }),
                Err(e) => attribute_fault(name@, value@) == Some(e@),
            },
    {
        if let Err(e) = validate_attribute(name, value) {
            return Err(e);
        }
        Ok(XmlAttribute { name: name.to_owned(), value: value.to_owned() })
    }

    /// Returns the value.
    pub fn as_str(&self) -> (r: &str)
        ensures
            r@ == self@.value,
    {
        self.value.as_str()
    }

    /// Returns whether the value starts like a word for yes; `default` if it is empty.
    pub fn as_bool(&self, default: bool) -> (r: bool)
        ensures
            r == (if self@.value.len() == 0 {
                default
            } else {
                self@.value[0] == '1' || self@.value[0] == 't' || self@.value[0] == 'T'
                    || self@.value[0] == 'y' || self@.value[0] == 'Y'
            }),
    {
        let s = chars_of(self.value.as_str());
        if s.len() == 0 {
            return default;
        }
        let c: char = s[0];
        c == '1' || c == 't' || c == 'T' || c == 'y' || c == 'Y'
    }
}

impl XmlNode {
    /// Makes an element without attributes and children.
    pub fn element(name: &str) -> (r: Result<Self, XmlMutationError>)
        ensures
            match r {
                Ok(n) => name_fault(name@) is None && n.model() == NodeModel::Element(
                    bare_element(name@),
                ),
                Err(e) => name_fault(name@) == Some(e@),
            },
    {
        match XmlElement::new(name) {
            Ok(e) => Ok(XmlNode::Element(e)),
            Err(e) => Err(e),
        }
    }

    /// Returns the element, if the node is one.
    pub fn as_element(&self) -> (r: Option<&XmlElement>)
        ensures
            match r {
                Some(e) => *self == XmlNode::Element(*e),
                None => !(self is Element),
            },
    {
        match self {
            XmlNode::Element(e) => Some(e),
            _ => None,
        }
    }

    /// Returns the element, if the node is one, to be changed.
    pub fn as_element_mut(&mut self) -> (r: Option<&mut XmlElement>)
        ensures
            match r {
                Some(e) => *old(self) == XmlNode::Element(*e) && *final(self) == XmlNode::Element(
                    *final(e),
                ),
                None => !(*old(self) is Element) && *final(self) == *old(self),
            },
    {
        match self {
            XmlNode::Element(e) => Some(e),
            _ => None,
        }
    }

    /// Returns the text of a node that is not an element.
    pub fn value(&self) -> (r: Option<&str>)
        ensures
            str_option(r) == (match self.model() {
                NodeModel::Element(_) => None,
                NodeModel::Text(t) => Some(t),
                NodeModel::Comment(t) => Some(t),
                NodeModel::Cdata(t) => Some(t),
                NodeModel::ProcessingInstruction(i) => Some(i.data),
            }),
    {
        match self {
            XmlNode::Element(_) => None,
            XmlNode::Text(t) => Some(t.as_str()),
            XmlNode::Comment(t) => Some(t.as_str()),
            XmlNode::Cdata(t) => Some(t.as_str()),
            XmlNode::ProcessingInstruction(i) => Some(i.data.as_str()),
        }
    }
}

impl XmlProcessingInstruction {
    /// Makes an instruction.
    pub fn new(target: &str, data: &str) -> (r: Result<Self, XmlMutationError>)
        ensures
            match r {
                Ok(i) => instruction_fault(target@, data@) is None && i@ == (InstructionModel {
                    target: target@,
                    data: data@,
                }),
                Err(e) => instruction_fault(target@, data@) == Some(e@),
            },
    {
        if let Err(e) = validate_instruction(target, data) {
            return Err(e);
        }
        Ok(XmlProcessingInstruction { target: target.to_owned(), data: data.to_owned() })
    }

    /// Returns the target.
    pub fn target(&self) -> (r: &str)
        ensures
            r@ == self@.target,
    {
        self.target.as_str()
    }

    /// Returns the data.
    pub fn data(&self) -> (r: &str)
        ensures
            r@ == self@.data,
    {
        self.data.as_str()
    }

    /// Sets the data.
    pub fn set_data(&mut self, data: &str) -> (r: Result<(), XmlMutationError>)
        ensures
            match r {
                Ok(_) => data_fault(data@) is None && final(self)@ == (InstructionModel {
                    target: old(self)@.target,
                    data: data@,
                }),
                Err(e) => data_fault(data@) == Some(e@) && *final(self) == *old(self),
            },
    {
        if let Err(e) = validate_data(data) {
            return Err(e);
        }
        self.data = data.to_owned();
        Ok(())
    }
}

} // verus!
