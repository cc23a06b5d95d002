//! Documents that own their source text and keep nodes as compact records.

use vstd::prelude::*;

use crate::config::{ConfigModel, ParserConfig};
use crate::document::{
    doctype_option, expand_chars, expanded_parse, expanded_text, lemma_expanded_places, parse_chars,
    parsed, prolog, trace, traced, DocumentModel, Parsed,
};
use crate::dom::{
    attribute_models, clone_nodes, node_models, AttributeModel, DoctypeModel, InstructionModel,
    NodeModel, XmlAttribute, XmlDoctype, XmlElement, XmlNode, XmlNodeKind, XmlProcessingInstruction,
    XmlTreeStats,
};
use crate::error::{
    locate, located, ErrorKindModel, ErrorModel, Fault, FaultModel, XmlError, XmlErrorKind,
    XmlResult,
};
use crate::flat::{
    attribute_values_from, child_attributes, child_place, lemma_children_at, lemma_element_entry,
    lemma_element_well_built, lemma_tree_len, lexeme_at, materialized, materialized_from,
    subtree_at, tree_nodes, well_built,
};
use crate::grammar::{RawAttribute, RawTree, MAX_DOM_DEPTH};
use crate::growth::{grown, grown_all, written_attributes};
use crate::identity::fresh_token;
use crate::lexeme::{decode_compact_lexeme, CompactLexemeKind, XmlVersion};
use crate::records::{
    attribute_recorded, attributes_recorded, node_recorded, nodes_recorded, str_option,
    RawXmlAttribute, RawXmlNode, XmlRawSource, XmlViewNodeId,
};
use crate::syntax::name_start;
use crate::tables::{
    attribute_name_in, attribute_pairs, attribute_value_in, attributes_of, children_in, count_nodes,
    counts, first_named, first_pair, identifiers, named_from, node_attributes_in, node_name_in,
    node_value_in, nodes_of, places_of, record, recorded, text_at, too_large, Tables,
    XmlAttributeView,
};
use crate::text::{
    byte_len, byte_offset, lemma_byte_len_is_utf8, lemma_byte_offset_monotone,
    lemma_byte_offset_within, string_of, Source,
};
use crate::tree::{
    tree_attribute_models, tree_models, DomAttribute, DomNode, DomText, TreeAttribute, TreeModel,
};

verus! {

/// What a strict parse of `s` into a compact document returns.
pub open spec fn compact_parse(s: Seq<char>, c: ConfigModel) -> Result<DocumentModel, ErrorModel> {
    match expanded_parse(s, c, false) {
        Err(e) => Err(e),
        Ok(m) => if byte_len(m.text) > u32::MAX {
            Err(too_large(s))
        } else {
            Ok(m)
        },
    }
}

/// The XML declaration as an instruction, if it is kept.
pub open spec fn kept_declaration(m: DocumentModel, c: ConfigModel) -> Option<InstructionModel> {
    match m.declaration {
        Some(data) => if c.preserve_declaration {
            Some(InstructionModel { target: "xml"@, data })
        } else {
            None
        },
        None => None,
    }
}

/// The document type declaration, if it is kept.
pub open spec fn kept_doctype(m: DocumentModel, c: ConfigModel) -> Option<DoctypeModel> {
    if c.preserve_doctype {
        m.doctype
    } else {
        None
    }
}

/// The texts of an optional instruction.
pub open spec fn instruction_option(i: Option<XmlProcessingInstruction>) -> Option<
    InstructionModel,
> {
    match i {
        Some(x) => Some(x@),
        None => None,
    }
}

/// A document that owns its source text.
pub struct XmlCompactDocument {
    input: String,
    nodes: Vec<RawXmlNode>,
    attributes: Vec<RawXmlAttribute>,
    stats: XmlTreeStats,
    declaration: Option<XmlProcessingInstruction>,
    doctype: Option<XmlDoctype>,
    doctype_index: usize,
    before: Vec<XmlNode>,
    after: Vec<XmlNode>,
    config: ParserConfig,
    version: XmlVersion,
    token: u64,
    model: Ghost<DocumentModel>,
}

impl View for XmlCompactDocument {
    type V = DocumentModel;

    closed spec fn view(&self) -> DocumentModel {
        self.model@
    }
}

impl XmlCompactDocument {
    /// The fields hold the document.
    #[verifier::type_invariant]
    spec fn wf(self) -> bool {
        let m = self.model@;
        &&& self.input@ == m.text
        &&& recorded(m, self.token, self.nodes@, self.attributes@)
        &&& counts(m, self.stats)
        &&& instruction_option(self.declaration) == kept_declaration(m, self.config@)
        &&& doctype_option(self.doctype) == kept_doctype(m, self.config@)
        &&& self.doctype_index == m.doctype_index
        &&& node_models(self.before@) == m.before
        &&& node_models(self.after@) == m.after
        &&& self.version == m.version
        &&& m.root is Element
    }

    /// The options that the document was parsed with.
    pub closed spec fn options(&self) -> ConfigModel {
        self.config@
    }

    /// The token of the document.
    pub closed spec fn owner(&self) -> u64 {
        self.token
    }

    fn tables(&self) -> (r: Tables<'_, '_>)
        ensures
            r.of(self@, self.owner()),
    {
        proof {
            use_type_invariant(self);
        }
        Tables {
            input: self.input.as_str(),
            nodes: self.nodes.as_slice(),
            attributes: self.attributes.as_slice(),
        }
    }

    /// Returns the source text.
    pub fn input(&self) -> (r: &str)
        ensures
            r@ == self@.text,
    {
        proof {
            use_type_invariant(self);
        }
        self.input.as_str()
    }

    /// Returns the source text with the token of the document.
    pub fn raw_source(&self) -> (r: XmlRawSource<'_>)
        ensures
            r.text() == self@.text,
            r.token() == self.owner(),
    {
        proof {
            use_type_invariant(self);
        }
        XmlRawSource::new(self.input.as_str(), self.token)
    }

    /// Returns the version.
    pub fn version(&self) -> (r: XmlVersion)
        ensures
            r == self@.version,
    {
        proof {
            use_type_invariant(self);
        }
        self.version
    }

    /// Returns the XML declaration, if it was kept.
    pub fn declaration(&self) -> (r: Option<&XmlProcessingInstruction>)
        ensures
            match r {
                Some(x) => kept_declaration(self@, self.options()) == Some(x@),
                None => kept_declaration(self@, self.options()) is None,
            },
    {
        proof {
            use_type_invariant(self);
        }
        match &self.declaration {
            Some(x) => Some(x),
            None => None,
        }
    }

    /// Returns the document type declaration, if it was kept.
    pub fn doctype(&self) -> (r: Option<&XmlDoctype>)
        ensures
            match r {
                Some(x) => kept_doctype(self@, self.options()) == Some(x@),
                None => kept_doctype(self@, self.options()) is None,
            },
    {
        proof {
            use_type_invariant(self);
        }
        match &self.doctype {
            Some(x) => Some(x),
            None => None,
        }
    }

    /// Returns how many of the nodes before the root element precede the document type
    /// declaration.
    pub(crate) fn doctype_index(&self) -> (r: usize)
        ensures
            r == self@.doctype_index,
    {
        proof {
            use_type_invariant(self);
        }
        self.doctype_index
    }

    /// Returns the comments and instructions before the root element.
    pub fn misc_before_root(&self) -> (r: &[XmlNode])
        ensures
            node_models(r@) == self@.before,
    {
        proof {
            use_type_invariant(self);
        }
        self.before.as_slice()
    }

    /// Returns the comments and instructions behind the root element.
    pub fn misc_after_root(&self) -> (r: &[XmlNode])
        ensures
            node_models(r@) == self@.after,
    {
        proof {
            use_type_invariant(self);
        }
        self.after.as_slice()
    }

    /// Returns the options that the document was parsed with.
    pub fn parse_options(&self) -> (r: ParserConfig)
        ensures
            r@ == self.options(),
    {
        self.config
    }

    /// Returns the identifier of the root element.
    pub fn root(&self) -> (r: XmlViewNodeId)
        ensures
            r.0 == 0,
            nodes_of(self@).len() >= 1,
            nodes_of(self@)[0].kind == XmlNodeKind::Element,
    {
        proof {
            use_type_invariant(self);
        }
        XmlViewNodeId(0)
    }

    /// Returns the node records in document order.
    pub fn nodes(&self) -> (r: &[RawXmlNode])
        ensures
            nodes_recorded(self@.text, nodes_of(self@), self.owner(), r@),
    {
        proof {
            use_type_invariant(self);
        }
        self.nodes.as_slice()
    }

    /// Returns the node identifiers in document order.
    pub fn node_ids(&self) -> (r: Vec<XmlViewNodeId>)
        ensures
            r@ == Seq::new(nodes_of(self@).len(), |i: int| XmlViewNodeId(i as usize)),
    {
        proof {
            use_type_invariant(self);
        }
        identifiers(self.nodes.len())
    }

    /// Returns the attribute records in document order.
    pub fn attributes(&self) -> (r: &[RawXmlAttribute])
        ensures
            attributes_recorded(self@.text, attributes_of(self@), self.owner(), r@),
    {
        proof {
            use_type_invariant(self);
        }
        self.attributes.as_slice()
    }

    /// Returns how many nodes there are.
    pub fn tree_stats(&self) -> (r: XmlTreeStats)
        ensures
            counts(self@, r),
    {
        proof {
            use_type_invariant(self);
        }
        self.stats
    }

    /// Returns a node record.
    pub fn node(&self, id: XmlViewNodeId) -> (r: Option<&RawXmlNode>)
        ensures
            match r {
                Some(n) => id.0 < nodes_of(self@).len() && node_recorded(
                    self@.text,
                    nodes_of(self@)[id.0 as int],
                    id.0 as int,
                    self.owner(),
                    *n,
                ),
                None => id.0 >= nodes_of(self@).len(),
            },
    {
        proof {
            use_type_invariant(self);
        }
        if id.0 < self.nodes.len() {
            Some(&self.nodes[id.0])
        } else {
            None
        }
    }

    /// Returns the name of an element or the target of an instruction.
    pub fn node_name(&self, id: XmlViewNodeId) -> (r: Option<&str>)
        ensures
            str_option(r) == node_name_in(self@, id.0 as int),
    {
        self.tables().node_name(id, Ghost(self@), Ghost(self.owner()))
    }

    /// Returns the raw value of a node that is not an element.
    pub fn node_value(&self, id: XmlViewNodeId) -> (r: Option<&str>)
        ensures
            str_option(r) == node_value_in(self@, id.0 as int),
    {
        self.tables().node_value(id, Ghost(self@), Ghost(self.owner()))
    }

    /// Returns the name of an attribute.
    pub fn attribute_name(&self, index: usize) -> (r: Option<&str>)
        ensures
            str_option(r) == attribute_name_in(self@, index as int),
    {
        self.tables().attribute_name(index, Ghost(self@), Ghost(self.owner()))
    }

    /// Returns the raw value of an attribute.
    pub fn attribute_value(&self, index: usize) -> (r: Option<&str>)
        ensures
            str_option(r) == attribute_value_in(self@, index as int),
    {
        self.tables().attribute_value(index, Ghost(self@), Ghost(self.owner()))
    }

    /// Returns the children of an element.
    pub fn children(&self, id: XmlViewNodeId) -> (r: Vec<XmlViewNodeId>)
        ensures
            places_of(r@) == children_in(self@, id.0 as int),
    {
        self.tables().children(id, Ghost(self@), Ghost(self.owner()))
    }

    /// Returns the root element.
    pub fn root_node(&self) -> (r: XmlCompactNode<'_>)
        ensures
            r.document() == *self,
            r.place() == 0,
    {
        proof {
            use_type_invariant(self);
        }
        XmlCompactNode { document: self, id: XmlViewNodeId(0) }
    }

    /// Returns a node, if the document has it.
    pub fn node_ref(&self, id: XmlViewNodeId) -> (r: Option<XmlCompactNode<'_>>)
        ensures
            match r {
                Some(n) => id.0 < nodes_of(self@).len() && n.document() == *self && n.place()
                    == id.0,
                None => id.0 >= nodes_of(self@).len(),
            },
    {
        proof {
            use_type_invariant(self);
        }
        if id.0 < self.nodes.len() {
            Some(XmlCompactNode { document: self, id })
        } else {
            None
        }
    }

    /// Decodes the value at `p`, which starts at the byte `start`.
    fn lexeme(
        &self,
        raw: &str,
        start: u32,
        kind: CompactLexemeKind,
        Ghost(p): Ghost<(int, int)>,
    ) -> (r: XmlResult<String>)
        requires
            raw@ == text_at(self@, p),
            0 <= p.0 <= p.1 <= self@.text.len(),
            start == byte_offset(self@.text, p.0),
        ensures
            match r {
                Ok(x) => lexeme_at(
                    self@.text,
                    p,
                    kind,
                    self@.version,
                    self.options().attribute_whitespace,
                ) == Ok::<Seq<char>, ErrorModel>(x@),
                Err(e) => lexeme_at(
                    self@.text,
                    p,
                    kind,
                    self@.version,
                    self.options().attribute_whitespace,
                ) == Err::<Seq<char>, ErrorModel>(e@),
            },
    {
        proof {
            use_type_invariant(self);
        }
        let source = Source::new(raw);
        match decode_compact_lexeme(
            source.chars.as_slice(),
            kind,
            self.version,
            self.config.attribute_whitespace_policy(),
        ) {
            Ok(x) => Ok(string_of(x.as_slice())),
            Err(f) => {
                proof {
                    lemma_byte_offset_within(self@.text, p.0, p.1, f.at as int);
                    lemma_byte_offset_monotone(
                        self@.text,
                        p.0 + f.at,
                        self@.text.len() as int,
                    );
                    lemma_byte_len_is_utf8(self@.text);
                }
                let byte: usize = start as usize + source.offset(f.at);
                Err(XmlError::new(f.kind, byte))
            },
        }
    }

    /// Decodes the attributes of the element at `at`.
    fn materialize_attributes(
        &self,
        from: usize,
        count: usize,
        Ghost(own): Ghost<Seq<RawAttribute>>,
    ) -> (r: XmlResult<Vec<XmlAttribute>>)
        requires
            from + count <= attributes_of(self@).len(),
            from + count <= usize::MAX,
            own == attributes_of(self@).subrange(from as int, from + count),
        ensures
            match r {
                Ok(x) => attribute_values_from(
                    self@.text,
                    own,
                    0,
                    self@.version,
                    self.options().attribute_whitespace,
                    Seq::empty(),
                ) == Ok::<Seq<AttributeModel>, ErrorModel>(attribute_models(x@)),
                Err(e) => attribute_values_from(
                    self@.text,
                    own,
                    0,
                    self@.version,
                    self.options().attribute_whitespace,
                    Seq::empty(),
                ) == Err::<Seq<AttributeModel>, ErrorModel>(e@),
            },
    {
        let ghost s = self@.text;
        let ghost v = self@.version;
        let ghost policy = self.options().attribute_whitespace;
        let mut out: Vec<XmlAttribute> = Vec::new();
        proof {
            assert(attribute_models(out@) =~= Seq::<AttributeModel>::empty());
        }
        let mut k: usize = 0;
        while k < count
            invariant
                s == self@.text,
                v == self@.version,
                policy == self.options().attribute_whitespace,
                k <= count,
                from + count <= attributes_of(self@).len(),
                from + count <= usize::MAX,
                own == attributes_of(self@).subrange(from as int, from + count),
                attribute_values_from(s, own, 0, v, policy, Seq::empty()) == attribute_values_from(
                    s,
                    own,
                    k as int,
                    v,
                    policy,
                    attribute_models(out@),
                ),
            decreases count - k,
        {
            let ghost a = own[k as int];
            if let (Some(name), Some(raw)) = (
                self.attribute_name(from + k),
                self.attribute_value(from + k),
            ) {
                proof {
                    use_type_invariant(self);
                    assert(attributes_of(self@)[from + k] == a);
                    assert(attribute_recorded(
                        s,
                        attributes_of(self@)[from + k],
                        self.token,
                        self.attributes@[from + k],
                    ));
                }
                let start: u32 = self.attributes[from + k].value_start;
                match self.lexeme(raw, start, CompactLexemeKind::Attribute, Ghost(a.value)) {
                    Err(e) => {
                        return Err(e);
                    },
                    Ok(value) => {
                        let ghost before = out@;
                        let x = XmlAttribute { name: name.to_owned(), value };
                        out.push(x);
                        proof {
                            assert(attribute_models(out@) =~= attribute_models(before).push(x@));
                        }
                    },
                }
            }
            k = k + 1;
        }
        Ok(out)
    }

    /// Decodes the node at `at`, which starts the tree `t`.
    fn materialize_node(&self, at: usize, Ghost(t): Ghost<RawTree>, Ghost(a): Ghost<int>) -> (r:
        XmlResult<XmlNode>)
        requires
            subtree_at(nodes_of(self@), attributes_of(self@), t, at as int, a),
            well_built(t, MAX_DOM_DEPTH as int),
        ensures
            match r {
                Ok(x) => materialized(
                    self@.text,
                    t,
                    self@.version,
                    self.options().attribute_whitespace,
                ) == Ok::<NodeModel, ErrorModel>(x.model()),
                Err(e) => materialized(
                    self@.text,
                    t,
                    self@.version,
                    self.options().attribute_whitespace,
                ) == Err::<NodeModel, ErrorModel>(e@),
            },
        decreases t,
    {
        let ghost s = self@.text;
        let ghost v = self@.version;
        let ghost policy = self.options().attribute_whitespace;
        let ghost f = nodes_of(self@);
        let ghost attrs = attributes_of(self@);
        proof {
            use_type_invariant(self);
            lemma_element_entry(f, attrs, t, at as int, a);
        }
        let n = &self.nodes[at];
        proof {
            assert(node_recorded(s, f[at as int], at as int, self.token, *n));
        }
        let id = XmlViewNodeId(at);
        let start: u32 = n.name_start;
        let data_start: u32 = n.attribute_start;
        match n.kind {
            XmlNodeKind::Element => {
                let name = match self.node_name(id) {
                    Some(x) => x.to_owned(),
                    None => String::new(),
                };
                let ghost own = t->attributes;
                let ghost children = t->children;
                let from: usize = n.attribute_start as usize;
                let count: usize = n.attribute_count as usize;
                let values = match self.materialize_attributes(from, count, Ghost(own)) {
                    Err(e) => {
                        return Err(e);
                    },
                    Ok(x) => x,
                };
                let mut below: Vec<XmlNode> = Vec::new();
                proof {
                    assert(node_models(below@) =~= Seq::<NodeModel>::empty());
                    assert(children.take(0) =~= Seq::<RawTree>::empty());
                }
                let end: usize = n.next as usize;
                let mut k: usize = at + 1;
                let ghost mut j: int = 0;
                let ghost b = (a + own.len()) as int;
                while k < end
                    invariant
                        s == self@.text,
                        v == self@.version,
                        policy == self.options().attribute_whitespace,
                        f == nodes_of(self@),
                        attrs == attributes_of(self@),
                        t is Element,
                        children == t->children,
                        own == t->attributes,
                        b == a + own.len(),
                        subtree_at(f, attrs, t, at as int, a),
                        well_built(t, MAX_DOM_DEPTH as int),
                        attribute_values_from(s, own, 0, v, policy, Seq::empty()) is Ok,
                        0 <= j <= children.len(),
                        k == child_place(children, at as int, j),
                        end == child_place(children, at as int, children.len() as int),
                        materialized_from(s, children, 0, v, policy, Seq::empty())
                            == materialized_from(
                            s,
                            children,
                            j,
                            v,
                            policy,
                            node_models(below@),
                        ),
                    decreases end - k,
                {
                    proof {
                        use_type_invariant(self);
                        if j == children.len() {
                            assert(false);
                        }
                        lemma_children_at(f, attrs, t, at as int, a, j);
                        lemma_element_entry(
                            f,
                            attrs,
                            children[j],
                            k as int,
                            child_attributes(children, b, j),
                        );
                        assert(node_recorded(
                            s,
                            f[k as int],
                            k as int,
                            self.token,
                            self.nodes@[k as int],
                        ));
                        lemma_room(children[j], MAX_DOM_DEPTH - 1, MAX_DOM_DEPTH as int);
                        lemma_place_monotone(children, at as int, j + 1);
                        assert(decreases_to!(t => children[j]));
                    }
                    let child = self.materialize_node(
                        k,
                        Ghost(children[j]),
                        Ghost(child_attributes(children, b, j)),
                    );
                    match child {
                        Err(e) => {
                            return Err(e);
                        },
                        Ok(x) => {
                            let ghost before = below@;
                            below.push(x);
                            proof {
                                assert(node_models(below@) =~= node_models(before).push(
                                    x.model(),
                                ));
                                j = j + 1;
                            }
                        },
                    }
                    k = self.nodes[k].next as usize;
                }
                proof {
                    if j < children.len() {
                        lemma_children_at(f, attrs, t, at as int, a, j);
                        lemma_place_monotone(children, at as int, j + 1);
                        assert(false);
                    }
                }
                Ok(XmlNode::Element(XmlElement { name, attributes: values, children: below }))
            },
            XmlNodeKind::Text => {
                let raw = match self.node_value(id) {
                    Some(x) => x,
                    None => "",
                };
                match self.lexeme(raw, start, CompactLexemeKind::Text, Ghost(t->Leaf_primary)) {
                    Err(e) => Err(e),
                    Ok(x) => Ok(XmlNode::Text(x)),
                }
            },
            XmlNodeKind::Comment => {
                let raw = match self.node_value(id) {
                    Some(x) => x,
                    None => "",
                };
                match self.lexeme(raw, start, CompactLexemeKind::Opaque, Ghost(t->Leaf_primary)) {
                    Err(e) => Err(e),
                    Ok(x) => Ok(XmlNode::Comment(x)),
                }
            },
            XmlNodeKind::Cdata => {
                let raw = match self.node_value(id) {
                    Some(x) => x,
                    None => "",
                };
                match self.lexeme(raw, start, CompactLexemeKind::Opaque, Ghost(t->Leaf_primary)) {
                    Err(e) => Err(e),
                    Ok(x) => Ok(XmlNode::Cdata(x)),
                }
            },
            XmlNodeKind::ProcessingInstruction => {
                let target = match self.node_name(id) {
                    Some(x) => x.to_owned(),
                    None => String::new(),
                };
                let raw = match self.node_value(id) {
                    Some(x) => x,
                    None => "",
                };
                match self.lexeme(
                    raw,
                    data_start,
                    CompactLexemeKind::Opaque,
                    Ghost(t->Leaf_secondary),
                ) {
                    Err(e) => Err(e),
                    Ok(data) => Ok(
                        XmlNode::ProcessingInstruction(XmlProcessingInstruction { target, data }),
                    ),
                }
            },
        }
    }

    /// Decodes the root element.
    pub(crate) fn materialize_root(&self) -> (r: XmlResult<XmlNode>)
        ensures
            match r {
                Ok(x) => materialized(
                    self@.text,
                    self@.root,
                    self@.version,
                    self.options().attribute_whitespace,
                ) == Ok::<NodeModel, ErrorModel>(x.model()) && x is Element,
                Err(e) => materialized(
                    self@.text,
                    self@.root,
                    self@.version,
                    self.options().attribute_whitespace,
                ) == Err::<NodeModel, ErrorModel>(e@),
            },
    {
        proof {
            use_type_invariant(self);
            let f = nodes_of(self@);
            lemma_tree_len(self@.root, 0, 0);
            assert(f.subrange(0, tree_nodes(self@.root) as int) =~= f);
            assert(attributes_of(self@).subrange(0, attributes_of(self@).len() as int)
                =~= attributes_of(self@));
        }
        self.materialize_node(0, Ghost(self@.root), Ghost(0))
    }

    /// The attributes of an element as an editable tree has them.
    fn grow_attributes(
        &self,
        from: usize,
        count: usize,
        Ghost(own): Ghost<Seq<RawAttribute>>,
    ) -> (r: Vec<DomAttribute>)
        requires
            from + count <= attributes_of(self@).len(),
            from + count <= usize::MAX,
            own == attributes_of(self@).subrange(from as int, from + count),
        ensures
            tree_attribute_models(r@) == written_attributes(self@.text, own),
    {
        let ghost s = self@.text;
        let mut out: Vec<DomAttribute> = Vec::new();
        let mut k: usize = 0;
        while k < count
            invariant
                s == self@.text,
                k <= count,
                from + count <= attributes_of(self@).len(),
                from + count <= usize::MAX,
                own == attributes_of(self@).subrange(from as int, from + count),
                out@.len() == k,
                forall|i: int|
                    0 <= i < k ==> (#[trigger] out@[i])@ == written_attributes(s, own)[i],
            decreases count - k,
        {
            let ghost a = own[k as int];
            if let (Some(name), Some(raw)) = (
                self.attribute_name(from + k),
                self.attribute_value(from + k),
            ) {
                out.push(
                    DomAttribute {
                        name: name.to_owned(),
                        value: DomText { text: raw.to_owned(), raw: true },
                    },
                );
            }
            k = k + 1;
        }
        proof {
            assert(tree_attribute_models(out@) =~= written_attributes(s, own));
        }
        out
    }

    /// The node at `at`, which starts the tree `t`, as an editable tree.
    fn grow_node(&self, at: usize, Ghost(t): Ghost<RawTree>, Ghost(a): Ghost<int>) -> (r: DomNode)
        requires
            subtree_at(nodes_of(self@), attributes_of(self@), t, at as int, a),
            well_built(t, MAX_DOM_DEPTH as int),
        ensures
            r.model() == grown(self@.text, t, at as int),
        decreases t,
    {
        let ghost s = self@.text;
        let ghost f = nodes_of(self@);
        let ghost attrs = attributes_of(self@);
        proof {
            use_type_invariant(self);
            lemma_element_entry(f, attrs, t, at as int, a);
        }
        let n = &self.nodes[at];
        proof {
            assert(node_recorded(s, f[at as int], at as int, self.token, *n));
        }
        let id = XmlViewNodeId(at);
        let origin: u32 = n.name_start;
        match n.kind {
            XmlNodeKind::Element => {
                let name = match self.node_name(id) {
                    Some(x) => x.to_owned(),
                    None => String::new(),
                };
                let ghost own = t->attributes;
                let ghost children = t->children;
                let from: usize = n.attribute_start as usize;
                let count: usize = n.attribute_count as usize;
                let values = self.grow_attributes(from, count, Ghost(own));
                let mut below: Vec<DomNode> = Vec::new();
                proof {
                    assert(tree_models(below@) =~= Seq::<TreeModel>::empty());
                    assert(children.take(0) =~= Seq::<RawTree>::empty());
                }
                let end: usize = n.next as usize;
                let mut k: usize = at + 1;
                let ghost mut j: int = 0;
                let ghost b = (a + own.len()) as int;
                while k < end
                    invariant
                        s == self@.text,
                        f == nodes_of(self@),
                        attrs == attributes_of(self@),
                        t is Element,
                        children == t->children,
                        own == t->attributes,
                        b == a + own.len(),
                        subtree_at(f, attrs, t, at as int, a),
                        well_built(t, MAX_DOM_DEPTH as int),
                        0 <= j <= children.len(),
                        k == child_place(children, at as int, j),
                        end == child_place(children, at as int, children.len() as int),
                        tree_models(below@) == grown_all(s, children, j, at as int),
                    decreases end - k,
                {
                    proof {
                        use_type_invariant(self);
                        if j == children.len() {
                            assert(false);
                        }
                        lemma_children_at(f, attrs, t, at as int, a, j);
                        lemma_element_entry(
                            f,
                            attrs,
                            children[j],
                            k as int,
                            child_attributes(children, b, j),
                        );
                        assert(node_recorded(
                            s,
                            f[k as int],
                            k as int,
                            self.token,
                            self.nodes@[k as int],
                        ));
                        lemma_room(children[j], MAX_DOM_DEPTH - 1, MAX_DOM_DEPTH as int);
                        lemma_place_monotone(children, at as int, j + 1);
                        assert(decreases_to!(t => children[j]));
                    }
                    let x = self.grow_node(
                        k,
                        Ghost(children[j]),
                        Ghost(child_attributes(children, b, j)),
                    );
                    let ghost before = below@;
                    below.push(x);
                    proof {
                        assert(tree_models(below@) =~= tree_models(before).push(x.model()));
                        j = j + 1;
                    }
                    k = self.nodes[k].next as usize;
                }
                proof {
                    if j < children.len() {
                        lemma_children_at(f, attrs, t, at as int, a, j);
                        lemma_place_monotone(children, at as int, j + 1);
                        assert(false);
                    }
                }
                DomNode {
                    id: at as u64,
                    origin: Some(origin),
                    kind: XmlNodeKind::Element,
                    name,
                    value: DomText { text: String::new(), raw: false },
                    attributes: values,
                    children: below,
                    recorded: true,
                    touched: false,
                }
            },
            kind => {
                let name = match kind {
                    XmlNodeKind::ProcessingInstruction => match self.node_name(id) {
                        Some(x) => x.to_owned(),
                        None => String::new(),
                    },
                    _ => String::new(),
                };
                let text = match self.node_value(id) {
                    Some(x) => x.to_owned(),
                    None => String::new(),
                };
                let r = DomNode {
                    id: at as u64,
                    origin: Some(origin),
                    kind,
                    name,
                    value: DomText { text, raw: true },
                    attributes: Vec::new(),
                    children: Vec::new(),
                    recorded: true,
                    touched: false,
                };
                proof {
                    assert(tree_attribute_models(r.attributes@) =~= Seq::<TreeAttribute>::empty());
                    assert(tree_models(r.children@) =~= Seq::<TreeModel>::empty());
                }
                r
            },
        }
    }

    /// The root element as an editable tree.
    pub(crate) fn grow_root(&self) -> (r: DomNode)
        ensures
            r.model() == grown(self@.text, self@.root, 0),
    {
        proof {
            use_type_invariant(self);
            let f = nodes_of(self@);
            lemma_tree_len(self@.root, 0, 0);
            assert(f.subrange(0, tree_nodes(self@.root) as int) =~= f);
            assert(attributes_of(self@).subrange(0, attributes_of(self@).len() as int)
                =~= attributes_of(self@));
        }
        self.grow_node(0, Ghost(self@.root), Ghost(0))
    }
}

impl Clone for XmlCompactDocument {
    fn clone(&self) -> (r: Self)
        ensures
            r@ == self@,
            r.options() == self.options(),
            r.owner() == self.owner(),
    {
        proof {
            use_type_invariant(self);
        }
        let declaration = match &self.declaration {
            Some(x) => Some(x.clone()),
            None => None,
        };
        let doctype = match &self.doctype {
            Some(x) => Some(x.clone()),
            None => None,
        };
        let nodes = self.nodes.clone();
        let attributes = self.attributes.clone();
        proof {
            assert(nodes@ =~= self.nodes@);
            assert(attributes@ =~= self.attributes@);
        }
        XmlCompactDocument {
            input: self.input.clone(),
            nodes,
            attributes,
            stats: self.stats,
            declaration,
            doctype,
            doctype_index: self.doctype_index,
            before: clone_nodes(&self.before),
            after: clone_nodes(&self.after),
            config: self.config,
            version: self.version,
            token: self.token,
            model: Ghost(self.model@),
        }
    }
}

/// A tree that fits fits with more room.
pub(crate) proof fn lemma_room(t: RawTree, room: int, more: int)
    requires
        well_built(t, room),
        room <= more,
    ensures
        well_built(t, more),
    decreases t,
{
    if t is Element {
        let children = t->children;
        assert forall|j: int| 0 <= j < children.len() implies well_built(
            #[trigger] children[j],
            more - 1,
        ) by {
            assert(well_built(children[j], room - 1));
            lemma_room(children[j], room - 1, more - 1);
        }
    }
}

/// Later children stand at later places.
pub(crate) proof fn lemma_place_monotone(children: Seq<RawTree>, at: int, j: int)
    requires
        0 <= j <= children.len(),
    ensures
        child_place(children, at, j) <= child_place(children, at, children.len() as int),
    decreases children.len() - j,
{
    if j < children.len() {
        assert(children.take(j + 1).drop_last() =~= children.take(j));
        lemma_place_monotone(children, at, j + 1);
    }
}

/// A node of a compact document.
#[derive(Clone, Copy)]
pub struct XmlCompactNode<'a> {
    document: &'a XmlCompactDocument,
    id: XmlViewNodeId,
}

impl<'a> XmlCompactNode<'a> {
    /// The document has the node.
    #[verifier::type_invariant]
    spec fn wf(self) -> bool {
        self.id.0 < nodes_of(self.document@).len()
    }

    /// The document of the node.
    pub closed spec fn document(self) -> XmlCompactDocument {
        *self.document
    }

    /// The place of the node in document order.
    pub closed spec fn place(self) -> int {
        self.id.0 as int
    }

    /// Returns the identifier.
    pub fn id(self) -> (r: XmlViewNodeId)
        ensures
            r.0 == self.place(),
    {
        self.id
    }

    /// Returns the kind.
    pub fn kind(self) -> (r: XmlNodeKind)
        ensures
            r == nodes_of(self.document()@)[self.place()].kind,
    {
        proof {
            use_type_invariant(&self);
        }
        match self.document.node(self.id) {
            Some(n) => n.kind,
            None => XmlNodeKind::Element,
        }
    }

    /// Returns the name of an element or the target of an instruction.
    pub fn name(self) -> (r: Option<&'a str>)
        ensures
            str_option(r) == node_name_in(self.document()@, self.place()),
    {
        self.document.node_name(self.id)
    }

    /// Returns the raw value of a node that is not an element.
    pub fn raw_value(self) -> (r: Option<&'a str>)
        ensures
            str_option(r) == node_value_in(self.document()@, self.place()),
    {
        self.document.node_value(self.id)
    }

    /// Returns the attributes in document order.
    pub fn attributes(self) -> (r: Vec<XmlAttributeView<'a>>)
        ensures
            attribute_pairs(r@) == node_attributes_in(self.document()@, self.place()),
    {
        self.document.tables().node_attributes(
            self.id,
            Ghost(self.document@),
            Ghost(self.document.owner()),
        )
    }

    /// Returns the attribute with a name.
    pub fn attribute(self, name: &str) -> (r: Option<XmlAttributeView<'a>>)
        ensures
            match r {
                Some(x) => first_pair(
                    node_attributes_in(self.document()@, self.place()),
                    0,
                    name@,
                ) == Some(x@),
                None => first_pair(
                    node_attributes_in(self.document()@, self.place()),
                    0,
                    name@,
                ) is None,
            },
    {
        self.document.tables().node_attribute(
            self.id,
            name,
            Ghost(self.document@),
            Ghost(self.document.owner()),
        )
    }

    /// Returns the children in document order.
    pub fn children(self) -> (r: Vec<XmlCompactNode<'a>>)
        ensures
            handle_places(r@) == children_in(self.document()@, self.place()),
            forall|i: int| 0 <= i < r@.len() ==> (#[trigger] r@[i]).document() == self.document(),
    {
        let ids = self.document.tables().children(
            self.id,
            Ghost(self.document@),
            Ghost(self.document.owner()),
        );
        self.handles(&ids)
    }

    /// Returns the first child element with a name.
    pub fn child(self, name: &str) -> (r: Option<XmlCompactNode<'a>>)
        ensures
            match r {
                Some(n) => first_named(
                    self.document()@,
                    children_in(self.document()@, self.place()),
                    0,
                    name@,
                ) == Some(n.place()) && n.document() == self.document(),
                None => first_named(
                    self.document()@,
                    children_in(self.document()@, self.place()),
                    0,
                    name@,
                ) is None,
            },
    {
        match self.document.tables().child(
            self.id,
            name,
            Ghost(self.document@),
            Ghost(self.document.owner()),
        ) {
            Some(id) => Some(XmlCompactNode { document: self.document, id }),
            None => None,
        }
    }

    /// Returns the child elements with a name.
    pub fn children_named(self, name: &str) -> (r: Vec<XmlCompactNode<'a>>)
        ensures
            handle_places(r@) == named_from(
                self.document()@,
                children_in(self.document()@, self.place()),
                0,
                name@,
                Seq::empty(),
            ),
            forall|i: int| 0 <= i < r@.len() ==> (#[trigger] r@[i]).document() == self.document(),
    {
        let ids = self.document.tables().children_named(
            self.id,
            name,
            Ghost(self.document@),
            Ghost(self.document.owner()),
        );
        self.handles(&ids)
    }

    /// The nodes with the identifiers.
    fn handles(self, ids: &Vec<XmlViewNodeId>) -> (r: Vec<XmlCompactNode<'a>>)
        requires
            forall|i: int|
                0 <= i < ids@.len() ==> (#[trigger] ids@[i]).0 < nodes_of(self.document()@).len(),
        ensures
            handle_places(r@) == places_of(ids@),
            forall|i: int| 0 <= i < r@.len() ==> (#[trigger] r@[i]).document() == self.document(),
    {
        let mut out: Vec<XmlCompactNode<'a>> = Vec::new();
        let mut k: usize = 0;
        while k < ids.len()
            invariant
                k <= ids@.len(),
                out@.len() == k,
                forall|i: int|
                    0 <= i < ids@.len() ==> (#[trigger] ids@[i]).0 < nodes_of(
                        self.document()@,
                    ).len(),
                forall|i: int|
                    0 <= i < k ==> (#[trigger] out@[i]).document() == self.document()
                        && out@[i].place() == ids@[i].0,
            decreases ids@.len() - k,
        {
            out.push(XmlCompactNode { document: self.document, id: ids[k] });
            k = k + 1;
        }
        proof {
            assert(handle_places(out@) =~= places_of(ids@));
        }
        out
    }
}

/// The places of nodes.
pub open spec fn handle_places(v: Seq<XmlCompactNode<'_>>) -> Seq<int> {
    Seq::new(v.len(), |i: int| v[i].place())
}

/// Parses a compact document.
#[verifier::spinoff_prover]
#[verifier::rlimit(60)]
pub fn parse_compact_document_with_config(input: String, config: ParserConfig) -> (r: XmlResult<
    XmlCompactDocument,
>)
    ensures
        match r {
            Ok(d) => compact_parse(input@, config@) == Ok::<DocumentModel, ErrorModel>(d@)
                && d.options() == config@,
            Err(e) => compact_parse(input@, config@) == Err::<DocumentModel, ErrorModel>(e@)
                && e.byte <= byte_len(input@),
        },
{
    let ghost s = input@;
    proof {
        lemma_compact_parse(s, config@);
    }
    let expanded = {
        let source = Source::new(input.as_str());
        match expand_chars(source.chars.as_slice(), &config, false) {
            Err(f) => {
                return Err(locate(&source, f));
            },
            Ok(x) => x,
        }
    };
    let token: u64 = fresh_token();
    match expanded {
        None => match compact_of_text(input, config, token) {
            Ok(d) => Ok(d),
            Err((f, text)) => {
                let source = Source::new(text.as_str());
                Err(locate(&source, f))
            },
        },
        Some((t, places)) => match compact_of_text(string_of(t.as_slice()), config, token) {
            Ok(d) => Ok(d),
            Err((f, _)) => {
                let source = Source::new(input.as_str());
                Err(trace(&source, &places, f))
            },
        },
    }
}

/// What a strict parse returns, by whether references were replaced.
proof fn lemma_compact_parse(s: Seq<char>, c: ConfigModel)
    ensures
        expanded_text(s, c, false) matches Err(f) ==> compact_parse(s, c) == Err::<
            DocumentModel,
            ErrorModel,
        >(located(s, f)),
        expanded_text(s, c, false) matches Ok(None) ==> compact_parse(s, c) == (match text_fault(
            s,
            c,
        ) {
            Some(f) => Err::<DocumentModel, ErrorModel>(located(s, f)),
            None => Ok(parsed(s, c)->Ok_0),
        }),
        expanded_text(s, c, false) matches Ok(Some(x)) ==> compact_parse(s, c) == (
        match text_fault(x.text, c) {
            Some(f) => Err::<DocumentModel, ErrorModel>(traced(s, x.places, f)),
            None => Ok(parsed(x.text, c)->Ok_0),
        }),
{
    lemma_expanded_places(s, c, false);
}

/// The fault of a text that is no document, or too large a one.
pub open spec fn text_fault(s: Seq<char>, c: ConfigModel) -> Option<FaultModel> {
    match parsed(s, c) {
        Err(f) => Some(f),
        Ok(m) => if byte_len(m.text) > u32::MAX {
            Some(
                FaultModel { kind: ErrorKindModel::InvalidDocumentStructure, at: s.len() as int },
            )
        } else {
            None
        },
    }
}

/// Parses a document whose entities have been expanded. If that fails, the text is given back.
pub(crate) fn compact_of_text(text: String, config: ParserConfig, token: u64) -> (r: Result<
    XmlCompactDocument,
    (Fault, String),
>)
    ensures
        match r {
            Ok(d) => text_fault(text@, config@) is None && parsed(text@, config@) == Ok::<
                DocumentModel,
                FaultModel,
            >(d@) && d.options() == config@ && d.owner() == token,
            Err((f, back)) => text_fault(text@, config@) == Some(f@) && back@ == text@ && f.at
                <= text@.len(),
        },
{
    let outcome = {
        let source = Source::new(text.as_str());
        match parse_chars(source.chars.as_slice(), &config) {
            Err(f) => Err(f),
            Ok(p) => {
                let ghost m = parsed(text@, config@)->Ok_0;
                proof {
                    lemma_parsed_well_built(text@, config@);
                }
                let stats = count_nodes(&p, Ghost(m));
                match record(&p, source.chars.as_slice(), token, Ghost(m)) {
                    None => {
                        let end: usize = source.chars.len();
                        Err(Fault { kind: XmlErrorKind::InvalidDocumentStructure, at: end })
                    },
                    Some((nodes, attributes)) => Ok((p, nodes, attributes, stats)),
                }
            },
        }
    };
    let parts = match outcome {
        Err(f) => {
            return Err((f, text));
        },
        Ok(x) => x,
    };
    let (p, nodes, attributes, stats) = parts;
    let ghost m = parsed(text@, config@)->Ok_0;
    proof {
        lemma_parsed_well_built(text@, config@);
    }
    let Parsed { prolog, after, .. } = p;
    let declaration = match prolog.declaration {
        Some(data) => if config.preserves_declaration() {
            Some(XmlProcessingInstruction { target: "xml".to_owned(), data })
        } else {
            None
        },
        None => None,
    };
    let doctype = if config.preserves_doctype() {
        prolog.doctype
    } else {
        None
    };
    Ok(
        XmlCompactDocument {
            input: text,
            nodes,
            attributes,
            stats,
            declaration,
            doctype,
            doctype_index: prolog.doctype_index,
            before: prolog.misc,
            after,
            config,
            version: prolog.version,
            token,
            model: Ghost(m),
        },
    )
}

/// The root of a parsed document is an element, and elements nest no deeper than the limit.
pub proof fn lemma_parsed_well_built(s: Seq<char>, c: ConfigModel)
    requires
        parsed(s, c) is Ok,
    ensures
        well_built(parsed(s, c)->Ok_0.root, MAX_DOM_DEPTH as int),
        parsed(s, c)->Ok_0.root is Element,
{
    let p = prolog(s, c, true)->Ok_0;
    lemma_element_well_built(
        s,
        p.at,
        c,
        p.version,
        crate::entities::table_resolver(p.entities, c.entity_expansion, p.version),
        1,
        0,
    );
}

} // verus!
