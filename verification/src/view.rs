//! Documents that borrow their source text.

use vstd::prelude::*;

use crate::compact::lemma_parsed_well_built;
use crate::config::{ConfigModel, ParserConfig};
use crate::document::{is_parse_of, parse_chars, parsed, plain_parse, DocumentModel, Parsed};
use crate::dom::{XmlNodeKind, XmlTreeStats};
use crate::error::{locate, located, ErrorModel, Fault, XmlErrorKind, XmlResult};
use crate::grammar::{flat_models, raw_attributes, FlatModel, RawAttribute};
use crate::identity::fresh_token;
use crate::lexeme::XmlVersion;
use crate::records::{
    attribute_recorded, attributes_recorded, byte_table, node_recorded, nodes_recorded, str_option,
    RawXmlAttribute, RawXmlNode, XmlRawSource, XmlViewNodeId,
};
use crate::tables::{
    attribute_name_in, attribute_pairs, attribute_value_in, attributes_of, children_in, count_nodes,
    counts, first_named, first_pair, identifiers, named_from, node_attributes_in, node_name_in,
    node_value_in, nodes_of, places_of, record, recorded, too_large, Tables, XmlAttributeView,
};
use crate::text::{byte_len, byte_offset, Source};

verus! {

/// What a strict parse of `s` into a view returns.
///
/// Unlike the parse into a compact document it expands no entity: one whose replacement holds
/// markup is an error.
pub open spec fn view_parse(s: Seq<char>, c: ConfigModel) -> Result<DocumentModel, ErrorModel> {
    match plain_parse(s, c) {
        Err(e) => Err(e),
        Ok(m) => if byte_len(m.text) > u32::MAX {
            Err(too_large(s))
        } else {
            Ok(m)
        },
    }
}

/// A document that borrows its source text.
pub struct XmlDocumentView<'a> {
    input: &'a str,
    nodes: Vec<RawXmlNode>,
    attributes: Vec<RawXmlAttribute>,
    stats: XmlTreeStats,
    version: XmlVersion,
    token: u64,
    model: Ghost<DocumentModel>,
}

impl<'a> View for XmlDocumentView<'a> {
    type V = DocumentModel;

    closed spec fn view(&self) -> DocumentModel {
        self.model@
    }
}

impl<'a> XmlDocumentView<'a> {
    /// The fields hold the document.
    #[verifier::type_invariant]
    spec fn wf(self) -> bool {
        let m = self.model@;
        &&& self.input@ == m.text
        &&& recorded(m, self.token, self.nodes@, self.attributes@)
        &&& counts(m, self.stats)
        &&& self.version == m.version
    }

    /// The token of the document.
    pub closed spec fn owner(&self) -> u64 {
        self.token
    }

    fn tables(&self) -> (r: Tables<'_, 'a>)
        ensures
            r.of(self@, self.owner()),
    {
        proof {
            use_type_invariant(self);
        }
        Tables {
            input: self.input,
            nodes: self.nodes.as_slice(),
            attributes: self.attributes.as_slice(),
        }
    }

    /// Returns the source text.
    pub fn input(&self) -> (r: &'a str)
        ensures
            r@ == self@.text,
    {
        proof {
            use_type_invariant(self);
        }
        self.input
    }

    /// Returns the source text with the token of the document.
    pub fn raw_source(&self) -> (r: XmlRawSource<'a>)
        ensures
            r.text() == self@.text,
            r.token() == self.owner(),
    {
        proof {
            use_type_invariant(self);
        }
        XmlRawSource::new(self.input, self.token)
    }

    /// Returns the version.
    pub fn version(&self) -> (r: XmlVersion)
        ensures
            r == self@.version,
    {
        proof {
            use_type_invariant(self);
        }
        self.version
    }

    /// Returns the identifier of the root element.
    pub fn root(&self) -> (r: XmlViewNodeId)
        ensures
            r.0 == 0,
            nodes_of(self@).len() >= 1,
            nodes_of(self@)[0].kind == XmlNodeKind::Element,
    {
        proof {
            use_type_invariant(self);
        }
        XmlViewNodeId(0)
    }

    /// Returns the node records in document order.
    pub fn nodes(&self) -> (r: &[RawXmlNode])
        ensures
            nodes_recorded(self@.text, nodes_of(self@), self.owner(), r@),
    {
        proof {
            use_type_invariant(self);
        }
        self.nodes.as_slice()
    }

    /// Returns the node identifiers in document order.
    pub fn node_ids(&self) -> (r: Vec<XmlViewNodeId>)
        ensures
            r@ == Seq::new(nodes_of(self@).len(), |i: int| XmlViewNodeId(i as usize)),
    {
        proof {
            use_type_invariant(self);
        }
        identifiers(self.nodes.len())
    }

    /// Returns the attribute records in document order.
    pub fn attributes(&self) -> (r: &[RawXmlAttribute])
        ensures
            attributes_recorded(self@.text, attributes_of(self@), self.owner(), r@),
    {
        proof {
            use_type_invariant(self);
        }
        self.attributes.as_slice()
    }

    /// Returns how many nodes there are.
    pub fn tree_stats(&self) -> (r: XmlTreeStats)
        ensures
            counts(self@, r),
    {
        proof {
            use_type_invariant(self);
        }
        self.stats
    }

    /// Returns a node record.
    pub fn node(&self, id: XmlViewNodeId) -> (r: Option<&RawXmlNode>)
        ensures
            match r {
                Some(n) => id.0 < nodes_of(self@).len() && node_recorded(
                    self@.text,
                    nodes_of(self@)[id.0 as int],
                    id.0 as int,
                    self.owner(),
                    *n,
                ),
                None => id.0 >= nodes_of(self@).len(),
            },
    {
        proof {
            use_type_invariant(self);
        }
        if id.0 < self.nodes.len() {
            Some(&self.nodes[id.0])
        } else {
            None
        }
    }

    /// Returns an attribute record.
    pub fn attribute(&self, index: usize) -> (r: Option<&RawXmlAttribute>)
        ensures
            match r {
                Some(a) => index < attributes_of(self@).len() && attribute_recorded(
                    self@.text,
                    attributes_of(self@)[index as int],
                    self.owner(),
                    *a,
                ),
                None => index >= attributes_of(self@).len(),
            },
    {
        proof {
            use_type_invariant(self);
        }
        if index < self.attributes.len() {
            Some(&self.attributes[index])
        } else {
            None
        }
    }

    /// Returns the name of an element or the target of an instruction.
    pub fn node_name(&self, id: XmlViewNodeId) -> (r: Option<&'a str>)
        ensures
            str_option(r) == node_name_in(self@, id.0 as int),
    {
        self.tables().node_name(id, Ghost(self@), Ghost(self.owner()))
    }

    /// Returns the raw value of a node that is not an element.
    pub fn node_value(&self, id: XmlViewNodeId) -> (r: Option<&'a str>)
        ensures
            str_option(r) == node_value_in(self@, id.0 as int),
    {
        self.tables().node_value(id, Ghost(self@), Ghost(self.owner()))
    }

    /// Returns the name of an attribute.
    pub fn attribute_name(&self, index: usize) -> (r: Option<&'a str>)
        ensures
            str_option(r) == attribute_name_in(self@, index as int),
    {
        self.tables().attribute_name(index, Ghost(self@), Ghost(self.owner()))
    }

    /// Returns the raw value of an attribute.
    pub fn attribute_value(&self, index: usize) -> (r: Option<&'a str>)
        ensures
            str_option(r) == attribute_value_in(self@, index as int),
    {
        self.tables().attribute_value(index, Ghost(self@), Ghost(self.owner()))
    }

    /// Returns the children of an element.
    pub fn children(&self, id: XmlViewNodeId) -> (r: Vec<XmlViewNodeId>)
        ensures
            places_of(r@) == children_in(self@, id.0 as int),
    {
        self.tables().children(id, Ghost(self@), Ghost(self.owner()))
    }

    /// Returns the root element.
    pub fn root_node(&self) -> (r: XmlViewNode<'_, 'a>)
        ensures
            r.document() == *self,
            r.place() == 0,
    {
        proof {
            use_type_invariant(self);
        }
        XmlViewNode { document: self, id: XmlViewNodeId(0) }
    }

    /// Returns a node, if the document has it.
    pub fn node_ref(&self, id: XmlViewNodeId) -> (r: Option<XmlViewNode<'_, 'a>>)
        ensures
            match r {
                Some(n) => id.0 < nodes_of(self@).len() && n.document() == *self && n.place()
                    == id.0,
                None => id.0 >= nodes_of(self@).len(),
            },
    {
        proof {
            use_type_invariant(self);
        }
        if id.0 < self.nodes.len() {
            Some(XmlViewNode { document: self, id })
        } else {
            None
        }
    }
}

/// A node of a document view.
#[derive(Clone, Copy)]
pub struct XmlViewNode<'d, 'a> {
    document: &'d XmlDocumentView<'a>,
    id: XmlViewNodeId,
}

impl<'d, 'a> XmlViewNode<'d, 'a> {
    /// The document has the node.
    #[verifier::type_invariant]
    spec fn wf(self) -> bool {
        self.id.0 < nodes_of(self.document@).len()
    }

    /// The document of the node.
    pub closed spec fn document(self) -> XmlDocumentView<'a> {
        *self.document
    }

    /// The place of the node in document order.
    pub closed spec fn place(self) -> int {
        self.id.0 as int
    }

    /// Returns the identifier.
    pub fn id(self) -> (r: XmlViewNodeId)
        ensures
            r.0 == self.place(),
    {
        self.id
    }

    /// Returns the kind.
    pub fn kind(self) -> (r: XmlNodeKind)
        ensures
            r == nodes_of(self.document()@)[self.place()].kind,
    {
        proof {
            use_type_invariant(&self);
        }
        match self.document.node(self.id) {
            Some(n) => n.kind,
            None => XmlNodeKind::Element,
        }
    }

    /// Returns the name of an element or the target of an instruction.
    pub fn name(self) -> (r: Option<&'a str>)
        ensures
            str_option(r) == node_name_in(self.document()@, self.place()),
    {
        self.document.node_name(self.id)
    }

    /// Returns the raw value of a node that is not an element.
    pub fn raw_value(self) -> (r: Option<&'a str>)
        ensures
            str_option(r) == node_value_in(self.document()@, self.place()),
    {
        self.document.node_value(self.id)
    }

    /// Returns the attributes in document order.
    pub fn attributes(self) -> (r: Vec<XmlAttributeView<'a>>)
        ensures
            attribute_pairs(r@) == node_attributes_in(self.document()@, self.place()),
    {
        self.document.tables().node_attributes(
            self.id,
            Ghost(self.document@),
            Ghost(self.document.owner()),
        )
    }

    /// Returns the attribute with a name.
    pub fn attribute(self, name: &str) -> (r: Option<XmlAttributeView<'a>>)
        ensures
            match r {
                Some(x) => first_pair(
                    node_attributes_in(self.document()@, self.place()),
                    0,
                    name@,
                ) == Some(x@),
                None => first_pair(
                    node_attributes_in(self.document()@, self.place()),
                    0,
                    name@,
                ) is None,
            },
    {
        self.document.tables().node_attribute(
            self.id,
            name,
            Ghost(self.document@),
            Ghost(self.document.owner()),
        )
    }

    /// Returns the children in document order.
    pub fn children(self) -> (r: Vec<XmlViewNode<'d, 'a>>)
        ensures
            view_places(r@) == children_in(self.document()@, self.place()),
            forall|i: int| 0 <= i < r@.len() ==> (#[trigger] r@[i]).document() == self.document(),
    {
        let ids = self.document.tables().children(
            self.id,
            Ghost(self.document@),
            Ghost(self.document.owner()),
        );
        self.handles(&ids)
    }

    /// Returns the first child element with a name.
    pub fn child(self, name: &str) -> (r: Option<XmlViewNode<'d, 'a>>)
        ensures
            match r {
                Some(n) => first_named(
                    self.document()@,
                    children_in(self.document()@, self.place()),
                    0,
                    name@,
                ) == Some(n.place()) && n.document() == self.document(),
                None => first_named(
                    self.document()@,
                    children_in(self.document()@, self.place()),
                    0,
                    name@,
                ) is None,
            },
    {
        match self.document.tables().child(
            self.id,
            name,
            Ghost(self.document@),
            Ghost(self.document.owner()),
        ) {
            Some(id) => Some(XmlViewNode { document: self.document, id }),
            None => None,
        }
    }

    /// Returns the child elements with a name.
    pub fn children_named(self, name: &str) -> (r: Vec<XmlViewNode<'d, 'a>>)
        ensures
            view_places(r@) == named_from(
                self.document()@,
                children_in(self.document()@, self.place()),
                0,
                name@,
                Seq::empty(),
            ),
            forall|i: int| 0 <= i < r@.len() ==> (#[trigger] r@[i]).document() == self.document(),
    {
        let ids = self.document.tables().children_named(
            self.id,
            name,
            Ghost(self.document@),
            Ghost(self.document.owner()),
        );
        self.handles(&ids)
    }

    /// The nodes with the identifiers.
    fn handles(self, ids: &Vec<XmlViewNodeId>) -> (r: Vec<XmlViewNode<'d, 'a>>)
        requires
            forall|i: int|
                0 <= i < ids@.len() ==> (#[trigger] ids@[i]).0 < nodes_of(self.document()@).len(),
        ensures
            view_places(r@) == places_of(ids@),
            forall|i: int| 0 <= i < r@.len() ==> (#[trigger] r@[i]).document() == self.document(),
    {
        let mut out: Vec<XmlViewNode<'d, 'a>> = Vec::new();
        let mut k: usize = 0;
        while k < ids.len()
            invariant
                k <= ids@.len(),
                out@.len() == k,
                forall|i: int|
                    0 <= i < ids@.len() ==> (#[trigger] ids@[i]).0 < nodes_of(
                        self.document()@,
                    ).len(),
                forall|i: int|
                    0 <= i < k ==> (#[trigger] out@[i]).document() == self.document()
                        && out@[i].place() == ids@[i].0,
            decreases ids@.len() - k,
        {
            out.push(XmlViewNode { document: self.document, id: ids[k] });
            k = k + 1;
        }
        proof {
            assert(view_places(out@) =~= places_of(ids@));
        }
        out
    }
}

/// The places of nodes.
pub open spec fn view_places(v: Seq<XmlViewNode<'_, '_>>) -> Seq<int> {
    Seq::new(v.len(), |i: int| v[i].place())
}

/// A range of bytes of the source.
#[derive(Clone, Copy, Debug, Eq, PartialEq, Structural)]
pub struct XmlSourceSpan {
    /// The first byte.
    pub start: usize,
    /// The first byte behind the range.
    pub end: usize,
}

/// Where a node stands in the source.
#[derive(Clone, Copy, Debug, Eq, PartialEq, Structural)]
pub struct XmlSourceNode {
    /// The kind.
    pub kind: XmlNodeKind,
    /// The whole node, an element with its tags.
    pub span: XmlSourceSpan,
}

/// Where an attribute stands in the source.
#[derive(Clone, Copy, Debug, Eq, PartialEq, Structural)]
pub struct XmlSourceAttribute {
    /// The whole attribute, its quotation marks with it.
    pub span: XmlSourceSpan,
    /// The name.
    pub name: XmlSourceSpan,
    /// The value without its quotation marks.
    pub value: XmlSourceSpan,
}

/// Where the nodes and attributes of a view stand in the source, each in document order.
pub struct XmlSourceOffsets {
    /// The nodes.
    pub nodes: Vec<XmlSourceNode>,
    /// The attributes.
    pub attributes: Vec<XmlSourceAttribute>,
}

/// A view with its source offsets.
pub struct XmlDocumentViewWithSourceOffsets<'a> {
    /// The view.
    pub view: XmlDocumentView<'a>,
    /// The offsets.
    pub offsets: XmlSourceOffsets,
}

/// `x` is the byte range of the characters `p`.
pub open spec fn is_span(s: Seq<char>, p: (int, int), x: XmlSourceSpan) -> bool {
    x.start == byte_offset(s, p.0) && x.end == byte_offset(s, p.1)
}

/// `x` says where the node `n` stands.
pub open spec fn locates_node(s: Seq<char>, n: FlatModel, x: XmlSourceNode) -> bool {
    x.kind == n.kind && is_span(s, n.span, x.span)
}

/// `x` says where the attribute `a` stands; its closing quotation mark follows the value.
pub open spec fn locates_attribute(s: Seq<char>, a: RawAttribute, x: XmlSourceAttribute) -> bool {
    &&& is_span(s, a.name, x.name)
    &&& is_span(s, a.value, x.value)
    &&& x.span.start == x.name.start
    &&& x.span.end == x.value.end + 1
}

/// `o` says where the nodes and attributes of the document stand.
pub open spec fn locates(m: DocumentModel, o: XmlSourceOffsets) -> bool {
    &&& o.nodes@.len() == nodes_of(m).len()
    &&& forall|k: int|
        0 <= k < nodes_of(m).len() ==> locates_node(
            m.text,
            #[trigger] nodes_of(m)[k],
            o.nodes@[k],
        )
    &&& o.attributes@.len() == attributes_of(m).len()
    &&& forall|k: int|
        0 <= k < attributes_of(m).len() ==> locates_attribute(
            m.text,
            #[trigger] attributes_of(m)[k],
            o.attributes@[k],
        )
}

/// The byte range of characters.
fn span_of(table: &Vec<u32>, from: usize, to: usize, Ghost(s): Ghost<Seq<char>>) -> (r:
    XmlSourceSpan)
    requires
        is_table(s, table@),
        from <= to <= s.len(),
    ensures
        is_span(s, (from as int, to as int), r),
{
    XmlSourceSpan { start: table[from] as usize, end: table[to] as usize }
}

/// The table holds the byte offsets of the characters.
spec fn is_table(s: Seq<char>, table: Seq<u32>) -> bool {
    table.len() == s.len() + 1 && forall|i: int|
        0 <= i <= s.len() ==> #[trigger] table[i] == byte_offset(s, i)
}

/// Says where the nodes and attributes stand.
fn locate_all(p: &Parsed, s: &[char], Ghost(m): Ghost<DocumentModel>) -> (r: XmlSourceOffsets)
    requires
        is_parse_of(*p, m),
        s@ == m.text,
        byte_len(m.text) <= u32::MAX,
    ensures
        locates(m, r),
{
    proof {
        assert(flat_models(p.nodes@).len() == p.nodes@.len());
        assert(raw_attributes(p.attributes@).len() == p.attributes@.len());
    }
    let mut nodes: Vec<XmlSourceNode> = Vec::new();
    let table: Vec<u32> = match byte_table(s) {
        Some(t) => t,
        None => Vec::new(),
    };
    let mut k: usize = 0;
    while k < p.nodes.len()
        invariant
            is_parse_of(*p, m),
            is_table(m.text, table@),
            k <= p.nodes@.len(),
            p.nodes@.len() == nodes_of(m).len(),
            nodes@.len() == k,
            forall|i: int|
                0 <= i < k ==> locates_node(m.text, #[trigger] nodes_of(m)[i], nodes@[i]),
        decreases p.nodes@.len() - k,
    {
        let n = &p.nodes[k];
        assert(nodes_of(m)[k as int] == n@);
        nodes.push(XmlSourceNode { kind: n.kind, span: span_of(&table, n.span.0, n.span.1, Ghost(m.text)) });
        k = k + 1;
    }
    let mut attributes: Vec<XmlSourceAttribute> = Vec::new();
    let mut k: usize = 0;
    while k < p.attributes.len()
        invariant
            is_parse_of(*p, m),
            is_table(m.text, table@),
            byte_len(m.text) <= u32::MAX,
            k <= p.attributes@.len(),
            p.attributes@.len() == attributes_of(m).len(),
            attributes@.len() == k,
            forall|i: int|
                0 <= i < k ==> locates_attribute(
                    m.text,
                    #[trigger] attributes_of(m)[i],
                    attributes@[i],
                ),
        decreases p.attributes@.len() - k,
    {
        let a = &p.attributes[k];
        assert(attributes_of(m)[k as int] == a@);
        let name = span_of(&table, a.name.0, a.name.1, Ghost(m.text));
        let value = span_of(&table, a.value.0, a.value.1, Ghost(m.text));
        proof {
            crate::text::lemma_byte_offset_monotone(
                m.text,
                a.value.1 + 1,
                m.text.len() as int,
            );
        }
        attributes.push(
            XmlSourceAttribute {
                span: XmlSourceSpan { start: name.start, end: value.end + 1 },
                name,
                value,
            },
        );
        k = k + 1;
    }
    XmlSourceOffsets { nodes, attributes }
}

/// Parses a view and, if asked to, says where its nodes stand.
fn parse_view<'a>(input: &'a str, config: ParserConfig, offsets: bool, token: u64) -> (r: XmlResult<
    (XmlDocumentView<'a>, Option<XmlSourceOffsets>),
>)
    ensures
        match r {
            Ok((d, o)) => view_parse(input@, config@) == Ok::<DocumentModel, ErrorModel>(d@)
                && d.owner() == token && o is Some == offsets && (o is Some ==> locates(
                d@,
                o->Some_0,
            )),
            Err(e) => view_parse(input@, config@) == Err::<DocumentModel, ErrorModel>(e@),
        },
{
    let source = Source::new(input);
    let p = match parse_chars(source.chars.as_slice(), &config) {
        Err(f) => {
            return Err(locate(&source, f));
        },
        Ok(p) => p,
    };
    let ghost m = parsed(input@, config@)->Ok_0;
    proof {
        lemma_parsed_well_built(input@, config@);
    }
    let stats = count_nodes(&p, Ghost(m));
    let (nodes, attributes) = match record(&p, source.chars.as_slice(), token, Ghost(m)) {
        None => {
            let end: usize = source.chars.len();
            return Err(
                locate(&source, Fault { kind: XmlErrorKind::InvalidDocumentStructure, at: end }),
            );
        },
        Some(x) => x,
    };
    let located = if offsets {
        Some(locate_all(&p, source.chars.as_slice(), Ghost(m)))
    } else {
        None
    };
    let view = XmlDocumentView {
        input,
        nodes,
        attributes,
        stats,
        version: p.prolog.version,
        token,
        model: Ghost(m),
    };
    Ok((view, located))
}

/// Parses a view with the default options.
pub fn parse_document_view<'a>(input: &'a str) -> (r: XmlResult<XmlDocumentView<'a>>)
    ensures
        match r {
            Ok(d) => view_parse(input@, crate::config::default_config()) == Ok::<
                DocumentModel,
                ErrorModel,
            >(d@),
            Err(e) => view_parse(input@, crate::config::default_config()) == Err::<
                DocumentModel,
                ErrorModel,
            >(e@),
        },
{
    parse_document_view_with_config(input, ParserConfig::default())
}

/// Parses a view.
pub fn parse_document_view_with_config<'a>(input: &'a str, config: ParserConfig) -> (r: XmlResult<
    XmlDocumentView<'a>,
>)
    ensures
        match r {
            Ok(d) => view_parse(input@, config@) == Ok::<DocumentModel, ErrorModel>(d@),
            Err(e) => view_parse(input@, config@) == Err::<DocumentModel, ErrorModel>(e@),
        },
{
    let token: u64 = fresh_token();
    match parse_view(input, config, false, token) {
        Ok((view, _)) => Ok(view),
        Err(e) => Err(e),
    }
}

/// Parses a view with its source offsets and the default options.
pub fn parse_document_view_with_source_offsets<'a>(input: &'a str) -> (r: XmlResult<
    XmlDocumentViewWithSourceOffsets<'a>,
>)
    ensures
        match r {
            Ok(d) => view_parse(input@, crate::config::default_config()) == Ok::<
                DocumentModel,
                ErrorModel,
            >(d.view@) && locates(d.view@, d.offsets),
            Err(e) => view_parse(input@, crate::config::default_config()) == Err::<
                DocumentModel,
                ErrorModel,
            >(e@),
        },
{
    parse_document_view_with_config_and_source_offsets(input, ParserConfig::default())
}

/// Parses a view with its source offsets.
pub fn parse_document_view_with_config_and_source_offsets<'a>(
    input: &'a str,
    config: ParserConfig,
) -> (r: XmlResult<XmlDocumentViewWithSourceOffsets<'a>>)
    ensures
        match r {
            Ok(d) => view_parse(input@, config@) == Ok::<DocumentModel, ErrorModel>(d.view@)
                && locates(d.view@, d.offsets),
            Err(e) => view_parse(input@, config@) == Err::<DocumentModel, ErrorModel>(e@),
        },
{
    let token: u64 = fresh_token();
    match parse_view(input, config, true, token) {
        Ok((view, Some(offsets))) => Ok(XmlDocumentViewWithSourceOffsets { view, offsets }),
        Ok((view, None)) => Ok(
            XmlDocumentViewWithSourceOffsets {
                view,
                offsets: XmlSourceOffsets { nodes: Vec::new(), attributes: Vec::new() },
            },
        ),
        Err(e) => Err(e),
    }
}

} // verus!
