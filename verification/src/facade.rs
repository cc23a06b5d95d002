//! Editable documents.

use vstd::prelude::*;

use std::rc::Rc;

use crate::builder::{ended, started, BuilderModel, XmlDomElementBuilder};
use crate::compact::{
    compact_parse, instruction_option, kept_declaration, kept_doctype,
    parse_compact_document_with_config, XmlCompactDocument,
};
use crate::config::{default_config, preserving_config, ConfigModel, ParserConfig};
use crate::copying::{clone_tree, release_tree};
use crate::document::{doctype_option, DocumentModel};
use crate::dom::{
    clone_nodes, node_models, release_node, DoctypeModel, InstructionModel, NodeModel, XmlDoctype,
    XmlNode, XmlNodeKind, XmlProcessingInstruction, XmlTreeStats,
};
use crate::error::{ErrorKindModel, ErrorModel, XmlError, XmlErrorKind, XmlResult};
use crate::growth::grown;
use crate::handle::{outcome, plain_outcome, DomErrorModel, HandleModel, XmlDomError, XmlDomNode};
use crate::identity::{fresh_token, other_token};
use crate::lexeme::XmlVersion;
use crate::mutation::{
    checked, doctype_fault, node_fault, text_fault, validate_characters, validate_doctype,
    validate_node, MutationModel, XmlMutationError,
};
use crate::parser::{
    checked_document, compact_parse_bytes, error_option, error_within, parse_compact_document,
    parse_compact_document_bytes, parse_compact_document_bytes_tolerant,
    parse_compact_document_bytes_tolerant_with_config, parse_compact_document_bytes_with_config,
    parse_compact_document_tolerant, parse_compact_document_tolerant_with_config, tolerant_parse,
    tolerant_parse_bytes, validate_document, OutcomeModel, XmlParseOutcome, XmlParser,
};
use crate::serialize::{
    default_options, doctype_text, document_text, encode_text, encoded, prolog_text,
    write_declaration, write_doctype, write_node, write_nodes, write_range, PlainDocument,
    XmlQuoteStyle, XmlSerializeOptions, XmlWriteError,
};
use crate::syntax::{is_name_char, is_name_start_char, name_part, name_start};
use crate::tables::nodes_of;
use crate::text::{byte_len, byte_offset, lemma_byte_offset_monotone, push_text, string_of, Source};
use crate::tree::{
    find_path, has_path, lemma_path_found, node_at, node_ref, path_to, plain_text, size, sizes,
    snapshot, tree_attribute_models, tree_models, DomNode, DomText, Reading, TreeAttribute,
    TreeModel,
};

verus! {

/// The state of an editable document.
#[derive(Debug)]
pub struct DomState {
    /// The token of the document as long as it lives.
    pub lineage: u64,
    /// The token of what the document holds; another one whenever that is replaced as a whole.
    pub document: u64,
    /// How often what the document holds was replaced as a whole.
    pub generation: u64,
    /// The number of the next new node.
    pub next_id: u64,
    /// The root element.
    pub root: DomNode,
    pub declaration: Option<XmlProcessingInstruction>,
    pub doctype: Option<XmlDoctype>,
    /// How many of the nodes before the root stand before the document type declaration.
    pub doctype_index: usize,
    pub before: Vec<XmlNode>,
    pub after: Vec<XmlNode>,
    /// How values that are kept as they are written are to be read.
    pub reading: Reading,
    /// The text that was parsed.
    pub source: String,
    /// The document was edited.
    pub edited: bool,
    /// Unedited, the document is written as the text that was parsed.
    pub verbatim: bool,
}

/// The state of an editable document as a mathematical value.
#[verifier::ext_equal]
pub struct StateModel {
    pub lineage: u64,
    pub document: u64,
    pub generation: u64,
    pub next_id: u64,
    pub root: TreeModel,
    pub declaration: Option<InstructionModel>,
    pub doctype: Option<DoctypeModel>,
    pub doctype_index: usize,
    pub before: Seq<NodeModel>,
    pub after: Seq<NodeModel>,
    pub reading: Reading,
    pub source: Seq<char>,
    pub edited: bool,
    pub verbatim: bool,
}

impl View for DomState {
    type V = StateModel;

    open spec fn view(&self) -> StateModel {
        StateModel {
            lineage: self.lineage,
            document: self.document,
            generation: self.generation,
            next_id: self.next_id,
            root: self.root.model(),
            declaration: instruction_option(self.declaration),
            doctype: doctype_option(self.doctype),
            doctype_index: self.doctype_index,
            before: node_models(self.before@),
            after: node_models(self.after@),
            reading: self.reading,
            source: self.source@,
            edited: self.edited,
            verbatim: self.verbatim,
        }
    }
}

/// An editable document.
///
/// Its handles share the anchor, which says whether there are any.
#[derive(Debug)]
pub struct XmlDom {
    inner: Box<DomState>,
    anchor: Rc<()>,
}

impl View for XmlDom {
    type V = StateModel;

    closed spec fn view(&self) -> StateModel {
        self.inner@
    }
}

/// A document on its way to another thread.
#[derive(Debug)]
pub struct XmlDomSend {
    inner: Box<DomState>,
}

impl View for XmlDomSend {
    type V = StateModel;

    closed spec fn view(&self) -> StateModel {
        self.inner@
    }
}

/// The editable form of a parsed document.
pub open spec fn opened(
    m: DocumentModel,
    c: ConfigModel,
    lineage: u64,
    document: u64,
    verbatim: bool,
) -> StateModel {
    StateModel {
        lineage,
        document,
        generation: 0,
        next_id: nodes_of(m).len() as u64,
        root: grown(m.text, m.root, 0),
        declaration: kept_declaration(m, c),
        doctype: kept_doctype(m, c),
        doctype_index: m.doctype_index as usize,
        before: m.before,
        after: m.after,
        reading: Reading { version: m.version, policy: c.attribute_whitespace },
        source: m.text,
        edited: false,
        verbatim,
    }
}

/// A document with a root element that has nothing in it.
pub open spec fn blank(name: Seq<char>, lineage: u64, document: u64, generation: u64) -> StateModel {
    StateModel {
        lineage,
        document,
        generation,
        next_id: 1,
        root: TreeModel {
            id: 0,
            origin: Some(1),
            kind: XmlNodeKind::Element,
            name,
            value: plain_text(Seq::empty()),
            attributes: Seq::empty(),
            children: Seq::empty(),
            recorded: true,
            touched: false,
        },
        declaration: None,
        doctype: None,
        doctype_index: 0,
        before: Seq::empty(),
        after: Seq::empty(),
        reading: Reading {
            version: XmlVersion::Xml10,
            policy: default_config().attribute_whitespace,
        },
        source: seq!['<'] + name + "/>"@,
        edited: false,
        verbatim: true,
    }
}

/// What is wrong with the name of a root element, in the text of the document.
pub open spec fn root_name_fault(name: Seq<char>) -> Option<ErrorModel> {
    if name.len() == 0 || !name_start(name[0]) {
        Some(ErrorModel { kind: ErrorKindModel::InvalidName, byte: 1 })
    } else {
        match first_other(name, 1) {
            Some(i) => Some(
                ErrorModel {
                    kind: ErrorKindModel::InvalidName,
                    byte: byte_offset(name, i) as int + 1,
                },
            ),
            None => if byte_len(name) > u32::MAX {
                Some(ErrorModel { kind: ErrorKindModel::InvalidName, byte: 1 })
            } else {
                None
            },
        }
    }
}

/// The first character from `i` on that cannot stand in a name.
pub open spec fn first_other(s: Seq<char>, i: int) -> Option<int>
    decreases s.len() - i,
{
    if i < 0 || i >= s.len() {
        None
    } else if !name_part(s[i]) {
        Some(i)
    } else {
        first_other(s, i + 1)
    }
}

/// The generation after `g`.
pub open spec fn next_generation(g: u64) -> u64 {
    if g == u64::MAX {
        0
    } else {
        (g + 1) as u64
    }
}

/// The path to the node of a handle.
pub open spec fn resolved(s: StateModel, h: HandleModel) -> Result<Seq<usize>, DomErrorModel> {
    if h.lineage != s.lineage {
        Err(DomErrorModel::WrongDocument)
    } else if h.document != s.document || h.generation != s.generation {
        Err(DomErrorModel::StaleHandle)
    } else {
        match path_to(s.root, h.local) {
            Some(p) => Ok(p),
            None => Err(DomErrorModel::DeletedHandle),
        }
    }
}

/// The node of a handle.
pub open spec fn target(s: StateModel, h: HandleModel) -> Result<TreeModel, DomErrorModel> {
    match resolved(s, h) {
        Ok(p) => Ok(node_at(s.root, p)),
        Err(e) => Err(e),
    }
}

/// The handle of a node of the document.
pub open spec fn handle_of(s: StateModel, id: u64) -> HandleModel {
    HandleModel { lineage: s.lineage, document: s.document, generation: s.generation, local: id }
}

/// A parse into an editable document returned what `m` says.
pub open spec fn dom_agrees(
    r: XmlResult<XmlDom>,
    m: Result<DocumentModel, ErrorModel>,
    c: ConfigModel,
    verbatim: bool,
) -> bool {
    match r {
        Ok(d) => m is Ok && d@ == opened(m->Ok_0, c, d@.lineage, d@.document, verbatim),
        Err(e) => m == Err::<DocumentModel, ErrorModel>(e@),
    }
}

/// A tolerant parse into an editable document returned what `m` says.
pub open spec fn dom_outcome_agrees(
    r: XmlResult<XmlParseOutcome<XmlDom>>,
    m: Result<OutcomeModel<DocumentModel>, ErrorModel>,
    c: ConfigModel,
) -> bool {
    match r {
        Ok(o) => m is Ok && o.value@ == opened(
            m->Ok_0.value,
            c,
            o.value@.lineage,
            o.value@.document,
            false,
        ) && error_option(o.diagnostic) == m->Ok_0.diagnostic && o.consumed_bytes
            == m->Ok_0.consumed,
        Err(e) => m == Err::<OutcomeModel<DocumentModel>, ErrorModel>(e@),
    }
}

/// Checks the name of a root element.
fn check_root_name(name: &str) -> (r: Result<(), XmlError>)
    ensures
        match r {
            Ok(_) => root_name_fault(name@) is None,
            Err(e) => root_name_fault(name@) == Some(e@),
        },
{
    let source = Source::new(name);
    let n: usize = source.chars.len();
    if n == 0 || !is_name_start_char(source.chars[0]) {
        return Err(XmlError::new(XmlErrorKind::InvalidName, 1));
    }
    let mut i: usize = 1;
    while i < n
        invariant
            1 <= i <= n,
            n == name@.len(),
            source.wf(),
            source.text@ == name@,
            source.chars@ == name@,
            name_start(name@[0]),
            first_other(name@, 1) == first_other(name@, i as int),
        decreases n - i,
    {
        if !is_name_char(source.chars[i]) {
            let byte: usize = source.offset(i);
            proof {
                lemma_byte_offset_monotone(name@, i + 1, n as int);
            }
            return Err(XmlError::new(XmlErrorKind::InvalidName, byte + 1));
        }
        i = i + 1;
    }
    let bytes: usize = source.offset(n);
    if bytes > u32::MAX as usize {
        return Err(XmlError::new(XmlErrorKind::InvalidName, 1));
    }
    Ok(())
}

/// A document with a root element that has nothing in it.
fn blank_state(name: &str, lineage: u64, document: u64, generation: u64) -> (r: DomState)
    ensures
        r@ == blank(name@, lineage, document, generation),
{
    let root = DomNode {
        id: 0,
        origin: Some(1),
        kind: XmlNodeKind::Element,
        name: name.to_owned(),
        value: DomText { text: String::new(), raw: false },
        attributes: Vec::new(),
        children: Vec::new(),
        recorded: true,
        touched: false,
    };
    let mut source: Vec<char> = Vec::new();
    source.push('<');
    push_text(&mut source, name);
    push_text(&mut source, "/>");
    let r = DomState {
        lineage,
        document,
        generation,
        next_id: 1,
        root,
        declaration: None,
        doctype: None,
        doctype_index: 0,
        before: Vec::new(),
        after: Vec::new(),
        reading: Reading {
            version: XmlVersion::Xml10,
            policy: ParserConfig::default().attribute_whitespace_policy(),
        },
        source: string_of(source.as_slice()),
        edited: false,
        verbatim: true,
    };
    proof {
        assert(tree_attribute_models(r.root.attributes@) =~= Seq::<TreeAttribute>::empty());
        assert(tree_models(r.root.children@) =~= Seq::<TreeModel>::empty());
        assert(node_models(r.before@) =~= Seq::<NodeModel>::empty());
        assert(node_models(r.after@) =~= Seq::<NodeModel>::empty());
        assert(r.source@ =~= seq!['<'] + name@ + "/>"@);
    }
    r
}

/// Copies an optional instruction.
fn copy_instruction(i: Option<&XmlProcessingInstruction>) -> (r: Option<XmlProcessingInstruction>)
    ensures
        instruction_option(r) == (match i {
            Some(x) => Some(x@),
            None => None,
        }),
{
    match i {
        Some(x) => Some(x.clone()),
        None => None,
    }
}

/// Copies an optional document type declaration.
fn copy_doctype(d: Option<&XmlDoctype>) -> (r: Option<XmlDoctype>)
    ensures
        doctype_option(r) == (match d {
            Some(x) => Some(x@),
            None => None,
        }),
{
    match d {
        Some(x) => Some(x.clone()),
        None => None,
    }
}

/// Opens a parsed document.
fn open(compact: &XmlCompactDocument, verbatim: bool) -> (r: XmlDom)
    ensures
        r@ == opened(compact@, compact.options(), r@.lineage, r@.document, verbatim),
{
    let nodes = compact.nodes();
    let next_id: u64 = nodes.len() as u64;
    let version = compact.version();
    let policy = compact.parse_options().attribute_whitespace_policy();
    let before = copy_nodes(compact.misc_before_root());
    let after = copy_nodes(compact.misc_after_root());
    let state = DomState {
        lineage: fresh_token(),
        document: fresh_token(),
        generation: 0,
        next_id,
        root: compact.grow_root(),
        declaration: copy_instruction(compact.declaration()),
        doctype: copy_doctype(compact.doctype()),
        doctype_index: compact.doctype_index(),
        before,
        after,
        reading: Reading { version, policy },
        source: compact.input().to_owned(),
        edited: false,
        verbatim,
    };
    XmlDom { inner: Box::new(state), anchor: Rc::new(()) }
}

/// Copies nodes.
fn copy_nodes(n: &[XmlNode]) -> (r: Vec<XmlNode>)
    ensures
        node_models(r@) == node_models(n@),
{
    let mut out: Vec<XmlNode> = Vec::new();
    let mut k: usize = 0;
    while k < n.len()
        invariant
            k <= n@.len(),
            out@.len() == k,
            forall|i: int| 0 <= i < k ==> (#[trigger] out@[i]).model() == n@[i].model(),
        decreases n@.len() - k,
    {
        out.push(n[k].clone());
        k = k + 1;
    }
    proof {
        assert(node_models(out@) =~= node_models(n@));
    }
    out
}

/// Copies a state.
fn copy_state(s: &DomState, lineage: u64, document: u64, generation: u64) -> (r: DomState)
    ensures
        r@ == (StateModel { lineage, document, generation, ..s@ }),
{
    DomState {
        lineage,
        document,
        generation,
        next_id: s.next_id,
        root: clone_tree(&s.root),
        declaration: copy_instruction(s.declaration.as_ref()),
        doctype: copy_doctype(s.doctype.as_ref()),
        doctype_index: s.doctype_index,
        before: clone_nodes(&s.before),
        after: clone_nodes(&s.after),
        reading: s.reading,
        source: s.source.clone(),
        edited: s.edited,
        verbatim: s.verbatim,
    }
}

/// Opens the outcome of a tolerant parse.
fn open_outcome(
    r: XmlResult<XmlParseOutcome<XmlCompactDocument>>,
    Ghost(m): Ghost<Result<OutcomeModel<DocumentModel>, ErrorModel>>,
    Ghost(c): Ghost<ConfigModel>,
) -> (o: XmlResult<XmlParseOutcome<XmlDom>>)
    requires
        crate::parser::outcome_agrees(r, m, c),
    ensures
        dom_outcome_agrees(o, m, c),
{
    match r {
        Err(e) => Err(e),
        Ok(x) => Ok(
            XmlParseOutcome {
                value: open(&x.value, false),
                diagnostic: x.diagnostic,
                consumed_bytes: x.consumed_bytes,
            },
        ),
    }
}

impl XmlDom {
    /// The state.
    pub(crate) fn state(&self) -> (r: &DomState)
        ensures
            r@ == self@,
    {
        &self.inner
    }

    /// The state, to be changed.
    pub(crate) fn state_mut(&mut self) -> (r: &mut DomState)
        ensures
            (*r)@ == old(self)@,
            final(self)@ == final(r)@,
    {
        &mut *self.inner
    }

    /// Makes a document with an empty root element.
    pub fn new(root_name: &str) -> (r: XmlResult<Self>)
        ensures
            match r {
                Ok(d) => root_name_fault(root_name@) is None && d@ == blank(
                    root_name@,
                    d@.lineage,
                    d@.document,
                    0,
                ),
                Err(e) => root_name_fault(root_name@) == Some(e@),
            },
    {
        match check_root_name(root_name) {
            Err(e) => Err(e),
            Ok(_) => Ok(
                XmlDom {
                    inner: Box::new(blank_state(root_name, fresh_token(), fresh_token(), 0)),
                    anchor: Rc::new(()),
                },
            ),
        }
    }

    /// Builds a document.
    pub fn build<F: FnOnce(&mut XmlDomElementBuilder)>(root_name: &str, build: F) -> (r: XmlResult<
        Self,
    >)
        requires
            forall|root: &mut XmlDomElementBuilder| call_requires(build, (root,)),
        ensures
            exists|root: &mut XmlDomElementBuilder|
                root@ == started(Seq::empty(), None, root_name@) && built(r, ended(final(root)@))
                    && #[trigger] call_ensures(build, (root,), ()),
    {
        Self::build_with_capacity(root_name, 0, build)
    }

    /// Builds a document, with room for a text of the given size.
    pub fn build_with_capacity<F: FnOnce(&mut XmlDomElementBuilder)>(
        root_name: &str,
        source_capacity: usize,
        build: F,
    ) -> (r: XmlResult<Self>)
        requires
            forall|root: &mut XmlDomElementBuilder| call_requires(build, (root,)),
        ensures
            exists|root: &mut XmlDomElementBuilder|
                root@ == started(Seq::empty(), None, root_name@) && built(r, ended(final(root)@))
                    && #[trigger] call_ensures(build, (root,), ()),
    {
        let mut root = XmlDomElementBuilder::start(root_name, source_capacity);
        build(&mut root);
        root.end();
        match root.into_text() {
            Err(e) => Err(e),
            Ok(text) => match parse_compact_document(text) {
                Err(e) => Err(e),
                Ok(compact) => Ok(open(&compact, true)),
            },
        }
    }

    /// Parses a document; everything is preserved.
    pub fn parse(input: &str) -> (r: XmlResult<Self>)
        ensures
            dom_agrees(r, compact_parse(input@, preserving_config()), preserving_config(), false),
            error_within(r, byte_len(input@) as int),
    {
        match parse_compact_document(input.to_owned()) {
            Err(e) => Err(e),
            Ok(compact) => Ok(open(&compact, false)),
        }
    }

    /// Parses a document.
    pub fn parse_with_config(input: &str, config: ParserConfig) -> (r: XmlResult<Self>)
        ensures
            dom_agrees(r, compact_parse(input@, config@), config@, false),
            error_within(r, byte_len(input@) as int),
    {
        match parse_compact_document_with_config(input.to_owned(), config) {
            Err(e) => Err(e),
            Ok(compact) => Ok(open(&compact, false)),
        }
    }

    /// Parses as much of a document as makes sense; everything is preserved.
    pub fn parse_tolerant(input: &str) -> (r: XmlResult<XmlParseOutcome<Self>>)
        ensures
            dom_outcome_agrees(
                r,
                tolerant_parse(input@, preserving_config()),
                preserving_config(),
            ),
    {
        open_outcome(
            parse_compact_document_tolerant(input.to_owned()),
            Ghost(tolerant_parse(input@, preserving_config())),
            Ghost(preserving_config()),
        )
    }

    /// Parses as much of a document as makes sense.
    pub fn parse_tolerant_with_config(input: &str, config: ParserConfig) -> (r: XmlResult<
        XmlParseOutcome<Self>,
    >)
        ensures
            dom_outcome_agrees(r, tolerant_parse(input@, config@), config@),
    {
        open_outcome(
            parse_compact_document_tolerant_with_config(input.to_owned(), config),
            Ghost(tolerant_parse(input@, config@)),
            Ghost(config@),
        )
    }

    /// Decodes bytes and parses a document; everything is preserved.
    pub fn parse_bytes(input: &[u8]) -> (r: XmlResult<Self>)
        ensures
            dom_agrees(
                r,
                compact_parse_bytes(input@, preserving_config()),
                preserving_config(),
                false,
            ),
    {
        match parse_compact_document_bytes(input) {
            Err(e) => Err(e),
            Ok(compact) => Ok(open(&compact, false)),
        }
    }

    /// Decodes bytes and parses a document.
    pub fn parse_bytes_with_config(input: &[u8], config: ParserConfig) -> (r: XmlResult<Self>)
        ensures
            dom_agrees(r, compact_parse_bytes(input@, config@), config@, false),
    {
        match parse_compact_document_bytes_with_config(input, config) {
            Err(e) => Err(e),
            Ok(compact) => Ok(open(&compact, false)),
        }
    }

    /// Decodes bytes and parses as much of a document as makes sense; everything is preserved.
    pub fn parse_bytes_tolerant(input: &[u8]) -> (r: XmlResult<XmlParseOutcome<Self>>)
        ensures
            dom_outcome_agrees(
                r,
                tolerant_parse_bytes(input@, preserving_config()),
                preserving_config(),
            ),
    {
        open_outcome(
            parse_compact_document_bytes_tolerant(input),
            Ghost(tolerant_parse_bytes(input@, preserving_config())),
            Ghost(preserving_config()),
        )
    }

    /// Decodes bytes and parses as much of a document as makes sense.
    pub fn parse_bytes_tolerant_with_config(input: &[u8], config: ParserConfig) -> (r: XmlResult<
        XmlParseOutcome<Self>,
    >)
        ensures
            dom_outcome_agrees(r, tolerant_parse_bytes(input@, config@), config@),
    {
        open_outcome(
            parse_compact_document_bytes_tolerant_with_config(input, config),
            Ghost(tolerant_parse_bytes(input@, config@)),
            Ghost(config@),
        )
    }

    /// Makes a parsed document editable.
    pub fn from_compact(compact: XmlCompactDocument) -> (r: Self)
        ensures
            r@ == opened(compact@, compact.options(), r@.lineage, r@.document, false),
    {
        open(&compact, false)
    }

    /// Makes an independent document with the same content.
    pub fn deep_clone(&self) -> (r: Self)
        ensures
            r@ == (StateModel {
                lineage: r@.lineage,
                document: r@.document,
                generation: 0,
                ..self@
            }),
            r@.lineage != self@.lineage,
            r@.document != self@.document,
    {
        let lineage: u64 = other_token(self.inner.lineage, self.inner.lineage);
        let document: u64 = other_token(self.inner.document, self.inner.document);
        XmlDom {
            inner: Box::new(copy_state(&self.inner, lineage, document, 0)),
            anchor: Rc::new(()),
        }
    }

    /// Makes the document ready to go to another thread.
    ///
    /// While one of its handles is still held, the document is given back instead. That depends on
    /// what else the program holds, so no clause says which of the two comes.
    pub fn try_into_send(self) -> (r: Result<XmlDomSend, Self>)
        ensures
            match r {
                Ok(d) => d@ == self@,
                Err(d) => d@ == self@,
            },
    {
        let XmlDom { inner, anchor } = self;
        match Rc::try_unwrap(anchor) {
            Ok(_) => Ok(XmlDomSend { inner }),
            Err(anchor) => Err(XmlDom { inner, anchor }),
        }
    }

    /// Replaces what the document holds by an empty root element. Handles go stale.
    pub fn reset(&mut self, root_name: &str) -> (r: XmlResult<()>)
        ensures
            match r {
                Ok(_) => root_name_fault(root_name@) is None && final(self)@ == blank(
                    root_name@,
                    old(self)@.lineage,
                    final(self)@.document,
                    next_generation(old(self)@.generation),
                ) && final(self)@.document != old(self)@.document,
                Err(e) => root_name_fault(root_name@) == Some(e@) && final(self)@ == old(self)@,
            },
    {
        if let Err(e) = check_root_name(root_name) {
            return Err(e);
        }
        let generation: u64 = self.inner.generation.wrapping_add(1);
        let document: u64 = other_token(self.inner.document, self.inner.document);
        let mut state = Box::new(
            blank_state(root_name, self.inner.lineage, document, generation),
        );
        std::mem::swap(&mut self.inner, &mut state);
        release_tree(state.root);
        Ok(())
    }

    /// Replaces what the document holds by a copy of what another one holds. Handles go stale.
    pub fn copy_from(&mut self, source: &Self) -> (r: Result<(), XmlDomError>)
        ensures
            r is Ok,
            final(self)@ == (StateModel {
                lineage: old(self)@.lineage,
                document: final(self)@.document,
                generation: next_generation(old(self)@.generation),
                ..source@
            }),
            final(self)@.document != old(self)@.document,
            final(self)@.document != source@.document,
    {
        let generation: u64 = self.inner.generation.wrapping_add(1);
        let document: u64 = other_token(self.inner.document, source.inner.document);
        let mut state = Box::new(
            copy_state(&source.inner, self.inner.lineage, document, generation),
        );
        std::mem::swap(&mut self.inner, &mut state);
        release_tree(state.root);
        Ok(())
    }
}

impl Clone for XmlDom {
    fn clone(&self) -> (r: Self)
        ensures
            r@ == (StateModel {
                lineage: r@.lineage,
                document: r@.document,
                generation: 0,
                ..self@
            }),
            r@.lineage != self@.lineage,
            r@.document != self@.document,
    {
        self.deep_clone()
    }
}

impl XmlDomSend {
    /// Returns the document.
    pub fn into_local(self) -> (r: XmlDom)
        ensures
            r@ == self@,
    {
        XmlDom { inner: self.inner, anchor: Rc::new(()) }
    }
}

/// A builder made the document.
pub open spec fn built(r: XmlResult<XmlDom>, b: BuilderModel) -> bool {
    match b.error {
        Some(e) => r matches Err(x) && x@ == e,
        None => dom_agrees(
            r,
            compact_parse(b.text, preserving_config()),
            preserving_config(),
            true,
        ),
    }
}

/// A count that stops at the largest `usize`.
pub open spec fn capped(n: nat) -> usize {
    if n <= usize::MAX {
        n as usize
    } else {
        usize::MAX
    }
}

/// How many elements a tree has.
pub open spec fn element_count(t: TreeModel) -> nat
    decreases t, 0int,
{
    (if t.kind == XmlNodeKind::Element {
        1nat
    } else {
        0nat
    }) + element_counts(t.children, t.children.len() as int)
}

/// How many elements the first `k` trees have.
pub open spec fn element_counts(n: Seq<TreeModel>, k: int) -> nat
    decreases n, k,
{
    if k <= 0 || k > n.len() {
        0
    } else {
        element_counts(n, k - 1) + element_count(n[k - 1])
    }
}

/// How many attributes a tree has.
pub open spec fn attribute_count(t: TreeModel) -> nat
    decreases t, 0int,
{
    t.attributes.len() + attribute_counts(t.children, t.children.len() as int)
}

/// How many attributes the first `k` trees have.
pub open spec fn attribute_counts(n: Seq<TreeModel>, k: int) -> nat
    decreases n, k,
{
    if k <= 0 || k > n.len() {
        0
    } else {
        attribute_counts(n, k - 1) + attribute_count(n[k - 1])
    }
}

/// The counts of a tree.
pub open spec fn stats_of(t: TreeModel) -> XmlTreeStats {
    XmlTreeStats {
        elements: capped(element_count(t)),
        attributes: capped(attribute_count(t)),
        nodes: capped(size(t)),
    }
}

/// How many nodes stand beside the root: declaration, document type declaration, and the nodes
/// before and after the root.
pub open spec fn outer_count(s: StateModel) -> nat {
    (if s.declaration is Some {
        1nat
    } else {
        0nat
    }) + (if s.doctype is Some {
        1nat
    } else {
        0nat
    }) + s.before.len() + s.after.len()
}

/// The counts of a whole document.
pub open spec fn document_stats_of(s: StateModel) -> XmlTreeStats {
    XmlTreeStats {
        elements: capped(element_count(s.root)),
        attributes: capped(attribute_count(s.root)),
        nodes: capped(size(s.root) + outer_count(s)),
    }
}

/// The sum of two counts.
pub(crate) fn capped_sum(a: usize, b: usize) -> (r: usize)
    ensures
        r == capped((a + b) as nat),
{
    if a <= usize::MAX - b {
        a + b
    } else {
        usize::MAX
    }
}

/// How many elements, attributes and nodes the trees from `k` on have.
spec fn later_counts(n: Seq<TreeModel>, k: int) -> (nat, nat, nat)
    decreases n.len() - k,
{
    if k < 0 || k >= n.len() {
        (0, 0, 0)
    } else {
        let x = later_counts(n, k + 1);
        (element_count(n[k]) + x.0, attribute_count(n[k]) + x.1, size(n[k]) + x.2)
    }
}

/// The counts of trees are those of the first trees and those of the rest.
proof fn lemma_later_counts(n: Seq<TreeModel>, k: int)
    requires
        0 <= k <= n.len(),
    ensures
        element_counts(n, n.len() as int) == element_counts(n, k) + later_counts(n, k).0,
        attribute_counts(n, n.len() as int) == attribute_counts(n, k) + later_counts(n, k).1,
        sizes(n, n.len() as int) == sizes(n, k) + later_counts(n, k).2,
    decreases n.len() - k,
{
    if k < n.len() {
        lemma_later_counts(n, k + 1);
    }
}

/// The counts that are still to be added: for each list those from an index on.
spec fn pending_counts(st: Seq<(&Vec<DomNode>, usize)>) -> (nat, nat, nat)
    decreases st.len(),
{
    if st.len() == 0 {
        (0, 0, 0)
    } else {
        let x = pending_counts(st.drop_last());
        let y = later_counts(tree_models(st.last().0@), st.last().1 as int);
        (x.0 + y.0, x.1 + y.1, x.2 + y.2)
    }
}

/// Counts a tree.
///
/// The lists that are not done wait on a stack, so that the depth of the tree does not matter.
fn count_stats(n: &DomNode) -> (r: XmlTreeStats)
    ensures
        r == stats_of(n.model()),
{
    let mut elements: usize = if n.kind == XmlNodeKind::Element {
        1
    } else {
        0
    };
    let mut attributes: usize = n.attributes.len();
    let mut nodes: usize = 1;
    let ghost mut all = (elements as nat, attributes as nat, nodes as nat);
    let ghost t = n.model();
    let mut stack: Vec<(&Vec<DomNode>, usize)> = Vec::new();
    stack.push((&n.children, 0));
    proof {
        lemma_later_counts(t.children, 0);
        assert(stack@.drop_last() =~= Seq::<(&Vec<DomNode>, usize)>::empty());
        assert(pending_counts(stack@.drop_last()) == (0nat, 0nat, 0nat));
    }
    while stack.len() > 0
        invariant
            elements == capped(all.0),
            attributes == capped(all.1),
            nodes == capped(all.2),
            all.0 + pending_counts(stack@).0 == element_count(t),
            all.1 + pending_counts(stack@).1 == attribute_count(t),
            all.2 + pending_counts(stack@).2 == size(t),
        decreases pending_counts(stack@).2, stack@.len(),
    {
        let ghost before = stack@;
        if let Some((list, k)) = stack.pop() {
            let ghost m = tree_models(list@);
            let ghost below = stack@;
            proof {
                assert(before.drop_last() =~= below);
                assert(before.last() == (list, k));
            }
            if k < list.len() {
                let x = &list[k];
                let own: usize = if x.kind == XmlNodeKind::Element {
                    1
                } else {
                    0
                };
                elements = capped_sum(elements, own);
                attributes = capped_sum(attributes, x.attributes.len());
                nodes = capped_sum(nodes, 1);
                stack.push((list, k + 1));
                let ghost held = stack@;
                stack.push((&x.children, 0));
                proof {
                    let c = tree_models(x.children@);
                    all = (all.0 + own as nat, all.1 + x.attributes@.len(), all.2 + 1);
                    assert(m[k as int] == x.model());
                    lemma_later_counts(c, 0);
                    assert(held.drop_last() =~= below);
                    assert(held.last() == (list, (k + 1) as usize));
                    assert(stack@.drop_last() =~= held);
                    let b = pending_counts(below);
                    let y = later_counts(m, k + 1);
                    let z = later_counts(c, 0);
                    assert(pending_counts(held) == (b.0 + y.0, b.1 + y.1, b.2 + y.2));
                    assert(pending_counts(stack@) == (
                        b.0 + y.0 + z.0,
                        b.1 + y.1 + z.1,
                        b.2 + y.2 + z.2,
                    ));
                    assert(later_counts(m, k as int) == (
                        element_count(m[k as int]) + y.0,
                        attribute_count(m[k as int]) + y.1,
                        size(m[k as int]) + y.2,
                    ));
                }
            }
        }
    }
    XmlTreeStats { elements, attributes, nodes }
}

/// What keeps a node from standing beside the root.
pub open spec fn misc_fault(n: NodeModel) -> Option<DomErrorModel> {
    if !(n is Comment || n is ProcessingInstruction) {
        Some(DomErrorModel::InvalidTarget)
    } else {
        match node_fault(n) {
            Some(m) => Some(DomErrorModel::Mutation(m)),
            None => None,
        }
    }
}

/// The list before or after the root.
pub open spec fn misc_of(s: StateModel, after: bool) -> Seq<NodeModel> {
    if after {
        s.after
    } else {
        s.before
    }
}

/// The document with another list before or after the root.
pub open spec fn with_misc(s: StateModel, after: bool, n: Seq<NodeModel>) -> StateModel {
    if after {
        StateModel { after: n, edited: true, ..s }
    } else {
        StateModel { before: n, edited: true, ..s }
    }
}

/// Appends a node before or after the root.
pub open spec fn misc_appended(s: StateModel, after: bool, n: NodeModel) -> (
    StateModel,
    Result<(), DomErrorModel>,
) {
    match misc_fault(n) {
        Some(e) => (s, Err(e)),
        None => (with_misc(s, after, misc_of(s, after).push(n)), Ok(())),
    }
}

/// A position that a list does not have.
pub open spec fn out_of_bounds(index: usize, len: nat) -> DomErrorModel {
    DomErrorModel::Mutation(
        MutationModel::IndexOutOfBounds { index: index as int, len: len as int },
    )
}

/// Removes a node before or after the root. The document type declaration stays where it stands
/// among the other nodes.
pub open spec fn misc_removed(s: StateModel, after: bool, index: usize) -> (
    StateModel,
    Result<NodeModel, DomErrorModel>,
) {
    let n = misc_of(s, after);
    if index >= n.len() {
        (s, Err(out_of_bounds(index, n.len())))
    } else {
        let rest = with_misc(s, after, n.remove(index as int));
        (
            if !after && index < s.doctype_index {
                StateModel { doctype_index: (s.doctype_index - 1) as usize, ..rest }
            } else {
                rest
            },
            Ok(n[index as int]),
        )
    }
}

/// Replaces a node before or after the root.
pub open spec fn misc_replaced(s: StateModel, after: bool, index: usize, x: NodeModel) -> (
    StateModel,
    Result<NodeModel, DomErrorModel>,
) {
    let n = misc_of(s, after);
    match misc_fault(x) {
        Some(e) => (s, Err(e)),
        None => if index >= n.len() {
            (s, Err(out_of_bounds(index, n.len())))
        } else {
            (with_misc(s, after, n.update(index as int, x)), Ok(n[index as int]))
        },
    }
}

/// Sets the XML declaration. It has to be one that a document can start with.
pub open spec fn declaration_set(s: StateModel, data: Seq<char>) -> (
    StateModel,
    Result<(), DomErrorModel>,
) {
    match text_fault(data) {
        Some(m) => (s, Err(DomErrorModel::Mutation(m))),
        None => if checked_document("<?xml "@ + data + "?><root/>"@, default_config()) is Err {
            (s, Err(DomErrorModel::Mutation(MutationModel::InvalidDeclaration)))
        } else {
            (
                StateModel {
                    declaration: Some(InstructionModel { target: "xml"@, data }),
                    edited: true,
                    ..s
                },
                Ok(()),
            )
        },
    }
}

/// Sets the document type declaration, behind the nodes before the root.
pub open spec fn doctype_set(s: StateModel, d: DoctypeModel) -> (
    StateModel,
    Result<(), DomErrorModel>,
) {
    match doctype_fault(d) {
        Some(m) => (s, Err(DomErrorModel::Mutation(m))),
        None => (
            StateModel {
                doctype: Some(d),
                doctype_index: s.before.len() as usize,
                edited: true,
                ..s
            },
            Ok(()),
        ),
    }
}

/// The document with decoded values.
pub open spec fn plain_document(s: StateModel, root: NodeModel) -> PlainDocument {
    PlainDocument {
        declaration: s.declaration,
        doctype: s.doctype,
        doctype_index: s.doctype_index as int,
        before: s.before,
        root,
        after: s.after,
    }
}

/// The document as text.
pub open spec fn document_output(s: StateModel, options: XmlSerializeOptions) -> Result<
    Seq<char>,
    ErrorModel,
> {
    if options == default_options() && s.verbatim && !s.edited {
        Ok(s.source)
    } else {
        match snapshot(s.root, s.reading) {
            Err(e) => Err(e),
            Ok(root) => Ok(document_text(plain_document(s, root), options)),
        }
    }
}

/// A failed check as an error of an editable document.
pub(crate) fn refused(r: Result<(), XmlMutationError>, Ghost(m): Ghost<Option<MutationModel>>) -> (o:
    Result<(), XmlDomError>)
    requires
        checked(r, m),
    ensures
        match o {
            Ok(_) => m is None,
            Err(e) => m is Some && e@ == DomErrorModel::Mutation(m->Some_0),
        },
{
    match r {
        Ok(_) => Ok(()),
        Err(e) => Err(XmlDomError::Mutation(e)),
    }
}

/// Checks a node that is to stand beside the root.
fn check_misc(n: &XmlNode) -> (r: Result<(), XmlDomError>)
    ensures
        match r {
            Ok(_) => misc_fault(n@) is None,
            Err(e) => misc_fault(n@) == Some(e@),
        },
{
    match n {
        XmlNode::Comment(_) => {},
        XmlNode::ProcessingInstruction(_) => {},
        _ => {
            return Err(XmlDomError::InvalidTarget);
        },
    }
    refused(validate_node(n), Ghost(node_fault(n@)))
}

/// Appends a node to a list.
fn push_node(v: &mut Vec<XmlNode>, n: XmlNode)
    ensures
        node_models(final(v)@) == node_models(old(v)@).push(n@),
{
    let ghost before = v@;
    v.push(n);
    proof {
        assert(node_models(v@) =~= node_models(before).push(n@));
    }
}

/// Removes a node from a list.
fn take_node(v: &mut Vec<XmlNode>, index: usize) -> (r: XmlNode)
    requires
        index < old(v)@.len(),
    ensures
        r@ == node_models(old(v)@)[index as int],
        node_models(final(v)@) == node_models(old(v)@).remove(index as int),
{
    let ghost before = v@;
    let r = v.remove(index);
    proof {
        assert(node_models(v@) =~= node_models(before).remove(index as int));
    }
    r
}

/// Replaces a node of a list.
fn swap_node(v: &mut Vec<XmlNode>, index: usize, n: XmlNode) -> (r: XmlNode)
    requires
        index < old(v)@.len(),
    ensures
        r@ == node_models(old(v)@)[index as int],
        node_models(final(v)@) == node_models(old(v)@).update(index as int, n@),
{
    let ghost before = v@;
    let r = v.remove(index);
    v.insert(index, n);
    proof {
        assert(node_models(v@) =~= node_models(before).update(index as int, n@));
    }
    r
}

/// Writes what stands between the XML declaration and the root.
fn write_prolog(
    s: &DomState,
    quote: XmlQuoteStyle,
    out: &mut Vec<char>,
    Ghost(d): Ghost<PlainDocument>,
)
    requires
        d.before == s@.before,
        d.doctype == s@.doctype,
        d.doctype_index == s@.doctype_index,
    ensures
        final(out)@ == old(out)@ + prolog_text(d, quote),
{
    let ghost start = out@;
    let n: usize = s.before.len();
    let i: usize = if s.doctype_index <= n {
        s.doctype_index
    } else {
        n
    };
    let ghost b = node_models(s.before@);
    write_range(&s.before, 0, i, quote, out);
    let ghost first = out@;
    if let Some(x) = &s.doctype {
        write_doctype(x, out);
    }
    let ghost second = out@;
    proof {
        assert(second =~= first + (match d.doctype {
            Some(x) => doctype_text(x),
            None => Seq::empty(),
        }));
    }
    write_range(&s.before, i, n, quote, out);
    proof {
        assert(d.before.take(i as int) =~= b.subrange(0, i as int));
        assert(d.before.skip(i as int) =~= b.subrange(i as int, n as int));
        assert(out@ =~= start + prolog_text(d, quote));
    }
}

impl XmlDom {
    /// Finds the path to the node of a handle.
    pub(crate) fn resolve(&self, h: &XmlDomNode) -> (r: Result<Vec<usize>, XmlDomError>)
        ensures
            match r {
                Ok(p) => resolved(self@, h@) == Ok::<Seq<usize>, DomErrorModel>(p@) && has_path(
                    self@.root,
                    p@,
                ) && node_at(self@.root, p@).id == h@.local,
                Err(e) => resolved(self@, h@) == Err::<Seq<usize>, DomErrorModel>(e@),
            },
    {
        if h.lineage() != self.inner.lineage {
            return Err(XmlDomError::WrongDocument);
        }
        let id = h.id();
        if id.document() != self.inner.document || h.generation() != self.inner.generation {
            return Err(XmlDomError::StaleHandle);
        }
        proof {
            lemma_path_found(self@.root, h@.local);
        }
        match find_path(&self.inner.root, id.local()) {
            Some(p) => Ok(p),
            None => Err(XmlDomError::DeletedHandle),
        }
    }

    /// Finds the node of a handle.
    pub(crate) fn find(&self, h: &XmlDomNode) -> (r: Result<&DomNode, XmlDomError>)
        ensures
            match r {
                Ok(n) => target(self@, h@) == Ok::<TreeModel, DomErrorModel>(n.model()),
                Err(e) => target(self@, h@) == Err::<TreeModel, DomErrorModel>(e@),
            },
    {
        match self.resolve(h) {
            Err(e) => Err(e),
            Ok(p) => Ok(node_ref(&self.inner.root, p.as_slice())),
        }
    }

    /// Makes a handle.
    pub(crate) fn handle(&self, id: u64) -> (r: XmlDomNode)
        ensures
            r@ == handle_of(self@, id),
    {
        XmlDomNode::of(
            self.anchor.clone(),
            self.inner.lineage,
            self.inner.document,
            self.inner.generation,
            id,
        )
    }

    /// Returns the root element.
    pub fn root(&self) -> (r: XmlDomNode)
        ensures
            r@ == handle_of(self@, self@.root.id),
    {
        self.handle(self.inner.root.id)
    }

    /// Was the document left as it was parsed?
    pub fn is_compact(&self) -> (r: bool)
        ensures
            r == !self@.edited,
    {
        !self.inner.edited
    }

    /// Was the document edited?
    pub fn is_overlay(&self) -> (r: bool)
        ensures
            r == self@.edited,
    {
        self.inner.edited
    }

    /// Returns the XML declaration.
    pub fn declaration(&self) -> (r: Option<XmlProcessingInstruction>)
        ensures
            instruction_option(r) == self@.declaration,
    {
        copy_instruction(self.inner.declaration.as_ref())
    }

    /// Sets the XML declaration.
    pub fn set_declaration(&mut self, data: &str) -> (r: Result<(), XmlDomError>)
        ensures
            (final(self)@, plain_outcome(r)) == declaration_set(old(self)@, data@),
    {
        if let Err(e) = refused(validate_characters(data), Ghost(text_fault(data@))) {
            return Err(e);
        }
        let mut text: Vec<char> = Vec::new();
        push_text(&mut text, "<?xml ");
        push_text(&mut text, data);
        push_text(&mut text, "?><root/>");
        let candidate = string_of(text.as_slice());
        proof {
            assert(candidate@ =~= "<?xml "@ + data@ + "?><root/>"@);
        }
        if validate_document(candidate.as_str()).is_err() {
            return Err(XmlDomError::Mutation(XmlMutationError::InvalidDeclaration));
        }
        let declaration = XmlProcessingInstruction {
            target: "xml".to_owned(),
            data: data.to_owned(),
        };
        self.inner.declaration = Some(declaration);
        self.inner.edited = true;
        Ok(())
    }

    /// Removes the XML declaration.
    pub fn clear_declaration(&mut self)
        ensures
            final(self)@ == (StateModel { declaration: None, edited: true, ..old(self)@ }),
    {
        self.inner.declaration = None;
        self.inner.edited = true;
    }

    /// Returns the document type declaration.
    pub fn doctype(&self) -> (r: Option<XmlDoctype>)
        ensures
            doctype_option(r) == self@.doctype,
    {
        copy_doctype(self.inner.doctype.as_ref())
    }

    /// Sets the document type declaration.
    pub fn set_doctype(&mut self, doctype: XmlDoctype) -> (r: Result<(), XmlDomError>)
        ensures
            (final(self)@, plain_outcome(r)) == doctype_set(old(self)@, doctype@),
    {
        if let Err(e) = refused(validate_doctype(&doctype), Ghost(doctype_fault(doctype@))) {
            return Err(e);
        }
        self.inner.doctype_index = self.inner.before.len();
        self.inner.doctype = Some(doctype);
        self.inner.edited = true;
        Ok(())
    }

    /// Sets a document type declaration that has only a name.
    pub fn set_doctype_name(&mut self, name: &str) -> (r: Result<(), XmlDomError>)
        ensures
            (final(self)@, plain_outcome(r)) == doctype_set(
                old(self)@,
                DoctypeModel {
                    name: name@,
                    public_id: None,
                    system_id: None,
                    internal_subset: None,
                },
            ),
    {
        self.set_doctype(
            XmlDoctype {
                name: name.to_owned(),
                public_id: None,
                system_id: None,
                internal_subset: None,
            },
        )
    }

    /// Removes the document type declaration.
    pub fn clear_doctype(&mut self)
        ensures
            final(self)@ == (StateModel { doctype: None, edited: true, ..old(self)@ }),
    {
        self.inner.doctype = None;
        self.inner.edited = true;
    }

    /// Returns the nodes before the root.
    pub fn before_root_nodes(&self) -> (r: Vec<XmlNode>)
        ensures
            node_models(r@) == self@.before,
    {
        clone_nodes(&self.inner.before)
    }

    /// Returns the nodes after the root.
    pub fn after_root_nodes(&self) -> (r: Vec<XmlNode>)
        ensures
            node_models(r@) == self@.after,
    {
        clone_nodes(&self.inner.after)
    }

    /// Appends a comment or a processing instruction before the root.
    pub fn append_before_root(&mut self, node: XmlNode) -> (r: Result<(), XmlDomError>)
        ensures
            (final(self)@, plain_outcome(r)) == misc_appended(old(self)@, false, node@),
    {
        if let Err(e) = check_misc(&node) {
            return Err(e);
        }
        push_node(&mut self.inner.before, node);
        self.inner.edited = true;
        Ok(())
    }

    /// Appends a comment or a processing instruction after the root.
    pub fn append_after_root(&mut self, node: XmlNode) -> (r: Result<(), XmlDomError>)
        ensures
            (final(self)@, plain_outcome(r)) == misc_appended(old(self)@, true, node@),
    {
        if let Err(e) = check_misc(&node) {
            return Err(e);
        }
        push_node(&mut self.inner.after, node);
        self.inner.edited = true;
        Ok(())
    }

    /// Removes a node before the root.
    pub fn remove_before_root(&mut self, index: usize) -> (r: Result<XmlNode, XmlDomError>)
        ensures
            (final(self)@, outcome(r)) == misc_removed(old(self)@, false, index),
    {
        let len: usize = self.inner.before.len();
        if index >= len {
            return Err(XmlDomError::Mutation(XmlMutationError::IndexOutOfBounds { index, len }));
        }
        let r = take_node(&mut self.inner.before, index);
        if index < self.inner.doctype_index {
            self.inner.doctype_index = self.inner.doctype_index - 1;
        }
        self.inner.edited = true;
        Ok(r)
    }

    /// Removes a node after the root.
    pub fn remove_after_root(&mut self, index: usize) -> (r: Result<XmlNode, XmlDomError>)
        ensures
            (final(self)@, outcome(r)) == misc_removed(old(self)@, true, index),
    {
        let len: usize = self.inner.after.len();
        if index >= len {
            return Err(XmlDomError::Mutation(XmlMutationError::IndexOutOfBounds { index, len }));
        }
        let r = take_node(&mut self.inner.after, index);
        self.inner.edited = true;
        Ok(r)
    }

    /// Replaces a node before the root.
    pub fn replace_before_root(&mut self, index: usize, node: XmlNode) -> (r: Result<
        XmlNode,
        XmlDomError,
    >)
        ensures
            (final(self)@, outcome(r)) == misc_replaced(old(self)@, false, index, node@),
    {
        if let Err(e) = check_misc(&node) {
            return Err(e);
        }
        let len: usize = self.inner.before.len();
        if index >= len {
            return Err(XmlDomError::Mutation(XmlMutationError::IndexOutOfBounds { index, len }));
        }
        let r = swap_node(&mut self.inner.before, index, node);
        self.inner.edited = true;
        Ok(r)
    }

    /// Replaces a node after the root.
    pub fn replace_after_root(&mut self, index: usize, node: XmlNode) -> (r: Result<
        XmlNode,
        XmlDomError,
    >)
        ensures
            (final(self)@, outcome(r)) == misc_replaced(old(self)@, true, index, node@),
    {
        if let Err(e) = check_misc(&node) {
            return Err(e);
        }
        let len: usize = self.inner.after.len();
        if index >= len {
            return Err(XmlDomError::Mutation(XmlMutationError::IndexOutOfBounds { index, len }));
        }
        let r = swap_node(&mut self.inner.after, index, node);
        self.inner.edited = true;
        Ok(r)
    }

    /// Counts the tree of the root element.
    pub fn tree_stats(&self) -> (r: XmlTreeStats)
        ensures
            r == stats_of(self@.root),
    {
        count_stats(&self.inner.root)
    }

    /// Counts the whole document.
    pub fn document_stats(&self) -> (r: XmlTreeStats)
        ensures
            r == document_stats_of(self@),
    {
        let mut stats = count_stats(&self.inner.root);
        let mut nodes: usize = stats.nodes;
        if self.inner.declaration.is_some() {
            nodes = capped_sum(nodes, 1);
        }
        if self.inner.doctype.is_some() {
            nodes = capped_sum(nodes, 1);
        }
        nodes = capped_sum(nodes, self.inner.before.len());
        nodes = capped_sum(nodes, self.inner.after.len());
        stats.nodes = nodes;
        stats
    }

    /// Writes the document.
    pub fn to_xml_string(&self) -> (r: Result<String, XmlWriteError>)
        ensures
            match r {
                Ok(x) => document_output(self@, default_options()) == Ok::<Seq<char>, ErrorModel>(
                    x@,
                ),
                Err(e) => document_output(self@, default_options()) == Err::<
                    Seq<char>,
                    ErrorModel,
                >(e@),
            },
    {
        self.to_xml_string_with_options(&XmlSerializeOptions::default())
    }

    /// Writes the document in the given way.
    pub fn to_xml_string_with_options(&self, options: &XmlSerializeOptions) -> (r: Result<
        String,
        XmlWriteError,
    >)
        ensures
            match r {
                Ok(x) => document_output(self@, *options) == Ok::<Seq<char>, ErrorModel>(x@),
                Err(e) => document_output(self@, *options) == Err::<Seq<char>, ErrorModel>(e@),
            },
    {
        let s = &self.inner;
        if *options == XmlSerializeOptions::default() && s.verbatim && !s.edited {
            return Ok(s.source.clone());
        }
        let root = match s.root.snapshot(s.reading) {
            Err(e) => {
                return Err(XmlWriteError::Parse(e));
            },
            Ok(x) => x,
        };
        let ghost d = plain_document(self@, root@);
        let quote = options.quote_style;
        let mut out: Vec<char> = Vec::new();
        if options.write_bom {
            out.push('\u{feff}');
        }
        proof {
            assert(out@ =~= if options.write_bom {
                seq!['\u{feff}']
            } else {
                Seq::empty()
            });
        }
        write_declaration(s.declaration.as_ref(), options, &mut out);
        write_prolog(s, quote, &mut out, Ghost(d));
        write_node(&root, quote, &mut out);
        release_node(root);
        write_nodes(&s.after, quote, &mut out);
        Ok(string_of(out.as_slice()))
    }

    /// Writes the document as bytes.
    pub fn to_xml_bytes(&self, options: &XmlSerializeOptions) -> (r: Result<Vec<u8>, XmlWriteError>)
        ensures
            match r {
                Ok(x) => document_output(self@, *options) is Ok && x@ == encoded(
                    document_output(self@, *options)->Ok_0,
                    options.encoding,
                ),
                Err(e) => document_output(self@, *options) == Err::<Seq<char>, ErrorModel>(e@),
            },
    {
        match self.to_xml_string_with_options(options) {
            Err(e) => Err(e),
            Ok(text) => Ok(encode_text(text.as_str(), options.encoding)),
        }
    }
}

impl XmlParser {
    /// Parses a document.
    pub fn parse(&self, input: &str) -> (r: XmlResult<XmlDom>)
        ensures
            dom_agrees(r, compact_parse(input@, self@), self@, false),
    {
        XmlDom::parse_with_config(input, self.options())
    }

    /// Decodes bytes and parses a document.
    pub fn parse_bytes(&self, input: &[u8]) -> (r: XmlResult<XmlDom>)
        ensures
            dom_agrees(r, compact_parse_bytes(input@, self@), self@, false),
    {
        XmlDom::parse_bytes_with_config(input, self.options())
    }

    /// Parses as much of a document as makes sense.
    pub fn parse_tolerant(&self, input: &str) -> (r: XmlResult<XmlParseOutcome<XmlDom>>)
        ensures
            dom_outcome_agrees(r, tolerant_parse(input@, self@), self@),
    {
        XmlDom::parse_tolerant_with_config(input, self.options())
    }

    /// Decodes bytes and parses as much of a document as makes sense.
    pub fn parse_bytes_tolerant(&self, input: &[u8]) -> (r: XmlResult<XmlParseOutcome<XmlDom>>)
        ensures
            dom_outcome_agrees(r, tolerant_parse_bytes(input@, self@), self@),
    {
        XmlDom::parse_bytes_tolerant_with_config(input, self.options())
    }
}

} // verus!
