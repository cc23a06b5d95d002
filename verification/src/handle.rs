//! Handles of the nodes of editable documents, and what can go wrong with them.

use vstd::prelude::*;

use std::rc::Rc;

use crate::error::{ErrorModel, XmlError};
use crate::mutation::{MutationModel, XmlMutationError};
use crate::namespace::XmlNamespaceError;
use crate::serialize::XmlWriteError;

verus! {

/// The identity of a node: the document and the number of the node in it.
#[derive(Clone, Copy, Debug, PartialEq, Eq, Hash, PartialOrd, Ord, Structural)]
pub struct XmlDomNodeId {
    document: u64,
    local: u64,
}

impl XmlDomNodeId {
    /// The document as a mathematical value.
    pub closed spec fn of_document(self) -> u64 {
        self.document
    }

    /// The number in the document as a mathematical value.
    pub closed spec fn number(self) -> u64 {
        self.local
    }

    /// Returns the token of the document.
    pub fn document(self) -> (r: u64)
        ensures
            r == self.of_document(),
    {
        self.document
    }

    /// Returns the number of the node in the document.
    pub fn local(self) -> (r: u64)
        ensures
            r == self.number(),
    {
        self.local
    }
}

/// A handle of a node of an editable document.
///
/// The handle stays valid while the node is in the document, however the document is edited.
#[derive(Debug)]
pub struct XmlDomNode {
    anchor: Rc<()>,
    lineage: u64,
    document: u64,
    generation: u64,
    local: u64,
}

/// A handle as a mathematical value.
#[verifier::ext_equal]
pub struct HandleModel {
    pub lineage: u64,
    pub document: u64,
    pub generation: u64,
    pub local: u64,
}

impl View for XmlDomNode {
    type V = HandleModel;

    closed spec fn view(&self) -> HandleModel {
        HandleModel {
            lineage: self.lineage,
            document: self.document,
            generation: self.generation,
            local: self.local,
        }
    }
}

impl XmlDomNode {
    /// Makes a handle.
    pub(crate) fn of(
        anchor: Rc<()>,
        lineage: u64,
        document: u64,
        generation: u64,
        local: u64,
    ) -> (r: Self)
        ensures
            r@ == (HandleModel { lineage, document, generation, local }),
    {
        XmlDomNode { anchor, lineage, document, generation, local }
    }

    /// The lineage of the document.
    pub(crate) fn lineage(&self) -> (r: u64)
        ensures
            r == self@.lineage,
    {
        self.lineage
    }

    /// The generation of the document.
    pub(crate) fn generation(&self) -> (r: u64)
        ensures
            r == self@.generation,
    {
        self.generation
    }

    /// Returns the identity of the node.
    pub fn id(&self) -> (r: XmlDomNodeId)
        ensures
            r.of_document() == self@.document,
            r.number() == self@.local,
    {
        XmlDomNodeId { document: self.document, local: self.local }
    }
}

impl Clone for XmlDomNode {
    fn clone(&self) -> (r: Self)
        ensures
            r@ == self@,
    {
        XmlDomNode {
            anchor: self.anchor.clone(),
            lineage: self.lineage,
            document: self.document,
            generation: self.generation,
            local: self.local,
        }
    }
}

/// Two handles are equal if they are handles of one node.
impl PartialEq for XmlDomNode {
    fn eq(&self, other: &Self) -> (r: bool) {
        self.document == other.document && self.local == other.local
    }
}

impl vstd::std_specs::cmp::PartialEqSpecImpl for XmlDomNode {
    open spec fn obeys_eq_spec() -> bool {
        true
    }

    open spec fn eq_spec(&self, other: &Self) -> bool {
        self@.document == other@.document && self@.local == other@.local
    }
}

impl Eq for XmlDomNode {

}

/// Handles as mathematical values.
pub open spec fn handle_models(v: Seq<XmlDomNode>) -> Seq<HandleModel> {
    Seq::new(v.len(), |i: int| v[i]@)
}

/// Why an operation on an editable document failed.
#[derive(Clone, Debug, PartialEq, Eq)]
pub enum XmlDomError {
    /// A value that is kept as it stands in the source cannot be decoded; the byte counts from
    /// the start of the value.
    Parse(XmlError),
    /// The document refuses the change.
    Mutation(XmlMutationError),
    /// A name is not a qualified name.
    Namespace(XmlNamespaceError),
    /// The document was reset or replaced after the handle was made.
    StaleHandle,
    /// The node is no longer in the document.
    DeletedHandle,
    /// The operation needs an element.
    NotElement,
    /// The root element cannot be removed and has no siblings.
    RootHasNoSiblings,
    /// The operation does not fit the node.
    InvalidTarget,
    /// The handle belongs to another document.
    WrongDocument,
}

/// A failure as a mathematical value.
#[verifier::ext_equal]
pub enum DomErrorModel {
    Parse(ErrorModel),
    Mutation(MutationModel),
    Namespace(Seq<char>),
    StaleHandle,
    DeletedHandle,
    NotElement,
    RootHasNoSiblings,
    InvalidTarget,
    WrongDocument,
}

impl View for XmlDomError {
    type V = DomErrorModel;

    open spec fn view(&self) -> DomErrorModel {
        match *self {
            XmlDomError::Parse(e) => DomErrorModel::Parse(e@),
            XmlDomError::Mutation(e) => DomErrorModel::Mutation(e@),
            XmlDomError::Namespace(XmlNamespaceError::InvalidQualifiedName(n)) =>
                DomErrorModel::Namespace(n@),
            XmlDomError::StaleHandle => DomErrorModel::StaleHandle,
            XmlDomError::DeletedHandle => DomErrorModel::DeletedHandle,
            XmlDomError::NotElement => DomErrorModel::NotElement,
            XmlDomError::RootHasNoSiblings => DomErrorModel::RootHasNoSiblings,
            XmlDomError::InvalidTarget => DomErrorModel::InvalidTarget,
            XmlDomError::WrongDocument => DomErrorModel::WrongDocument,
        }
    }
}

/// Why a node could not be written.
#[derive(Debug)]
pub enum XmlDomOutputError {
    /// The node could not be read.
    Dom(XmlDomError),
    /// The tree could not be written.
    Write(XmlWriteError),
}

/// A failed output as a mathematical value.
#[verifier::ext_equal]
pub enum OutputErrorModel {
    Dom(DomErrorModel),
    Write(ErrorModel),
}

impl View for XmlDomOutputError {
    type V = OutputErrorModel;

    open spec fn view(&self) -> OutputErrorModel {
        match *self {
            XmlDomOutputError::Dom(e) => OutputErrorModel::Dom(e@),
            XmlDomOutputError::Write(e) => OutputErrorModel::Write(e@),
        }
    }
}

/// The outcome of an operation as a mathematical value.
pub open spec fn outcome<T: View>(r: Result<T, XmlDomError>) -> Result<T::V, DomErrorModel> {
    match r {
        Ok(x) => Ok(x@),
        Err(e) => Err(e@),
    }
}

/// The outcome of an operation that may find nothing.
pub open spec fn optional_outcome<T: View>(r: Result<Option<T>, XmlDomError>) -> Result<
    Option<T::V>,
    DomErrorModel,
> {
    match r {
        Ok(Some(x)) => Ok(Some(x@)),
        Ok(None) => Ok(None),
        Err(e) => Err(e@),
    }
}

/// The outcome of an operation with a plain result.
pub open spec fn plain_outcome<T>(r: Result<T, XmlDomError>) -> Result<T, DomErrorModel> {
    match r {
        Ok(x) => Ok(x),
        Err(e) => Err(e@),
    }
}

/// The outcome of an operation that finds nodes.
pub open spec fn handles_outcome(r: Result<Vec<XmlDomNode>, XmlDomError>) -> Result<
    Seq<HandleModel>,
    DomErrorModel,
> {
    match r {
        Ok(x) => Ok(handle_models(x@)),
        Err(e) => Err(e@),
    }
}

/// The outcome of writing a node.
pub open spec fn output_outcome(r: Result<String, XmlDomOutputError>) -> Result<
    Seq<char>,
    OutputErrorModel,
> {
    match r {
        Ok(x) => Ok(x@),
        Err(e) => Err(e@),
    }
}

} // verus!
