//! What can go wrong while reading a document, and where.

use vstd::prelude::*;

use crate::text::{byte_len, byte_offset, lemma_byte_offset_monotone, Source};

verus! {

/// The result of an operation that reads a document.
pub type XmlResult<T> = Result<T, XmlError>;

/// A problem in a document and the byte at which it was found.
#[derive(Clone, Debug, Eq, PartialEq)]
pub struct XmlError {
    /// What is wrong.
    pub kind: XmlErrorKind,
    /// The byte at which it was found.
    pub byte: usize,
}

/// What is wrong with a document.
#[derive(Clone, Debug, Eq, PartialEq)]
pub enum XmlErrorKind {
    /// Elements are nested too deeply.
    DepthLimitExceeded,
    /// Entities are nested too deeply.
    EntityExpansionDepthLimitExceeded,
    /// Entities expand to too much text.
    EntityExpansionSizeLimitExceeded,
    /// An entity was referenced although expansion is disabled.
    EntityExpansionDisabled(String),
    /// An entity that holds markup was referenced where the source must be borrowed.
    EntityReplacementMarkupWithSourceOffsets,
    /// An external entity was referenced.
    ExternalEntityReference(String),
    /// An attribute occurs twice in one start tag.
    DuplicateAttribute(String),
    /// Something else was expected here.
    Expected(&'static str),
    /// An attribute value is malformed.
    InvalidAttributeValue,
    /// A character is not allowed.
    InvalidCharacter,
    /// A character reference is malformed.
    InvalidCharacterReference,
    /// A comment is malformed.
    InvalidComment,
    /// The document is malformed in some other way.
    InvalidDocumentStructure,
    /// A name is malformed.
    InvalidName,
    /// A processing-instruction target is reserved.
    InvalidProcessingInstructionTarget,
    /// The XML declaration is malformed.
    InvalidXmlDeclaration,
    /// An end tag does not match its start tag.
    MismatchedEndTag {
        /// The name of the start tag.
        expected: String,
        /// The name of the end tag.
        found: String,
    },
    /// There is no root element.
    MissingRootElement,
    /// Something follows the root element.
    TrailingContent,
    /// An entity was referenced but not declared.
    UndeclaredEntity(String),
    /// The encoding is not supported.
    UnsupportedEncoding(String),
    /// The input ends too early.
    UnexpectedEof,
    /// Something unexpected stands here.
    UnexpectedToken,
}

/// `XmlErrorKind` with its texts as character sequences.
pub enum ErrorKindModel {
    DepthLimitExceeded,
    EntityExpansionDepthLimitExceeded,
    EntityExpansionSizeLimitExceeded,
    EntityExpansionDisabled(Seq<char>),
    EntityReplacementMarkupWithSourceOffsets,
    ExternalEntityReference(Seq<char>),
    DuplicateAttribute(Seq<char>),
    Expected(Seq<char>),
    InvalidAttributeValue,
    InvalidCharacter,
    InvalidCharacterReference,
    InvalidComment,
    InvalidDocumentStructure,
    InvalidName,
    InvalidProcessingInstructionTarget,
    InvalidXmlDeclaration,
    MismatchedEndTag { expected: Seq<char>, found: Seq<char> },
    MissingRootElement,
    TrailingContent,
    UndeclaredEntity(Seq<char>),
    UnsupportedEncoding(Seq<char>),
    UnexpectedEof,
    UnexpectedToken,
}

impl View for XmlErrorKind {
    type V = ErrorKindModel;

    open spec fn view(&self) -> ErrorKindModel {
        match *self {
            XmlErrorKind::DepthLimitExceeded => ErrorKindModel::DepthLimitExceeded,
            XmlErrorKind::EntityExpansionDepthLimitExceeded =>
                ErrorKindModel::EntityExpansionDepthLimitExceeded,
            XmlErrorKind::EntityExpansionSizeLimitExceeded =>
                ErrorKindModel::EntityExpansionSizeLimitExceeded,
            XmlErrorKind::EntityExpansionDisabled(name) =>
                ErrorKindModel::EntityExpansionDisabled(name@),
            XmlErrorKind::EntityReplacementMarkupWithSourceOffsets =>
                ErrorKindModel::EntityReplacementMarkupWithSourceOffsets,
            XmlErrorKind::ExternalEntityReference(name) =>
                ErrorKindModel::ExternalEntityReference(name@),
            XmlErrorKind::DuplicateAttribute(name) => ErrorKindModel::DuplicateAttribute(name@),
            XmlErrorKind::Expected(what) => ErrorKindModel::Expected(what@),
            XmlErrorKind::InvalidAttributeValue => ErrorKindModel::InvalidAttributeValue,
            XmlErrorKind::InvalidCharacter => ErrorKindModel::InvalidCharacter,
            XmlErrorKind::InvalidCharacterReference => ErrorKindModel::InvalidCharacterReference,
            XmlErrorKind::InvalidComment => ErrorKindModel::InvalidComment,
            XmlErrorKind::InvalidDocumentStructure => ErrorKindModel::InvalidDocumentStructure,
            XmlErrorKind::InvalidName => ErrorKindModel::InvalidName,
            XmlErrorKind::InvalidProcessingInstructionTarget =>
                ErrorKindModel::InvalidProcessingInstructionTarget,
            XmlErrorKind::InvalidXmlDeclaration => ErrorKindModel::InvalidXmlDeclaration,
            XmlErrorKind::MismatchedEndTag { expected, found } =>
                ErrorKindModel::MismatchedEndTag { expected: expected@, found: found@ },
            XmlErrorKind::MissingRootElement => ErrorKindModel::MissingRootElement,
            XmlErrorKind::TrailingContent => ErrorKindModel::TrailingContent,
            XmlErrorKind::UndeclaredEntity(name) => ErrorKindModel::UndeclaredEntity(name@),
            XmlErrorKind::UnsupportedEncoding(name) => ErrorKindModel::UnsupportedEncoding(name@),
            XmlErrorKind::UnexpectedEof => ErrorKindModel::UnexpectedEof,
            XmlErrorKind::UnexpectedToken => ErrorKindModel::UnexpectedToken,
        }
    }
}

/// `XmlError` with its texts as character sequences.
pub struct ErrorModel {
    pub kind: ErrorKindModel,
    pub byte: int,
}

impl View for XmlError {
    type V = ErrorModel;

    open spec fn view(&self) -> ErrorModel {
        ErrorModel { kind: self.kind@, byte: self.byte as int }
    }
}

/// A problem at a character of the text that is being read.
pub struct Fault {
    /// What is wrong.
    pub kind: XmlErrorKind,
    /// The character at which it was found.
    pub at: usize,
}

/// `Fault` with its texts as character sequences.
pub struct FaultModel {
    pub kind: ErrorKindModel,
    pub at: int,
}

impl View for Fault {
    type V = FaultModel;

    open spec fn view(&self) -> FaultModel {
        FaultModel { kind: self.kind@, at: self.at as int }
    }
}

/// The outcome of reading a piece of a text.
pub type Read<T> = Result<T, FaultModel>;

/// The fault of kind `kind` at character `at`.
pub open spec fn fault<T>(kind: ErrorKindModel, at: int) -> Read<T> {
    Err(FaultModel { kind, at })
}

/// The error that a fault in the text `s` amounts to.
pub open spec fn located(s: Seq<char>, f: FaultModel) -> ErrorModel {
    ErrorModel { kind: f.kind, byte: byte_offset(s, f.at) as int }
}

/// Turns the character index of a fault into a byte offset.
pub(crate) fn locate(source: &Source, f: Fault) -> (e: XmlError)
    requires
        source.wf(),
        f.at <= source.text@.len(),
    ensures
        e@ == located(source.text@, f@),
        e.byte <= byte_len(source.text@),
{
    proof {
        lemma_byte_offset_monotone(source.text@, f.at as int, source.text@.len() as int);
    }
    XmlError { kind: f.kind, byte: source.offset(f.at) }
}

impl XmlError {
    /// An error of kind `kind` at byte `byte`.
    pub(crate) fn new(kind: XmlErrorKind, byte: usize) -> (e: Self)
        ensures
            e.kind == kind,
            e.byte == byte,
    {
        XmlError { kind, byte }
    }
}

} // verus!
