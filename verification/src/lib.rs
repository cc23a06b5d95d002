//! An XML library with machine-checked contracts.
//!
//! Documents are parsed into compact records ([`XmlCompactDocument`]), into views that borrow the
//! source ([`XmlDocumentView`]), or into editable documents ([`XmlDom`]). Every function states
//! over mathematical models what it returns and what it changes.

#![allow(unused_imports)]

pub mod access;
pub mod alphabet;
pub mod apart;
pub mod assembly;
pub mod builder;
pub mod changes;
pub mod compact;
pub mod config;
pub mod copying;
pub mod corners;
pub mod counting;
pub mod cursor;
pub mod declaration;
pub mod document;
pub mod dom;
pub mod dom_api;
pub mod dtd;
pub mod editing;
pub mod effects;
pub mod encoding;
pub mod entities;
pub mod error;
pub mod facade;
pub mod finding;
pub mod flat;
pub mod following;
pub mod forms;
pub mod fragment;
pub mod frames;
pub mod grammar;
pub mod growth;
pub mod handle;
pub mod identity;
pub mod labels;
pub mod laws;
pub mod lexeme;
pub mod margins;
pub mod meanings;
pub mod movement;
pub mod mutation;
pub mod namespace;
pub mod numbers;
pub mod openings;
pub mod output;
pub mod parser;
pub mod passages;
pub mod placement;
pub mod planting;
pub mod query;
pub mod readback;
pub mod reader;
pub mod records;
pub mod recovery;
pub mod reopening;
pub mod replacement;
pub mod replay;
pub mod reports;
pub mod salvage;
pub mod saving;
pub mod scan;
pub mod scopes;
pub mod scoping;
pub mod serialize;
pub mod settings;
pub mod shapes;
pub mod sources;
pub mod steady;
pub mod subsets;
pub mod syntax;
pub mod tables;
pub mod tabling;
pub mod tallies;
pub mod text;
pub mod transcoding;
pub mod tree;
pub mod unescape;
pub mod validity;
pub mod value;
pub mod view;
pub mod walking;

pub use builder::XmlDomElementBuilder;
pub use compact::{parse_compact_document_with_config, XmlCompactDocument, XmlCompactNode};
pub use config::{
    ParserConfig, XmlEntityExpansionPolicy, XmlExternalEntityPolicy, XmlTextWhitespacePolicy,
};
pub use cursor::XmlPath;
pub use dom::{
    XmlAttribute, XmlDoctype, XmlElement, XmlMemoryRetention, XmlNode, XmlNodeKind,
    XmlProcessingInstruction, XmlTreeStats,
};
pub use dom_api::{XmlDescendants, XmlNodeRef, XmlWalk, XmlWalkEntry};
pub use encoding::{decode_xml_bytes, DecodedXml, XmlInputEncoding};
pub use error::{XmlError, XmlErrorKind, XmlResult};
pub use facade::{XmlDom, XmlDomSend};
pub use fragment::{
    parse_fragment, parse_fragment_tolerant, parse_fragment_tolerant_with_config,
    parse_fragment_with_config, XmlFragment,
};
pub use handle::{XmlDomError, XmlDomNode, XmlDomNodeId, XmlDomOutputError};
pub use lexeme::{XmlAttributeWhitespacePolicy, XmlVersion};
pub use mutation::XmlMutationError;
pub use namespace::{
    XmlExpandedName, XmlNamespace, XmlNamespaceError, XmlQualifiedName, XMLNS_NAMESPACE_URI,
    XML_NAMESPACE_URI,
};
pub use output::{XmlSourceCoordinates, XmlSourcePosition};
pub use parser::{
    count_document, count_document_bytes, count_document_bytes_with_config,
    count_document_with_config, parse_compact_document, parse_compact_document_bytes,
    parse_compact_document_bytes_tolerant, parse_compact_document_bytes_tolerant_with_config,
    parse_compact_document_bytes_with_config, parse_compact_document_tolerant,
    parse_compact_document_tolerant_with_config, validate_document, validate_document_bytes,
    validate_document_bytes_with_config, validate_document_with_config, XmlParseOutcome, XmlParser,
};
pub use query::{SimpleDescendantFilter, XmlDomNodeSet, XmlDomXPathNode};
pub use records::{RawXmlAttribute, RawXmlNode, XmlRawSource, XmlViewNodeId};
pub use serialize::{
    XmlDeclarationMode, XmlOutputEncoding, XmlQuoteStyle, XmlSerializeOptions, XmlWriteError,
};
pub use tables::XmlAttributeView;
pub use value::ToXmlValue;
pub use view::{
    parse_document_view, parse_document_view_with_config,
    parse_document_view_with_config_and_source_offsets, parse_document_view_with_source_offsets,
    XmlDocumentView, XmlDocumentViewWithSourceOffsets, XmlSourceAttribute, XmlSourceNode,
    XmlSourceOffsets, XmlSourceSpan, XmlViewNode,
};
pub use walking::{XmlDomScanAttribute, XmlDomScanAttributes, XmlDomScanNode, XmlDomWalk};
