//! Entry points of the parser.

use vstd::prelude::*;

use crate::compact::{compact_parse, XmlCompactDocument};
use crate::config::{default_config, preserving_config, ConfigModel, ParserConfig};
use crate::document::{expand_chars, expanded_parse, parse_chars, parsed, trace, DocumentModel};
use crate::dom::XmlTreeStats;
use crate::encoding::{decode_xml_bytes, decoded, source_byte, translated};
use crate::error::{locate, ErrorModel, XmlError, XmlResult};
use crate::recovery::{
    hard_failure, is_hard_tolerant_failure, recover_compact_document_prefix, recovered,
};
use crate::tables::{count_nodes, counts};
use crate::text::{byte_len, byte_offset, lemma_byte_len_is_utf8, Source};
use crate::view::{
    locates, parse_document_view_with_config, parse_document_view_with_config_and_source_offsets,
    view_parse, XmlDocumentView, XmlDocumentViewWithSourceOffsets,
};
pub use crate::compact::parse_compact_document_with_config;

verus! {

/// What a tolerant parse returns.
#[derive(Debug)]
pub struct XmlParseOutcome<T> {
    /// The value of the part that was kept.
    pub value: T,
    /// The error of the strict parse, if there was one.
    pub diagnostic: Option<XmlError>,
    /// How many bytes of the source were kept.
    pub consumed_bytes: usize,
}

/// The outcome of a tolerant parse as a mathematical value.
#[verifier::ext_equal]
pub struct OutcomeModel<M> {
    pub value: M,
    pub diagnostic: Option<ErrorModel>,
    pub consumed: int,
}

/// An optional error.
pub open spec fn error_option(e: Option<XmlError>) -> Option<ErrorModel> {
    match e {
        Some(x) => Some(x@),
        None => None,
    }
}

/// What a tolerant parse of `s` into a compact document returns.
///
/// A strict parse that succeeds is complete. An error that leaves nothing to recover stays an
/// error; else the longest start that can be closed is kept, with the error of the strict parse.
pub open spec fn tolerant_parse(s: Seq<char>, c: ConfigModel) -> Result<
    OutcomeModel<DocumentModel>,
    ErrorModel,
> {
    match compact_parse(s, c) {
        Ok(m) => Ok(OutcomeModel { value: m, diagnostic: None, consumed: byte_len(s) as int }),
        Err(e) => if hard_failure(e.kind) {
            Err(e)
        } else {
            match recovered(s, e.byte, c) {
                None => Err(e),
                Some((m, k)) => Ok(
                    OutcomeModel {
                        value: m,
                        diagnostic: Some(e),
                        consumed: byte_offset(s, k) as int,
                    },
                ),
            }
        },
    }
}

/// The decoded text of bytes is parsed, and the byte of an error is moved to the source.
pub open spec fn compact_parse_bytes(b: Seq<u8>, c: ConfigModel) -> Result<
    DocumentModel,
    ErrorModel,
> {
    match decoded(b) {
        Err(e) => Err(e),
        Ok((s, encoding)) => match compact_parse(s, c) {
            Err(e) => Err(translated(b, s, encoding, e)),
            Ok(m) => Ok(m),
        },
    }
}

/// What a tolerant parse of bytes returns: its offsets are those of the source.
pub open spec fn tolerant_parse_bytes(b: Seq<u8>, c: ConfigModel) -> Result<
    OutcomeModel<DocumentModel>,
    ErrorModel,
> {
    match decoded(b) {
        Err(e) => Err(e),
        Ok((s, encoding)) => match tolerant_parse(s, c) {
            Err(e) => Err(translated(b, s, encoding, e)),
            Ok(o) => match o.diagnostic {
                None => Ok(
                    OutcomeModel { value: o.value, diagnostic: None, consumed: b.len() as int },
                ),
                Some(e) => Ok(
                    OutcomeModel {
                        value: o.value,
                        diagnostic: Some(translated(b, s, encoding, e)),
                        consumed: source_byte(b, s, encoding, o.consumed),
                    },
                ),
            },
        },
    }
}

/// What a check of `s` returns.
pub open spec fn checked_document(s: Seq<char>, c: ConfigModel) -> Result<
    DocumentModel,
    ErrorModel,
> {
    expanded_parse(s, c, true)
}

/// What a check of bytes returns: the byte of an error is one of the source.
pub open spec fn checked_bytes(b: Seq<u8>, c: ConfigModel) -> Result<DocumentModel, ErrorModel> {
    match decoded(b) {
        Err(e) => Err(e),
        Ok((s, encoding)) => match checked_document(s, c) {
            Err(e) => Err(translated(b, s, encoding, e)),
            Ok(m) => Ok(m),
        },
    }
}

/// An error stands in a source of `n` bytes.
pub open spec fn error_within<T>(r: XmlResult<T>, n: int) -> bool {
    r matches Err(e) ==> e.byte <= n
}

/// The parse into a compact document returned what `m` says.
pub open spec fn compact_agrees(
    r: XmlResult<XmlCompactDocument>,
    m: Result<DocumentModel, ErrorModel>,
    c: ConfigModel,
) -> bool {
    match r {
        Ok(d) => m == Ok::<DocumentModel, ErrorModel>(d@) && d.options() == c,
        Err(e) => m == Err::<DocumentModel, ErrorModel>(e@),
    }
}

/// The tolerant parse returned what `m` says.
pub open spec fn outcome_agrees(
    r: XmlResult<XmlParseOutcome<XmlCompactDocument>>,
    m: Result<OutcomeModel<DocumentModel>, ErrorModel>,
    c: ConfigModel,
) -> bool {
    match r {
        Ok(o) => m == Ok::<OutcomeModel<DocumentModel>, ErrorModel>(
            OutcomeModel {
                value: o.value@,
                diagnostic: error_option(o.diagnostic),
                consumed: o.consumed_bytes as int,
            },
        ) && o.value.options() == c,
        Err(e) => m == Err::<OutcomeModel<DocumentModel>, ErrorModel>(e@),
    }
}

/// Parses a compact document; everything is preserved.
pub fn parse_compact_document(input: String) -> (r: XmlResult<XmlCompactDocument>)
    ensures
        compact_agrees(r, compact_parse(input@, preserving_config()), preserving_config()),
        error_within(r, byte_len(input@) as int),
{
    parse_compact_document_with_config(input, ParserConfig::preserve_all())
}

/// Decodes bytes and parses a compact document; everything is preserved.
pub fn parse_compact_document_bytes(input: &[u8]) -> (r: XmlResult<XmlCompactDocument>)
    ensures
        compact_agrees(r, compact_parse_bytes(input@, preserving_config()), preserving_config()),
        decoded(input@) is Ok ==> error_within(r, input@.len() as int),
{
    parse_compact_document_bytes_with_config(input, ParserConfig::preserve_all())
}

/// Decodes bytes and parses a compact document.
pub fn parse_compact_document_bytes_with_config(input: &[u8], config: ParserConfig) -> (r:
    XmlResult<XmlCompactDocument>)
    ensures
        compact_agrees(r, compact_parse_bytes(input@, config@), config@),
        decoded(input@) is Ok ==> error_within(r, input@.len() as int),
{
    let decoded = match decode_xml_bytes(input) {
        Err(e) => {
            return Err(e);
        },
        Ok(d) => d,
    };
    match parse_compact_document_with_config(decoded.as_str().to_owned(), config) {
        Ok(d) => Ok(d),
        Err(e) => Err(decoded.translate_error(input, e)),
    }
}

/// Parses a compact document, or keeps the start of one; everything is preserved.
pub fn parse_compact_document_tolerant(input: String) -> (r: XmlResult<
    XmlParseOutcome<XmlCompactDocument>,
>)
    ensures
        outcome_agrees(r, tolerant_parse(input@, preserving_config()), preserving_config()),
{
    parse_compact_document_tolerant_with_config(input, ParserConfig::preserve_all())
}

/// Decodes bytes and parses a compact document, or keeps the start of one; everything is
/// preserved.
pub fn parse_compact_document_bytes_tolerant(input: &[u8]) -> (r: XmlResult<
    XmlParseOutcome<XmlCompactDocument>,
>)
    ensures
        outcome_agrees(r, tolerant_parse_bytes(input@, preserving_config()), preserving_config()),
{
    parse_compact_document_bytes_tolerant_with_config(input, ParserConfig::preserve_all())
}

/// Decodes bytes and parses a compact document, or keeps the start of one.
pub fn parse_compact_document_bytes_tolerant_with_config(
    input: &[u8],
    config: ParserConfig,
) -> (r: XmlResult<XmlParseOutcome<XmlCompactDocument>>)
    ensures
        outcome_agrees(r, tolerant_parse_bytes(input@, config@), config@),
        decoded(input@) is Ok ==> error_within(r, input@.len() as int),
{
    let decoded = match decode_xml_bytes(input) {
        Err(e) => {
            return Err(e);
        },
        Ok(d) => d,
    };
    match parse_compact_document_tolerant_with_config(decoded.as_str().to_owned(), config) {
        Err(e) => Err(decoded.translate_error(input, e)),
        Ok(o) => match o.diagnostic {
            None => Ok(
                XmlParseOutcome { value: o.value, diagnostic: None, consumed_bytes: input.len() },
            ),
            Some(e) => {
                let consumed_bytes: usize = decoded.translate_byte(input, o.consumed_bytes);
                let diagnostic = Some(decoded.translate_error(input, e));
                Ok(XmlParseOutcome { value: o.value, diagnostic, consumed_bytes })
            },
        },
    }
}

/// Parses a compact document, or keeps the start of one.
pub fn parse_compact_document_tolerant_with_config(input: String, config: ParserConfig) -> (r:
    XmlResult<XmlParseOutcome<XmlCompactDocument>>)
    ensures
        outcome_agrees(r, tolerant_parse(input@, config@), config@),
{
    let ghost s = input@;
    match parse_compact_document_with_config(input.clone(), config) {
        Ok(value) => {
            proof {
                lemma_byte_len_is_utf8(s);
            }
            Ok(
                XmlParseOutcome {
                    value,
                    diagnostic: None,
                    consumed_bytes: input.as_str().as_bytes().len(),
                },
            )
        },
        Err(e) => {
            if is_hard_tolerant_failure(&e.kind) {
                return Err(e);
            }
            let source = Source::new(input.as_str());
            match recover_compact_document_prefix(source.chars.as_slice(), e.byte, config) {
                None => Err(e),
                Some((value, k)) => {
                    let consumed_bytes: usize = source.offset(k);
                    Ok(XmlParseOutcome { value, diagnostic: Some(e), consumed_bytes })
                },
            }
        },
    }
}

/// Parses a document to count its nodes.
fn check_document(input: &str, config: ParserConfig) -> (r: XmlResult<XmlTreeStats>)
    ensures
        match r {
            Ok(x) => checked_document(input@, config@) is Ok && counts(
                checked_document(input@, config@)->Ok_0,
                x,
            ),
            Err(e) => checked_document(input@, config@) == Err::<DocumentModel, ErrorModel>(e@),
        },
        error_within(r, byte_len(input@) as int),
{
    let source = Source::new(input);
    let expanded = match expand_chars(source.chars.as_slice(), &config, true) {
        Err(f) => {
            return Err(locate(&source, f));
        },
        Ok(x) => x,
    };
    match expanded {
        None => match parse_chars(source.chars.as_slice(), &config) {
            Err(f) => Err(locate(&source, f)),
            Ok(p) => Ok(count_nodes(&p, Ghost(parsed(input@, config@)->Ok_0))),
        },
        Some((t, places)) => match parse_chars(t.as_slice(), &config) {
            Err(f) => Err(trace(&source, &places, f)),
            Ok(p) => Ok(count_nodes(&p, Ghost(parsed(t@, config@)->Ok_0))),
        },
    }
}

/// Checks a document with the default options.
pub fn validate_document(input: &str) -> (r: XmlResult<()>)
    ensures
        match r {
            Ok(_) => checked_document(input@, default_config()) is Ok,
            Err(e) => checked_document(input@, default_config()) == Err::<
                DocumentModel,
                ErrorModel,
            >(e@),
        },
        error_within(r, byte_len(input@) as int),
{
    validate_document_with_config(input, ParserConfig::default())
}

/// Checks a document.
pub fn validate_document_with_config(input: &str, config: ParserConfig) -> (r: XmlResult<()>)
    ensures
        match r {
            Ok(_) => checked_document(input@, config@) is Ok,
            Err(e) => checked_document(input@, config@) == Err::<DocumentModel, ErrorModel>(e@),
        },
        error_within(r, byte_len(input@) as int),
{
    match check_document(input, config) {
        Ok(_) => Ok(()),
        Err(e) => Err(e),
    }
}

/// Decodes bytes and checks a document with the default options.
pub fn validate_document_bytes(input: &[u8]) -> (r: XmlResult<()>)
    ensures
        match r {
            Ok(_) => checked_bytes(input@, default_config()) is Ok,
            Err(e) => checked_bytes(input@, default_config()) == Err::<DocumentModel, ErrorModel>(
                e@,
            ),
        },
{
    validate_document_bytes_with_config(input, ParserConfig::default())
}

/// Decodes bytes and checks a document.
pub fn validate_document_bytes_with_config(input: &[u8], config: ParserConfig) -> (r: XmlResult<()>)
    ensures
        match r {
            Ok(_) => checked_bytes(input@, config@) is Ok,
            Err(e) => checked_bytes(input@, config@) == Err::<DocumentModel, ErrorModel>(e@),
        },
        decoded(input@) is Ok ==> error_within(r, input@.len() as int),
{
    match count_document_bytes_with_config(input, config) {
        Ok(_) => Ok(()),
        Err(e) => Err(e),
    }
}

/// Counts the nodes of a document with the default options.
pub fn count_document(input: &str) -> (r: XmlResult<XmlTreeStats>)
    ensures
        match r {
            Ok(x) => checked_document(input@, default_config()) is Ok && counts(
                checked_document(input@, default_config())->Ok_0,
                x,
            ),
            Err(e) => checked_document(input@, default_config()) == Err::<
                DocumentModel,
                ErrorModel,
            >(e@),
        },
        error_within(r, byte_len(input@) as int),
{
    count_document_with_config(input, ParserConfig::default())
}

/// Counts the nodes of a document.
pub fn count_document_with_config(input: &str, config: ParserConfig) -> (r: XmlResult<XmlTreeStats>)
    ensures
        match r {
            Ok(x) => checked_document(input@, config@) is Ok && counts(
                checked_document(input@, config@)->Ok_0,
                x,
            ),
            Err(e) => checked_document(input@, config@) == Err::<DocumentModel, ErrorModel>(e@),
        },
        error_within(r, byte_len(input@) as int),
{
    check_document(input, config)
}

/// Decodes bytes and counts the nodes of a document with the default options.
pub fn count_document_bytes(input: &[u8]) -> (r: XmlResult<XmlTreeStats>)
    ensures
        match r {
            Ok(x) => checked_bytes(input@, default_config()) is Ok && counts(
                checked_bytes(input@, default_config())->Ok_0,
                x,
            ),
            Err(e) => checked_bytes(input@, default_config()) == Err::<DocumentModel, ErrorModel>(
                e@,
            ),
        },
{
    count_document_bytes_with_config(input, ParserConfig::default())
}

/// Decodes bytes and counts the nodes of a document.
pub fn count_document_bytes_with_config(input: &[u8], config: ParserConfig) -> (r: XmlResult<
    XmlTreeStats,
>)
    ensures
        match r {
            Ok(x) => checked_bytes(input@, config@) is Ok && counts(
                checked_bytes(input@, config@)->Ok_0,
                x,
            ),
            Err(e) => checked_bytes(input@, config@) == Err::<DocumentModel, ErrorModel>(e@),
        },
        decoded(input@) is Ok ==> error_within(r, input@.len() as int),
{
    let decoded = match decode_xml_bytes(input) {
        Err(e) => {
            return Err(e);
        },
        Ok(d) => d,
    };
    match check_document(decoded.as_str(), config) {
        Ok(x) => Ok(x),
        Err(e) => Err(decoded.translate_error(input, e)),
    }
}

/// A parser with its options.
#[derive(Clone, Copy, Debug, PartialEq, Eq)]
pub struct XmlParser {
    options: ParserConfig,
}

impl View for XmlParser {
    type V = ConfigModel;

    closed spec fn view(&self) -> ConfigModel {
        self.options@
    }
}

impl Default for XmlParser {
    fn default() -> (r: Self)
        ensures
            r@ == default_config(),
    {
        XmlParser { options: ParserConfig::default() }
    }
}

impl XmlParser {
    /// Makes a parser.
    pub fn new(options: ParserConfig) -> (r: Self)
        ensures
            r@ == options@,
    {
        XmlParser { options }
    }

    /// Makes a parser that preserves everything.
    pub fn preserving_all() -> (r: Self)
        ensures
            r@ == preserving_config(),
    {
        XmlParser { options: ParserConfig::preserve_all() }
    }

    /// Returns the options.
    pub fn options(self) -> (r: ParserConfig)
        ensures
            r@ == self@,
    {
        self.options
    }

    /// Parses a compact document.
    pub fn parse_compact(&self, input: &str) -> (r: XmlResult<XmlCompactDocument>)
        ensures
            compact_agrees(r, compact_parse(input@, self@), self@),
    {
        parse_compact_document_with_config(input.to_owned(), self.options)
    }

    /// Decodes bytes and parses a compact document.
    pub fn parse_compact_bytes(&self, input: &[u8]) -> (r: XmlResult<XmlCompactDocument>)
        ensures
            compact_agrees(r, compact_parse_bytes(input@, self@), self@),
    {
        parse_compact_document_bytes_with_config(input, self.options)
    }

    /// Parses a view.
    pub fn parse_view<'a>(&self, input: &'a str) -> (r: XmlResult<XmlDocumentView<'a>>)
        ensures
            match r {
                Ok(d) => view_parse(input@, self@) == Ok::<DocumentModel, ErrorModel>(d@),
                Err(e) => view_parse(input@, self@) == Err::<DocumentModel, ErrorModel>(e@),
            },
    {
        parse_document_view_with_config(input, self.options)
    }

    /// Parses a view with its source offsets.
    pub fn parse_view_with_source_offsets<'a>(&self, input: &'a str) -> (r: XmlResult<
        XmlDocumentViewWithSourceOffsets<'a>,
    >)
        ensures
            match r {
                Ok(d) => view_parse(input@, self@) == Ok::<DocumentModel, ErrorModel>(d.view@)
                    && locates(d.view@, d.offsets),
                Err(e) => view_parse(input@, self@) == Err::<DocumentModel, ErrorModel>(e@),
            },
    {
        parse_document_view_with_config_and_source_offsets(input, self.options)
    }

    /// Parses a compact document, or keeps the start of one.
    pub fn parse_compact_tolerant(&self, input: &str) -> (r: XmlResult<
        XmlParseOutcome<XmlCompactDocument>,
    >)
        ensures
            outcome_agrees(r, tolerant_parse(input@, self@), self@),
    {
        parse_compact_document_tolerant_with_config(input.to_owned(), self.options)
    }

    /// Decodes bytes and parses a compact document, or keeps the start of one.
    pub fn parse_compact_bytes_tolerant(&self, input: &[u8]) -> (r: XmlResult<
        XmlParseOutcome<XmlCompactDocument>,
    >)
        ensures
            outcome_agrees(r, tolerant_parse_bytes(input@, self@), self@),
    {
        parse_compact_document_bytes_tolerant_with_config(input, self.options)
    }

    /// Checks a document.
    pub fn validate(&self, input: &str) -> (r: XmlResult<()>)
        ensures
            match r {
                Ok(_) => checked_document(input@, self@) is Ok,
                Err(e) => checked_document(input@, self@) == Err::<DocumentModel, ErrorModel>(e@),
            },
    {
        validate_document_with_config(input, self.options)
    }

    /// Decodes bytes and checks a document.
    pub fn validate_bytes(&self, input: &[u8]) -> (r: XmlResult<()>)
        ensures
            match r {
                Ok(_) => checked_bytes(input@, self@) is Ok,
                Err(e) => checked_bytes(input@, self@) == Err::<DocumentModel, ErrorModel>(e@),
            },
    {
        validate_document_bytes_with_config(input, self.options)
    }

    /// Counts the nodes of a document.
    pub fn count(&self, input: &str) -> (r: XmlResult<XmlTreeStats>)
        ensures
            match r {
                Ok(x) => checked_document(input@, self@) is Ok && counts(
                    checked_document(input@, self@)->Ok_0,
                    x,
                ),
                Err(e) => checked_document(input@, self@) == Err::<DocumentModel, ErrorModel>(e@),
            },
    {
        count_document_with_config(input, self.options)
    }

    /// Decodes bytes and counts the nodes of a document.
    pub fn count_bytes(&self, input: &[u8]) -> (r: XmlResult<XmlTreeStats>)
        ensures
            match r {
                Ok(x) => checked_bytes(input@, self@) is Ok && counts(
                    checked_bytes(input@, self@)->Ok_0,
                    x,
                ),
                Err(e) => checked_bytes(input@, self@) == Err::<DocumentModel, ErrorModel>(e@),
            },
    {
        count_document_bytes_with_config(input, self.options)
    }
}

/// A tolerant parse keeps nothing at or behind the byte that its diagnostic names, and its
/// diagnostic is the error of the strict parse.
pub proof fn lemma_tolerant_parse_stops_early(s: Seq<char>, c: ConfigModel)
    requires
        tolerant_parse(s, c) is Ok,
    ensures
        match tolerant_parse(s, c)->Ok_0.diagnostic {
            Some(e) => compact_parse(s, c) == Err::<DocumentModel, ErrorModel>(e)
                && tolerant_parse(s, c)->Ok_0.consumed <= e.byte,
            None => compact_parse(s, c) == Ok::<DocumentModel, ErrorModel>(
                tolerant_parse(s, c)->Ok_0.value,
            ) && tolerant_parse(s, c)->Ok_0.consumed == byte_len(s),
        },
{
    if let Err(e) = compact_parse(s, c) {
        let last = crate::encoding::char_before(s, s.len() as int, e.byte);
        crate::recovery::lemma_recovered_within(s, last, last, c);
        crate::recovery::lemma_char_before_byte(s, s.len() as int, e.byte);
        if let Some((m, k)) = recovered(s, e.byte, c) {
            crate::text::lemma_byte_offset_monotone(s, k, last);
        }
    }
}

} // verus!
