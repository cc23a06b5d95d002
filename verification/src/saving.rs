//! A document that is saved and opened again is the same document.

use vstd::prelude::*;

use crate::compact::{compact_parse, lemma_parsed_well_built};
use crate::config::preserving_config;
use crate::declaration::{
    ascii_digit, ascii_letter, declaration_rest, pseudo_attribute, pseudo_value_close,
    version_number,
};
use crate::document::{parsed, DocumentModel};
use crate::dom::{InstructionModel, NodeModel};
use crate::encoding::{declared_label, labelled, XmlInputEncoding};
use crate::error::{ErrorModel, FaultModel};
use crate::facade::{document_output, opened, plain_document, StateModel};
use crate::grammar::MAX_DOM_DEPTH;
use crate::growth::lemma_grown_means_the_same;
use crate::lexeme::XmlVersion;
use crate::parser::compact_parse_bytes;
use crate::reopening::{
    lemma_document_chars, lemma_document_parts, lemma_document_round_trip, lemma_literal_is_tree,
    lemma_nothing_expanded, writable_declaration, writable_document, written_declaration,
    written_version,
};
use crate::scan::{keyword_at, space_end};
use crate::serialize::{
    default_options, document_text, encoded, encoding_label, PlainDocument, XmlDeclarationMode,
    XmlOutputEncoding, XmlSerializeOptions,
};
use crate::syntax::space;
use crate::text::{byte_len, find_from, lemma_byte_len_concat, starts_at};
use crate::transcoding::{label_fits, lemma_bytes_round_trip};
use crate::tree::snapshot;
use crate::unescape::{clean_char, lemma_starts_index};

verus! {

/// The document `t` has the content of `s`: the same root, the same nodes beside it, the same
/// document type declaration and the XML declaration that was written.
pub open spec fn same_content(
    s: StateModel,
    root: NodeModel,
    options: XmlSerializeOptions,
    t: StateModel,
) -> bool {
    &&& snapshot(t.root, t.reading) == Ok::<NodeModel, ErrorModel>(root)
    &&& t.before == s.before
    &&& t.after == s.after
    &&& t.doctype == s.doctype
    &&& t.declaration == written_declaration(plain_document(s, root), options)
}

/// What is written of a document, parsed again, is a document with the same content.
///
/// This is for documents that are written from their tree. One that was built and not edited is
/// written as its source under the default options.
pub proof fn lemma_saved_and_opened(
    s: StateModel,
    root: NodeModel,
    options: XmlSerializeOptions,
    lineage: u64,
    document: u64,
    verbatim: bool,
)
    requires
        snapshot(s.root, s.reading) == Ok::<NodeModel, ErrorModel>(root),
        writable_document(plain_document(s, root), options),
        byte_len(document_text(plain_document(s, root), options)) <= u32::MAX,
        !(options == default_options() && s.verbatim && !s.edited),
    ensures
        document_output(s, options) matches Ok(text) && (compact_parse(text, preserving_config())
            matches Ok(m) && same_content(
            s,
            root,
            options,
            opened(m, preserving_config(), lineage, document, verbatim),
        )),
{
    lemma_opened_root(plain_document(s, root), options, lineage, document, verbatim);
}

/// The document has the given root and nothing beside it.
pub open spec fn same_root(root: NodeModel, t: StateModel) -> bool {
    &&& snapshot(t.root, t.reading) == Ok::<NodeModel, ErrorModel>(root)
    &&& t.before.len() == 0
    &&& t.after.len() == 0
    &&& t.doctype is None
    &&& t.declaration is None
}

/// A document that is written and parsed again opens with the root it had.
pub proof fn lemma_opened_root(
    d: PlainDocument,
    options: XmlSerializeOptions,
    lineage: u64,
    document: u64,
    verbatim: bool,
)
    requires
        writable_document(d, options),
        byte_len(document_text(d, options)) <= u32::MAX,
    ensures
        compact_parse(document_text(d, options), preserving_config()) matches Ok(m) && ({
            let t = opened(m, preserving_config(), lineage, document, verbatim);
            &&& snapshot(t.root, t.reading) == Ok::<NodeModel, ErrorModel>(d.root)
            &&& t.before == d.before
            &&& t.after == d.after
            &&& t.doctype == d.doctype
            &&& t.declaration == written_declaration(d, options)
        }),
{
    let text = document_text(d, options);
    let c = preserving_config();
    lemma_document_round_trip(d, options);
    lemma_nothing_expanded(d, options);
    let m = compact_parse(text, c)->Ok_0;
    assert(parsed(text, c) == Ok::<DocumentModel, FaultModel>(m));
    lemma_parsed_well_built(text, c);
    let t = opened(m, c, lineage, document, verbatim);
    lemma_grown_means_the_same(m.text, m.root, 0, t.reading, MAX_DOM_DEPTH as int);
    match written_declaration(d, options) {
        Some(x) => {
            assert(InstructionModel { target: "xml"@, data: x.data } == x);
        },
        None => {},
    }
}

/// A document that is saved as bytes and read from them is a document with the same content.
///
/// The XML declaration, if it names an encoding, has to name the one that is written, and a
/// document in UTF-16 without a byte order mark has to start with an instruction.
pub proof fn lemma_saved_as_bytes(
    s: StateModel,
    root: NodeModel,
    options: XmlSerializeOptions,
    lineage: u64,
    document: u64,
    verbatim: bool,
)
    requires
        snapshot(s.root, s.reading) == Ok::<NodeModel, ErrorModel>(root),
        writable_document(plain_document(s, root), options),
        byte_len(document_text(plain_document(s, root), options)) <= u32::MAX,
        !(options == default_options() && s.verbatim && !s.edited),
        ({
            let plain = XmlSerializeOptions { write_bom: false, ..options };
            let t = document_text(plain_document(s, root), plain);
            &&& label_fits(t, options.encoding)
            &&& !options.write_bom && options.encoding != XmlOutputEncoding::Utf8 ==> t[1] == '?'
            &&& !options.write_bom && options.encoding == XmlOutputEncoding::Utf8 ==> (
            declared_label(vstd::utf8::encode_utf8(t)) matches Ok(Some(label)) ==> labelled(label)
                == Some(XmlInputEncoding::Utf8))
        }),
    ensures
        document_output(s, options) matches Ok(text) && (compact_parse_bytes(
            encoded(text, options.encoding),
            preserving_config(),
        ) matches Ok(m) && same_content(
            s,
            root,
            options,
            opened(m, preserving_config(), lineage, document, verbatim),
        )),
{
    let d = plain_document(s, root);
    let plain = XmlSerializeOptions { write_bom: false, ..options };
    let t = document_text(d, plain);
    let text = document_text(d, options);
    assert(written_declaration(d, plain) == written_declaration(d, options));
    lemma_document_chars(d, plain);
    lemma_literal_is_tree(t, written_version(d, plain));
    lemma_document_parts(d, plain);
    lemma_document_mark(d, options);
    lemma_bytes_round_trip(t, options.encoding, options.write_bom);
    lemma_mark_len(d, options);
    lemma_opened_root(d, plain, lineage, document, verbatim);
}

/// A byte order mark stands before everything else.
proof fn lemma_document_mark(d: PlainDocument, options: XmlSerializeOptions)
    ensures
        ({
            let plain = XmlSerializeOptions { write_bom: false, ..options };
            document_text(d, options) == (if options.write_bom {
                seq!['\u{feff}'] + document_text(d, plain)
            } else {
                document_text(d, plain)
            })
        }),
{
    let plain = XmlSerializeOptions { write_bom: false, ..options };
    let text = document_text(d, options);
    if options.write_bom {
        assert(text =~= seq!['\u{feff}'] + document_text(d, plain));
    } else {
        assert(text =~= document_text(d, plain));
    }
}

/// A document is no longer without its mark.
proof fn lemma_mark_len(d: PlainDocument, options: XmlSerializeOptions)
    ensures
        byte_len(document_text(d, XmlSerializeOptions { write_bom: false, ..options })) <= byte_len(
            document_text(d, options),
        ),
{
    let plain = XmlSerializeOptions { write_bom: false, ..options };
    lemma_document_mark(d, options);
    lemma_byte_len_concat(seq!['\u{feff}'], document_text(d, plain));
}

/// The XML declaration that is made up where there is none reads back as it is.
pub proof fn lemma_generated_declaration(d: PlainDocument, options: XmlSerializeOptions)
    requires
        options.declaration == XmlDeclarationMode::Always,
        d.declaration is None,
    ensures
        written_declaration(d, options) matches Some(i) && writable_declaration(
            i,
            XmlVersion::Xml10,
        ),
{
    reveal_strlit("version=\"1.0\" encoding=\"");
    reveal_strlit("\"");
    reveal_strlit("UTF-8");
    reveal_strlit("UTF-16");
    reveal_strlit("?>");
    let label = encoding_label(options.encoding);
    let a = "version=\"1.0\" encoding=\""@;
    let s = a + label + "\""@;
    assert(a.len() == 24);
    let n = label.len() as int;
    assert(n == 5 || n == 6);
    assert forall|k: int| 0 <= k < n implies (ascii_letter(#[trigger] label[k]) || ascii_digit(label[k])
        || label[k] == '-') by {}
    assert forall|k: int| 0 <= k < s.len() implies #[trigger] s[k] != '\r' && s[k] != '?'
        && clean_char(s[k], XmlVersion::Xml10) by {
        if 24 <= k < 24 + n {
            assert(s[k] == label[k - 24]);
        }
    }
    lemma_absent_text(s, 0);
    lemma_declared_start(s, label);
    lemma_declared_encoding(s, label);
}

/// A text without a question mark holds no end of an instruction.
proof fn lemma_absent_text(s: Seq<char>, i: int)
    requires
        0 <= i,
        forall|k: int| 0 <= k < s.len() ==> #[trigger] s[k] != '?',
    ensures
        find_from(s, i, "?>"@) is None,
    decreases s.len() + 1 - i,
{
    reveal_strlit("?>");
    if i <= s.len() {
        if starts_at(s, i, "?>"@) {
            lemma_starts_index(s, i, "?>"@);
            assert("?>"@[0] == s[i + 0]);
        }
        lemma_absent_text(s, i + 1);
    }
}

/// The value of a pseudo-attribute ends at its quotation mark.
proof fn lemma_value_close(s: Seq<char>, i: int, k: int)
    requires
        0 <= i <= k < s.len(),
        s[k] == '"',
        forall|j: int|
            i <= j < k ==> #[trigger] s[j] != '"' && !space(s[j]) && s[j] != '<' && s[j] != '&',
    ensures
        pseudo_value_close(s, i, '"') == Some(k),
    decreases k - i,
{
    if i < k {
        lemma_value_close(s, i + 1, k);
    }
}

/// The version that is made up.
proof fn lemma_declared_start(s: Seq<char>, label: Seq<char>)
    requires
        s == "version=\"1.0\" encoding=\""@ + label + "\""@,
    ensures
        pseudo_attribute(s, 0, "version"@) == Some((9int, 12int)),
        version_number(s.subrange(9, 12)) == Some(XmlVersion::Xml10),
{
    reveal_strlit("version=\"1.0\" encoding=\"");
    reveal_strlit("\"");
    reveal_strlit("version");
    reveal_strlit("1.1");
    reveal_strlit("1.");
    assert(s.subrange(0, 7) =~= "version"@);
    assert(s[7] == '=');
    assert(space_end(s, 7) == 7);
    assert(s[8] == '"');
    assert(space_end(s, 8) == 8);
    lemma_value_close(s, 9, 12);
    let v = s.subrange(9, 12);
    assert(v[0] == '1' && v[1] == '.' && v[2] == '0');
    assert("1.1"@[2] == '1');
    assert(v.subrange(0, 2) =~= "1."@);
}

/// The encoding that is made up.
proof fn lemma_declared_encoding(s: Seq<char>, label: Seq<char>)
    requires
        s == "version=\"1.0\" encoding=\""@ + label + "\""@,
        label.len() > 0,
        ascii_letter(label[0]),
        forall|k: int|
            0 <= k < label.len() ==> (ascii_letter(#[trigger] label[k]) || ascii_digit(label[k])
                || label[k] == '-'),
    ensures
        declaration_rest(s, 13, false, false),
{
    reveal_strlit("version=\"1.0\" encoding=\"");
    reveal_strlit("\"");
    reveal_strlit("encoding");
    let n = label.len() as int;
    let close = 24 + n;
    assert(s[13] == ' ');
    assert(s[14] == 'e');
    assert(space_end(s, 14) == 14);
    assert(space_end(s, 13) == 14);
    assert(s.subrange(14, 22) =~= "encoding"@);
    assert(s[22] == '=');
    assert(space_end(s, 22) == 22);
    assert(s[23] == '"');
    assert(space_end(s, 23) == 23);
    assert forall|j: int| 24 <= j < close implies #[trigger] s[j] != '"' && !space(s[j]) && s[j]
        != '<' && s[j] != '&' by {
        assert(s[j] == label[j - 24]);
    }
    assert(s[close] == '"');
    lemma_value_close(s, 24, close);
    assert(s.subrange(24, close) =~= label);
    assert(s.len() == close + 1);
    assert(space_end(s, close + 1) == close + 1);
    assert(declaration_rest(s, close + 1, true, false));
    assert(keyword_at(s, 14, "encoding"@));
    assert(pseudo_attribute(s, 14, "encoding"@) == Some((24int, close)));
}

} // verus!
