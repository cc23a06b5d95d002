//! Writing trees and documents as text and as bytes.

use vstd::prelude::*;
use vstd::utf8::encode_utf8;

use crate::dom::{
    attribute_models, node_models, weight, weights, AttributeModel, DoctypeModel, ElementModel,
    InstructionModel, NodeModel, XmlAttribute, XmlDoctype, XmlElement, XmlNode,
    XmlProcessingInstruction,
};
use crate::error::{ErrorModel, XmlError};
use crate::text::{chars_of, push_text, starts_at, starts_with};

verus! {

/// When a document starts with a declaration.
#[derive(Clone, Copy, Debug, PartialEq, Eq, Structural)]
pub enum XmlDeclarationMode {
    /// If the document has one.
    Preserve,
    /// Always; a document without one gets one that names the version and the encoding.
    Always,
    /// Never.
    Omit,
}

/// The quotation mark around attribute values.
#[derive(Clone, Copy, Debug, PartialEq, Eq, Structural)]
pub enum XmlQuoteStyle {
    Double,
    Single,
}

/// The encoding of the bytes that are written.
#[derive(Clone, Copy, Debug, PartialEq, Eq, Structural)]
pub enum XmlOutputEncoding {
    Utf8,
    Utf16Le,
    Utf16Be,
}

/// How a document is written.
#[derive(Clone, Copy, Debug, PartialEq, Eq, Structural)]
pub struct XmlSerializeOptions {
    pub declaration: XmlDeclarationMode,
    pub write_bom: bool,
    pub quote_style: XmlQuoteStyle,
    pub encoding: XmlOutputEncoding,
}

/// The options that are used where none are given.
pub open spec fn default_options() -> XmlSerializeOptions {
    XmlSerializeOptions {
        declaration: XmlDeclarationMode::Preserve,
        write_bom: false,
        quote_style: XmlQuoteStyle::Double,
        encoding: XmlOutputEncoding::Utf8,
    }
}

impl Default for XmlSerializeOptions {
    fn default() -> (r: Self)
        ensures
            r == default_options(),
    {
        XmlSerializeOptions {
            declaration: XmlDeclarationMode::Preserve,
            write_bom: false,
            quote_style: XmlQuoteStyle::Double,
            encoding: XmlOutputEncoding::Utf8,
        }
    }
}

/// Why a tree could not be written.
#[derive(Clone, Debug, PartialEq, Eq)]
pub enum XmlWriteError {
    /// A value that is kept as it stands in the source cannot be decoded.
    Parse(XmlError),
}

impl View for XmlWriteError {
    type V = ErrorModel;

    open spec fn view(&self) -> ErrorModel {
        match self {
            XmlWriteError::Parse(e) => e@,
        }
    }
}

/// What is written for a character of a text.
pub open spec fn text_escape(c: char) -> Seq<char> {
    match c {
        '&' => "&amp;"@,
        '<' => "&lt;"@,
        '>' => "&gt;"@,
        '\r' => "&#xD;"@,
        _ => seq![c],
    }
}

/// What is written for a character of an attribute value.
pub open spec fn attribute_escape(c: char, quote: XmlQuoteStyle) -> Seq<char> {
    match c {
        '&' => "&amp;"@,
        '<' => "&lt;"@,
        '\t' => "&#x9;"@,
        '\n' => "&#xA;"@,
        '\r' => "&#xD;"@,
        '"' => if quote == XmlQuoteStyle::Double {
            "&quot;"@
        } else {
            seq![c]
        },
        '\'' => if quote == XmlQuoteStyle::Single {
            "&apos;"@
        } else {
            seq![c]
        },
        _ => seq![c],
    }
}

/// What is written for a text.
pub open spec fn escaped_text(s: Seq<char>) -> Seq<char>
    decreases s.len(),
{
    if s.len() == 0 {
        Seq::empty()
    } else {
        escaped_text(s.drop_last()) + text_escape(s.last())
    }
}

/// What is written for an attribute value.
pub open spec fn escaped_attribute(s: Seq<char>, quote: XmlQuoteStyle) -> Seq<char>
    decreases s.len(),
{
    if s.len() == 0 {
        Seq::empty()
    } else {
        escaped_attribute(s.drop_last(), quote) + attribute_escape(s.last(), quote)
    }
}

/// The quotation mark of a style.
pub open spec fn quote_char(quote: XmlQuoteStyle) -> char {
    match quote {
        XmlQuoteStyle::Double => '"',
        XmlQuoteStyle::Single => '\'',
    }
}

/// What is written for the first `k` attributes.
pub open spec fn attributes_text(a: Seq<AttributeModel>, k: int, quote: XmlQuoteStyle) -> Seq<char>
    decreases k,
{
    if k <= 0 || k > a.len() {
        Seq::empty()
    } else {
        attributes_text(a, k - 1, quote) + attribute_text(a[k - 1], quote)
    }
}

/// What is written for an attribute, with a space before it.
pub open spec fn attribute_text(a: AttributeModel, quote: XmlQuoteStyle) -> Seq<char> {
    seq![' '] + a.name + seq!['=', quote_char(quote)] + escaped_attribute(a.value, quote)
        + seq![quote_char(quote)]
}

/// The content of CDATA sections for `s` from `i` on, behind `out`: a section ends where its end
/// mark occurs in `s`, and another one starts.
pub open spec fn cdata_from(s: Seq<char>, i: int, out: Seq<char>) -> Seq<char>
    decreases
            (if i < s.len() {
                s.len() - i
            } else {
                0
            }),
{
    if i < 0 || i >= s.len() {
        out
    } else if starts_at(s, i, "]]>"@) {
        cdata_from(s, i + 3, out + "]]]]><![CDATA[>"@)
    } else {
        cdata_from(s, i + 1, out.push(s[i]))
    }
}

/// What is written for CDATA.
pub open spec fn cdata_text(s: Seq<char>) -> Seq<char> {
    "<![CDATA["@ + cdata_from(s, 0, Seq::empty()) + "]]>"@
}

/// What is written for an instruction.
pub open spec fn instruction_text(i: InstructionModel) -> Seq<char> {
    "<?"@ + i.target + (if i.data.len() == 0 {
        Seq::empty()
    } else {
        seq![' '] + i.data
    }) + "?>"@
}

/// What is written for a node.
pub open spec fn node_text(n: NodeModel, quote: XmlQuoteStyle) -> Seq<char>
    decreases n, 0int,
{
    match n {
        NodeModel::Element(e) => seq!['<'] + e.name + attributes_text(
            e.attributes,
            e.attributes.len() as int,
            quote,
        ) + (if e.children.len() == 0 {
            "/>"@
        } else {
            seq!['>'] + nodes_text(e.children, e.children.len() as int, quote) + "</"@ + e.name
                + seq!['>']
        }),
        NodeModel::Text(s) => escaped_text(s),
        NodeModel::Cdata(s) => cdata_text(s),
        NodeModel::Comment(s) => "<!--"@ + s + "-->"@,
        NodeModel::ProcessingInstruction(i) => instruction_text(i),
    }
}

/// What is written for the first `k` nodes.
pub open spec fn nodes_text(n: Seq<NodeModel>, k: int, quote: XmlQuoteStyle) -> Seq<char>
    decreases n, k,
{
    if k <= 0 || k > n.len() {
        Seq::empty()
    } else {
        nodes_text(n, k - 1, quote) + node_text(n[k - 1], quote)
    }
}

/// An identifier in quotation marks: double ones, unless it holds one.
pub open spec fn quoted(s: Seq<char>) -> Seq<char> {
    let q = if s.contains('"') {
        '\''
    } else {
        '"'
    };
    seq![q] + s + seq![q]
}

/// What is written for a document type declaration.
pub open spec fn doctype_text(d: DoctypeModel) -> Seq<char> {
    "<!DOCTYPE "@ + d.name + external_text(d) + (match d.internal_subset {
        Some(x) => " ["@ + x + "]"@,
        None => Seq::empty(),
    }) + ">"@
}

/// What is written for the identifiers of a document type declaration.
pub open spec fn external_text(d: DoctypeModel) -> Seq<char> {
    match (d.public_id, d.system_id) {
        (Some(p), Some(y)) => " PUBLIC "@ + quoted(p) + seq![' '] + quoted(y),
        (Some(p), None) => " PUBLIC "@ + quoted(p),
        (None, Some(y)) => " SYSTEM "@ + quoted(y),
        (None, None) => Seq::empty(),
    }
}

/// The name of an encoding.
pub open spec fn encoding_label(e: XmlOutputEncoding) -> Seq<char> {
    match e {
        XmlOutputEncoding::Utf8 => "UTF-8"@,
        _ => "UTF-16"@,
    }
}

/// What is written for the declaration.
pub open spec fn declaration_text(
    d: Option<InstructionModel>,
    options: XmlSerializeOptions,
) -> Seq<char> {
    match options.declaration {
        XmlDeclarationMode::Omit => Seq::empty(),
        XmlDeclarationMode::Preserve => match d {
            Some(i) => instruction_text(i),
            None => Seq::empty(),
        },
        XmlDeclarationMode::Always => match d {
            Some(i) => instruction_text(i),
            None => "<?xml version=\"1.0\" encoding=\""@ + encoding_label(options.encoding)
                + "\"?>"@,
        },
    }
}

/// A document with decoded values.
#[verifier::ext_equal]
pub struct PlainDocument {
    pub declaration: Option<InstructionModel>,
    pub doctype: Option<DoctypeModel>,
    pub doctype_index: int,
    pub before: Seq<NodeModel>,
    pub root: NodeModel,
    pub after: Seq<NodeModel>,
}

/// What is written before the root: the document type declaration stands behind the first
/// `doctype_index` nodes.
pub open spec fn prolog_text(d: PlainDocument, quote: XmlQuoteStyle) -> Seq<char> {
    let i = if 0 <= d.doctype_index <= d.before.len() {
        d.doctype_index
    } else {
        d.before.len() as int
    };
    nodes_text(d.before.take(i), i, quote) + (match d.doctype {
        Some(x) => doctype_text(x),
        None => Seq::empty(),
    }) + nodes_text(d.before.skip(i), d.before.len() - i, quote)
}

/// What is written for a document.
pub open spec fn document_text(d: PlainDocument, options: XmlSerializeOptions) -> Seq<char> {
    (if options.write_bom {
        seq!['\u{feff}']
    } else {
        Seq::empty()
    }) + declaration_text(d.declaration, options) + prolog_text(d, options.quote_style)
        + node_text(d.root, options.quote_style) + nodes_text(
        d.after,
        d.after.len() as int,
        options.quote_style,
    )
}

/// The code units of a character in UTF-16.
pub open spec fn utf16_units(c: char) -> Seq<u16> {
    let x = c as u32;
    if x < 0x10000 {
        seq![x as u16]
    } else {
        seq![(0xd800 + (x - 0x10000) / 0x400) as u16, (0xdc00 + (x - 0x10000) % 0x400) as u16]
    }
}

/// The bytes of a code unit.
pub open spec fn unit_bytes(u: u16, little: bool) -> Seq<u8> {
    if little {
        seq![(u % 256) as u8, (u / 256) as u8]
    } else {
        seq![(u / 256) as u8, (u % 256) as u8]
    }
}

/// The bytes of a character in UTF-16.
pub open spec fn utf16_char(c: char, little: bool) -> Seq<u8> {
    let u = utf16_units(c);
    if u.len() == 1 {
        unit_bytes(u[0], little)
    } else {
        unit_bytes(u[0], little) + unit_bytes(u[1], little)
    }
}

/// The bytes of a text in UTF-16.
pub open spec fn utf16_bytes(s: Seq<char>, little: bool) -> Seq<u8>
    decreases s.len(),
{
    if s.len() == 0 {
        Seq::empty()
    } else {
        utf16_bytes(s.drop_last(), little) + utf16_char(s.last(), little)
    }
}

/// The bytes of a text.
pub open spec fn encoded(s: Seq<char>, e: XmlOutputEncoding) -> Seq<u8> {
    match e {
        XmlOutputEncoding::Utf8 => encode_utf8(s),
        XmlOutputEncoding::Utf16Le => utf16_bytes(s, true),
        XmlOutputEncoding::Utf16Be => utf16_bytes(s, false),
    }
}

/// Writes a text.
pub(crate) fn write_text(s: &str, out: &mut Vec<char>)
    ensures
        final(out)@ == old(out)@ + escaped_text(s@),
{
    let v = chars_of(s);
    let ghost start = out@;
    proof {
        assert(v@.take(0) =~= Seq::<char>::empty());
        assert(start + escaped_text(v@.take(0)) =~= start);
    }
    let mut k: usize = 0;
    while k < v.len()
        invariant
            k <= v@.len(),
            v@ == s@,
            out@ == start + escaped_text(s@.take(k as int)),
        decreases v@.len() - k,
    {
        let c = v[k];
        proof {
            assert(s@.take(k + 1).drop_last() =~= s@.take(k as int));
        }
        let ghost before = out@;
        match c {
            '&' => push_text(out, "&amp;"),
            '<' => push_text(out, "&lt;"),
            '>' => push_text(out, "&gt;"),
            '\r' => push_text(out, "&#xD;"),
            _ => {
                out.push(c);
                proof {
                    assert(out@ =~= before + seq![c]);
                }
            },
        }
        proof {
            assert(out@ =~= start + (escaped_text(s@.take(k as int)) + text_escape(c)));
        }
        k = k + 1;
    }
    proof {
        assert(s@.take(k as int) =~= s@);
    }
}

/// Writes an attribute value.
pub(crate) fn write_attribute_value(s: &str, quote: XmlQuoteStyle, out: &mut Vec<char>)
    ensures
        final(out)@ == old(out)@ + escaped_attribute(s@, quote),
{
    let v = chars_of(s);
    let ghost start = out@;
    proof {
        assert(v@.take(0) =~= Seq::<char>::empty());
        assert(start + escaped_attribute(v@.take(0), quote) =~= start);
    }
    let mut k: usize = 0;
    while k < v.len()
        invariant
            k <= v@.len(),
            v@ == s@,
            out@ == start + escaped_attribute(s@.take(k as int), quote),
        decreases v@.len() - k,
    {
        let c = v[k];
        proof {
            assert(s@.take(k + 1).drop_last() =~= s@.take(k as int));
        }
        let ghost before = out@;
        match c {
            '&' => push_text(out, "&amp;"),
            '<' => push_text(out, "&lt;"),
            '\t' => push_text(out, "&#x9;"),
            '\n' => push_text(out, "&#xA;"),
            '\r' => push_text(out, "&#xD;"),
            _ => {
                if c == '"' && quote == XmlQuoteStyle::Double {
                    push_text(out, "&quot;");
                } else if c == '\'' && quote == XmlQuoteStyle::Single {
                    push_text(out, "&apos;");
                } else {
                    out.push(c);
                    proof {
                        assert(out@ =~= before + seq![c]);
                    }
                }
            },
        }
        proof {
            assert(out@ =~= start + (escaped_attribute(s@.take(k as int), quote)
                + attribute_escape(c, quote)));
        }
        k = k + 1;
    }
    proof {
        assert(s@.take(k as int) =~= s@);
    }
}

/// Writes attributes.
fn write_attributes(a: &Vec<XmlAttribute>, quote: XmlQuoteStyle, out: &mut Vec<char>)
    ensures
        final(out)@ == old(out)@ + attributes_text(attribute_models(a@), a@.len() as int, quote),
{
    let ghost start = out@;
    let ghost m = attribute_models(a@);
    let q: char = match quote {
        XmlQuoteStyle::Double => '"',
        XmlQuoteStyle::Single => '\'',
    };
    proof {
        assert(start + attributes_text(m, 0, quote) =~= start);
    }
    let mut k: usize = 0;
    while k < a.len()
        invariant
            k <= a@.len(),
            m == attribute_models(a@),
            q == quote_char(quote),
            out@ == start + attributes_text(m, k as int, quote),
        decreases a@.len() - k,
    {
        out.push(' ');
        push_text(out, a[k].name.as_str());
        out.push('=');
        out.push(q);
        write_attribute_value(a[k].value.as_str(), quote, out);
        out.push(q);
        proof {
            assert(m[k as int] == a@[k as int]@);
            assert(out@ =~= start + (attributes_text(m, k as int, quote) + attribute_text(
                m[k as int],
                quote,
            )));
        }
        k = k + 1;
    }
}

/// Writes the content of CDATA.
pub(crate) fn write_cdata(s: &str, out: &mut Vec<char>)
    ensures
        final(out)@ == old(out)@ + cdata_text(s@),
{
    let v = chars_of(s);
    let ghost start = out@;
    push_text(out, "<![CDATA[");
    let ghost open = out@;
    let ghost mut content = Seq::<char>::empty();
    proof {
        reveal_strlit("]]>");
        assert(open =~= open + content);
    }
    let mut k: usize = 0;
    while k < v.len()
        invariant
            k <= v@.len(),
            v@ == s@,
            "]]>"@.len() == 3,
            out@ == open + content,
            cdata_from(s@, 0, Seq::empty()) == cdata_from(s@, k as int, content),
        decreases v@.len() - k,
    {
        if starts_with(v.as_slice(), k, "]]>") {
            push_text(out, "]]]]><![CDATA[>");
            k = k + 3;
            proof {
                content = content + "]]]]><![CDATA[>"@;
                assert(out@ =~= open + content);
            }
        } else {
            let c = v[k];
            out.push(c);
            k = k + 1;
            proof {
                content = content.push(c);
                assert(out@ =~= open + content);
            }
        }
    }
    push_text(out, "]]>");
    proof {
        assert(out@ =~= start + cdata_text(s@));
    }
}

/// Writes an instruction.
pub(crate) fn write_instruction(target: &str, data: &str, out: &mut Vec<char>)
    ensures
        final(out)@ == old(out)@ + instruction_text(InstructionModel { target: target@, data: data@ }),
{
    let ghost start = out@;
    push_text(out, "<?");
    push_text(out, target);
    let v = chars_of(data);
    if v.len() > 0 {
        out.push(' ');
        push_text(out, data);
    }
    push_text(out, "?>");
    proof {
        assert(out@ =~= start + instruction_text(
            InstructionModel { target: target@, data: data@ },
        ));
    }
}

/// Writes a comment.
pub(crate) fn write_comment(s: &str, out: &mut Vec<char>)
    ensures
        final(out)@ == old(out)@ + ("<!--"@ + s@ + "-->"@),
{
    let ghost start = out@;
    push_text(out, "<!--");
    push_text(out, s);
    push_text(out, "-->");
    proof {
        assert(out@ =~= start + ("<!--"@ + s@ + "-->"@));
    }
}

/// What is written for the nodes from `k` on.
spec fn rest_text(n: Seq<NodeModel>, k: int, quote: XmlQuoteStyle) -> Seq<char>
    decreases n.len() - k,
{
    if k < 0 || k >= n.len() {
        Seq::empty()
    } else {
        node_text(n[k], quote) + rest_text(n, k + 1, quote)
    }
}

/// What is written for nodes is what is written for the first of them and for the rest.
proof fn lemma_rest_text(n: Seq<NodeModel>, k: int, quote: XmlQuoteStyle)
    requires
        0 <= k <= n.len(),
    ensures
        nodes_text(n, n.len() as int, quote) == nodes_text(n, k, quote) + rest_text(n, k, quote),
    decreases n.len() - k,
{
    if k == n.len() {
        assert(nodes_text(n, k, quote) + rest_text(n, k, quote) =~= nodes_text(n, k, quote));
    } else {
        lemma_rest_text(n, k + 1, quote);
        assert(nodes_text(n, k + 1, quote) == nodes_text(n, k, quote) + node_text(n[k], quote));
        assert(nodes_text(n, k, quote) + rest_text(n, k, quote) =~= nodes_text(n, k + 1, quote)
            + rest_text(n, k + 1, quote));
    }
}

/// What is written for an element with children, piece by piece.
proof fn lemma_element_pieces(e: &XmlElement, quote: XmlQuoteStyle)
    requires
        e.model().children.len() > 0,
    ensures
        node_text(NodeModel::Element(e.model()), quote) == (open_text(e.model(), quote)
            + seq!['>']) + (rest_text(e.model().children, 0, quote) + close_text(Some(e))),
{
    let m = e.model();
    let inner = nodes_text(m.children, m.children.len() as int, quote);
    lemma_rest_text(m.children, 0, quote);
    assert(inner =~= rest_text(m.children, 0, quote));
    assert(node_text(NodeModel::Element(m), quote) =~= (open_text(m, quote) + seq!['>']) + (inner
        + close_text(Some(e))));
}

/// Text is put together in any order.
proof fn lemma_joined(a: Seq<char>, b: Seq<char>, c: Seq<char>)
    ensures
        a + (b + c) == (a + b) + c,
{
    assert(a + (b + c) =~= (a + b) + c);
}

/// What is still to be written, the uppermost list first.
proof fn lemma_pending(
    st: Seq<Writing<'_>>,
    below: Seq<Writing<'_>>,
    top: Writing<'_>,
    quote: XmlQuoteStyle,
)
    requires
        st == below.push(top),
    ensures
        pending_text(st, quote) == rest_text(node_models(top.nodes@), top.at as int, quote) + (
        close_text(top.of) + pending_text(below, quote)),
        unwritten(st) == unwritten(below) + 2 * weights(node_models(top.nodes@), top.at as int)
            + 1,
{
    assert(st.drop_last() =~= below);
    assert(st.last() == top);
    lemma_joined(
        rest_text(node_models(top.nodes@), top.at as int, quote),
        close_text(top.of),
        pending_text(below, quote),
    );
}

/// A list of nodes that is being written, and the element that ends behind them; those before
/// `at` are written.
struct Writing<'a> {
    of: Option<&'a XmlElement>,
    nodes: &'a Vec<XmlNode>,
    at: usize,
}

/// What is written for the end of an element.
spec fn close_text(of: Option<&XmlElement>) -> Seq<char> {
    match of {
        Some(e) => "</"@ + e.model().name + seq!['>'],
        None => Seq::empty(),
    }
}

/// What is written for an element before its children.
spec fn open_text(e: ElementModel, quote: XmlQuoteStyle) -> Seq<char> {
    seq!['<'] + e.name + attributes_text(e.attributes, e.attributes.len() as int, quote)
}

/// What is still to be written.
spec fn pending_text(st: Seq<Writing<'_>>, quote: XmlQuoteStyle) -> Seq<char>
    decreases st.len(),
{
    if st.len() == 0 {
        Seq::empty()
    } else {
        let top = st.last();
        rest_text(node_models(top.nodes@), top.at as int, quote) + close_text(top.of)
            + pending_text(st.drop_last(), quote)
    }
}

/// How much is left to write.
spec fn unwritten(st: Seq<Writing<'_>>) -> nat
    decreases st.len(),
{
    if st.len() == 0 {
        0
    } else {
        unwritten(st.drop_last()) + 2 * weights(
            node_models(st.last().nodes@),
            st.last().at as int,
        ) + 1
    }
}

/// Writes a node that is no element.
fn write_leaf(n: &XmlNode, quote: XmlQuoteStyle, out: &mut Vec<char>)
    requires
        !(n is Element),
    ensures
        final(out)@ == old(out)@ + node_text(n.model(), quote),
{
    match n {
        XmlNode::Element(_) => {},
        XmlNode::Text(s) => write_text(s.as_str(), out),
        XmlNode::Cdata(s) => write_cdata(s.as_str(), out),
        XmlNode::Comment(s) => write_comment(s.as_str(), out),
        XmlNode::ProcessingInstruction(i) => write_instruction(
            i.target.as_str(),
            i.data.as_str(),
            out,
        ),
    }
}

/// Writes an element up to its children.
fn write_open(e: &XmlElement, quote: XmlQuoteStyle, out: &mut Vec<char>)
    ensures
        final(out)@ == old(out)@ + open_text(e.model(), quote),
{
    let ghost start = out@;
    out.push('<');
    push_text(out, e.name.as_str());
    write_attributes(&e.attributes, quote, out);
    proof {
        assert(out@ =~= start + open_text(e.model(), quote));
    }
}

/// Writes the end of an element.
fn write_close(e: &XmlElement, out: &mut Vec<char>)
    ensures
        final(out)@ == old(out)@ + close_text(Some(e)),
{
    let ghost start = out@;
    push_text(out, "</");
    push_text(out, e.name.as_str());
    out.push('>');
    proof {
        assert(out@ =~= start + close_text(Some(e)));
    }
}

/// Writes a node.
pub(crate) fn write_node(n: &XmlNode, quote: XmlQuoteStyle, out: &mut Vec<char>)
    ensures
        final(out)@ == old(out)@ + node_text(n.model(), quote),
{
    match n {
        XmlNode::Element(e) => write_element(e, quote, out),
        leaf => write_leaf(leaf, quote, out),
    }
}

/// Writes an element.
fn write_element(e: &XmlElement, quote: XmlQuoteStyle, out: &mut Vec<char>)
    ensures
        final(out)@ == old(out)@ + node_text(NodeModel::Element(e.model()), quote),
{
    let ghost start = out@;
    write_open(e, quote, out);
    let ghost m = e.model();
    if e.children.len() == 0 {
        push_text(out, "/>");
        proof {
            assert(out@ =~= start + (open_text(m, quote) + "/>"@));
        }
    } else {
        out.push('>');
        write_nodes(&e.children, quote, out);
        write_close(e, out);
        proof {
            assert(out@ =~= start + (open_text(m, quote) + (seq!['>'] + nodes_text(
                m.children,
                m.children.len() as int,
                quote,
            ) + "</"@ + m.name + seq!['>'])));
        }
    }
}

/// Writes nodes.
///
/// The lists that are not done wait on a stack, so that the depth of the nodes does not matter.
pub(crate) fn write_nodes(n: &Vec<XmlNode>, quote: XmlQuoteStyle, out: &mut Vec<char>)
    ensures
        final(out)@ == old(out)@ + nodes_text(node_models(n@), n@.len() as int, quote),
{
    let ghost goal = out@ + nodes_text(node_models(n@), n@.len() as int, quote);
    let mut stack: Vec<Writing<'_>> = Vec::new();
    stack.push(Writing { of: None, nodes: n, at: 0 });
    proof {
        let m = node_models(n@);
        lemma_rest_text(m, 0, quote);
        assert(stack@.drop_last() =~= Seq::<Writing<'_>>::empty());
        assert(pending_text(stack@.drop_last(), quote) =~= Seq::<char>::empty());
        assert(nodes_text(m, 0, quote) =~= Seq::<char>::empty());
        assert(out@ + pending_text(stack@, quote) =~= goal);
    }
    while stack.len() > 0
        invariant
            out@ + pending_text(stack@, quote) == goal,
        decreases unwritten(stack@),
    {
        let ghost before = stack@;
        let ghost start = out@;
        if let Some(top) = stack.pop() {
            let ghost below = stack@;
            let ghost m = node_models(top.nodes@);
            let ghost behind = close_text(top.of) + pending_text(below, quote);
            proof {
                assert(before =~= below.push(top));
                lemma_pending(before, below, top, quote);
            }
            let k: usize = top.at;
            if k < top.nodes.len() {
                let x = &top.nodes[k];
                let next = Writing { of: top.of, nodes: top.nodes, at: k + 1 };
                stack.push(next);
                let ghost held = stack@;
                proof {
                    let text = node_text(x.model(), quote);
                    assert(m[k as int] == x.model());
                    lemma_pending(held, below, next, quote);
                    lemma_joined(text, rest_text(m, k + 1, quote), behind);
                    assert(goal == start + (text + pending_text(held, quote)));
                    lemma_joined(start, text, pending_text(held, quote));
                    assert(weights(m, k as int) == weight(m[k as int]) + weights(m, k + 1));
                }
                match x {
                    XmlNode::Element(e) => {
                        let ghost c = e.model();
                        write_open(e, quote, out);
                        assert(c.children == node_models(e.children@));
                        if e.children.len() == 0 {
                            push_text(out, "/>");
                            proof {
                                lemma_joined(start, open_text(c, quote), "/>"@);
                            }
                        } else {
                            out.push('>');
                            let inside = Writing { of: Some(e), nodes: &e.children, at: 0 };
                            stack.push(inside);
                            proof {
                                let head = open_text(c, quote) + seq!['>'];
                                let rest = rest_text(c.children, 0, quote);
                                let close = close_text(Some(e));
                                assert(out@ =~= start + head);
                                lemma_element_pieces(e, quote);
                                lemma_pending(stack@, held, inside, quote);
                                lemma_joined(rest, close, pending_text(held, quote));
                                lemma_joined(start, head, rest + close);
                                lemma_joined(start + head, rest + close, pending_text(held, quote));
                            }
                        }
                    },
                    leaf => write_leaf(leaf, quote, out),
                }
            } else {
                if let Some(e) = top.of {
                    write_close(e, out);
                }
                proof {
                    assert(rest_text(m, k as int, quote) + behind =~= behind);
                    assert(out@ =~= start + close_text(top.of));
                    lemma_joined(start, close_text(top.of), pending_text(below, quote));
                }
            }
        }
    }
    proof {
        assert(out@ + pending_text(stack@, quote) =~= out@);
    }
}

/// Writes an identifier in quotation marks.
fn write_quoted(s: &str, out: &mut Vec<char>)
    ensures
        final(out)@ == old(out)@ + quoted(s@),
{
    let ghost start = out@;
    let v = chars_of(s);
    let mut q: char = '"';
    let mut k: usize = 0;
    while k < v.len()
        invariant
            k <= v@.len(),
            v@ == s@,
            q == (if s@.take(k as int).contains('"') {
                '\''
            } else {
                '"'
            }),
        decreases v@.len() - k,
    {
        let c = v[k];
        proof {
            let p = s@.take(k as int);
            let n = s@.take(k + 1);
            assert(n =~= p.push(c));
            if n.contains('"') {
                let i = choose|i: int| 0 <= i < n.len() && n[i] == '"';
                if i < k {
                    assert(p[i] == '"');
                }
            }
            if p.contains('"') {
                let i = choose|i: int| 0 <= i < p.len() && p[i] == '"';
                assert(n[i] == '"');
            }
            if c == '"' {
                assert(n[k as int] == '"');
            }
        }
        if c == '"' {
            q = '\'';
        }
        k = k + 1;
    }
    proof {
        assert(s@.take(k as int) =~= s@);
    }
    out.push(q);
    push_text(out, s);
    out.push(q);
    proof {
        assert(out@ =~= start + quoted(s@));
    }
}

/// Writes a document type declaration.
pub(crate) fn write_doctype(d: &XmlDoctype, out: &mut Vec<char>)
    ensures
        final(out)@ == old(out)@ + doctype_text(d@),
{
    let ghost start = out@;
    push_text(out, "<!DOCTYPE ");
    push_text(out, d.name.as_str());
    let ghost named = out@;
    match (&d.public_id, &d.system_id) {
        (Some(p), Some(y)) => {
            push_text(out, " PUBLIC ");
            write_quoted(p.as_str(), out);
            out.push(' ');
            write_quoted(y.as_str(), out);
        },
        (Some(p), None) => {
            push_text(out, " PUBLIC ");
            write_quoted(p.as_str(), out);
        },
        (None, Some(y)) => {
            push_text(out, " SYSTEM ");
            write_quoted(y.as_str(), out);
        },
        (None, None) => {},
    }
    proof {
        assert(out@ =~= named + external_text(d@));
    }
    if let Some(x) = &d.internal_subset {
        push_text(out, " [");
        push_text(out, x.as_str());
        push_text(out, "]");
    }
    push_text(out, ">");
    proof {
        assert(out@ =~= start + doctype_text(d@));
    }
}

/// Writes a declaration.
pub(crate) fn write_declaration(
    d: Option<&XmlProcessingInstruction>,
    options: &XmlSerializeOptions,
    out: &mut Vec<char>,
)
    ensures
        final(out)@ == old(out)@ + declaration_text(
            (match d {
                Some(i) => Some(i@),
                None => None,
            }),
            *options,
        ),
{
    let ghost start = out@;
    let ghost m = (match d {
        Some(i) => Some(i@),
        None => None::<InstructionModel>,
    });
    match (options.declaration, d) {
        (XmlDeclarationMode::Omit, _) => {},
        (_, Some(i)) => {
            write_instruction(i.target.as_str(), i.data.as_str(), out);
        },
        (XmlDeclarationMode::Preserve, None) => {},
        (XmlDeclarationMode::Always, None) => {
            push_text(out, "<?xml version=\"1.0\" encoding=\"");
            match options.encoding {
                XmlOutputEncoding::Utf8 => push_text(out, "UTF-8"),
                _ => push_text(out, "UTF-16"),
            }
            push_text(out, "\"?>");
        },
    }
    proof {
        assert(out@ =~= start + declaration_text(m, *options));
    }
}

/// Writes the nodes `from..to`.
pub(crate) fn write_range(
    n: &Vec<XmlNode>,
    from: usize,
    to: usize,
    quote: XmlQuoteStyle,
    out: &mut Vec<char>,
)
    requires
        from <= to <= n@.len(),
    ensures
        final(out)@ == old(out)@ + nodes_text(
            node_models(n@).subrange(from as int, to as int),
            to - from,
            quote,
        ),
{
    let ghost start = out@;
    let ghost m = node_models(n@).subrange(from as int, to as int);
    proof {
        assert(start + nodes_text(m, 0, quote) =~= start);
    }
    let mut k: usize = from;
    while k < to
        invariant
            from <= k <= to <= n@.len(),
            m == node_models(n@).subrange(from as int, to as int),
            out@ == start + nodes_text(m, k - from, quote),
        decreases to - k,
    {
        write_node(&n[k], quote, out);
        proof {
            assert(m[k - from] == n@[k as int].model());
            assert(out@ =~= start + (nodes_text(m, k - from, quote) + node_text(
                m[k - from],
                quote,
            )));
        }
        k = k + 1;
    }
}

/// Writes a character in UTF-16.
fn write_utf16(c: char, little: bool, out: &mut Vec<u8>)
    ensures
        final(out)@ == old(out)@ + utf16_char(c, little),
{
    let ghost start = out@;
    let x: u32 = c as u32;
    if x < 0x10000 {
        write_unit(x as u16, little, out);
    } else {
        let y: u32 = x - 0x10000;
        proof {
            assert(c as u32 <= 0x10ffff);
        }
        write_unit((0xd800 + y / 0x400) as u16, little, out);
        write_unit((0xdc00 + y % 0x400) as u16, little, out);
    }
    proof {
        assert(out@ =~= start + utf16_char(c, little));
    }
}

/// Writes a code unit.
fn write_unit(u: u16, little: bool, out: &mut Vec<u8>)
    ensures
        final(out)@ == old(out)@ + unit_bytes(u, little),
{
    let ghost start = out@;
    if little {
        out.push((u % 256) as u8);
        out.push((u / 256) as u8);
    } else {
        out.push((u / 256) as u8);
        out.push((u % 256) as u8);
    }
    proof {
        assert(out@ =~= start + unit_bytes(u, little));
    }
}

/// Encodes a text.
pub fn encode_text(s: &str, encoding: XmlOutputEncoding) -> (r: Vec<u8>)
    ensures
        r@ == encoded(s@, encoding),
{
    let little = match encoding {
        XmlOutputEncoding::Utf8 => {
            return s.as_bytes_vec();
        },
        XmlOutputEncoding::Utf16Le => true,
        XmlOutputEncoding::Utf16Be => false,
    };
    let v = chars_of(s);
    let mut out: Vec<u8> = Vec::new();
    proof {
        assert(s@.take(0) =~= Seq::<char>::empty());
        assert(out@ =~= utf16_bytes(s@.take(0), little));
    }
    let mut k: usize = 0;
    while k < v.len()
        invariant
            k <= v@.len(),
            v@ == s@,
            out@ == utf16_bytes(s@.take(k as int), little),
        decreases v@.len() - k,
    {
        proof {
            assert(s@.take(k + 1).drop_last() =~= s@.take(k as int));
        }
        write_utf16(v[k], little, &mut out);
        k = k + 1;
    }
    proof {
        assert(s@.take(k as int) =~= s@);
    }
    out
}

} // verus!
