//! What can stand in a document, and what is written of it.

use vstd::prelude::*;

use crate::dom::{
    AttributeModel, DoctypeModel, ElementModel, InstructionModel, NodeModel, XmlNodeKind,
};
use crate::dtd::subset_entities;
use crate::forms::{hyphened, lemma_found};
use crate::lexeme::XmlVersion;
use crate::mutation::{
    attributes_fault, doctype_fault, named_before, node_fault, nodes_fault, tree_char, value_fault,
    MutationModel,
};
use crate::readback::lemma_not_found;
use crate::serialize::{
    attribute_escape, attributes_text, declaration_text, doctype_text, document_text, encoded,
    escaped_attribute, escaped_text, instruction_text, node_text, nodes_text, quoted, text_escape,
    unit_bytes, utf16_bytes, utf16_units, PlainDocument, XmlDeclarationMode, XmlOutputEncoding,
    XmlQuoteStyle, XmlSerializeOptions,
};
use crate::syntax::{pubid_char, valid_name};
use crate::text::{contains_text, find_from};

verus! {

/// The text has the one character right before the other.
pub open spec fn has_pair(t: Seq<char>, a: char, b: char) -> bool {
    exists|k: int| 0 <= k && k + 1 < t.len() && #[trigger] t[k] == a && t[k + 1] == b
}

proof fn lemma_pair(t: Seq<char>, a: char, b: char)
    ensures
        contains_text(t, seq![a, b]) == has_pair(t, a, b),
{
    let p = seq![a, b];
    match find_from(t, 0, p) {
        Some(k) => {
            lemma_found(t, 0, p);
            let x = t.subrange(k, k + 2);
            assert(x[0] == t[k] && x[1] == t[k + 1]);
            assert(p[0] == a && p[1] == b);
            assert(t[k] == a && t[k + 1] == b);
        },
        None => {
            if has_pair(t, a, b) {
                let k = choose|k: int|
                    0 <= k && k + 1 < t.len() && #[trigger] t[k] == a && t[k + 1] == b;
                assert(t.subrange(k, k + 2) =~= p);
                lemma_not_found(t, 0, p, k);
            }
        },
    }
}

/// A text of characters that a document can hold.
pub open spec fn holdable(s: Seq<char>) -> bool {
    forall|k: int|
        0 <= k < s.len() ==> (#[trigger] s[k] >= ' ' || s[k] == '\t' || s[k] == '\n' || s[k]
            == '\r') && s[k] != '\u{fffe}' && s[k] != '\u{ffff}'
}

proof fn lemma_holdable(s: Seq<char>)
    ensures
        crate::mutation::tree_text(s) == holdable(s),
{
    assert forall|k: int| 0 <= k < s.len() implies tree_char(#[trigger] s[k]) == ((s[k] >= ' '
        || s[k] == '\t' || s[k] == '\n' || s[k] == '\r') && s[k] != '\u{fffe}' && s[k]
        != '\u{ffff}') by {
        lemma_holdable_char(s[k]);
    }
    if holdable(s) {
        assert forall|k: int| 0 <= k < s.len() implies tree_char(#[trigger] s[k]) by {}
    }
    if crate::mutation::tree_text(s) {
        assert forall|k: int| 0 <= k < s.len() implies (#[trigger] s[k] >= ' ' || s[k] == '\t'
            || s[k] == '\n' || s[k] == '\r') && s[k] != '\u{fffe}' && s[k] != '\u{ffff}' by {
            assert(tree_char(s[k]));
        }
    }
}

proof fn lemma_holdable_char(c: char)
    ensures
        tree_char(c) == ((c >= ' ' || c == '\t' || c == '\n' || c == '\r') && c != '\u{fffe}' && c
            != '\u{ffff}'),
{
}

/// A comment cannot hold two hyphens in a row, nor one at its end; the data of an instruction
/// cannot hold `?>`, and its target cannot be `xml` in any case. Texts can hold anything that a
/// document can.
pub proof fn lemma_values(t: Seq<char>, i: InstructionModel)
    ensures
        node_fault(NodeModel::Comment(t)) == (if !holdable(t) {
            Some(MutationModel::InvalidCharacter)
        } else if hyphened(t) {
            Some(MutationModel::InvalidComment)
        } else {
            None
        }),
        node_fault(NodeModel::Text(t)) == (if holdable(t) {
            None
        } else {
            Some(MutationModel::InvalidCharacter)
        }),
        node_fault(NodeModel::Cdata(t)) == node_fault(NodeModel::Text(t)),
        node_fault(NodeModel::ProcessingInstruction(i)) == (if !valid_name(i.target) {
            Some(MutationModel::InvalidName(i.target))
        } else if !holdable(i.data) {
            Some(MutationModel::InvalidCharacter)
        } else if has_pair(i.data, '?', '>') || (i.target.len() == 3 && (i.target[0] == 'x'
            || i.target[0] == 'X') && (i.target[1] == 'm' || i.target[1] == 'M') && (i.target[2]
            == 'l' || i.target[2] == 'L')) {
            Some(MutationModel::InvalidProcessingInstruction)
        } else {
            None
        }),
        value_fault(XmlNodeKind::Comment, t) == node_fault(NodeModel::Comment(t)),
        value_fault(XmlNodeKind::Text, t) == node_fault(NodeModel::Text(t)),
        value_fault(XmlNodeKind::Cdata, t) == node_fault(NodeModel::Text(t)),
        value_fault(XmlNodeKind::ProcessingInstruction, t) == (if !holdable(t) {
            Some(MutationModel::InvalidCharacter)
        } else if has_pair(t, '?', '>') {
            Some(MutationModel::InvalidProcessingInstruction)
        } else {
            None
        }),
{
    lemma_holdable(t);
    lemma_holdable(i.data);
    reveal_strlit("--");
    reveal_strlit("?>");
    assert("--"@ =~= seq!['-', '-']);
    assert("?>"@ =~= seq!['?', '>']);
    lemma_pair(t, '-', '-');
    lemma_pair(t, '?', '>');
    lemma_pair(i.data, '?', '>');
    assert(hyphened(t) == (has_pair(t, '-', '-') || (t.len() > 0 && t.last() == '-')));
}

/// The attributes of an element: names and values that can stand there, and no name twice. The
/// first that is wrong is reported, by what is wrong with it.
pub proof fn lemma_attribute_lists(a: Seq<AttributeModel>, k: int)
    requires
        0 <= k < a.len(),
        forall|i: int|
            0 <= i < k ==> valid_name((#[trigger] a[i]).name) && holdable(a[i].value),
        forall|i: int, j: int|
            0 <= i < j < k ==> (#[trigger] a[i]).name != (#[trigger] a[j]).name,
    ensures
        !valid_name(a[k].name) ==> attributes_fault(a, 0) == Some(
            MutationModel::InvalidName(a[k].name),
        ),
        valid_name(a[k].name) && !holdable(a[k].value) ==> attributes_fault(a, 0) == Some(
            MutationModel::InvalidCharacter,
        ),
        valid_name(a[k].name) && holdable(a[k].value) && (exists|i: int|
            0 <= i < k && (#[trigger] a[i]).name == a[k].name) ==> attributes_fault(a, 0) == Some(
            MutationModel::DuplicateAttribute(a[k].name),
        ),
        k + 1 == a.len() && valid_name(a[k].name) && holdable(a[k].value) && (forall|i: int|
            0 <= i < k ==> (#[trigger] a[i]).name != a[k].name) ==> attributes_fault(a, 0) is None,
        attributes_fault(Seq::empty(), 0) is None,
{
    lemma_attributes_to(a, 0, k);
    lemma_holdable(a[k].value);
    assert(attributes_fault(a, k + 1) is None || k + 1 < a.len());
}

proof fn lemma_attributes_to(a: Seq<AttributeModel>, i: int, k: int)
    requires
        0 <= i <= k < a.len(),
        forall|i: int|
            0 <= i < k ==> valid_name((#[trigger] a[i]).name) && holdable(a[i].value),
        forall|i: int, j: int|
            0 <= i < j < k ==> (#[trigger] a[i]).name != (#[trigger] a[j]).name,
    ensures
        attributes_fault(a, i) == attributes_fault(a, k),
    decreases k - i,
{
    if i < k {
        lemma_holdable(a[i].value);
        assert(!named_before(a, i, a[i].name));
        lemma_attributes_to(a, i + 1, k);
    }
}

/// An element can stand where its name, its attributes and each of its children can; of several
/// nodes the first that is wrong is reported.
pub proof fn lemma_elements(e: ElementModel, n: Seq<NodeModel>, k: int)
    requires
        0 <= k < n.len(),
        forall|i: int| 0 <= i < k ==> node_fault(#[trigger] n[i]) is None,
    ensures
        !valid_name(e.name) ==> node_fault(NodeModel::Element(e)) == Some(
            MutationModel::InvalidName(e.name),
        ),
        valid_name(e.name) && attributes_fault(e.attributes, 0) is Some ==> node_fault(
            NodeModel::Element(e),
        ) == attributes_fault(e.attributes, 0),
        valid_name(e.name) && attributes_fault(e.attributes, 0) is None ==> node_fault(
            NodeModel::Element(ElementModel { children: n, ..e }),
        ) == nodes_fault(n, 0),
        node_fault(n[k]) is Some ==> nodes_fault(n, 0) == node_fault(n[k]),
        node_fault(n[k]) is None && k + 1 == n.len() ==> nodes_fault(n, 0) is None,
        nodes_fault(Seq::empty(), 0) is None,
{
    lemma_nodes_to(n, 0, k);
    assert(nodes_fault(n, k + 1) is None || k + 1 < n.len());
}

proof fn lemma_nodes_to(n: Seq<NodeModel>, i: int, k: int)
    requires
        0 <= i <= k < n.len(),
        forall|i: int| 0 <= i < k ==> node_fault(#[trigger] n[i]) is None,
    ensures
        nodes_fault(n, i) == nodes_fault(n, k),
    decreases k - i,
{
    if i < k {
        lemma_nodes_to(n, i + 1, k);
    }
}

/// A document type declaration: a name; a public identifier only with a system identifier, and of
/// the characters that it is allowed; no identifier with both quotes; and an internal subset that
/// can be read.
pub proof fn lemma_doctypes(d: DoctypeModel)
    ensures
        doctype_fault(d) is None <==> {
            &&& valid_name(d.name)
            &&& d.public_id matches Some(p) ==> {
                &&& d.system_id is Some
                &&& forall|i: int| 0 <= i < p.len() ==> pubid_char(#[trigger] p[i])
                &&& holdable(p)
                &&& !(p.contains('"') && p.contains('\''))
            }
            &&& d.system_id matches Some(y) ==> {
                &&& holdable(y)
                &&& !(y.contains('"') && y.contains('\''))
            }
            &&& d.internal_subset matches Some(x) ==> subset_entities(x, XmlVersion::Xml10) is Ok
        },
        !valid_name(d.name) ==> doctype_fault(d) == Some(MutationModel::InvalidName(d.name)),
        valid_name(d.name) && d.public_id is Some && d.system_id is None ==> doctype_fault(d)
            == Some(MutationModel::InvalidDoctype),
{
    if d.public_id is Some {
        lemma_holdable(d.public_id->Some_0);
    }
    if d.system_id is Some {
        lemma_holdable(d.system_id->Some_0);
    }
}

/// What is escaped in a text and in an attribute value, and how; every other character is written
/// as it is. In an attribute value only the quote that is used around it is escaped.
pub proof fn lemma_escapes(c: char, q: XmlQuoteStyle)
    ensures
        text_escape('&') == "&amp;"@,
        text_escape('<') == "&lt;"@,
        text_escape('>') == "&gt;"@,
        text_escape('\r') == "&#xD;"@,
        c != '&' && c != '<' && c != '>' && c != '\r' ==> text_escape(c) == seq![c],
        attribute_escape('&', q) == "&amp;"@,
        attribute_escape('<', q) == "&lt;"@,
        attribute_escape('\t', q) == "&#x9;"@,
        attribute_escape('\n', q) == "&#xA;"@,
        attribute_escape('\r', q) == "&#xD;"@,
        attribute_escape('"', XmlQuoteStyle::Double) == "&quot;"@,
        attribute_escape('\'', XmlQuoteStyle::Single) == "&apos;"@,
        attribute_escape('\'', XmlQuoteStyle::Double) == seq!['\''],
        attribute_escape('"', XmlQuoteStyle::Single) == seq!['"'],
        c != '&' && c != '<' && c != '\t' && c != '\n' && c != '\r' && c != '"' && c != '\''
            ==> attribute_escape(c, q) == seq![c],
{
}

/// A text is escaped character by character.
pub proof fn lemma_escaped_texts_join(a: Seq<char>, b: Seq<char>, c: char, q: XmlQuoteStyle)
    ensures
        escaped_text(Seq::empty()) == Seq::<char>::empty(),
        escaped_text(seq![c]) == text_escape(c),
        escaped_text(a + b) == escaped_text(a) + escaped_text(b),
        escaped_attribute(Seq::empty(), q) == Seq::<char>::empty(),
        escaped_attribute(seq![c], q) == attribute_escape(c, q),
        escaped_attribute(a + b, q) == escaped_attribute(a, q) + escaped_attribute(b, q),
    decreases b.len(),
{
    reveal_with_fuel(escaped_text, 2);
    reveal_with_fuel(escaped_attribute, 2);
    let o = seq![c];
    assert(o.drop_last() =~= Seq::<char>::empty());
    assert(escaped_text(o) =~= text_escape(c));
    assert(escaped_attribute(o, q) =~= attribute_escape(c, q));
    if b.len() == 0 {
        assert(a + b =~= a);
        assert(escaped_text(a) + escaped_text(b) =~= escaped_text(a));
        assert(escaped_attribute(a, q) + escaped_attribute(b, q) =~= escaped_attribute(a, q));
    } else {
        lemma_escaped_texts_join(a, b.drop_last(), c, q);
        assert((a + b).drop_last() =~= a + b.drop_last());
        assert((a + b).last() == b.last());
        assert(escaped_text(a + b) =~= escaped_text(a) + escaped_text(b));
        assert(escaped_attribute(a + b, q) =~= escaped_attribute(a, q) + escaped_attribute(b, q));
    }
}

/// How each node is written: an element without children as one tag, any other with a start tag
/// and an end tag around its children, which come in order; an instruction without data without a
/// space.
pub proof fn lemma_written_nodes(
    e: ElementModel,
    q: XmlQuoteStyle,
    n: Seq<NodeModel>,
    x: NodeModel,
    t: Seq<char>,
    name: Seq<char>,
)
    ensures
        e.children.len() == 0 ==> node_text(NodeModel::Element(e), q) == seq!['<'] + e.name
            + attributes_text(e.attributes, e.attributes.len() as int, q) + seq!['/', '>'],
        e.children.len() > 0 ==> node_text(NodeModel::Element(e), q) == seq!['<'] + e.name
            + attributes_text(e.attributes, e.attributes.len() as int, q) + seq!['>'] + nodes_text(
            e.children,
            e.children.len() as int,
            q,
        ) + seq!['<', '/'] + e.name + seq!['>'],
        nodes_text(n.push(x), 1int + n.len(), q) == nodes_text(n, n.len() as int, q) + node_text(
            x,
            q,
        ),
        node_text(NodeModel::Text(t), q) == escaped_text(t),
        node_text(NodeModel::Comment(t), q) == seq!['<', '!', '-', '-'] + t + seq!['-', '-', '>'],
        node_text(
            NodeModel::ProcessingInstruction(
                InstructionModel { target: name, data: Seq::empty() },
            ),
            q,
        ) == seq!['<', '?'] + name + seq!['?', '>'],
        t.len() > 0 ==> node_text(
            NodeModel::ProcessingInstruction(InstructionModel { target: name, data: t }),
            q,
        ) == seq!['<', '?'] + name + seq![' '] + t + seq!['?', '>'],
{
    reveal_strlit("/>");
    reveal_strlit("</");
    reveal_strlit("<!--");
    reveal_strlit("-->");
    reveal_strlit("<?");
    reveal_strlit("?>");
    assert("/>"@ =~= seq!['/', '>']);
    assert("</"@ =~= seq!['<', '/']);
    assert("<!--"@ =~= seq!['<', '!', '-', '-']);
    assert("-->"@ =~= seq!['-', '-', '>']);
    assert("<?"@ =~= seq!['<', '?']);
    assert("?>"@ =~= seq!['?', '>']);
    if e.children.len() > 0 {
        let head = seq!['<'] + e.name + attributes_text(
            e.attributes,
            e.attributes.len() as int,
            q,
        );
        let inner = nodes_text(e.children, e.children.len() as int, q);
        assert(head + (seq!['>'] + inner + seq!['<', '/'] + e.name + seq!['>']) =~= head + seq!['>']
            + inner + seq!['<', '/'] + e.name + seq!['>']);
    }
    assert(n.push(x)[n.len() as int] == x);
    lemma_nodes_text_prefix(n, x, n.len() as int, q);
    let bare = InstructionModel { target: name, data: Seq::empty() };
    assert(instruction_text(bare) =~= seq!['<', '?'] + name + seq!['?', '>']);
    if t.len() > 0 {
        let full = InstructionModel { target: name, data: t };
        assert(instruction_text(full) =~= seq!['<', '?'] + name + seq![' '] + t + seq!['?', '>']);
    }
}

proof fn lemma_nodes_text_prefix(n: Seq<NodeModel>, x: NodeModel, k: int, q: XmlQuoteStyle)
    requires
        0 <= k <= n.len(),
    ensures
        nodes_text(n.push(x), k, q) == nodes_text(n, k, q),
    decreases k,
{
    if k > 0 {
        assert(n.push(x)[k - 1] == n[k - 1]);
        lemma_nodes_text_prefix(n, x, k - 1, q);
    }
}

/// Attributes are written in order, each behind a space, with the quotes that are asked for.
pub proof fn lemma_written_attributes(
    a: Seq<AttributeModel>,
    x: AttributeModel,
    q: XmlQuoteStyle,
)
    ensures
        attributes_text(Seq::empty(), 0, q) == Seq::<char>::empty(),
        attributes_text(a.push(x), 1int + a.len(), XmlQuoteStyle::Double) == attributes_text(
            a,
            a.len() as int,
            XmlQuoteStyle::Double,
        ) + (seq![' '] + x.name + seq!['=', '"'] + escaped_attribute(x.value, XmlQuoteStyle::Double)
            + seq!['"']),
        attributes_text(a.push(x), 1int + a.len(), XmlQuoteStyle::Single) == attributes_text(
            a,
            a.len() as int,
            XmlQuoteStyle::Single,
        ) + (seq![' '] + x.name + seq!['=', '\''] + escaped_attribute(
            x.value,
            XmlQuoteStyle::Single,
        ) + seq!['\'']),
{
    assert(a.push(x)[a.len() as int] == x);
    lemma_attributes_text_prefix(a, x, a.len() as int, XmlQuoteStyle::Double);
    lemma_attributes_text_prefix(a, x, a.len() as int, XmlQuoteStyle::Single);
}

proof fn lemma_attributes_text_prefix(
    a: Seq<AttributeModel>,
    x: AttributeModel,
    k: int,
    q: XmlQuoteStyle,
)
    requires
        0 <= k <= a.len(),
    ensures
        attributes_text(a.push(x), k, q) == attributes_text(a, k, q),
    decreases k,
{
    if k > 0 {
        assert(a.push(x)[k - 1] == a[k - 1]);
        lemma_attributes_text_prefix(a, x, k - 1, q);
    }
}

/// The XML declaration is left out, kept where there is one, or written in any case; one that is
/// made says in which encoding the document is written. A byte order mark comes first of all.
pub proof fn lemma_written_declarations(
    d: PlainDocument,
    options: XmlSerializeOptions,
    i: InstructionModel,
)
    ensures
        ({
            let omitted = XmlSerializeOptions { declaration: XmlDeclarationMode::Omit, ..options };
            let kept = XmlSerializeOptions { declaration: XmlDeclarationMode::Preserve, ..options };
            let always = XmlSerializeOptions { declaration: XmlDeclarationMode::Always, ..options };
            &&& declaration_text(Some(i), omitted) == Seq::<char>::empty()
            &&& declaration_text(None, omitted) == Seq::<char>::empty()
            &&& declaration_text(Some(i), kept) == instruction_text(i)
            &&& declaration_text(None, kept) == Seq::<char>::empty()
            &&& declaration_text(Some(i), always) == instruction_text(i)
            &&& declaration_text(None, always) == "<?xml version=\"1.0\" encoding=\""@ + (
            if options.encoding == XmlOutputEncoding::Utf8 {
                "UTF-8"@
            } else {
                "UTF-16"@
            }) + "\"?>"@
        }),
        ({
            let plain = XmlSerializeOptions { write_bom: false, ..options };
            let marked = XmlSerializeOptions { write_bom: true, ..options };
            document_text(d, marked) == seq!['\u{feff}'] + document_text(d, plain)
        }),
{
    let plain = XmlSerializeOptions { write_bom: false, ..options };
    let marked = XmlSerializeOptions { write_bom: true, ..options };
    assert(document_text(d, marked) =~= seq!['\u{feff}'] + document_text(d, plain));
}

/// A literal is written between quotes that it does not hold, double ones if it can be.
pub proof fn lemma_written_literals(s: Seq<char>, d: DoctypeModel, p: Seq<char>, y: Seq<char>)
    ensures
        !s.contains('"') ==> quoted(s) == seq!['"'] + s + seq!['"'],
        s.contains('"') ==> quoted(s) == seq!['\''] + s + seq!['\''],
        doctype_text(
            DoctypeModel { public_id: None, system_id: None, internal_subset: None, ..d },
        ) == "<!DOCTYPE "@ + d.name + seq!['>'],
        doctype_text(
            DoctypeModel { public_id: None, system_id: Some(y), internal_subset: None, ..d },
        ) == "<!DOCTYPE "@ + d.name + (" SYSTEM "@ + quoted(y)) + seq!['>'],
        doctype_text(
            DoctypeModel { public_id: Some(p), system_id: Some(y), internal_subset: None, ..d },
        ) == "<!DOCTYPE "@ + d.name + (" PUBLIC "@ + quoted(p) + seq![' '] + quoted(y))
            + seq!['>'],
        doctype_text(
            DoctypeModel { public_id: None, system_id: None, internal_subset: Some(s), ..d },
        ) == "<!DOCTYPE "@ + d.name + seq![' ', '['] + s + seq![']', '>'],
{
    reveal_strlit(">");
    reveal_strlit(" [");
    reveal_strlit("]");
    assert(">"@ =~= seq!['>']);
    assert(" ["@ =~= seq![' ', '[']);
    assert("]"@ =~= seq![']']);
    let none = DoctypeModel { public_id: None, system_id: None, internal_subset: None, ..d };
    assert(doctype_text(none) =~= "<!DOCTYPE "@ + d.name + seq!['>']);
    let system = DoctypeModel {
        public_id: None,
        system_id: Some(y),
        internal_subset: None,
        ..d
    };
    assert(doctype_text(system) =~= "<!DOCTYPE "@ + d.name + (" SYSTEM "@ + quoted(y)) + seq!['>']);
    let public = DoctypeModel {
        public_id: Some(p),
        system_id: Some(y),
        internal_subset: None,
        ..d
    };
    assert(doctype_text(public) =~= "<!DOCTYPE "@ + d.name + (" PUBLIC "@ + quoted(p) + seq![' ']
        + quoted(y)) + seq!['>']);
    let subset = DoctypeModel {
        public_id: None,
        system_id: None,
        internal_subset: Some(s),
        ..d
    };
    assert(doctype_text(subset) =~= "<!DOCTYPE "@ + d.name + seq![' ', '['] + s + seq![']', '>']);
}

/// Characters up to U+FFFF are one UTF-16 unit, the others two; the low byte comes first in the one
/// order and last in the other.
pub proof fn lemma_utf16_output(s: Seq<char>, c: char, u: u16)
    ensures
        (c as u32) < 0x10000 ==> utf16_units(c) == seq![c as u16],
        (c as u32) >= 0x10000 ==> {
            let x = utf16_units(c);
            &&& x.len() == 2
            &&& 0xd800 <= x[0] < 0xdc00
            &&& 0xdc00 <= x[1] < 0xe000
            &&& c as u32 == 0x10000 + (x[0] - 0xd800) * 0x400 + (x[1] - 0xdc00)
        },
        unit_bytes(u, true).len() == 2 && unit_bytes(u, true)[0] + 256 * unit_bytes(u, true)[1]
            == u,
        unit_bytes(u, false) == seq![unit_bytes(u, true)[1], unit_bytes(u, true)[0]],
        encoded(s, XmlOutputEncoding::Utf8) == vstd::utf8::encode_utf8(s),
        encoded(s, XmlOutputEncoding::Utf16Le) == utf16_bytes(s, true),
        encoded(s, XmlOutputEncoding::Utf16Be) == utf16_bytes(s, false),
{
    let x = c as u32;
    if x >= 0x10000 {
        assert(x <= 0x10ffff);
        let h = (x - 0x10000) / 0x400;
        let l = (x - 0x10000) % 0x400;
        assert(0 <= h < 0x400);
        assert(x - 0x10000 == h * 0x400 + l);
        let y = utf16_units(c);
        assert(y[0] == (0xd800 + h) as u16);
        assert(y[1] == (0xdc00 + l) as u16);
    }
    assert((u % 256) < 256 && (u / 256) < 256);
    assert(unit_bytes(u, true)[0] == (u % 256) as u8);
    assert(unit_bytes(u, true)[1] == (u / 256) as u8);
    assert(unit_bytes(u, false) =~= seq![unit_bytes(u, true)[1], unit_bytes(u, true)[0]]);
}

} // verus!
