//! What a builder writes, and what is read of a piece of a document.

use vstd::prelude::*;

use crate::builder::{
    content_text, ended, start_closed, started, with_attribute, with_child, with_content,
    BuilderModel,
};
use crate::compact::{kept_declaration, kept_doctype};
use crate::config::{
    default_config, preserving_config, ConfigModel, XmlExternalEntityPolicy,
    XmlTextWhitespacePolicy,
};
use crate::document::DocumentModel;
use crate::dom::{AttributeModel, ElementModel, InstructionModel, NodeModel};
use crate::error::{ErrorKindModel, ErrorModel};
use crate::fragment::{
    decimal, digit, fragment_byte, fragment_error, fragment_parse, with_underscores, wrapped,
    wrapper_bytes, wrapper_name, wrapper_stem,
};
use crate::lexeme::{number, XmlAttributeWhitespacePolicy, XmlVersion};
use crate::meanings::lemma_digits;
use crate::readback::{no_adjacent_texts, writable, writable_attributes};
use crate::reopening::lemma_document_round_trip;
use crate::serialize::{
    attributes_text, default_options, document_text, escaped_text, node_text, nodes_text,
    text_escape, PlainDocument, XmlQuoteStyle,
};
use crate::syntax::{name_part, valid_name};
use crate::text::{
    byte_len, byte_offset, lemma_byte_len_concat, lemma_byte_len_push, lemma_byte_offset_prefix,
};
use crate::validity::{lemma_written_attributes, lemma_written_nodes};
use crate::value::number_text;

verus! {

/// The builder has written the element behind `before`, up to its end tag.
pub open spec fn writing(b: BuilderModel, before: Seq<char>, e: ElementModel) -> bool {
    let q = XmlQuoteStyle::Double;
    &&& b.name == e.name
    &&& b.open == (e.children.len() == 0)
    &&& b.text == before + seq!['<'] + e.name + attributes_text(
        e.attributes,
        e.attributes.len() as int,
        q,
    ) + (if b.open {
        Seq::empty()
    } else {
        seq!['>'] + nodes_text(e.children, e.children.len() as int, q)
    })
}

/// A builder starts with an element that has neither attributes nor children. At its end the
/// element is written as it is written otherwise.
pub proof fn lemma_built_element(
    b: BuilderModel,
    before: Seq<char>,
    e: ElementModel,
    error: Option<ErrorModel>,
)
    ensures
        writing(
            started(before, error, e.name),
            before,
            ElementModel { attributes: Seq::empty(), children: Seq::empty(), ..e },
        ),
        writing(b, before, e) ==> ended(b).text == before + node_text(
            NodeModel::Element(e),
            XmlQuoteStyle::Double,
        ) && ended(b).error == b.error,
{
    let q = XmlQuoteStyle::Double;
    let s = started(before, error, e.name);
    let a = attributes_text(e.attributes, e.attributes.len() as int, q);
    assert(s.text =~= before + seq!['<'] + e.name + attributes_text(Seq::empty(), 0, q)
        + Seq::empty());
    if writing(b, before, e) {
        lemma_written_nodes(
            e,
            q,
            Seq::empty(),
            NodeModel::Text(Seq::empty()),
            Seq::empty(),
            Seq::empty(),
        );
        reveal_strlit("/>");
        reveal_strlit("</");
        assert("/>"@ =~= seq!['/', '>']);
        assert("</"@ =~= seq!['<', '/']);
        assert(ended(b).text =~= before + node_text(NodeModel::Element(e), q));
    }
}

/// An attribute comes behind the others while the start tag is open; after that it is an error,
/// and nothing is written. The first error stays.
pub proof fn lemma_built_attribute(
    b: BuilderModel,
    before: Seq<char>,
    e: ElementModel,
    a: AttributeModel,
)
    requires
        writing(b, before, e),
    ensures
        e.children.len() == 0 ==> writing(
            with_attribute(b, a.name, a.value),
            before,
            ElementModel { attributes: e.attributes.push(a), ..e },
        ) && with_attribute(b, a.name, a.value).error == b.error,
        e.children.len() > 0 ==> writing(with_attribute(b, a.name, a.value), before, e)
            && with_attribute(b, a.name, a.value).error == (if b.error is Some {
            b.error
        } else {
            Some(
                ErrorModel {
                    kind: ErrorKindModel::InvalidDocumentStructure,
                    byte: byte_len(b.text) as int,
                },
            )
        }),
{
    lemma_written_attributes(e.attributes, a, XmlQuoteStyle::Double);
    if e.children.len() == 0 {
        let x = with_attribute(b, a.name, a.value);
        let f = ElementModel { attributes: e.attributes.push(a), ..e };
        assert(x.text =~= before + seq!['<'] + f.name + attributes_text(
            f.attributes,
            f.attributes.len() as int,
            XmlQuoteStyle::Double,
        ) + Seq::empty());
    }
}

/// What is added below an element comes behind its other children, as it is written otherwise.
pub proof fn lemma_built_content(
    b: BuilderModel,
    before: Seq<char>,
    e: ElementModel,
    x: NodeModel,
    c: BuilderModel,
)
    requires
        writing(b, before, e),
    ensures
        writing(
            with_content(b, node_text(x, XmlQuoteStyle::Double)),
            before,
            ElementModel { children: e.children.push(x), ..e },
        ),
        x matches NodeModel::Element(child) ==> (writing(c, start_closed(b).text, child)
            ==> writing(
            with_child(b, ended(c)),
            before,
            ElementModel { children: e.children.push(x), ..e },
        ) && with_child(b, ended(c)).error == c.error),
{
    let q = XmlQuoteStyle::Double;
    let f = ElementModel { children: e.children.push(x), ..e };
    lemma_written_nodes(e, q, e.children, x, Seq::empty(), Seq::empty());
    let a = attributes_text(e.attributes, e.attributes.len() as int, q);
    let below = nodes_text(e.children, e.children.len() as int, q);
    if e.children.len() == 0 {
        assert(below =~= Seq::<char>::empty());
    }
    assert(start_closed(b).text =~= before + seq!['<'] + e.name + a + (seq!['>'] + below));
    let y = start_closed(b).text + node_text(x, q);
    assert(y =~= before + seq!['<'] + f.name + attributes_text(
        f.attributes,
        f.attributes.len() as int,
        q,
    ) + (seq!['>'] + nodes_text(f.children, f.children.len() as int, q)));
    if x is Element && writing(c, start_closed(b).text, x->Element_0) {
        lemma_built_element(c, start_closed(b).text, x->Element_0, c.error);
    }
}

/// The text that a builder is given is written as any text, as long as it has no carriage return;
/// of one it has, nothing is escaped.
pub proof fn lemma_built_text(t: Seq<char>, c: char)
    ensures
        (forall|k: int| 0 <= k < t.len() ==> #[trigger] t[k] != '\r') ==> content_text(t)
            == escaped_text(t),
        content_text(t.push(c)) == content_text(t) + (if c == '\r' {
            seq![c]
        } else {
            text_escape(c)
        }),
    decreases t.len(),
{
    assert(t.push(c).drop_last() =~= t);
    if t.len() > 0 {
        let u = t.drop_last();
        lemma_built_text(u, t.last());
        assert(u.push(t.last()) =~= t);
        if forall|k: int| 0 <= k < t.len() ==> #[trigger] t[k] != '\r' {
            assert forall|k: int| 0 <= k < u.len() implies #[trigger] u[k] != '\r' by {
                assert(u[k] == t[k]);
            }
            assert(t[t.len() - 1] != '\r');
        }
    }
}

/// The digits of a number: the last is the remainder by ten, and the others are those of the
/// quotient. A negative number has a sign.
pub proof fn lemma_decimals(n: nat, d: nat)
    requires
        d < 10,
    ensures
        decimal(d) == seq![(48 + d) as char],
        n > 0 ==> decimal(10 * n + d) == decimal(n).push((48 + d) as char),
        n > 0 ==> number_text(-(n as int)) == seq!['-'] + decimal(n),
        number_text(n as int) == decimal(n),
{
    assert(digit(d as int) == (48 + d) as char);
    assert((10 * n + d) / 10 == n);
    assert((10 * n + d) % 10 == d);
}

/// The digits of a number stand for it.
pub proof fn lemma_decimals_are_read(n: nat)
    requires
        n <= 4294967295,
    ensures
        number(decimal(n), 10) == Some(n as int),
        decimal(n).len() > 0,
        forall|k: int| 0 <= k < decimal(n).len() ==> '0' <= #[trigger] decimal(n)[k] <= '9',
    decreases n,
{
    let d = (n % 10) as nat;
    lemma_decimals(n / 10, d);
    let c = (48 + d) as char;
    assert(c as int == 48 + d);
    if n < 10 {
        lemma_digits(Seq::empty(), c, 10);
    } else {
        lemma_decimals_are_read(n / 10);
        let s = decimal(n / 10);
        assert(decimal(n) == s.push(c));
        assert(s != seq!['+']) by {
            assert('0' <= s[0] <= '9');
        }
        lemma_digits(s, c, 10);
    }
}

/// What is kept of a document by default: everything but the document type declaration, with all
/// checks. No external entity is ever read.
pub proof fn lemma_configurations(m: DocumentModel)
    ensures
        ({
            let c = default_config();
            &&& c.preserve_comments && c.preserve_processing_instructions && c.preserve_cdata_nodes
            &&& c.preserve_text_nodes && c.validate_characters && c.validate_references
            &&& c.validate_duplicate_attributes
            &&& c.text_whitespace == XmlTextWhitespacePolicy::Preserve
            &&& c.attribute_whitespace == XmlAttributeWhitespacePolicy::Normalize
            &&& c.external_entities == XmlExternalEntityPolicy::Reject
            &&& preserving_config() == (ConfigModel { preserve_doctype: true, ..c })
            &&& kept_doctype(m, c) is None
            &&& kept_doctype(m, preserving_config()) == m.doctype
            &&& m.declaration matches Some(x) ==> {
                &&& kept_declaration(m, c) == Some(InstructionModel { target: "xml"@, data: x })
                &&& kept_declaration(m, ConfigModel { preserve_declaration: false, ..c }) is None
            }
            &&& m.declaration is None ==> kept_declaration(m, c) is None
        }),
{
}

proof fn lemma_decimal_name(n: nat)
    ensures
        forall|k: int| 0 <= k < decimal(n).len() ==> name_part(#[trigger] decimal(n)[k]),
    decreases n,
{
    let d = (n % 10) as int;
    lemma_digit_name(d);
    if n >= 10 {
        lemma_decimal_name(n / 10);
        let s = decimal(n / 10);
        assert(decimal(n) == s.push(digit(d)));
        assert forall|k: int| 0 <= k < decimal(n).len() implies name_part(
            #[trigger] decimal(n)[k],
        ) by {
            if k < s.len() {
                assert(decimal(n)[k] == s[k]);
            }
        }
    } else {
        assert(decimal(n)[0] == digit(d));
    }
}

proof fn lemma_digit_name(d: int)
    ensures
        name_part(digit(d)),
{
}

proof fn lemma_underscores_name(s: Seq<char>, n: nat)
    requires
        valid_name(s),
    ensures
        valid_name(with_underscores(s, n)),
    decreases n,
{
    if n > 0 {
        lemma_underscores_name(s, (n - 1) as nat);
        let t = with_underscores(s, (n - 1) as nat);
        assert(t.push('_')[0] == t[0]);
        crate::alphabet::lemma_names_grow(t, '_');
        lemma_underscore();
    }
}

proof fn lemma_underscore()
    ensures
        name_part('_'),
{
}

/// The name of the element around a piece of a document is a name.
pub proof fn lemma_wrapper_is_a_name(s: Seq<char>)
    ensures
        valid_name(wrapper_name(s)),
{
    reveal_strlit("xml-fragment-");
    let w = wrapper_stem(s);
    let d = decimal(byte_len(s));
    lemma_decimal_name(byte_len(s));
    let p = "xml-fragment-"@;
    assert forall|k: int| 0 <= k < w.len() implies name_part(#[trigger] w[k]) by {
        if k < p.len() {
            assert(w[k] == p[k]);
            lemma_stem_name(k);
        } else {
            assert(w[k] == d[k - p.len()]);
        }
    }
    assert(w[0] == p[0]);
    lemma_stem_start();
    assert(valid_name(w));
    match crate::fragment::longest_tail(s, w, 0, None) {
        None => {},
        Some(n) => {
            lemma_underscores_name(w, n + 1);
        },
    }
}

proof fn lemma_stem_start()
    ensures
        crate::syntax::name_start('x'),
{
}

proof fn lemma_stem_name(k: int)
    requires
        0 <= k < "xml-fragment-"@.len(),
    ensures
        name_part("xml-fragment-"@[k]),
{
    reveal_strlit("xml-fragment-");
    let c = "xml-fragment-"@[k];
    assert(('a' <= c && c <= 'z') || c == '-');
    lemma_letter_or_hyphen(c);
}

proof fn lemma_letter_or_hyphen(c: char)
    requires
        ('a' <= c && c <= 'z') || c == '-',
    ensures
        name_part(c),
{
}

/// Nodes that are written and read again as a piece of a document are what they were.
pub proof fn lemma_fragment_round_trip(n: Seq<NodeModel>)
    requires
        n.len() > 0,
        forall|k: int| 0 <= k < n.len() ==> writable(#[trigger] n[k], 2, XmlVersion::Xml10),
        no_adjacent_texts(n),
        byte_len(wrapped(nodes_text(n, n.len() as int, XmlQuoteStyle::Double))) <= u32::MAX,
    ensures
        fragment_parse(
            nodes_text(n, n.len() as int, XmlQuoteStyle::Double),
            preserving_config(),
        ) == Ok::<Seq<NodeModel>, ErrorModel>(n),
{
    let q = XmlQuoteStyle::Double;
    let s = nodes_text(n, n.len() as int, q);
    let w = wrapper_name(s);
    lemma_wrapper_is_a_name(s);
    let e = ElementModel { name: w, attributes: Seq::empty(), children: n };
    let d = PlainDocument {
        declaration: None,
        doctype: None,
        doctype_index: 0,
        before: Seq::empty(),
        root: NodeModel::Element(e),
        after: Seq::empty(),
    };
    let o = default_options();
    assert(writable_attributes(Seq::empty(), XmlVersion::Xml10));
    assert(writable(NodeModel::Element(e), 1, XmlVersion::Xml10));
    lemma_lone_text(e, d);
    lemma_document_round_trip(d, o);
}

proof fn lemma_lone_text(e: ElementModel, d: PlainDocument)
    requires
        e.attributes.len() == 0,
        e.children.len() > 0,
        d.declaration is None,
        d.doctype is None,
        d.before.len() == 0,
        d.after.len() == 0,
        d.root == NodeModel::Element(e),
        e.name == wrapper_name(
            nodes_text(e.children, e.children.len() as int, XmlQuoteStyle::Double),
        ),
        d.doctype_index == 0,
    ensures
        document_text(d, default_options()) == wrapped(
            nodes_text(e.children, e.children.len() as int, XmlQuoteStyle::Double),
        ),
{
    reveal_strlit("<");
    reveal_strlit(">");
    reveal_strlit("</");
    assert("<"@ =~= seq!['<']);
    assert(">"@ =~= seq!['>']);
    assert("</"@ =~= seq!['<', '/']);
    let q = XmlQuoteStyle::Double;
    let s = nodes_text(e.children, e.children.len() as int, q);
    lemma_written_nodes(
        e,
        q,
        Seq::empty(),
        NodeModel::Text(Seq::empty()),
        Seq::empty(),
        Seq::empty(),
    );
    assert(attributes_text(e.attributes, 0, q) =~= Seq::<char>::empty());
    assert(nodes_text(d.before.take(0), 0, q) =~= Seq::<char>::empty());
    assert(nodes_text(d.before.skip(0), 0, q) =~= Seq::<char>::empty());
    assert(nodes_text(d.after, 0, q) =~= Seq::<char>::empty());
    assert(document_text(d, default_options()) =~= wrapped(s));
}

/// The places of a piece of a document are counted from its own start, and no error is reported
/// outside of it.
pub proof fn lemma_places_in_a_fragment(s: Seq<char>, i: int, e: ErrorModel)
    requires
        0 <= i <= s.len(),
    ensures
        byte_offset(wrapped(s), 2int + wrapper_name(s).len() + i) == wrapper_bytes(s)
            + byte_offset(s, i),
        fragment_byte(s, wrapper_bytes(s) + byte_offset(s, i)) == byte_offset(s, i),
        0 <= fragment_byte(s, e.byte) <= byte_len(s),
        fragment_error(s, e).kind == e.kind,
        !(e.kind is MismatchedEndTag) ==> fragment_error(s, e).byte == fragment_byte(s, e.byte),
{
    reveal_strlit("<");
    reveal_strlit(">");
    let w = wrapper_name(s);
    assert("<"@ =~= Seq::<char>::empty().push('<'));
    assert(">"@ =~= Seq::<char>::empty().push('>'));
    lemma_byte_len_push(Seq::empty(), '<');
    lemma_byte_len_push(Seq::empty(), '>');
    lemma_byte_len_concat("<"@, w);
    lemma_byte_len_concat("<"@ + w, ">"@);
    let head = "<"@ + w + ">"@;
    lemma_byte_len_concat(head, s.take(i));
    let whole = wrapped(s);
    let n = head.len() as int;
    assert(whole.take(n + i) =~= head + s.take(i));
    assert((head + s.take(i)).take(n + i) =~= head + s.take(i));
    lemma_byte_offset_prefix(whole, head + s.take(i), n + i);
    assert(s.take(i).take(i) =~= s.take(i));
    lemma_byte_offset_prefix(s, s.take(i), i);
    crate::text::lemma_byte_offset_monotone(s, i, s.len() as int);
}

} // verus!
