//! What holds in the corners: sections that hold their own end, positions, words, limits.

use vstd::prelude::*;

use crate::access::{attribute_value, node_content, node_value};
use crate::changes::attribute_moved;
use crate::compact::compact_parse;
use crate::config::ConfigModel;
use crate::document::{declaration_at, expanded_parse, mark_end, DocumentModel};
use crate::dom::XmlNodeKind;
use crate::dtd::{entity_named, kept_control, EntityDeclarationModel, EntityModel};
use crate::encoding::char_before;
use crate::entities::{
    bad_boundary, chain_length, chain_length_from, ends_with_slash, first_bad_char,
    general_reference_at, seam, section_end, unicode_space,
};
use crate::error::{ErrorKindModel, ErrorModel};
use crate::facade::{opened, resolved, StateModel};
use crate::finding::lemma_first_text;
use crate::forms::lemma_at;
use crate::fragment::{fragment_byte, fragment_error, last_before, wrapper_name};
use crate::grammar::{FlatModel, RawAttribute, RawTree};
use crate::growth::grown;
use crate::handle::{DomErrorModel, HandleModel};
use crate::lexeme::{predefined_entity, XmlVersion};
use crate::output::{origin_position, position_of};
use crate::query::or_empty;
use crate::readback::lemma_find;
use crate::records::{
    attribute_name_from, attribute_recorded, attribute_value_from, lemma_range_text, name_from,
    node_recorded, value_from, RawXmlAttribute, RawXmlNode,
};
use crate::recovery::{first_word, word_space};
use crate::replacement::lemma_no_section;
use crate::serialize::{cdata_from, cdata_text};
use crate::sources::lemma_character_of_a_byte;
use crate::tables::{attributes_of, nodes_of};
use crate::text::{byte_len, byte_offset, find_from, starts_at};
use crate::tree::{copied, Reading, TreeModel};
use crate::value::ToXmlValue;
use crate::view::{locates, XmlSourceOffsets};

verus! {

/// The end of a section stands there.
pub open spec fn closes_at(s: Seq<char>, k: int) -> bool {
    0 <= k && k + 2 < s.len() && s[k] == ']' && s[k + 1] == ']' && s[k + 2] == '>'
}

proof fn lemma_closes(s: Seq<char>, k: int)
    ensures
        starts_at(s, k, "]]>"@) == closes_at(s, k),
{
    reveal_strlit("]]>");
    if starts_at(s, k, "]]>"@) {
        lemma_at(s, k, "]]>"@);
        assert(s[k] == "]]>"@[0]);
        assert(s[k + 1] == "]]>"@[1]);
        assert(s[k + 2] == "]]>"@[2]);
    }
    if closes_at(s, k) {
        assert(s.subrange(k, k + 3) =~= "]]>"@);
    }
}

proof fn lemma_section_up_to(s: Seq<char>, i: int, j: int, out: Seq<char>)
    requires
        0 <= i <= j <= s.len(),
        forall|k: int| i <= k < j ==> !#[trigger] closes_at(s, k),
    ensures
        cdata_from(s, i, out) == cdata_from(s, j, out + s.subrange(i, j)),
    decreases j - i,
{
    if i < j {
        assert(!closes_at(s, i));
        lemma_closes(s, i);
        assert(out.push(s[i]) + s.subrange(i + 1, j) =~= out + s.subrange(i, j));
        lemma_section_up_to(s, i + 1, j, out.push(s[i]));
    } else {
        assert(out + s.subrange(i, j) =~= out);
    }
}

proof fn lemma_section_shift(a: Seq<char>, b: Seq<char>, i: int, before: Seq<char>, out: Seq<char>)
    requires
        0 <= i,
    ensures
        cdata_from(a + b, a.len() + i, before + out) == before + cdata_from(b, i, out),
    decreases (if i < b.len() { b.len() - i } else { 0 }),
{
    if i < b.len() {
        let s = a + b;
        let n = a.len() + i;
        lemma_closes(s, n);
        lemma_closes(b, i);
        assert(s[n] == b[i]);
        if i + 1 < b.len() {
            assert(s[n + 1] == b[i + 1]);
        }
        if i + 2 < b.len() {
            assert(s[n + 2] == b[i + 2]);
        }
        assert(closes_at(s, n) == closes_at(b, i));
        if closes_at(b, i) {
            let x = "]]]]><![CDATA[>"@;
            assert(before + out + x =~= before + (out + x));
            lemma_section_shift(a, b, i + 3, before, out + x);
        } else {
            assert((before + out).push(b[i]) =~= before + out.push(b[i]));
            lemma_section_shift(a, b, i + 1, before, out.push(b[i]));
        }
    }
}

/// A section that holds no end of a section is written as it is. One that does is parted between
/// the brackets and the angle bracket, so that neither part holds it.
pub proof fn lemma_parted_sections(a: Seq<char>, b: Seq<char>)
    requires
        forall|k: int| 0 <= k < a.len() ==> !#[trigger] closes_at(a + "]]>"@ + b, k),
    ensures
        (forall|k: int| 0 <= k < a.len() ==> !#[trigger] closes_at(a, k)) ==> cdata_text(a)
            == "<![CDATA["@ + a + "]]>"@,
        cdata_from(a + "]]>"@ + b, 0, Seq::empty()) == a + seq![
            ']', ']', ']', ']', '>', '<', '!', '[', 'C', 'D', 'A', 'T', 'A', '[', '>',
        ] + cdata_from(b, 0, Seq::empty()),
{
    reveal_strlit("]]>");
    reveal_strlit("]]]]><![CDATA[>");
    let x = "]]]]><![CDATA[>"@;
    assert(x =~= seq![
        ']', ']', ']', ']', '>', '<', '!', '[', 'C', 'D', 'A', 'T', 'A', '[', '>',
    ]);
    if forall|k: int| 0 <= k < a.len() ==> !#[trigger] closes_at(a, k) {
        lemma_section_up_to(a, 0, a.len() as int, Seq::empty());
        assert(Seq::<char>::empty() + a.subrange(0, a.len() as int) =~= a);
    }
    let p = a + "]]>"@;
    let s = p + b;
    let n = a.len() as int;
    lemma_section_up_to(s, 0, n, Seq::empty());
    assert(Seq::<char>::empty() + s.subrange(0, n) =~= a);
    assert(s[n] == ']' && s[n + 1] == ']' && s[n + 2] == '>');
    lemma_closes(s, n);
    assert(closes_at(s, n));
    assert(a + x + Seq::<char>::empty() =~= a + x);
    lemma_section_shift(p, b, 0, a + x, Seq::empty());
}

/// The content of a node: of an element that of its first text, of a text its own; an element
/// without text has none. What is no element has no attributes, and no value is an empty one where
/// a text is asked for.
pub proof fn lemma_content_of_a_node(t: TreeModel, r: Reading, k: int, name: Seq<char>)
    requires
        0 <= k <= t.children.len(),
        forall|j: int|
            0 <= j < k ==> (#[trigger] t.children[j]).kind != XmlNodeKind::Text
                && t.children[j].kind != XmlNodeKind::Cdata,
        k < t.children.len() ==> t.children[k].kind == XmlNodeKind::Text || t.children[k].kind
            == XmlNodeKind::Cdata,
    ensures
        t.kind == XmlNodeKind::Element ==> node_content(t, r) == (if k < t.children.len() {
            node_value(t.children[k], r)
        } else {
            Ok::<Option<Seq<char>>, DomErrorModel>(None)
        }),
        t.kind == XmlNodeKind::Text || t.kind == XmlNodeKind::Cdata ==> node_content(t, r)
            == node_value(t, r),
        (t.kind == XmlNodeKind::Comment || t.kind == XmlNodeKind::ProcessingInstruction)
            && t.value.raw ==> node_content(t, r) == Ok::<Option<Seq<char>>, DomErrorModel>(None),
        t.kind == XmlNodeKind::Element ==> node_value(t, r) == Ok::<
            Option<Seq<char>>,
            DomErrorModel,
        >(None),
        t.kind != XmlNodeKind::Element ==> attribute_value(t, name, r) == Ok::<
            Option<Seq<char>>,
            DomErrorModel,
        >(None),
        or_empty(Ok(None)) == Ok::<Seq<char>, DomErrorModel>(Seq::empty()),
        or_empty(Ok(Some(name))) == Ok::<Seq<char>, DomErrorModel>(name),
{
    lemma_first_text(t.children, 0);
}

/// An attribute that is moved to the element that has it stays; the answer says whether it is
/// there.
pub proof fn lemma_attribute_moved_to_itself(s: StateModel, h: HandleModel, name: Seq<char>)
    requires
        resolved(s, h) is Ok,
    ensures
        attribute_moved(s, h, h, name).0 == s,
        attribute_value(crate::facade::target(s, h)->Ok_0, name, s.reading) matches Ok(x)
            ==> attribute_moved(s, h, h, name).1 == Ok::<bool, DomErrorModel>(x is Some),
{
}

/// Where a node of a parsed document was read: an element and an instruction where the name
/// starts, any other node where its text starts. A node that was made has no such place.
pub proof fn lemma_origins(s: Seq<char>, t: RawTree, at: int, x: TreeModel, first: int)
    ensures
        t is Element ==> grown(s, t, at).origin == Some(byte_offset(s, t->name.0) as u32),
        t is Leaf ==> grown(s, t, at).origin == Some(byte_offset(s, t->Leaf_primary.0) as u32),
        copied(x, first).origin is None,
{
}

/// A place in the source is reported by its line and column; one inside of a character is refused.
pub proof fn lemma_reported_origins(s: StateModel, t: TreeModel, i: int, b: u32)
    requires
        t.origin == Some(b),
        0 <= i < s.source.len(),
    ensures
        b == byte_offset(s.source, i) ==> origin_position(s, t) == Ok::<
            Option<crate::output::XmlSourcePosition>,
            DomErrorModel,
        >(Some(position_of(s.source, i))),
        byte_offset(s.source, i) < b < byte_offset(s.source, i + 1) ==> origin_position(s, t)
            == Err::<Option<crate::output::XmlSourcePosition>, DomErrorModel>(
            DomErrorModel::InvalidTarget,
        ),
        origin_position(s, TreeModel { origin: None, ..t }) == Ok::<
            Option<crate::output::XmlSourcePosition>,
            DomErrorModel,
        >(None),
{
    let n = s.source.len() as int;
    lemma_character_of_a_byte(s.source, n, b as int);
    let j = char_before(s.source, n, b as int);
    if byte_offset(s.source, i) < b < byte_offset(s.source, i + 1) {
        if i + 1 <= j {
            crate::text::lemma_byte_offset_monotone(s.source, i + 1, j);
        }
        if j < i {
            crate::text::lemma_byte_offset_monotone(s.source, j + 1, i);
        }
    }
}

/// The spans of a node and of an attribute in the source: that of an attribute goes from its name
/// to right behind the closing quote.
pub proof fn lemma_source_spans(m: DocumentModel, o: XmlSourceOffsets, k: int)
    requires
        locates(m, o),
    ensures
        0 <= k < nodes_of(m).len() ==> {
            &&& o.nodes@[k].kind == nodes_of(m)[k].kind
            &&& o.nodes@[k].span.start == byte_offset(m.text, nodes_of(m)[k].span.0)
            &&& o.nodes@[k].span.end == byte_offset(m.text, nodes_of(m)[k].span.1)
        },
        0 <= k < attributes_of(m).len() ==> {
            &&& o.attributes@[k].name.start == byte_offset(m.text, attributes_of(m)[k].name.0)
            &&& o.attributes@[k].name.end == byte_offset(m.text, attributes_of(m)[k].name.1)
            &&& o.attributes@[k].value.start == byte_offset(m.text, attributes_of(m)[k].value.0)
            &&& o.attributes@[k].value.end == byte_offset(m.text, attributes_of(m)[k].value.1)
            &&& o.attributes@[k].span.start == o.attributes@[k].name.start
            &&& o.attributes@[k].span.end == byte_offset(m.text, attributes_of(m)[k].value.1) + 1
        },
{
    if 0 <= k < nodes_of(m).len() {
        let n = nodes_of(m)[k];
        assert(crate::view::locates_node(m.text, n, o.nodes@[k]));
    }
    if 0 <= k < attributes_of(m).len() {
        let a = attributes_of(m)[k];
        assert(crate::view::locates_attribute(m.text, a, o.attributes@[k]));
    }
}

/// What a record says of its node, asked with the source that it belongs to: the name of an element
/// or an instruction, the data of an instruction, the text of any other node. Asked with another
/// source it says nothing.
pub proof fn lemma_records_are_read(
    s: Seq<char>,
    m: FlatModel,
    at: int,
    owner: u64,
    n: RawXmlNode,
    a: RawAttribute,
    x: RawXmlAttribute,
    other: u64,
)
    requires
        node_recorded(s, m, at, owner, n),
        attribute_recorded(s, a, owner, x),
        other != owner,
    ensures
        name_from(n, s, owner) == (if m.kind == XmlNodeKind::Element || m.kind
            == XmlNodeKind::ProcessingInstruction {
            Some(s.subrange(m.primary.0, m.primary.1))
        } else {
            None
        }),
        value_from(n, s, owner) == (if m.kind == XmlNodeKind::Element {
            None
        } else if m.kind == XmlNodeKind::ProcessingInstruction {
            Some(s.subrange(m.secondary.0, m.secondary.1))
        } else {
            Some(s.subrange(m.primary.0, m.primary.1))
        }),
        attribute_name_from(x, s, owner) == Some(s.subrange(a.name.0, a.name.1)),
        attribute_value_from(x, s, owner) == Some(s.subrange(a.value.0, a.value.1)),
        name_from(n, s, other) is None,
        value_from(n, s, other) is None,
        attribute_name_from(x, s, other) is None,
        attribute_value_from(x, s, other) is None,
{
    lemma_range_text(s, m.primary, n.name_start, n.name_len);
    if m.kind != XmlNodeKind::Element {
        lemma_range_text(s, m.secondary, n.attribute_start, n.attribute_count);
    }
    lemma_range_text(s, a.name, x.name_start, x.name_len);
    lemma_range_text(s, a.value, x.value_start, x.value_len);
}

/// Words are parted by spaces, tabs, line feeds, form feeds and carriage returns; the first word of
/// a text is what stands before the first of them.
pub proof fn lemma_words(c: char, w: Seq<char>, rest: Seq<char>)
    requires
        w.len() > 0,
        forall|k: int| 0 <= k < w.len() ==> !word_space(#[trigger] w[k]),
        rest.len() > 0 ==> word_space(rest[0]),
    ensures
        word_space(c) <==> c == ' ' || c == '\t' || c == '\n' || c as u32 == 12 || c == '\r',
        first_word(w + rest) == Some(w),
        word_space(c) ==> first_word(seq![c] + w + rest) == Some(w),
{
    let s = w + rest;
    assert(s[0] == w[0]);
    lemma_word_goes(s, 0, w.len() as int, w, 0);
    assert(s.subrange(0, w.len() as int) =~= w);
    if word_space(c) {
        let t = seq![c] + w + rest;
        reveal_with_fuel(crate::recovery::word_start, 3);
        assert(t[0] == c);
        assert(t[1] == w[0]);
        lemma_word_goes(t, 1, 1int + w.len(), w, 1);
        assert(t.subrange(1, 1int + w.len()) =~= w);
    }
}

proof fn lemma_word_goes(s: Seq<char>, i: int, j: int, w: Seq<char>, at: int)
    requires
        0 <= at <= i <= j <= s.len(),
        j == at + w.len(),
        forall|k: int| at <= k < j ==> #[trigger] s[k] == w[k - at],
        forall|k: int| 0 <= k < w.len() ==> !word_space(#[trigger] w[k]),
        j < s.len() ==> word_space(s[j]),
    ensures
        crate::recovery::word_end(s, i) == j,
    decreases j - i,
{
    if i < j {
        assert(s[i] == w[i - at]);
        lemma_word_goes(s, i + 1, j, w, at);
    }
}

/// An XML declaration starts with its target and white space: a longer target is an instruction.
pub proof fn lemma_declaration_starts(s: Seq<char>)
    ensures
        declaration_at(s, 0) <==> {
            &&& s.len() > 5
            &&& s[0] == '<' && s[1] == '?' && s[2] == 'x' && s[3] == 'm' && s[4] == 'l'
            &&& s[5] == ' ' || s[5] == '\t' || s[5] == '\r' || s[5] == '\n'
        },
        mark_end(s) == (if s.len() > 0 && s[0] == '\u{feff}' {
            1int
        } else {
            0int
        }),
{
    reveal_strlit("<?xml");
    if starts_at(s, 0, "<?xml"@) {
        lemma_at(s, 0, "<?xml"@);
        assert(s[0] == "<?xml"@[0]);
        assert(s[1] == "<?xml"@[1]);
        assert(s[2] == "<?xml"@[2]);
        assert(s[3] == "<?xml"@[3]);
        assert(s[4] == "<?xml"@[4]);
    }
    if s.len() > 5 && s[0] == '<' && s[1] == '?' && s[2] == 'x' && s[3] == 'm' && s[4] == 'l' {
        assert(s.subrange(0, 5) =~= "<?xml"@);
    }
}

/// A document of more bytes than a record can count is refused, at its end.
pub proof fn lemma_size_limit(s: Seq<char>, c: ConfigModel, m: DocumentModel)
    requires
        expanded_parse(s, c, false) == Ok::<DocumentModel, ErrorModel>(m),
    ensures
        compact_parse(s, c) == (if byte_len(m.text) <= 4294967295 {
            Ok::<DocumentModel, ErrorModel>(m)
        } else {
            Err(
                ErrorModel {
                    kind: ErrorKindModel::InvalidDocumentStructure,
                    byte: byte_len(s) as int,
                },
            )
        }),
{
}

/// An end tag in a piece of a document that closes nothing is reported where it starts.
pub proof fn lemma_stray_end_tag(s: Seq<char>, e: ErrorModel, i: int, k: int)
    requires
        e.kind is MismatchedEndTag,
        e.kind->expected == wrapper_name(s),
        0 <= k <= s.len(),
        fragment_byte(s, e.byte) == byte_offset(s, k),
        0 <= i && i + 2 <= k,
        s[i] == '<' && s[i + 1] == '/',
        forall|j: int|
            i < j && j + 2 <= k ==> !(#[trigger] s[j] == '<' && s[j + 1] == '/'),
    ensures
        fragment_error(s, e) == (ErrorModel { kind: e.kind, byte: byte_offset(s, i) as int }),
{
    lemma_character_of_a_byte(s, s.len() as int, byte_offset(s, k) as int);
    reveal_strlit("</");
    lemma_last(s, i, k);
}

proof fn lemma_last(s: Seq<char>, i: int, k: int)
    requires
        0 <= i && i + 2 <= k <= s.len(),
        s[i] == '<' && s[i + 1] == '/',
        forall|j: int|
            i < j && j + 2 <= k ==> !(#[trigger] s[j] == '<' && s[j + 1] == '/'),
    ensures
        last_before(s, k, "</"@) == Some(i),
    decreases k,
{
    reveal_strlit("</");
    assert("</"@ =~= seq!['<', '/']);
    if k == i + 2 {
        assert(s.subrange(i, i + 2) =~= "</"@);
    } else {
        if starts_at(s, k - 2, "</"@) {
            lemma_at(s, k - 2, "</"@);
            assert(s[k - 2] == "</"@[0]);
            assert(s[k - 1] == "</"@[1]);
        }
        lemma_last(s, i, k - 1);
    }
}

/// The control characters that stay references in the value of an entity: all below the space but
/// the tab and the line ends.
pub proof fn lemma_kept_controls(c: char)
    ensures
        kept_control(c) <==> c != '\0' && c < ' ' && c != '\t' && c != '\n' && c != '\r',
{
}

/// White space anywhere in Unicode.
pub proof fn lemma_unicode_spaces(c: char)
    ensures
        c == ' ' || c == '\t' || c == '\n' || c == '\r' || c as u32 == 0xb || c as u32 == 0xc
            ==> unicode_space(c),
        c == '\u{85}' || c == '\u{a0}' || c == '\u{1680}' || c == '\u{2028}' || c == '\u{2029}' || c
            == '\u{202f}' || c == '\u{205f}' || c == '\u{3000}' ==> unicode_space(c),
        '\u{2000}' <= c <= '\u{200a}' ==> unicode_space(c),
        unicode_space(c) ==> c <= ' ' || c == '\u{85}' || c == '\u{a0}' || c == '\u{1680}' || (
        '\u{2000}' <= c && c <= '\u{200a}') || c == '\u{2028}' || c == '\u{2029}' || c
            == '\u{202f}' || c == '\u{205f}' || c == '\u{3000}',
        c < ' ' && unicode_space(c) ==> '\t' <= c && c <= '\r',
{
}

/// A tag is empty if a slash is the last of its characters that is not white space.
pub proof fn lemma_empty_tags(s: Seq<char>, k: int)
    requires
        0 < k <= s.len(),
        forall|j: int| k <= j < s.len() ==> unicode_space(#[trigger] s[j]),
        !unicode_space(s[k - 1]),
    ensures
        ends_with_slash(s, s.len() as int) == (s[k - 1] == '/'),
{
    lemma_slash_back(s, k, s.len() as int);
}

proof fn lemma_slash_back(s: Seq<char>, k: int, i: int)
    requires
        0 < k <= i <= s.len(),
        forall|j: int| k <= j < s.len() ==> unicode_space(#[trigger] s[j]),
        !unicode_space(s[k - 1]),
    ensures
        ends_with_slash(s, i) == (s[k - 1] == '/'),
    decreases i,
{
    if k < i {
        assert(unicode_space(s[i - 1]));
        lemma_slash_back(s, k, i - 1);
    }
}

/// A replacement cannot complete what stands before it or behind it: neither a reference nor the
/// end of a section.
pub proof fn lemma_boundaries(before: Seq<char>, text: Seq<char>, after: Seq<char>)
    ensures
        before.len() > 0 && before.last() == '&' && text.len() > 0 && (text[0] == '#'
            || crate::syntax::name_start(text[0])) ==> bad_boundary(before, text, after),
        text.len() > 0 && text.last() == '&' && after.len() > 0 && (after[0] == '#'
            || crate::syntax::name_start(after[0])) ==> bad_boundary(before, text, after),
        before.len() > 1 && before[before.len() - 2] == ']' && before.last() == ']' && text.len()
            > 0 && text[0] == '>' ==> bad_boundary(before, text, after),
        text.len() > 1 && text[text.len() - 2] == ']' && text.last() == ']' && after.len() > 0
            && after[0] == '>' ==> bad_boundary(before, text, after),
        before.len() > 0 && before.last() == ']' && text.len() > 1 && text[0] == ']' && text[1]
            == '>' ==> bad_boundary(before, text, after),
{
    lemma_seam(before, text);
    lemma_seam(text, after);
}

proof fn lemma_seam(a: Seq<char>, b: Seq<char>)
    ensures
        a.len() > 1 && a[a.len() - 2] == ']' && a.last() == ']' && b.len() > 0 && b[0] == '>'
            ==> crate::text::contains_text(seam(a, b), "]]>"@),
        a.len() > 0 && a.last() == ']' && b.len() > 1 && b[0] == ']' && b[1] == '>'
            ==> crate::text::contains_text(seam(a, b), "]]>"@),
{
    let x = seam(a, b);
    if a.len() > 1 && a[a.len() - 2] == ']' && a.last() == ']' && b.len() > 0 && b[0] == '>' {
        assert(x[0] == ']' && x[1] == ']' && x[2] == '>');
        lemma_holds(x, 0);
    }
    if a.len() > 0 && a.last() == ']' && b.len() > 1 && b[0] == ']' && b[1] == '>' {
        if a.len() > 1 {
            assert(x[1] == ']' && x[2] == ']' && x[3] == '>');
            lemma_holds(x, 1);
        } else {
            assert(x[0] == ']' && x[1] == ']' && x[2] == '>');
            lemma_holds(x, 0);
        }
    }
}

proof fn lemma_holds(x: Seq<char>, k: int)
    requires
        closes_at(x, k),
    ensures
        crate::text::contains_text(x, "]]>"@),
{
    lemma_closes(x, k);
    if !crate::text::contains_text(x, "]]>"@) {
        crate::readback::lemma_not_found(x, 0, "]]>"@, k);
    }
}

/// A section that is not closed goes up to the end of the text.
pub proof fn lemma_open_sections(s: Seq<char>, i: int, skip: int, close: Seq<char>, k: int)
    requires
        0 <= i,
        0 <= skip,
    ensures
        find_from(s, i + skip, close) is None ==> section_end(s, i, skip, close) == s.len(),
        i + skip <= k <= s.len() && starts_at(s, k, close) && (forall|j: int|
            i + skip <= j < k ==> !#[trigger] starts_at(s, j, close)) ==> section_end(
            s,
            i,
            skip,
            close,
        ) == k + close.len(),
{
    if i + skip <= k <= s.len() && starts_at(s, k, close) && (forall|j: int|
        i + skip <= j < k ==> !#[trigger] starts_at(s, j, close)) {
        lemma_find(s, i + skip, k, close);
    }
}

/// An entity that refers to itself, or to one that is not declared, makes its document invalid.
pub proof fn lemma_entity_chains(
    d: Seq<EntityDeclarationModel>,
    name: Seq<char>,
    t: Seq<char>,
    n: Seq<char>,
    fuel: int,
)
    requires
        entity_named(d, name) == Some(EntityModel::Internal(t)),
        general_reference_at(t, 0) == Some((n, t.len() as int)),
        t.len() > 0,
        t[0] == '&',
        predefined_entity(n) is None,
        0 < fuel,
    ensures
        entity_named(d, n) is None && fuel > 1 ==> chain_length(d, name, fuel) == Err::<
            int,
            ErrorKindModel,
        >(ErrorKindModel::UndeclaredEntity(n)),
        n == name ==> chain_length(d, name, fuel) == Err::<int, ErrorKindModel>(
            ErrorKindModel::EntityExpansionDepthLimitExceeded,
        ),
        chain_length(d, n, fuel - 1) matches Ok(k) ==> (0 < k ==> chain_length(d, name, fuel)
            == Ok::<int, ErrorKindModel>(k + 1)),
    decreases fuel,
{
    reveal_with_fuel(chain_length_from, 2);
    reveal_with_fuel(chain_length, 2);
    lemma_no_section(t, 0);
    if n == name && fuel > 1 {
        lemma_entity_chains(d, name, t, n, fuel - 1);
    }
}

/// The first character that a document of the version cannot hold.
pub proof fn lemma_first_bad_character(s: Seq<char>, i: int, v: XmlVersion)
    requires
        0 <= i <= s.len(),
    ensures
        match first_bad_char(s, i, v) {
            Some(k) => i <= k < s.len() && !crate::dtd::literal_char(s[k], v) && forall|j: int|
                i <= j < k ==> crate::dtd::literal_char(#[trigger] s[j], v),
            None => forall|j: int|
                i <= j < s.len() ==> crate::dtd::literal_char(#[trigger] s[j], v),
        },
    decreases s.len() - i,
{
    if i < s.len() && crate::dtd::literal_char(s[i], v) {
        lemma_first_bad_character(s, i + 1, v);
    }
}

/// The truth values are written as words.
pub proof fn lemma_truth_values()
    ensures
        true.xml_value() == seq!['t', 'r', 'u', 'e'],
        false.xml_value() == seq!['f', 'a', 'l', 's', 'e'],
{
    reveal_strlit("true");
    reveal_strlit("false");
    assert("true"@ =~= seq!['t', 'r', 'u', 'e']);
    assert("false"@ =~= seq!['f', 'a', 'l', 's', 'e']);
}

/// A document that was opened has what stood beside the root of the text, and its document type
/// declaration between the same nodes.
pub proof fn lemma_opened_document(m: DocumentModel, c: ConfigModel, lineage: u64, document: u64)
    requires
        0 <= m.doctype_index <= usize::MAX,
    ensures
        ({
            let s = opened(m, c, lineage, document, true);
            &&& s.before == m.before
            &&& s.after == m.after
            &&& s.doctype_index == m.doctype_index
            &&& s.source == m.text
            &&& s.root == grown(m.text, m.root, 0)
            &&& s.reading.version == m.version
            &&& s.reading.policy == c.attribute_whitespace
            &&& !s.edited && s.verbatim
            &&& !opened(m, c, lineage, document, false).verbatim
            &&& s.lineage == lineage && s.document == document && s.generation == 0
        }),
{
}

} // verus!
