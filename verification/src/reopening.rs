//! A document that is written and parsed again is the same document.

use vstd::prelude::*;

use crate::compact::compact_parse;
use crate::config::preserving_config;
use crate::declaration::declared_version;
use crate::document::{
    declaration_at, doctype, doctype_identifiers, doctype_subset, expanded_text, mark_end,
    misc_nodes, prolog, prolog_rest, subset_close, xml_declaration, PrologModel,
};
use crate::dom::{AttributeModel, DoctypeModel, InstructionModel, NodeModel};
use crate::dtd::{
    literal_char, pubid_literal_end, pubid_rest, quote_at, subset_entities, system_literal_end,
    system_rest, EntityDeclarationModel,
};
use crate::entities::{
    expanded_from, expansion_start, first_bad_char, graph_fault_from, table_resolver, Expanded,
    ExpansionState,
};
use crate::error::{ErrorModel, FaultModel, Read};
use crate::flat::materialized;
use crate::grammar::blank_end;
use crate::lexeme::{normalized, XmlVersion};
use crate::mutation::{pubid_text, tree_char, tree_text, unquotable};
use crate::readback::{
    lemma_comment_read, lemma_data_read, lemma_element_read, lemma_element_start,
    lemma_instruction_read, lemma_nodes_text_prefix, lemma_starts_within, writable,
    writable_attributes, writable_data, writable_instruction,
};
use crate::scan::{expected, keyword_at, name_end, required_space, space_end};
use crate::serialize::{
    attribute_text, attributes_text, declaration_text, doctype_text, document_text, encoding_label,
    escaped_attribute, escaped_text, external_text, instruction_text, node_text, nodes_text,
    prolog_text, quote_char, quoted, PlainDocument, XmlDeclarationMode, XmlQuoteStyle,
    XmlSerializeOptions,
};
use crate::steady::{lemma_node_passes, lemma_nodes_pass};
use crate::syntax::{name_part, name_start, pubid_char, space, valid_name};
use crate::text::{byte_len, find_from, starts_at};
use crate::unescape::{
    clean, clean_char, lemma_escaped_attribute_chars, lemma_escaped_text_chars, lemma_name_read,
    lemma_normalized, lemma_starts_char, lemma_starts_index, lemma_starts_split,
};

verus! {

/// A node beside the root that reads back as it is.
pub open spec fn writable_misc(n: NodeModel, v: XmlVersion) -> bool {
    (n is Comment || n is ProcessingInstruction) && writable(n, 0, v)
}

/// A text that a document of the given version can hold as it stands.
#[verifier::opaque]
pub open spec fn literal_text(s: Seq<char>, v: XmlVersion) -> bool {
    forall|i: int| 0 <= i < s.len() ==> literal_char(#[trigger] s[i], v)
}

/// A clean text can be held as it stands.
proof fn lemma_clean_is_literal(s: Seq<char>, v: XmlVersion)
    requires
        clean(s, v),
    ensures
        literal_text(s, v),
{
    reveal(literal_text);
    assert forall|i: int| 0 <= i < s.len() implies literal_char(#[trigger] s[i], v) by {
        lemma_clean_char(s[i], v);
    }
}

/// A clean character can be held as it stands.
proof fn lemma_clean_char(c: char, v: XmlVersion)
    requires
        clean_char(c, v),
    ensures
        literal_char(c, v),
{
}

/// What a document can hold can stand in a tree.
pub proof fn lemma_literal_is_tree(s: Seq<char>, v: XmlVersion)
    requires
        literal_text(s, v),
    ensures
        tree_text(s),
{
    reveal(literal_text);
    assert forall|i: int| 0 <= i < s.len() implies tree_char(#[trigger] s[i]) by {
        lemma_literal_char(s[i], v);
    }
}

/// A character that a document can hold can stand in a tree.
proof fn lemma_literal_char(c: char, v: XmlVersion)
    requires
        literal_char(c, v),
    ensures
        tree_char(c),
{
}

/// A printable ASCII text can be held as it stands.
proof fn lemma_ascii_is_literal(s: Seq<char>, v: XmlVersion)
    requires
        forall|i: int| 0 <= i < s.len() ==> 0x20 <= (#[trigger] s[i]) as u32 && s[i] as u32 <= 0x7e,
    ensures
        literal_text(s, v),
{
    reveal(literal_text);
}

/// Texts one behind the other.
proof fn lemma_literal_join(a: Seq<char>, b: Seq<char>, v: XmlVersion)
    requires
        literal_text(a, v),
        literal_text(b, v),
    ensures
        literal_text(a + b, v),
{
    reveal(literal_text);
    assert forall|k: int| 0 <= k < (a + b).len() implies literal_char(#[trigger] (a + b)[k], v) by {
        if k < a.len() {
            assert((a + b)[k] == a[k]);
        } else {
            assert((a + b)[k] == b[k - a.len()]);
        }
    }
}

/// The characters of a name.
proof fn lemma_name_chars(n: Seq<char>, v: XmlVersion)
    requires
        valid_name(n),
    ensures
        literal_text(n, v),
{
    reveal(literal_text);
    assert forall|i: int| 0 <= i < n.len() implies literal_char(#[trigger] n[i], v) by {
        lemma_name_char(n[i], v);
    }
}

/// A character of a name.
proof fn lemma_name_char(c: char, v: XmlVersion)
    requires
        name_part(c),
    ensures
        literal_char(c, v),
{
}

/// The characters of the attributes as they are written.
proof fn lemma_attributes_chars(a: Seq<AttributeModel>, k: int, q: XmlQuoteStyle, v: XmlVersion)
    requires
        writable_attributes(a, v),
        0 <= k <= a.len(),
    ensures
        literal_text(attributes_text(a, k, q), v),
    decreases k,
{
    if k == 0 {
        lemma_ascii_is_literal(attributes_text(a, k, q), v);
    } else {
        lemma_attributes_chars(a, k - 1, q, v);
        let x = a[k - 1];
        let e = escaped_attribute(x.value, q);
        lemma_name_chars(x.name, v);
        lemma_escaped_attribute_chars(x.value, q, v);
        lemma_clean_is_literal(e, v);
        lemma_ascii_is_literal(seq![' '], v);
        lemma_ascii_is_literal(seq!['=', quote_char(q)], v);
        lemma_ascii_is_literal(seq![quote_char(q)], v);
        lemma_literal_join(seq![' '], x.name, v);
        lemma_literal_join(seq![' '] + x.name, seq!['=', quote_char(q)], v);
        lemma_literal_join(seq![' '] + x.name + seq!['=', quote_char(q)], e, v);
        lemma_literal_join(
            seq![' '] + x.name + seq!['=', quote_char(q)] + e,
            seq![quote_char(q)],
            v,
        );
        lemma_literal_join(attributes_text(a, k - 1, q), attribute_text(x, q), v);
    }
}

/// The characters of an instruction as it is written.
proof fn lemma_instruction_chars(i: InstructionModel, v: XmlVersion)
    requires
        valid_name(i.target),
        literal_text(i.data, v),
    ensures
        literal_text(instruction_text(i), v),
{
    reveal_strlit("<?");
    reveal_strlit("?>");
    lemma_name_chars(i.target, v);
    lemma_ascii_is_literal("<?"@, v);
    lemma_ascii_is_literal("?>"@, v);
    lemma_ascii_is_literal(seq![' '], v);
    lemma_ascii_is_literal(Seq::empty(), v);
    let lead = if i.data.len() == 0 {
        Seq::empty()
    } else {
        seq![' '] + i.data
    };
    if i.data.len() > 0 {
        lemma_literal_join(seq![' '], i.data, v);
    }
    lemma_literal_join("<?"@, i.target, v);
    lemma_literal_join("<?"@ + i.target, lead, v);
    lemma_literal_join("<?"@ + i.target + lead, "?>"@, v);
}

/// The characters of a node as it is written.
proof fn lemma_node_chars(n: NodeModel, depth: int, q: XmlQuoteStyle, v: XmlVersion)
    requires
        writable(n, depth, v),
    ensures
        literal_text(node_text(n, q), v),
    decreases n, 0int,
{
    match n {
        NodeModel::Element(e) => {
            let k = e.attributes.len() as int;
            let at = attributes_text(e.attributes, k, q);
            reveal_strlit("/>");
            reveal_strlit("</");
            lemma_ascii_is_literal("/>"@, v);
            lemma_ascii_is_literal("</"@, v);
            lemma_ascii_is_literal(seq!['<'], v);
            lemma_ascii_is_literal(seq!['>'], v);
            lemma_name_chars(e.name, v);
            lemma_attributes_chars(e.attributes, k, q, v);
            lemma_literal_join(seq!['<'], e.name, v);
            lemma_literal_join(seq!['<'] + e.name, at, v);
            if e.children.len() == 0 {
                lemma_literal_join(seq!['<'] + e.name + at, "/>"@, v);
            } else {
                let inner = nodes_text(e.children, e.children.len() as int, q);
                lemma_nodes_chars(e.children, e.children.len() as int, depth + 1, q, v);
                lemma_literal_join(seq!['>'], inner, v);
                lemma_literal_join(seq!['>'] + inner, "</"@, v);
                lemma_literal_join(seq!['>'] + inner + "</"@, e.name, v);
                lemma_literal_join(seq!['>'] + inner + "</"@ + e.name, seq!['>'], v);
                lemma_literal_join(
                    seq!['<'] + e.name + at,
                    seq!['>'] + inner + "</"@ + e.name + seq!['>'],
                    v,
                );
            }
        },
        NodeModel::Text(t) => {
            lemma_escaped_text_chars(t, v);
            lemma_clean_is_literal(escaped_text(t), v);
        },
        NodeModel::Cdata(t) => {
            crate::readback::lemma_cdata_plain(t, 0, Seq::empty());
            assert(t.subrange(0, t.len() as int) =~= t);
            assert(Seq::<char>::empty() + t =~= t);
            reveal_strlit("<![CDATA[");
            reveal_strlit("]]>");
            lemma_clean_is_literal(t, v);
            lemma_ascii_is_literal("<![CDATA["@, v);
            lemma_ascii_is_literal("]]>"@, v);
            lemma_literal_join("<![CDATA["@, t, v);
            lemma_literal_join("<![CDATA["@ + t, "]]>"@, v);
        },
        NodeModel::Comment(t) => {
            reveal_strlit("<!--");
            reveal_strlit("-->");
            lemma_clean_is_literal(t, v);
            lemma_ascii_is_literal("<!--"@, v);
            lemma_ascii_is_literal("-->"@, v);
            lemma_literal_join("<!--"@, t, v);
            lemma_literal_join("<!--"@ + t, "-->"@, v);
        },
        NodeModel::ProcessingInstruction(i) => {
            lemma_clean_is_literal(i.data, v);
            lemma_instruction_chars(i, v);
        },
    }
}

/// The characters of nodes as they are written.
proof fn lemma_nodes_chars(n: Seq<NodeModel>, k: int, depth: int, q: XmlQuoteStyle, v: XmlVersion)
    requires
        0 <= k <= n.len(),
        forall|m: int| 0 <= m < n.len() ==> writable(#[trigger] n[m], depth, v),
    ensures
        literal_text(nodes_text(n, k, q), v),
    decreases n, k,
{
    if k == 0 {
        lemma_ascii_is_literal(nodes_text(n, k, q), v);
    } else {
        lemma_nodes_chars(n, k - 1, depth, q, v);
        lemma_node_chars(n[k - 1], depth, q, v);
        lemma_literal_join(nodes_text(n, k - 1, q), node_text(n[k - 1], q), v);
    }
}

/// A text that a document can hold holds no character that it cannot.
proof fn lemma_no_bad_char(s: Seq<char>, i: int, v: XmlVersion)
    requires
        literal_text(s, v),
        0 <= i <= s.len(),
    ensures
        first_bad_char(s, i, v) is None,
    decreases s.len() - i,
{
    if i < s.len() {
        assert(literal_char(s[i], v)) by {
            reveal(literal_text);
        }
        lemma_no_bad_char(s, i + 1, v);
    }
}

/// The nodes beside the root are read back from the `k`-th on.
proof fn lemma_misc_read(
    s: Seq<char>,
    i: int,
    n: Seq<NodeModel>,
    k: int,
    q: XmlQuoteStyle,
    acc: Seq<NodeModel>,
    v: XmlVersion,
)
    requires
        0 <= k <= n.len(),
        forall|m: int| 0 <= m < n.len() ==> writable_misc(#[trigger] n[m], v),
        starts_at(s, i, nodes_text(n, n.len() as int, q)),
    ensures
        misc_nodes(
            s,
            i + nodes_text(n, k, q).len(),
            preserving_config(),
            v,
            acc,
        ) == misc_nodes(
            s,
            i + nodes_text(n, n.len() as int, q).len(),
            preserving_config(),
            v,
            acc + n.skip(k),
        ),
    decreases n.len() - k,
{
    if k == n.len() {
        assert(acc + n.skip(k) =~= acc);
    } else {
        lemma_nodes_text_prefix(s, i, n, k + 1, n.len() as int, q);
        let t = node_text(n[k], q);
        let p = i + nodes_text(n, k, q).len();
        lemma_starts_split(s, i, nodes_text(n, k, q), t);
        assert(writable_misc(n[k], v));
        lemma_misc_read(s, i, n, k + 1, q, acc.push(n[k]), v);
        assert(acc.push(n[k]) + n.skip(k + 1) =~= acc + n.skip(k));
        reveal_strlit("<!--");
        reveal_strlit("-->");
        match n[k] {
            NodeModel::Comment(x) => {
                lemma_comment_read(s, p, x, v);
                lemma_normalized(x, false, v);
                assert(blank_end(s, p, v) == p);
            },
            NodeModel::ProcessingInstruction(x) => {
                lemma_instruction_read(s, p, x, v);
                lemma_normalized(x.data, false, v);
                assert(blank_end(s, p, v) == p);
                if starts_at(s, p, "<!--"@) {
                    lemma_starts_index(s, p, "<!--"@);
                    assert("<!--"@[1] == s[p + 1]);
                }
                assert(InstructionModel { target: x.target, data: x.data } == x);
            },
            _ => {},
        }
    }
}

/// Nothing more is read beside the root where the root or the end of the document stands.
proof fn lemma_misc_end(s: Seq<char>, p: int, acc: Seq<NodeModel>, v: XmlVersion)
    requires
        0 <= p <= s.len(),
        p < s.len() ==> s[p] == '<' && p + 1 < s.len() && name_start(s[p + 1]),
    ensures
        misc_nodes(s, p, preserving_config(), v, acc) == Ok::<
            (Seq<NodeModel>, int),
            FaultModel,
        >((acc, p)),
        !starts_at(s, p, "<!DOCTYPE"@),
{
    reveal_strlit("<!--");
    reveal_strlit("<?");
    reveal_strlit("<!DOCTYPE");
    assert(blank_end(s, p, v) == p);
    if starts_at(s, p, "<!--"@) {
        lemma_starts_index(s, p, "<!--"@);
        assert("<!--"@[1] == s[p + 1]);
    }
    if starts_at(s, p, "<?"@) {
        lemma_starts_index(s, p, "<?"@);
        assert("<?"@[1] == s[p + 1]);
    }
    if starts_at(s, p, "<!DOCTYPE"@) {
        lemma_starts_index(s, p, "<!DOCTYPE"@);
        assert("<!DOCTYPE"@[1] == s[p + 1]);
    }
}

/// The entities that the internal subset declares.
pub open spec fn subset_declares(x: Option<Seq<char>>, v: XmlVersion) -> Read<Seq<EntityDeclarationModel>> {
    match x {
        None => Ok(Seq::empty()),
        Some(s) => subset_entities(s, v),
    }
}

/// The internal subset ends at the first bracket that closes it.
pub open spec fn subset_closes(x: Option<Seq<char>>) -> bool {
    x matches Some(y) ==> subset_close(y.push(']'), 0, None) == Ok::<int, FaultModel>(
        y.len() as int,
    )
}

/// A document type declaration that reads back as it is.
///
/// The internal subset ends at the first bracket that closes it, and the entities that it
/// declares do not go round in circles.
pub open spec fn writable_doctype(d: DoctypeModel, v: XmlVersion) -> bool {
    &&& valid_name(d.name)
    &&& identifiers_writable(d, v)
    &&& subset_closes(d.internal_subset)
    &&& d.internal_subset matches Some(x) ==> literal_text(x, v)
    &&& subset_declares(d.internal_subset, v) matches Ok(e) && graph_fault_from(e, 0) is None
}

/// The rest of a system literal is read back.
proof fn lemma_system_rest(s: Seq<char>, i: int, end: int, quote: char, v: XmlVersion)
    requires
        0 <= i <= end < s.len(),
        s[end] == quote,
        forall|k: int|
            i <= k < end ==> #[trigger] s[k] != quote && s[k] != '#' && literal_char(s[k], v),
    ensures
        system_rest(s, i, quote, v) == Ok::<int, FaultModel>(end + 1),
    decreases end - i,
{
    if i < end {
        lemma_system_rest(s, i + 1, end, quote, v);
    }
}

/// The rest of a public identifier is read back.
proof fn lemma_pubid_rest(s: Seq<char>, i: int, end: int, quote: char)
    requires
        0 <= i <= end < s.len(),
        s[end] == quote,
        forall|k: int| i <= k < end ==> #[trigger] s[k] != quote && pubid_char(s[k]),
    ensures
        pubid_rest(s, i, quote) == Ok::<int, FaultModel>(end + 1),
    decreases end - i,
{
    if i < end {
        lemma_pubid_rest(s, i + 1, end, quote);
    }
}

/// The parts of a quoted text.
proof fn lemma_quoted(s: Seq<char>, i: int, y: Seq<char>)
    requires
        starts_at(s, i, quoted(y)),
        !unquotable(y),
    ensures
        0 <= i,
        i + y.len() + 2 <= s.len(),
        quote_at(s, i),
        s[i + 1 + y.len()] == s[i],
        s.subrange(i + 1, i + 1 + y.len()) == y,
        forall|k: int| i + 1 <= k < i + 1 + y.len() ==> #[trigger] s[k] == y[k - i - 1]
            && s[k] != s[i],
{
    let q = if y.contains('"') {
        '\''
    } else {
        '"'
    };
    lemma_starts_split(s, i, seq![q] + y, seq![q]);
    lemma_starts_split(s, i, seq![q], y);
    lemma_starts_char(s, i, q);
    lemma_starts_char(s, i + 1 + y.len(), q);
    lemma_starts_index(s, i + 1, y);
    assert forall|k: int| i + 1 <= k < i + 1 + y.len() implies #[trigger] s[k] == y[k - i - 1]
        && s[k] != s[i] by {
        let m = k - i - 1;
        assert(y[m] == s[i + 1 + m]);
        assert(y.contains(y[m]));
    }
}

/// A system identifier is read back.
proof fn lemma_system_read(s: Seq<char>, i: int, y: Seq<char>, v: XmlVersion)
    requires
        starts_at(s, i, quoted(y)),
        !unquotable(y),
        literal_text(y, v),
        !y.contains('#'),
    ensures
        system_literal_end(s, i, v) == Ok::<int, FaultModel>(i + y.len() + 2),
        s.subrange(i + 1, i + 1 + y.len()) == y,
        quote_at(s, i),
{
    lemma_quoted(s, i, y);
    assert forall|k: int| i + 1 <= k < i + 1 + y.len() implies #[trigger] s[k] != s[i] && s[k]
        != '#' && literal_char(s[k], v) by {
        let m = k - i - 1;
        assert(s[k] == y[m]);
        assert(literal_char(y[m], v)) by {
            reveal(literal_text);
        }
        assert(y.contains(y[m]));
    }
    lemma_system_rest(s, i + 1, i + 1 + y.len(), s[i], v);
}

/// A public identifier is read back.
proof fn lemma_pubid_read(s: Seq<char>, i: int, y: Seq<char>)
    requires
        starts_at(s, i, quoted(y)),
        !unquotable(y),
        pubid_text(y),
    ensures
        pubid_literal_end(s, i) == Ok::<int, FaultModel>(i + y.len() + 2),
        s.subrange(i + 1, i + 1 + y.len()) == y,
        quote_at(s, i),
{
    lemma_quoted(s, i, y);
    assert forall|k: int| i + 1 <= k < i + 1 + y.len() implies #[trigger] s[k] != s[i]
        && pubid_char(s[k]) by {
        let m = k - i - 1;
        assert(s[k] == y[m]);
        assert(pubid_char(y[m]));
    }
    lemma_pubid_rest(s, i + 1, i + 1 + y.len(), s[i]);
}

/// One space, read where a space is due.
proof fn lemma_one_space(s: Seq<char>, i: int)
    requires
        0 <= i,
        i + 1 < s.len(),
        s[i] == ' ',
        !space(s[i + 1]),
    ensures
        required_space(s, i) == Ok::<int, FaultModel>(i + 1),
        space_end(s, i) == i + 1,
{
    assert(space_end(s, i + 1) == i + 1);
}

/// A keyword between two spaces is read back.
proof fn lemma_keyword_read(s: Seq<char>, i: int, w: Seq<char>)
    requires
        w.len() > 0,
        !space(w[0]),
        starts_at(s, i, seq![' '] + w + seq![' ']),
        i + w.len() + 2 < s.len(),
        !space(s[i + w.len() + 2]),
    ensures
        0 <= i,
        s[i + 1] == w[0],
        space_end(s, i) == i + 1,
        keyword_at(s, i + 1, w),
        required_space(s, i + 1 + w.len()) == Ok::<int, FaultModel>(i + 2 + w.len()),
{
    lemma_starts_split(s, i, seq![' '] + w, seq![' ']);
    lemma_starts_split(s, i, seq![' '], w);
    lemma_starts_char(s, i, ' ');
    lemma_starts_char(s, i + 1 + w.len(), ' ');
    lemma_starts_index(s, i + 1, w);
    assert(w[0] == s[i + 1 + 0]);
    lemma_one_space(s, i);
    lemma_one_space(s, i + 1 + w.len());
}

/// Both identifiers are read back.
proof fn lemma_public_read(s: Seq<char>, i: int, p: Seq<char>, y: Seq<char>, v: XmlVersion)
    requires
        starts_at(s, i, " PUBLIC "@ + quoted(p) + seq![' '] + quoted(y)),
        !unquotable(p),
        pubid_text(p),
        !unquotable(y),
        literal_text(y, v),
        !y.contains('#'),
    ensures
        doctype_identifiers(s, space_end(s, i), v) == Ok::<
            (Option<Seq<char>>, Option<Seq<char>>, int),
            FaultModel,
        >((Some(p), Some(y), i + (" PUBLIC "@ + quoted(p) + seq![' '] + quoted(y)).len())),
{
    reveal_strlit(" PUBLIC ");
    reveal_strlit("PUBLIC");
    reveal_strlit("SYSTEM");
    assert(" PUBLIC "@ =~= seq![' '] + "PUBLIC"@ + seq![' ']);
    lemma_starts_split(s, i, " PUBLIC "@ + quoted(p) + seq![' '], quoted(y));
    lemma_starts_split(s, i, " PUBLIC "@ + quoted(p), seq![' ']);
    lemma_starts_split(s, i, " PUBLIC "@, quoted(p));
    let a = i + 8;
    let b = a + p.len() + 2;
    lemma_pubid_read(s, a, p);
    lemma_starts_char(s, b, ' ');
    lemma_system_read(s, b + 1, y, v);
    lemma_keyword_read(s, i, "PUBLIC"@);
    lemma_one_space(s, b);
    if starts_at(s, i + 1, "SYSTEM"@) {
        lemma_starts_index(s, i + 1, "SYSTEM"@);
        assert("SYSTEM"@[0] == s[i + 1 + 0]);
    }
}

/// A system identifier alone is read back.
proof fn lemma_system_only_read(s: Seq<char>, i: int, y: Seq<char>, v: XmlVersion)
    requires
        starts_at(s, i, " SYSTEM "@ + quoted(y)),
        !unquotable(y),
        literal_text(y, v),
        !y.contains('#'),
    ensures
        doctype_identifiers(s, space_end(s, i), v) == Ok::<
            (Option<Seq<char>>, Option<Seq<char>>, int),
            FaultModel,
        >((None, Some(y), i + (" SYSTEM "@ + quoted(y)).len())),
{
    reveal_strlit(" SYSTEM ");
    reveal_strlit("SYSTEM");
    assert(" SYSTEM "@ =~= seq![' '] + "SYSTEM"@ + seq![' ']);
    lemma_starts_split(s, i, " SYSTEM "@, quoted(y));
    lemma_system_read(s, i + 8, y, v);
    lemma_keyword_read(s, i, "SYSTEM"@);
}

/// No identifier is read where there is none.
proof fn lemma_no_identifiers_read(s: Seq<char>, i: int, v: XmlVersion)
    requires
        0 <= i < s.len(),
        s[i] == '>' || s[i] == ' ' && i + 1 < s.len() && s[i + 1] == '[',
    ensures
        doctype_identifiers(s, space_end(s, i), v) == Ok::<
            (Option<Seq<char>>, Option<Seq<char>>, int),
            FaultModel,
        >((None, None, space_end(s, i))),
        space_end(s, space_end(s, i)) == space_end(s, i),
{
    if s[i] == ' ' {
        lemma_one_space(s, i);
    }
    let h = space_end(s, i);
    assert(s[h] == '>' || s[h] == '[');
    assert(space_end(s, h) == h);
    reveal_strlit("PUBLIC");
    reveal_strlit("SYSTEM");
    if starts_at(s, h, "SYSTEM"@) {
        lemma_starts_index(s, h, "SYSTEM"@);
        assert("SYSTEM"@[0] == s[h + 0]);
    }
    if starts_at(s, h, "PUBLIC"@) {
        lemma_starts_index(s, h, "PUBLIC"@);
        assert("PUBLIC"@[0] == s[h + 0]);
    }
}

/// The identifiers of a document type declaration read back as they are.
pub open spec fn identifiers_writable(d: DoctypeModel, v: XmlVersion) -> bool {
    &&& d.public_id matches Some(p) ==> d.system_id is Some && pubid_text(p) && !unquotable(p)
    &&& d.system_id matches Some(y) ==> literal_text(y, v) && !unquotable(y) && !y.contains('#')
}

/// The identifiers of a document type declaration are read back.
proof fn lemma_identifiers_read(s: Seq<char>, i: int, d: DoctypeModel, v: XmlVersion)
    requires
        identifiers_writable(d, v),
        starts_at(s, i, external_text(d)),
        i + external_text(d).len() < s.len(),
        s[i + external_text(d).len()] == '>' || s[i + external_text(d).len()] == ' ' && i
            + external_text(d).len() + 1 < s.len() && s[i + external_text(d).len() + 1] == '[',
    ensures
        ({
            let g = i + external_text(d).len();
            &&& doctype_identifiers(s, space_end(s, i), v) matches Ok((p, y, h))
            &&& p == d.public_id
            &&& y == d.system_id
            &&& space_end(s, h) == space_end(s, g)
        }),
{
    match (d.public_id, d.system_id) {
        (Some(p), Some(y)) => {
            lemma_public_read(s, i, p, y, v);
        },
        (None, Some(y)) => {
            lemma_system_only_read(s, i, y, v);
        },
        (None, None) => {
            lemma_no_identifiers_read(s, i, v);
        },
        (Some(p), None) => {},
    }
}

/// What is found in a text is found in a longer one.
proof fn lemma_find_in_longer(s: Seq<char>, off: int, a: Seq<char>, i: int, t: Seq<char>)
    requires
        starts_at(s, off, a),
        0 <= i,
        find_from(a, i, t) is Some,
    ensures
        find_from(s, off + i, t) == Some(off + find_from(a, i, t)->Some_0),
        i <= find_from(a, i, t)->Some_0,
        find_from(a, i, t)->Some_0 + t.len() <= a.len(),
    decreases a.len() + 1 - i,
{
    lemma_starts_index(s, off, a);
    if starts_at(a, i, t) {
        lemma_same_within(s, off, a, i, t);
    } else {
        if starts_at(s, off + i, t) && i + t.len() <= a.len() {
            lemma_starts_within(s, off, a, off + i, t);
        }
        lemma_find_in_longer(s, off, a, i + 1, t);
        assert(!starts_at(s, off + i, t));
    }
}

/// What stands in a text stands in a longer one.
proof fn lemma_same_within(s: Seq<char>, off: int, a: Seq<char>, i: int, t: Seq<char>)
    requires
        starts_at(s, off, a),
        starts_at(a, i, t),
    ensures
        starts_at(s, off + i, t),
{
    lemma_starts_index(s, off, a);
    let x = s.subrange(off + i, off + i + t.len());
    let y = a.subrange(i, i + t.len());
    assert(x =~= y) by {
        assert forall|k: int| 0 <= k < t.len() implies x[k] == y[k] by {
            assert(a[i + k] == s[off + (i + k)]);
        }
    }
}

/// A mark without a bracket that stands in the longer text stands in the shorter one.
proof fn lemma_mark_within(s: Seq<char>, off: int, a: Seq<char>, i: int, t: Seq<char>)
    requires
        starts_at(s, off, a),
        0 <= i < a.len(),
        a.last() == ']',
        !t.contains(']'),
    ensures
        starts_at(s, off + i, t) == starts_at(a, i, t),
{
    if starts_at(a, i, t) {
        lemma_same_within(s, off, a, i, t);
    }
    if starts_at(s, off + i, t) {
        if i + t.len() <= a.len() {
            lemma_starts_within(s, off, a, off + i, t);
        } else {
            lemma_starts_index(s, off, a);
            lemma_starts_index(s, off + i, t);
            let m = a.len() - 1 - i;
            assert(t[m] == s[off + i + m]);
            assert(a[a.len() - 1] == s[off + (a.len() - 1)]);
            assert(t.contains(t[m]));
        }
    }
}

/// An internal subset ends where it ends alone.
proof fn lemma_subset_close(s: Seq<char>, off: int, a: Seq<char>, i: int, quote: Option<char>)
    requires
        starts_at(s, off, a),
        a.len() > 0,
        a.last() == ']',
        0 <= i,
        subset_close(a, i, quote) is Ok,
    ensures
        subset_close(s, off + i, quote) == Ok::<int, FaultModel>(
            off + subset_close(a, i, quote)->Ok_0,
        ),
    decreases a.len() - i,
{
    lemma_starts_index(s, off, a);
    reveal_strlit("<!--");
    reveal_strlit("<?");
    reveal_strlit("-->");
    reveal_strlit("?>");
    assert(a[i] == s[off + i]);
    if quote is None && a[i] != '"' && a[i] != '\'' {
        lemma_mark_within(s, off, a, i, "<!--"@);
        lemma_mark_within(s, off, a, i, "<?"@);
        if starts_at(a, i, "<!--"@) {
            lemma_find_in_longer(s, off, a, i + 4, "-->"@);
            let k = find_from(a, i + 4, "-->"@)->Some_0;
            lemma_subset_close(s, off, a, k + 3, None);
        } else if starts_at(a, i, "<?"@) {
            lemma_find_in_longer(s, off, a, i + 2, "?>"@);
            let k = find_from(a, i + 2, "?>"@)->Some_0;
            lemma_subset_close(s, off, a, k + 2, None);
        } else if a[i] != ']' {
            lemma_subset_close(s, off, a, i + 1, None);
        }
    } else {
        match quote {
            Some(q) => if a[i] == q {
                lemma_subset_close(s, off, a, i + 1, None);
            } else {
                lemma_subset_close(s, off, a, i + 1, quote);
            },
            None => {
                lemma_subset_close(s, off, a, i + 1, Some(a[i]));
            },
        }
    }
}

/// The internal subset as it is written.
pub open spec fn subset_text(x: Option<Seq<char>>) -> Seq<char> {
    match x {
        Some(y) => " ["@ + y + "]"@,
        None => Seq::empty(),
    }
}

/// What follows the identifiers of a document type declaration.
proof fn lemma_behind_identifiers(s: Seq<char>, g: int, x: Option<Seq<char>>)
    requires
        starts_at(s, g, subset_text(x) + ">"@),
    ensures
        0 <= g < s.len(),
        g + subset_text(x).len() < s.len(),
        s[g + subset_text(x).len()] == '>',
        s[g] == '>' || s[g] == ' ' && g + 1 < s.len() && s[g + 1] == '[',
        x is None ==> s[g] == '>',
        x is Some ==> s[g] == ' ' && s[g + 1] == '[' && starts_at(
            s,
            g + 2,
            x->Some_0.push(']'),
        ),
{
    reveal_strlit(" [");
    reveal_strlit("]");
    reveal_strlit(">");
    let h = g + subset_text(x).len();
    lemma_starts_split(s, g, subset_text(x), ">"@);
    lemma_starts_index(s, h, ">"@);
    assert(">"@[0] == s[h + 0]);
    if x is Some {
        let y = x->Some_0;
        assert(" ["@ + y + "]"@ =~= " ["@ + y.push(']'));
        lemma_starts_split(s, g, " ["@, y.push(']'));
        lemma_starts_index(s, g, " ["@);
        assert(" ["@[0] == s[g + 0]);
        assert(" ["@[1] == s[g + 1]);
    }
}

/// The internal subset is read back.
proof fn lemma_subset_read(s: Seq<char>, g: int, x: Option<Seq<char>>, v: XmlVersion)
    requires
        subset_closes(x),
        subset_declares(x, v) is Ok,
        starts_at(s, g, subset_text(x) + ">"@),
    ensures
        ({
            let h = g + subset_text(x).len();
            &&& doctype_subset(s, space_end(s, g), v) == Ok::<
                (Option<Seq<char>>, Seq<EntityDeclarationModel>, int),
                FaultModel,
            >((x, subset_declares(x, v)->Ok_0, h))
            &&& expected(s, space_end(s, h), ">"@) == Ok::<int, FaultModel>(h + 1)
        }),
{
    let h = g + subset_text(x).len();
    lemma_behind_identifiers(s, g, x);
    assert(space_end(s, h) == h);
    assert(starts_at(s, h, ">"@) && ">"@.len() == 1) by {
        reveal_strlit(">");
        assert(s.subrange(h, h + 1) =~= ">"@);
    }
    match x {
        Some(y) => {
            assert(" ["@.len() == 2 && "]"@.len() == 1) by {
                reveal_strlit(" [");
                reveal_strlit("]");
            }
            lemma_one_space(s, g);
            let a = y.push(']');
            lemma_subset_close(s, g + 2, a, 0, None);
            lemma_starts_split(s, g + 2, y, seq![']']);
            assert(a =~= y + seq![']']);
        },
        None => {},
    }
}

/// The start of a document type declaration.
proof fn lemma_doctype_start(s: Seq<char>, i: int, n: Seq<char>)
    requires
        valid_name(n),
        starts_at(s, i, "<!DOCTYPE "@ + n),
        i + 10 + n.len() < s.len(),
        !name_part(s[i + 10 + n.len()]),
    ensures
        starts_at(s, i, "<!DOCTYPE"@),
        "<!DOCTYPE"@.len() == 9,
        "<!DOCTYPE "@.len() == 10,
        0 <= i,
        s[i] == '<',
        s[i + 1] == '!',
        s[i + 2] == 'D',
        required_space(s, i + 9) == Ok::<int, FaultModel>(i + 10),
        name_end(s, i + 10) == Ok::<int, FaultModel>(i + 10 + n.len()),
        s.subrange(i + 10, i + 10 + n.len()) == n,
{
    reveal_strlit("<!DOCTYPE ");
    reveal_strlit("<!DOCTYPE");
    lemma_starts_split(s, i, "<!DOCTYPE "@, n);
    lemma_starts_index(s, i, "<!DOCTYPE "@);
    assert("<!DOCTYPE "@[0] == s[i + 0]);
    assert("<!DOCTYPE "@[1] == s[i + 1]);
    assert("<!DOCTYPE "@[2] == s[i + 2]);
    assert("<!DOCTYPE "@[9] == s[i + 9]);
    assert("<!DOCTYPE "@ =~= "<!DOCTYPE"@ + seq![' ']);
    lemma_starts_split(s, i, "<!DOCTYPE"@, seq![' ']);
    lemma_starts_index(s, i + 10, n);
    assert(n[0] == s[i + 10 + 0]);
    lemma_one_space(s, i + 9);
    lemma_name_read(s, i + 10, n);
}

/// The steps in which a document type declaration is read.
proof fn lemma_doctype_steps(
    s: Seq<char>,
    i: int,
    d: DoctypeModel,
    e: int,
    g: int,
    entities: Seq<EntityDeclarationModel>,
    h: int,
    v: XmlVersion,
)
    requires
        "<!DOCTYPE"@.len() == 9,
        starts_at(s, i, "<!DOCTYPE"@),
        required_space(s, i + 9) == Ok::<int, FaultModel>(i + 10),
        name_end(s, i + 10) == Ok::<int, FaultModel>(e),
        s.subrange(i + 10, e) == d.name,
        doctype_identifiers(s, space_end(s, e), v) matches Ok((p, y, k)) && p
            == d.public_id && y == d.system_id && space_end(s, k) == space_end(s, g),
        doctype_subset(s, space_end(s, g), v) == Ok::<
            (Option<Seq<char>>, Seq<EntityDeclarationModel>, int),
            FaultModel,
        >((d.internal_subset, entities, h)),
        expected(s, space_end(s, h), ">"@) == Ok::<int, FaultModel>(h + 1),
    ensures
        doctype(s, i, v) == Ok::<
            (DoctypeModel, Seq<EntityDeclarationModel>, int),
            FaultModel,
        >((d, entities, h + 1)),
{
    let m = DoctypeModel {
        name: d.name,
        public_id: d.public_id,
        system_id: d.system_id,
        internal_subset: d.internal_subset,
    };
    assert(m == d);
}

/// The identifiers start behind the name of a document type declaration.
proof fn lemma_behind_name(s: Seq<char>, e: int, d: DoctypeModel)
    requires
        starts_at(s, e, external_text(d)),
        external_text(d).len() == 0 ==> 0 <= e < s.len() && !name_part(s[e]),
    ensures
        0 <= e < s.len(),
        !name_part(s[e]),
{
    let x = external_text(d);
    if x.len() > 0 {
        reveal_strlit(" PUBLIC ");
        reveal_strlit(" SYSTEM ");
        lemma_starts_index(s, e, x);
        assert(x[0] == ' ');
        assert(x[0] == s[e + 0]);
    }
}

/// A document type declaration is read back.
#[verifier::spinoff_prover]
proof fn lemma_doctype_read(s: Seq<char>, i: int, d: DoctypeModel, v: XmlVersion)
    requires
        writable_doctype(d, v),
        starts_at(s, i, doctype_text(d)),
    ensures
        starts_at(s, i, "<!DOCTYPE"@),
        0 <= i,
        i + doctype_text(d).len() <= s.len(),
        s[i] == '<',
        s[i + 1] == '!',
        s[i + 2] == 'D',
        doctype_text(d).len() > 9,
        subset_declares(d.internal_subset, v) is Ok,
        doctype(s, i, v) == Ok::<
            (DoctypeModel, Seq<EntityDeclarationModel>, int),
            FaultModel,
        >((d, subset_declares(d.internal_subset, v)->Ok_0, i + doctype_text(d).len())),
{
    let x = external_text(d);
    let part = subset_text(d.internal_subset);
    let b = i + "<!DOCTYPE "@.len();
    let e = b + d.name.len();
    let g = e + x.len();
    assert(doctype_text(d) =~= "<!DOCTYPE "@ + d.name + x + (part + ">"@));
    lemma_starts_split(s, i, "<!DOCTYPE "@ + d.name + x, part + ">"@);
    lemma_starts_split(s, i, "<!DOCTYPE "@ + d.name, x);
    lemma_behind_identifiers(s, g, d.internal_subset);
    lemma_behind_name(s, e, d);
    assert("<!DOCTYPE "@.len() == 10) by {
        reveal_strlit("<!DOCTYPE ");
    }
    assert(">"@.len() == 1) by {
        reveal_strlit(">");
    }
    lemma_doctype_start(s, i, d.name);
    lemma_identifiers_read(s, e, d, v);
    lemma_subset_read(s, g, d.internal_subset, v);
    let entities = subset_declares(d.internal_subset, v)->Ok_0;
    lemma_doctype_steps(s, i, d, e, g, entities, g + part.len(), v);
}

/// The XML declaration that is written, if one is.
pub open spec fn written_declaration(d: PlainDocument, options: XmlSerializeOptions) -> Option<
    InstructionModel,
> {
    match options.declaration {
        XmlDeclarationMode::Omit => None,
        XmlDeclarationMode::Preserve => d.declaration,
        XmlDeclarationMode::Always => match d.declaration {
            Some(i) => Some(i),
            None => Some(
                InstructionModel {
                    target: "xml"@,
                    data: "version=\"1.0\" encoding=\""@ + encoding_label(options.encoding) + "\""@,
                },
            ),
        },
    }
}

/// The version that the document is written in.
pub open spec fn written_version(d: PlainDocument, options: XmlSerializeOptions) -> XmlVersion {
    match written_declaration(d, options) {
        Some(i) => match declared_version(i.data) {
            Some(v) => v,
            None => XmlVersion::Xml10,
        },
        None => XmlVersion::Xml10,
    }
}

/// An XML declaration of a document of the given version that reads back as it is.
pub open spec fn writable_declaration(i: InstructionModel, v: XmlVersion) -> bool {
    &&& i.target == "xml"@
    &&& i.data.len() > 0
    &&& writable_data(i.data, v)
    &&& declared_version(i.data) == Some(v)
}

/// A document that reads back as it is.
pub open spec fn writable_document(d: PlainDocument, options: XmlSerializeOptions) -> bool {
    let v = written_version(d, options);
    &&& written_declaration(d, options) matches Some(i) ==> writable_declaration(i, v)
    &&& d.doctype matches Some(x) ==> writable_doctype(x, v)
    &&& 0 <= d.doctype_index <= d.before.len()
    &&& forall|m: int| 0 <= m < d.before.len() ==> writable_misc(#[trigger] d.before[m], v)
    &&& d.root is Element
    &&& writable(d.root, 1, v)
    &&& forall|m: int| 0 <= m < d.after.len() ==> writable_misc(#[trigger] d.after[m], v)
}

/// Instructions of the document are no XML declaration.
proof fn lemma_instruction_no_declaration(s: Seq<char>, p: int, x: InstructionModel, v: XmlVersion)
    requires
        writable_instruction(x, v),
        starts_at(s, p, instruction_text(x)),
    ensures
        !declaration_at(s, p),
{
    if declaration_at(s, p) {
        reveal_strlit("<?xml");
        reveal_strlit("<?");
        reveal_strlit("?>");
        let lead = if x.data.len() == 0 {
            Seq::empty()
        } else {
            seq![' '] + x.data
        };
        let t = p + 2 + x.target.len();
        assert(instruction_text(x) =~= "<?"@ + x.target + (lead + "?>"@));
        lemma_starts_split(s, p, "<?"@ + x.target, lead + "?>"@);
        lemma_starts_split(s, p, "<?"@, x.target);
        lemma_data_read(s, t, x.data, v);
        lemma_starts_index(s, p + 2, x.target);
        lemma_starts_index(s, p, "<?xml"@);
        assert("<?xml"@[2] == s[p + 2]);
        assert("<?xml"@[3] == s[p + 3]);
        assert("<?xml"@[4] == s[p + 4]);
        let n = x.target;
        if n.len() > 3 {
            assert(n[3] == s[p + 2 + 3]);
            assert(name_part(n[3]));
        } else if n.len() == 3 {
            assert(n[0] == s[p + 2 + 0]);
            assert(n[1] == s[p + 2 + 1]);
            assert(n[2] == s[p + 2 + 2]);
        } else {
            assert(t == p + 3 || t == p + 4);
        }
    }
}

/// Only an instruction can look like an XML declaration.
proof fn lemma_no_declaration(s: Seq<char>, p: int)
    requires
        0 <= p,
        p + 1 < s.len(),
        s[p + 1] != '?',
    ensures
        !declaration_at(s, p),
{
    reveal_strlit("<?xml");
    if starts_at(s, p, "<?xml"@) {
        lemma_starts_index(s, p, "<?xml"@);
        assert("<?xml"@[1] == s[p + 1]);
    }
}

/// Nodes beside the root do not start with an XML declaration.
proof fn lemma_misc_start(s: Seq<char>, p: int, n: Seq<NodeModel>, q: XmlQuoteStyle, v: XmlVersion)
    requires
        n.len() > 0,
        writable_misc(n[0], v),
        starts_at(s, p, nodes_text(n, n.len() as int, q)),
    ensures
        !declaration_at(s, p),
        0 <= p < s.len(),
        s[p] == '<',
{
    lemma_nodes_text_prefix(s, p, n, 1, n.len() as int, q);
    assert(nodes_text(n, 0, q) =~= Seq::<char>::empty());
    assert(nodes_text(n, 1, q) =~= node_text(n[0], q));
    match n[0] {
        NodeModel::Comment(t) => {
            lemma_comment_read(s, p, t, v);
            lemma_no_declaration(s, p);
        },
        NodeModel::ProcessingInstruction(x) => {
            lemma_instruction_read(s, p, x, v);
            lemma_instruction_no_declaration(s, p, x, v);
        },
        _ => {},
    }
}

/// Nothing more is read beside the root where a document type declaration stands.
proof fn lemma_misc_doctype(s: Seq<char>, p: int, acc: Seq<NodeModel>, v: XmlVersion)
    requires
        0 <= p,
        p + 2 < s.len(),
        s[p] == '<',
        s[p + 1] == '!',
        s[p + 2] == 'D',
    ensures
        misc_nodes(s, p, preserving_config(), v, acc) == Ok::<
            (Seq<NodeModel>, int),
            FaultModel,
        >((acc, p)),
{
    reveal_strlit("<!--");
    reveal_strlit("<?");
    assert(blank_end(s, p, v) == p);
    if starts_at(s, p, "<!--"@) {
        lemma_starts_index(s, p, "<!--"@);
        assert("<!--"@[2] == s[p + 2]);
    }
    if starts_at(s, p, "<?"@) {
        lemma_starts_index(s, p, "<?"@);
        assert("<?"@[1] == s[p + 1]);
    }
}

/// The nodes beside the root are read back all at once.
proof fn lemma_all_misc_read(
    s: Seq<char>,
    i: int,
    n: Seq<NodeModel>,
    q: XmlQuoteStyle,
    acc: Seq<NodeModel>,
    v: XmlVersion,
)
    requires
        forall|m: int| 0 <= m < n.len() ==> writable_misc(#[trigger] n[m], v),
        starts_at(s, i, nodes_text(n, n.len() as int, q)),
    ensures
        misc_nodes(s, i, preserving_config(), v, acc) == misc_nodes(
            s,
            i + nodes_text(n, n.len() as int, q).len(),
            preserving_config(),
            v,
            acc + n,
        ),
{
    lemma_misc_read(s, i, n, 0, q, acc, v);
    assert(nodes_text(n, 0, q).len() == 0);
    assert(n.skip(0) =~= n);
}

/// The steps in which what stands before the root is read.
proof fn lemma_prolog_steps(
    s: Seq<char>,
    i: int,
    declaration: Option<Seq<char>>,
    strict: bool,
    a: Seq<NodeModel>,
    p1: int,
    y: DoctypeModel,
    e: Seq<EntityDeclarationModel>,
    p2: int,
    before: Seq<NodeModel>,
    p3: int,
    v: XmlVersion,
)
    requires
        first_bad_char(s, i, v) is None,
        misc_nodes(s, i, preserving_config(), v, Seq::empty()) == Ok::<
            (Seq<NodeModel>, int),
            FaultModel,
        >((a, p1)),
        starts_at(s, p1, "<!DOCTYPE"@),
        p1 < s.len(),
        doctype(s, p1, v) == Ok::<
            (DoctypeModel, Seq<EntityDeclarationModel>, int),
            FaultModel,
        >((y, e, p2)),
        misc_nodes(s, p2, preserving_config(), v, a) == Ok::<
            (Seq<NodeModel>, int),
            FaultModel,
        >((before, p3)),
        graph_fault_from(e, 0) is None,
    ensures
        prolog_rest(s, i, declaration, v, preserving_config(), strict) == Ok::<
            PrologModel,
            FaultModel,
        >(
            PrologModel {
                declaration,
                version: v,
                misc: before,
                doctype: Some(y),
                doctype_index: a.len() as int,
                entities: e,
                at: p3,
            },
        ),
{
}

/// The steps in which what stands before the root is read, without a document type declaration.
proof fn lemma_plain_prolog_steps(
    s: Seq<char>,
    i: int,
    declaration: Option<Seq<char>>,
    strict: bool,
    before: Seq<NodeModel>,
    p3: int,
    v: XmlVersion,
)
    requires
        first_bad_char(s, i, v) is None,
        misc_nodes(s, i, preserving_config(), v, Seq::empty()) == Ok::<
            (Seq<NodeModel>, int),
            FaultModel,
        >((before, p3)),
        !starts_at(s, p3, "<!DOCTYPE"@),
        p3 < s.len(),
    ensures
        prolog_rest(s, i, declaration, v, preserving_config(), strict) == Ok::<
            PrologModel,
            FaultModel,
        >(
            PrologModel {
                declaration,
                version: v,
                misc: before,
                doctype: None,
                doctype_index: before.len() as int,
                entities: Seq::empty(),
                at: p3,
            },
        ),
{
}

/// What the prolog of a document reads back as.
pub open spec fn prolog_of(
    d: PlainDocument,
    declaration: Option<Seq<char>>,
    at: int,
    v: XmlVersion,
) -> PrologModel {
    PrologModel {
        declaration,
        version: v,
        misc: d.before,
        doctype: d.doctype,
        doctype_index: if d.doctype is Some {
            d.doctype_index
        } else {
            d.before.len() as int
        },
        entities: match d.doctype {
            Some(x) => subset_declares(x.internal_subset, v)->Ok_0,
            None => Seq::empty(),
        },
        at,
    }
}

/// What stands before the root is read back.
#[verifier::spinoff_prover]
#[verifier::rlimit(40)]
proof fn lemma_prolog_read(
    s: Seq<char>,
    i: int,
    d: PlainDocument,
    declaration: Option<Seq<char>>,
    q: XmlQuoteStyle,
    strict: bool,
    v: XmlVersion,
)
    requires
        literal_text(s, v),
        0 <= i,
        d.doctype matches Some(x) ==> writable_doctype(x, v),
        0 <= d.doctype_index <= d.before.len(),
        forall|m: int| 0 <= m < d.before.len() ==> writable_misc(#[trigger] d.before[m], v),
        starts_at(s, i, prolog_text(d, q)),
        ({
            let p = i + prolog_text(d, q).len();
            p + 1 < s.len() && s[p] == '<' && name_start(s[p + 1])
        }),
    ensures
        prolog_rest(s, i, declaration, v, preserving_config(), strict) == Ok::<
            PrologModel,
            FaultModel,
        >(prolog_of(d, declaration, i + prolog_text(d, q).len(), v)),
{
    let k = d.doctype_index;
    let a = d.before.take(k);
    let b = d.before.skip(k);
    let x = match d.doctype {
        Some(x) => doctype_text(x),
        None => Seq::empty(),
    };
    let first = nodes_text(a, k, q);
    let last = nodes_text(b, d.before.len() - k, q);
    lemma_no_bad_char(s, i, v);
    lemma_starts_split(s, i, first + x, last);
    lemma_starts_split(s, i, first, x);
    let p1 = i + first.len();
    let p2 = p1 + x.len();
    let p3 = p2 + last.len();
    assert forall|m: int| 0 <= m < a.len() implies writable_misc(#[trigger] a[m], v) by {
        assert(a[m] == d.before[m]);
    }
    assert forall|m: int| 0 <= m < b.len() implies writable_misc(#[trigger] b[m], v) by {
        assert(b[m] == d.before[m + k]);
    }
    lemma_all_misc_read(s, i, a, q, Seq::empty(), v);
    assert(Seq::<NodeModel>::empty() + a =~= a);
    lemma_all_misc_read(s, p2, b, q, a, v);
    assert(a + b =~= d.before);
    lemma_misc_end(s, p3, d.before, v);
    match d.doctype {
        Some(y) => {
            lemma_doctype_read(s, p1, y, v);
            lemma_misc_doctype(s, p1, a, v);
            let e = subset_declares(y.internal_subset, v)->Ok_0;
            lemma_prolog_steps(s, i, declaration, strict, a, p1, y, e, p2, d.before, p3, v);
        },
        None => {
            lemma_plain_prolog_steps(s, i, declaration, strict, d.before, p3, v);
        },
    }
}

/// What stands before the root does not start with an XML declaration.
proof fn lemma_prolog_start(s: Seq<char>, i: int, d: PlainDocument, q: XmlQuoteStyle, v: XmlVersion)
    requires
        0 <= i,
        d.doctype matches Some(x) ==> writable_doctype(x, v),
        0 <= d.doctype_index <= d.before.len(),
        forall|m: int| 0 <= m < d.before.len() ==> writable_misc(#[trigger] d.before[m], v),
        starts_at(s, i, prolog_text(d, q)),
        ({
            let p = i + prolog_text(d, q).len();
            p + 1 < s.len() && s[p] == '<' && name_start(s[p + 1])
        }),
    ensures
        !declaration_at(s, i),
        i < s.len(),
        s[i] == '<',
{
    let k = d.doctype_index;
    let a = d.before.take(k);
    let b = d.before.skip(k);
    let x = match d.doctype {
        Some(x) => doctype_text(x),
        None => Seq::empty(),
    };
    let first = nodes_text(a, k, q);
    let last = nodes_text(b, d.before.len() - k, q);
    lemma_starts_split(s, i, first + x, last);
    lemma_starts_split(s, i, first, x);
    if k > 0 {
        assert(a[0] == d.before[0]);
        lemma_misc_start(s, i, a, q, v);
    } else {
        assert(first.len() == 0);
        match d.doctype {
            Some(y) => {
                lemma_doctype_read(s, i, y, v);
                lemma_no_declaration(s, i);
            },
            None => {
                if b.len() > 0 {
                    assert(b[0] == d.before[0]);
                    lemma_misc_start(s, i, b, q, v);
                } else {
                    assert(last.len() == 0);
                    lemma_no_declaration(s, i);
                }
            },
        }
    }
}

/// An XML declaration is read back.
proof fn lemma_declaration_read(s: Seq<char>, i: int, x: InstructionModel, v: XmlVersion)
    requires
        writable_declaration(x, v),
        starts_at(s, i, instruction_text(x)),
    ensures
        declaration_at(s, i),
        0 <= i,
        s[i] == '<',
        xml_declaration(s, i) == Ok::<(int, int, XmlVersion), FaultModel>(
            (i + 6, i + instruction_text(x).len() - 2, v),
        ),
        s.subrange(i + 6, i + instruction_text(x).len() - 2) == x.data,
        i + instruction_text(x).len() <= s.len(),
{
    reveal_strlit("<?xml");
    reveal_strlit("<?");
    reveal_strlit("xml");
    reveal_strlit("?>");
    let lead = seq![' '] + x.data;
    assert("<?"@ + x.target =~= "<?xml"@);
    assert(instruction_text(x) =~= "<?xml"@ + (lead + "?>"@));
    lemma_starts_split(s, i, "<?xml"@, lead + "?>"@);
    lemma_starts_index(s, i, "<?xml"@);
    assert("<?xml"@[0] == s[i + 0]);
    lemma_data_read(s, i + 5, x.data, v);
}

/// The XML declaration that is written is one instruction.
proof fn lemma_declaration_text(d: PlainDocument, options: XmlSerializeOptions)
    ensures
        declaration_text(d.declaration, options) == (match written_declaration(d, options) {
            Some(i) => instruction_text(i),
            None => Seq::empty(),
        }),
{
    if options.declaration == XmlDeclarationMode::Always && d.declaration is None {
        reveal_strlit("<?xml version=\"1.0\" encoding=\"");
        reveal_strlit("version=\"1.0\" encoding=\"");
        reveal_strlit("\"?>");
        reveal_strlit("\"");
        reveal_strlit("<?");
        reveal_strlit("?>");
        reveal_strlit("xml");
        let label = encoding_label(options.encoding);
        let data = "version=\"1.0\" encoding=\""@ + label + "\""@;
        assert("<?xml version=\"1.0\" encoding=\""@ =~= "<?"@ + "xml"@ + seq![' ']
            + "version=\"1.0\" encoding=\""@);
        assert("\"?>"@ =~= "\""@ + "?>"@);
        assert("<?xml version=\"1.0\" encoding=\""@ + label + "\"?>"@ =~= "<?"@ + "xml"@ + (
        seq![' '] + data) + "?>"@);
    }
}

/// The characters of the identifiers of a document type declaration as they are written.
proof fn lemma_external_chars(d: DoctypeModel, v: XmlVersion)
    requires
        d.public_id matches Some(p) ==> pubid_text(p),
        d.system_id matches Some(y) ==> literal_text(y, v),
    ensures
        literal_text(external_text(d), v),
{
    reveal_strlit(" PUBLIC ");
    reveal_strlit(" SYSTEM ");
    lemma_ascii_is_literal(" PUBLIC "@, v);
    lemma_ascii_is_literal(" SYSTEM "@, v);
    lemma_ascii_is_literal(seq![' '], v);
    lemma_ascii_is_literal(Seq::empty(), v);
    if d.public_id is Some {
        lemma_pubid_is_literal(d.public_id->Some_0, v);
    }
    match (d.public_id, d.system_id) {
        (Some(p), Some(y)) => {
            lemma_quoted_chars(p, v);
            lemma_quoted_chars(y, v);
            lemma_literal_join(" PUBLIC "@, quoted(p), v);
            lemma_literal_join(" PUBLIC "@ + quoted(p), seq![' '], v);
            lemma_literal_join(" PUBLIC "@ + quoted(p) + seq![' '], quoted(y), v);
        },
        (Some(p), None) => {
            lemma_quoted_chars(p, v);
            lemma_literal_join(" PUBLIC "@, quoted(p), v);
        },
        (None, Some(y)) => {
            lemma_quoted_chars(y, v);
            lemma_literal_join(" SYSTEM "@, quoted(y), v);
        },
        _ => {},
    }
}

/// A public identifier can be held as it stands.
proof fn lemma_pubid_is_literal(p: Seq<char>, v: XmlVersion)
    requires
        pubid_text(p),
    ensures
        literal_text(p, v),
{
    reveal(literal_text);
    assert forall|i: int| 0 <= i < p.len() implies literal_char(#[trigger] p[i], v) by {
        assert(pubid_char(p[i]));
    }
}

/// The characters of the internal subset as it is written.
proof fn lemma_subset_chars(x: Option<Seq<char>>, v: XmlVersion)
    requires
        x matches Some(y) ==> literal_text(y, v),
    ensures
        literal_text(subset_text(x), v),
{
    reveal_strlit(" [");
    reveal_strlit("]");
    lemma_ascii_is_literal(" ["@, v);
    lemma_ascii_is_literal("]"@, v);
    lemma_ascii_is_literal(Seq::empty(), v);
    match x {
        Some(y) => {
            lemma_literal_join(" ["@, y, v);
            lemma_literal_join(" ["@ + y, "]"@, v);
        },
        None => {},
    }
}

/// The characters of a document type declaration as it is written.
proof fn lemma_doctype_chars(d: DoctypeModel, v: XmlVersion)
    requires
        valid_name(d.name),
        d.public_id matches Some(p) ==> pubid_text(p),
        d.system_id matches Some(y) ==> literal_text(y, v),
        d.internal_subset matches Some(x) ==> literal_text(x, v),
    ensures
        literal_text(doctype_text(d), v),
{
    let x = external_text(d);
    let part = subset_text(d.internal_subset);
    lemma_name_chars(d.name, v);
    lemma_external_chars(d, v);
    lemma_subset_chars(d.internal_subset, v);
    assert(literal_text("<!DOCTYPE "@, v)) by {
        reveal_strlit("<!DOCTYPE ");
        lemma_ascii_is_literal("<!DOCTYPE "@, v);
    }
    assert(literal_text(">"@, v)) by {
        reveal_strlit(">");
        lemma_ascii_is_literal(">"@, v);
    }
    lemma_literal_join("<!DOCTYPE "@, d.name, v);
    lemma_literal_join("<!DOCTYPE "@ + d.name, x, v);
    lemma_literal_join("<!DOCTYPE "@ + d.name + x, part, v);
    lemma_literal_join("<!DOCTYPE "@ + d.name + x + part, ">"@, v);
}

/// The characters of a quoted text.
proof fn lemma_quoted_chars(y: Seq<char>, v: XmlVersion)
    requires
        literal_text(y, v),
    ensures
        literal_text(quoted(y), v),
{
    let q = if y.contains('"') {
        '\''
    } else {
        '"'
    };
    lemma_ascii_is_literal(seq![q], v);
    lemma_literal_join(seq![q], y, v);
    lemma_literal_join(seq![q] + y, seq![q], v);
}

/// The byte order mark, if one is written.
pub open spec fn mark_text(options: XmlSerializeOptions) -> Seq<char> {
    if options.write_bom {
        seq!['\u{feff}']
    } else {
        Seq::empty()
    }
}

/// The characters of what stands before the root, as it is written.
proof fn lemma_prolog_chars(d: PlainDocument, q: XmlQuoteStyle, v: XmlVersion)
    requires
        d.doctype matches Some(x) ==> writable_doctype(x, v),
        0 <= d.doctype_index <= d.before.len(),
        forall|m: int| 0 <= m < d.before.len() ==> writable_misc(#[trigger] d.before[m], v),
    ensures
        literal_text(prolog_text(d, q), v),
{
    let k = d.doctype_index;
    let a = d.before.take(k);
    let b = d.before.skip(k);
    assert forall|m: int| 0 <= m < a.len() implies writable(#[trigger] a[m], 0, v) by {
        assert(a[m] == d.before[m]);
    }
    assert forall|m: int| 0 <= m < b.len() implies writable(#[trigger] b[m], 0, v) by {
        assert(b[m] == d.before[m + k]);
    }
    let x = match d.doctype {
        Some(x) => doctype_text(x),
        None => Seq::empty(),
    };
    match d.doctype {
        Some(y) => {
            lemma_doctype_chars(y, v);
        },
        None => {
            lemma_ascii_is_literal(x, v);
        },
    }
    lemma_nodes_chars(a, k, 0, q, v);
    lemma_nodes_chars(b, d.before.len() - k, 0, q, v);
    lemma_literal_join(nodes_text(a, k, q), x, v);
    lemma_literal_join(nodes_text(a, k, q) + x, nodes_text(b, d.before.len() - k, q), v);
}

/// The characters of the mark and of the XML declaration, as they are written.
proof fn lemma_start_chars(d: PlainDocument, options: XmlSerializeOptions, v: XmlVersion)
    requires
        written_declaration(d, options) matches Some(i) ==> writable_declaration(i, v),
    ensures
        literal_text(mark_text(options) + declaration_text(d.declaration, options), v),
{
    let decl = declaration_text(d.declaration, options);
    lemma_declaration_text(d, options);
    match written_declaration(d, options) {
        Some(i) => {
            reveal_strlit("xml");
            assert(valid_name(i.target));
            lemma_clean_is_literal(i.data, v);
            lemma_instruction_chars(i, v);
        },
        None => {
            lemma_ascii_is_literal(decl, v);
        },
    }
    assert(clean(mark_text(options), v));
    lemma_clean_is_literal(mark_text(options), v);
    lemma_literal_join(mark_text(options), decl, v);
}

/// The characters of a document as it is written.
pub proof fn lemma_document_chars(d: PlainDocument, options: XmlSerializeOptions)
    requires
        writable_document(d, options),
    ensures
        literal_text(document_text(d, options), written_version(d, options)),
{
    let v = written_version(d, options);
    let q = options.quote_style;
    assert forall|m: int| 0 <= m < d.after.len() implies writable(#[trigger] d.after[m], 0, v) by {
        assert(writable_misc(d.after[m], v));
    }
    let start = mark_text(options) + declaration_text(d.declaration, options);
    let pro = prolog_text(d, q);
    let root = node_text(d.root, q);
    let after = nodes_text(d.after, d.after.len() as int, q);
    lemma_start_chars(d, options, v);
    lemma_prolog_chars(d, q, v);
    lemma_node_chars(d.root, 1, q, v);
    lemma_nodes_chars(d.after, d.after.len() as int, 0, q, v);
    lemma_literal_join(start, pro, v);
    lemma_literal_join(start + pro, root, v);
    lemma_literal_join(start + pro + root, after, v);
}

/// Where the parts of a document stand in its text.
pub proof fn lemma_document_parts(d: PlainDocument, options: XmlSerializeOptions)
    requires
        writable_document(d, options),
    ensures
        ({
            let s = document_text(d, options);
            let q = options.quote_style;
            let i0 = mark_text(options).len() as int;
            let i1 = i0 + declaration_text(d.declaration, options).len();
            let i2 = i1 + prolog_text(d, q).len();
            let i3 = i2 + node_text(d.root, q).len();
            &&& mark_end(s) == i0
            &&& starts_at(s, i0, declaration_text(d.declaration, options))
            &&& starts_at(s, i1, prolog_text(d, q))
            &&& starts_at(s, i2, node_text(d.root, q))
            &&& starts_at(s, i3, nodes_text(d.after, d.after.len() as int, q))
            &&& i3 + nodes_text(d.after, d.after.len() as int, q).len() == s.len()
            &&& i2 + 1 < s.len()
            &&& s[i2] == '<'
            &&& name_start(s[i2 + 1])
            &&& s[i0] == '<'
        }),
{
    let v = written_version(d, options);
    let s = document_text(d, options);
    let q = options.quote_style;
    let bom = mark_text(options);
    let decl = declaration_text(d.declaration, options);
    let pro = prolog_text(d, q);
    let root = node_text(d.root, q);
    let after = nodes_text(d.after, d.after.len() as int, q);
    assert(s == bom + decl + pro + root + after);
    assert(starts_at(s, 0, s)) by {
        assert(s.subrange(0, s.len() as int) =~= s);
    }
    lemma_starts_split(s, 0, bom + decl + pro + root, after);
    lemma_starts_split(s, 0, bom + decl + pro, root);
    lemma_starts_split(s, 0, bom + decl, pro);
    lemma_starts_split(s, 0, bom, decl);
    let i0 = bom.len() as int;
    let i1 = i0 + decl.len();
    let i2 = i1 + pro.len();
    match d.root {
        NodeModel::Element(e) => {
            lemma_element_start(s, i2, e, q);
        },
        _ => {},
    }
    lemma_declaration_text(d, options);
    match written_declaration(d, options) {
        Some(x) => {
            lemma_declaration_read(s, i0, x, v);
        },
        None => {
            lemma_prolog_start(s, i1, d, q, v);
        },
    }
    if options.write_bom {
        assert(s[0] == '\u{feff}');
    }
}

/// The steps in which a prolog with an XML declaration is read.
proof fn lemma_declared_prolog_steps(
    s: Seq<char>,
    from: int,
    to: int,
    data: Seq<char>,
    p: PrologModel,
    strict: bool,
    v: XmlVersion,
)
    requires
        declaration_at(s, mark_end(s)),
        xml_declaration(s, mark_end(s)) == Ok::<(int, int, XmlVersion), FaultModel>((from, to, v)),
        normalized(s.subrange(from, to), v, false) == data,
        prolog_rest(s, to + 2, Some(data), v, preserving_config(), strict) == Ok::<
            PrologModel,
            FaultModel,
        >(p),
    ensures
        prolog(s, preserving_config(), strict) == Ok::<PrologModel, FaultModel>(p),
{
}

/// The prolog of a document is read back.
#[verifier::spinoff_prover]
proof fn lemma_whole_prolog_read(d: PlainDocument, options: XmlSerializeOptions, strict: bool)
    requires
        writable_document(d, options),
    ensures
        ({
            let s = document_text(d, options);
            let i1 = mark_text(options).len() as int + declaration_text(d.declaration, options).len();
            let i2 = i1 + prolog_text(d, options.quote_style).len();
            let data = match written_declaration(d, options) {
                Some(i) => Some(i.data),
                None => None,
            };
            prolog(s, preserving_config(), strict) == Ok::<PrologModel, FaultModel>(
                prolog_of(d, data, i2, written_version(d, options)),
            )
        }),
{
    let v = written_version(d, options);
    let s = document_text(d, options);
    let q = options.quote_style;
    let i0 = mark_text(options).len() as int;
    let i1 = i0 + declaration_text(d.declaration, options).len();
    lemma_document_parts(d, options);
    lemma_document_chars(d, options);
    lemma_declaration_text(d, options);
    match written_declaration(d, options) {
        Some(x) => {
            lemma_declaration_read(s, i0, x, v);
            lemma_normalized(x.data, false, v);
            lemma_prolog_read(s, i1, d, Some(x.data), q, strict, v);
            let p = prolog_of(d, Some(x.data), i1 + prolog_text(d, q).len(), v);
            lemma_declared_prolog_steps(s, i0 + 6, i1 - 2, x.data, p, strict, v);
        },
        None => {
            lemma_prolog_start(s, i1, d, q, v);
            lemma_prolog_read(s, i1, d, None, q, strict, v);
        },
    }
}

/// Nothing of a document that was written is expanded.
pub proof fn lemma_nothing_expanded(d: PlainDocument, options: XmlSerializeOptions)
    requires
        writable_document(d, options),
    ensures
        expanded_text(document_text(d, options), preserving_config(), false) == Ok::<
            Option<Expanded>,
            FaultModel,
        >(None),
{
    let v = written_version(d, options);
    let s = document_text(d, options);
    let q = options.quote_style;
    let c = preserving_config();
    let i1 = mark_text(options).len() as int + declaration_text(d.declaration, options).len();
    let i2 = i1 + prolog_text(d, q).len();
    let i3 = i2 + node_text(d.root, q).len();
    lemma_document_parts(d, options);
    lemma_whole_prolog_read(d, options, false);
    let data = match written_declaration(d, options) {
        Some(i) => Some(i.data),
        None => None,
    };
    let e = prolog_of(d, data, i2, v).entities;
    assert forall|m: int| 0 <= m < d.after.len() implies writable(#[trigger] d.after[m], 0, v) by {
        assert(writable_misc(d.after[m], v));
    }
    let f = lemma_node_passes(
        s,
        i2,
        d.root,
        1,
        q,
        expansion_start(),
        e,
        c.entity_expansion,
        v,
    );
    let g = lemma_nodes_pass(
        s,
        i3,
        d.after,
        d.after.len() as int,
        0,
        q,
        f,
        e,
        c.entity_expansion,
        v,
    );
    assert(expanded_from(s, s.len() as int, e, c.entity_expansion, v, g) == Ok::<
        ExpansionState,
        FaultModel,
    >(g));
}

/// A document that is written and parsed again is the same document: the XML declaration that
/// was written, the document type declaration, the nodes beside the root and the whole tree of
/// the root come back as they were.
pub proof fn lemma_document_round_trip(d: PlainDocument, options: XmlSerializeOptions)
    requires
        writable_document(d, options),
        byte_len(document_text(d, options)) <= u32::MAX,
    ensures
        compact_parse(document_text(d, options), preserving_config()) matches Ok(m) && {
            &&& m.text == document_text(d, options)
            &&& m.version == written_version(d, options)
            &&& m.declaration == (match written_declaration(d, options) {
                Some(i) => Some(i.data),
                None => None,
            })
            &&& m.doctype == d.doctype
            &&& m.doctype_index == (if d.doctype is Some {
                d.doctype_index
            } else {
                d.before.len() as int
            })
            &&& m.before == d.before
            &&& materialized(
                m.text,
                m.root,
                m.version,
                preserving_config().attribute_whitespace,
            ) == Ok::<NodeModel, ErrorModel>(d.root)
            &&& m.after == d.after
        },
{
    let s = document_text(d, options);
    let q = options.quote_style;
    let c = preserving_config();
    let v = written_version(d, options);
    let i1 = mark_text(options).len() as int + declaration_text(d.declaration, options).len();
    let i2 = i1 + prolog_text(d, q).len();
    let i3 = i2 + node_text(d.root, q).len();
    let data = match written_declaration(d, options) {
        Some(i) => Some(i.data),
        None => None,
    };
    let p = prolog_of(d, data, i2, v);
    lemma_nothing_expanded(d, options);
    lemma_whole_prolog_read(d, options, true);
    lemma_document_parts(d, options);
    match d.root {
        NodeModel::Element(e) => {
            let r = table_resolver(p.entities, c.entity_expansion, v);
            let tree = lemma_element_read(s, i2, e, 1, q, r, 0, c.attribute_whitespace, v);
            lemma_all_misc_read(s, i3, d.after, q, Seq::empty(), v);
            assert(Seq::<NodeModel>::empty() + d.after =~= d.after);
            lemma_misc_end(s, s.len() as int, d.after, v);
        },
        _ => {},
    }
}

} // verus!
