//! What is written holds no reference that the expansion of entities would replace.

use vstd::prelude::*;

use crate::config::XmlEntityExpansionPolicy;
use crate::dom::{AttributeModel, ElementModel, InstructionModel, NodeModel};
use crate::dtd::EntityDeclarationModel;
use crate::entities::{
    expanded_from, expansion_copy, general_reference_at, opaque_end, replaceable_reference,
    ExpansionMode, ExpansionState,
};
use crate::lexeme::{predefined_entity, XmlVersion};
use crate::readback::{
    lemma_cdata_plain, lemma_cdata_read, lemma_comment_read, lemma_find, lemma_instruction_read,
    lemma_not_found, lemma_starts_within, writable, writable_attributes, writable_instruction,
};
use crate::serialize::{
    attribute_escape, attribute_text, attributes_text, escaped_attribute, escaped_text,
    instruction_text, node_text, nodes_text, quote_char, text_escape, XmlQuoteStyle,
};
use crate::syntax::{name_part, name_start, valid_name};
use crate::text::{find_from, starts_at};
use crate::unescape::{
    clean, lemma_attribute_escape, lemma_escaped_attribute_chars, lemma_escaped_attribute_first,
    lemma_escaped_text_chars, lemma_escaped_text_first, lemma_find_char, lemma_reference_char,
    lemma_starts_char, lemma_starts_index, lemma_starts_split, lemma_text_escape, written_reference,
};

verus! {

/// No entity of the document's own is referred to at `k`.
pub open spec fn harmless(s: Seq<char>, k: int) -> bool {
    general_reference_at(s, k) matches Some((name, _)) ==> predefined_entity(name) is Some
}

/// No entity of the document's own is referred to within `i..j`.
pub open spec fn harmless_range(s: Seq<char>, i: int, j: int) -> bool {
    forall|k: int| i <= k < j && #[trigger] s[k] == '&' ==> harmless(s, k)
}

/// The expansion stays in its mode at the character `c`.
pub open spec fn stays(mode: ExpansionMode, c: char) -> bool {
    match mode {
        ExpansionMode::Content => c != '<',
        ExpansionMode::Tag { .. } => c != '>' && c != '"' && c != '\'',
        ExpansionMode::Quoted { quote, .. } => c != quote,
    }
}

/// A written reference refers to no entity of the document's own.
proof fn lemma_written_reference_harmless(s: Seq<char>, i: int, t: Seq<char>, c: char, v: XmlVersion)
    requires
        written_reference(t, c),
        starts_at(s, i, t),
    ensures
        harmless_range(s, i, i + t.len()),
{
    lemma_starts_index(s, i, t);
    lemma_reference_char(t, c, i, v);
    let e = i + t.len() - 1;
    assert(t[0] == s[i + 0]);
    assert(t[1] == s[i + 1]);
    assert(t[t.len() - 1] == s[i + (t.len() - 1)]);
    assert forall|j: int| i + 1 <= j < e implies #[trigger] s[j] != ';' by {
        assert(t[j - i] == s[i + (j - i)]);
    }
    lemma_find_char(s, i + 1, e, ';');
    let n = t.subrange(1, t.len() - 1);
    assert(s.subrange(i + 1, e) =~= n) by {
        let a = s.subrange(i + 1, e);
        assert forall|k: int| 0 <= k < n.len() implies a[k] == n[k] by {
            assert(t[k + 1] == s[i + (k + 1)]);
        }
    }
    assert(harmless(s, i)) by {
        if t[1] != '#' {
            assert(n[0] == t[1]);
            reveal_strlit("#x");
            reveal_strlit("#");
            if starts_at(n, 0, "#x"@) {
                lemma_starts_index(n, 0, "#x"@);
                assert("#x"@[0] == n[0]);
            }
            if starts_at(n, 0, "#"@) {
                lemma_starts_index(n, 0, "#"@);
                assert("#"@[0] == n[0]);
            }
        }
    }
    assert forall|k: int| i <= k < i + t.len() && #[trigger] s[k] == '&' implies harmless(s, k) by {
        if k > i {
            assert(t[k - i] == s[i + (k - i)]);
        }
    }
}

/// An escaped text refers to no entity of the document's own.
proof fn lemma_escaped_text_harmless(s: Seq<char>, i: int, t: Seq<char>, v: XmlVersion)
    requires
        starts_at(s, i, escaped_text(t)),
    ensures
        harmless_range(s, i, i + escaped_text(t).len()),
    decreases t.len(),
{
    if t.len() > 0 {
        let a = text_escape(t[0]);
        let rest = t.drop_first();
        lemma_escaped_text_first(t);
        lemma_starts_split(s, i, a, escaped_text(rest));
        lemma_text_escape(t[0]);
        lemma_escaped_text_harmless(s, i + a.len(), rest, v);
        if written_reference(a, t[0]) {
            lemma_written_reference_harmless(s, i, a, t[0], v);
        } else {
            lemma_starts_char(s, i, t[0]);
        }
    }
}

/// An escaped attribute value refers to no entity of the document's own.
proof fn lemma_escaped_attribute_harmless(s: Seq<char>, i: int, t: Seq<char>, q: XmlQuoteStyle, v: XmlVersion)
    requires
        starts_at(s, i, escaped_attribute(t, q)),
    ensures
        harmless_range(s, i, i + escaped_attribute(t, q).len()),
    decreases t.len(),
{
    if t.len() > 0 {
        let a = attribute_escape(t[0], q);
        let rest = t.drop_first();
        lemma_escaped_attribute_first(t, q);
        lemma_starts_split(s, i, a, escaped_attribute(rest, q));
        lemma_attribute_escape(t[0], q);
        lemma_escaped_attribute_harmless(s, i + a.len(), rest, q, v);
        if written_reference(a, t[0]) {
            lemma_written_reference_harmless(s, i, a, t[0], v);
        } else {
            lemma_starts_char(s, i, t[0]);
        }
    }
}

/// The expansion goes from `i` in state `e` to `j` in state `f` and replaces nothing.
pub open spec fn passes(
    s: Seq<char>,
    i: int,
    e: ExpansionState,
    j: int,
    f: ExpansionState,
    d: Seq<EntityDeclarationModel>,
    policy: XmlEntityExpansionPolicy,
    v: XmlVersion,
) -> bool {
    &&& expanded_from(s, i, d, policy, v, e) == expanded_from(
        s,
        j,
        d,
        policy,
        v,
        f,
    )
    &&& f.changed == e.changed
}

/// A range without markup is copied.
proof fn lemma_range_passes(
    s: Seq<char>,
    i: int,
    j: int,
    e: ExpansionState,
    d: Seq<EntityDeclarationModel>,
    policy: XmlEntityExpansionPolicy,
    v: XmlVersion,
) -> (f: ExpansionState)
    requires
        0 <= i <= j <= s.len(),
        harmless_range(s, i, j),
        forall|k: int| i <= k < j ==> stays(e.mode, #[trigger] s[k]),
    ensures
        passes(s, i, e, j, f, d, policy, v),
        f.mode == e.mode,
    decreases j - i,
{
    if i == j {
        e
    } else {
        assert(stays(e.mode, s[i]));
        assert(s[i] == '&' ==> harmless(s, i));
        assert(s[i] != '<' ==> opaque_end(s, i) is None) by {
            lemma_no_opaque(s, i);
        }
        let g = expansion_copy(s, i, e).1;
        assert(replaceable_reference(s, i, d, e) is None);
        assert(expansion_copy(s, i, e).0 == i + 1);
        assert(g.mode == e.mode);
        let f = lemma_range_passes(s, i + 1, j, g, d, policy, v);
        f
    }
}

/// A comment, a CDATA section or an instruction starts with markup.
proof fn lemma_no_opaque(s: Seq<char>, i: int)
    ensures
        0 <= i < s.len() && s[i] != '<' ==> opaque_end(s, i) is None,
        0 <= i && i + 1 < s.len() && s[i + 1] != '!'
            && s[i + 1] != '?' ==> opaque_end(s, i) is None,
{
    reveal_strlit("<![CDATA[");
    reveal_strlit("<!--");
    reveal_strlit("<?");
    if starts_at(s, i, "<![CDATA["@) {
        lemma_starts_index(s, i, "<![CDATA["@);
        assert("<![CDATA["@[0] == s[i + 0]);
        assert("<![CDATA["@[1] == s[i + 1]);
    }
    if starts_at(s, i, "<!--"@) {
        lemma_starts_index(s, i, "<!--"@);
        assert("<!--"@[0] == s[i + 0]);
        assert("<!--"@[1] == s[i + 1]);
    }
    if starts_at(s, i, "<?"@) {
        lemma_starts_index(s, i, "<?"@);
        assert("<?"@[0] == s[i + 0]);
        assert("<?"@[1] == s[i + 1]);
    }
}

/// One step that replaces nothing.
proof fn lemma_step_passes(
    s: Seq<char>,
    i: int,
    e: ExpansionState,
    d: Seq<EntityDeclarationModel>,
    policy: XmlEntityExpansionPolicy,
    v: XmlVersion,
)
    requires
        0 <= i < s.len(),
        s[i] != '&',
        i < expansion_copy(s, i, e).0 <= s.len(),
    ensures
        passes(s, i, e, expansion_copy(s, i, e).0, expansion_copy(s, i, e).1, d, policy, v),
{
}

/// One attribute is copied.
proof fn lemma_attribute_passes(
    s: Seq<char>,
    i: int,
    a: AttributeModel,
    q: XmlQuoteStyle,
    e: ExpansionState,
    d: Seq<EntityDeclarationModel>,
    policy: XmlEntityExpansionPolicy,
    v: XmlVersion,
) -> (f: ExpansionState)
    requires
        valid_name(a.name),
        clean(a.value, v),
        starts_at(s, i, attribute_text(a, q)),
        e.mode == (ExpansionMode::Tag { end: false }),
    ensures
        passes(s, i, e, i + attribute_text(a, q).len(), f, d, policy, v),
        f.mode == e.mode,
{
    let x = escaped_attribute(a.value, q);
    let p1 = seq![' '];
    let p2 = seq!['='];
    let p3 = seq![quote_char(q)];
    assert(seq!['=', quote_char(q)] =~= p2 + p3);
    assert(attribute_text(a, q) =~= p1 + a.name + p2 + p3 + x + p3);
    lemma_starts_split(s, i, p1 + a.name + p2 + p3 + x, p3);
    lemma_starts_split(s, i, p1 + a.name + p2 + p3, x);
    lemma_starts_split(s, i, p1 + a.name + p2, p3);
    let m = i + a.name.len() + 2;
    let h = p1 + a.name + p2;
    assert(tag_text(h)) by {
        assert forall|k: int| 0 <= k < h.len() implies #[trigger] h[k] != '&'
            && stays(e.mode, h[k]) by {
            if 1 <= k < 1 + a.name.len() {
                assert(h[k] == a.name[k - 1]);
                assert(name_part(a.name[k - 1]));
            }
        }
    }
    let f1 = lemma_tag_text_passes(s, i, h, e, d, policy, v);
    lemma_starts_char(s, m, quote_char(q));
    lemma_step_passes(s, m, f1, d, policy, v);
    let f2 = expansion_copy(s, m, f1).1;
    let close = m + 1 + x.len();
    lemma_escaped_attribute_harmless(s, m + 1, a.value, q, v);
    lemma_escaped_attribute_chars(a.value, q, v);
    lemma_starts_index(s, m + 1, x);
    assert forall|k: int| m + 1 <= k < close implies stays(f2.mode, #[trigger] s[k]) by {
        assert(x[k - (m + 1)] == s[m + 1 + (k - (m + 1))]);
    }
    let f3 = lemma_range_passes(s, m + 1, close, f2, d, policy, v);
    lemma_starts_char(s, close, quote_char(q));
    lemma_step_passes(s, close, f3, d, policy, v);
    expansion_copy(s, close, f3).1
}

/// A text that leaves neither its tag nor holds a reference.
pub open spec fn tag_text(t: Seq<char>) -> bool {
    forall|k: int|
        0 <= k < t.len() ==> #[trigger] t[k] != '&' && t[k] != '>' && t[k] != '"' && t[k] != '\''
}

/// Such a text is copied.
proof fn lemma_tag_text_passes(
    s: Seq<char>,
    i: int,
    t: Seq<char>,
    e: ExpansionState,
    d: Seq<EntityDeclarationModel>,
    policy: XmlEntityExpansionPolicy,
    v: XmlVersion,
) -> (f: ExpansionState)
    requires
        starts_at(s, i, t),
        tag_text(t),
        e.mode is Tag,
    ensures
        passes(s, i, e, i + t.len(), f, d, policy, v),
        f.mode == e.mode,
{
    lemma_starts_index(s, i, t);
    assert forall|k: int| i <= k < i + t.len() implies stays(e.mode, #[trigger] s[k])
        && s[k] != '&' by {
        assert(t[k - i] == s[i + (k - i)]);
    }
    lemma_range_passes(s, i, i + t.len(), e, d, policy, v)
}

/// Attributes are copied.
proof fn lemma_attributes_pass(
    s: Seq<char>,
    i: int,
    a: Seq<AttributeModel>,
    k: int,
    q: XmlQuoteStyle,
    e: ExpansionState,
    d: Seq<EntityDeclarationModel>,
    policy: XmlEntityExpansionPolicy,
    v: XmlVersion,
) -> (f: ExpansionState)
    requires
        writable_attributes(a, v),
        0 <= k <= a.len(),
        starts_at(s, i, attributes_text(a, k, q)),
        e.mode == (ExpansionMode::Tag { end: false }),
    ensures
        passes(s, i, e, i + attributes_text(a, k, q).len(), f, d, policy, v),
        f.mode == e.mode,
    decreases k,
{
    if k == 0 {
        e
    } else {
        let x = attributes_text(a, k - 1, q);
        lemma_starts_split(s, i, x, attribute_text(a[k - 1], q));
        let g = lemma_attributes_pass(s, i, a, k - 1, q, e, d, policy, v);
        lemma_attribute_passes(s, i + x.len(), a[k - 1], q, g, d, policy, v)
    }
}

/// The start of a tag is copied.
proof fn lemma_tag_start_passes(
    s: Seq<char>,
    i: int,
    e: ExpansionState,
    d: Seq<EntityDeclarationModel>,
    policy: XmlEntityExpansionPolicy,
    v: XmlVersion,
) -> (f: ExpansionState)
    requires
        0 <= i,
        i + 1 < s.len(),
        s[i] == '<',
        s[i + 1] == '/' || name_start(s[i + 1]),
        e.mode == ExpansionMode::Content,
    ensures
        passes(s, i, e, i + 1, f, d, policy, v),
        f.mode == (ExpansionMode::Tag { end: s[i + 1] == '/' }),
{
    lemma_no_opaque(s, i);
    reveal_strlit("</");
    if starts_at(s, i, "</"@) {
        lemma_starts_index(s, i, "</"@);
        assert("</"@[1] == s[i + 1]);
    }
    if s[i + 1] == '/' {
        assert(s.subrange(i, i + 2) =~= "</"@);
    }
    lemma_step_passes(s, i, e, d, policy, v);
    expansion_copy(s, i, e).1
}

/// A comment, a CDATA section or an instruction is copied.
proof fn lemma_markup_passes(
    s: Seq<char>,
    i: int,
    n: NodeModel,
    q: XmlQuoteStyle,
    e: ExpansionState,
    d: Seq<EntityDeclarationModel>,
    policy: XmlEntityExpansionPolicy,
    v: XmlVersion,
) -> (f: ExpansionState)
    requires
        n is Comment || n is Cdata || n is ProcessingInstruction,
        writable(n, 0, v),
        starts_at(s, i, node_text(n, q)),
        e.mode == ExpansionMode::Content,
    ensures
        passes(s, i, e, i + node_text(n, q).len(), f, d, policy, v),
        f.mode == e.mode,
{
    reveal_strlit("<!--");
    reveal_strlit("-->");
    reveal_strlit("<![CDATA[");
    reveal_strlit("]]>");
    reveal_strlit("<?");
    reveal_strlit("?>");
    if starts_at(s, i, "<!--"@) {
        lemma_starts_index(s, i, "<!--"@);
        assert("<!--"@[1] == s[i + 1]);
        assert("<!--"@[2] == s[i + 2]);
    }
    if starts_at(s, i, "<![CDATA["@) {
        lemma_starts_index(s, i, "<![CDATA["@);
        assert("<![CDATA["@[1] == s[i + 1]);
        assert("<![CDATA["@[2] == s[i + 2]);
    }
    match n {
        NodeModel::Comment(t) => {
            lemma_comment_read(s, i, t, v);
            lemma_starts_split(s, i, "<!--"@ + t, "-->"@);
            lemma_starts_split(s, i, "<!--"@, t);
            assert forall|j: int| i + 4 <= j < i + 4 + t.len() implies !#[trigger] starts_at(
                s,
                j,
                "-->"@,
            ) by {
                crate::readback::lemma_no_comment_end(s, i + 4, t, j);
            }
            lemma_find(s, i + 4, i + 4 + t.len(), "-->"@);
        },
        NodeModel::Cdata(t) => {
            lemma_cdata_plain(t, 0, Seq::empty());
            assert(t.subrange(0, t.len() as int) =~= t);
            assert(Seq::<char>::empty() + t =~= t);
            lemma_cdata_read(s, i, t);
        },
        NodeModel::ProcessingInstruction(x) => {
            lemma_instruction_read(s, i, x, v);
            lemma_instruction_end(s, i, x, v);
        },
        _ => {},
    }
    assert(opaque_end(s, i) == Some(i + node_text(n, q).len()));
    lemma_starts_index(s, i, node_text(n, q));
    lemma_step_passes(s, i, e, d, policy, v);
    expansion_copy(s, i, e).1
}

/// An instruction ends at the first mark that can end it.
proof fn lemma_instruction_end(s: Seq<char>, i: int, x: InstructionModel, v: XmlVersion)
    requires
        writable_instruction(x, v),
        starts_at(s, i, instruction_text(x)),
    ensures
        find_from(s, i + 2, "?>"@) == Some(i + instruction_text(x).len() - 2),
{
    reveal_strlit("<?");
    reveal_strlit("?>");
    let lead = if x.data.len() == 0 {
        Seq::empty()
    } else {
        seq![' '] + x.data
    };
    let end = i + instruction_text(x).len() - 2;
    let t = i + 2 + x.target.len();
    lemma_starts_split(s, i, "<?"@ + x.target + lead, "?>"@);
    lemma_starts_split(s, i, "<?"@ + x.target, lead);
    lemma_starts_split(s, i, "<?"@, x.target);
    lemma_starts_index(s, i + 2, x.target);
    lemma_starts_index(s, end, "?>"@);
    assert("?>"@[0] == s[end + 0]);
    assert forall|j: int| i + 2 <= j < end implies !#[trigger] starts_at(s, j, "?>"@) by {
        if starts_at(s, j, "?>"@) {
            lemma_starts_index(s, j, "?>"@);
            assert("?>"@[0] == s[j + 0]);
            assert("?>"@[1] == s[j + 1]);
            if j < t {
                assert(x.target[j - (i + 2)] == s[i + 2 + (j - (i + 2))]);
                assert(name_part(x.target[j - (i + 2)]));
            } else {
                lemma_starts_split(s, t, seq![' '], x.data);
                lemma_starts_char(s, t, ' ');
                if j + 2 <= end {
                    lemma_starts_within(s, t + 1, x.data, j, "?>"@);
                    lemma_not_found(x.data, 0, "?>"@, j - (t + 1));
                }
            }
        }
    }
    lemma_find(s, i + 2, end, "?>"@);
}

/// A node is copied.
pub proof fn lemma_node_passes(
    s: Seq<char>,
    i: int,
    n: NodeModel,
    depth: int,
    q: XmlQuoteStyle,
    e: ExpansionState,
    d: Seq<EntityDeclarationModel>,
    policy: XmlEntityExpansionPolicy,
    v: XmlVersion,
) -> (f: ExpansionState)
    requires
        writable(n, depth, v),
        starts_at(s, i, node_text(n, q)),
        e.mode == ExpansionMode::Content,
    ensures
        passes(s, i, e, i + node_text(n, q).len(), f, d, policy, v),
        f.mode == e.mode,
    decreases n, 0int,
{
    match n {
        NodeModel::Text(t) => {
            lemma_escaped_text_harmless(s, i, t, v);
            lemma_escaped_text_chars(t, v);
            lemma_starts_index(s, i, escaped_text(t));
            let end = i + escaped_text(t).len();
            assert forall|k: int| i <= k < end implies stays(e.mode, #[trigger] s[k]) by {
                assert(escaped_text(t)[k - i] == s[i + (k - i)]);
            }
            lemma_range_passes(s, i, end, e, d, policy, v)
        },
        NodeModel::Element(x) => lemma_element_passes(s, i, x, depth, q, e, d, policy, v),
        _ => lemma_markup_passes(s, i, n, q, e, d, policy, v),
    }
}

/// An element without children is copied.
proof fn lemma_empty_element_passes(
    s: Seq<char>,
    i: int,
    x: ElementModel,
    q: XmlQuoteStyle,
    e: ExpansionState,
    d: Seq<EntityDeclarationModel>,
    policy: XmlEntityExpansionPolicy,
    v: XmlVersion,
) -> (f: ExpansionState)
    requires
        valid_name(x.name),
        writable_attributes(x.attributes, v),
        starts_at(s, i, head_text(x, q) + "/>"@),
        e.mode == ExpansionMode::Content,
    ensures
        passes(s, i, e, i + (head_text(x, q) + "/>"@).len(), f, d, policy, v),
        f.mode == e.mode,
{
    reveal_strlit("/>");
    let j = i + head_text(x, q).len();
    lemma_starts_split(s, i, head_text(x, q), "/>"@);
    let g = lemma_head_passes(s, i, x, q, e, d, policy, v);
    lemma_starts_index(s, j, "/>"@);
    assert("/>"@[0] == s[j + 0]);
    assert("/>"@[1] == s[j + 1]);
    lemma_step_passes(s, j, g, d, policy, v);
    let h = expansion_copy(s, j, g).1;
    lemma_step_passes(s, j + 1, h, d, policy, v);
    expansion_copy(s, j + 1, h).1
}

/// A start tag up to its close.
pub open spec fn head_text(x: ElementModel, q: XmlQuoteStyle) -> Seq<char> {
    seq!['<'] + x.name + attributes_text(x.attributes, x.attributes.len() as int, q)
}

/// An element is copied.
#[verifier::spinoff_prover]
proof fn lemma_element_passes(
    s: Seq<char>,
    i: int,
    x: ElementModel,
    depth: int,
    q: XmlQuoteStyle,
    e: ExpansionState,
    d: Seq<EntityDeclarationModel>,
    policy: XmlEntityExpansionPolicy,
    v: XmlVersion,
) -> (f: ExpansionState)
    requires
        writable(NodeModel::Element(x), depth, v),
        starts_at(s, i, node_text(NodeModel::Element(x), q)),
        e.mode == ExpansionMode::Content,
    ensures
        passes(s, i, e, i + node_text(NodeModel::Element(x), q).len(), f, d, policy, v),
        f.mode == e.mode,
    decreases x, 0int,
{
    let head = head_text(x, q);
    if x.children.len() == 0 {
        lemma_empty_element_passes(s, i, x, q, e, d, policy, v)
    } else {
        let gt = seq!['>'];
        let j = i + head.len();
        let inner = nodes_text(x.children, x.children.len() as int, q);
        let close = "</"@ + x.name + gt;
        assert(gt + inner + "</"@ + x.name + gt =~= gt + inner + close);
        lemma_starts_split(s, i, head, gt + inner + close);
        lemma_starts_split(s, j, gt + inner, close);
        lemma_starts_split(s, j, gt, inner);
        lemma_starts_char(s, j, '>');
        let g = lemma_head_passes(s, i, x, q, e, d, policy, v);
        lemma_step_passes(s, j, g, d, policy, v);
        let h = expansion_copy(s, j, g).1;
        let k = lemma_nodes_pass(
            s,
            j + 1,
            x.children,
            x.children.len() as int,
            depth + 1,
            q,
            h,
            d,
            policy,
            v,
        );
        lemma_end_tag_passes(s, j + 1 + inner.len(), x.name, k, d, policy, v)
    }
}

/// The start tag of an element is copied, up to its close.
proof fn lemma_head_passes(
    s: Seq<char>,
    i: int,
    x: ElementModel,
    q: XmlQuoteStyle,
    e: ExpansionState,
    d: Seq<EntityDeclarationModel>,
    policy: XmlEntityExpansionPolicy,
    v: XmlVersion,
) -> (f: ExpansionState)
    requires
        valid_name(x.name),
        writable_attributes(x.attributes, v),
        starts_at(s, i, head_text(x, q)),
        e.mode == ExpansionMode::Content,
    ensures
        passes(s, i, e, i + head_text(x, q).len(), f, d, policy, v),
        f.mode == (ExpansionMode::Tag { end: false }),
{
    let at = attributes_text(x.attributes, x.attributes.len() as int, q);
    lemma_starts_split(s, i, seq!['<'] + x.name, at);
    lemma_starts_split(s, i, seq!['<'], x.name);
    lemma_starts_char(s, i, '<');
    lemma_starts_index(s, i + 1, x.name);
    assert(x.name[0] == s[i + 1 + 0]);
    let g = lemma_tag_start_passes(s, i, e, d, policy, v);
    lemma_name_is_tag_text(x.name);
    let h = lemma_tag_text_passes(s, i + 1, x.name, g, d, policy, v);
    lemma_attributes_pass(
        s,
        i + 1 + x.name.len(),
        x.attributes,
        x.attributes.len() as int,
        q,
        h,
        d,
        policy,
        v,
    )
}

/// A name leaves no tag.
proof fn lemma_name_is_tag_text(n: Seq<char>)
    requires
        valid_name(n),
    ensures
        tag_text(n),
{
    assert forall|k: int| 0 <= k < n.len() implies #[trigger] n[k] != '&' && n[k] != '>' && n[k]
        != '"' && n[k] != '\'' by {
        assert(name_part(n[k]));
    }
}

/// An end tag is copied.
proof fn lemma_end_tag_passes(
    s: Seq<char>,
    i: int,
    n: Seq<char>,
    e: ExpansionState,
    d: Seq<EntityDeclarationModel>,
    policy: XmlEntityExpansionPolicy,
    v: XmlVersion,
) -> (f: ExpansionState)
    requires
        valid_name(n),
        starts_at(s, i, "</"@ + n + seq!['>']),
        e.mode == ExpansionMode::Content,
    ensures
        passes(s, i, e, i + ("</"@ + n + seq!['>']).len(), f, d, policy, v),
        f.mode == e.mode,
{
    reveal_strlit("</");
    lemma_starts_split(s, i, "</"@ + n, seq!['>']);
    lemma_starts_split(s, i, "</"@, n);
    lemma_starts_index(s, i, "</"@);
    assert("</"@[0] == s[i + 0]);
    assert("</"@[1] == s[i + 1]);
    let g = lemma_tag_start_passes(s, i, e, d, policy, v);
    lemma_step_passes(s, i + 1, g, d, policy, v);
    let h = expansion_copy(s, i + 1, g).1;
    lemma_name_is_tag_text(n);
    let k = lemma_tag_text_passes(s, i + 2, n, h, d, policy, v);
    let m = i + 2 + n.len();
    lemma_starts_char(s, m, '>');
    lemma_step_passes(s, m, k, d, policy, v);
    expansion_copy(s, m, k).1
}

/// Nodes are copied.
pub proof fn lemma_nodes_pass(
    s: Seq<char>,
    i: int,
    n: Seq<NodeModel>,
    k: int,
    depth: int,
    q: XmlQuoteStyle,
    e: ExpansionState,
    d: Seq<EntityDeclarationModel>,
    policy: XmlEntityExpansionPolicy,
    v: XmlVersion,
) -> (f: ExpansionState)
    requires
        0 <= k <= n.len(),
        forall|m: int| 0 <= m < n.len() ==> writable(#[trigger] n[m], depth, v),
        starts_at(s, i, nodes_text(n, k, q)),
        e.mode == ExpansionMode::Content,
    ensures
        passes(s, i, e, i + nodes_text(n, k, q).len(), f, d, policy, v),
        f.mode == e.mode,
    decreases n, k,
{
    if k == 0 {
        e
    } else {
        let x = nodes_text(n, k - 1, q);
        lemma_starts_split(s, i, x, node_text(n[k - 1], q));
        let g = lemma_nodes_pass(s, i, n, k - 1, depth, q, e, d, policy, v);
        lemma_node_passes(s, i + x.len(), n[k - 1], depth, q, g, d, policy, v)
    }
}

} // verus!
