//! The shape of elements, tags and declarations, and what is missing in those that are refused.

use vstd::prelude::*;

use crate::access::attribute_values;
use crate::config::ConfigModel;
use crate::declaration::pseudo_value_close;
use crate::document::misc_nodes;
use crate::dom::{AttributeModel, ElementModel, InstructionModel, NodeModel, XmlNodeKind};
use crate::dtd::{alternatives_end, alternatives_rest, mixed_rest, mixed_tail};
use crate::entities::{ends_with_slash, expansion_copy, ExpansionMode, ExpansionState};
use crate::error::{ErrorKindModel, ErrorModel, FaultModel};
use crate::facade::StateModel;
use crate::forms::{blank_char, blanks, lemma_at, lemma_blanks_are_passed};
use crate::grammar::{
    attribute, attribute_names, element, markup_leaf, text_leaf, RawAttribute, RawTree, Resolver,
};
use crate::handle::{DomErrorModel, OutputErrorModel};
use crate::lexeme::{normalized, XmlVersion};
use crate::output::{inner_output, node_output};
use crate::placement::lemma_element_means;
use crate::replacement::lemma_no_section;
use crate::scan::{instruction_data_start, name_end, nmtoken_end, space_end};
use crate::serialize::{attributes_text, nodes_text, XmlSerializeOptions};
use crate::syntax::{name_part, space, valid_name};
use crate::text::starts_at;
use crate::tree::{node_count, nodes_count, snapshot, TreeModel};
use crate::unescape::{lemma_name_read, lemma_starts_char, lemma_starts_split};
use crate::validity::lemma_written_nodes;

verus! {

/// The node that a leaf outside of the root is, if it is a comment or an instruction.
pub open spec fn outer_node(s: Seq<char>, t: RawTree, v: XmlVersion) -> NodeModel {
    if t->Leaf_kind == XmlNodeKind::Comment {
        NodeModel::Comment(
            normalized(s.subrange(t->Leaf_primary.0, t->Leaf_primary.1), v, false),
        )
    } else {
        NodeModel::ProcessingInstruction(
            InstructionModel {
                target: s.subrange(t->Leaf_primary.0, t->Leaf_primary.1),
                data: normalized(
                    s.subrange(t->Leaf_secondary.0, t->Leaf_secondary.1),
                    v,
                    false,
                ),
            },
        )
    }
}

/// A comment or an instruction beside the root is read as it is below the root, with the same
/// faults.
pub proof fn lemma_same_beside_and_below(
    s: Seq<char>,
    i: int,
    j: int,
    c: ConfigModel,
    v: XmlVersion,
    acc: Seq<NodeModel>,
)
    requires
        0 <= i <= j < s.len(),
        forall|k: int| i <= k < j ==> blank_char(#[trigger] s[k], v),
        !blank_char(s[j], v),
        starts_at(s, j, "<!--"@) || starts_at(s, j, "<?"@),
    ensures
        match markup_leaf(s, j, c, v) {
            Err(f) => misc_nodes(s, i, c, v, acc) == Err::<(Seq<NodeModel>, int), FaultModel>(f),
            Ok((leaf, k)) => i < k <= s.len() ==> misc_nodes(s, i, c, v, acc) == misc_nodes(
                s,
                k,
                c,
                v,
                match leaf {
                    Some(t) => acc.push(outer_node(s, t, v)),
                    None => acc,
                },
            ),
        },
{
    lemma_blanks_are_passed(s, i, j, v);
    reveal_strlit("<!--");
    reveal_strlit("<![CDATA[");
    reveal_strlit("<?");
    if starts_at(s, j, "<?"@) {
        lemma_at(s, j, "<?"@);
        assert(s[j + 1] == "<?"@[1]);
        if starts_at(s, j, "<!--"@) {
            lemma_at(s, j, "<!--"@);
            assert(s[j + 1] == "<!--"@[1]);
        }
        if starts_at(s, j, "<![CDATA["@) {
            lemma_at(s, j, "<![CDATA["@);
            assert(s[j + 1] == "<![CDATA["@[1]);
        }
    }
}

/// An element goes from its angle bracket to the one that closes it; its name stands right behind
/// the first.
pub proof fn lemma_element_spans(
    s: Seq<char>,
    i: int,
    c: ConfigModel,
    v: XmlVersion,
    r: Resolver,
    depth: int,
    spent: int,
)
    requires
        0 <= i,
    ensures
        element(s, i, c, v, r, depth, spent) matches Ok((t, k, after)) ==> {
            &&& t is Element
            &&& t->Element_span == (i, k)
            &&& t->name.0 == i + 1
            &&& name_end(s, i + 1) == Ok::<int, FaultModel>(t->name.1)
            &&& i < s.len() && s[i] == '<'
        },
{
    reveal_strlit("<");
    assert("<"@ =~= seq!['<']);
    lemma_starts_char(s, i, '<');
}

/// An attribute without an equals sign or without quotes is refused where they are missing.
pub proof fn lemma_broken_attributes(
    s: Seq<char>,
    i: int,
    n: Seq<char>,
    a: Seq<char>,
    b: Seq<char>,
    c: ConfigModel,
    v: XmlVersion,
    r: Resolver,
    spent: int,
)
    requires
        valid_name(n),
        blanks(a, v),
        blanks(b, v),
    ensures
        ({
            let j = i + n.len() + a.len();
            starts_at(s, i, n + a) && j < s.len() && !blank_char(s[j], v) && !name_part(s[j])
                && s[j] != '=' ==> attribute(s, i, c, v, r, Seq::empty(), spent) == Err::<
                (RawAttribute, int, int),
                FaultModel,
            >(FaultModel { kind: ErrorKindModel::Expected("="@), at: j })
        }),
        ({
            let j = 1int + i + n.len() + a.len() + b.len();
            starts_at(s, i, n + (a + (seq!['='] + b))) && j < s.len() && !blank_char(s[j], v)
                && s[j] != '"' && s[j] != '\'' ==> attribute(
                s,
                i,
                c,
                v,
                r,
                Seq::empty(),
                spent,
            ) == Err::<(RawAttribute, int, int), FaultModel>(
                FaultModel { kind: ErrorKindModel::Expected("quoted literal"@), at: j },
            )
        }),
{
    reveal_strlit("=");
    assert("="@ =~= seq!['=']);
    assert(attribute_names(s, Seq::empty()).len() == 0);
    let i1 = i + n.len();
    let i2 = i1 + a.len();
    if starts_at(s, i, n + a) && i2 < s.len() && !blank_char(s[i2], v) && !name_part(s[i2])
        && s[i2] != '=' {
        lemma_starts_split(s, i, n, a);
        lemma_at(s, i, n);
        lemma_at(s, i1, a);
        if a.len() > 0 {
            assert(s[i1] == a[0]);
            lemma_blank_apart(s[i1], v);
        }
        lemma_name_read(s, i, n);
        assert forall|k: int| i1 <= k < i2 implies blank_char(#[trigger] s[k], v) by {
            assert(s[k] == a[k - i1]);
        }
        lemma_blanks_are_passed(s, i1, i2, v);
        lemma_starts_char(s, i2, '=');
    }
    if starts_at(s, i, n + (a + (seq!['='] + b))) {
        lemma_starts_split(s, i, n, a + (seq!['='] + b));
        lemma_starts_split(s, i1, a, seq!['='] + b);
        lemma_starts_split(s, i2, seq!['='], b);
        let i3 = i2 + 1;
        let j = i3 + b.len();
        lemma_at(s, i, n);
        lemma_at(s, i1, a);
        lemma_at(s, i3, b);
        lemma_starts_char(s, i2, '=');
        if a.len() > 0 {
            assert(s[i1] == a[0]);
            lemma_blank_apart(s[i1], v);
        }
        lemma_blank_apart('=', v);
        lemma_name_read(s, i, n);
        assert forall|k: int| i1 <= k < i2 implies blank_char(#[trigger] s[k], v) by {
            assert(s[k] == a[k - i1]);
        }
        lemma_blanks_are_passed(s, i1, i2, v);
        if j < s.len() && !blank_char(s[j], v) {
            assert forall|k: int| i3 <= k < j implies blank_char(#[trigger] s[k], v) by {
                assert(s[k] == b[k - i3]);
            }
            lemma_blanks_are_passed(s, i3, j, v);
        }
    }
}

proof fn lemma_blank_apart(c: char, v: XmlVersion)
    ensures
        blank_char(c, v) ==> !name_part(c),
        c == '=' ==> !name_part(c) && !blank_char(c, v),
{
}

/// Behind the target of an instruction there is white space or its end.
pub proof fn lemma_instruction_parts(s: Seq<char>, i: int, j: int)
    requires
        0 <= i <= j < s.len(),
        forall|k: int| i <= k < j ==> blank_char(#[trigger] s[k], XmlVersion::Xml10),
        !blank_char(s[j], XmlVersion::Xml10),
    ensures
        i == j && s[i] == '?' && i + 1 < s.len() && s[i + 1] == '>' ==> instruction_data_start(s, i)
            == Ok::<int, FaultModel>(i),
        i < j ==> instruction_data_start(s, i) == Ok::<int, FaultModel>(j),
        i == j && !(s[i] == '?' && i + 1 < s.len() && s[i + 1] == '>') ==> instruction_data_start(
            s,
            i,
        ) == Err::<int, FaultModel>(
            FaultModel { kind: ErrorKindModel::Expected("whitespace"@), at: i },
        ),
{
    reveal_strlit("?>");
    lemma_blanks_are_passed(s, i, j, XmlVersion::Xml10);
    if starts_at(s, i, "?>"@) {
        lemma_at(s, i, "?>"@);
        assert(s[i] == "?>"@[0]);
        assert(s[i + 1] == "?>"@[1]);
    }
    if s[i] == '?' && i + 1 < s.len() && s[i + 1] == '>' {
        assert(s.subrange(i, i + 2) =~= "?>"@);
    }
    lemma_space(s[i]);
    if i < j {
        assert(blank_char(s[i], XmlVersion::Xml10));
    }
}

proof fn lemma_space(c: char)
    ensures
        blank_char(c, XmlVersion::Xml10) == space(c),
        space(c) ==> c != '?',
{
}

/// A section that is read as a text keeps its place in the source, and only its value is trimmed.
pub proof fn lemma_trimmed_sections(
    s: Seq<char>,
    span: (int, int),
    from: int,
    to: int,
    c: ConfigModel,
    v: XmlVersion,
)
    requires
        c.preserve_text_nodes,
    ensures
        text_leaf(s, Some(span), from, to, c, v) matches Some(t) ==> {
            &&& t is Leaf
            &&& t->Leaf_span == span
            &&& t->Leaf_kind == XmlNodeKind::Text
            &&& text_leaf(s, None, from, to, c, v) matches Some(u) && u->Leaf_primary
                == t->Leaf_primary
        },
        text_leaf(s, Some(span), from, to, c, v) is None <==> text_leaf(s, None, from, to, c, v)
            is None,
{
}

/// White space and markup cannot stand in a value of an XML declaration.
pub proof fn lemma_broken_settings(s: Seq<char>, i: int, j: int, q: char)
    requires
        0 <= i <= j <= s.len(),
        q == '"' || q == '\'',
        forall|k: int| i <= k < j ==> #[trigger] s[k] != q,
        j == s.len() || blank_char(s[j], XmlVersion::Xml10) || s[j] == '<' || s[j] == '&',
    ensures
        pseudo_value_close(s, i, q) is None,
    decreases j - i,
{
    if j < s.len() {
        lemma_space(s[j]);
        lemma_not_quote(s[j]);
    }
    if i < j && !space(s[i]) && s[i] != '<' && s[i] != '&' {
        lemma_broken_settings(s, i + 1, j, q);
    }
}

proof fn lemma_not_quote(c: char)
    ensures
        blank_char(c, XmlVersion::Xml10) ==> c != '"' && c != '\'',
{
}

/// A tag is left at its angle bracket, unless that is quoted. What comes after it is one level
/// deeper behind a start tag, one less deep behind an end tag, and as deep behind an empty one.
pub proof fn lemma_tags_in_an_expansion(s: Seq<char>, i: int, e: ExpansionState)
    requires
        0 <= i < s.len(),
        e.depth >= 0,
    ensures
        e.mode == (ExpansionMode::Tag { end: false }) && s[i] == '>' ==> {
            &&& expansion_copy(s, i, e).0 == i + 1
            &&& expansion_copy(s, i, e).1.mode is Content
            &&& expansion_copy(s, i, e).1.depth == (if ends_with_slash(e.out, e.out.len() as int) {
                e.depth
            } else {
                e.depth + 1
            })
        },
        e.mode == (ExpansionMode::Tag { end: true }) && s[i] == '>' && e.depth > 0 ==> {
            &&& expansion_copy(s, i, e).1.mode is Content
            &&& expansion_copy(s, i, e).1.depth == e.depth - 1
        },
        e.mode matches ExpansionMode::Tag { end } ==> (s[i] == '"' || s[i] == '\''
            ==> expansion_copy(s, i, e).1.mode == (ExpansionMode::Quoted { quote: s[i], end })),
        e.mode matches ExpansionMode::Quoted { quote, end } ==> {
            &&& s[i] != quote ==> expansion_copy(s, i, e).1.mode == e.mode
            &&& s[i] == quote ==> expansion_copy(s, i, e).1.mode == (ExpansionMode::Tag { end })
        },
        e.mode is Content && s[i] != '<' ==> {
            &&& expansion_copy(s, i, e).1.mode is Content
            &&& expansion_copy(s, i, e).1.depth == e.depth
        },
        !(e.mode is Content) || s[i] != '<' ==> {
            &&& expansion_copy(s, i, e).0 == i + 1
            &&& expansion_copy(s, i, e).1.out == e.out.push(s[i])
            &&& expansion_copy(s, i, e).1.places == e.places.push(i)
        },
{
    if s[i] != '<' {
        lemma_no_section(s, i);
    }
}

/// An element that is written holds, between its tags, what is written of its content.
pub proof fn lemma_inner_output(
    s: StateModel,
    t: TreeModel,
    options: XmlSerializeOptions,
    e: ElementModel,
)
    requires
        snapshot(t, s.reading) == Ok::<NodeModel, ErrorModel>(NodeModel::Element(e)),
        e.children.len() > 0,
    ensures
        ({
            let q = options.quote_style;
            let inner = nodes_text(e.children, e.children.len() as int, q);
            &&& inner_output(s, t, options) == Ok::<Seq<char>, OutputErrorModel>(inner)
            &&& node_output(s, t, options) == Ok::<Seq<char>, OutputErrorModel>(
                seq!['<'] + e.name + attributes_text(
                    e.attributes,
                    e.attributes.len() as int,
                    q,
                ) + seq!['>'] + inner + seq!['<', '/'] + e.name + seq!['>'],
            )
        }),
{
    lemma_written_nodes(
        e,
        options.quote_style,
        Seq::empty(),
        NodeModel::Text(Seq::empty()),
        Seq::empty(),
        Seq::empty(),
    );
    lemma_element_means(t, s.reading, e);
}

/// What is no element has no inside that could be written, and no attributes that could be listed.
pub proof fn lemma_no_inside(s: StateModel, t: TreeModel, options: XmlSerializeOptions)
    requires
        t.kind != XmlNodeKind::Element,
    ensures
        inner_output(s, t, options) == Err::<Seq<char>, OutputErrorModel>(
            OutputErrorModel::Dom(DomErrorModel::NotElement),
        ),
        attribute_values(t, s.reading) == Err::<Seq<AttributeModel>, DomErrorModel>(
            DomErrorModel::NotElement,
        ),
{
}

/// A node counts itself and what is below it.
pub proof fn lemma_node_counts(e: ElementModel, x: NodeModel)
    ensures
        !(x is Element) ==> node_count(x) == 1,
        e.children.len() == 0 ==> node_count(NodeModel::Element(e)) == 1,
        node_count(NodeModel::Element(ElementModel { children: e.children.push(x), ..e }))
            == node_count(NodeModel::Element(e)) + node_count(x),
{
    let n = e.children.len() as int;
    lemma_counts_prefix(e.children, x, n);
    assert(e.children.push(x)[n] == x);
}

proof fn lemma_counts_prefix(n: Seq<NodeModel>, x: NodeModel, k: int)
    requires
        0 <= k <= n.len(),
    ensures
        nodes_count(n.push(x), k) == nodes_count(n, k),
    decreases k,
{
    if k > 0 {
        assert(n.push(x)[k - 1] == n[k - 1]);
        lemma_counts_prefix(n, x, k - 1);
    }
}

/// Mixed content: text alone, or text and names behind bars, which then may repeat.
pub proof fn lemma_mixed_content(s: Seq<char>, i: int, j: int)
    requires
        0 <= i <= j < s.len(),
        forall|k: int| i <= k < j ==> blank_char(#[trigger] s[k], XmlVersion::Xml10),
        !blank_char(s[j], XmlVersion::Xml10),
    ensures
        s[j] == ')' ==> mixed_tail(s, i) == Ok::<int, FaultModel>(j + 1),
        s[j] != ')' ==> mixed_tail(s, i) == mixed_rest(s, j),
        s[j] != '|' ==> mixed_rest(s, j) == Err::<int, FaultModel>(
            FaultModel { kind: ErrorKindModel::Expected("content model token"@), at: j },
        ),
{
    lemma_blanks_are_passed(s, i, j, XmlVersion::Xml10);
}

/// The values that an attribute may have: tokens behind bars, up to the closing bracket.
pub proof fn lemma_listed_values(s: Seq<char>, i: int, j: int, k: int, tokens: bool)
    requires
        0 <= i < j <= k < s.len(),
        space_end(s, i + 1) == j,
        (if tokens {
            nmtoken_end(s, j)
        } else {
            name_end(s, j)
        }) == Ok::<int, FaultModel>(k),
        i < space_end(s, k) <= s.len(),
    ensures
        s[i] == '|' ==> alternatives_rest(s, i, tokens) == alternatives_rest(
            s,
            space_end(s, k),
            tokens,
        ),
        s[i] == '(' ==> alternatives_end(s, i, tokens) == alternatives_rest(
            s,
            space_end(s, k),
            tokens,
        ),
        s[i] == ')' ==> alternatives_rest(s, i, tokens) == Ok::<int, FaultModel>(i + 1),
        s[i] != ')' && s[i] != '|' ==> alternatives_rest(s, i, tokens) == Err::<int, FaultModel>(
            FaultModel { kind: ErrorKindModel::Expected(")"@), at: i },
        ),
{
    reveal_strlit("|");
    reveal_strlit("(");
    reveal_strlit(")");
    assert("|"@ =~= seq!['|']);
    assert("("@ =~= seq!['(']);
    assert(")"@ =~= seq![')']);
    lemma_starts_char(s, i, '|');
    lemma_starts_char(s, i, '(');
    lemma_starts_char(s, i, ')');
}

} // verus!
