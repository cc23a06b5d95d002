//! How each piece of markup is written, and what is read where it stands.

use vstd::prelude::*;

use crate::config::{ConfigModel, XmlTextWhitespacePolicy};
use crate::dom::XmlNodeKind;
use crate::error::{ErrorKindModel, FaultModel};
use crate::grammar::{
    attribute, attribute_names, attribute_rest, attributes_from, blank, blank_end, blank_text_end,
    content, element, end_tag_end, markup_leaf, text_end, text_leaf, trim_end, trim_start,
    with_leaf, RawAttribute, RawTree, Resolver,
};
use crate::lexeme::XmlVersion;
use crate::readback::{lemma_find, lemma_not_found};
use crate::scan::{comment_end, name_end, space_end};
use crate::syntax::{name_part, valid_name, xml_target};
use crate::text::{find_from, starts_at};
use crate::unescape::{lemma_name_read, lemma_starts_char, lemma_starts_index, lemma_starts_split};

verus! {

/// White space between the parts of a tag.
pub open spec fn blank_char(c: char, v: XmlVersion) -> bool {
    ||| c == ' ' || c == '\t' || c == '\r' || c == '\n'
    ||| v == XmlVersion::Xml11 && (c == '\u{85}' || c == '\u{2028}')
}

/// A text of nothing but white space.
pub open spec fn blanks(t: Seq<char>, v: XmlVersion) -> bool {
    forall|k: int| 0 <= k < t.len() ==> blank_char(#[trigger] t[k], v)
}

proof fn lemma_blank_char(c: char, v: XmlVersion)
    ensures
        blank(c, v) == blank_char(c, v),
        blank_char(c, v) ==> !name_part(c) && c != '=' && c != '>' && c != '/' && c != '<' && c
            != '"' && c != '\'',
{
}

/// White space is passed up to the first character that is none.
pub proof fn lemma_blanks_are_passed(s: Seq<char>, i: int, j: int, v: XmlVersion)
    requires
        0 <= i <= j <= s.len(),
        forall|k: int| i <= k < j ==> blank_char(#[trigger] s[k], v),
        j < s.len() ==> !blank_char(s[j], v),
    ensures
        blank_end(s, i, v) == j,
        v == XmlVersion::Xml10 ==> space_end(s, i) == j,
    decreases j - i,
{
    if i < s.len() {
        lemma_blank_char(s[i], v);
    }
    if i < j {
        lemma_blanks_are_passed(s, i + 1, j, v);
    }
}

/// The text `t` stands at `i`, character by character.
pub proof fn lemma_at(s: Seq<char>, i: int, t: Seq<char>)
    requires
        starts_at(s, i, t),
    ensures
        0 <= i,
        i + t.len() <= s.len(),
        s.subrange(i, i + t.len()) == t,
        forall|k: int| i <= k < i + t.len() ==> #[trigger] s[k] == t[k - i],
{
    lemma_starts_index(s, i, t);
    assert forall|k: int| i <= k < i + t.len() implies #[trigger] s[k] == t[k - i] by {
        assert(t[k - i] == s[i + (k - i)]);
    }
}

/// An attribute value without references goes up to the quote.
proof fn lemma_value_read(
    s: Seq<char>,
    i: int,
    j: int,
    q: char,
    c: ConfigModel,
    v: XmlVersion,
    r: Resolver,
    before: Seq<char>,
    spent: int,
)
    requires
        0 <= i <= j < s.len(),
        s[j] == q,
        forall|k: int| i <= k < j ==> #[trigger] s[k] != q && s[k] != '<' && s[k] != '&',
    ensures
        attribute_rest(s, i, q, c, v, r, before, spent) == Ok::<
            (Seq<char>, int, int),
            FaultModel,
        >((before + s.subrange(i, j), j, spent)),
    decreases j - i,
{
    if i < j {
        assert(before.push(s[i]) + s.subrange(i + 1, j) =~= before + s.subrange(i, j));
        lemma_value_read(s, i + 1, j, q, c, v, r, before.push(s[i]), spent);
    } else {
        assert(before + s.subrange(i, j) =~= before);
    }
}

/// An attribute: a name, an equals sign and a value between two quotes of the same kind, with
/// white space on both sides of the equals sign. It is found where it stands. A name that was
/// there before is refused if that is asked for, and `xml:space` has two values.
pub proof fn lemma_attribute_form(
    s: Seq<char>,
    i: int,
    n: Seq<char>,
    a: Seq<char>,
    b: Seq<char>,
    q: char,
    t: Seq<char>,
    c: ConfigModel,
    v: XmlVersion,
    r: Resolver,
    before: Seq<RawAttribute>,
    spent: int,
)
    requires
        valid_name(n),
        blanks(a, v),
        blanks(b, v),
        q == '"' || q == '\'',
        forall|k: int| 0 <= k < t.len() ==> #[trigger] t[k] != q && t[k] != '<' && t[k] != '&',
        starts_at(s, i, n + (a + (seq!['='] + (b + (seq![q] + (t + seq![q])))))),
    ensures
        ({
            let at = i + n.len() + a.len() + b.len() + 2;
            let end = at + t.len();
            attribute(s, i, c, v, r, before, spent) == (if c.validate_duplicate_attributes && (
            exists|k: int|
                0 <= k < before.len() && #[trigger] s.subrange(
                    before[k].name.0,
                    before[k].name.1,
                ) == n) {
                Err::<(RawAttribute, int, int), FaultModel>(
                    FaultModel { kind: ErrorKindModel::DuplicateAttribute(n), at: i + n.len() },
                )
            } else if n == "xml:space"@ && t != "default"@ && t != "preserve"@ {
                Err(FaultModel { kind: ErrorKindModel::InvalidAttributeValue, at: end + 1 })
            } else {
                Ok(
                    (
                        RawAttribute { name: (i, i + n.len()), value: (at, end) },
                        end + 1,
                        spent,
                    ),
                )
            })
        }),
{
    let e = seq!['='];
    let o = seq![q];
    lemma_starts_split(s, i, n, a + (e + (b + (o + (t + o)))));
    let i1 = i + n.len();
    lemma_starts_split(s, i1, a, e + (b + (o + (t + o))));
    let i2 = i1 + a.len();
    lemma_starts_split(s, i2, e, b + (o + (t + o)));
    let i3 = i2 + 1;
    lemma_starts_split(s, i3, b, o + (t + o));
    let i4 = i3 + b.len();
    lemma_starts_split(s, i4, o, t + o);
    let i5 = i4 + 1;
    lemma_starts_split(s, i5, t, o);
    let end = i5 + t.len();
    lemma_starts_char(s, i2, '=');
    lemma_starts_char(s, i4, q);
    lemma_starts_char(s, end, q);
    lemma_at(s, i, n);
    lemma_at(s, i1, a);
    lemma_at(s, i3, b);
    lemma_at(s, i5, t);
    if a.len() > 0 {
        assert(s[i1] == a[0]);
        lemma_blank_char(s[i1], v);
    }
    lemma_equals();
    lemma_name_read(s, i, n);
    lemma_blank_char('=', v);
    assert forall|k: int| i1 <= k < i2 implies blank_char(#[trigger] s[k], v) by {
        assert(s[k] == a[k - i1]);
    }
    lemma_blanks_are_passed(s, i1, i2, v);
    reveal_strlit("=");
    assert("="@ =~= e);
    lemma_blank_char(q, v);
    assert forall|k: int| i3 <= k < i4 implies blank_char(#[trigger] s[k], v) by {
        assert(s[k] == b[k - i3]);
    }
    lemma_blanks_are_passed(s, i3, i4, v);
    assert forall|k: int| i5 <= k < end implies #[trigger] s[k] != q && s[k] != '<' && s[k]
        != '&' by {
        assert(s[k] == t[k - i5]);
    }
    lemma_value_read(s, i5, end, q, c, v, r, Seq::empty(), spent);
    assert(Seq::<char>::empty() + s.subrange(i5, end) =~= t);
    let names = attribute_names(s, before);
    assert forall|k: int| 0 <= k < before.len() implies #[trigger] names[k] == s.subrange(
        before[k].name.0,
        before[k].name.1,
    ) by {}
    if exists|k: int| 0 <= k < before.len() && #[trigger] s.subrange(
        before[k].name.0,
        before[k].name.1,
    ) == n {
        let k = choose|k: int| 0 <= k < before.len() && #[trigger] s.subrange(
            before[k].name.0,
            before[k].name.1,
        ) == n;
        assert(names[k] == n);
    }
}

proof fn lemma_equals()
    ensures
        !name_part('='),
        !name_part('>'),
        !name_part('/'),
{
}

/// An attribute value cannot hold `<`.
pub proof fn lemma_value_with_markup(
    s: Seq<char>,
    i: int,
    j: int,
    q: char,
    c: ConfigModel,
    v: XmlVersion,
    r: Resolver,
    before: Seq<char>,
    spent: int,
)
    requires
        0 <= i <= j < s.len(),
        s[j] == '<',
        q != '<',
        forall|k: int| i <= k < j ==> #[trigger] s[k] != q && s[k] != '<' && s[k] != '&',
    ensures
        attribute_rest(s, i, q, c, v, r, before, spent) == Err::<
            (Seq<char>, int, int),
            FaultModel,
        >(FaultModel { kind: ErrorKindModel::InvalidAttributeValue, at: j }),
    decreases j - i,
{
    if i < j {
        lemma_value_with_markup(s, i + 1, j, q, c, v, r, before.push(s[i]), spent);
    }
}

/// The attributes of a tag: they end where the tag closes, white space stands between two of them,
/// and each is found behind those before it.
pub proof fn lemma_attributes_in_a_row(
    s: Seq<char>,
    i: int,
    j: int,
    c: ConfigModel,
    v: XmlVersion,
    r: Resolver,
    before: Seq<RawAttribute>,
    spent: int,
)
    requires
        0 <= i <= j < s.len(),
        forall|k: int| i <= k < j ==> blank_char(#[trigger] s[k], v),
        !blank_char(s[j], v),
    ensures
        s[j] == '>' || (s[j] == '/' && j + 1 < s.len() && s[j + 1] == '>') ==> attributes_from(
            s,
            i,
            c,
            v,
            r,
            before,
            spent,
        ) == Ok::<(Seq<RawAttribute>, int, int), FaultModel>((before, j, spent)),
        s[j] != '>' && !(s[j] == '/' && j + 1 < s.len() && s[j + 1] == '>') && i == j
            && before.len() > 0 ==> attributes_from(s, i, c, v, r, before, spent) == Err::<
            (Seq<RawAttribute>, int, int),
            FaultModel,
        >(FaultModel { kind: ErrorKindModel::Expected("whitespace"@), at: j }),
        s[j] != '>' && s[j] != '/' && (i < j || before.len() == 0) ==> (attribute(
            s,
            j,
            c,
            v,
            r,
            before,
            spent,
        ) matches Ok((x, k, after)) ==> (i < k <= s.len() ==> attributes_from(
            s,
            i,
            c,
            v,
            r,
            before,
            spent,
        ) == attributes_from(s, k, c, v, r, before.push(x), after))),
{
    lemma_blanks_are_passed(s, i, j, v);
    reveal_strlit("/>");
    assert("/>"@ =~= seq!['/', '>']);
    if starts_at(s, j, "/>"@) {
        lemma_at(s, j, "/>"@);
        assert(s[j] == "/>"@[0]);
        assert(s[j + 1] == "/>"@[1]);
    }
    if s[j] == '/' && j + 1 < s.len() && s[j + 1] == '>' {
        assert(s.subrange(j, j + 2) =~= "/>"@);
    }
}

/// An end tag closes the element with its name, and no other.
pub proof fn lemma_end_tag_form(
    s: Seq<char>,
    i: int,
    m: Seq<char>,
    a: Seq<char>,
    n: Seq<char>,
    v: XmlVersion,
)
    requires
        valid_name(m),
        blanks(a, v),
        starts_at(s, i, m + (a + seq!['>'])),
    ensures
        end_tag_end(s, i, n, v) == (if m == n {
            Ok::<int, FaultModel>(i + m.len() + a.len() + 1)
        } else {
            Err(
                FaultModel {
                    kind: ErrorKindModel::MismatchedEndTag { expected: n, found: m },
                    at: i + m.len() + a.len() + 1,
                },
            )
        }),
{
    lemma_starts_split(s, i, m, a + seq!['>']);
    let i1 = i + m.len();
    lemma_starts_split(s, i1, a, seq!['>']);
    let i2 = i1 + a.len();
    lemma_starts_char(s, i2, '>');
    lemma_at(s, i, m);
    lemma_at(s, i1, a);
    if a.len() > 0 {
        assert(s[i1] == a[0]);
        lemma_blank_char(s[i1], v);
    }
    lemma_equals();
    lemma_name_read(s, i, m);
    assert forall|k: int| i1 <= k < i2 implies blank_char(#[trigger] s[k], v) by {
        assert(s[k] == a[k - i1]);
    }
    lemma_blanks_are_passed(s, i1, i2, v);
    reveal_strlit(">");
    assert(">"@ =~= seq!['>']);
}

/// The text has two hyphens in a row, or one at its end.
pub open spec fn hyphened(t: Seq<char>) -> bool {
    ||| exists|k: int| 0 <= k && k + 1 < t.len() && #[trigger] t[k] == '-' && t[k + 1] == '-'
    ||| t.len() > 0 && t.last() == '-'
}

/// A comment goes up to the first `-->`, and has no two hyphens before that. It is a node if
/// comments are kept.
pub proof fn lemma_comment_form(s: Seq<char>, i: int, t: Seq<char>, c: ConfigModel, v: XmlVersion)
    requires
        starts_at(s, i, "<!--"@ + t + "-->"@),
        forall|j: int|
            i + 4 <= j < i + 4 + t.len() ==> !(#[trigger] s[j] == '-' && s[j + 1] == '-' && s[j + 2]
                == '>'),
    ensures
        hyphened(t) ==> {
            &&& comment_end(s, i) == Err::<int, FaultModel>(
                FaultModel { kind: ErrorKindModel::InvalidComment, at: i + 4 },
            )
            &&& markup_leaf(s, i, c, v) == Err::<(Option<RawTree>, int), FaultModel>(
                FaultModel { kind: ErrorKindModel::InvalidComment, at: i + 4 },
            )
        },
        !hyphened(t) ==> {
            &&& comment_end(s, i) == Ok::<int, FaultModel>(i + t.len() + 7)
            &&& markup_leaf(s, i, c, v) == Ok::<(Option<RawTree>, int), FaultModel>(
                (
                    if c.preserve_comments {
                        Some(
                            RawTree::Leaf {
                                span: (i, i + t.len() + 7),
                                kind: XmlNodeKind::Comment,
                                primary: (i + 4, i + 4 + t.len()),
                                secondary: (0, 0),
                            },
                        )
                    } else {
                        None
                    },
                    i + t.len() + 7,
                ),
            )
        },
{
    reveal_strlit("<!--");
    reveal_strlit("-->");
    reveal_strlit("--");
    let k = i + 4 + t.len();
    lemma_starts_split(s, i, "<!--"@ + t, "-->"@);
    lemma_starts_split(s, i, "<!--"@, t);
    lemma_at(s, i + 4, t);
    assert forall|j: int| i + 4 <= j < k implies !#[trigger] starts_at(s, j, "-->"@) by {
        if starts_at(s, j, "-->"@) {
            lemma_at(s, j, "-->"@);
            assert(s[j] == "-->"@[0]);
            assert(s[j + 1] == "-->"@[1]);
            assert(s[j + 2] == "-->"@[2]);
        }
    }
    lemma_find(s, i + 4, k, "-->"@);
    assert("--"@ =~= seq!['-', '-']);
    match find_from(t, 0, "--"@) {
        Some(p) => {
            lemma_found(t, 0, "--"@);
            lemma_at(t, p, "--"@);
            assert(t[p] == "--"@[0]);
            assert(t[p + 1] == "--"@[1]);
        },
        None => {
            if exists|k: int| 0 <= k && k + 1 < t.len() && #[trigger] t[k] == '-' && t[k + 1]
                == '-' {
                let p = choose|k: int|
                    0 <= k && k + 1 < t.len() && #[trigger] t[k] == '-' && t[k + 1] == '-';
                assert(t.subrange(p, p + 2) =~= "--"@);
                lemma_not_found(t, 0, "--"@, p);
            }
        },
    }
}

/// What was found stands where it was found.
pub proof fn lemma_found(s: Seq<char>, i: int, t: Seq<char>)
    requires
        0 <= i,
        find_from(s, i, t) is Some,
    ensures
        starts_at(s, find_from(s, i, t)->Some_0, t),
    decreases s.len() + 1 - i,
{
    if i <= s.len() && !starts_at(s, i, t) {
        lemma_found(s, i + 1, t);
    }
}

/// A CDATA section goes up to the first `]]>`. It is a node of its own if sections are kept, and
/// otherwise a text, if it is not empty.
pub proof fn lemma_section_form(s: Seq<char>, i: int, t: Seq<char>, c: ConfigModel, v: XmlVersion)
    requires
        starts_at(s, i, "<![CDATA["@ + t + "]]>"@),
        forall|j: int|
            i + 9 <= j < i + 9 + t.len() ==> !(#[trigger] s[j] == ']' && s[j + 1] == ']' && s[j + 2]
                == '>'),
        c.text_whitespace != XmlTextWhitespacePolicy::Trim,
    ensures
        markup_leaf(s, i, c, v) == Ok::<(Option<RawTree>, int), FaultModel>(
            (
                if c.preserve_cdata_nodes {
                    Some(
                        RawTree::Leaf {
                            span: (i, i + t.len() + 12),
                            kind: XmlNodeKind::Cdata,
                            primary: if t.len() > 0 {
                                (i + 9, i + 9 + t.len())
                            } else {
                                (0, 0)
                            },
                            secondary: (0, 0),
                        },
                    )
                } else if t.len() > 0 && c.preserve_text_nodes {
                    Some(
                        RawTree::Leaf {
                            span: (i, i + t.len() + 12),
                            kind: XmlNodeKind::Text,
                            primary: (i + 9, i + 9 + t.len()),
                            secondary: (0, 0),
                        },
                    )
                } else {
                    None
                },
                i + t.len() + 12,
            ),
        ),
{
    reveal_strlit("<!--");
    reveal_strlit("<![CDATA[");
    reveal_strlit("]]>");
    let k = i + 9 + t.len();
    lemma_starts_split(s, i, "<![CDATA["@ + t, "]]>"@);
    lemma_starts_split(s, i, "<![CDATA["@, t);
    lemma_at(s, i, "<![CDATA["@);
    assert(s[i + 2] == "<![CDATA["@[2]);
    if starts_at(s, i, "<!--"@) {
        lemma_at(s, i, "<!--"@);
        assert(s[i + 2] == "<!--"@[2]);
    }
    assert forall|j: int| i + 9 <= j < k implies !#[trigger] starts_at(s, j, "]]>"@) by {
        if starts_at(s, j, "]]>"@) {
            lemma_at(s, j, "]]>"@);
            assert(s[j] == "]]>"@[0]);
            assert(s[j + 1] == "]]>"@[1]);
            assert(s[j + 2] == "]]>"@[2]);
        }
    }
    lemma_find(s, i + 9, k, "]]>"@);
}

/// A processing instruction: a target that is not reserved, and behind white space its data, up to
/// the first `?>`. It is a node if instructions are kept.
pub proof fn lemma_instruction_form(
    s: Seq<char>,
    i: int,
    n: Seq<char>,
    a: Seq<char>,
    t: Seq<char>,
    c: ConfigModel,
    v: XmlVersion,
)
    requires
        valid_name(n),
        blanks(a, XmlVersion::Xml10),
        starts_at(s, i, "<?"@ + (n + (a + (t + "?>"@)))),
        t.len() > 0 ==> a.len() > 0 && !blank_char(t[0], XmlVersion::Xml10),
        forall|j: int|
            i + 2 + n.len() <= j < i + 2 + n.len() + a.len() + t.len() ==> !(#[trigger] s[j] == '?'
                && s[j + 1] == '>'),
    ensures
        xml_target(n) ==> markup_leaf(s, i, c, v) == Err::<(Option<RawTree>, int), FaultModel>(
            FaultModel {
                kind: ErrorKindModel::InvalidProcessingInstructionTarget,
                at: i + 2 + n.len(),
            },
        ),
        !xml_target(n) ==> markup_leaf(s, i, c, v) == Ok::<(Option<RawTree>, int), FaultModel>(
            (
                if c.preserve_processing_instructions {
                    Some(
                        RawTree::Leaf {
                            span: (i, i + 4 + n.len() + a.len() + t.len()),
                            kind: XmlNodeKind::ProcessingInstruction,
                            primary: (i + 2, i + 2 + n.len()),
                            secondary: (
                                i + 2 + n.len() + a.len(),
                                i + 2 + n.len() + a.len() + t.len(),
                            ),
                        },
                    )
                } else {
                    None
                },
                i + 4 + n.len() + a.len() + t.len(),
            ),
        ),
{
    reveal_strlit("<!--");
    reveal_strlit("<![CDATA[");
    reveal_strlit("<?");
    reveal_strlit("?>");
    let g = XmlVersion::Xml10;
    lemma_starts_split(s, i, "<?"@, n + (a + (t + "?>"@)));
    let i1 = i + 2;
    lemma_starts_split(s, i1, n, a + (t + "?>"@));
    let i2 = i1 + n.len();
    lemma_starts_split(s, i2, a, t + "?>"@);
    let i3 = i2 + a.len();
    lemma_starts_split(s, i3, t, "?>"@);
    let end = i3 + t.len();
    lemma_at(s, i, "<?"@);
    assert(s[i + 1] == "<?"@[1]);
    if starts_at(s, i, "<!--"@) {
        lemma_at(s, i, "<!--"@);
        assert(s[i + 1] == "<!--"@[1]);
    }
    if starts_at(s, i, "<![CDATA["@) {
        lemma_at(s, i, "<![CDATA["@);
        assert(s[i + 1] == "<![CDATA["@[1]);
    }
    lemma_at(s, i1, n);
    lemma_at(s, i2, a);
    lemma_at(s, i3, t);
    lemma_at(s, end, "?>"@);
    assert(s[end] == "?>"@[0]);
    assert(s[end + 1] == "?>"@[1]);
    lemma_question_mark();
    if a.len() > 0 {
        assert(s[i2] == a[0]);
        lemma_blank_char(s[i2], g);
    }
    lemma_name_read(s, i1, n);
    assert forall|k: int| i2 <= k < i3 implies blank_char(#[trigger] s[k], g) by {
        assert(s[k] == a[k - i2]);
    }
    if t.len() > 0 {
        assert(s[i3] == t[0]);
    }
    lemma_blanks_are_passed(s, i2, i3, g);
    assert forall|j: int| i2 <= j < end implies !#[trigger] starts_at(s, j, "?>"@) by {
        if starts_at(s, j, "?>"@) {
            lemma_at(s, j, "?>"@);
            assert(s[j] == "?>"@[0]);
            assert(s[j + 1] == "?>"@[1]);
        }
    }
    lemma_find(s, i3, end, "?>"@);
    if a.len() == 0 {
        assert(starts_at(s, i2, "?>"@));
    } else {
        assert(!starts_at(s, i2, "?>"@));
    }
}

proof fn lemma_question_mark()
    ensures
        !name_part('?'),
        !blank_char('?', XmlVersion::Xml10),
{
}

/// Text without references goes up to the next `<`; it cannot hold `]]>`.
pub proof fn lemma_text_form(
    s: Seq<char>,
    i: int,
    j: int,
    c: ConfigModel,
    v: XmlVersion,
    r: Resolver,
    spent: int,
)
    requires
        0 <= i <= j <= s.len(),
        forall|k: int| i <= k < j ==> #[trigger] s[k] != '<' && s[k] != '&',
        forall|k: int|
            i <= k < j ==> !(#[trigger] s[k] == ']' && k + 2 < s.len() && s[k + 1] == ']' && s[k
                + 2] == '>'),
    ensures
        j == s.len() || s[j] == '<' ==> text_end(s, i, c, v, r, spent) == Ok::<
            (int, int),
            FaultModel,
        >((j, spent)),
        j + 2 < s.len() && s[j] == ']' && s[j + 1] == ']' && s[j + 2] == '>' ==> text_end(
            s,
            i,
            c,
            v,
            r,
            spent,
        ) == Err::<(int, int), FaultModel>(
            FaultModel { kind: ErrorKindModel::UnexpectedToken, at: j },
        ),
    decreases j - i,
{
    reveal_strlit("]]>");
    if i < s.len() && starts_at(s, i, "]]>"@) {
        lemma_at(s, i, "]]>"@);
        assert(s[i] == "]]>"@[0]);
        assert(s[i + 1] == "]]>"@[1]);
        assert(s[i + 2] == "]]>"@[2]);
    }
    if i < j {
        lemma_text_form(s, i + 1, j, c, v, r, spent);
    } else if j + 2 < s.len() && s[j] == ']' && s[j + 1] == ']' && s[j + 2] == '>' {
        assert(s.subrange(j, j + 3) =~= "]]>"@);
    }
}

proof fn lemma_trim_start(s: Seq<char>, i: int, a: int, to: int, v: XmlVersion)
    requires
        0 <= i <= a <= to <= s.len(),
        forall|k: int| i <= k < a ==> blank_char(#[trigger] s[k], v),
        a < to ==> !blank_char(s[a], v),
    ensures
        trim_start(s, i, to, v) == a,
    decreases a - i,
{
    if i < to {
        lemma_blank_char(s[i], v);
    }
    if i < a {
        lemma_trim_start(s, i + 1, a, to, v);
    }
}

proof fn lemma_trim_end(s: Seq<char>, a: int, b: int, to: int, v: XmlVersion)
    requires
        0 <= a <= b <= to <= s.len(),
        forall|k: int| b <= k < to ==> blank_char(#[trigger] s[k], v),
        a < b ==> !blank_char(s[b - 1], v),
    ensures
        trim_end(s, a, to, v) == b,
    decreases to - b,
{
    if a < to {
        lemma_blank_char(s[to - 1], v);
    }
    if b < to {
        lemma_trim_end(s, a, b, to - 1, v);
    }
}

/// What is kept of a text: all of it, or, if texts are trimmed, what is between the white space at
/// its two ends, and nothing if nothing is left. No text is kept where none is asked for.
pub proof fn lemma_text_that_is_kept(
    s: Seq<char>,
    from: int,
    a: int,
    b: int,
    to: int,
    c: ConfigModel,
    v: XmlVersion,
)
    requires
        0 <= from <= a <= b <= to <= s.len(),
        forall|k: int| from <= k < a ==> blank_char(#[trigger] s[k], v),
        forall|k: int| b <= k < to ==> blank_char(#[trigger] s[k], v),
        a < b ==> !blank_char(s[a], v) && !blank_char(s[b - 1], v),
        a == b ==> a == to,
    ensures
        !c.preserve_text_nodes ==> text_leaf(s, None, from, to, c, v) is None,
        c.preserve_text_nodes && c.text_whitespace != XmlTextWhitespacePolicy::Trim ==> text_leaf(
            s,
            None,
            from,
            to,
            c,
            v,
        ) == Some(
            RawTree::Leaf {
                span: (from, to),
                kind: XmlNodeKind::Text,
                primary: (from, to),
                secondary: (0, 0),
            },
        ),
        c.preserve_text_nodes && c.text_whitespace == XmlTextWhitespacePolicy::Trim ==> text_leaf(
            s,
            None,
            from,
            to,
            c,
            v,
        ) == (if a < b {
            Some(
                RawTree::Leaf {
                    span: (a, b),
                    kind: XmlNodeKind::Text,
                    primary: (a, b),
                    secondary: (0, 0),
                },
            )
        } else {
            None
        }),
{
    lemma_trim_start(s, from, a, to, v);
    lemma_trim_end(s, a, b, to, v);
}

/// White space alone between two tags is a text if texts are kept as they are, and otherwise
/// nothing.
pub proof fn lemma_blank_text(
    s: Seq<char>,
    i: int,
    j: int,
    c: ConfigModel,
    v: XmlVersion,
    r: Resolver,
    name: Seq<char>,
    depth: int,
    acc: Seq<RawTree>,
    spent: int,
)
    requires
        0 <= i < j < s.len(),
        forall|k: int| i <= k < j ==> blank_char(#[trigger] s[k], v),
        s[j] == '<',
    ensures
        content(s, i, c, v, r, name, depth, acc, spent) == content(
            s,
            j,
            c,
            v,
            r,
            name,
            depth,
            if c.text_whitespace == XmlTextWhitespacePolicy::Preserve && c.preserve_text_nodes {
                acc.push(
                    RawTree::Leaf {
                        span: (i, j),
                        kind: XmlNodeKind::Text,
                        primary: (i, j),
                        secondary: (0, 0),
                    },
                )
            } else {
                acc
            },
            spent,
        ),
{
    assert(blank_char(s[i], v));
    lemma_blank_char(s[i], v);
    lemma_blank_char('<', v);
    lemma_blanks_are_passed(s, i, j, v);
    assert forall|k: int| i <= k < j implies #[trigger] s[k] != '<' && s[k] != '&' && s[k]
        != ']' by {
        lemma_blank_char(s[k], v);
        lemma_never_blank(s[k], v);
    }
    lemma_text_form(s, i, j, c, v, r, spent);
}

proof fn lemma_never_blank(c: char, v: XmlVersion)
    requires
        blank_char(c, v),
    ensures
        c != '&' && c != ']' && c != '<',
{
}

/// The children of an element are read one behind the other: those that were there stay in front.
pub proof fn lemma_children_in_order(
    s: Seq<char>,
    i: int,
    c: ConfigModel,
    v: XmlVersion,
    r: Resolver,
    name: Seq<char>,
    depth: int,
    a: Seq<RawTree>,
    b: Seq<RawTree>,
    spent: int,
)
    ensures
        content(s, i, c, v, r, name, depth, a + b, spent) == (match content(
            s,
            i,
            c,
            v,
            r,
            name,
            depth,
            b,
            spent,
        ) {
            Ok((x, end, last)) => Ok::<(Seq<RawTree>, int, int), FaultModel>((a + x, end, last)),
            Err(f) => Err(f),
        }),
    decreases s.len() - i,
{
    if 0 <= i < s.len() {
        if s[i] == '<' {
            if i + 1 < s.len() && s[i + 1] != '/' {
                if s[i + 1] == '!' || s[i + 1] == '?' {
                    match markup_leaf(s, i, c, v) {
                        Err(_) => {},
                        Ok((leaf, k)) => {
                            if i < k <= s.len() {
                                assert(with_leaf(a + b, leaf) =~= a + with_leaf(b, leaf));
                                lemma_children_in_order(
                                    s,
                                    k,
                                    c,
                                    v,
                                    r,
                                    name,
                                    depth,
                                    a,
                                    with_leaf(b, leaf),
                                    spent,
                                );
                            }
                        },
                    }
                } else {
                    match element(s, i, c, v, r, depth + 1, spent) {
                        Err(_) => {},
                        Ok((child, k, after)) => {
                            if i < k <= s.len() {
                                assert((a + b).push(child) =~= a + b.push(child));
                                lemma_children_in_order(
                                    s,
                                    k,
                                    c,
                                    v,
                                    r,
                                    name,
                                    depth,
                                    a,
                                    b.push(child),
                                    after,
                                );
                            }
                        },
                    }
                }
            }
        } else if c.text_whitespace != XmlTextWhitespacePolicy::Preserve && blank_text_end(
            s,
            i,
            v,
        ) is Some {
            let k = blank_text_end(s, i, v)->Some_0;
            if i < k <= s.len() {
                lemma_children_in_order(s, k, c, v, r, name, depth, a, b, spent);
            }
        } else {
            match text_end(s, i, c, v, r, spent) {
                Err(_) => {},
                Ok((k, after)) => {
                    if i < k <= s.len() {
                        let leaf = text_leaf(s, None, i, k, c, v);
                        assert(with_leaf(a + b, leaf) =~= a + with_leaf(b, leaf));
                        lemma_children_in_order(
                            s,
                            k,
                            c,
                            v,
                            r,
                            name,
                            depth,
                            a,
                            with_leaf(b, leaf),
                            after,
                        );
                    }
                },
            }
        }
    }
}

/// An element that is not closed is refused at the end of the text, and one that stands below
/// the lowest level that is allowed is refused where it starts.
pub proof fn lemma_limits_of_content(
    s: Seq<char>,
    i: int,
    c: ConfigModel,
    v: XmlVersion,
    r: Resolver,
    name: Seq<char>,
    depth: int,
    acc: Seq<RawTree>,
    spent: int,
)
    ensures
        i == s.len() ==> content(s, i, c, v, r, name, depth, acc, spent) == Err::<
            (Seq<RawTree>, int, int),
            FaultModel,
        >(FaultModel { kind: ErrorKindModel::UnexpectedEof, at: i }),
        0 <= i && i + 1 < s.len() && s[i] == '<' && s[i + 1] != '/' && s[i + 1] != '!' && s[i + 1]
            != '?' && depth >= 128 ==> content(s, i, c, v, r, name, depth, acc, spent) == Err::<
            (Seq<RawTree>, int, int),
            FaultModel,
        >(FaultModel { kind: ErrorKindModel::DepthLimitExceeded, at: i }),
        0 <= i && i + 1 < s.len() && s[i] == '<' && s[i + 1] != '/' && s[i + 1] != '!' && s[i + 1]
            != '?' && depth < 128 ==> (element(s, i, c, v, r, depth + 1, spent) matches Ok(
            (child, k, after),
        ) ==> (i < k <= s.len() ==> content(s, i, c, v, r, name, depth, acc, spent) == content(
            s,
            k,
            c,
            v,
            r,
            name,
            depth,
            acc.push(child),
            after,
        ))),
{
}

/// Text with anything but white space in it is a child of its element, whatever is done with white
/// space alone.
pub proof fn lemma_text_child(
    s: Seq<char>,
    i: int,
    j: int,
    m: int,
    c: ConfigModel,
    v: XmlVersion,
    r: Resolver,
    name: Seq<char>,
    depth: int,
    acc: Seq<RawTree>,
    spent: int,
)
    requires
        0 <= i <= m < j < s.len(),
        s[j] == '<',
        forall|k: int| i <= k < j ==> #[trigger] s[k] != '<' && s[k] != '&' && s[k] != ']',
        forall|k: int| i <= k < m ==> blank_char(#[trigger] s[k], v),
        !blank_char(s[m], v),
        c.preserve_text_nodes,
        c.text_whitespace != XmlTextWhitespacePolicy::Trim,
    ensures
        content(s, i, c, v, r, name, depth, acc, spent) == content(
            s,
            j,
            c,
            v,
            r,
            name,
            depth,
            acc.push(
                RawTree::Leaf {
                    span: (i, j),
                    kind: XmlNodeKind::Text,
                    primary: (i, j),
                    secondary: (0, 0),
                },
            ),
            spent,
        ),
{
    assert(s[i] != '<');
    lemma_blanks_are_passed(s, i, m, v);
    lemma_text_form(s, i, j, c, v, r, spent);
}

/// A comment, a section or an instruction is a child of its element where it is kept, and what is
/// behind it is read on; an end tag ends the children.
pub proof fn lemma_markup_child(
    s: Seq<char>,
    i: int,
    c: ConfigModel,
    v: XmlVersion,
    r: Resolver,
    name: Seq<char>,
    depth: int,
    acc: Seq<RawTree>,
    spent: int,
)
    requires
        0 <= i,
        i + 1 < s.len(),
        s[i] == '<',
    ensures
        s[i + 1] == '!' || s[i + 1] == '?' ==> match markup_leaf(s, i, c, v) {
            Err(f) => content(s, i, c, v, r, name, depth, acc, spent) == Err::<
                (Seq<RawTree>, int, int),
                FaultModel,
            >(f),
            Ok((leaf, k)) => i < k <= s.len() ==> content(
                s,
                i,
                c,
                v,
                r,
                name,
                depth,
                acc,
                spent,
            ) == content(
                s,
                k,
                c,
                v,
                r,
                name,
                depth,
                match leaf {
                    Some(t) => acc.push(t),
                    None => acc,
                },
                spent,
            ),
        },
        s[i + 1] == '/' ==> content(s, i, c, v, r, name, depth, acc, spent) == (match end_tag_end(
            s,
            i + 2,
            name,
            v,
        ) {
            Ok(k) => Ok::<(Seq<RawTree>, int, int), FaultModel>((acc, k, spent)),
            Err(f) => Err(f),
        }),
{
}

/// A tag has a name right behind its angle bracket; after its attributes it is closed, and if it is
/// not closed as an empty one its children follow.
pub proof fn lemma_element_steps(
    s: Seq<char>,
    i: int,
    k: int,
    j: int,
    a: Seq<RawAttribute>,
    c: ConfigModel,
    v: XmlVersion,
    r: Resolver,
    depth: int,
    spent: int,
    after: int,
)
    requires
        0 <= i < j < s.len(),
        s[i] == '<',
        name_end(s, i + 1) == Ok::<int, FaultModel>(k),
        attributes_from(s, k, c, v, r, Seq::empty(), spent) == Ok::<
            (Seq<RawAttribute>, int, int),
            FaultModel,
        >((a, j, after)),
    ensures
        s[j] == '/' && j + 1 < s.len() && s[j + 1] == '>' ==> element(s, i, c, v, r, depth, spent)
            == Ok::<(RawTree, int, int), FaultModel>(
            (
                RawTree::Element {
                    span: (i, j + 2),
                    name: (i + 1, k),
                    attributes: a,
                    children: Seq::empty(),
                },
                j + 2,
                after,
            ),
        ),
        s[j] == '>' ==> element(s, i, c, v, r, depth, spent) == (match content(
            s,
            j + 1,
            c,
            v,
            r,
            s.subrange(i + 1, k),
            depth,
            Seq::empty(),
            after,
        ) {
            Err(f) => Err::<(RawTree, int, int), FaultModel>(f),
            Ok((children, end, last)) => Ok(
                (
                    RawTree::Element {
                        span: (i, end),
                        name: (i + 1, k),
                        attributes: a,
                        children,
                    },
                    end,
                    last,
                ),
            ),
        }),
{
    reveal_strlit("<");
    reveal_strlit(">");
    reveal_strlit("/>");
    assert("<"@ =~= seq!['<']);
    assert(">"@ =~= seq!['>']);
    assert("/>"@ =~= seq!['/', '>']);
    lemma_starts_char(s, i, '<');
    lemma_starts_char(s, j, '>');
    if starts_at(s, j, "/>"@) {
        lemma_at(s, j, "/>"@);
        assert(s[j] == "/>"@[0]);
    }
    if s[j] == '/' && j + 1 < s.len() && s[j + 1] == '>' {
        assert(s.subrange(j, j + 2) =~= "/>"@);
    }
}

} // verus!
