//! What is written reads back as it was.

use vstd::prelude::*;

use crate::config::preserving_config;
use crate::dom::{AttributeModel, ElementModel, InstructionModel, NodeModel, XmlNodeKind};
use crate::dtd::name_among;
use crate::error::{ErrorModel, FaultModel};
use crate::flat::{attribute_values_from, lexeme_at, materialized, materialized_from};
use crate::grammar::{
    attribute, attribute_names, attributes_from, bad_space_value, blank_end, content, element,
    end_tag_end, markup_leaf, tag_close_at, text_end, RawAttribute, RawTree, Resolver,
    MAX_DOM_DEPTH,
};
use crate::lexeme::{CompactLexemeKind, XmlAttributeWhitespacePolicy, XmlVersion};
use crate::mutation::comment_breaks;
use crate::scan::{
    comment_end, expected, instruction_data_start, instruction_tail_end, name_end, space_end,
    target_end,
};
use crate::serialize::{
    attribute_text, attributes_text, cdata_from, escaped_attribute, escaped_text, instruction_text,
    node_text, nodes_text, quote_char, XmlQuoteStyle,
};
use crate::syntax::{name_part, name_start, space, valid_name, xml_target};
use crate::text::{contains_text, find_from, starts_at};
use crate::unescape::{
    clean, lemma_attribute_read, lemma_attribute_round_trip, lemma_escaped_text_chars,
    lemma_name_read, lemma_normalized, lemma_starts_char, lemma_starts_index, lemma_starts_split,
    lemma_text_read, lemma_text_round_trip,
};

verus! {

/// A text that is written as it stands and reads back as it stands.
pub open spec fn opaque_text(s: Seq<char>, v: XmlVersion) -> bool {
    &&& clean(s, v)
    &&& forall|k: int| 0 <= k < s.len() ==> #[trigger] s[k] != '\r'
}

/// Attributes that read back as they are.
pub open spec fn writable_attributes(a: Seq<AttributeModel>, v: XmlVersion) -> bool {
    &&& forall|k: int|
        0 <= k < a.len() ==> valid_name((#[trigger] a[k]).name) && clean(a[k].value, v)
            && !bad_space_value(a[k].name, a[k].value)
    &&& forall|i: int, j: int|
        0 <= i < j < a.len() ==> (#[trigger] a[i]).name != (#[trigger] a[j]).name
}

/// An instruction that reads back as it is.
pub open spec fn writable_instruction(i: InstructionModel, v: XmlVersion) -> bool {
    &&& valid_name(i.target)
    &&& !xml_target(i.target)
    &&& writable_data(i.data, v)
}

/// The data of an instruction that reads back as it is.
pub open spec fn writable_data(d: Seq<char>, v: XmlVersion) -> bool {
    &&& opaque_text(d, v)
    &&& !contains_text(d, "?>"@)
    &&& d.len() > 0 ==> !space(d[0])
}

/// A tree at the given depth that reads back as it is.
///
/// No text is empty, no two texts are neighbours, no CDATA section holds its own end, and
/// nothing but texts and attribute values holds a carriage return.
pub open spec fn writable(n: NodeModel, depth: int, v: XmlVersion) -> bool
    decreases n,
{
    match n {
        NodeModel::Element(e) => {
            &&& 1 <= depth <= MAX_DOM_DEPTH
            &&& valid_name(e.name)
            &&& writable_attributes(e.attributes, v)
            &&& forall|k: int|
                0 <= k < e.children.len() ==> writable(#[trigger] e.children[k], depth + 1, v)
            &&& no_adjacent_texts(e.children)
        },
        NodeModel::Text(t) => t.len() > 0 && clean(t, v),
        NodeModel::Cdata(t) => opaque_text(t, v) && !contains_text(t, "]]>"@),
        NodeModel::Comment(t) => opaque_text(t, v) && !comment_breaks(t),
        NodeModel::ProcessingInstruction(i) => writable_instruction(i, v),
    }
}

/// No text follows a text.
pub open spec fn no_adjacent_texts(n: Seq<NodeModel>) -> bool {
    forall|i: int, j: int|
        0 <= i < n.len() && j == i + 1 && j < n.len() ==> !(#[trigger] n[i] is Text
            && #[trigger] n[j] is Text)
}

/// The attributes written so far are a part of all of them.
pub proof fn lemma_attributes_text_prefix(
    s: Seq<char>,
    i: int,
    a: Seq<AttributeModel>,
    k: int,
    n: int,
    q: XmlQuoteStyle,
)
    requires
        0 <= k <= n <= a.len(),
        starts_at(s, i, attributes_text(a, n, q)),
    ensures
        starts_at(s, i, attributes_text(a, k, q)),
    decreases n - k,
{
    if k < n {
        lemma_starts_split(s, i, attributes_text(a, n - 1, q), attribute_text(a[n - 1], q));
        lemma_attributes_text_prefix(s, i, a, k, n - 1, q);
    }
}

/// The nodes written so far are a part of all of them.
pub proof fn lemma_nodes_text_prefix(
    s: Seq<char>,
    i: int,
    a: Seq<NodeModel>,
    k: int,
    n: int,
    q: XmlQuoteStyle,
)
    requires
        0 <= k <= n <= a.len(),
        starts_at(s, i, nodes_text(a, n, q)),
    ensures
        starts_at(s, i, nodes_text(a, k, q)),
    decreases n - k,
{
    if k < n {
        lemma_starts_split(s, i, nodes_text(a, n - 1, q), node_text(a[n - 1], q));
        lemma_nodes_text_prefix(s, i, a, k, n - 1, q);
    }
}

/// The attributes `raw` of `s` are those of `a`.
pub open spec fn attributes_mean(
    s: Seq<char>,
    raw: Seq<RawAttribute>,
    a: Seq<AttributeModel>,
    k: int,
    policy: XmlAttributeWhitespacePolicy,
    v: XmlVersion,
) -> bool {
    &&& raw.len() == k
    &&& k <= a.len()
    &&& forall|m: int|
        0 <= m < k ==> s.subrange((#[trigger] raw[m]).name.0, raw[m].name.1) == a[m].name
            && lexeme_at(
            s,
            raw[m].value,
            CompactLexemeKind::Attribute,
            v,
            policy,
        ) == Ok::<Seq<char>, ErrorModel>(a[m].value)
}

/// Attributes that mean `a` are decoded to `a`.
proof fn lemma_attribute_values(
    s: Seq<char>,
    raw: Seq<RawAttribute>,
    a: Seq<AttributeModel>,
    k: int,
    policy: XmlAttributeWhitespacePolicy,
    v: XmlVersion,
)
    requires
        attributes_mean(s, raw, a, a.len() as int, policy, v),
        0 <= k <= a.len(),
    ensures
        attribute_values_from(s, raw, k, v, policy, a.take(k)) == Ok::<
            Seq<AttributeModel>,
            ErrorModel,
        >(a),
    decreases a.len() - k,
{
    if k < a.len() {
        lemma_attribute_values(s, raw, a, k + 1, policy, v);
        assert(s.subrange(raw[k].name.0, raw[k].name.1) == a[k].name);
        let x = AttributeModel { name: a[k].name, value: a[k].value };
        assert(x == a[k]);
        assert(a.take(k).push(x) =~= a.take(k + 1));
    } else {
        assert(a.take(k) =~= a);
    }
}

/// One attribute is read back.
proof fn lemma_attribute_text_read(
    s: Seq<char>,
    i: int,
    a: Seq<AttributeModel>,
    k: int,
    q: XmlQuoteStyle,
    r: Resolver,
    before: Seq<RawAttribute>,
    spent: int,
    policy: XmlAttributeWhitespacePolicy,
    v: XmlVersion,
) -> (raw: RawAttribute)
    requires
        0 <= k < a.len(),
        writable_attributes(a, v),
        starts_at(s, i, attribute_text(a[k], q)),
        attributes_mean(s, before, a, k, policy, v),
        policy != XmlAttributeWhitespacePolicy::NormalizeAndCollapse,
    ensures
        attribute(s, i + 1, preserving_config(), v, r, before, spent) == Ok::<
            (RawAttribute, int, int),
            FaultModel,
        >((raw, i + attribute_text(a[k], q).len(), spent)),
        attributes_mean(s, before.push(raw), a, k + 1, policy, v),
        s[i] == ' ',
        name_start(s[i + 1]),
        i + attribute_text(a[k], q).len() <= s.len(),
        0 <= i,
{
    let c = preserving_config();
    let n = a[k].name;
    let w = a[k].value;
    let e = escaped_attribute(w, q);
    let p1 = seq![' '];
    let p2 = seq!['=', quote_char(q)];
    let p3 = seq![quote_char(q)];
    lemma_starts_split(s, i, p1 + n + p2 + e, p3);
    lemma_starts_split(s, i, p1 + n + p2, e);
    lemma_starts_split(s, i, p1 + n, p2);
    lemma_starts_split(s, i, p1, n);
    lemma_starts_char(s, i, ' ');
    let m = i + 1 + n.len();
    lemma_starts_index(s, m, p2);
    assert(p2[0] == s[m + 0]);
    assert(p2[1] == s[m + 1]);
    lemma_starts_index(s, i + 1, n);
    assert(n[0] == s[i + 1 + 0]);
    lemma_name_read(s, i + 1, n);
    assert(!name_among(attribute_names(s, before), n)) by {
        assert forall|j: int| 0 <= j < before.len() implies #[trigger] attribute_names(s, before)[j]
            != n by {
            assert(s.subrange(before[j].name.0, before[j].name.1) == a[j].name);
            assert(a[j].name != a[k].name);
        }
    }
    reveal_strlit("=");
    assert(s.subrange(m, m + 1) =~= "="@);
    assert(blank_end(s, m, v) == m);
    assert(blank_end(s, m + 1, v) == m + 1);
    let close = m + 2 + e.len();
    lemma_starts_char(s, close, quote_char(q));
    lemma_attribute_read(s, m + 2, w, q, r, Seq::empty(), spent, v);
    assert(Seq::<char>::empty() + w =~= w);
    let raw = RawAttribute { name: (i + 1, m), value: (m + 2, close) };
    lemma_attribute_round_trip(w, q, policy, v);
    assert(s.subrange(m + 2, close) == e);
    let after = before.push(raw);
    assert forall|j: int| 0 <= j < k + 1 implies s.subrange(
        (#[trigger] after[j]).name.0,
        after[j].name.1,
    ) == a[j].name && lexeme_at(s, after[j].value, CompactLexemeKind::Attribute, v, policy) == Ok::<
        Seq<char>,
        ErrorModel,
    >(a[j].value) by {
        if j < k {
            assert(after[j] == before[j]);
        }
    }
    raw
}

/// The attributes from `k` on are read back.
proof fn lemma_attributes_text_read(
    s: Seq<char>,
    i: int,
    a: Seq<AttributeModel>,
    k: int,
    q: XmlQuoteStyle,
    r: Resolver,
    before: Seq<RawAttribute>,
    spent: int,
    policy: XmlAttributeWhitespacePolicy,
    v: XmlVersion,
) -> (raw: Seq<RawAttribute>)
    requires
        0 <= k <= a.len(),
        writable_attributes(a, v),
        starts_at(s, i, attributes_text(a, a.len() as int, q)),
        attributes_mean(s, before, a, k, policy, v),
        policy != XmlAttributeWhitespacePolicy::NormalizeAndCollapse,
        tag_close_at(s, i + attributes_text(a, a.len() as int, q).len()),
    ensures
        attributes_from(
            s,
            i + attributes_text(a, k, q).len(),
            preserving_config(),
            v,
            r,
            before,
            spent,
        ) == Ok::<(Seq<RawAttribute>, int, int), FaultModel>(
            (raw, i + attributes_text(a, a.len() as int, q).len(), spent),
        ),
        attributes_mean(s, raw, a, a.len() as int, policy, v),
    decreases a.len() - k,
{
    let p = i + attributes_text(a, k, q).len();
    reveal_strlit("/>");
    if k == a.len() {
        if starts_at(s, p, "/>"@) {
            lemma_starts_index(s, p, "/>"@);
            assert("/>"@[0] == s[p + 0]);
        }
        assert(blank_end(s, p, v) == p);
        before
    } else {
        lemma_attributes_text_prefix(s, i, a, k + 1, a.len() as int, q);
        lemma_starts_split(s, i, attributes_text(a, k, q), attribute_text(a[k], q));
        let x = lemma_attribute_text_read(s, p, a, k, q, r, before, spent, policy, v);
        assert(blank_end(s, p + 1, v) == p + 1);
        assert(blank_end(s, p, v) == p + 1);
        if starts_at(s, p + 1, "/>"@) {
            lemma_starts_index(s, p + 1, "/>"@);
            assert("/>"@[0] == s[p + 1 + 0]);
        }
        lemma_attributes_text_read(s, i, a, k + 1, q, r, before.push(x), spent, policy, v)
    }
}

/// Where a text stands, `find_from` finds nothing before it.
pub proof fn lemma_find(s: Seq<char>, i: int, k: int, t: Seq<char>)
    requires
        0 <= i <= k <= s.len(),
        starts_at(s, k, t),
        forall|j: int| i <= j < k ==> !#[trigger] starts_at(s, j, t),
    ensures
        find_from(s, i, t) == Some(k),
    decreases k - i,
{
    if i < k {
        assert(!starts_at(s, i, t));
        lemma_find(s, i + 1, k, t);
    }
}

/// A text that `find_from` does not find stands nowhere.
pub proof fn lemma_not_found(s: Seq<char>, i: int, t: Seq<char>, j: int)
    requires
        0 <= i <= j,
        find_from(s, i, t) is None,
    ensures
        !starts_at(s, j, t),
    decreases j - i,
{
    if i < j && i <= s.len() {
        lemma_not_found(s, i + 1, t, j);
    }
}

/// What stands within a text that stands at `i`.
pub proof fn lemma_starts_within(s: Seq<char>, i: int, d: Seq<char>, j: int, t: Seq<char>)
    requires
        starts_at(s, i, d),
        starts_at(s, j, t),
        i <= j,
        j + t.len() <= i + d.len(),
    ensures
        starts_at(d, j - i, t),
{
    lemma_starts_index(s, i, d);
    let a = d.subrange(j - i, j - i + t.len());
    let b = s.subrange(j, j + t.len());
    assert(a =~= b) by {
        assert forall|k: int| 0 <= k < t.len() implies a[k] == b[k] by {
            assert(d[j - i + k] == s[i + (j - i + k)]);
        }
    }
}

/// A comment does not end inside of its text.
pub proof fn lemma_no_comment_end(s: Seq<char>, i: int, t: Seq<char>, j: int)
    requires
        !comment_breaks(t),
        starts_at(s, i, t),
        i <= j < i + t.len(),
    ensures
        !starts_at(s, j, "-->"@),
{
    reveal_strlit("-->");
    reveal_strlit("--");
    if starts_at(s, j, "-->"@) {
        lemma_starts_index(s, i, t);
        lemma_starts_index(s, j, "-->"@);
        assert("-->"@[0] == s[j + 0]);
        assert("-->"@[1] == s[j + 1]);
        if j + 1 < i + t.len() {
            assert(s.subrange(j, j + 2) =~= "--"@);
            lemma_starts_within(s, i, t, j, "--"@);
            lemma_not_found(t, 0, "--"@, j - i);
        } else {
            assert(t[j - i] == s[i + (j - i)]);
        }
    }
}

/// A comment is read back.
pub proof fn lemma_comment_read(s: Seq<char>, i: int, t: Seq<char>, v: XmlVersion)
    requires
        opaque_text(t, v),
        !comment_breaks(t),
        starts_at(s, i, "<!--"@ + t + "-->"@),
    ensures
        starts_at(s, i, "<!--"@),
        comment_end(s, i) == Ok::<int, FaultModel>(i + t.len() + 7),
        s.subrange(i + 4, i + t.len() + 4) == t,
        0 <= i,
        i + t.len() + 7 <= s.len(),
        s[i] == '<',
        s[i + 1] == '!',
{
    reveal_strlit("<!--");
    reveal_strlit("-->");
    let k = i + 4 + t.len();
    lemma_starts_split(s, i, "<!--"@ + t, "-->"@);
    lemma_starts_split(s, i, "<!--"@, t);
    lemma_starts_index(s, i, "<!--"@);
    assert("<!--"@[0] == s[i + 0]);
    assert("<!--"@[1] == s[i + 1]);
    lemma_starts_index(s, i + 4, t);
    assert forall|j: int| i + 4 <= j < k implies !#[trigger] starts_at(s, j, "-->"@) by {
        lemma_no_comment_end(s, i + 4, t, j);
    }
    lemma_find(s, i + 4, k, "-->"@);
}

/// A CDATA section is read back.
pub proof fn lemma_cdata_read(s: Seq<char>, i: int, t: Seq<char>)
    requires
        !contains_text(t, "]]>"@),
        starts_at(s, i, "<![CDATA["@ + t + "]]>"@),
    ensures
        starts_at(s, i, "<![CDATA["@),
        find_from(s, i + 9, "]]>"@) == Some(i + 9 + t.len()),
        s.subrange(i + 9, i + 9 + t.len()) == t,
        0 <= i,
        i + t.len() + 12 <= s.len(),
        s[i] == '<',
        s[i + 1] == '!',
        s[i + 2] == '[',
{
    reveal_strlit("<![CDATA[");
    reveal_strlit("]]>");
    let k = i + 9 + t.len();
    lemma_starts_split(s, i, "<![CDATA["@ + t, "]]>"@);
    lemma_starts_split(s, i, "<![CDATA["@, t);
    lemma_starts_index(s, i, "<![CDATA["@);
    assert("<![CDATA["@[0] == s[i + 0]);
    assert("<![CDATA["@[1] == s[i + 1]);
    assert("<![CDATA["@[2] == s[i + 2]);
    lemma_starts_index(s, k, "]]>"@);
    assert("]]>"@[0] == s[k + 0]);
    assert("]]>"@[1] == s[k + 1]);
    assert forall|j: int| i + 9 <= j < k implies !#[trigger] starts_at(s, j, "]]>"@) by {
        if starts_at(s, j, "]]>"@) {
            lemma_starts_index(s, j, "]]>"@);
            assert("]]>"@[2] == s[j + 2]);
            if j + 3 <= k {
                lemma_starts_within(s, i + 9, t, j, "]]>"@);
                lemma_not_found(t, 0, "]]>"@, j - (i + 9));
            }
        }
    }
    lemma_find(s, i + 9, k, "]]>"@);
}

/// The content of a CDATA section that does not hold its own end is written as it stands.
pub proof fn lemma_cdata_plain(t: Seq<char>, i: int, out: Seq<char>)
    requires
        !contains_text(t, "]]>"@),
        0 <= i <= t.len(),
    ensures
        cdata_from(t, i, out) == out + t.subrange(i, t.len() as int),
    decreases t.len() - i,
{
    if i < t.len() {
        lemma_not_found(t, 0, "]]>"@, i);
        lemma_cdata_plain(t, i + 1, out.push(t[i]));
        assert(out.push(t[i]) + t.subrange(i + 1, t.len() as int) =~= out + t.subrange(
            i,
            t.len() as int,
        ));
    } else {
        assert(out + t.subrange(i, t.len() as int) =~= out);
    }
}

/// The data of an instruction and its end are read back.
pub proof fn lemma_data_read(s: Seq<char>, i: int, d: Seq<char>, v: XmlVersion)
    requires
        writable_data(d, v),
        starts_at(s, i, (if d.len() == 0 {
            Seq::empty()
        } else {
            seq![' '] + d
        }) + "?>"@),
    ensures
        ({
            let start = if d.len() == 0 {
                i
            } else {
                i + 1
            };
            &&& instruction_data_start(s, i) == Ok::<int, FaultModel>(start)
            &&& d.len() > 0 ==> space(s[i]) && space_end(s, i) == start
            &&& find_from(s, start, "?>"@) == Some(start + d.len())
            &&& instruction_tail_end(s, start) == Ok::<int, FaultModel>(start + d.len() + 2)
            &&& s.subrange(start, start + d.len()) == d
            &&& 0 <= i
            &&& start + d.len() + 2 <= s.len()
            &&& !name_part(s[i])
        }),
{
    reveal_strlit("?>");
    let start = if d.len() == 0 {
        i
    } else {
        i + 1
    };
    let lead = if d.len() == 0 {
        Seq::empty()
    } else {
        seq![' '] + d
    };
    let k = start + d.len();
    lemma_starts_split(s, i, lead, "?>"@);
    lemma_starts_index(s, k, "?>"@);
    assert("?>"@[0] == s[k + 0]);
    assert("?>"@[1] == s[k + 1]);
    if d.len() > 0 {
        lemma_starts_split(s, i, seq![' '], d);
        lemma_starts_char(s, i, ' ');
        lemma_starts_index(s, i + 1, d);
        assert(d[0] == s[i + 1 + 0]);
        assert(space_end(s, i + 1) == i + 1);
        if starts_at(s, i, "?>"@) {
            lemma_starts_index(s, i, "?>"@);
            assert("?>"@[0] == s[i + 0]);
        }
        assert forall|j: int| start <= j < k implies !#[trigger] starts_at(s, j, "?>"@) by {
            if starts_at(s, j, "?>"@) {
                lemma_starts_index(s, j, "?>"@);
                assert("?>"@[1] == s[j + 1]);
                if j + 2 <= k {
                    lemma_starts_within(s, start, d, j, "?>"@);
                    lemma_not_found(d, 0, "?>"@, j - start);
                }
            }
        }
    } else {
        assert(s.subrange(start, start + d.len()) =~= d);
    }
    lemma_find(s, start, k, "?>"@);
}

/// An instruction is read back.
pub proof fn lemma_instruction_read(s: Seq<char>, i: int, x: InstructionModel, v: XmlVersion)
    requires
        writable_instruction(x, v),
        starts_at(s, i, instruction_text(x)),
    ensures
        ({
            let t = i + 2 + x.target.len();
            let data = if x.data.len() == 0 {
                t
            } else {
                t + 1
            };
            let end = i + instruction_text(x).len();
            &&& starts_at(s, i, "<?"@)
            &&& target_end(s, i) == Ok::<int, FaultModel>(t)
            &&& s.subrange(i + 2, t) == x.target
            &&& instruction_data_start(s, t) == Ok::<int, FaultModel>(data)
            &&& instruction_tail_end(s, data) == Ok::<int, FaultModel>(end)
            &&& s.subrange(data, end - 2) == x.data
            &&& 0 <= i
            &&& end <= s.len()
            &&& i + 4 <= end
            &&& s[i] == '<'
            &&& s[i + 1] == '?'
        }),
{
    reveal_strlit("<?");
    reveal_strlit("?>");
    let lead = if x.data.len() == 0 {
        Seq::empty()
    } else {
        seq![' '] + x.data
    };
    let t = i + 2 + x.target.len();
    assert(instruction_text(x) =~= "<?"@ + x.target + (lead + "?>"@));
    lemma_starts_split(s, i, "<?"@ + x.target, lead + "?>"@);
    lemma_starts_split(s, i, "<?"@, x.target);
    lemma_starts_index(s, i, "<?"@);
    assert("<?"@[0] == s[i + 0]);
    assert("<?"@[1] == s[i + 1]);
    lemma_data_read(s, t, x.data, v);
    lemma_name_read(s, i + 2, x.target);
}

/// The nodes `raw` of `s` are those of `n`, as far as position `k`.
pub open spec fn nodes_mean(
    s: Seq<char>,
    raw: Seq<RawTree>,
    n: Seq<NodeModel>,
    k: int,
    policy: XmlAttributeWhitespacePolicy,
    v: XmlVersion,
) -> bool {
    &&& raw.len() == k
    &&& k <= n.len()
    &&& forall|m: int|
        0 <= m < k ==> materialized(s, #[trigger] raw[m], v, policy) == Ok::<
            NodeModel,
            ErrorModel,
        >(n[m])
}

/// Nodes that mean `n` are decoded to `n`.
proof fn lemma_nodes_decoded(
    s: Seq<char>,
    raw: Seq<RawTree>,
    n: Seq<NodeModel>,
    k: int,
    policy: XmlAttributeWhitespacePolicy,
    v: XmlVersion,
)
    requires
        nodes_mean(s, raw, n, n.len() as int, policy, v),
        0 <= k <= n.len(),
    ensures
        materialized_from(s, raw, k, v, policy, n.take(k)) == Ok::<
            Seq<NodeModel>,
            ErrorModel,
        >(n),
    decreases n.len() - k,
{
    if k < n.len() {
        lemma_nodes_decoded(s, raw, n, k + 1, policy, v);
        assert(materialized(s, raw[k], v, policy) == Ok::<NodeModel, ErrorModel>(
            n[k],
        ));
        assert(n.take(k).push(n[k]) =~= n.take(k + 1));
    } else {
        assert(n.take(k) =~= n);
    }
}

/// One more node.
proof fn lemma_nodes_mean_push(
    s: Seq<char>,
    raw: Seq<RawTree>,
    n: Seq<NodeModel>,
    k: int,
    x: RawTree,
    policy: XmlAttributeWhitespacePolicy,
    v: XmlVersion,
)
    requires
        nodes_mean(s, raw, n, k, policy, v),
        0 <= k < n.len(),
        materialized(s, x, v, policy) == Ok::<NodeModel, ErrorModel>(n[k]),
    ensures
        nodes_mean(s, raw.push(x), n, k + 1, policy, v),
{
    let after = raw.push(x);
    assert forall|m: int| 0 <= m < k + 1 implies materialized(
        s,
        #[trigger] after[m],
        v,
        policy,
    ) == Ok::<NodeModel, ErrorModel>(n[m]) by {
        if m < k {
            assert(after[m] == raw[m]);
        }
    }
}

/// Only a text begins with anything but markup.
proof fn lemma_node_text_start(n: NodeModel, q: XmlQuoteStyle)
    requires
        n !is Text,
    ensures
        node_text(n, q).len() > 0,
        node_text(n, q)[0] == '<',
{
    reveal_strlit("<![CDATA[");
    reveal_strlit("<!--");
    reveal_strlit("<?");
}

/// A comment, a CDATA section or an instruction is read back.
proof fn lemma_markup_read(
    s: Seq<char>,
    i: int,
    n: NodeModel,
    q: XmlQuoteStyle,
    policy: XmlAttributeWhitespacePolicy,
    v: XmlVersion,
) -> (leaf: RawTree)
    requires
        n is Comment || n is Cdata || n is ProcessingInstruction,
        writable(n, 0, v),
        starts_at(s, i, node_text(n, q)),
    ensures
        markup_leaf(s, i, preserving_config(), v) == Ok::<
            (Option<RawTree>, int),
            FaultModel,
        >((Some(leaf), i + node_text(n, q).len())),
        materialized(s, leaf, v, policy) == Ok::<NodeModel, ErrorModel>(n),
        node_text(n, q).len() > 0,
        0 <= i,
        i + node_text(n, q).len() <= s.len(),
        i + 1 < s.len(),
        s[i] == '<',
        s[i + 1] == '!' || s[i + 1] == '?',
{
    reveal_strlit("<!--");
    reveal_strlit("-->");
    reveal_strlit("<![CDATA[");
    reveal_strlit("]]>");
    reveal_strlit("<?");
    reveal_strlit("?>");
    if starts_at(s, i, "<!--"@) {
        lemma_starts_index(s, i, "<!--"@);
        assert("<!--"@[1] == s[i + 1]);
        assert("<!--"@[2] == s[i + 2]);
    }
    if starts_at(s, i, "<![CDATA["@) {
        lemma_starts_index(s, i, "<![CDATA["@);
        assert("<![CDATA["@[1] == s[i + 1]);
    }
    match n {
        NodeModel::Comment(t) => {
            lemma_comment_read(s, i, t, v);
            lemma_normalized(t, false, v);
            RawTree::Leaf {
                span: (i, i + t.len() + 7),
                kind: XmlNodeKind::Comment,
                primary: (i + 4, i + t.len() + 4),
                secondary: (0, 0),
            }
        },
        NodeModel::Cdata(t) => {
            lemma_cdata_plain(t, 0, Seq::empty());
            assert(t.subrange(0, t.len() as int) =~= t);
            assert(Seq::<char>::empty() + t =~= t);
            lemma_cdata_read(s, i, t);
            lemma_normalized(t, false, v);
            let e = i + 9 + t.len();
            let p = if i + 9 < e {
                (i + 9, e)
            } else {
                (0int, 0int)
            };
            assert(s.subrange(p.0, p.1) =~= t);
            RawTree::Leaf {
                span: (i, e + 3),
                kind: XmlNodeKind::Cdata,
                primary: p,
                secondary: (0, 0),
            }
        },
        NodeModel::ProcessingInstruction(x) => {
            lemma_instruction_read(s, i, x, v);
            lemma_normalized(x.data, false, v);
            let t = i + 2 + x.target.len();
            let data = if x.data.len() == 0 {
                t
            } else {
                t + 1
            };
            let end = i + instruction_text(x).len();
            RawTree::Leaf {
                span: (i, end),
                kind: XmlNodeKind::ProcessingInstruction,
                primary: (i + 2, t),
                secondary: (data, end - 2),
            }
        },
        _ => arbitrary(),
    }
}

/// Content goes on behind a text.
proof fn lemma_content_after_text(
    s: Seq<char>,
    p: int,
    next: int,
    name: Seq<char>,
    depth: int,
    r: Resolver,
    acc: Seq<RawTree>,
    spent: int,
    v: XmlVersion,
)
    requires
        0 <= p < next <= s.len(),
        s[p] != '<',
        text_end(s, p, preserving_config(), v, r, spent) == Ok::<
            (int, int),
            FaultModel,
        >((next, spent)),
    ensures
        content(s, p, preserving_config(), v, r, name, depth, acc, spent)
            == content(
            s,
            next,
            preserving_config(),
            v,
            r,
            name,
            depth,
            acc.push(
                RawTree::Leaf {
                    span: (p, next),
                    kind: XmlNodeKind::Text,
                    primary: (p, next),
                    secondary: (0, 0),
                },
            ),
            spent,
        ),
{
}

/// Content goes on behind a comment, a CDATA section or an instruction.
proof fn lemma_content_after_markup(
    s: Seq<char>,
    p: int,
    next: int,
    leaf: RawTree,
    name: Seq<char>,
    depth: int,
    r: Resolver,
    acc: Seq<RawTree>,
    spent: int,
    v: XmlVersion,
)
    requires
        0 <= p < next <= s.len(),
        p + 1 < s.len(),
        s[p] == '<',
        s[p + 1] == '!' || s[p + 1] == '?',
        markup_leaf(s, p, preserving_config(), v) == Ok::<
            (Option<RawTree>, int),
            FaultModel,
        >((Some(leaf), next)),
    ensures
        content(s, p, preserving_config(), v, r, name, depth, acc, spent)
            == content(
            s,
            next,
            preserving_config(),
            v,
            r,
            name,
            depth,
            acc.push(leaf),
            spent,
        ),
{
}

/// Content goes on behind an element.
proof fn lemma_content_after_element(
    s: Seq<char>,
    p: int,
    next: int,
    child: RawTree,
    name: Seq<char>,
    depth: int,
    r: Resolver,
    acc: Seq<RawTree>,
    spent: int,
    v: XmlVersion,
)
    requires
        0 <= p < next <= s.len(),
        p + 1 < s.len(),
        s[p] == '<',
        name_start(s[p + 1]),
        depth < MAX_DOM_DEPTH,
        element(s, p, preserving_config(), v, r, depth + 1, spent) == Ok::<
            (RawTree, int, int),
            FaultModel,
        >((child, next, spent)),
    ensures
        content(s, p, preserving_config(), v, r, name, depth, acc, spent)
            == content(
            s,
            next,
            preserving_config(),
            v,
            r,
            name,
            depth,
            acc.push(child),
            spent,
        ),
{
}

/// Content ends at its end tag.
proof fn lemma_content_end(
    s: Seq<char>,
    e: int,
    name: Seq<char>,
    depth: int,
    r: Resolver,
    acc: Seq<RawTree>,
    spent: int,
    v: XmlVersion,
)
    requires
        valid_name(name),
        starts_at(s, e, "</"@ + name + seq!['>']),
    ensures
        content(s, e, preserving_config(), v, r, name, depth, acc, spent) == Ok::<
            (Seq<RawTree>, int, int),
            FaultModel,
        >((acc, e + name.len() + 3, spent)),
{
    let m = e + 2 + name.len();
    reveal_strlit("</");
    reveal_strlit(">");
    lemma_starts_split(s, e, "</"@ + name, seq!['>']);
    lemma_starts_split(s, e, "</"@, name);
    lemma_starts_index(s, e, "</"@);
    assert("</"@[0] == s[e + 0]);
    assert("</"@[1] == s[e + 1]);
    lemma_starts_char(s, m, '>');
    assert(">"@ =~= seq!['>']);
    lemma_name_read(s, e + 2, name);
    assert(blank_end(s, m, v) == m);
    assert(end_tag_end(s, e + 2, name, v) == Ok::<int, FaultModel>(m + 1));
}

/// The start tag of an element is read back, up to its close.
proof fn lemma_start_tag_read(
    s: Seq<char>,
    i: int,
    e: ElementModel,
    q: XmlQuoteStyle,
    r: Resolver,
    spent: int,
    policy: XmlAttributeWhitespacePolicy,
    v: XmlVersion,
) -> (raw: Seq<RawAttribute>)
    requires
        valid_name(e.name),
        writable_attributes(e.attributes, v),
        starts_at(
            s,
            i,
            seq!['<'] + e.name + attributes_text(e.attributes, e.attributes.len() as int, q),
        ),
        tag_close_at(
            s,
            i + 1 + e.name.len() + attributes_text(
                e.attributes,
                e.attributes.len() as int,
                q,
            ).len(),
        ),
        policy != XmlAttributeWhitespacePolicy::NormalizeAndCollapse,
    ensures
        ({
            let k = i + 1 + e.name.len();
            let j = k + attributes_text(e.attributes, e.attributes.len() as int, q).len();
            &&& 0 <= i
            &&& expected(s, i, "<"@) == Ok::<int, FaultModel>(i + 1)
            &&& name_end(s, i + 1) == Ok::<int, FaultModel>(k)
            &&& s.subrange(i + 1, k) == e.name
            &&& attributes_from(
                s,
                k,
                preserving_config(),
                v,
                r,
                Seq::empty(),
                spent,
            ) == Ok::<(Seq<RawAttribute>, int, int), FaultModel>((raw, j, spent))
            &&& attribute_values_from(s, raw, 0, v, policy, Seq::empty()) == Ok::<
                Seq<AttributeModel>,
                ErrorModel,
            >(e.attributes)
        }),
{
    let n = e.attributes.len() as int;
    let at = attributes_text(e.attributes, n, q);
    let lt = seq!['<'];
    lemma_starts_split(s, i, lt + e.name, at);
    lemma_starts_split(s, i, lt, e.name);
    reveal_strlit("<");
    assert("<"@ =~= lt);
    let k = i + 1 + e.name.len();
    let j = k + at.len();
    assert(k < s.len() ==> !name_part(s[k])) by {
        if n == 0 {
            assert(at.len() == 0);
            reveal_strlit("/>");
            if starts_at(s, j, "/>"@) {
                lemma_starts_index(s, j, "/>"@);
                assert("/>"@[0] == s[j + 0]);
            }
        } else {
            lemma_attributes_text_prefix(s, k, e.attributes, 1, n, q);
            let x = attribute_text(e.attributes[0], q);
            assert(attributes_text(e.attributes, 0, q).len() == 0);
            lemma_starts_split(s, k, attributes_text(e.attributes, 0, q), x);
            lemma_starts_index(s, k, x);
            assert(x[0] == ' ');
            assert(x[0] == s[k + 0]);
        }
    }
    lemma_name_read(s, i + 1, e.name);
    assert(attributes_text(e.attributes, 0, q).len() == 0);
    let raw = lemma_attributes_text_read(
        s,
        k,
        e.attributes,
        0,
        q,
        r,
        Seq::empty(),
        spent,
        policy,
        v,
    );
    lemma_attribute_values(s, raw, e.attributes, 0, policy, v);
    assert(e.attributes.take(0) =~= Seq::<AttributeModel>::empty());
    raw
}

/// The steps in which an element without children is read.
proof fn lemma_empty_element_steps(
    s: Seq<char>,
    i: int,
    k: int,
    j: int,
    raw: Seq<RawAttribute>,
    depth: int,
    r: Resolver,
    spent: int,
    v: XmlVersion,
)
    requires
        expected(s, i, "<"@) == Ok::<int, FaultModel>(i + 1),
        name_end(s, i + 1) == Ok::<int, FaultModel>(k),
        attributes_from(s, k, preserving_config(), v, r, Seq::empty(), spent) == Ok::<
            (Seq<RawAttribute>, int, int),
            FaultModel,
        >((raw, j, spent)),
        starts_at(s, j, "/>"@),
    ensures
        element(s, i, preserving_config(), v, r, depth, spent) == Ok::<
            (RawTree, int, int),
            FaultModel,
        >(
            (
                RawTree::Element {
                    span: (i, j + 2),
                    name: (i + 1, k),
                    attributes: raw,
                    children: Seq::empty(),
                },
                j + 2,
                spent,
            ),
        ),
{
}

/// The steps in which an element with children is read.
proof fn lemma_element_steps(
    s: Seq<char>,
    i: int,
    k: int,
    j: int,
    raw: Seq<RawAttribute>,
    below: Seq<RawTree>,
    end: int,
    depth: int,
    r: Resolver,
    spent: int,
    v: XmlVersion,
)
    requires
        0 <= i <= j < s.len(),
        expected(s, i, "<"@) == Ok::<int, FaultModel>(i + 1),
        name_end(s, i + 1) == Ok::<int, FaultModel>(k),
        attributes_from(s, k, preserving_config(), v, r, Seq::empty(), spent) == Ok::<
            (Seq<RawAttribute>, int, int),
            FaultModel,
        >((raw, j, spent)),
        s[j] == '>',
        content(
            s,
            j + 1,
            preserving_config(),
            v,
            r,
            s.subrange(i + 1, k),
            depth,
            Seq::empty(),
            spent,
        ) == Ok::<(Seq<RawTree>, int, int), FaultModel>((below, end, spent)),
    ensures
        element(s, i, preserving_config(), v, r, depth, spent) == Ok::<
            (RawTree, int, int),
            FaultModel,
        >(
            (
                RawTree::Element {
                    span: (i, end),
                    name: (i + 1, k),
                    attributes: raw,
                    children: below,
                },
                end,
                spent,
            ),
        ),
{
    reveal_strlit("/>");
    reveal_strlit(">");
    if starts_at(s, j, "/>"@) {
        lemma_starts_index(s, j, "/>"@);
        assert("/>"@[0] == s[j + 0]);
    }
    assert(s.subrange(j, j + 1) =~= ">"@);
}

/// An element whose parts are decoded is decoded.
proof fn lemma_element_means(
    s: Seq<char>,
    e: ElementModel,
    span: (int, int),
    name: (int, int),
    raw: Seq<RawAttribute>,
    below: Seq<RawTree>,
    policy: XmlAttributeWhitespacePolicy,
    v: XmlVersion,
)
    requires
        s.subrange(name.0, name.1) == e.name,
        attribute_values_from(s, raw, 0, v, policy, Seq::empty()) == Ok::<
            Seq<AttributeModel>,
            ErrorModel,
        >(e.attributes),
        materialized_from(s, below, 0, v, policy, Seq::empty()) == Ok::<
            Seq<NodeModel>,
            ErrorModel,
        >(e.children),
    ensures
        materialized(
            s,
            RawTree::Element { span, name, attributes: raw, children: below },
            v,
            policy,
        ) == Ok::<NodeModel, ErrorModel>(NodeModel::Element(e)),
{
    let x = ElementModel { name: e.name, attributes: e.attributes, children: e.children };
    assert(x == e);
}

/// An element without children is read back.
proof fn lemma_empty_element_read(
    s: Seq<char>,
    i: int,
    e: ElementModel,
    depth: int,
    q: XmlQuoteStyle,
    r: Resolver,
    spent: int,
    policy: XmlAttributeWhitespacePolicy,
    v: XmlVersion,
) -> (tree: RawTree)
    requires
        valid_name(e.name),
        writable_attributes(e.attributes, v),
        e.children.len() == 0,
        starts_at(s, i, node_text(NodeModel::Element(e), q)),
        policy != XmlAttributeWhitespacePolicy::NormalizeAndCollapse,
    ensures
        element(s, i, preserving_config(), v, r, depth, spent) == Ok::<
            (RawTree, int, int),
            FaultModel,
        >((tree, i + node_text(NodeModel::Element(e), q).len(), spent)),
        materialized(s, tree, v, policy) == Ok::<NodeModel, ErrorModel>(NodeModel::Element(e)),
{
    let head = seq!['<'] + e.name + attributes_text(e.attributes, e.attributes.len() as int, q);
    let k = i + 1 + e.name.len();
    let j = i + head.len();
    lemma_starts_split(s, i, head, "/>"@);
    let raw = lemma_start_tag_read(s, i, e, q, r, spent, policy, v);
    assert(e.children =~= Seq::<NodeModel>::empty());
    assert("/>"@.len() == 2) by {
        reveal_strlit("/>");
    }
    lemma_empty_element_steps(s, i, k, j, raw, depth, r, spent, v);
    lemma_element_means(s, e, (i, j + 2), (i + 1, k), raw, Seq::empty(), policy, v);
    RawTree::Element {
        span: (i, j + 2),
        name: (i + 1, k),
        attributes: raw,
        children: Seq::empty(),
    }
}

/// Where the parts of an element with children stand.
proof fn lemma_element_parts(s: Seq<char>, i: int, e: ElementModel, q: XmlQuoteStyle)
    requires
        e.children.len() > 0,
        starts_at(s, i, node_text(NodeModel::Element(e), q)),
    ensures
        ({
            let head = seq!['<'] + e.name + attributes_text(
                e.attributes,
                e.attributes.len() as int,
                q,
            );
            let j = i + head.len();
            let inner = nodes_text(e.children, e.children.len() as int, q);
            &&& 0 <= i <= j < s.len()
            &&& starts_at(s, i, head)
            &&& s[j] == '>'
            &&& starts_at(s, j + 1, inner + ("</"@ + e.name + seq!['>']))
            &&& node_text(NodeModel::Element(e), q).len() == head.len() + 1 + inner.len()
                + e.name.len() + 3
        }),
{
    let head = seq!['<'] + e.name + attributes_text(e.attributes, e.attributes.len() as int, q);
    let j = i + head.len();
    let inner = nodes_text(e.children, e.children.len() as int, q);
    let close = "</"@ + e.name + seq!['>'];
    let gt = seq!['>'];
    assert(gt + inner + "</"@ + e.name + gt =~= gt + (inner + close));
    lemma_starts_split(s, i, head, gt + (inner + close));
    lemma_starts_split(s, j, gt, inner + close);
    lemma_starts_char(s, j, '>');
    assert("</"@.len() == 2) by {
        reveal_strlit("</");
    }
}

/// An element whose content is read back is read back.
proof fn lemma_parent_read(
    s: Seq<char>,
    i: int,
    e: ElementModel,
    below: Seq<RawTree>,
    depth: int,
    q: XmlQuoteStyle,
    r: Resolver,
    spent: int,
    policy: XmlAttributeWhitespacePolicy,
    v: XmlVersion,
) -> (tree: RawTree)
    requires
        valid_name(e.name),
        writable_attributes(e.attributes, v),
        e.children.len() > 0,
        starts_at(s, i, node_text(NodeModel::Element(e), q)),
        policy != XmlAttributeWhitespacePolicy::NormalizeAndCollapse,
        content(
            s,
            i + 2 + e.name.len() + attributes_text(
                e.attributes,
                e.attributes.len() as int,
                q,
            ).len(),
            preserving_config(),
            v,
            r,
            e.name,
            depth,
            Seq::empty(),
            spent,
        ) == Ok::<(Seq<RawTree>, int, int), FaultModel>(
            (below, i + node_text(NodeModel::Element(e), q).len(), spent),
        ),
        nodes_mean(s, below, e.children, e.children.len() as int, policy, v),
    ensures
        element(s, i, preserving_config(), v, r, depth, spent) == Ok::<
            (RawTree, int, int),
            FaultModel,
        >((tree, i + node_text(NodeModel::Element(e), q).len(), spent)),
        materialized(s, tree, v, policy) == Ok::<NodeModel, ErrorModel>(NodeModel::Element(e)),
{
    let head = seq!['<'] + e.name + attributes_text(e.attributes, e.attributes.len() as int, q);
    let k = i + 1 + e.name.len();
    let j = i + head.len();
    let end = i + node_text(NodeModel::Element(e), q).len();
    lemma_element_parts(s, i, e, q);
    let raw = lemma_start_tag_read(s, i, e, q, r, spent, policy, v);
    lemma_nodes_decoded(s, below, e.children, 0, policy, v);
    assert(e.children.take(0) =~= Seq::<NodeModel>::empty());
    lemma_element_steps(s, i, k, j, raw, below, end, depth, r, spent, v);
    lemma_element_means(s, e, (i, end), (i + 1, k), raw, below, policy, v);
    RawTree::Element { span: (i, end), name: (i + 1, k), attributes: raw, children: below }
}

/// An element is read back.
pub proof fn lemma_element_read(
    s: Seq<char>,
    i: int,
    e: ElementModel,
    depth: int,
    q: XmlQuoteStyle,
    r: Resolver,
    spent: int,
    policy: XmlAttributeWhitespacePolicy,
    v: XmlVersion,
) -> (tree: RawTree)
    requires
        writable(NodeModel::Element(e), depth, v),
        starts_at(s, i, node_text(NodeModel::Element(e), q)),
        policy != XmlAttributeWhitespacePolicy::NormalizeAndCollapse,
    ensures
        element(s, i, preserving_config(), v, r, depth, spent) == Ok::<
            (RawTree, int, int),
            FaultModel,
        >((tree, i + node_text(NodeModel::Element(e), q).len(), spent)),
        materialized(s, tree, v, policy) == Ok::<NodeModel, ErrorModel>(NodeModel::Element(e)),
    decreases e, 0int,
{
    if e.children.len() == 0 {
        lemma_empty_element_read(s, i, e, depth, q, r, spent, policy, v)
    } else {
        let at = attributes_text(e.attributes, e.attributes.len() as int, q);
        let inner = i + 2 + e.name.len() + at.len();
        lemma_element_parts(s, i, e, q);
        assert(nodes_text(e.children, 0, q).len() == 0);
        let below = lemma_content_read(
            s,
            inner,
            e.children,
            0,
            e.name,
            depth,
            q,
            r,
            Seq::empty(),
            spent,
            policy,
            v,
        );
        lemma_parent_read(s, i, e, below, depth, q, r, spent, policy, v)
    }
}

/// What follows a text in the content of an element begins with markup.
proof fn lemma_behind_text(
    s: Seq<char>,
    i: int,
    n: Seq<NodeModel>,
    k: int,
    name: Seq<char>,
    q: XmlQuoteStyle,
)
    requires
        0 <= k < n.len(),
        n[k] is Text,
        no_adjacent_texts(n),
        starts_at(s, i, nodes_text(n, n.len() as int, q) + ("</"@ + name + seq!['>'])),
    ensures
        i + nodes_text(n, k + 1, q).len() < s.len(),
        s[i + nodes_text(n, k + 1, q).len()] == '<',
{
    let all = nodes_text(n, n.len() as int, q);
    let close = "</"@ + name + seq!['>'];
    let next = i + nodes_text(n, k + 1, q).len();
    lemma_starts_split(s, i, all, close);
    if k + 1 < n.len() {
        lemma_nodes_text_prefix(s, i, n, k + 2, n.len() as int, q);
        let u = node_text(n[k + 1], q);
        lemma_starts_split(s, i, nodes_text(n, k + 1, q), u);
        assert(!(n[k] is Text && n[k + 1] is Text));
        lemma_node_text_start(n[k + 1], q);
        lemma_starts_index(s, next, u);
        assert(u[0] == s[next + 0]);
    } else {
        reveal_strlit("</");
        lemma_starts_index(s, next, close);
        assert(close[0] == '<');
        assert(close[0] == s[next + 0]);
    }
}

/// The content of an element is read back from its `k`-th node on.
proof fn lemma_content_read(
    s: Seq<char>,
    i: int,
    n: Seq<NodeModel>,
    k: int,
    name: Seq<char>,
    depth: int,
    q: XmlQuoteStyle,
    r: Resolver,
    acc: Seq<RawTree>,
    spent: int,
    policy: XmlAttributeWhitespacePolicy,
    v: XmlVersion,
) -> (raw: Seq<RawTree>)
    requires
        0 <= k <= n.len(),
        valid_name(name),
        1 <= depth <= MAX_DOM_DEPTH,
        forall|m: int| 0 <= m < n.len() ==> writable(#[trigger] n[m], depth + 1, v),
        no_adjacent_texts(n),
        starts_at(s, i, nodes_text(n, n.len() as int, q) + ("</"@ + name + seq!['>'])),
        nodes_mean(s, acc, n, k, policy, v),
        policy != XmlAttributeWhitespacePolicy::NormalizeAndCollapse,
    ensures
        content(
            s,
            i + nodes_text(n, k, q).len(),
            preserving_config(),
            v,
            r,
            name,
            depth,
            acc,
            spent,
        ) == Ok::<(Seq<RawTree>, int, int), FaultModel>(
            (raw, i + nodes_text(n, n.len() as int, q).len() + name.len() + 3, spent),
        ),
        nodes_mean(s, raw, n, n.len() as int, policy, v),
    decreases n, n.len() - k,
{
    let p = i + nodes_text(n, k, q).len();
    let all = nodes_text(n, n.len() as int, q);
    lemma_starts_split(s, i, all, "</"@ + name + seq!['>']);
    if k == n.len() {
        lemma_content_end(s, p, name, depth, r, acc, spent, v);
        acc
    } else {
        lemma_nodes_text_prefix(s, i, n, k + 1, n.len() as int, q);
        let t = node_text(n[k], q);
        lemma_starts_split(s, i, nodes_text(n, k, q), t);
        let next = p + t.len();
        assert(next == i + nodes_text(n, k + 1, q).len());
        assert(writable(n[k], depth + 1, v));
        let node = match n[k] {
            NodeModel::Text(x) => {
                lemma_behind_text(s, i, n, k, name, q);
                lemma_text_child_read(s, p, x, name, depth, r, acc, spent, policy, v)
            },
            NodeModel::Element(x) => {
                let child = lemma_element_read(s, p, x, depth + 1, q, r, spent, policy, v);
                lemma_element_start(s, p, x, q);
                lemma_content_after_element(s, p, next, child, name, depth, r, acc, spent, v);
                child
            },
            _ => {
                let leaf = lemma_markup_read(s, p, n[k], q, policy, v);
                lemma_content_after_markup(s, p, next, leaf, name, depth, r, acc, spent, v);
                leaf
            },
        };
        lemma_nodes_mean_push(s, acc, n, k, node, policy, v);
        lemma_content_read(s, i, n, k + 1, name, depth, q, r, acc.push(node), spent, policy, v)
    }
}

/// An element starts with its name.
pub proof fn lemma_element_start(s: Seq<char>, i: int, e: ElementModel, q: XmlQuoteStyle)
    requires
        valid_name(e.name),
        starts_at(s, i, node_text(NodeModel::Element(e), q)),
    ensures
        0 <= i,
        i + 1 < s.len(),
        s[i] == '<',
        name_start(s[i + 1]),
        node_text(NodeModel::Element(e), q).len() > 1,
        i + node_text(NodeModel::Element(e), q).len() <= s.len(),
{
    let t = node_text(NodeModel::Element(e), q);
    lemma_starts_index(s, i, t);
    assert(t[0] == '<');
    assert(t[0] == s[i + 0]);
    assert(t[1] == e.name[0]);
    assert(t[1] == s[i + 1]);
}

/// A text in the content of an element is read back.
proof fn lemma_text_child_read(
    s: Seq<char>,
    p: int,
    x: Seq<char>,
    name: Seq<char>,
    depth: int,
    r: Resolver,
    acc: Seq<RawTree>,
    spent: int,
    policy: XmlAttributeWhitespacePolicy,
    v: XmlVersion,
) -> (leaf: RawTree)
    requires
        x.len() > 0,
        clean(x, v),
        starts_at(s, p, escaped_text(x)),
        p + escaped_text(x).len() < s.len(),
        s[p + escaped_text(x).len()] == '<',
    ensures
        content(s, p, preserving_config(), v, r, name, depth, acc, spent)
            == content(
            s,
            p + escaped_text(x).len(),
            preserving_config(),
            v,
            r,
            name,
            depth,
            acc.push(leaf),
            spent,
        ),
        materialized(s, leaf, v, policy) == Ok::<NodeModel, ErrorModel>(
            NodeModel::Text(x),
        ),
{
    let t = escaped_text(x);
    let next = p + t.len();
    lemma_escaped_text_chars(x, v);
    lemma_starts_index(s, p, t);
    assert(t[0] == s[p + 0]);
    lemma_text_read(s, p, x, r, spent, v);
    lemma_text_round_trip(x, policy, v);
    lemma_content_after_text(s, p, next, name, depth, r, acc, spent, v);
    assert(s.subrange(p, next) == t);
    RawTree::Leaf {
        span: (p, next),
        kind: XmlNodeKind::Text,
        primary: (p, next),
        secondary: (0, 0),
    }
}

} // verus!
