//! White space around words, declarations that are passed over, and the text of what a query finds.

use vstd::prelude::*;

use crate::access::{attribute_value, node_value};
use crate::encoding::{byte_space, is_encoding_name, strip_end, strip_start, stripped, white_space};
use crate::entities::unicode_space;
use crate::facade::{target, StateModel};
use crate::handle::DomErrorModel;
use crate::query::{joined_text, string_value_of, XmlDomXPathNode};
use crate::recovery::{doctype_close, tag_end};
use crate::text::starts_at;
use crate::tree::TreeModel;
use crate::unescape::lemma_starts_index;

verus! {

/// White space is the same everywhere.
pub proof fn lemma_same_white_space(c: char)
    ensures
        white_space(c) == unicode_space(c),
{
}

/// Stripping takes the white space at both ends, and nothing else.
pub proof fn lemma_stripped_texts(a: Seq<char>, w: Seq<char>, b: Seq<char>)
    requires
        forall|k: int| 0 <= k < a.len() ==> white_space(#[trigger] a[k]),
        forall|k: int| 0 <= k < b.len() ==> white_space(#[trigger] b[k]),
        w.len() > 0 ==> !white_space(w[0]) && !white_space(w.last()),
    ensures
        w.len() > 0 ==> stripped(a + w + b) == w,
        stripped(a) == Seq::<char>::empty(),
{
    if w.len() > 0 {
        let s = a + w + b;
        let n = a.len() as int;
        let m = n + w.len();
        assert forall|k: int| 0 <= k < n implies white_space(#[trigger] s[k]) by {
            assert(s[k] == a[k]);
        }
        assert(s[n] == w[0]);
        assert(s[m - 1] == w.last());
        lemma_strip_start(s, 0, n);
        assert forall|k: int| m <= k < s.len() implies white_space(#[trigger] s[k]) by {
            assert(s[k] == b[k - m]);
        }
        lemma_strip_end(s, n, m, s.len() as int);
        assert(s.subrange(n, m) =~= w);
    }
    lemma_strip_start(a, 0, a.len() as int);
}

proof fn lemma_strip_start(s: Seq<char>, i: int, n: int)
    requires
        0 <= i <= n <= s.len(),
        forall|k: int| 0 <= k < n ==> white_space(#[trigger] s[k]),
        n < s.len() ==> !white_space(s[n]),
    ensures
        strip_start(s, i) == n,
    decreases n - i,
{
    if i < n {
        lemma_strip_start(s, i + 1, n);
    }
}

proof fn lemma_strip_end(s: Seq<char>, from: int, m: int, to: int)
    requires
        0 <= from < m <= to <= s.len(),
        forall|k: int| m <= k < s.len() ==> white_space(#[trigger] s[k]),
        !white_space(s[m - 1]),
    ensures
        strip_end(s, from, to) == m,
    decreases to - m,
{
    if m < to {
        assert(white_space(s[to - 1]));
        lemma_strip_end(s, from, m, to - 1);
    }
}

/// A tag ends at the first angle bracket that is not quoted.
pub proof fn lemma_end_of_a_tag(s: Seq<char>, i: int, j: int, q: char)
    requires
        0 <= i <= j < s.len(),
        q == '"' || q == '\'',
    ensures
        (forall|k: int| i <= k < j ==> #[trigger] s[k] != '"' && s[k] != '\'' && s[k] != '>') ==> {
            &&& s[j] == '>' ==> tag_end(s, i, None) == Some(j + 1)
            &&& s[j] == q ==> tag_end(s, i, None) == tag_end(s, j + 1, Some(q))
        },
        (forall|k: int| i <= k < j ==> #[trigger] s[k] != q) && s[j] == q ==> tag_end(s, i, Some(q))
            == tag_end(s, j + 1, None),
    decreases j - i,
{
    if i < j {
        lemma_end_of_a_tag(s, i + 1, j, q);
    }
}

/// A document type declaration ends at the first angle bracket that is neither quoted nor inside
/// of square brackets.
pub proof fn lemma_end_of_a_doctype(s: Seq<char>, i: int, j: int, q: char, depth: int)
    requires
        0 <= i <= j < s.len(),
        q == '"' || q == '\'',
        depth >= 0,
    ensures
        (forall|k: int|
            i <= k < j ==> #[trigger] s[k] != '"' && s[k] != '\'' && s[k] != '<' && s[k] != '['
                && s[k] != ']' && (depth > 0 || s[k] != '>')) ==> {
            &&& s[j] == '>' && depth == 0 ==> doctype_close(s, i, None, depth) == Some(j + 1)
            &&& s[j] == q ==> doctype_close(s, i, None, depth) == doctype_close(
                s,
                j + 1,
                Some(q),
                depth,
            )
            &&& s[j] == '[' ==> doctype_close(s, i, None, depth) == doctype_close(
                s,
                j + 1,
                None,
                depth + 1,
            )
            &&& s[j] == ']' && depth > 0 ==> doctype_close(s, i, None, depth) == doctype_close(
                s,
                j + 1,
                None,
                depth - 1,
            )
        },
        (forall|k: int| i <= k < j ==> #[trigger] s[k] != q) && s[j] == q ==> doctype_close(
            s,
            i,
            Some(q),
            depth,
        ) == doctype_close(s, j + 1, None, depth),
    decreases j - i,
{
    if s[i] != '<' {
        lemma_no_section(s, i);
    }
    if i < j {
        lemma_end_of_a_doctype(s, i + 1, j, q, depth);
    }
}

proof fn lemma_no_section(s: Seq<char>, i: int)
    requires
        0 <= i < s.len(),
        s[i] != '<',
    ensures
        !starts_at(s, i, "<!--"@),
        !starts_at(s, i, "<?"@),
{
    reveal_strlit("<!--");
    reveal_strlit("<?");
    if starts_at(s, i, "<!--"@) {
        lemma_starts_index(s, i, "<!--"@);
        assert("<!--"@[0] == s[i + 0]);
    }
    if starts_at(s, i, "<?"@) {
        lemma_starts_index(s, i, "<?"@);
        assert("<?"@[0] == s[i + 0]);
    }
}

/// The name of the setting that gives an encoding, in small letters or capitals.
pub proof fn lemma_encoding_setting(b: Seq<u8>, x: u8)
    ensures
        is_encoding_name(b) <==> {
            &&& b.len() == 8
            &&& b[0] == 0x65 || b[0] == 0x45
            &&& b[1] == 0x6e || b[1] == 0x4e
            &&& b[2] == 0x63 || b[2] == 0x43
            &&& b[3] == 0x6f || b[3] == 0x4f
            &&& b[4] == 0x64 || b[4] == 0x44
            &&& b[5] == 0x69 || b[5] == 0x49
            &&& b[6] == 0x6e || b[6] == 0x4e
            &&& b[7] == 0x67 || b[7] == 0x47
        },
        byte_space(x) <==> x == 0x20 || x == 0x09 || x == 0x0a || x == 0x0d,
{
}

/// The text of what a query finds: of an element all text below it, of an attribute its value, of
/// another node its own, of a namespace its name.
pub proof fn lemma_string_values(s: StateModel, x: XmlDomXPathNode, t: TreeModel, v: Seq<char>)
    ensures
        x matches XmlDomXPathNode::Element(n) ==> (target(s, n@) == Ok::<TreeModel, DomErrorModel>(
            t,
        ) ==> string_value_of(s, x) == joined_text(t, s.reading)),
        x matches XmlDomXPathNode::Attribute { owner, name } ==> (target(s, owner@) == Ok::<
            TreeModel,
            DomErrorModel,
        >(t) ==> {
            &&& attribute_value(t, name@, s.reading) == Ok::<Option<Seq<char>>, DomErrorModel>(
                Some(v),
            ) ==> string_value_of(s, x) == Ok::<Seq<char>, DomErrorModel>(v)
            &&& attribute_value(t, name@, s.reading) == Ok::<Option<Seq<char>>, DomErrorModel>(
                None,
            ) ==> string_value_of(s, x) == Ok::<Seq<char>, DomErrorModel>(Seq::empty())
        }),
        x matches XmlDomXPathNode::Text(n) ==> (target(s, n@) == Ok::<TreeModel, DomErrorModel>(t)
            && node_value(t, s.reading) == Ok::<Option<Seq<char>>, DomErrorModel>(Some(v))
            ==> string_value_of(s, x) == Ok::<Seq<char>, DomErrorModel>(v)),
        x matches XmlDomXPathNode::Comment(n) ==> (target(s, n@) == Ok::<TreeModel, DomErrorModel>(
            t,
        ) && node_value(t, s.reading) == Ok::<Option<Seq<char>>, DomErrorModel>(Some(v))
            ==> string_value_of(s, x) == Ok::<Seq<char>, DomErrorModel>(v)),
        x matches XmlDomXPathNode::ProcessingInstruction(n) ==> (target(s, n@) == Ok::<
            TreeModel,
            DomErrorModel,
        >(t) && node_value(t, s.reading) == Ok::<Option<Seq<char>>, DomErrorModel>(Some(v))
            ==> string_value_of(s, x) == Ok::<Seq<char>, DomErrorModel>(v)),
        x matches XmlDomXPathNode::Namespace { uri, .. } ==> string_value_of(s, x) == Ok::<
            Seq<char>,
            DomErrorModel,
        >(uri@),
{
}

} // verus!
