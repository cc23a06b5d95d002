//! What is escaped reads back as it was.

use vstd::prelude::*;

use crate::config::preserving_config;
use crate::dtd::{character_reference_tail, digits_end};
use crate::error::FaultModel;
use crate::grammar::{attribute_rest, reference, text_end, Resolver};
use crate::lexeme::{
    decoded_from, digit_value, lexeme_value, normalized, normalized_char, normalized_from, number,
    number_from, numeric_reference, predefined_entity, reference_char, xml11_line_end,
    CompactLexemeKind, XmlAttributeWhitespacePolicy, XmlVersion,
};
use crate::mutation::tree_char;
use crate::scan::{name_end, name_part_end};
use crate::serialize::{
    attribute_escape, escaped_attribute, escaped_text, quote_char, text_escape, XmlQuoteStyle,
};
use crate::syntax::{name_part, valid_name};
use crate::text::{find_char_from, starts_at};

verus! {

/// A character that a document of the given version can hold as it stands and that is not taken
/// for the end of a line.
pub open spec fn clean_char(c: char, v: XmlVersion) -> bool {
    &&& tree_char(c)
    &&& v == XmlVersion::Xml11 ==> !(0x7f <= c as u32 <= 0x9f) && c != '\u{2028}'
}

/// A text of such characters.
pub open spec fn clean(s: Seq<char>, v: XmlVersion) -> bool {
    forall|i: int| 0 <= i < s.len() ==> clean_char(#[trigger] s[i], v)
}

/// A text without anything that stands for the end of a line, other than line feeds.
pub open spec fn unbroken(s: Seq<char>, v: XmlVersion) -> bool {
    forall|k: int|
        0 <= k < s.len() ==> #[trigger] s[k] != '\r' && !(v == XmlVersion::Xml11 && xml11_line_end(
            s[k],
        ))
}

/// Two texts one behind the other stand at `i`.
pub proof fn lemma_starts_split(s: Seq<char>, i: int, a: Seq<char>, b: Seq<char>)
    ensures
        starts_at(s, i, a + b) == (starts_at(s, i, a) && starts_at(s, i + a.len(), b)),
{
    let n = a.len() as int;
    let m = b.len() as int;
    if starts_at(s, i, a + b) {
        let w = s.subrange(i, i + (a + b).len());
        assert(w == a + b);
        assert(s.subrange(i, i + n) =~= w.subrange(0, n));
        assert((a + b).subrange(0, n) =~= a);
        assert(s.subrange(i + n, i + n + m) =~= w.subrange(n, n + m));
        assert((a + b).subrange(n, n + m) =~= b);
    }
    if starts_at(s, i, a) && starts_at(s, i + n, b) {
        assert(s.subrange(i, i + n + m) =~= s.subrange(i, i + n) + s.subrange(i + n, i + n + m));
    }
}

/// The characters of a text that stands at `i`.
pub proof fn lemma_starts_index(s: Seq<char>, i: int, t: Seq<char>)
    requires
        starts_at(s, i, t),
    ensures
        0 <= i,
        i + t.len() <= s.len(),
        forall|k: int| 0 <= k < t.len() ==> #[trigger] t[k] == s[i + k],
{
    let w = s.subrange(i, i + t.len());
    assert forall|k: int| 0 <= k < t.len() implies #[trigger] t[k] == s[i + k] by {
        assert(w[k] == s[i + k]);
    }
}

/// One character stands at `i`.
pub proof fn lemma_starts_char(s: Seq<char>, i: int, c: char)
    ensures
        starts_at(s, i, seq![c]) == (0 <= i < s.len() && s[i] == c),
{
    if 0 <= i < s.len() && s[i] == c {
        assert(s.subrange(i, i + 1) =~= seq![c]);
    }
    if starts_at(s, i, seq![c]) {
        lemma_starts_index(s, i, seq![c]);
        assert(seq![c][0] == s[i + 0]);
    }
}

/// The escaped text begins with its escaped first character.
pub proof fn lemma_escaped_text_first(t: Seq<char>)
    requires
        t.len() > 0,
    ensures
        escaped_text(t) == text_escape(t[0]) + escaped_text(t.drop_first()),
    decreases t.len(),
{
    let rest = t.drop_first();
    if t.len() == 1 {
        assert(t.drop_last() =~= Seq::<char>::empty());
        assert(rest =~= Seq::<char>::empty());
        assert(escaped_text(t.drop_last()) =~= Seq::<char>::empty());
        assert(escaped_text(t) =~= text_escape(t[0]) + escaped_text(rest));
    } else {
        lemma_escaped_text_first(t.drop_last());
        assert(t.drop_last().drop_first() =~= rest.drop_last());
        assert(escaped_text(t) =~= text_escape(t[0]) + escaped_text(rest));
    }
}

/// The escaped attribute value begins with its escaped first character.
pub proof fn lemma_escaped_attribute_first(t: Seq<char>, q: XmlQuoteStyle)
    requires
        t.len() > 0,
    ensures
        escaped_attribute(t, q) == attribute_escape(t[0], q) + escaped_attribute(
            t.drop_first(),
            q,
        ),
    decreases t.len(),
{
    let rest = t.drop_first();
    if t.len() == 1 {
        assert(t.drop_last() =~= Seq::<char>::empty());
        assert(rest =~= Seq::<char>::empty());
        assert(escaped_attribute(t.drop_last(), q) =~= Seq::<char>::empty());
        assert(escaped_attribute(t, q) =~= attribute_escape(t[0], q) + escaped_attribute(rest, q));
    } else {
        lemma_escaped_attribute_first(t.drop_last(), q);
        assert(t.drop_last().drop_first() =~= rest.drop_last());
        assert(escaped_attribute(t, q) =~= attribute_escape(t[0], q) + escaped_attribute(rest, q));
    }
}

/// The name characters of a text, up to one that is none.
proof fn lemma_name_part_end(s: Seq<char>, i: int, end: int)
    requires
        0 <= i <= end <= s.len(),
        forall|k: int| i <= k < end ==> name_part(#[trigger] s[k]),
        end < s.len() ==> !name_part(s[end]),
    ensures
        name_part_end(s, i) == end,
    decreases end - i,
{
    if i < end {
        lemma_name_part_end(s, i + 1, end);
    }
}

/// A name is read up to a character that cannot continue it.
pub proof fn lemma_name_read(s: Seq<char>, i: int, n: Seq<char>)
    requires
        valid_name(n),
        starts_at(s, i, n),
        i + n.len() < s.len() ==> !name_part(s[i + n.len()]),
    ensures
        name_end(s, i) == Ok::<int, FaultModel>(i + n.len()),
        s.subrange(i, i + n.len()) == n,
{
    lemma_starts_index(s, i, n);
    assert(n[0] == s[i + 0]);
    assert forall|k: int| i + 1 <= k < i + n.len() implies name_part(#[trigger] s[k]) by {
        assert(n[k - i] == s[i + (k - i)]);
    }
    lemma_name_part_end(s, i + 1, i + n.len());
}

/// The references that escaping writes: the text of each and the character it stands for.
pub open spec fn written_reference(t: Seq<char>, c: char) -> bool {
    ||| (t == "&amp;"@ && c == '&')
    ||| (t == "&lt;"@ && c == '<')
    ||| (t == "&gt;"@ && c == '>')
    ||| (t == "&quot;"@ && c == '"')
    ||| (t == "&apos;"@ && c == '\'')
    ||| (t == "&#xD;"@ && c == '\r')
    ||| (t == "&#xA;"@ && c == '\n')
    ||| (t == "&#x9;"@ && c == '\t')
}

/// The name inside of a reference stands for its character.
pub proof fn lemma_reference_char(t: Seq<char>, c: char, at: int, v: XmlVersion)
    requires
        written_reference(t, c),
    ensures
        t.len() >= 4,
        t[0] == '&',
        t.last() == ';',
        forall|k: int| 0 <= k < t.len() - 1 ==> #[trigger] t[k] != ';',
        forall|k: int| 0 <= k < t.len() ==> #[trigger] t[k] != '<' && t[k] != '>'
            && t[k] != '\r' && t[k]
            != '\t' && t[k] != '\n' && t[k] != '"' && t[k] != '\'' && clean_char(t[k], v),
        forall|k: int| 0 < k < t.len() ==> #[trigger] t[k] != '&',
        reference_char(t.subrange(1, t.len() - 1), v, at) == Ok::<char, FaultModel>(
            c,
        ),
{
    reveal_strlit("&amp;");
    reveal_strlit("&lt;");
    reveal_strlit("&gt;");
    reveal_strlit("&quot;");
    reveal_strlit("&apos;");
    reveal_strlit("&#xD;");
    reveal_strlit("&#xA;");
    reveal_strlit("&#x9;");
    reveal_strlit("amp");
    reveal_strlit("lt");
    reveal_strlit("gt");
    reveal_strlit("quot");
    reveal_strlit("apos");
    reveal_strlit("#x");
    reveal_strlit("#");
    let n = t.subrange(1, t.len() - 1);
    assert("amp"@.len() == 3 && "lt"@.len() == 2 && "gt"@.len() == 2);
    assert("quot"@.len() == 4 && "apos"@.len() == 4);
    assert("&amp;"@[1] == 'a' && "&lt;"@[1] == 'l' && "&gt;"@[1] == 'g' && "&quot;"@[1] == 'q');
    assert("&apos;"@[1] == 'a' && "&#xD;"@[1] == '#' && "&#xA;"@[1] == '#' && "&#x9;"@[1] == '#');
    assert("&amp;"@.len() != "&apos;"@.len());
    assert("&#xD;"@[3] == 'D' && "&#xA;"@[3] == 'A' && "&#x9;"@[3] == '9');
    if t == "&amp;"@ {
        assert(n =~= "amp"@);
    } else if t == "&lt;"@ {
        assert(n =~= "lt"@);
        assert(n.len() != "amp"@.len());
    } else if t == "&gt;"@ {
        assert(n =~= "gt"@);
        assert(n.len() != "amp"@.len());
        assert(n[0] != "lt"@[0]);
    } else if t == "&quot;"@ {
        assert(n =~= "quot"@);
        assert(n[0] != "apos"@[0]);
    } else if t == "&apos;"@ {
        assert(n =~= "apos"@);
    } else {
        assert(n[0] == '#');
        assert(n.len() == 3);
        assert(n[0] != "amp"@[0]);
        assert(n.subrange(0, 2) =~= "#x"@);
        let d = n.subrange(2, 3);
        assert(number_from(d, 1, 16, digit_value(d[0], 16)->Some_0) == digit_value(d[0], 16));
        assert(number(d, 16) == Some(c as int));
        assert(numeric_reference(d, 16, v) == Some(c));
        assert(predefined_entity(n) is None);
        assert(starts_at(n, 0, "#x"@));
    }
}

/// A reference that escaping writes, as the grammar reads it.
proof fn lemma_reference_read(s: Seq<char>, i: int, t: Seq<char>, c: char, r: Resolver, spent: int, v: XmlVersion)
    requires
        written_reference(t, c),
        starts_at(s, i, t),
    ensures
        reference(s, i, v, r, spent) == Ok::<(Seq<char>, int, int), FaultModel>(
            (seq![c], i + t.len(), spent),
        ),
{
    lemma_starts_index(s, i, t);
    lemma_reference_char(t, c, i, v);
    let e = i + t.len();
    let n = t.subrange(1, t.len() - 1);
    assert(s.subrange(i + 1, e - 1) =~= n) by {
        assert forall|k: int| 0 <= k < n.len() implies s.subrange(i + 1, e - 1)[k] == n[k] by {
            assert(s[i + 1 + k] == t[1 + k]);
        }
    }
    reveal_strlit("&#");
    reveal_strlit(";");
    assert(t[0] == s[i + 0]);
    assert(t[1] == s[i + 1]);
    assert(t[t.len() - 1] == s[i + (t.len() - 1)]);
    assert(s[e - 1] == ';');
    assert(s.subrange(e - 1, e) =~= ";"@);
    reveal_strlit("&amp;");
    reveal_strlit("&lt;");
    reveal_strlit("&gt;");
    reveal_strlit("&quot;");
    reveal_strlit("&apos;");
    reveal_strlit("&#xD;");
    reveal_strlit("&#xA;");
    reveal_strlit("&#x9;");
    reveal_strlit("amp");
    reveal_strlit("lt");
    reveal_strlit("gt");
    reveal_strlit("quot");
    reveal_strlit("apos");
    if t[1] == '#' {
        assert(s.subrange(i, i + 2) =~= "&#"@);
        reveal_strlit("x");
        assert(t[2] == s[i + 2]);
        assert(t[3] == s[i + 3]);
        assert(s.subrange(i + 2, i + 3) =~= "x"@);
        assert(e == i + 5);
        assert(digits_end(s, i + 4, 16) == i + 4);
        assert(digits_end(s, i + 3, 16) == i + 4);
        let d = s.subrange(i + 3, i + 4);
        assert(number_from(d, 1, 16, digit_value(d[0], 16)->Some_0) == digit_value(d[0], 16));
        assert(number(d, 16) == Some(c as int));
        assert(numeric_reference(d, 16, v) == Some(c));
        assert(character_reference_tail(s, i + 2, v) == Ok::<int, FaultModel>(e));
    } else {
        if starts_at(s, i, "&#"@) {
            lemma_starts_index(s, i, "&#"@);
            assert("&#"@[1] == s[i + 1]);
        }
        assert(valid_name(n)) by {
            assert(n[0] == t[1]);
            assert forall|k: int| 0 <= k < n.len() implies name_part(#[trigger] n[k]) by {
                assert(n[k] == t[k + 1]);
            }
        }
        assert(starts_at(s, i + 1, n));
        lemma_name_read(s, i + 1, n);
    }
}

/// How a character of a text is written: as itself, or as a reference to it.
pub proof fn lemma_text_escape(c: char)
    ensures
        (text_escape(c) == seq![c] && c != '&' && c != '<' && c != '>' && c != '\r')
            || written_reference(text_escape(c), c),
{
}

/// How a character of an attribute value is written: as itself, or as a reference to it.
pub proof fn lemma_attribute_escape(c: char, q: XmlQuoteStyle)
    ensures
        (attribute_escape(c, q) == seq![c] && c != '&' && c != '<' && c != '\r' && c != '\t' && c
            != '\n' && c != quote_char(q)) || written_reference(attribute_escape(c, q), c),
{
}

/// The characters of an escaped text.
pub proof fn lemma_escaped_text_chars(t: Seq<char>, v: XmlVersion)
    requires
        clean(t, v),
    ensures
        escaped_text(t).len() >= t.len(),
        forall|k: int|
            0 <= k < escaped_text(t).len() ==> #[trigger] escaped_text(t)[k] != '<' && escaped_text(
                t,
            )[k] != '>' && escaped_text(t)[k] != '\r' && clean_char(escaped_text(t)[k], v),
    decreases t.len(),
{
    if t.len() > 0 {
        lemma_escaped_text_chars(t.drop_last(), v);
        lemma_text_escape(t.last());
        if written_reference(text_escape(t.last()), t.last()) {
            lemma_reference_char(text_escape(t.last()), t.last(), 0, v);
        }
        let a = escaped_text(t.drop_last());
        let b = text_escape(t.last());
        assert forall|k: int| 0 <= k < (a + b).len() implies #[trigger] (a + b)[k] != '<' && (a
            + b)[k] != '>' && (a + b)[k] != '\r' && clean_char((a + b)[k], v) by {
            if k < a.len() {
                assert((a + b)[k] == a[k]);
            } else {
                assert((a + b)[k] == b[k - a.len()]);
            }
        }
    }
}

/// The characters of an escaped attribute value.
pub proof fn lemma_escaped_attribute_chars(t: Seq<char>, q: XmlQuoteStyle, v: XmlVersion)
    requires
        clean(t, v),
    ensures
        forall|k: int|
            0 <= k < escaped_attribute(t, q).len() ==> #[trigger] escaped_attribute(t, q)[k] != '<'
                && escaped_attribute(t, q)[k] != '\r' && escaped_attribute(t, q)[k] != '\t'
                && escaped_attribute(t, q)[k] != '\n' && escaped_attribute(t, q)[k] != quote_char(q)
                && clean_char(escaped_attribute(t, q)[k], v),
    decreases t.len(),
{
    if t.len() > 0 {
        lemma_escaped_attribute_chars(t.drop_last(), q, v);
        lemma_attribute_escape(t.last(), q);
        if written_reference(attribute_escape(t.last(), q), t.last()) {
            lemma_reference_char(attribute_escape(t.last(), q), t.last(), 0, v);
        }
        let a = escaped_attribute(t.drop_last(), q);
        let b = attribute_escape(t.last(), q);
        assert forall|k: int| 0 <= k < (a + b).len() implies #[trigger] (a + b)[k] != '<' && (a
            + b)[k] != '\r' && (a + b)[k] != '\t' && (a + b)[k] != '\n'
                && (a + b)[k] != quote_char(q)
            && clean_char((a + b)[k], v) by {
            if k < a.len() {
                assert((a + b)[k] == a[k]);
            } else {
                assert((a + b)[k] == b[k - a.len()]);
            }
        }
    }
}

/// Character data that was escaped ends in front of the next markup.
pub proof fn lemma_text_read(s: Seq<char>, i: int, t: Seq<char>, r: Resolver, spent: int, v: XmlVersion)
    requires
        clean(t, v),
        starts_at(s, i, escaped_text(t)),
        i + escaped_text(t).len() < s.len(),
        s[i + escaped_text(t).len()] == '<',
    ensures
        text_end(s, i, preserving_config(), v, r, spent) == Ok::<
            (int, int),
            FaultModel,
        >((i + escaped_text(t).len(), spent)),
    decreases t.len(),
{
    let end = i + escaped_text(t).len();
    if t.len() > 0 {
        let a = text_escape(t[0]);
        let rest = t.drop_first();
        lemma_escaped_text_chars(t, v);
        lemma_starts_index(s, i, escaped_text(t));
        lemma_escaped_text_first(t);
        lemma_starts_split(s, i, a, escaped_text(rest));
        lemma_text_escape(t[0]);
        assert(clean(rest, v)) by {
            assert forall|k: int| 0 <= k < rest.len() implies clean_char(#[trigger] rest[k], v) by {
                assert(rest[k] == t[k + 1]);
            }
        }
        lemma_text_read(s, i + a.len(), rest, r, spent, v);
        if written_reference(a, t[0]) {
            lemma_reference_char(a, t[0], 0, v);
            lemma_starts_index(s, i, a);
            assert(a[0] == s[i + 0]);
            lemma_reference_read(s, i, a, t[0], r, spent, v);
        } else {
            lemma_starts_char(s, i, t[0]);
            reveal_strlit("]]>");
            if starts_at(s, i, "]]>"@) {
                lemma_starts_index(s, i, "]]>"@);
                assert("]]>"@[1] == s[i + 1]);
                assert("]]>"@[2] == s[i + 2]);
                if i + 2 < end {
                    assert(escaped_text(t)[2] == s[i + 2]);
                }
            }
        }
    }
}

/// An attribute value that was escaped ends at its closing quotation mark and is read back.
pub proof fn lemma_attribute_read(
    s: Seq<char>,
    i: int,
    t: Seq<char>,
    q: XmlQuoteStyle,
    r: Resolver,
    before: Seq<char>,
    spent: int,
    v: XmlVersion,
)
    requires
        clean(t, v),
        starts_at(s, i, escaped_attribute(t, q)),
        i + escaped_attribute(t, q).len() < s.len(),
        s[i + escaped_attribute(t, q).len()] == quote_char(q),
    ensures
        attribute_rest(
            s,
            i,
            quote_char(q),
            preserving_config(),
            v,
            r,
            before,
            spent,
        ) == Ok::<(Seq<char>, int, int), FaultModel>(
            (before + t, i + escaped_attribute(t, q).len(), spent),
        ),
    decreases t.len(),
{
    if t.len() == 0 {
        assert(before + t =~= before);
    } else {
        let a = attribute_escape(t[0], q);
        let rest = t.drop_first();
        lemma_escaped_attribute_first(t, q);
        lemma_starts_split(s, i, a, escaped_attribute(rest, q));
        lemma_attribute_escape(t[0], q);
        assert(clean(rest, v)) by {
            assert forall|k: int| 0 <= k < rest.len() implies clean_char(#[trigger] rest[k], v) by {
                assert(rest[k] == t[k + 1]);
            }
        }
        if written_reference(a, t[0]) {
            lemma_attribute_read(s, i + a.len(), rest, q, r, before + seq![t[0]], spent, v);
            lemma_reference_char(a, t[0], 0, v);
            lemma_starts_index(s, i, a);
            assert(a[0] == s[i + 0]);
            lemma_reference_read(s, i, a, t[0], r, spent, v);
            assert(before + seq![t[0]] + rest =~= before + t);
        } else {
            lemma_attribute_read(s, i + a.len(), rest, q, r, before.push(t[0]), spent, v);
            lemma_starts_char(s, i, t[0]);
            assert(before.push(t[0]) + rest =~= before + t);
        }
    }
}

/// Normalization goes character by character where there is no carriage return.
proof fn lemma_normalized_from(s: Seq<char>, i: int, attribute: bool, out: Seq<char>, v: XmlVersion)
    requires
        0 <= i <= s.len(),
        unbroken(s, v),
    ensures
        normalized_from(s, i, v, attribute, out) == out + Seq::new(
            (s.len() - i) as nat,
            |k: int| normalized_char(s[i + k], v, attribute),
        ),
    decreases s.len() - i,
{
    let f = |k: int| normalized_char(s[i + k], v, attribute);
    if i == s.len() {
        assert(out + Seq::new(0nat, f) =~= out);
    } else {
        let c = normalized_char(s[i], v, attribute);
        lemma_normalized_from(s, i + 1, attribute, out.push(c), v);
        let g = |k: int| normalized_char(s[i + 1 + k], v, attribute);
        assert(out.push(c) + Seq::new((s.len() - i - 1) as nat, g) =~= out + Seq::new(
            (s.len() - i) as nat,
            f,
        ));
    }
}

/// A text without a carriage return, normalized.
pub proof fn lemma_normalized(s: Seq<char>, attribute: bool, v: XmlVersion)
    requires
        unbroken(s, v),
    ensures
        normalized(s, v, attribute).len() == s.len(),
        forall|k: int|
            0 <= k < s.len() ==> #[trigger] normalized(s, v, attribute)[k]
                == normalized_char(s[k], v, attribute),
        !attribute ==> normalized(s, v, attribute) == s,
{
    lemma_normalized_from(s, 0, attribute, Seq::empty(), v);
    if !attribute {
        assert(normalized(s, v, attribute) =~= s);
    }
}

/// Where a character stands, `find_char_from` finds nothing before it.
pub proof fn lemma_find_char(s: Seq<char>, i: int, k: int, c: char)
    requires
        0 <= i <= k < s.len(),
        s[k] == c,
        forall|j: int| i <= j < k ==> #[trigger] s[j] != c,
    ensures
        find_char_from(s, i, c) == Some(k),
    decreases k - i,
{
    if i < k {
        lemma_find_char(s, i + 1, k, c);
    }
}

/// What `find_char_from` finds lies in range.
proof fn lemma_found_char(s: Seq<char>, i: int, c: char)
    requires
        0 <= i <= s.len(),
    ensures
        find_char_from(s, i, c) matches Some(k) ==> i <= k < s.len() && s[k] == c,
    decreases s.len() - i,
{
    if i < s.len() && s[i] != c {
        lemma_found_char(s, i + 1, c);
    }
}

/// Decoding steps over a character that is no reference.
proof fn lemma_decoded_char(s: Seq<char>, i: int, attribute: bool, out: Seq<char>, v: XmlVersion)
    requires
        0 <= i < s.len(),
        s[i] != '&',
        unbroken(s, v),
    ensures
        decoded_from(s, i, v, attribute, out) == decoded_from(
            s,
            i + 1,
            v,
            attribute,
            out.push(normalized_char(s[i], v, attribute)),
        ),
{
    let c = normalized_char(s[i], v, attribute);
    lemma_found_char(s, i + 1, '&');
    let end = match find_char_from(s, i + 1, '&') {
        None => s.len() as int,
        Some(r) => r,
    };
    let x = s.subrange(i, end);
    let y = s.subrange(i + 1, end);
    lemma_normalized(x, attribute, v);
    lemma_normalized(y, attribute, v);
    assert(out + normalized(x, v, attribute) =~= out.push(c) + normalized(y, v, attribute)) by {
        assert forall|k: int| 0 <= k < y.len() implies normalized(x, v, attribute)[k + 1]
            == normalized(y, v, attribute)[k] by {
            assert(x[k + 1] == y[k]);
        }
        assert(x[0] == s[i]);
        let a = out + normalized(x, v, attribute);
        let b = out.push(c) + normalized(y, v, attribute);
        assert forall|k: int| 0 <= k < a.len() implies a[k] == b[k] by {
            if k > out.len() {
                assert(normalized(x, v, attribute)[(k - out.len() - 1) + 1] == normalized(
                    y,
                    v,
                    attribute,
                )[k - out.len() - 1]);
            }
        }
    }
    assert(find_char_from(s, i, '&') == find_char_from(s, i + 1, '&'));
    match find_char_from(s, i + 1, '&') {
        None => {
            assert(decoded_from(s, i, v, attribute, out) == Ok::<Seq<char>, FaultModel>(
                out + normalized(x, v, attribute),
            ));
        },
        Some(r) => {
            assert(x == s.subrange(i, r));
            assert(y == s.subrange(i + 1, r));
            lemma_found_char(s, r + 1, ';');
        },
    }
}

/// Decoding steps over a reference.
proof fn lemma_decoded_reference(
    s: Seq<char>,
    i: int,
    t: Seq<char>,
    c: char,
    attribute: bool,
    out: Seq<char>,
    v: XmlVersion,
)
    requires
        written_reference(t, c),
        starts_at(s, i, t),
    ensures
        decoded_from(s, i, v, attribute, out) == decoded_from(
            s,
            i + t.len(),
            v,
            attribute,
            out.push(c),
        ),
{
    lemma_starts_index(s, i, t);
    lemma_reference_char(t, c, i, v);
    let e = i + t.len() - 1;
    assert(t[0] == s[i + 0]);
    assert(t[t.len() - 1] == s[i + (t.len() - 1)]);
    lemma_find_char(s, i, i, '&');
    assert forall|j: int| i + 1 <= j < e implies #[trigger] s[j] != ';' by {
        assert(t[j - i] == s[i + (j - i)]);
    }
    lemma_find_char(s, i + 1, e, ';');
    assert(s.subrange(i + 1, e) =~= t.subrange(1, t.len() - 1)) by {
        let a = s.subrange(i + 1, e);
        let b = t.subrange(1, t.len() - 1);
        assert forall|k: int| 0 <= k < t.len() - 2 implies a[k] == b[k] by {
            assert(s[i + (k + 1)] == t[k + 1]);
        }
    }
    assert(normalized(s.subrange(i, i), v, attribute) =~= Seq::<char>::empty());
    assert(out + normalized(s.subrange(i, i), v, attribute) =~= out);
}

/// The rest of an escaped text decodes to the rest of the text.
proof fn lemma_decoded_text(s: Seq<char>, i: int, t: Seq<char>, out: Seq<char>, v: XmlVersion)
    requires
        starts_at(s, i, escaped_text(t)),
        i + escaped_text(t).len() == s.len(),
        unbroken(s, v),
    ensures
        decoded_from(s, i, v, false, out) == Ok::<Seq<char>, FaultModel>(out + t),
    decreases t.len(),
{
    if t.len() == 0 {
        let e = s.subrange(i, s.len() as int);
        assert(normalized(e, v, false) =~= Seq::<char>::empty());
        assert(out + Seq::<char>::empty() =~= out + t);
    } else {
        let a = text_escape(t[0]);
        let rest = t.drop_first();
        lemma_escaped_text_first(t);
        lemma_starts_split(s, i, a, escaped_text(rest));
        lemma_text_escape(t[0]);
        lemma_decoded_text(s, i + a.len(), rest, out.push(t[0]), v);
        assert(out.push(t[0]) + rest =~= out + t);
        if written_reference(a, t[0]) {
            lemma_decoded_reference(s, i, a, t[0], false, out, v);
        } else {
            lemma_starts_char(s, i, t[0]);
            lemma_decoded_char(s, i, false, out, v);
        }
    }
}

/// The rest of an escaped attribute value decodes to the rest of the value.
proof fn lemma_decoded_attribute(
    s: Seq<char>,
    i: int,
    t: Seq<char>,
    q: XmlQuoteStyle,
    out: Seq<char>,
    v: XmlVersion,
)
    requires
        starts_at(s, i, escaped_attribute(t, q)),
        i + escaped_attribute(t, q).len() == s.len(),
        unbroken(s, v),
    ensures
        decoded_from(s, i, v, true, out) == Ok::<Seq<char>, FaultModel>(out + t),
    decreases t.len(),
{
    if t.len() == 0 {
        let e = s.subrange(i, s.len() as int);
        assert(normalized(e, v, true) =~= Seq::<char>::empty());
        assert(out + Seq::<char>::empty() =~= out + t);
    } else {
        let a = attribute_escape(t[0], q);
        let rest = t.drop_first();
        lemma_escaped_attribute_first(t, q);
        lemma_starts_split(s, i, a, escaped_attribute(rest, q));
        lemma_attribute_escape(t[0], q);
        lemma_decoded_attribute(s, i + a.len(), rest, q, out.push(t[0]), v);
        assert(out.push(t[0]) + rest =~= out + t);
        if written_reference(a, t[0]) {
            lemma_decoded_reference(s, i, a, t[0], true, out, v);
        } else {
            lemma_starts_char(s, i, t[0]);
            lemma_decoded_char(s, i, true, out, v);
        }
    }
}

/// A text that was escaped decodes to itself.
pub proof fn lemma_text_round_trip(t: Seq<char>, policy: XmlAttributeWhitespacePolicy, v: XmlVersion)
    requires
        clean(t, v),
    ensures
        lexeme_value(escaped_text(t), CompactLexemeKind::Text, v, policy) == Ok::<
            Seq<char>,
            FaultModel,
        >(t),
{
    let s = escaped_text(t);
    lemma_escaped_text_chars(t, v);
    assert(s.subrange(0, s.len() as int) =~= s);
    lemma_decoded_text(s, 0, t, Seq::empty(), v);
    assert(Seq::<char>::empty() + t =~= t);
}

/// An attribute value that was escaped decodes to itself, unless white space is collapsed.
pub proof fn lemma_attribute_round_trip(
    t: Seq<char>,
    q: XmlQuoteStyle,
    policy: XmlAttributeWhitespacePolicy,
    v: XmlVersion,
)
    requires
        clean(t, v),
        policy != XmlAttributeWhitespacePolicy::NormalizeAndCollapse,
    ensures
        lexeme_value(
            escaped_attribute(t, q),
            CompactLexemeKind::Attribute,
            v,
            policy,
        ) == Ok::<Seq<char>, FaultModel>(t),
{
    let s = escaped_attribute(t, q);
    lemma_escaped_attribute_chars(t, q, v);
    assert(s.subrange(0, s.len() as int) =~= s);
    lemma_decoded_attribute(s, 0, t, q, Seq::empty(), v);
    assert(Seq::<char>::empty() + t =~= t);
}

} // verus!
