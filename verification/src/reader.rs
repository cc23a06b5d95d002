//! Reading elements into lists of nodes.

use vstd::prelude::*;
use vstd::slice::slice_subrange;

use crate::config::{ParserConfig, XmlTextWhitespacePolicy};
use crate::dom::XmlNodeKind;
use crate::dtd::{name_among, parse_character_reference_tail};
use crate::error::{Fault, FaultModel, XmlErrorKind};
use crate::grammar::{
    attribute, attribute_names, attribute_rest, attribute_value, attributes_from, blank, blank_end,
    content, element, end_tag_end, flat_models, flat_tree, flat_trees, markup_leaf, positions,
    raw_attributes, reference, tag_close_at, text_end, text_leaf, tree_attributes, trees_attributes,
    trim_end, trim_start, trimmed, with_leaf, EntityResolver, FlatAttribute, FlatModel, FlatNode,
    RawAttribute, RawTree, MAX_DOM_DEPTH,
};
use crate::lexeme::{decode_predefined_entity, decode_reference, XmlVersion};
use crate::scan::{
    agrees, expect, expected, read_comment, read_instruction_data_start, read_instruction_tail,
    read_name, read_target,
};
use crate::syntax::is_space;
use crate::text::{find_text, push_between, same_chars, spells, starts_with, string_between};

verus! {

/// Is `c` white space of the given version?
pub(crate) fn is_blank(c: char, v: XmlVersion) -> (r: bool)
    ensures
        r == blank(c, v),
{
    is_space(c) || (v == XmlVersion::Xml11 && (c == '\u{85}' || c == '\u{2028}'))
}

/// Skips the white space at `i`.
pub(crate) fn skip_blank(s: &[char], i: usize, v: XmlVersion) -> (r: usize)
    requires
        i <= s@.len(),
    ensures
        r == blank_end(s@, i as int, v),
        i <= r <= s@.len(),
{
    let mut k: usize = i;
    while k < s.len() && is_blank(s[k], v)
        invariant
            i <= k <= s@.len(),
            blank_end(s@, i as int, v) == blank_end(s@, k as int, v),
        decreases s.len() - k,
    {
        k = k + 1;
    }
    k
}

/// Reads the reference at `i`.
fn read_reference<R: EntityResolver>(
    s: &[char],
    i: usize,
    v: XmlVersion,
    r: &R,
    spent: usize,
) -> (res: Result<(Vec<char>, usize, usize), Fault>)
    requires
        i < s@.len(),
    ensures
        match res {
            Ok((text, k, after)) => reference(s@, i as int, v, r.resolver(), spent as int) == Ok::<
                (Seq<char>, int, int),
                FaultModel,
            >((text@, k as int, after as int)) && i < k <= s@.len(),
            Err(f) => reference(s@, i as int, v, r.resolver(), spent as int) == Err::<
                (Seq<char>, int, int),
                FaultModel,
            >(f@) && f.at <= s@.len(),
        },
{
    proof {
        reveal_strlit("&#");
        reveal_strlit(";");
        assert(s.len() == s@.len());
    }
    if starts_with(s, i, "&#") {
        match parse_character_reference_tail(s, i + 2, v) {
            Err(f) => Err(f),
            Ok(k) => match decode_reference(slice_subrange(s, i + 1, k - 1), v, i) {
                Err(f) => Err(f),
                Ok(c) => {
                    let mut text: Vec<char> = Vec::new();
                    text.push(c);
                    proof {
                        assert(text@ =~= seq![c]);
                    }
                    Ok((text, k, spent))
                },
            },
        }
    } else {
        match read_name(s, i + 1) {
            Err(f) => Err(f),
            Ok(j) => match expect(s, j, ";") {
                Err(f) => Err(f),
                Ok(k) => {
                    let name = slice_subrange(s, i + 1, j);
                    match decode_predefined_entity(name) {
                        Some(c) => {
                            let mut text: Vec<char> = Vec::new();
                            text.push(c);
                            proof {
                                assert(text@ =~= seq![c]);
                            }
                            Ok((text, k, spent))
                        },
                        None => match r.resolve(name, spent) {
                            Err(kind) => Err(Fault { kind, at: i }),
                            Ok((text, after)) => Ok((text, k, after)),
                        },
                    }
                },
            },
        }
    }
}

/// Reads the character data at `i`.
fn read_text<R: EntityResolver>(
    s: &[char],
    i: usize,
    c: &ParserConfig,
    v: XmlVersion,
    r: &R,
    spent: usize,
) -> (res: Result<(usize, usize), Fault>)
    requires
        i <= s@.len(),
    ensures
        match res {
            Ok((k, after)) => text_end(s@, i as int, c@, v, r.resolver(), spent as int) == Ok::<
                (int, int),
                FaultModel,
            >((k as int, after as int)) && i <= k <= s@.len() && (i < s@.len() && s@[i as int]
                != '<' ==> i < k),
            Err(f) => text_end(s@, i as int, c@, v, r.resolver(), spent as int) == Err::<
                (int, int),
                FaultModel,
            >(f@) && f.at <= s@.len(),
        },
{
    let mut k: usize = i;
    let mut used: usize = spent;
    while k < s.len()
        invariant
            i <= k <= s@.len(),
            i < s@.len() && s@[i as int] != '<' ==> i < k || k == i,
            text_end(s@, i as int, c@, v, r.resolver(), spent as int) == text_end(
                s@,
                k as int,
                c@,
                v,
                r.resolver(),
                used as int,
            ),
        decreases s.len() - k,
    {
        if s[k] == '<' {
            return Ok((k, used));
        }
        if s[k] == '&' && c.validates_references() {
            match read_reference(s, k, v, r, used) {
                Err(f) => {
                    return Err(f);
                },
                Ok((_, next, after)) => {
                    k = next;
                    used = after;
                },
            }
        } else if starts_with(s, k, "]]>") {
            return Err(Fault { kind: XmlErrorKind::UnexpectedToken, at: k });
        } else {
            k = k + 1;
        }
    }
    Ok((k, used))
}

/// Reads the attribute value at `i`.
fn read_attribute_value<R: EntityResolver>(
    s: &[char],
    i: usize,
    c: &ParserConfig,
    v: XmlVersion,
    r: &R,
    spent: usize,
) -> (res: Result<(Vec<char>, usize, usize), Fault>)
    requires
        i <= s@.len(),
    ensures
        match res {
            Ok((text, close, after)) => attribute_value(s@, i as int, c@, v, r.resolver(), spent as int)
                == Ok::<(Seq<char>, int, int), FaultModel>((text@, close as int, after as int)) && i
                < close < s@.len(),
            Err(f) => attribute_value(s@, i as int, c@, v, r.resolver(), spent as int) == Err::<
                (Seq<char>, int, int),
                FaultModel,
            >(f@) && f.at <= s@.len(),
        },
{
    if !(i < s.len() && (s[i] == '"' || s[i] == '\'')) {
        return Err(Fault { kind: XmlErrorKind::Expected("quoted literal"), at: i });
    }
    let quote = s[i];
    let mut text: Vec<char> = Vec::new();
    let mut k: usize = i + 1;
    let mut used: usize = spent;
    while k < s.len()
        invariant
            i < k <= s@.len(),
            attribute_value(s@, i as int, c@, v, r.resolver(), spent as int) == attribute_rest(
                s@,
                k as int,
                quote,
                c@,
                v,
                r.resolver(),
                text@,
                used as int,
            ),
        decreases s.len() - k,
    {
        if s[k] == quote {
            return Ok((text, k, used));
        }
        if s[k] == '<' {
            return Err(Fault { kind: XmlErrorKind::InvalidAttributeValue, at: k });
        }
        if s[k] == '&' && c.validates_references() {
            match read_reference(s, k, v, r, used) {
                Err(f) => {
                    return Err(f);
                },
                Ok((t, next, after)) => {
                    proof {
                        assert(t@.subrange(0, t@.len() as int) =~= t@);
                    }
                    push_between(&mut text, t.as_slice(), 0, t.len());
                    k = next;
                    used = after;
                },
            }
        } else {
            text.push(s[k]);
            k = k + 1;
        }
    }
    Err(Fault { kind: XmlErrorKind::UnexpectedEof, at: k })
}

/// Is the name `from..to` that of one of the attributes from `first` on?
fn is_duplicate(s: &[char], a: &Vec<FlatAttribute>, first: usize, from: usize, to: usize) -> (r:
    bool)
    requires
        first <= a@.len(),
        from <= to <= s@.len(),
        forall|k: int|
            first <= k < a@.len() ==> (#[trigger] a@[k]).name.0 <= a@[k].name.1 <= s@.len(),
    ensures
        r == name_among(
            attribute_names(s@, raw_attributes(a@).skip(first as int)),
            s@.subrange(from as int, to as int),
        ),
{
    let name = slice_subrange(s, from, to);
    let ghost names = attribute_names(s@, raw_attributes(a@).skip(first as int));
    let mut k: usize = first;
    while k < a.len()
        invariant
            first <= k <= a@.len(),
            name@ == s@.subrange(from as int, to as int),
            names == attribute_names(s@, raw_attributes(a@).skip(first as int)),
            forall|j: int|
                first <= j < a@.len() ==> (#[trigger] a@[j]).name.0 <= a@[j].name.1 <= s@.len(),
            forall|j: int| 0 <= j < k - first ==> #[trigger] names[j] != name@,
        decreases a.len() - k,
    {
        if same_chars(slice_subrange(s, a[k].name.0, a[k].name.1), name) {
            proof {
                assert(names[k - first] == name@);
            }
            return true;
        }
        proof {
            assert(names[k - first] != name@);
        }
        k = k + 1;
    }
    false
}

/// Reads one attribute at `i`.
fn read_attribute<R: EntityResolver>(
    s: &[char],
    i: usize,
    c: &ParserConfig,
    v: XmlVersion,
    r: &R,
    a: &Vec<FlatAttribute>,
    first: usize,
    spent: usize,
) -> (res: Result<(FlatAttribute, usize, usize), Fault>)
    requires
        i <= s@.len(),
        first <= a@.len(),
        forall|k: int|
            first <= k < a@.len() ==> (#[trigger] a@[k]).name.0 <= a@[k].name.1 <= s@.len(),
    ensures
        match res {
            Ok((x, k, after)) => attribute(
                s@,
                i as int,
                c@,
                v,
                r.resolver(),
                raw_attributes(a@).skip(first as int),
                spent as int,
            ) == Ok::<(RawAttribute, int, int), FaultModel>((x@, k as int, after as int)) && i < k
                <= s@.len() && x.name.0 <= x.name.1 <= s@.len() && x.value.0 <= x.value.1
                <= s@.len(),
            Err(f) => attribute(
                s@,
                i as int,
                c@,
                v,
                r.resolver(),
                raw_attributes(a@).skip(first as int),
                spent as int,
            ) == Err::<(RawAttribute, int, int), FaultModel>(f@) && f.at <= s@.len(),
        },
{
    proof {
        reveal_strlit("=");
        assert(s.len() == s@.len());
    }
    let k: usize = match read_name(s, i) {
        Err(f) => {
            return Err(f);
        },
        Ok(k) => k,
    };
    if c.validates_duplicate_attributes() && is_duplicate(s, a, first, i, k) {
        return Err(
            Fault { kind: XmlErrorKind::DuplicateAttribute(string_between(s, i, k)), at: k },
        );
    }
    let q: usize = match expect(s, skip_blank(s, k, v), "=") {
        Err(f) => {
            return Err(f);
        },
        Ok(m) => skip_blank(s, m, v),
    };
    let (text, close, after) = match read_attribute_value(s, q, c, v, r, spent) {
        Err(f) => {
            return Err(f);
        },
        Ok(x) => x,
    };
    if spells(slice_subrange(s, i, k), "xml:space") && !spells(text.as_slice(), "default")
        && !spells(text.as_slice(), "preserve") {
        return Err(Fault { kind: XmlErrorKind::InvalidAttributeValue, at: close + 1 });
    }
    Ok((FlatAttribute { name: (i, k), value: (q + 1, close) }, close + 1, after))
}

/// Does a start tag end at `i`?
fn is_tag_close(s: &[char], i: usize) -> (r: bool)
    requires
        i <= s@.len(),
    ensures
        r == tag_close_at(s@, i as int),
{
    (i < s.len() && s[i] == '>') || starts_with(s, i, "/>")
}

/// The attributes behind the first `n` are well placed.
pub open spec fn placed_attributes(a: Seq<FlatAttribute>, n: int) -> bool {
    forall|k: int|
        0 <= k < a.len() ==> (#[trigger] a[k]).name.0 <= a[k].name.1 <= n && a[k].value.0
            <= a[k].value.1 < n
}

/// The nodes are well placed.
pub open spec fn placed_nodes(v: Seq<FlatNode>, n: int) -> bool {
    forall|k: int|
        0 <= k < v.len() ==> (#[trigger] v[k]).span.0 <= v[k].span.1 <= n && v[k].primary.0
            <= v[k].primary.1 <= n && (v[k].kind != XmlNodeKind::Element ==> v[k].secondary.0
            <= v[k].secondary.1 <= n)
}

/// Reads the attributes at `i` and appends them to `a`.
fn read_attributes<R: EntityResolver>(
    s: &[char],
    i: usize,
    c: &ParserConfig,
    v: XmlVersion,
    r: &R,
    a: &mut Vec<FlatAttribute>,
    spent: usize,
) -> (res: Result<(usize, usize), Fault>)
    requires
        i <= s@.len(),
        old(a)@.len() <= i,
        placed_attributes(old(a)@, s@.len() as int),
    ensures
        match res {
            Ok((j, after)) => ({
                &&& attributes_from(s@, i as int, c@, v, r.resolver(), Seq::empty(), spent as int) == Ok::<
                    (Seq<RawAttribute>, int, int),
                    FaultModel,
                >(
                    (
                        raw_attributes(final(a)@).skip(old(a)@.len() as int),
                        j as int,
                        after as int,
                    ),
                )
                &&& i <= j <= s@.len()
                &&& final(a)@.len() <= j
                &&& tag_close_at(s@, j as int)
                &&& old(a)@.len() <= final(a)@.len()
                &&& raw_attributes(final(a)@).take(old(a)@.len() as int) == raw_attributes(old(a)@)
                &&& placed_attributes(final(a)@, s@.len() as int)
            }),
            Err(f) => attributes_from(s@, i as int, c@, v, r.resolver(), Seq::empty(), spent as int) == Err::<
                (Seq<RawAttribute>, int, int),
                FaultModel,
            >(f@) && f.at <= s@.len(),
        },
{
    let first: usize = a.len();
    let ghost start = raw_attributes(a@);
    let mut k: usize = i;
    let mut used: usize = spent;
    proof {
        assert(raw_attributes(a@).skip(first as int) =~= Seq::<RawAttribute>::empty());
        assert(raw_attributes(a@).take(first as int) =~= start);
    }
    loop
        invariant
            i <= k <= s@.len(),
            a@.len() <= k,
            first <= a@.len(),
            first == old(a)@.len(),
            start == raw_attributes(old(a)@),
            raw_attributes(a@).take(first as int) == start,
            placed_attributes(a@, s@.len() as int),
            attributes_from(s@, i as int, c@, v, r.resolver(), Seq::empty(), spent as int) == attributes_from(
                s@,
                k as int,
                c@,
                v,
                r.resolver(),
                raw_attributes(a@).skip(first as int),
                used as int,
            ),
        decreases s@.len() - k,
    {
        let j: usize = skip_blank(s, k, v);
        if is_tag_close(s, j) {
            return Ok((j, used));
        }
        if a.len() > first && j == k {
            return Err(Fault { kind: XmlErrorKind::Expected("whitespace"), at: j });
        }
        match read_attribute(s, j, c, v, r, a, first, used) {
            Err(f) => {
                return Err(f);
            },
            Ok((x, next, after)) => {
                let ghost before = a@;
                let ghost added = x@;
                a.push(x);
                proof {
                    assert(raw_attributes(a@).skip(first as int) =~= raw_attributes(before).skip(
                        first as int,
                    ).push(added));
                    assert(raw_attributes(a@).take(first as int) =~= raw_attributes(before).take(
                        first as int,
                    ));
                }
                k = next;
                used = after;
            },
        }
    }
}

/// Reads the end tag whose name starts at `i`.
fn read_end_tag(s: &[char], i: usize, name: &[char], v: XmlVersion) -> (r: Result<usize, Fault>)
    requires
        i <= s@.len(),
    ensures
        agrees(r, end_tag_end(s@, i as int, name@, v), i + 1, s@.len() as int),
{
    match read_name(s, i) {
        Err(f) => Err(f),
        Ok(k) => match expect(s, skip_blank(s, k, v), ">") {
            Err(f) => Err(f),
            Ok(m) => if !same_chars(slice_subrange(s, i, k), name) {
                proof {
                    assert(name@.subrange(0, name@.len() as int) =~= name@);
                }
                Err(
                    Fault {
                        kind: XmlErrorKind::MismatchedEndTag {
                            expected: string_between(name, 0, name.len()),
                            found: string_between(s, i, k),
                        },
                        at: m,
                    },
                )
            } else {
                Ok(m)
            },
        },
    }
}

/// `from..to` without the white space at both ends.
pub(crate) fn trim_range(s: &[char], from: usize, to: usize, v: XmlVersion) -> (r: (usize, usize))
    requires
        from <= to <= s@.len(),
    ensures
        positions(r) == trimmed(s@, from as int, to as int, v),
        from <= r.0 <= r.1 <= to,
{
    let mut a: usize = from;
    while a < to && is_blank(s[a], v)
        invariant
            from <= a <= to <= s@.len(),
            trim_start(s@, from as int, to as int, v) == trim_start(s@, a as int, to as int, v),
        decreases to - a,
    {
        a = a + 1;
    }
    let mut b: usize = to;
    while a < b && is_blank(s[b - 1], v)
        invariant
            from <= a <= b <= to <= s@.len(),
            trim_end(s@, a as int, to as int, v) == trim_end(s@, a as int, b as int, v),
        decreases b - a,
    {
        b = b - 1;
    }
    (a, b)
}

/// The leaf that stands for `t` in the list of nodes, if `t` is to be a node at all.
pub open spec fn leaf_matches(n: Option<FlatNode>, t: Option<RawTree>, at: int) -> bool {
    match n {
        Some(x) => t is Some && t->Some_0 is Leaf && flat_tree(t->Some_0, at, 0) == seq![x@],
        None => t is None,
    }
}

/// The node is well placed.
pub open spec fn placed_leaf(n: Option<FlatNode>, len: int) -> bool {
    match n {
        Some(x) => x.span.0 <= x.span.1 <= len && x.primary.0 <= x.primary.1 <= len && x.secondary.0
            <= x.secondary.1 <= len,
        None => true,
    }
}

/// The text node for the characters `from..to`, if there is to be one.
fn make_text_leaf(
    s: &[char],
    span: Option<(usize, usize)>,
    from: usize,
    to: usize,
    c: &ParserConfig,
    v: XmlVersion,
    at: usize,
) -> (r: Option<FlatNode>)
    requires
        from <= to <= s@.len(),
        at < usize::MAX,
        span matches Some(p) ==> p.0 <= p.1 <= s@.len(),
    ensures
        leaf_matches(
            r,
            text_leaf(
                s@,
                match span {
                    Some(p) => Some(positions(p)),
                    None => None,
                },
                from as int,
                to as int,
                c@,
                v,
            ),
            at as int,
        ),
        placed_leaf(r, s@.len() as int),
{
    let trim = c.text_whitespace_policy() == XmlTextWhitespacePolicy::Trim;
    let value: (usize, usize) = if trim {
        trim_range(s, from, to, v)
    } else {
        (from, to)
    };
    if !c.preserves_text_nodes() || (trim && value.0 == value.1) {
        None
    } else {
        let place: (usize, usize) = match span {
            Some(p) => p,
            None => value,
        };
        Some(
            FlatNode {
                kind: XmlNodeKind::Text,
                span: place,
                primary: value,
                secondary: (0, 0),
                next: at + 1,
            },
        )
    }
}

/// Reads the comment, CDATA section or instruction at `i` in content.
fn read_markup_leaf(s: &[char], i: usize, c: &ParserConfig, v: XmlVersion, at: usize) -> (r: Result<
    (Option<FlatNode>, usize),
    Fault,
>)
    requires
        i <= s@.len(),
        at < usize::MAX,
    ensures
        match r {
            Ok((leaf, k)) => ({
                &&& markup_leaf(s@, i as int, c@, v) is Ok
                &&& leaf_matches(leaf, markup_leaf(s@, i as int, c@, v)->Ok_0.0, at as int)
                &&& markup_leaf(s@, i as int, c@, v)->Ok_0.1 == k
                &&& i < k <= s@.len()
                &&& placed_leaf(leaf, s@.len() as int)
            }),
            Err(f) => markup_leaf(s@, i as int, c@, v) == Err::<(Option<RawTree>, int), FaultModel>(
                f@,
            ) && f.at <= s@.len(),
        },
{
    proof {
        reveal_strlit("<!--");
        reveal_strlit("<![CDATA[");
        reveal_strlit("]]>");
        reveal_strlit("<?");
    }
    if starts_with(s, i, "<!--") {
        match read_comment(s, i) {
            Err(f) => Err(f),
            Ok(k) => if c.preserves_comments() {
                Ok(
                    (
                        Some(
                            FlatNode {
                                kind: XmlNodeKind::Comment,
                                span: (i, k),
                                primary: (i + 4, k - 3),
                                secondary: (0, 0),
                                next: at + 1,
                            },
                        ),
                        k,
                    ),
                )
            } else {
                Ok((None, k))
            },
        }
    } else if starts_with(s, i, "<![CDATA[") {
        match find_text(s, i + 9, "]]>") {
            None => Err(Fault { kind: XmlErrorKind::UnexpectedEof, at: i + 9 }),
            Some(e) => if c.preserves_cdata_nodes() {
                let primary: (usize, usize) = if i + 9 < e {
                    (i + 9, e)
                } else {
                    (0, 0)
                };
                Ok(
                    (
                        Some(
                            FlatNode {
                                kind: XmlNodeKind::Cdata,
                                span: (i, e + 3),
                                primary,
                                secondary: (0, 0),
                                next: at + 1,
                            },
                        ),
                        e + 3,
                    ),
                )
            } else if i + 9 < e {
                Ok((make_text_leaf(s, Some((i, e + 3)), i + 9, e, c, v, at), e + 3))
            } else {
                Ok((None, e + 3))
            },
        }
    } else if starts_with(s, i, "<?") {
        let t: usize = match read_target(s, i) {
            Err(f) => {
                return Err(f);
            },
            Ok(t) => t,
        };
        let data: usize = match read_instruction_data_start(s, t) {
            Err(f) => {
                return Err(f);
            },
            Ok(d) => d,
        };
        match read_instruction_tail(s, data) {
            Err(f) => Err(f),
            Ok(k) => if c.preserves_processing_instructions() {
                Ok(
                    (
                        Some(
                            FlatNode {
                                kind: XmlNodeKind::ProcessingInstruction,
                                span: (i, k),
                                primary: (i + 2, t),
                                secondary: (data, k - 2),
                                next: at + 1,
                            },
                        ),
                        k,
                    ),
                )
            } else {
                Ok((None, k))
            },
        }
    } else {
        Err(Fault { kind: XmlErrorKind::UnexpectedToken, at: i })
    }
}

/// Reads the element at `i` and appends its nodes and attributes.
pub(crate) fn read_element<R: EntityResolver>(
    s: &[char],
    i: usize,
    c: &ParserConfig,
    v: XmlVersion,
    r: &R,
    depth: usize,
    spent: usize,
    nodes: &mut Vec<FlatNode>,
    attributes: &mut Vec<FlatAttribute>,
) -> (res: Result<(usize, usize), Fault>)
    requires
        i <= s@.len(),
        depth <= MAX_DOM_DEPTH,
        old(nodes)@.len() <= i,
        old(attributes)@.len() <= i,
        placed_nodes(old(nodes)@, s@.len() as int),
        placed_attributes(old(attributes)@, s@.len() as int),
    ensures
        match res {
            Ok((end, after)) => ({
                let m = element(s@, i as int, c@, v, r.resolver(), depth as int, spent as int);
                &&& m is Ok
                &&& m->Ok_0.1 == end
                &&& m->Ok_0.2 == after
                &&& flat_models(final(nodes)@) == flat_models(old(nodes)@) + flat_tree(
                    m->Ok_0.0,
                    old(nodes)@.len() as int,
                    old(attributes)@.len() as int,
                )
                &&& raw_attributes(final(attributes)@) == raw_attributes(old(attributes)@)
                    + tree_attributes(m->Ok_0.0)
                &&& i < end <= s@.len()
                &&& final(nodes)@.len() <= end
                &&& final(attributes)@.len() <= end
                &&& placed_nodes(final(nodes)@, s@.len() as int)
                &&& placed_attributes(final(attributes)@, s@.len() as int)
            }),
            Err(f) => element(s@, i as int, c@, v, r.resolver(), depth as int, spent as int) == Err::<
                (RawTree, int, int),
                FaultModel,
            >(f@) && f.at <= s@.len(),
        },
    decreases s@.len() - i, 0int,
{
    proof {
        reveal_strlit("<");
        reveal_strlit(">");
        reveal_strlit("/>");
        assert(s.len() == s@.len());
    }
    let start: usize = match expect(s, i, "<") {
        Err(f) => {
            return Err(f);
        },
        Ok(k) => k,
    };
    let k: usize = match read_name(s, start) {
        Err(f) => {
            return Err(f);
        },
        Ok(k) => k,
    };
    let at: usize = nodes.len();
    let attributes_at: usize = attributes.len();
    let ghost nodes_before = nodes@;
    let ghost attributes_before = raw_attributes(attributes@);
    let (j, after) = match read_attributes(s, k, c, v, r, attributes, spent) {
        Err(f) => {
            return Err(f);
        },
        Ok(x) => x,
    };
    let ghost own = raw_attributes(attributes@).skip(attributes_at as int);
    proof {
        assert(raw_attributes(attributes@) =~= attributes_before + own);
    }
    let attributes_end: usize = attributes.len();
    if starts_with(s, j, "/>") {
        nodes.push(
            FlatNode {
                kind: XmlNodeKind::Element,
                span: (i, j + 2),
                primary: (start, k),
                secondary: (attributes_at, attributes_end),
                next: at + 1,
            },
        );
        proof {
            let tree = RawTree::Element {
                span: (i as int, j + 2),
                name: (start as int, k as int),
                attributes: own,
                children: Seq::empty(),
            };
            assert(flat_trees(Seq::empty(), at + 1, attributes_at + own.len()) =~= Seq::<
                FlatModel,
            >::empty());
            assert(flat_models(nodes@) =~= flat_models(nodes_before) + flat_tree(
                tree,
                at as int,
                attributes_at as int,
            ));
            assert(trees_attributes(Seq::empty()) =~= Seq::<RawAttribute>::empty());
            assert(tree_attributes(tree) =~= own);
        }
        return Ok((j + 2, after));
    }
    let inner: usize = match expect(s, j, ">") {
        Err(f) => {
            return Err(f);
        },
        Ok(x) => x,
    };
    nodes.push(
        FlatNode {
            kind: XmlNodeKind::Element,
            span: (i, inner),
            primary: (start, k),
            secondary: (attributes_at, attributes_end),
            next: at + 1,
        },
    );
    let ghost opened = nodes@;
    match read_content(
        s,
        inner,
        c,
        v,
        r,
        slice_subrange(s, start, k),
        depth,
        after,
        nodes,
        attributes,
    ) {
        Err(f) => Err(f),
        Ok((end, last)) => {
            let ghost filled = nodes@;
            let ghost children = content(
                s@,
                inner as int,
                c@,
                v,
                r.resolver(),
                s@.subrange(start as int, k as int),
                depth as int,
                Seq::empty(),
                after as int,
            )->Ok_0.0;
            proof {
                assert(flat_models(filled).len() == filled.len());
                assert(flat_models(opened).len() == opened.len());
            }
            let next: usize = nodes.len();
            nodes[at] = FlatNode {
                kind: XmlNodeKind::Element,
                span: (i, end),
                primary: (start, k),
                secondary: (attributes_at, attributes_end),
                next,
            };
            proof {
                let tree = RawTree::Element {
                    span: (i as int, end as int),
                    name: (start as int, k as int),
                    attributes: own,
                    children,
                };
                assert(opened.take(nodes_before.len() as int) =~= nodes_before);
                lemma_element_listed(
                    nodes_before,
                    opened,
                    filled,
                    nodes@,
                    tree,
                    attributes_at as int,
                );
                assert(raw_attributes(attributes@) =~= attributes_before + tree_attributes(tree));
            }
            Ok((end, last))
        },
    }
}

/// Reads the content of the element `name` from `i` on and appends its nodes and attributes.
fn read_content<R: EntityResolver>(
    s: &[char],
    i: usize,
    c: &ParserConfig,
    v: XmlVersion,
    r: &R,
    name: &[char],
    depth: usize,
    spent: usize,
    nodes: &mut Vec<FlatNode>,
    attributes: &mut Vec<FlatAttribute>,
) -> (res: Result<(usize, usize), Fault>)
    requires
        i <= s@.len(),
        depth <= MAX_DOM_DEPTH,
        old(nodes)@.len() <= i,
        old(attributes)@.len() <= i,
        placed_nodes(old(nodes)@, s@.len() as int),
        placed_attributes(old(attributes)@, s@.len() as int),
    ensures
        match res {
            Ok((end, after)) => ({
                let m = content(
                    s@,
                    i as int,
                    c@,
                    v,
                    r.resolver(),
                    name@,
                    depth as int,
                    Seq::empty(),
                    spent as int,
                );
                &&& m is Ok
                &&& m->Ok_0.1 == end
                &&& m->Ok_0.2 == after
                &&& flat_models(final(nodes)@) == flat_models(old(nodes)@) + flat_trees(
                    m->Ok_0.0,
                    old(nodes)@.len() as int,
                    old(attributes)@.len() as int,
                )
                &&& raw_attributes(final(attributes)@) == raw_attributes(old(attributes)@)
                    + trees_attributes(m->Ok_0.0)
                &&& i < end <= s@.len()
                &&& final(nodes)@.len() <= end
                &&& final(attributes)@.len() <= end
                &&& placed_nodes(final(nodes)@, s@.len() as int)
                &&& placed_attributes(final(attributes)@, s@.len() as int)
            }),
            Err(f) => content(
                s@,
                i as int,
                c@,
                v,
                r.resolver(),
                name@,
                depth as int,
                Seq::empty(),
                spent as int,
            ) == Err::<(Seq<RawTree>, int, int), FaultModel>(f@) && f.at <= s@.len(),
        },
    decreases s@.len() - i, 1int,
{
    let ghost nodes_before = flat_models(nodes@);
    let ghost attributes_before = raw_attributes(attributes@);
    let ghost at = nodes@.len() as int;
    let ghost attributes_at = attributes@.len() as int;
    let ghost mut children: Seq<RawTree> = Seq::empty();
    let mut k: usize = i;
    let mut used: usize = spent;
    proof {
        assert(nodes_before + flat_trees(children, at, attributes_at) =~= nodes_before);
        assert(attributes_before + trees_attributes(children) =~= attributes_before);
    }
    loop
        invariant
            i <= k <= s@.len(),
            depth <= MAX_DOM_DEPTH,
            nodes@.len() <= k,
            attributes@.len() <= k,
            nodes_before == flat_models(old(nodes)@),
            attributes_before == raw_attributes(old(attributes)@),
            at == old(nodes)@.len(),
            attributes_at == old(attributes)@.len(),
            placed_nodes(nodes@, s@.len() as int),
            placed_attributes(attributes@, s@.len() as int),
            flat_models(nodes@) == nodes_before + flat_trees(children, at, attributes_at),
            raw_attributes(attributes@) == attributes_before + trees_attributes(children),
            content(s@, i as int, c@, v, r.resolver(), name@, depth as int, Seq::empty(), spent as int)
                == content(
                s@,
                k as int,
                c@,
                v,
                r.resolver(),
                name@,
                depth as int,
                children,
                used as int,
            ),
        decreases s@.len() - k,
    {
        proof {
            assert(flat_models(nodes@).len() == nodes@.len());
            assert(raw_attributes(attributes@).len() == attributes@.len());
            assert(s.len() == s@.len());
        }
        if k >= s.len() {
            return Err(Fault { kind: XmlErrorKind::UnexpectedEof, at: k });
        }
        if s[k] == '<' {
            if k + 1 >= s.len() {
                return Err(Fault { kind: XmlErrorKind::UnexpectedEof, at: k });
            }
            if s[k + 1] == '/' {
                return match read_end_tag(s, k + 2, name, v) {
                    Err(f) => Err(f),
                    Ok(end) => Ok((end, used)),
                };
            }
            if s[k + 1] == '!' || s[k + 1] == '?' {
                match read_markup_leaf(s, k, c, v, nodes.len()) {
                    Err(f) => {
                        return Err(f);
                    },
                    Ok((leaf, next)) => {
                        let ghost t = markup_leaf(s@, k as int, c@, v)->Ok_0.0;
                        let ghost before = children;
                        let ghost listed = nodes@;
                        let ghost pushed = leaf;
                        if let Some(n) = leaf {
                            nodes.push(n);
                        }
                        proof {
                            children = with_leaf(before, t);
                            lemma_leaf_appended(
                                before,
                                t,
                                at,
                                attributes_at,
                                nodes_before,
                                listed,
                                pushed,
                                nodes@,
                            );
                        }
                        k = next;
                    },
                }
            } else {
                if depth >= MAX_DOM_DEPTH {
                    return Err(Fault { kind: XmlErrorKind::DepthLimitExceeded, at: k });
                }
                let ghost before = children;
                let ghost nodes_so_far = flat_trees(children, at, attributes_at);
                let ghost attributes_so_far = trees_attributes(children);
                match read_element(s, k, c, v, r, depth + 1, used, nodes, attributes) {
                    Err(f) => {
                        return Err(f);
                    },
                    Ok((end, after)) => {
                        proof {
                            let tree = element(
                                s@,
                                k as int,
                                c@,
                                v,
                                r.resolver(),
                                depth + 1,
                                used as int,
                            )->Ok_0.0;
                            children = before.push(tree);
                            assert(children.drop_last() =~= before);
                            assert(flat_models(nodes@) =~= nodes_before + flat_trees(
                                children,
                                at,
                                attributes_at,
                            ));
                            assert(raw_attributes(attributes@) =~= attributes_before
                                + trees_attributes(children));
                        }
                        k = end;
                        used = after;
                    },
                }
            }
        } else {
            let policy = c.text_whitespace_policy();
            if policy != XmlTextWhitespacePolicy::Preserve {
                let j: usize = skip_blank(s, k, v);
                if j >= s.len() || s[j] == '<' {
                    k = j;
                    continue;
                }
            }
            match read_text(s, k, c, v, r, used) {
                Err(f) => {
                    return Err(f);
                },
                Ok((next, after)) => {
                    let leaf = make_text_leaf(s, None, k, next, c, v, nodes.len());
                    let ghost t = text_leaf(s@, None, k as int, next as int, c@, v);
                    let ghost before = children;
                    let ghost listed = nodes@;
                    let ghost pushed = leaf;
                    if let Some(n) = leaf {
                        nodes.push(n);
                    }
                    proof {
                        children = with_leaf(before, t);
                        lemma_leaf_appended(
                            before,
                            t,
                            at,
                            attributes_at,
                            nodes_before,
                            listed,
                            pushed,
                            nodes@,
                        );
                    }
                    k = next;
                    used = after;
                },
            }
        }
    }
}

/// Setting the record of an element whose descendants are listed completes its list.
proof fn lemma_element_listed(
    before: Seq<FlatNode>,
    opened: Seq<FlatNode>,
    filled: Seq<FlatNode>,
    nodes: Seq<FlatNode>,
    tree: RawTree,
    attributes_at: int,
)
    requires
        tree is Element,
        opened.len() == before.len() + 1,
        opened.take(before.len() as int) == before,
        flat_models(filled) == flat_models(opened) + flat_trees(
            tree->children,
            (before.len() + 1) as int,
            attributes_at + tree->attributes.len(),
        ),
        nodes.len() == filled.len(),
        nodes == filled.update(before.len() as int, nodes[before.len() as int]),
        nodes[before.len() as int]@ == (FlatModel {
            kind: XmlNodeKind::Element,
            span: tree->Element_span,
            primary: tree->name,
            secondary: (attributes_at, attributes_at + tree->attributes.len()),
            next: filled.len() as int,
        }),
    ensures
        flat_models(nodes) == flat_models(before) + flat_tree(
            tree,
            before.len() as int,
            attributes_at,
        ),
{
    let at = before.len() as int;
    let below = flat_trees(tree->children, at + 1, attributes_at + tree->attributes.len());
    assert(flat_models(filled).len() == filled.len());
    assert(flat_models(opened).len() == opened.len());
    let all = flat_models(before) + flat_tree(tree, at, attributes_at);
    assert forall|q: int| 0 <= q < nodes.len() implies flat_models(nodes)[q] == all[q] by {
        assert(flat_models(nodes)[q] == nodes[q]@);
        if q < at {
            assert(before[q] == opened.take(at)[q]);
            assert(flat_models(filled)[q] == flat_models(opened)[q]);
            assert(flat_models(opened)[q] == opened[q]@);
            assert(flat_models(filled)[q] == filled[q]@);
        } else if q > at {
            assert(flat_models(filled)[q] == below[q - at - 1]);
            assert(flat_models(filled)[q] == filled[q]@);
        }
    }
    assert(flat_models(nodes) =~= all);
}

/// Appending a leaf to the list of nodes appends it to the children.
proof fn lemma_leaf_appended(
    children: Seq<RawTree>,
    t: Option<RawTree>,
    at: int,
    attributes_at: int,
    nodes_before: Seq<FlatModel>,
    listed: Seq<FlatNode>,
    leaf: Option<FlatNode>,
    nodes: Seq<FlatNode>,
)
    requires
        at == nodes_before.len(),
        flat_models(listed) == nodes_before + flat_trees(children, at, attributes_at),
        leaf_matches(leaf, t, listed.len() as int),
        nodes == (match leaf {
            Some(n) => listed.push(n),
            None => listed,
        }),
    ensures
        flat_models(nodes) == nodes_before + flat_trees(with_leaf(children, t), at, attributes_at),
        trees_attributes(with_leaf(children, t)) == trees_attributes(children),
{
    match t {
        Some(tree) => {
            let all = children.push(tree);
            assert(all.drop_last() =~= children);
            assert(flat_models(listed).len() == listed.len());
            assert(tree_attributes(tree) =~= Seq::<RawAttribute>::empty());
            assert(trees_attributes(all) =~= trees_attributes(children));
            assert(flat_trees(all, at, attributes_at) == flat_trees(children, at, attributes_at)
                + flat_tree(
                tree,
                at + flat_trees(children, at, attributes_at).len(),
                attributes_at + trees_attributes(children).len(),
            ));
            let next_at = at + flat_trees(children, at, attributes_at).len();
            assert(next_at == listed.len());
            assert(flat_tree(tree, next_at, attributes_at + trees_attributes(children).len())
                == flat_tree(tree, next_at, 0));
            assert(flat_models(nodes) =~= flat_models(listed).push(leaf->Some_0@));
            assert(flat_models(nodes) =~= nodes_before + flat_trees(all, at, attributes_at));
        },
        None => {},
    }
}

} // verus!
