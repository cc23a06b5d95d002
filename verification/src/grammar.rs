//! The grammar of elements and their content.
//!
//! `element` reads an element as a tree of positions in the text; `flat_tree` lists such a tree
//! in document order, the form in which documents are stored.

use vstd::prelude::*;

use crate::config::{ConfigModel, XmlTextWhitespacePolicy};
use crate::dom::XmlNodeKind;
use crate::dtd::{character_reference_tail, name_among};
use crate::error::{fault, ErrorKindModel, Read, XmlErrorKind};
use crate::lexeme::{predefined_entity, reference_char, xml11_line_end, XmlVersion};
use crate::scan::{
    comment_end, expected, instruction_data_start, instruction_tail_end, name_end, target_end,
};
use crate::syntax::space;
use crate::text::{find_from, starts_at, string_between};

verus! {

/// How deeply elements may be nested.
pub const MAX_DOM_DEPTH: usize = 128;

/// What the references to general entities stand for.
///
/// From the name of an entity and the number of bytes spent on replacements so far to its text
/// and the number of bytes spent after it.
pub type Resolver = spec_fn(Seq<char>, int) -> Result<(Seq<char>, int), ErrorKindModel>;

/// Something that knows what the references to general entities stand for.
pub trait EntityResolver {
    /// What the references stand for.
    spec fn resolver(&self) -> Resolver;

    /// Resolves a reference to `name` when `spent` bytes were spent before.
    fn resolve(&self, name: &[char], spent: usize) -> (r: Result<(Vec<char>, usize), XmlErrorKind>)
        ensures
            match r {
                Ok((text, after)) => self.resolver()(name@, spent as int) == Ok::<
                    (Seq<char>, int),
                    ErrorKindModel,
                >((text@, after as int)),
                Err(kind) => self.resolver()(name@, spent as int) == Err::<
                    (Seq<char>, int),
                    ErrorKindModel,
                >(kind@),
            },
    ;
}

/// No general entity is declared.
pub struct NoEntities;

/// No general entity is declared.
pub open spec fn no_entities() -> Resolver {
    |name: Seq<char>, spent: int|
        Err::<(Seq<char>, int), ErrorKindModel>(ErrorKindModel::UndeclaredEntity(name))
}

impl EntityResolver for NoEntities {
    open spec fn resolver(&self) -> Resolver {
        no_entities()
    }

    fn resolve(&self, name: &[char], spent: usize) -> (r: Result<
        (Vec<char>, usize),
        XmlErrorKind,
    >) {
        proof {
            assert(name@.subrange(0, name@.len() as int) =~= name@);
        }
        Err(XmlErrorKind::UndeclaredEntity(string_between(name, 0, name.len())))
    }
}

/// An attribute: where its name and its value stand.
#[verifier::ext_equal]
pub struct RawAttribute {
    pub name: (int, int),
    pub value: (int, int),
}

/// A node: where it and its parts stand.
#[verifier::ext_equal]
pub enum RawTree {
    Element {
        span: (int, int),
        name: (int, int),
        attributes: Seq<RawAttribute>,
        children: Seq<RawTree>,
    },
    Leaf { span: (int, int), kind: XmlNodeKind, primary: (int, int), secondary: (int, int) },
}

/// White space of the given version.
pub open spec fn blank(c: char, v: XmlVersion) -> bool {
    space(c) || (v == XmlVersion::Xml11 && xml11_line_end(c))
}

/// The end of the white space at `i`.
pub open spec fn blank_end(s: Seq<char>, i: int, v: XmlVersion) -> int
    decreases s.len() - i,
{
    if 0 <= i < s.len() && blank(s[i], v) {
        blank_end(s, i + 1, v)
    } else {
        i
    }
}

/// The reference at `i`: the text that it stands for, its end, and the bytes spent after it.
pub open spec fn reference(
    s: Seq<char>,
    i: int,
    v: XmlVersion,
    r: Resolver,
    spent: int,
) -> Read<(Seq<char>, int, int)> {
    if starts_at(s, i, "&#"@) {
        match character_reference_tail(s, i + 2, v) {
            Err(f) => Err(f),
            Ok(k) => match reference_char(s.subrange(i + 1, k - 1), v, i) {
                Err(f) => Err(f),
                Ok(c) => Ok((seq![c], k, spent)),
            },
        }
    } else {
        match name_end(s, i + 1) {
            Err(f) => Err(f),
            Ok(j) => match expected(s, j, ";"@) {
                Err(f) => Err(f),
                Ok(k) => match predefined_entity(s.subrange(i + 1, j)) {
                    Some(c) => Ok((seq![c], k, spent)),
                    None => match r(s.subrange(i + 1, j), spent) {
                        Err(kind) => fault(kind, i),
                        Ok((text, after)) => Ok((text, k, after)),
                    },
                },
            },
        }
    }
}

/// The end of the character data at `i`, and the bytes spent after it.
pub open spec fn text_end(
    s: Seq<char>,
    i: int,
    c: ConfigModel,
    v: XmlVersion,
    r: Resolver,
    spent: int,
) -> Read<(int, int)>
    decreases s.len() - i,
{
    if i < 0 || i >= s.len() || s[i] == '<' {
        Ok((i, spent))
    } else if s[i] == '&' && c.validate_references {
        match reference(s, i, v, r, spent) {
            Err(f) => Err(f),
            Ok((_, k, after)) => if k <= i || k > s.len() {
                fault(ErrorKindModel::UnexpectedEof, i)
            } else {
                text_end(s, k, c, v, r, after)
            },
        }
    } else if starts_at(s, i, "]]>"@) {
        fault(ErrorKindModel::UnexpectedToken, i)
    } else {
        text_end(s, i + 1, c, v, r, spent)
    }
}

/// The rest of an attribute value: its text behind `text`, its closing quotation mark, and the
/// bytes spent after it.
pub open spec fn attribute_rest(
    s: Seq<char>,
    i: int,
    quote: char,
    c: ConfigModel,
    v: XmlVersion,
    r: Resolver,
    text: Seq<char>,
    spent: int,
) -> Read<(Seq<char>, int, int)>
    decreases s.len() - i,
{
    if i < 0 || i >= s.len() {
        fault(ErrorKindModel::UnexpectedEof, i)
    } else if s[i] == quote {
        Ok((text, i, spent))
    } else if s[i] == '<' {
        fault(ErrorKindModel::InvalidAttributeValue, i)
    } else if s[i] == '&' && c.validate_references {
        match reference(s, i, v, r, spent) {
            Err(f) => Err(f),
            Ok((t, k, after)) => if k <= i || k > s.len() {
                fault(ErrorKindModel::UnexpectedEof, i)
            } else {
                attribute_rest(s, k, quote, c, v, r, text + t, after)
            },
        }
    } else {
        attribute_rest(s, i + 1, quote, c, v, r, text.push(s[i]), spent)
    }
}

/// The attribute value at `i`.
pub open spec fn attribute_value(
    s: Seq<char>,
    i: int,
    c: ConfigModel,
    v: XmlVersion,
    r: Resolver,
    spent: int,
) -> Read<(Seq<char>, int, int)> {
    if 0 <= i < s.len() && (s[i] == '"' || s[i] == '\'') {
        attribute_rest(s, i + 1, s[i], c, v, r, Seq::empty(), spent)
    } else {
        fault(ErrorKindModel::Expected("quoted literal"@), i)
    }
}

/// The names of the attributes in `a`.
pub open spec fn attribute_names(s: Seq<char>, a: Seq<RawAttribute>) -> Seq<Seq<char>> {
    Seq::new(a.len(), |i: int| s.subrange(a[i].name.0, a[i].name.1))
}

/// The value of `xml:space` must be one of two words.
pub open spec fn bad_space_value(name: Seq<char>, value: Seq<char>) -> bool {
    name == "xml:space"@ && value != "default"@ && value != "preserve"@
}

/// A start tag ends at `i`.
pub open spec fn tag_close_at(s: Seq<char>, i: int) -> bool {
    (0 <= i < s.len() && s[i] == '>') || starts_at(s, i, "/>"@)
}

/// One attribute at `i`: the attribute, its end, and the bytes spent after it.
pub open spec fn attribute(
    s: Seq<char>,
    i: int,
    c: ConfigModel,
    v: XmlVersion,
    r: Resolver,
    before: Seq<RawAttribute>,
    spent: int,
) -> Read<(RawAttribute, int, int)> {
    match name_end(s, i) {
        Err(f) => Err(f),
        Ok(k) => {
            let name = s.subrange(i, k);
            if c.validate_duplicate_attributes && name_among(attribute_names(s, before), name) {
                fault(ErrorKindModel::DuplicateAttribute(name), k)
            } else {
                match expected(s, blank_end(s, k, v), "="@) {
                    Err(f) => Err(f),
                    Ok(m) => {
                        let q = blank_end(s, m, v);
                        match attribute_value(s, q, c, v, r, spent) {
                            Err(f) => Err(f),
                            Ok((text, close, after)) => if bad_space_value(name, text) {
                                fault(ErrorKindModel::InvalidAttributeValue, close + 1)
                            } else {
                                Ok(
                                    (
                                        RawAttribute { name: (i, k), value: (q + 1, close) },
                                        close + 1,
                                        after,
                                    ),
                                )
                            },
                        }
                    },
                }
            }
        },
    }
}

/// The attributes from `i` on, behind those of `before`: all of them, where the tag closes, and
/// the bytes spent.
pub open spec fn attributes_from(
    s: Seq<char>,
    i: int,
    c: ConfigModel,
    v: XmlVersion,
    r: Resolver,
    before: Seq<RawAttribute>,
    spent: int,
) -> Read<(Seq<RawAttribute>, int, int)>
    decreases s.len() - i,
{
    let j = blank_end(s, i, v);
    if tag_close_at(s, j) {
        Ok((before, j, spent))
    } else if before.len() > 0 && j == i {
        fault(ErrorKindModel::Expected("whitespace"@), j)
    } else {
        match attribute(s, j, c, v, r, before, spent) {
            Err(f) => Err(f),
            Ok((a, k, after)) => if k <= i || k > s.len() {
                fault(ErrorKindModel::UnexpectedEof, i)
            } else {
                attributes_from(s, k, c, v, r, before.push(a), after)
            },
        }
    }
}

/// The end tag whose name starts at `i`; it must be `name`.
pub open spec fn end_tag_end(s: Seq<char>, i: int, name: Seq<char>, v: XmlVersion) -> Read<int> {
    match name_end(s, i) {
        Err(f) => Err(f),
        Ok(k) => match expected(s, blank_end(s, k, v), ">"@) {
            Err(f) => Err(f),
            Ok(m) => if s.subrange(i, k) != name {
                fault(
                    ErrorKindModel::MismatchedEndTag { expected: name, found: s.subrange(i, k) },
                    m,
                )
            } else {
                Ok(m)
            },
        },
    }
}

/// The first character of `from..to` that is not white space.
pub open spec fn trim_start(s: Seq<char>, from: int, to: int, v: XmlVersion) -> int
    decreases to - from,
{
    if 0 <= from < to <= s.len() && blank(s[from], v) {
        trim_start(s, from + 1, to, v)
    } else {
        from
    }
}

/// The end of the last character of `from..to` that is not white space.
pub open spec fn trim_end(s: Seq<char>, from: int, to: int, v: XmlVersion) -> int
    decreases to - from,
{
    if 0 <= from < to <= s.len() && blank(s[to - 1], v) {
        trim_end(s, from, to - 1, v)
    } else {
        to
    }
}

/// `from..to` without the white space at both ends.
pub open spec fn trimmed(s: Seq<char>, from: int, to: int, v: XmlVersion) -> (int, int) {
    let a = trim_start(s, from, to, v);
    (a, trim_end(s, a, to, v))
}

/// The text node for the characters `from..to`, if there is to be one.
pub open spec fn text_leaf(
    s: Seq<char>,
    span: Option<(int, int)>,
    from: int,
    to: int,
    c: ConfigModel,
    v: XmlVersion,
) -> Option<RawTree> {
    let value = if c.text_whitespace == XmlTextWhitespacePolicy::Trim {
        trimmed(s, from, to, v)
    } else {
        (from, to)
    };
    if !c.preserve_text_nodes || (c.text_whitespace == XmlTextWhitespacePolicy::Trim && value.0
        == value.1) {
        None
    } else {
        Some(
            RawTree::Leaf {
                span: match span {
                    Some(p) => p,
                    None => value,
                },
                kind: XmlNodeKind::Text,
                primary: value,
                secondary: (0, 0),
            },
        )
    }
}

/// The node for the CDATA section at `span` with content `from..to`, if there is to be one.
pub open spec fn cdata_leaf(
    s: Seq<char>,
    span: (int, int),
    from: int,
    to: int,
    c: ConfigModel,
    v: XmlVersion,
) -> Option<RawTree> {
    if c.preserve_cdata_nodes {
        Some(
            RawTree::Leaf {
                span,
                kind: XmlNodeKind::Cdata,
                primary: if from < to {
                    (from, to)
                } else {
                    (0, 0)
                },
                secondary: (0, 0),
            },
        )
    } else if from < to {
        text_leaf(s, Some(span), from, to, c, v)
    } else {
        None
    }
}

/// `acc` with the node, if there is one.
pub open spec fn with_leaf(acc: Seq<RawTree>, leaf: Option<RawTree>) -> Seq<RawTree> {
    match leaf {
        Some(t) => acc.push(t),
        None => acc,
    }
}

/// The comment, CDATA section or instruction at `i` in content: its node, if there is to be one,
/// and its end.
pub open spec fn markup_leaf(s: Seq<char>, i: int, c: ConfigModel, v: XmlVersion) -> Read<
    (Option<RawTree>, int),
> {
    if starts_at(s, i, "<!--"@) {
        match comment_end(s, i) {
            Err(f) => Err(f),
            Ok(k) => Ok(
                (
                    if c.preserve_comments {
                        Some(
                            RawTree::Leaf {
                                span: (i, k),
                                kind: XmlNodeKind::Comment,
                                primary: (i + 4, k - 3),
                                secondary: (0, 0),
                            },
                        )
                    } else {
                        None
                    },
                    k,
                ),
            ),
        }
    } else if starts_at(s, i, "<![CDATA["@) {
        match find_from(s, i + 9, "]]>"@) {
            None => fault(ErrorKindModel::UnexpectedEof, i + 9),
            Some(e) => Ok((cdata_leaf(s, (i, e + 3), i + 9, e, c, v), e + 3)),
        }
    } else if starts_at(s, i, "<?"@) {
        match target_end(s, i) {
            Err(f) => Err(f),
            Ok(t) => match instruction_data_start(s, t) {
                Err(f) => Err(f),
                Ok(data) => match instruction_tail_end(s, data) {
                    Err(f) => Err(f),
                    Ok(k) => Ok(
                        (
                            if c.preserve_processing_instructions {
                                Some(
                                    RawTree::Leaf {
                                        span: (i, k),
                                        kind: XmlNodeKind::ProcessingInstruction,
                                        primary: (i + 2, t),
                                        secondary: (data, k - 2),
                                    },
                                )
                            } else {
                                None
                            },
                            k,
                        ),
                    ),
                },
            },
        }
    } else {
        fault(ErrorKindModel::UnexpectedToken, i)
    }
}

/// The end of a text that consists of white space only.
pub open spec fn blank_text_end(s: Seq<char>, i: int, v: XmlVersion) -> Option<int> {
    let j = blank_end(s, i, v);
    if j >= s.len() || s[j] == '<' {
        Some(j)
    } else {
        None
    }
}

/// The element at `i`: its tree, its end, and the bytes spent after it.
pub open spec fn element(
    s: Seq<char>,
    i: int,
    c: ConfigModel,
    v: XmlVersion,
    r: Resolver,
    depth: int,
    spent: int,
) -> Read<(RawTree, int, int)>
    decreases s.len() - i, 0int,
{
    match expected(s, i, "<"@) {
        Err(f) => Err(f),
        Ok(start) => match name_end(s, start) {
            Err(f) => Err(f),
            Ok(k) => match attributes_from(s, k, c, v, r, Seq::empty(), spent) {
                Err(f) => Err(f),
                Ok((attributes, j, after)) => if starts_at(s, j, "/>"@) {
                    Ok(
                        (
                            RawTree::Element {
                                span: (i, j + 2),
                                name: (start, k),
                                attributes,
                                children: Seq::empty(),
                            },
                            j + 2,
                            after,
                        ),
                    )
                } else {
                    match expected(s, j, ">"@) {
                        Err(f) => Err(f),
                        Ok(inner) => if inner <= i || inner > s.len() {
                            fault(ErrorKindModel::UnexpectedEof, i)
                        } else {
                            match content(
                                s,
                                inner,
                                c,
                                v,
                                r,
                                s.subrange(start, k),
                                depth,
                                Seq::empty(),
                                after,
                            ) {
                                Err(f) => Err(f),
                                Ok((children, end, last)) => Ok(
                                    (
                                        RawTree::Element {
                                            span: (i, end),
                                            name: (start, k),
                                            attributes,
                                            children,
                                        },
                                        end,
                                        last,
                                    ),
                                ),
                            }
                        },
                    }
                },
            },
        },
    }
}

/// The content of the element `name` from `i` on, behind `acc`: its children, the end of its end
/// tag, and the bytes spent.
pub open spec fn content(
    s: Seq<char>,
    i: int,
    c: ConfigModel,
    v: XmlVersion,
    r: Resolver,
    name: Seq<char>,
    depth: int,
    acc: Seq<RawTree>,
    spent: int,
) -> Read<(Seq<RawTree>, int, int)>
    decreases s.len() - i, 1int,
{
    if i < 0 || i >= s.len() {
        fault(ErrorKindModel::UnexpectedEof, i)
    } else if s[i] == '<' {
        if i + 1 >= s.len() {
            fault(ErrorKindModel::UnexpectedEof, i)
        } else if s[i + 1] == '/' {
            match end_tag_end(s, i + 2, name, v) {
                Err(f) => Err(f),
                Ok(k) => Ok((acc, k, spent)),
            }
        } else if s[i + 1] == '!' || s[i + 1] == '?' {
            match markup_leaf(s, i, c, v) {
                Err(f) => Err(f),
                Ok((leaf, k)) => if k <= i || k > s.len() {
                    fault(ErrorKindModel::UnexpectedEof, i)
                } else {
                    content(s, k, c, v, r, name, depth, with_leaf(acc, leaf), spent)
                },
            }
        } else if depth >= MAX_DOM_DEPTH {
            fault(ErrorKindModel::DepthLimitExceeded, i)
        } else {
            match element(s, i, c, v, r, depth + 1, spent) {
                Err(f) => Err(f),
                Ok((child, k, after)) => if k <= i || k > s.len() {
                    fault(ErrorKindModel::UnexpectedEof, i)
                } else {
                    content(s, k, c, v, r, name, depth, acc.push(child), after)
                },
            }
        }
    } else if c.text_whitespace != XmlTextWhitespacePolicy::Preserve && blank_text_end(
        s,
        i,
        v,
    ) is Some {
        let k = blank_text_end(s, i, v)->Some_0;
        if k <= i || k > s.len() {
            fault(ErrorKindModel::UnexpectedEof, i)
        } else {
            content(s, k, c, v, r, name, depth, acc, spent)
        }
    } else {
        match text_end(s, i, c, v, r, spent) {
            Err(f) => Err(f),
            Ok((k, after)) => if k <= i || k > s.len() {
                fault(ErrorKindModel::UnexpectedEof, i)
            } else {
                content(
                    s,
                    k,
                    c,
                    v,
                    r,
                    name,
                    depth,
                    with_leaf(acc, text_leaf(s, None, i, k, c, v)),
                    after,
                )
            },
        }
    }
}

/// A node in a list of nodes in document order.
///
/// The parts of an element are its name and its range of attributes; `next` is the position
/// behind its last descendant.
#[verifier::ext_equal]
pub struct FlatModel {
    pub kind: XmlNodeKind,
    pub span: (int, int),
    pub primary: (int, int),
    pub secondary: (int, int),
    pub next: int,
}

/// The attributes of the tree in document order.
pub open spec fn tree_attributes(t: RawTree) -> Seq<RawAttribute>
    decreases t,
{
    match t {
        RawTree::Leaf { .. } => Seq::empty(),
        RawTree::Element { attributes, children, .. } => attributes + trees_attributes(children),
    }
}

/// The attributes of the trees in document order.
pub open spec fn trees_attributes(ts: Seq<RawTree>) -> Seq<RawAttribute>
    decreases ts,
{
    if ts.len() == 0 {
        Seq::empty()
    } else {
        trees_attributes(ts.drop_last()) + tree_attributes(ts.last())
    }
}

/// The nodes of the tree in document order, if the first stands at `at` and its attributes at
/// `attributes_at`.
pub open spec fn flat_tree(t: RawTree, at: int, attributes_at: int) -> Seq<FlatModel>
    decreases t,
{
    match t {
        RawTree::Leaf { span, kind, primary, secondary } => seq![
            FlatModel { kind, span, primary, secondary, next: at + 1 },
        ],
        RawTree::Element { span, name, attributes, children } => {
            let below = flat_trees(children, at + 1, attributes_at + attributes.len());
            seq![
                FlatModel {
                    kind: XmlNodeKind::Element,
                    span,
                    primary: name,
                    secondary: (attributes_at, attributes_at + attributes.len()),
                    next: at + 1 + below.len(),
                },
            ] + below
        },
    }
}

/// The nodes of the trees in document order.
pub open spec fn flat_trees(ts: Seq<RawTree>, at: int, attributes_at: int) -> Seq<FlatModel>
    decreases ts,
{
    if ts.len() == 0 {
        Seq::empty()
    } else {
        let before = flat_trees(ts.drop_last(), at, attributes_at);
        before + flat_tree(
            ts.last(),
            at + before.len(),
            attributes_at + trees_attributes(ts.drop_last()).len(),
        )
    }
}

/// A node in a list of nodes in document order.
pub struct FlatNode {
    pub kind: XmlNodeKind,
    pub span: (usize, usize),
    pub primary: (usize, usize),
    pub secondary: (usize, usize),
    pub next: usize,
}

/// An attribute in a list of attributes.
pub struct FlatAttribute {
    pub name: (usize, usize),
    pub value: (usize, usize),
}

/// A pair of positions.
pub open spec fn positions(p: (usize, usize)) -> (int, int) {
    (p.0 as int, p.1 as int)
}

impl View for FlatNode {
    type V = FlatModel;

    open spec fn view(&self) -> FlatModel {
        FlatModel {
            kind: self.kind,
            span: positions(self.span),
            primary: positions(self.primary),
            secondary: positions(self.secondary),
            next: self.next as int,
        }
    }
}

impl View for FlatAttribute {
    type V = RawAttribute;

    open spec fn view(&self) -> RawAttribute {
        RawAttribute { name: positions(self.name), value: positions(self.value) }
    }
}

/// The nodes of a list.
pub open spec fn flat_models(v: Seq<FlatNode>) -> Seq<FlatModel> {
    Seq::new(v.len(), |i: int| v[i]@)
}

/// The attributes of a list.
pub open spec fn raw_attributes(v: Seq<FlatAttribute>) -> Seq<RawAttribute> {
    Seq::new(v.len(), |i: int| v[i]@)
}

} // verus!
