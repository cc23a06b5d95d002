//! Compact records: nodes and attributes as byte ranges of a source text.

use vstd::prelude::*;
use vstd::string::*;
use vstd::utf8::{
    decode_utf8, decode_utf8_split, encode_utf8, encode_utf8_decode_utf8, encode_utf8_valid_utf8,
    is_char_boundary,
};

use crate::dom::XmlNodeKind;
use crate::grammar::{FlatAttribute, FlatModel, FlatNode, RawAttribute};
use crate::text::{
    byte_len, byte_offset, char_width, lemma_byte_len_is_utf8, lemma_byte_offset_monotone,
    lemma_byte_offset_prefix, lemma_offset_is_boundary, Source,
};

verus! {

/// The characters `i..j` of `s` occupy `len` bytes from the byte `start` on.
pub open spec fn spans(s: Seq<char>, i: int, j: int, start: int, len: int) -> bool {
    0 <= i <= j <= s.len() && byte_offset(s, i) == start && byte_offset(s, j) == start + len
}

/// The text in the `len` bytes from the byte `start` on, if those bytes are whole characters.
pub open spec fn raw_text(s: Seq<char>, start: int, len: int) -> Option<Seq<char>> {
    if exists|i: int, j: int| spans(s, i, j, start, len) {
        let (i, j) = choose|i: int, j: int| spans(s, i, j, start, len);
        Some(s.subrange(i, j))
    } else {
        None
    }
}

/// Characters that start at the same byte are the same.
pub proof fn lemma_byte_offset_injective(s: Seq<char>, i: int, j: int)
    requires
        0 <= i <= s.len(),
        0 <= j <= s.len(),
        byte_offset(s, i) == byte_offset(s, j),
    ensures
        i == j,
{
    if i < j {
        lemma_byte_offset_monotone(s, i, j - 1);
    } else if j < i {
        lemma_byte_offset_monotone(s, j, i - 1);
    }
}

/// The byte range of the characters `i..j` holds the characters `i..j`.
pub proof fn lemma_raw_text(s: Seq<char>, i: int, j: int)
    requires
        0 <= i <= j <= s.len(),
    ensures
        byte_offset(s, i) <= byte_offset(s, j) <= byte_len(s),
        raw_text(s, byte_offset(s, i) as int, byte_offset(s, j) - byte_offset(s, i)) == Some(
            s.subrange(i, j),
        ),
{
    lemma_byte_offset_monotone(s, i, j);
    lemma_byte_offset_monotone(s, j, s.len() as int);
    let start = byte_offset(s, i) as int;
    let len = byte_offset(s, j) - byte_offset(s, i);
    assert(spans(s, i, j, start, len));
    let (a, b) = choose|a: int, b: int| spans(s, a, b, start, len);
    lemma_byte_offset_injective(s, a, i);
    lemma_byte_offset_injective(s, b, j);
}

/// A boundary of the encoding is the start of a character.
proof fn lemma_boundary_is_offset(s: Seq<char>, a: Seq<char>, b: Seq<char>, mid: int)
    requires
        is_char_boundary(encode_utf8(s), mid),
        0 <= mid <= encode_utf8(s).len(),
        encode_utf8(a) == encode_utf8(s).subrange(0, mid),
        encode_utf8(b) == encode_utf8(s).subrange(mid, encode_utf8(s).len() as int),
    ensures
        a.len() <= s.len(),
        a == s.take(a.len() as int),
        b == s.skip(a.len() as int),
        byte_offset(s, a.len() as int) == mid,
{
    encode_utf8_valid_utf8(s);
    encode_utf8_decode_utf8(s);
    encode_utf8_decode_utf8(a);
    encode_utf8_decode_utf8(b);
    decode_utf8_split(encode_utf8(s), mid);
    assert(s =~= a + b);
    assert(a =~= s.take(a.len() as int));
    assert(b =~= s.skip(a.len() as int));
    lemma_byte_len_is_utf8(a);
    assert(s.take(a.len() as int) =~= a.take(a.len() as int));
    lemma_byte_offset_prefix(s, a, a.len() as int);
}

/// The bytes `start..start + len` of `input`, if they are whole characters.
pub(crate) fn raw_range<'a>(input: &'a str, start: u32, len: u32) -> (r: Option<&'a str>)
    ensures
        match r {
            Some(t) => raw_text(input@, start as int, len as int) == Some(t@),
            None => raw_text(input@, start as int, len as int) is None,
        },
{
    let from: usize = start as usize;
    let count: usize = len as usize;
    let ghost s = input@;
    let ghost bytes = encode_utf8(s);
    proof {
        assert(input.spec_bytes() == bytes);
        lemma_byte_len_is_utf8(s);
    }
    let n: usize = input.as_bytes().len();
    proof {
        if raw_text(s, from as int, count as int) is Some {
            let (i, j) = choose|i: int, j: int| spans(s, i, j, from as int, count as int);
            lemma_offset_is_boundary(s, i);
            lemma_offset_is_boundary(s, j);
            assert(from + count <= n);
        }
    }
    if from > n || count > n - from || !input.is_char_boundary(from) || !input.is_char_boundary(
        from + count,
    ) {
        return None;
    }
    let (head, rest) = input.split_at(from + count);
    proof {
        lemma_boundary_is_offset(s, head@, rest@, from + count);
        lemma_byte_len_is_utf8(head@);
        assert(head@.take(head@.len() as int) =~= s.take(head@.len() as int));
        encode_utf8_valid_utf8(s);
        let x = vstd::utf8::decode_utf8(bytes.subrange(0, from as int));
        let y = vstd::utf8::decode_utf8(bytes.subrange(from as int, bytes.len() as int));
        vstd::utf8::valid_utf8_split(bytes, from as int);
        vstd::utf8::decode_utf8_encode_utf8(bytes.subrange(0, from as int));
        vstd::utf8::decode_utf8_encode_utf8(bytes.subrange(from as int, bytes.len() as int));
        lemma_boundary_is_offset(s, x, y, from as int);
        let i = x.len() as int;
        let j = head@.len() as int;
        if i > j {
            lemma_byte_offset_monotone(s, j, i - 1);
        }
        assert(spans(s, i, j, from as int, count as int));
        assert(head@.take(i) =~= s.take(i));
        lemma_byte_offset_prefix(s, head@, i);
        lemma_offset_is_boundary(head@, i);
        lemma_raw_text(s, i, j);
        assert(head@.skip(i) =~= s.subrange(i, j));
    }
    let (before, text) = head.split_at(from);
    proof {
        lemma_boundary_is_offset(head@, before@, text@, from as int);
        let i = choose|i: int|
            0 <= i <= head@.len() && byte_offset(head@, i) == from && head@.skip(i) == s.subrange(
                i,
                head@.len() as int,
            ) && raw_text(s, from as int, count as int) == Some(s.subrange(i, head@.len() as int));
        lemma_byte_offset_injective(head@, i, before@.len() as int);
    }
    Some(text)
}

/// The characters `from..to` of `input`.
pub(crate) fn slice_chars<'a>(input: &'a str, from: usize, to: usize) -> (r: &'a str)
    requires
        from <= to <= input@.len(),
    ensures
        r@ == input@.subrange(from as int, to as int),
{
    let ghost s = input@;
    let source = Source::new(input);
    let start: usize = source.offset(from);
    let end: usize = source.offset(to);
    proof {
        lemma_offset_is_boundary(s, to as int);
        assert(input.spec_bytes() == encode_utf8(s));
    }
    let (head, rest) = input.split_at(end);
    proof {
        lemma_boundary_is_offset(s, head@, rest@, end as int);
        lemma_byte_offset_injective(s, head@.len() as int, to as int);
        assert(head@.take(from as int) =~= s.take(from as int));
        lemma_byte_offset_prefix(s, head@, from as int);
        lemma_offset_is_boundary(head@, from as int);
    }
    let (before, text) = head.split_at(start);
    proof {
        lemma_boundary_is_offset(head@, before@, text@, start as int);
        lemma_byte_offset_injective(head@, before@.len() as int, from as int);
        assert(text@ =~= s.subrange(from as int, to as int));
    }
    text
}

/// The identifier of a node: its place in document order.
#[derive(Clone, Copy, Debug, PartialEq, Eq, Hash, Structural)]
pub struct XmlViewNodeId(pub usize);

impl XmlViewNodeId {
    /// Returns the place in document order.
    pub fn index(self) -> (r: usize)
        ensures
            r == self.0,
    {
        self.0
    }
}

/// A node record.
///
/// For an element the second range counts attribute records; for the other kinds it is a range of
/// bytes.
#[derive(Clone, Copy, Debug, PartialEq, Eq, Structural)]
pub struct RawXmlNode {
    /// The kind.
    pub kind: XmlNodeKind,
    /// The first byte of the name, of the target, or of the value.
    pub name_start: u32,
    /// How many bytes the name, the target, or the value has.
    pub name_len: u32,
    /// The first attribute record, or the first byte of an instruction's data.
    pub attribute_start: u32,
    /// How many attribute records, or bytes of an instruction's data, there are.
    pub attribute_count: u32,
    /// Whether the element has children.
    pub has_children: bool,
    /// The place of the node in document order.
    pub at: u32,
    /// The place of the first node behind this one's subtree.
    pub next: u32,
    /// The token of the document.
    pub owner: u64,
}

/// A source text with the token of its document.
#[derive(Clone, Copy)]
pub struct XmlRawSource<'a> {
    input: &'a str,
    owner: u64,
}

impl<'a> XmlRawSource<'a> {
    /// The text.
    pub closed spec fn text(&self) -> Seq<char> {
        self.input@
    }

    /// The token.
    pub closed spec fn token(&self) -> u64 {
        self.owner
    }

    /// Joins a text and the token of its document.
    pub(crate) fn new(input: &'a str, owner: u64) -> (r: Self)
        ensures
            r.text() == input@,
            r.token() == owner,
    {
        XmlRawSource { input, owner }
    }
}

/// The text of an optional string slice.
pub open spec fn str_option(t: Option<&str>) -> Option<Seq<char>> {
    match t {
        Some(x) => Some(x@),
        None => None,
    }
}

/// The name of the node that `n` records in `s`.
pub open spec fn record_name(s: Seq<char>, n: RawXmlNode) -> Option<Seq<char>> {
    if n.kind == XmlNodeKind::Element || n.kind == XmlNodeKind::ProcessingInstruction {
        raw_text(s, n.name_start as int, n.name_len as int)
    } else {
        None
    }
}

/// The value of the node that `n` records in `s`.
pub open spec fn record_value(s: Seq<char>, n: RawXmlNode) -> Option<Seq<char>> {
    match n.kind {
        XmlNodeKind::Element => None,
        XmlNodeKind::ProcessingInstruction => raw_text(
            s,
            n.attribute_start as int,
            n.attribute_count as int,
        ),
        _ => raw_text(s, n.name_start as int, n.name_len as int),
    }
}

/// The name of the node that `n` records, if the text has the token of the record.
pub open spec fn name_from(n: RawXmlNode, s: Seq<char>, token: u64) -> Option<Seq<char>> {
    if n.owner == token {
        record_name(s, n)
    } else {
        None
    }
}

/// The value of the node that `n` records, if the text has the token of the record.
pub open spec fn value_from(n: RawXmlNode, s: Seq<char>, token: u64) -> Option<Seq<char>> {
    if n.owner == token {
        record_value(s, n)
    } else {
        None
    }
}

/// The name of the attribute that `a` records, if the text has the token of the record.
pub open spec fn attribute_name_from(a: RawXmlAttribute, s: Seq<char>, token: u64) -> Option<
    Seq<char>,
> {
    if a.owner == token {
        raw_text(s, a.name_start as int, a.name_len as int)
    } else {
        None
    }
}

/// The value of the attribute that `a` records, if the text has the token of the record.
pub open spec fn attribute_value_from(a: RawXmlAttribute, s: Seq<char>, token: u64) -> Option<
    Seq<char>,
> {
    if a.owner == token {
        raw_text(s, a.value_start as int, a.value_len as int)
    } else {
        None
    }
}

/// The name of the node that `node` records.
pub(crate) fn raw_node_name<'a>(input: &'a str, node: &RawXmlNode) -> (r: Option<&'a str>)
    ensures
        str_option(r) == record_name(input@, *node),
{
    match node.kind {
        XmlNodeKind::Element | XmlNodeKind::ProcessingInstruction => raw_range(
            input,
            node.name_start,
            node.name_len,
        ),
        _ => None,
    }
}

/// The value of the node that `node` records.
pub(crate) fn raw_node_value<'a>(input: &'a str, node: &RawXmlNode) -> (r: Option<&'a str>)
    ensures
        str_option(r) == record_value(input@, *node),
{
    match node.kind {
        XmlNodeKind::Element => None,
        XmlNodeKind::ProcessingInstruction => raw_range(
            input,
            node.attribute_start,
            node.attribute_count,
        ),
        _ => raw_range(input, node.name_start, node.name_len),
    }
}

impl RawXmlNode {
    /// Returns the kind.
    pub fn kind(&self) -> (r: XmlNodeKind)
        ensures
            r == self.kind,
    {
        self.kind
    }

    /// Returns the place of the first node behind this one's subtree.
    pub fn next_subtree(&self) -> (r: usize)
        ensures
            r == self.next,
    {
        self.next as usize
    }

    /// Returns the first child of an element.
    pub fn first_child(&self) -> (r: Option<XmlViewNodeId>)
        ensures
            r == (if self.kind == XmlNodeKind::Element && self.has_children && self.at < u32::MAX {
                Some(XmlViewNodeId((self.at + 1) as usize))
            } else {
                None
            }),
    {
        match self.kind {
            XmlNodeKind::Element => if self.has_children && self.at < u32::MAX {
                Some(XmlViewNodeId((self.at + 1) as usize))
            } else {
                None
            },
            _ => None,
        }
    }

    /// Returns the places of the element's attribute records.
    pub fn attribute_range(&self) -> (r: std::ops::Range<usize>)
        requires
            self.attribute_start + self.attribute_count <= usize::MAX,
        ensures
            r.start == self.attribute_start,
            r.end == self.attribute_start + self.attribute_count,
    {
        let start: usize = self.attribute_start as usize;
        start..start + self.attribute_count as usize
    }

    /// Returns the name, if `source` belongs to the document of this record.
    pub fn name_with_source<'a>(&self, source: XmlRawSource<'a>) -> (r: Option<&'a str>)
        ensures
            str_option(r) == name_from(*self, source.text(), source.token()),
    {
        if self.owner != source.owner {
            return None;
        }
        raw_node_name(source.input, self)
    }

    /// Returns the value, if `source` belongs to the document of this record.
    pub fn value_with_source<'a>(&self, source: XmlRawSource<'a>) -> (r: Option<&'a str>)
        ensures
            str_option(r) == value_from(*self, source.text(), source.token()),
    {
        if self.owner != source.owner {
            return None;
        }
        raw_node_value(source.input, self)
    }
}

/// An attribute record.
#[derive(Clone, Copy, Debug, PartialEq, Eq, Structural)]
pub struct RawXmlAttribute {
    /// The first byte of the name.
    pub name_start: u32,
    /// How many bytes the name has.
    pub name_len: u32,
    /// The first byte of the value.
    pub value_start: u32,
    /// How many bytes the value has.
    pub value_len: u32,
    /// The token of the document.
    pub owner: u64,
}

impl RawXmlAttribute {
    /// Returns the name, if `source` belongs to the document of this record.
    pub fn name<'a>(&self, source: XmlRawSource<'a>) -> (r: Option<&'a str>)
        ensures
            str_option(r) == attribute_name_from(*self, source.text(), source.token()),
    {
        if self.owner != source.owner {
            return None;
        }
        raw_range(source.input, self.name_start, self.name_len)
    }

    /// Returns the raw value, if `source` belongs to the document of this record.
    pub fn value<'a>(&self, source: XmlRawSource<'a>) -> (r: Option<&'a str>)
        ensures
            str_option(r) == attribute_value_from(*self, source.text(), source.token()),
    {
        if self.owner != source.owner {
            return None;
        }
        raw_range(source.input, self.value_start, self.value_len)
    }
}

/// `start` and `len` are the byte range of the characters `p`.
pub open spec fn range_recorded(s: Seq<char>, p: (int, int), start: u32, len: u32) -> bool {
    0 <= p.0 <= p.1 <= s.len() && start == byte_offset(s, p.0) && start + len == byte_offset(
        s,
        p.1,
    )
}

/// `n` records the node `m`, which is number `at`.
pub open spec fn node_recorded(
    s: Seq<char>,
    m: FlatModel,
    at: int,
    owner: u64,
    n: RawXmlNode,
) -> bool {
    &&& n.kind == m.kind
    &&& range_recorded(s, m.primary, n.name_start, n.name_len)
    &&& m.kind == XmlNodeKind::Element ==> n.attribute_start == m.secondary.0 && n.attribute_start
        + n.attribute_count == m.secondary.1
    &&& m.kind != XmlNodeKind::Element ==> range_recorded(
        s,
        m.secondary,
        n.attribute_start,
        n.attribute_count,
    )
    &&& n.at == at
    &&& n.next == m.next
    &&& n.has_children == (m.kind == XmlNodeKind::Element && m.next > at + 1)
    &&& n.owner == owner
}

/// `a` records the attribute `m`.
pub open spec fn attribute_recorded(
    s: Seq<char>,
    m: RawAttribute,
    owner: u64,
    a: RawXmlAttribute,
) -> bool {
    &&& range_recorded(s, m.name, a.name_start, a.name_len)
    &&& range_recorded(s, m.value, a.value_start, a.value_len)
    &&& a.owner == owner
}

/// `v` records the nodes `f`.
pub open spec fn nodes_recorded(
    s: Seq<char>,
    f: Seq<FlatModel>,
    owner: u64,
    v: Seq<RawXmlNode>,
) -> bool {
    v.len() == f.len() && forall|k: int|
        0 <= k < f.len() ==> node_recorded(s, #[trigger] f[k], k, owner, v[k])
}

/// `v` records the attributes `f`.
pub open spec fn attributes_recorded(
    s: Seq<char>,
    f: Seq<RawAttribute>,
    owner: u64,
    v: Seq<RawXmlAttribute>,
) -> bool {
    v.len() == f.len() && forall|k: int|
        0 <= k < f.len() ==> attribute_recorded(s, #[trigger] f[k], owner, v[k])
}

/// A recorded byte range holds the recorded characters.
pub proof fn lemma_range_text(s: Seq<char>, p: (int, int), start: u32, len: u32)
    requires
        range_recorded(s, p, start, len),
    ensures
        raw_text(s, start as int, len as int) == Some(s.subrange(p.0, p.1)),
{
    lemma_raw_text(s, p.0, p.1);
}

/// The byte offsets of all characters, if they fit.
pub(crate) fn byte_table(s: &[char]) -> (r: Option<Vec<u32>>)
    ensures
        match r {
            Some(t) => byte_len(s@) <= u32::MAX && t@.len() == s@.len() + 1 && forall|i: int|
                0 <= i <= s@.len() ==> #[trigger] t@[i] == byte_offset(s@, i),
            None => byte_len(s@) > u32::MAX,
        },
{
    let mut table: Vec<u32> = Vec::new();
    let mut total: u64 = 0;
    table.push(0);
    let mut k: usize = 0;
    while k < s.len()
        invariant
            k <= s@.len(),
            total <= u32::MAX,
            total == byte_offset(s@, k as int),
            table@.len() == k + 1,
            forall|i: int| 0 <= i <= k ==> #[trigger] table@[i] == byte_offset(s@, i),
        decreases s@.len() - k,
    {
        total = total + char_width(s[k]) as u64;
        if total > u32::MAX as u64 {
            proof {
                lemma_byte_offset_monotone(s@, k + 1, s@.len() as int);
            }
            return None;
        }
        table.push(total as u32);
        k = k + 1;
    }
    Some(table)
}

/// Records the nodes.
pub(crate) fn record_nodes(
    nodes: &Vec<FlatNode>,
    table: &Vec<u32>,
    owner: u64,
    Ghost(s): Ghost<Seq<char>>,
    Ghost(f): Ghost<Seq<FlatModel>>,
) -> (r: Vec<RawXmlNode>)
    requires
        f == crate::grammar::flat_models(nodes@),
        crate::reader::placed_nodes(nodes@, s.len() as int),
        table@.len() == s.len() + 1,
        forall|i: int| 0 <= i <= s.len() ==> #[trigger] table@[i] == byte_offset(s, i),
        nodes@.len() <= u32::MAX,
        forall|k: int| 0 <= k < nodes@.len() ==> (#[trigger] nodes@[k]).next <= u32::MAX,
        forall|k: int|
            0 <= k < nodes@.len() && (#[trigger] nodes@[k]).kind == XmlNodeKind::Element
                ==> nodes@[k].secondary.0 <= nodes@[k].secondary.1 <= u32::MAX,
    ensures
        nodes_recorded(s, f, owner, r@),
{
    let mut out: Vec<RawXmlNode> = Vec::new();
    let mut k: usize = 0;
    while k < nodes.len()
        invariant
            k <= nodes@.len() <= u32::MAX,
            out@.len() == k,
            f == crate::grammar::flat_models(nodes@),
            crate::reader::placed_nodes(nodes@, s.len() as int),
            table@.len() == s.len() + 1,
            forall|i: int| 0 <= i <= s.len() ==> #[trigger] table@[i] == byte_offset(s, i),
            forall|k: int| 0 <= k < nodes@.len() ==> (#[trigger] nodes@[k]).next <= u32::MAX,
            forall|k: int|
                0 <= k < nodes@.len() && (#[trigger] nodes@[k]).kind == XmlNodeKind::Element
                    ==> nodes@[k].secondary.0 <= nodes@[k].secondary.1 <= u32::MAX,
            forall|j: int| 0 <= j < k ==> node_recorded(s, #[trigger] f[j], j, owner, out@[j]),
        decreases nodes@.len() - k,
    {
        let n = &nodes[k];
        let ghost m = f[k as int];
        assert(m == n@);
        proof {
            lemma_byte_offset_monotone(s, n.primary.0 as int, n.primary.1 as int);
        }
        let name_start: u32 = table[n.primary.0];
        let name_len: u32 = table[n.primary.1] - name_start;
        let element = match n.kind {
            XmlNodeKind::Element => true,
            _ => false,
        };
        let (attribute_start, attribute_count) = if element {
            (n.secondary.0 as u32, (n.secondary.1 - n.secondary.0) as u32)
        } else {
            proof {
                lemma_byte_offset_monotone(s, n.secondary.0 as int, n.secondary.1 as int);
            }
            (table[n.secondary.0], table[n.secondary.1] - table[n.secondary.0])
        };
        let record = RawXmlNode {
            kind: n.kind,
            name_start,
            name_len,
            attribute_start,
            attribute_count,
            has_children: element && n.next > k + 1,
            at: k as u32,
            next: n.next as u32,
            owner,
        };
        assert(node_recorded(s, m, k as int, owner, record));
        out.push(record);
        k = k + 1;
    }
    out
}

/// Records the attributes.
pub(crate) fn record_attributes(
    attributes: &Vec<FlatAttribute>,
    table: &Vec<u32>,
    owner: u64,
    Ghost(s): Ghost<Seq<char>>,
    Ghost(f): Ghost<Seq<RawAttribute>>,
) -> (r: Vec<RawXmlAttribute>)
    requires
        f == crate::grammar::raw_attributes(attributes@),
        crate::reader::placed_attributes(attributes@, s.len() as int),
        table@.len() == s.len() + 1,
        forall|i: int| 0 <= i <= s.len() ==> #[trigger] table@[i] == byte_offset(s, i),
    ensures
        attributes_recorded(s, f, owner, r@),
{
    let mut out: Vec<RawXmlAttribute> = Vec::new();
    let mut k: usize = 0;
    while k < attributes.len()
        invariant
            k <= attributes@.len(),
            out@.len() == k,
            f == crate::grammar::raw_attributes(attributes@),
            crate::reader::placed_attributes(attributes@, s.len() as int),
            table@.len() == s.len() + 1,
            forall|i: int| 0 <= i <= s.len() ==> #[trigger] table@[i] == byte_offset(s, i),
            forall|j: int| 0 <= j < k ==> attribute_recorded(s, #[trigger] f[j], owner, out@[j]),
        decreases attributes@.len() - k,
    {
        let a = &attributes[k];
        assert(f[k as int] == a@);
        proof {
            lemma_byte_offset_monotone(s, a.name.0 as int, a.name.1 as int);
            lemma_byte_offset_monotone(s, a.value.0 as int, a.value.1 as int);
        }
        let record = RawXmlAttribute {
            name_start: table[a.name.0],
            name_len: table[a.name.1] - table[a.name.0],
            value_start: table[a.value.0],
            value_len: table[a.value.1] - table[a.value.0],
            owner,
        };
        assert(attribute_recorded(s, f[k as int], owner, record));
        out.push(record);
        k = k + 1;
    }
    out
}

} // verus!
