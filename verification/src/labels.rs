//! How the encoding of a document is found, and what its bytes are then.

use vstd::prelude::*;
use vstd::utf8::{decode_utf8, valid_utf8};

use crate::encoding::{
    byte_from, byte_order_mark, byte_space, byte_space_end, bytes_at, declaration_close,
    declaration_open, declared_label, decoded, detected, folded, generic_utf16, generic_utf32,
    is_encoding_name, label_byte, label_is, label_matches, label_name_end, label_range, labelled,
    marked, signed, stripped, utf32_from, utf32_text, white_space, wide_unit_at, XmlInputEncoding,
};
use crate::error::{ErrorKindModel, ErrorModel};

verus! {

/// The bytes are white space.
pub open spec fn blank_bytes(w: Seq<u8>) -> bool {
    forall|i: int|
        0 <= i < w.len() ==> (#[trigger] w[i] == 0x20 || w[i] == 0x09 || w[i] == 0x0d || w[i]
            == 0x0a)
}

/// The bytes are letters, underscores, colons and hyphens.
pub open spec fn label_bytes(n: Seq<u8>) -> bool {
    forall|i: int|
        0 <= i < n.len() ==> ((0x41 <= #[trigger] n[i] <= 0x5a) || (0x61 <= n[i] <= 0x7a) || n[i]
            == 0x5f || n[i] == 0x3a || n[i] == 0x2d)
}

/// The letters `encoding`, in any case.
pub open spec fn encoding_word(n: Seq<u8>) -> bool {
    let w = seq![0x65u8, 0x6e, 0x63, 0x6f, 0x64, 0x69, 0x6e, 0x67];
    n.len() == w.len() && forall|i: int|
        0 <= i < w.len() ==> (#[trigger] n[i] == w[i] || n[i] + 0x20 == w[i])
}

/// A byte of what stands at `i`.
proof fn lemma_byte_at(b: Seq<u8>, i: int, t: Seq<u8>)
    requires
        bytes_at(b, i, t),
    ensures
        0 <= i,
        i + t.len() <= b.len(),
        forall|k: int| 0 <= k < t.len() ==> #[trigger] t[k] == b[i + k],
{
    let w = b.subrange(i, i + t.len());
    assert forall|k: int| 0 <= k < t.len() implies #[trigger] t[k] == b[i + k] by {
        assert(w[k] == b[i + k]);
    }
}

/// Bytes one behind the other stand at `i`.
proof fn lemma_bytes_split(b: Seq<u8>, i: int, x: Seq<u8>, y: Seq<u8>)
    ensures
        bytes_at(b, i, x + y) == (bytes_at(b, i, x) && bytes_at(b, i + x.len(), y)),
{
    let n = x.len() as int;
    let m = y.len() as int;
    if bytes_at(b, i, x + y) {
        let w = b.subrange(i, i + (x + y).len());
        assert(b.subrange(i, i + n) =~= w.subrange(0, n));
        assert((x + y).subrange(0, n) =~= x);
        assert(b.subrange(i + n, i + n + m) =~= w.subrange(n, n + m));
        assert((x + y).subrange(n, n + m) =~= y);
    }
    if bytes_at(b, i, x) && bytes_at(b, i + n, y) {
        assert(b.subrange(i, i + n + m) =~= b.subrange(i, i + n) + b.subrange(i + n, i + n + m));
    }
}

proof fn lemma_blanks_end(b: Seq<u8>, i: int, j: int)
    requires
        0 <= i <= j <= b.len(),
        forall|k: int| i <= k < j ==> byte_space(#[trigger] b[k]),
        j < b.len() ==> !byte_space(b[j]),
    ensures
        byte_space_end(b, i) == j,
    decreases j - i,
{
    if i < j {
        lemma_blanks_end(b, i + 1, j);
    }
}

proof fn lemma_label_bytes_end(b: Seq<u8>, i: int, j: int)
    requires
        0 <= i <= j <= b.len(),
        forall|k: int| i <= k < j ==> label_byte(#[trigger] b[k]),
        j < b.len() ==> !label_byte(b[j]),
    ensures
        label_name_end(b, i) == j,
    decreases j - i,
{
    if i < j {
        lemma_label_bytes_end(b, i + 1, j);
    }
}

proof fn lemma_quote_end(b: Seq<u8>, i: int, j: int, q: u8)
    requires
        0 <= i <= j < b.len(),
        forall|k: int| i <= k < j ==> #[trigger] b[k] != q,
        b[j] == q,
    ensures
        byte_from(b, i, q) == j,
    decreases j - i,
{
    if i < j {
        lemma_quote_end(b, i + 1, j, q);
    }
}

/// A pseudo-attribute: white space, a name, an equals sign that white space may stand round, and
/// a value between quotation marks.
pub open spec fn pseudo_attribute(
    w: Seq<u8>,
    name: Seq<u8>,
    x: Seq<u8>,
    y: Seq<u8>,
    q: u8,
    value: Seq<u8>,
) -> Seq<u8> {
    w + name + x + seq![0x3du8] + y + seq![q] + value + seq![q]
}

/// A pseudo-attribute is read whichever of the two quotation marks it uses: if its name is
/// `encoding`, in any case, its value is the label, else the search goes on behind it.
pub proof fn lemma_pseudo_attribute(
    d: Seq<u8>,
    i: int,
    w: Seq<u8>,
    name: Seq<u8>,
    x: Seq<u8>,
    y: Seq<u8>,
    q: u8,
    value: Seq<u8>,
)
    requires
        bytes_at(d, i, pseudo_attribute(w, name, x, y, q, value)),
        blank_bytes(w),
        blank_bytes(x),
        blank_bytes(y),
        name.len() > 0,
        label_bytes(name),
        q == 0x22 || q == 0x27,
        !value.contains(q),
    ensures
        ({
            let from = i + w.len() + name.len() + x.len() + y.len() + 2;
            let to = from + value.len();
            if encoding_word(name) {
                &&& label_range(d, i) == Some((from, to))
                &&& d.subrange(from, to) == value
            } else {
                label_range(d, i) == label_range(d, to + 1)
            }
        }),
{
    let a = i + w.len();
    let n = a + name.len();
    let e = n + x.len();
    let v = e + 1 + y.len();
    let from = v + 1;
    let to = from + value.len();
    lemma_bytes_split(d, i, w + name + x + seq![0x3du8] + y + seq![q] + value, seq![q]);
    lemma_bytes_split(d, i, w + name + x + seq![0x3du8] + y + seq![q], value);
    lemma_bytes_split(d, i, w + name + x + seq![0x3du8] + y, seq![q]);
    lemma_bytes_split(d, i, w + name + x + seq![0x3du8], y);
    lemma_bytes_split(d, i, w + name + x, seq![0x3du8]);
    lemma_bytes_split(d, i, w + name, x);
    lemma_bytes_split(d, i, w, name);
    lemma_byte_at(d, i, w);
    lemma_byte_at(d, a, name);
    lemma_byte_at(d, n, x);
    lemma_byte_at(d, e, seq![0x3du8]);
    lemma_byte_at(d, e + 1, y);
    lemma_byte_at(d, v, seq![q]);
    lemma_byte_at(d, from, value);
    lemma_byte_at(d, to, seq![q]);
    assert(seq![0x3du8][0] == d[e + 0]);
    assert(seq![q][0] == d[v + 0]);
    assert(seq![q][0] == d[to + 0]);
    assert forall|k: int| i <= k < a implies byte_space(#[trigger] d[k]) by {
        assert(w[k - i] == d[i + (k - i)]);
    }
    assert forall|k: int| a <= k < n implies label_byte(#[trigger] d[k]) by {
        assert(name[k - a] == d[a + (k - a)]);
    }
    assert forall|k: int| n <= k < e implies byte_space(#[trigger] d[k]) by {
        assert(x[k - n] == d[n + (k - n)]);
    }
    assert forall|k: int| e + 1 <= k < v implies byte_space(#[trigger] d[k]) by {
        assert(y[k - e - 1] == d[e + 1 + (k - e - 1)]);
    }
    assert forall|k: int| from <= k < to implies #[trigger] d[k] != q by {
        assert(value[k - from] == d[from + (k - from)]);
        assert(value.contains(value[k - from]));
    }
    assert(label_byte(d[a]));
    lemma_blanks_end(d, i, a);
    assert(x.len() > 0 ==> byte_space(d[n]));
    lemma_label_bytes_end(d, a, n);
    lemma_blanks_end(d, n, e);
    lemma_blanks_end(d, e + 1, v);
    lemma_quote_end(d, from, to, q);
    assert(d.subrange(from, to) =~= value);
    assert(d.subrange(a, n) =~= name);
    lemma_encoding_word(name);
}

/// The word `encoding`.
proof fn lemma_encoding_word(n: Seq<u8>)
    ensures
        is_encoding_name(n) == encoding_word(n),
{
    let w = seq![0x65u8, 0x6e, 0x63, 0x6f, 0x64, 0x69, 0x6e, 0x67];
    assert(w[0] == 0x65 && w[1] == 0x6e && w[2] == 0x63 && w[3] == 0x6f && w[4] == 0x64 && w[5]
        == 0x69 && w[6] == 0x6e && w[7] == 0x67);
    if encoding_word(n) {
        assert(n[0] == w[0] || n[0] + 0x20 == w[0]);
        assert(n[1] == w[1] || n[1] + 0x20 == w[1]);
        assert(n[2] == w[2] || n[2] + 0x20 == w[2]);
        assert(n[3] == w[3] || n[3] + 0x20 == w[3]);
        assert(n[4] == w[4] || n[4] + 0x20 == w[4]);
        assert(n[5] == w[5] || n[5] + 0x20 == w[5]);
        assert(n[6] == w[6] || n[6] + 0x20 == w[6]);
        assert(n[7] == w[7] || n[7] + 0x20 == w[7]);
    }
}

/// The bytes ` version=`, a quotation mark, `1.0` and the mark again.
pub open spec fn version_bytes(q: u8) -> Seq<u8> {
    pseudo_attribute(
        seq![0x20u8],
        seq![0x76u8, 0x65, 0x72, 0x73, 0x69, 0x6f, 0x6e],
        Seq::empty(),
        Seq::empty(),
        q,
        seq![0x31u8, 0x2e, 0x30],
    )
}

/// The bytes ` encoding=`, and a label between quotation marks.
pub open spec fn encoding_bytes(q: u8, label: Seq<u8>) -> Seq<u8> {
    pseudo_attribute(
        seq![0x20u8],
        seq![0x65u8, 0x6e, 0x63, 0x6f, 0x64, 0x69, 0x6e, 0x67],
        Seq::empty(),
        Seq::empty(),
        q,
        label,
    )
}

/// The bytes of an XML declaration with a version and an encoding, and `rest` behind it.
pub open spec fn declared_bytes(q: u8, label: Seq<u8>, rest: Seq<u8>) -> Seq<u8> {
    seq![0x3cu8, 0x3f, 0x78, 0x6d, 0x6c] + version_bytes(q) + encoding_bytes(q, label) + seq![
        0x3fu8,
        0x3e,
    ] + rest
}

/// The end of a declaration is found where it stands.
proof fn lemma_close(b: Seq<u8>, i: int, j: int)
    requires
        0 <= i <= j,
        j + 1 < b.len(),
        b[j] == 0x3f,
        b[j + 1] == 0x3e,
        forall|k: int| i <= k < j ==> #[trigger] b[k] != 0x3f,
    ensures
        declaration_close(b, i) == Some(j),
    decreases j - i,
{
    if i < j {
        lemma_close(b, i + 1, j);
    }
}

/// The label of a declaration is found whichever quotation marks the declaration uses.
pub proof fn lemma_label_is_found(q: u8, label: Seq<u8>, rest: Seq<u8>)
    requires
        q == 0x22 || q == 0x27,
        !label.contains(q),
        !label.contains(0x3f),
        valid_utf8(label),
    ensures
        declared_label(declared_bytes(q, label, rest)) == Ok::<Option<Seq<char>>, ErrorModel>(
            Some(decode_utf8(label)),
        ),
{
    let b = declared_bytes(q, label, rest);
    let ver = seq![0x76u8, 0x65, 0x72, 0x73, 0x69, 0x6f, 0x6e];
    let enc = seq![0x65u8, 0x6e, 0x63, 0x6f, 0x64, 0x69, 0x6e, 0x67];
    let one = seq![0x31u8, 0x2e, 0x30];
    let d = version_bytes(q) + encoding_bytes(q, label);
    let v = version_bytes(q).len() as int;
    lemma_declaration_found(q, label, rest);
    assert(d.subrange(0, v) =~= version_bytes(q));
    assert(d.subrange(v, d.len() as int) =~= encoding_bytes(q, label));
    assert(!one.contains(q)) by {
        assert(one[0] != q && one[1] != q && one[2] != q);
    }
    assert(label_bytes(ver));
    assert(label_bytes(enc));
    assert(blank_bytes(seq![0x20u8]));
    assert(!encoding_word(ver));
    assert(encoding_word(enc));
    lemma_pseudo_attribute(d, 0, seq![0x20u8], ver, Seq::empty(), Seq::empty(), q, one);
    lemma_pseudo_attribute(d, v, seq![0x20u8], enc, Seq::empty(), Seq::empty(), q, label);
}

/// The bytes of a pseudo-attribute without white space round its equals sign hold a question mark
/// only if its parts do.
proof fn lemma_no_question_mark(name: Seq<u8>, q: u8, value: Seq<u8>, k: int)
    requires
        q == 0x22 || q == 0x27,
        !name.contains(0x3f),
        !value.contains(0x3f),
        0 <= k < name.len() + value.len() + 4,
    ensures
        pseudo_attribute(seq![0x20u8], name, Seq::empty(), Seq::empty(), q, value).len()
            == name.len() + value.len() + 4,
        pseudo_attribute(seq![0x20u8], name, Seq::empty(), Seq::empty(), q, value)[k] != 0x3f,
{
    let w = pseudo_attribute(seq![0x20u8], name, Seq::empty(), Seq::empty(), q, value);
    if 1 <= k < 1 + name.len() {
        assert(w[k] == name[k - 1]);
        assert(name.contains(name[k - 1]));
    } else if 3 + name.len() <= k < 3 + name.len() + value.len() {
        assert(w[k] == value[k - 3 - name.len()]);
        assert(value.contains(value[k - 3 - name.len()]));
    }
}

/// The declaration is found, and what stands in it.
proof fn lemma_declaration_found(q: u8, label: Seq<u8>, rest: Seq<u8>)
    requires
        q == 0x22 || q == 0x27,
        !label.contains(0x3f),
    ensures
        ({
            let b = declared_bytes(q, label, rest);
            let d = version_bytes(q) + encoding_bytes(q, label);
            &&& byte_space_end(b, 0) == 0
            &&& bytes_at(b, 0, declaration_open())
            &&& declaration_close(b, 5) == Some(5 + d.len() as int)
            &&& b.subrange(5, 5 + d.len() as int) == d
        }),
{
    let b = declared_bytes(q, label, rest);
    let open = seq![0x3cu8, 0x3f, 0x78, 0x6d, 0x6c];
    let ver = seq![0x76u8, 0x65, 0x72, 0x73, 0x69, 0x6f, 0x6e];
    let enc = seq![0x65u8, 0x6e, 0x63, 0x6f, 0x64, 0x69, 0x6e, 0x67];
    let one = seq![0x31u8, 0x2e, 0x30];
    let x = version_bytes(q);
    let y = encoding_bytes(q, label);
    let d = x + y;
    let v = x.len() as int;
    let end = 5 + d.len() as int;
    let tail = seq![0x3fu8, 0x3e] + rest;
    assert(b =~= open + d + tail);
    assert(b.subrange(0, 5) =~= declaration_open());
    assert(b[0] == open[0]);
    assert(b.subrange(5, end) =~= d);
    assert(b[end] == tail[0]);
    assert(b[end + 1] == tail[1]);
    assert(!ver.contains(0x3f));
    assert(!enc.contains(0x3f));
    assert(!one.contains(0x3f));
    lemma_no_question_mark(ver, q, one, 0);
    lemma_no_question_mark(enc, q, label, 0);
    assert forall|k: int| 5 <= k < end implies #[trigger] b[k] != 0x3f by {
        let m = k - 5;
        assert(b[k] == d[m]);
        if m < v {
            assert(d[m] == x[m]);
            lemma_no_question_mark(ver, q, one, m);
        } else {
            assert(d[m] == y[m - v]);
            lemma_no_question_mark(enc, q, label, m - v);
        }
    }
    lemma_close(b, 5, end);
}

/// Bytes with a declaration start with no mark and with no sign of a wider encoding.
proof fn lemma_unmarked(q: u8, label: Seq<u8>, rest: Seq<u8>)
    ensures
        marked(declared_bytes(q, label, rest)) is None,
        signed(declared_bytes(q, label, rest)) is None,
{
    let b = declared_bytes(q, label, rest);
    assert(b[0] == 0x3c);
    assert(b[1] == 0x3f);
    lemma_starts_with(b);
}

/// Bytes that start with `<` and another ASCII character have no mark and no sign.
proof fn lemma_starts_with(b: Seq<u8>)
    requires
        b.len() > 1,
        b[0] == 0x3c,
        b[1] != 0,
    ensures
        marked(b) is None,
        signed(b) is None,
{
    let marks = seq![
        byte_order_mark(XmlInputEncoding::Utf8),
        byte_order_mark(XmlInputEncoding::Utf32Be),
        byte_order_mark(XmlInputEncoding::Utf32Le),
        byte_order_mark(XmlInputEncoding::Utf16Be),
        byte_order_mark(XmlInputEncoding::Utf16Le),
        seq![0x00u8, 0x00, 0x00, 0x3c],
        seq![0x3cu8, 0x00, 0x00, 0x00],
        seq![0x00u8, 0x3c, 0x00, 0x3f],
        seq![0x3cu8, 0x00, 0x3f, 0x00],
    ];
    assert forall|k: int| 0 <= k < marks.len() implies !bytes_at(b, 0, #[trigger] marks[k]) by {
        if bytes_at(b, 0, marks[k]) {
            lemma_byte_at(b, 0, marks[k]);
            assert(marks[k][0] == b[0]);
            assert(marks[k][1] == b[1]);
        }
    }
    assert(!bytes_at(b, 0, marks[0]));
    assert(!bytes_at(b, 0, marks[1]));
    assert(!bytes_at(b, 0, marks[2]));
    assert(!bytes_at(b, 0, marks[3]));
    assert(!bytes_at(b, 0, marks[4]));
    assert(!bytes_at(b, 0, marks[5]));
    assert(!bytes_at(b, 0, marks[6]));
    assert(!bytes_at(b, 0, marks[7]));
    assert(!bytes_at(b, 0, marks[8]));
}

/// Bytes that declare an encoding are decoded with it, whichever quotation marks they declare it
/// in; Latin-1 bytes become the characters with their codes. A label that is not known is
/// reported.
pub proof fn lemma_declared_encoding_decodes(q: u8, label: Seq<u8>, rest: Seq<u8>)
    requires
        q == 0x22 || q == 0x27,
        !label.contains(q),
        !label.contains(0x3f),
        valid_utf8(label),
    ensures
        ({
            let b = declared_bytes(q, label, rest);
            match labelled(decode_utf8(label)) {
                Some(e) => {
                    &&& detected(b) == Ok::<(XmlInputEncoding, int), ErrorModel>((e, 0))
                    &&& decoded(b) matches Ok((_, x)) ==> x == e
                    &&& e == XmlInputEncoding::Latin1 ==> (decoded(b) matches Ok((t, _)) && t.len()
                        == b.len() && forall|i: int|
                        0 <= i < b.len() ==> #[trigger] t[i] as u32 == b[i])
                    &&& e == XmlInputEncoding::Utf8 && valid_utf8(b) ==> decoded(b) == Ok::<
                        (Seq<char>, XmlInputEncoding),
                        ErrorModel,
                    >((decode_utf8(b), XmlInputEncoding::Utf8))
                    &&& e == XmlInputEncoding::UsAscii && (forall|i: int|
                        0 <= i < b.len() ==> #[trigger] b[i] < 0x80) ==> decoded(b) == Ok::<
                        (Seq<char>, XmlInputEncoding),
                        ErrorModel,
                    >((decode_utf8(b), XmlInputEncoding::UsAscii))
                },
                None => decoded(b) == Err::<(Seq<char>, XmlInputEncoding), ErrorModel>(
                    ErrorModel {
                        kind: ErrorKindModel::UnsupportedEncoding(decode_utf8(label)),
                        byte: 0,
                    },
                ),
            }
        }),
{
    let b = declared_bytes(q, label, rest);
    lemma_label_is_found(q, label, rest);
    lemma_unmarked(q, label, rest);
    assert(b.skip(0) =~= b);
    if forall|i: int| 0 <= i < b.len() ==> #[trigger] b[i] < 0x80 {
        lemma_all_ascii(b, 0);
    }
}

/// Where every byte is ASCII, none is found that is not.
proof fn lemma_all_ascii(b: Seq<u8>, i: int)
    requires
        0 <= i <= b.len(),
        forall|i: int| 0 <= i < b.len() ==> #[trigger] b[i] < 0x80,
    ensures
        crate::encoding::first_non_ascii(b, i) is None,
    decreases b.len() - i,
{
    if i < b.len() {
        assert(b[i] < 0x80);
        lemma_all_ascii(b, i + 1);
    }
}

/// A label without white space at its ends, and another one that differs from it only in the case
/// of letters and in underscores for hyphens, name the same encoding.
pub proof fn lemma_label_case(a: Seq<char>, b: Seq<char>)
    requires
        a.len() == b.len(),
        a.len() > 0,
        !white_space(a[0]) && !white_space(a.last()),
        !white_space(b[0]) && !white_space(b.last()),
        forall|i: int|
            0 <= i < a.len() ==> (#[trigger] a[i] == b[i] || ('A' <= a[i] && a[i] <= 'Z' && b[i]
                as u32 == a[i] as u32 + 32) || (a[i] == '_' && b[i] == '-')),
    ensures
        labelled(a) == labelled(b),
        forall|e: XmlInputEncoding| #[trigger] label_matches(a, e) == label_matches(b, e),
{
    lemma_unstripped(a);
    lemma_unstripped(b);
    assert forall|t: Seq<char>| #[trigger] label_is(a, t) == label_is(b, t) by {
        assert forall|i: int| 0 <= i < a.len() implies folded(#[trigger] a[i]) == folded(b[i]) by {
            lemma_folded(a[i], b[i]);
        }
        if label_is(a, t) {
            assert forall|i: int| 0 <= i < t.len() implies folded(b[i]) == #[trigger] t[i] as u32 by {
                assert(folded(a[i]) == folded(b[i]));
            }
        }
        if label_is(b, t) {
            assert forall|i: int| 0 <= i < t.len() implies folded(a[i]) == #[trigger] t[i] as u32 by {
                assert(folded(a[i]) == folded(b[i]));
            }
        }
    }
}

proof fn lemma_folded(a: char, b: char)
    requires
        a == b || ('A' <= a && a <= 'Z' && b as u32 == a as u32 + 32) || (a == '_' && b == '-'),
    ensures
        folded(a) == folded(b),
{
}

proof fn lemma_unstripped(b: Seq<char>)
    requires
        b.len() > 0,
        !white_space(b[0]),
        !white_space(b.last()),
    ensures
        stripped(b) == b,
{
    assert(crate::encoding::strip_start(b, 0) == 0);
    assert(crate::encoding::strip_end(b, 0, b.len() as int) == b.len());
    assert(b.subrange(0, b.len() as int) =~= b);
}

/// A label in lower case with hyphens is itself.
proof fn lemma_own_label(t: Seq<char>)
    requires
        t.len() > 0,
        forall|i: int|
            0 <= i < t.len() ==> (('a' <= #[trigger] t[i] && t[i] <= 'z') || ('0' <= t[i] && t[i]
                <= '9') || t[i] == '-'),
    ensures
        forall|x: Seq<char>| #[trigger] label_is(t, x) == (t == x),
{
    lemma_plain_character(t[0]);
    lemma_plain_character(t.last());
    lemma_unstripped(t);
    assert forall|x: Seq<char>| #[trigger] label_is(t, x) == (t == x) by {
        assert forall|i: int| 0 <= i < t.len() implies folded(#[trigger] t[i]) == t[i] as u32 by {
            lemma_plain_character(t[i]);
        }
        if label_is(t, x) {
            assert forall|i: int| 0 <= i < t.len() implies t[i] == x[i] by {
                assert(folded(t[i]) == x[i] as u32);
                lemma_same_code(t[i], x[i]);
            }
            assert(t =~= x);
        }
        if t == x {
            assert forall|i: int| 0 <= i < x.len() implies folded(t[i]) == #[trigger] x[i] as u32 by {
                assert(folded(t[i]) == t[i] as u32);
            }
        }
    }
}

proof fn lemma_same_code(a: char, b: char)
    requires
        a as u32 == b as u32,
    ensures
        a == b,
{
}

proof fn lemma_plain_character(c: char)
    requires
        ('a' <= c && c <= 'z') || ('0' <= c && c <= '9') || c == '-',
    ensures
        !white_space(c),
        folded(c) == c as u32,
{
}

/// Letters in lower case, digits and hyphens.
spec fn plain_label(t: Seq<char>) -> bool {
    t.len() > 0 && forall|i: int|
        0 <= i < t.len() ==> (('a' <= #[trigger] t[i] && t[i] <= 'z') || ('0' <= t[i] && t[i]
            <= '9') || t[i] == '-')
}

/// Such a label is another one if it has another length or another character somewhere.
proof fn lemma_other_label(t: Seq<char>, x: Seq<char>, k: int)
    requires
        plain_label(t),
        t.len() != x.len() || (0 <= k < t.len() && t[k] != x[k]),
    ensures
        !label_is(t, x),
{
    lemma_own_label(t);
    assert(label_is(t, x) == (t == x));
}

/// Such a label is itself.
proof fn lemma_same_label(t: Seq<char>)
    requires
        plain_label(t),
    ensures
        label_is(t, t),
{
    lemma_own_label(t);
    assert(label_is(t, t) == (t == t));
}

proof fn lemma_label_utf_8()
    ensures
        labelled("utf-8"@) == Some(XmlInputEncoding::Utf8),
{
    reveal_strlit("utf-8");
    assert(plain_label("utf-8"@));
    lemma_same_label("utf-8"@);
}

proof fn lemma_label_utf8()
    ensures
        labelled("utf8"@) == Some(XmlInputEncoding::Utf8),
{
    reveal_strlit("utf8");
    assert(plain_label("utf8"@));
    assert(!label_is("utf8"@, "utf-8"@)) by {
        reveal_strlit("utf-8");
        lemma_other_label("utf8"@, "utf-8"@, 0);
    }
    lemma_same_label("utf8"@);
}

proof fn lemma_label_us_ascii()
    ensures
        labelled("us-ascii"@) == Some(XmlInputEncoding::UsAscii),
{
    reveal_strlit("us-ascii");
    assert(plain_label("us-ascii"@));
    assert(!label_is("us-ascii"@, "utf-8"@)) by {
        reveal_strlit("utf-8");
        lemma_other_label("us-ascii"@, "utf-8"@, 0);
    }
    assert(!label_is("us-ascii"@, "utf8"@)) by {
        reveal_strlit("utf8");
        lemma_other_label("us-ascii"@, "utf8"@, 0);
    }
    lemma_same_label("us-ascii"@);
}

proof fn lemma_label_ascii()
    ensures
        labelled("ascii"@) == Some(XmlInputEncoding::UsAscii),
{
    reveal_strlit("ascii");
    assert(plain_label("ascii"@));
    assert(!label_is("ascii"@, "utf-8"@)) by {
        reveal_strlit("utf-8");
        lemma_other_label("ascii"@, "utf-8"@, 0);
    }
    assert(!label_is("ascii"@, "utf8"@)) by {
        reveal_strlit("utf8");
        lemma_other_label("ascii"@, "utf8"@, 0);
    }
    assert(!label_is("ascii"@, "us-ascii"@)) by {
        reveal_strlit("us-ascii");
        lemma_other_label("ascii"@, "us-ascii"@, 0);
    }
    lemma_same_label("ascii"@);
}

proof fn lemma_label_utf_16le()
    ensures
        labelled("utf-16le"@) == Some(XmlInputEncoding::Utf16Le),
{
    reveal_strlit("utf-16le");
    assert(plain_label("utf-16le"@));
    assert(!label_is("utf-16le"@, "utf-8"@)) by {
        reveal_strlit("utf-8");
        lemma_other_label("utf-16le"@, "utf-8"@, 0);
    }
    assert(!label_is("utf-16le"@, "utf8"@)) by {
        reveal_strlit("utf8");
        lemma_other_label("utf-16le"@, "utf8"@, 0);
    }
    assert(!label_is("utf-16le"@, "us-ascii"@)) by {
        reveal_strlit("us-ascii");
        lemma_other_label("utf-16le"@, "us-ascii"@, 1);
    }
    assert(!label_is("utf-16le"@, "ascii"@)) by {
        reveal_strlit("ascii");
        lemma_other_label("utf-16le"@, "ascii"@, 0);
    }
    lemma_same_label("utf-16le"@);
}

proof fn lemma_label_utf_16be()
    ensures
        labelled("utf-16be"@) == Some(XmlInputEncoding::Utf16Be),
{
    reveal_strlit("utf-16be");
    assert(plain_label("utf-16be"@));
    assert(!label_is("utf-16be"@, "utf-8"@)) by {
        reveal_strlit("utf-8");
        lemma_other_label("utf-16be"@, "utf-8"@, 0);
    }
    assert(!label_is("utf-16be"@, "utf8"@)) by {
        reveal_strlit("utf8");
        lemma_other_label("utf-16be"@, "utf8"@, 0);
    }
    assert(!label_is("utf-16be"@, "us-ascii"@)) by {
        reveal_strlit("us-ascii");
        lemma_other_label("utf-16be"@, "us-ascii"@, 1);
    }
    assert(!label_is("utf-16be"@, "ascii"@)) by {
        reveal_strlit("ascii");
        lemma_other_label("utf-16be"@, "ascii"@, 0);
    }
    assert(!label_is("utf-16be"@, "utf-16le"@)) by {
        reveal_strlit("utf-16le");
        lemma_other_label("utf-16be"@, "utf-16le"@, 6);
    }
    lemma_same_label("utf-16be"@);
}

proof fn lemma_label_utf_32le()
    ensures
        labelled("utf-32le"@) == Some(XmlInputEncoding::Utf32Le),
{
    reveal_strlit("utf-32le");
    assert(plain_label("utf-32le"@));
    assert(!label_is("utf-32le"@, "utf-8"@)) by {
        reveal_strlit("utf-8");
        lemma_other_label("utf-32le"@, "utf-8"@, 0);
    }
    assert(!label_is("utf-32le"@, "utf8"@)) by {
        reveal_strlit("utf8");
        lemma_other_label("utf-32le"@, "utf8"@, 0);
    }
    assert(!label_is("utf-32le"@, "us-ascii"@)) by {
        reveal_strlit("us-ascii");
        lemma_other_label("utf-32le"@, "us-ascii"@, 1);
    }
    assert(!label_is("utf-32le"@, "ascii"@)) by {
        reveal_strlit("ascii");
        lemma_other_label("utf-32le"@, "ascii"@, 0);
    }
    assert(!label_is("utf-32le"@, "utf-16le"@)) by {
        reveal_strlit("utf-16le");
        lemma_other_label("utf-32le"@, "utf-16le"@, 4);
    }
    assert(!label_is("utf-32le"@, "utf-16be"@)) by {
        reveal_strlit("utf-16be");
        lemma_other_label("utf-32le"@, "utf-16be"@, 4);
    }
    lemma_same_label("utf-32le"@);
}

proof fn lemma_label_ucs_4le()
    ensures
        labelled("ucs-4le"@) == Some(XmlInputEncoding::Utf32Le),
{
    reveal_strlit("ucs-4le");
    assert(plain_label("ucs-4le"@));
    assert(!label_is("ucs-4le"@, "utf-8"@)) by {
        reveal_strlit("utf-8");
        lemma_other_label("ucs-4le"@, "utf-8"@, 0);
    }
    assert(!label_is("ucs-4le"@, "utf8"@)) by {
        reveal_strlit("utf8");
        lemma_other_label("ucs-4le"@, "utf8"@, 0);
    }
    assert(!label_is("ucs-4le"@, "us-ascii"@)) by {
        reveal_strlit("us-ascii");
        lemma_other_label("ucs-4le"@, "us-ascii"@, 0);
    }
    assert(!label_is("ucs-4le"@, "ascii"@)) by {
        reveal_strlit("ascii");
        lemma_other_label("ucs-4le"@, "ascii"@, 0);
    }
    assert(!label_is("ucs-4le"@, "utf-16le"@)) by {
        reveal_strlit("utf-16le");
        lemma_other_label("ucs-4le"@, "utf-16le"@, 0);
    }
    assert(!label_is("ucs-4le"@, "utf-16be"@)) by {
        reveal_strlit("utf-16be");
        lemma_other_label("ucs-4le"@, "utf-16be"@, 0);
    }
    assert(!label_is("ucs-4le"@, "utf-32le"@)) by {
        reveal_strlit("utf-32le");
        lemma_other_label("ucs-4le"@, "utf-32le"@, 0);
    }
    lemma_same_label("ucs-4le"@);
}

proof fn lemma_label_utf_32be()
    ensures
        labelled("utf-32be"@) == Some(XmlInputEncoding::Utf32Be),
{
    reveal_strlit("utf-32be");
    assert(plain_label("utf-32be"@));
    assert(!label_is("utf-32be"@, "utf-8"@)) by {
        reveal_strlit("utf-8");
        lemma_other_label("utf-32be"@, "utf-8"@, 0);
    }
    assert(!label_is("utf-32be"@, "utf8"@)) by {
        reveal_strlit("utf8");
        lemma_other_label("utf-32be"@, "utf8"@, 0);
    }
    assert(!label_is("utf-32be"@, "us-ascii"@)) by {
        reveal_strlit("us-ascii");
        lemma_other_label("utf-32be"@, "us-ascii"@, 1);
    }
    assert(!label_is("utf-32be"@, "ascii"@)) by {
        reveal_strlit("ascii");
        lemma_other_label("utf-32be"@, "ascii"@, 0);
    }
    assert(!label_is("utf-32be"@, "utf-16le"@)) by {
        reveal_strlit("utf-16le");
        lemma_other_label("utf-32be"@, "utf-16le"@, 4);
    }
    assert(!label_is("utf-32be"@, "utf-16be"@)) by {
        reveal_strlit("utf-16be");
        lemma_other_label("utf-32be"@, "utf-16be"@, 4);
    }
    assert(!label_is("utf-32be"@, "utf-32le"@)) by {
        reveal_strlit("utf-32le");
        lemma_other_label("utf-32be"@, "utf-32le"@, 6);
    }
    assert(!label_is("utf-32be"@, "ucs-4le"@)) by {
        reveal_strlit("ucs-4le");
        lemma_other_label("utf-32be"@, "ucs-4le"@, 0);
    }
    lemma_same_label("utf-32be"@);
}

proof fn lemma_label_ucs_4be()
    ensures
        labelled("ucs-4be"@) == Some(XmlInputEncoding::Utf32Be),
{
    reveal_strlit("ucs-4be");
    assert(plain_label("ucs-4be"@));
    assert(!label_is("ucs-4be"@, "utf-8"@)) by {
        reveal_strlit("utf-8");
        lemma_other_label("ucs-4be"@, "utf-8"@, 0);
    }
    assert(!label_is("ucs-4be"@, "utf8"@)) by {
        reveal_strlit("utf8");
        lemma_other_label("ucs-4be"@, "utf8"@, 0);
    }
    assert(!label_is("ucs-4be"@, "us-ascii"@)) by {
        reveal_strlit("us-ascii");
        lemma_other_label("ucs-4be"@, "us-ascii"@, 0);
    }
    assert(!label_is("ucs-4be"@, "ascii"@)) by {
        reveal_strlit("ascii");
        lemma_other_label("ucs-4be"@, "ascii"@, 0);
    }
    assert(!label_is("ucs-4be"@, "utf-16le"@)) by {
        reveal_strlit("utf-16le");
        lemma_other_label("ucs-4be"@, "utf-16le"@, 0);
    }
    assert(!label_is("ucs-4be"@, "utf-16be"@)) by {
        reveal_strlit("utf-16be");
        lemma_other_label("ucs-4be"@, "utf-16be"@, 0);
    }
    assert(!label_is("ucs-4be"@, "utf-32le"@)) by {
        reveal_strlit("utf-32le");
        lemma_other_label("ucs-4be"@, "utf-32le"@, 0);
    }
    assert(!label_is("ucs-4be"@, "ucs-4le"@)) by {
        reveal_strlit("ucs-4le");
        lemma_other_label("ucs-4be"@, "ucs-4le"@, 5);
    }
    assert(!label_is("ucs-4be"@, "utf-32be"@)) by {
        reveal_strlit("utf-32be");
        lemma_other_label("ucs-4be"@, "utf-32be"@, 0);
    }
    lemma_same_label("ucs-4be"@);
}

proof fn lemma_label_iso_8859_1()
    ensures
        labelled("iso-8859-1"@) == Some(XmlInputEncoding::Latin1),
{
    reveal_strlit("iso-8859-1");
    assert(plain_label("iso-8859-1"@));
    assert(!label_is("iso-8859-1"@, "utf-8"@)) by {
        reveal_strlit("utf-8");
        lemma_other_label("iso-8859-1"@, "utf-8"@, 0);
    }
    assert(!label_is("iso-8859-1"@, "utf8"@)) by {
        reveal_strlit("utf8");
        lemma_other_label("iso-8859-1"@, "utf8"@, 0);
    }
    assert(!label_is("iso-8859-1"@, "us-ascii"@)) by {
        reveal_strlit("us-ascii");
        lemma_other_label("iso-8859-1"@, "us-ascii"@, 0);
    }
    assert(!label_is("iso-8859-1"@, "ascii"@)) by {
        reveal_strlit("ascii");
        lemma_other_label("iso-8859-1"@, "ascii"@, 0);
    }
    assert(!label_is("iso-8859-1"@, "utf-16le"@)) by {
        reveal_strlit("utf-16le");
        lemma_other_label("iso-8859-1"@, "utf-16le"@, 0);
    }
    assert(!label_is("iso-8859-1"@, "utf-16be"@)) by {
        reveal_strlit("utf-16be");
        lemma_other_label("iso-8859-1"@, "utf-16be"@, 0);
    }
    assert(!label_is("iso-8859-1"@, "utf-32le"@)) by {
        reveal_strlit("utf-32le");
        lemma_other_label("iso-8859-1"@, "utf-32le"@, 0);
    }
    assert(!label_is("iso-8859-1"@, "ucs-4le"@)) by {
        reveal_strlit("ucs-4le");
        lemma_other_label("iso-8859-1"@, "ucs-4le"@, 0);
    }
    assert(!label_is("iso-8859-1"@, "utf-32be"@)) by {
        reveal_strlit("utf-32be");
        lemma_other_label("iso-8859-1"@, "utf-32be"@, 0);
    }
    assert(!label_is("iso-8859-1"@, "ucs-4be"@)) by {
        reveal_strlit("ucs-4be");
        lemma_other_label("iso-8859-1"@, "ucs-4be"@, 0);
    }
    lemma_same_label("iso-8859-1"@);
}

proof fn lemma_label_latin1()
    ensures
        labelled("latin1"@) == Some(XmlInputEncoding::Latin1),
{
    reveal_strlit("latin1");
    assert(plain_label("latin1"@));
    assert(!label_is("latin1"@, "utf-8"@)) by {
        reveal_strlit("utf-8");
        lemma_other_label("latin1"@, "utf-8"@, 0);
    }
    assert(!label_is("latin1"@, "utf8"@)) by {
        reveal_strlit("utf8");
        lemma_other_label("latin1"@, "utf8"@, 0);
    }
    assert(!label_is("latin1"@, "us-ascii"@)) by {
        reveal_strlit("us-ascii");
        lemma_other_label("latin1"@, "us-ascii"@, 0);
    }
    assert(!label_is("latin1"@, "ascii"@)) by {
        reveal_strlit("ascii");
        lemma_other_label("latin1"@, "ascii"@, 0);
    }
    assert(!label_is("latin1"@, "utf-16le"@)) by {
        reveal_strlit("utf-16le");
        lemma_other_label("latin1"@, "utf-16le"@, 0);
    }
    assert(!label_is("latin1"@, "utf-16be"@)) by {
        reveal_strlit("utf-16be");
        lemma_other_label("latin1"@, "utf-16be"@, 0);
    }
    assert(!label_is("latin1"@, "utf-32le"@)) by {
        reveal_strlit("utf-32le");
        lemma_other_label("latin1"@, "utf-32le"@, 0);
    }
    assert(!label_is("latin1"@, "ucs-4le"@)) by {
        reveal_strlit("ucs-4le");
        lemma_other_label("latin1"@, "ucs-4le"@, 0);
    }
    assert(!label_is("latin1"@, "utf-32be"@)) by {
        reveal_strlit("utf-32be");
        lemma_other_label("latin1"@, "utf-32be"@, 0);
    }
    assert(!label_is("latin1"@, "ucs-4be"@)) by {
        reveal_strlit("ucs-4be");
        lemma_other_label("latin1"@, "ucs-4be"@, 0);
    }
    assert(!label_is("latin1"@, "iso-8859-1"@)) by {
        reveal_strlit("iso-8859-1");
        lemma_other_label("latin1"@, "iso-8859-1"@, 0);
    }
    lemma_same_label("latin1"@);
}

proof fn lemma_label_latin_1()
    ensures
        labelled("latin-1"@) == Some(XmlInputEncoding::Latin1),
{
    reveal_strlit("latin-1");
    assert(plain_label("latin-1"@));
    assert(!label_is("latin-1"@, "utf-8"@)) by {
        reveal_strlit("utf-8");
        lemma_other_label("latin-1"@, "utf-8"@, 0);
    }
    assert(!label_is("latin-1"@, "utf8"@)) by {
        reveal_strlit("utf8");
        lemma_other_label("latin-1"@, "utf8"@, 0);
    }
    assert(!label_is("latin-1"@, "us-ascii"@)) by {
        reveal_strlit("us-ascii");
        lemma_other_label("latin-1"@, "us-ascii"@, 0);
    }
    assert(!label_is("latin-1"@, "ascii"@)) by {
        reveal_strlit("ascii");
        lemma_other_label("latin-1"@, "ascii"@, 0);
    }
    assert(!label_is("latin-1"@, "utf-16le"@)) by {
        reveal_strlit("utf-16le");
        lemma_other_label("latin-1"@, "utf-16le"@, 0);
    }
    assert(!label_is("latin-1"@, "utf-16be"@)) by {
        reveal_strlit("utf-16be");
        lemma_other_label("latin-1"@, "utf-16be"@, 0);
    }
    assert(!label_is("latin-1"@, "utf-32le"@)) by {
        reveal_strlit("utf-32le");
        lemma_other_label("latin-1"@, "utf-32le"@, 0);
    }
    assert(!label_is("latin-1"@, "ucs-4le"@)) by {
        reveal_strlit("ucs-4le");
        lemma_other_label("latin-1"@, "ucs-4le"@, 0);
    }
    assert(!label_is("latin-1"@, "utf-32be"@)) by {
        reveal_strlit("utf-32be");
        lemma_other_label("latin-1"@, "utf-32be"@, 0);
    }
    assert(!label_is("latin-1"@, "ucs-4be"@)) by {
        reveal_strlit("ucs-4be");
        lemma_other_label("latin-1"@, "ucs-4be"@, 0);
    }
    assert(!label_is("latin-1"@, "iso-8859-1"@)) by {
        reveal_strlit("iso-8859-1");
        lemma_other_label("latin-1"@, "iso-8859-1"@, 0);
    }
    assert(!label_is("latin-1"@, "latin1"@)) by {
        reveal_strlit("latin1");
        lemma_other_label("latin-1"@, "latin1"@, 0);
    }
    lemma_same_label("latin-1"@);
}

proof fn lemma_label_utf_16()
    ensures
        labelled("utf-16"@) is None,
{
    reveal_strlit("utf-16");
    assert(plain_label("utf-16"@));
    assert(!label_is("utf-16"@, "utf-8"@)) by {
        reveal_strlit("utf-8");
        lemma_other_label("utf-16"@, "utf-8"@, 0);
    }
    assert(!label_is("utf-16"@, "utf8"@)) by {
        reveal_strlit("utf8");
        lemma_other_label("utf-16"@, "utf8"@, 0);
    }
    assert(!label_is("utf-16"@, "us-ascii"@)) by {
        reveal_strlit("us-ascii");
        lemma_other_label("utf-16"@, "us-ascii"@, 0);
    }
    assert(!label_is("utf-16"@, "ascii"@)) by {
        reveal_strlit("ascii");
        lemma_other_label("utf-16"@, "ascii"@, 0);
    }
    assert(!label_is("utf-16"@, "utf-16le"@)) by {
        reveal_strlit("utf-16le");
        lemma_other_label("utf-16"@, "utf-16le"@, 0);
    }
    assert(!label_is("utf-16"@, "utf-16be"@)) by {
        reveal_strlit("utf-16be");
        lemma_other_label("utf-16"@, "utf-16be"@, 0);
    }
    assert(!label_is("utf-16"@, "utf-32le"@)) by {
        reveal_strlit("utf-32le");
        lemma_other_label("utf-16"@, "utf-32le"@, 0);
    }
    assert(!label_is("utf-16"@, "ucs-4le"@)) by {
        reveal_strlit("ucs-4le");
        lemma_other_label("utf-16"@, "ucs-4le"@, 0);
    }
    assert(!label_is("utf-16"@, "utf-32be"@)) by {
        reveal_strlit("utf-32be");
        lemma_other_label("utf-16"@, "utf-32be"@, 0);
    }
    assert(!label_is("utf-16"@, "ucs-4be"@)) by {
        reveal_strlit("ucs-4be");
        lemma_other_label("utf-16"@, "ucs-4be"@, 0);
    }
    assert(!label_is("utf-16"@, "iso-8859-1"@)) by {
        reveal_strlit("iso-8859-1");
        lemma_other_label("utf-16"@, "iso-8859-1"@, 0);
    }
    assert(!label_is("utf-16"@, "latin1"@)) by {
        reveal_strlit("latin1");
        lemma_other_label("utf-16"@, "latin1"@, 0);
    }
    assert(!label_is("utf-16"@, "latin-1"@)) by {
        reveal_strlit("latin-1");
        lemma_other_label("utf-16"@, "latin-1"@, 0);
    }
}

proof fn lemma_label_utf16()
    ensures
        labelled("utf16"@) is None,
{
    reveal_strlit("utf16");
    assert(plain_label("utf16"@));
    assert(!label_is("utf16"@, "utf-8"@)) by {
        reveal_strlit("utf-8");
        lemma_other_label("utf16"@, "utf-8"@, 3);
    }
    assert(!label_is("utf16"@, "utf8"@)) by {
        reveal_strlit("utf8");
        lemma_other_label("utf16"@, "utf8"@, 0);
    }
    assert(!label_is("utf16"@, "us-ascii"@)) by {
        reveal_strlit("us-ascii");
        lemma_other_label("utf16"@, "us-ascii"@, 0);
    }
    assert(!label_is("utf16"@, "ascii"@)) by {
        reveal_strlit("ascii");
        lemma_other_label("utf16"@, "ascii"@, 0);
    }
    assert(!label_is("utf16"@, "utf-16le"@)) by {
        reveal_strlit("utf-16le");
        lemma_other_label("utf16"@, "utf-16le"@, 0);
    }
    assert(!label_is("utf16"@, "utf-16be"@)) by {
        reveal_strlit("utf-16be");
        lemma_other_label("utf16"@, "utf-16be"@, 0);
    }
    assert(!label_is("utf16"@, "utf-32le"@)) by {
        reveal_strlit("utf-32le");
        lemma_other_label("utf16"@, "utf-32le"@, 0);
    }
    assert(!label_is("utf16"@, "ucs-4le"@)) by {
        reveal_strlit("ucs-4le");
        lemma_other_label("utf16"@, "ucs-4le"@, 0);
    }
    assert(!label_is("utf16"@, "utf-32be"@)) by {
        reveal_strlit("utf-32be");
        lemma_other_label("utf16"@, "utf-32be"@, 0);
    }
    assert(!label_is("utf16"@, "ucs-4be"@)) by {
        reveal_strlit("ucs-4be");
        lemma_other_label("utf16"@, "ucs-4be"@, 0);
    }
    assert(!label_is("utf16"@, "iso-8859-1"@)) by {
        reveal_strlit("iso-8859-1");
        lemma_other_label("utf16"@, "iso-8859-1"@, 0);
    }
    assert(!label_is("utf16"@, "latin1"@)) by {
        reveal_strlit("latin1");
        lemma_other_label("utf16"@, "latin1"@, 0);
    }
    assert(!label_is("utf16"@, "latin-1"@)) by {
        reveal_strlit("latin-1");
        lemma_other_label("utf16"@, "latin-1"@, 0);
    }
}

proof fn lemma_label_u16()
    ensures
        labelled("u16"@) is None,
{
    reveal_strlit("u16");
    assert(plain_label("u16"@));
    assert(!label_is("u16"@, "utf-8"@)) by {
        reveal_strlit("utf-8");
        lemma_other_label("u16"@, "utf-8"@, 0);
    }
    assert(!label_is("u16"@, "utf8"@)) by {
        reveal_strlit("utf8");
        lemma_other_label("u16"@, "utf8"@, 0);
    }
    assert(!label_is("u16"@, "us-ascii"@)) by {
        reveal_strlit("us-ascii");
        lemma_other_label("u16"@, "us-ascii"@, 0);
    }
    assert(!label_is("u16"@, "ascii"@)) by {
        reveal_strlit("ascii");
        lemma_other_label("u16"@, "ascii"@, 0);
    }
    assert(!label_is("u16"@, "utf-16le"@)) by {
        reveal_strlit("utf-16le");
        lemma_other_label("u16"@, "utf-16le"@, 0);
    }
    assert(!label_is("u16"@, "utf-16be"@)) by {
        reveal_strlit("utf-16be");
        lemma_other_label("u16"@, "utf-16be"@, 0);
    }
    assert(!label_is("u16"@, "utf-32le"@)) by {
        reveal_strlit("utf-32le");
        lemma_other_label("u16"@, "utf-32le"@, 0);
    }
    assert(!label_is("u16"@, "ucs-4le"@)) by {
        reveal_strlit("ucs-4le");
        lemma_other_label("u16"@, "ucs-4le"@, 0);
    }
    assert(!label_is("u16"@, "utf-32be"@)) by {
        reveal_strlit("utf-32be");
        lemma_other_label("u16"@, "utf-32be"@, 0);
    }
    assert(!label_is("u16"@, "ucs-4be"@)) by {
        reveal_strlit("ucs-4be");
        lemma_other_label("u16"@, "ucs-4be"@, 0);
    }
    assert(!label_is("u16"@, "iso-8859-1"@)) by {
        reveal_strlit("iso-8859-1");
        lemma_other_label("u16"@, "iso-8859-1"@, 0);
    }
    assert(!label_is("u16"@, "latin1"@)) by {
        reveal_strlit("latin1");
        lemma_other_label("u16"@, "latin1"@, 0);
    }
    assert(!label_is("u16"@, "latin-1"@)) by {
        reveal_strlit("latin-1");
        lemma_other_label("u16"@, "latin-1"@, 0);
    }
}

proof fn lemma_label_ucs_2()
    ensures
        labelled("ucs-2"@) is None,
{
    reveal_strlit("ucs-2");
    assert(plain_label("ucs-2"@));
    assert(!label_is("ucs-2"@, "utf-8"@)) by {
        reveal_strlit("utf-8");
        lemma_other_label("ucs-2"@, "utf-8"@, 1);
    }
    assert(!label_is("ucs-2"@, "utf8"@)) by {
        reveal_strlit("utf8");
        lemma_other_label("ucs-2"@, "utf8"@, 0);
    }
    assert(!label_is("ucs-2"@, "us-ascii"@)) by {
        reveal_strlit("us-ascii");
        lemma_other_label("ucs-2"@, "us-ascii"@, 0);
    }
    assert(!label_is("ucs-2"@, "ascii"@)) by {
        reveal_strlit("ascii");
        lemma_other_label("ucs-2"@, "ascii"@, 0);
    }
    assert(!label_is("ucs-2"@, "utf-16le"@)) by {
        reveal_strlit("utf-16le");
        lemma_other_label("ucs-2"@, "utf-16le"@, 0);
    }
    assert(!label_is("ucs-2"@, "utf-16be"@)) by {
        reveal_strlit("utf-16be");
        lemma_other_label("ucs-2"@, "utf-16be"@, 0);
    }
    assert(!label_is("ucs-2"@, "utf-32le"@)) by {
        reveal_strlit("utf-32le");
        lemma_other_label("ucs-2"@, "utf-32le"@, 0);
    }
    assert(!label_is("ucs-2"@, "ucs-4le"@)) by {
        reveal_strlit("ucs-4le");
        lemma_other_label("ucs-2"@, "ucs-4le"@, 0);
    }
    assert(!label_is("ucs-2"@, "utf-32be"@)) by {
        reveal_strlit("utf-32be");
        lemma_other_label("ucs-2"@, "utf-32be"@, 0);
    }
    assert(!label_is("ucs-2"@, "ucs-4be"@)) by {
        reveal_strlit("ucs-4be");
        lemma_other_label("ucs-2"@, "ucs-4be"@, 0);
    }
    assert(!label_is("ucs-2"@, "iso-8859-1"@)) by {
        reveal_strlit("iso-8859-1");
        lemma_other_label("ucs-2"@, "iso-8859-1"@, 0);
    }
    assert(!label_is("ucs-2"@, "latin1"@)) by {
        reveal_strlit("latin1");
        lemma_other_label("ucs-2"@, "latin1"@, 0);
    }
    assert(!label_is("ucs-2"@, "latin-1"@)) by {
        reveal_strlit("latin-1");
        lemma_other_label("ucs-2"@, "latin-1"@, 0);
    }
}

proof fn lemma_label_iso_10646_ucs_2()
    ensures
        labelled("iso-10646-ucs-2"@) is None,
{
    reveal_strlit("iso-10646-ucs-2");
    assert(plain_label("iso-10646-ucs-2"@));
    assert(!label_is("iso-10646-ucs-2"@, "utf-8"@)) by {
        reveal_strlit("utf-8");
        lemma_other_label("iso-10646-ucs-2"@, "utf-8"@, 0);
    }
    assert(!label_is("iso-10646-ucs-2"@, "utf8"@)) by {
        reveal_strlit("utf8");
        lemma_other_label("iso-10646-ucs-2"@, "utf8"@, 0);
    }
    assert(!label_is("iso-10646-ucs-2"@, "us-ascii"@)) by {
        reveal_strlit("us-ascii");
        lemma_other_label("iso-10646-ucs-2"@, "us-ascii"@, 0);
    }
    assert(!label_is("iso-10646-ucs-2"@, "ascii"@)) by {
        reveal_strlit("ascii");
        lemma_other_label("iso-10646-ucs-2"@, "ascii"@, 0);
    }
    assert(!label_is("iso-10646-ucs-2"@, "utf-16le"@)) by {
        reveal_strlit("utf-16le");
        lemma_other_label("iso-10646-ucs-2"@, "utf-16le"@, 0);
    }
    assert(!label_is("iso-10646-ucs-2"@, "utf-16be"@)) by {
        reveal_strlit("utf-16be");
        lemma_other_label("iso-10646-ucs-2"@, "utf-16be"@, 0);
    }
    assert(!label_is("iso-10646-ucs-2"@, "utf-32le"@)) by {
        reveal_strlit("utf-32le");
        lemma_other_label("iso-10646-ucs-2"@, "utf-32le"@, 0);
    }
    assert(!label_is("iso-10646-ucs-2"@, "ucs-4le"@)) by {
        reveal_strlit("ucs-4le");
        lemma_other_label("iso-10646-ucs-2"@, "ucs-4le"@, 0);
    }
    assert(!label_is("iso-10646-ucs-2"@, "utf-32be"@)) by {
        reveal_strlit("utf-32be");
        lemma_other_label("iso-10646-ucs-2"@, "utf-32be"@, 0);
    }
    assert(!label_is("iso-10646-ucs-2"@, "ucs-4be"@)) by {
        reveal_strlit("ucs-4be");
        lemma_other_label("iso-10646-ucs-2"@, "ucs-4be"@, 0);
    }
    assert(!label_is("iso-10646-ucs-2"@, "iso-8859-1"@)) by {
        reveal_strlit("iso-8859-1");
        lemma_other_label("iso-10646-ucs-2"@, "iso-8859-1"@, 0);
    }
    assert(!label_is("iso-10646-ucs-2"@, "latin1"@)) by {
        reveal_strlit("latin1");
        lemma_other_label("iso-10646-ucs-2"@, "latin1"@, 0);
    }
    assert(!label_is("iso-10646-ucs-2"@, "latin-1"@)) by {
        reveal_strlit("latin-1");
        lemma_other_label("iso-10646-ucs-2"@, "latin-1"@, 0);
    }
}

proof fn lemma_label_csunicode()
    ensures
        labelled("csunicode"@) is None,
{
    reveal_strlit("csunicode");
    assert(plain_label("csunicode"@));
    assert(!label_is("csunicode"@, "utf-8"@)) by {
        reveal_strlit("utf-8");
        lemma_other_label("csunicode"@, "utf-8"@, 0);
    }
    assert(!label_is("csunicode"@, "utf8"@)) by {
        reveal_strlit("utf8");
        lemma_other_label("csunicode"@, "utf8"@, 0);
    }
    assert(!label_is("csunicode"@, "us-ascii"@)) by {
        reveal_strlit("us-ascii");
        lemma_other_label("csunicode"@, "us-ascii"@, 0);
    }
    assert(!label_is("csunicode"@, "ascii"@)) by {
        reveal_strlit("ascii");
        lemma_other_label("csunicode"@, "ascii"@, 0);
    }
    assert(!label_is("csunicode"@, "utf-16le"@)) by {
        reveal_strlit("utf-16le");
        lemma_other_label("csunicode"@, "utf-16le"@, 0);
    }
    assert(!label_is("csunicode"@, "utf-16be"@)) by {
        reveal_strlit("utf-16be");
        lemma_other_label("csunicode"@, "utf-16be"@, 0);
    }
    assert(!label_is("csunicode"@, "utf-32le"@)) by {
        reveal_strlit("utf-32le");
        lemma_other_label("csunicode"@, "utf-32le"@, 0);
    }
    assert(!label_is("csunicode"@, "ucs-4le"@)) by {
        reveal_strlit("ucs-4le");
        lemma_other_label("csunicode"@, "ucs-4le"@, 0);
    }
    assert(!label_is("csunicode"@, "utf-32be"@)) by {
        reveal_strlit("utf-32be");
        lemma_other_label("csunicode"@, "utf-32be"@, 0);
    }
    assert(!label_is("csunicode"@, "ucs-4be"@)) by {
        reveal_strlit("ucs-4be");
        lemma_other_label("csunicode"@, "ucs-4be"@, 0);
    }
    assert(!label_is("csunicode"@, "iso-8859-1"@)) by {
        reveal_strlit("iso-8859-1");
        lemma_other_label("csunicode"@, "iso-8859-1"@, 0);
    }
    assert(!label_is("csunicode"@, "latin1"@)) by {
        reveal_strlit("latin1");
        lemma_other_label("csunicode"@, "latin1"@, 0);
    }
    assert(!label_is("csunicode"@, "latin-1"@)) by {
        reveal_strlit("latin-1");
        lemma_other_label("csunicode"@, "latin-1"@, 0);
    }
}

proof fn lemma_label_utf_32()
    ensures
        labelled("utf-32"@) is None,
{
    reveal_strlit("utf-32");
    assert(plain_label("utf-32"@));
    assert(!label_is("utf-32"@, "utf-8"@)) by {
        reveal_strlit("utf-8");
        lemma_other_label("utf-32"@, "utf-8"@, 0);
    }
    assert(!label_is("utf-32"@, "utf8"@)) by {
        reveal_strlit("utf8");
        lemma_other_label("utf-32"@, "utf8"@, 0);
    }
    assert(!label_is("utf-32"@, "us-ascii"@)) by {
        reveal_strlit("us-ascii");
        lemma_other_label("utf-32"@, "us-ascii"@, 0);
    }
    assert(!label_is("utf-32"@, "ascii"@)) by {
        reveal_strlit("ascii");
        lemma_other_label("utf-32"@, "ascii"@, 0);
    }
    assert(!label_is("utf-32"@, "utf-16le"@)) by {
        reveal_strlit("utf-16le");
        lemma_other_label("utf-32"@, "utf-16le"@, 0);
    }
    assert(!label_is("utf-32"@, "utf-16be"@)) by {
        reveal_strlit("utf-16be");
        lemma_other_label("utf-32"@, "utf-16be"@, 0);
    }
    assert(!label_is("utf-32"@, "utf-32le"@)) by {
        reveal_strlit("utf-32le");
        lemma_other_label("utf-32"@, "utf-32le"@, 0);
    }
    assert(!label_is("utf-32"@, "ucs-4le"@)) by {
        reveal_strlit("ucs-4le");
        lemma_other_label("utf-32"@, "ucs-4le"@, 0);
    }
    assert(!label_is("utf-32"@, "utf-32be"@)) by {
        reveal_strlit("utf-32be");
        lemma_other_label("utf-32"@, "utf-32be"@, 0);
    }
    assert(!label_is("utf-32"@, "ucs-4be"@)) by {
        reveal_strlit("ucs-4be");
        lemma_other_label("utf-32"@, "ucs-4be"@, 0);
    }
    assert(!label_is("utf-32"@, "iso-8859-1"@)) by {
        reveal_strlit("iso-8859-1");
        lemma_other_label("utf-32"@, "iso-8859-1"@, 0);
    }
    assert(!label_is("utf-32"@, "latin1"@)) by {
        reveal_strlit("latin1");
        lemma_other_label("utf-32"@, "latin1"@, 0);
    }
    assert(!label_is("utf-32"@, "latin-1"@)) by {
        reveal_strlit("latin-1");
        lemma_other_label("utf-32"@, "latin-1"@, 0);
    }
}

proof fn lemma_label_utf32()
    ensures
        labelled("utf32"@) is None,
{
    reveal_strlit("utf32");
    assert(plain_label("utf32"@));
    assert(!label_is("utf32"@, "utf-8"@)) by {
        reveal_strlit("utf-8");
        lemma_other_label("utf32"@, "utf-8"@, 3);
    }
    assert(!label_is("utf32"@, "utf8"@)) by {
        reveal_strlit("utf8");
        lemma_other_label("utf32"@, "utf8"@, 0);
    }
    assert(!label_is("utf32"@, "us-ascii"@)) by {
        reveal_strlit("us-ascii");
        lemma_other_label("utf32"@, "us-ascii"@, 0);
    }
    assert(!label_is("utf32"@, "ascii"@)) by {
        reveal_strlit("ascii");
        lemma_other_label("utf32"@, "ascii"@, 0);
    }
    assert(!label_is("utf32"@, "utf-16le"@)) by {
        reveal_strlit("utf-16le");
        lemma_other_label("utf32"@, "utf-16le"@, 0);
    }
    assert(!label_is("utf32"@, "utf-16be"@)) by {
        reveal_strlit("utf-16be");
        lemma_other_label("utf32"@, "utf-16be"@, 0);
    }
    assert(!label_is("utf32"@, "utf-32le"@)) by {
        reveal_strlit("utf-32le");
        lemma_other_label("utf32"@, "utf-32le"@, 0);
    }
    assert(!label_is("utf32"@, "ucs-4le"@)) by {
        reveal_strlit("ucs-4le");
        lemma_other_label("utf32"@, "ucs-4le"@, 0);
    }
    assert(!label_is("utf32"@, "utf-32be"@)) by {
        reveal_strlit("utf-32be");
        lemma_other_label("utf32"@, "utf-32be"@, 0);
    }
    assert(!label_is("utf32"@, "ucs-4be"@)) by {
        reveal_strlit("ucs-4be");
        lemma_other_label("utf32"@, "ucs-4be"@, 0);
    }
    assert(!label_is("utf32"@, "iso-8859-1"@)) by {
        reveal_strlit("iso-8859-1");
        lemma_other_label("utf32"@, "iso-8859-1"@, 0);
    }
    assert(!label_is("utf32"@, "latin1"@)) by {
        reveal_strlit("latin1");
        lemma_other_label("utf32"@, "latin1"@, 0);
    }
    assert(!label_is("utf32"@, "latin-1"@)) by {
        reveal_strlit("latin-1");
        lemma_other_label("utf32"@, "latin-1"@, 0);
    }
}

proof fn lemma_label_ucs_4()
    ensures
        labelled("ucs-4"@) is None,
{
    reveal_strlit("ucs-4");
    assert(plain_label("ucs-4"@));
    assert(!label_is("ucs-4"@, "utf-8"@)) by {
        reveal_strlit("utf-8");
        lemma_other_label("ucs-4"@, "utf-8"@, 1);
    }
    assert(!label_is("ucs-4"@, "utf8"@)) by {
        reveal_strlit("utf8");
        lemma_other_label("ucs-4"@, "utf8"@, 0);
    }
    assert(!label_is("ucs-4"@, "us-ascii"@)) by {
        reveal_strlit("us-ascii");
        lemma_other_label("ucs-4"@, "us-ascii"@, 0);
    }
    assert(!label_is("ucs-4"@, "ascii"@)) by {
        reveal_strlit("ascii");
        lemma_other_label("ucs-4"@, "ascii"@, 0);
    }
    assert(!label_is("ucs-4"@, "utf-16le"@)) by {
        reveal_strlit("utf-16le");
        lemma_other_label("ucs-4"@, "utf-16le"@, 0);
    }
    assert(!label_is("ucs-4"@, "utf-16be"@)) by {
        reveal_strlit("utf-16be");
        lemma_other_label("ucs-4"@, "utf-16be"@, 0);
    }
    assert(!label_is("ucs-4"@, "utf-32le"@)) by {
        reveal_strlit("utf-32le");
        lemma_other_label("ucs-4"@, "utf-32le"@, 0);
    }
    assert(!label_is("ucs-4"@, "ucs-4le"@)) by {
        reveal_strlit("ucs-4le");
        lemma_other_label("ucs-4"@, "ucs-4le"@, 0);
    }
    assert(!label_is("ucs-4"@, "utf-32be"@)) by {
        reveal_strlit("utf-32be");
        lemma_other_label("ucs-4"@, "utf-32be"@, 0);
    }
    assert(!label_is("ucs-4"@, "ucs-4be"@)) by {
        reveal_strlit("ucs-4be");
        lemma_other_label("ucs-4"@, "ucs-4be"@, 0);
    }
    assert(!label_is("ucs-4"@, "iso-8859-1"@)) by {
        reveal_strlit("iso-8859-1");
        lemma_other_label("ucs-4"@, "iso-8859-1"@, 0);
    }
    assert(!label_is("ucs-4"@, "latin1"@)) by {
        reveal_strlit("latin1");
        lemma_other_label("ucs-4"@, "latin1"@, 0);
    }
    assert(!label_is("ucs-4"@, "latin-1"@)) by {
        reveal_strlit("latin-1");
        lemma_other_label("ucs-4"@, "latin-1"@, 0);
    }
}

proof fn lemma_label_iso_10646_ucs_4()
    ensures
        labelled("iso-10646-ucs-4"@) is None,
{
    reveal_strlit("iso-10646-ucs-4");
    assert(plain_label("iso-10646-ucs-4"@));
    assert(!label_is("iso-10646-ucs-4"@, "utf-8"@)) by {
        reveal_strlit("utf-8");
        lemma_other_label("iso-10646-ucs-4"@, "utf-8"@, 0);
    }
    assert(!label_is("iso-10646-ucs-4"@, "utf8"@)) by {
        reveal_strlit("utf8");
        lemma_other_label("iso-10646-ucs-4"@, "utf8"@, 0);
    }
    assert(!label_is("iso-10646-ucs-4"@, "us-ascii"@)) by {
        reveal_strlit("us-ascii");
        lemma_other_label("iso-10646-ucs-4"@, "us-ascii"@, 0);
    }
    assert(!label_is("iso-10646-ucs-4"@, "ascii"@)) by {
        reveal_strlit("ascii");
        lemma_other_label("iso-10646-ucs-4"@, "ascii"@, 0);
    }
    assert(!label_is("iso-10646-ucs-4"@, "utf-16le"@)) by {
        reveal_strlit("utf-16le");
        lemma_other_label("iso-10646-ucs-4"@, "utf-16le"@, 0);
    }
    assert(!label_is("iso-10646-ucs-4"@, "utf-16be"@)) by {
        reveal_strlit("utf-16be");
        lemma_other_label("iso-10646-ucs-4"@, "utf-16be"@, 0);
    }
    assert(!label_is("iso-10646-ucs-4"@, "utf-32le"@)) by {
        reveal_strlit("utf-32le");
        lemma_other_label("iso-10646-ucs-4"@, "utf-32le"@, 0);
    }
    assert(!label_is("iso-10646-ucs-4"@, "ucs-4le"@)) by {
        reveal_strlit("ucs-4le");
        lemma_other_label("iso-10646-ucs-4"@, "ucs-4le"@, 0);
    }
    assert(!label_is("iso-10646-ucs-4"@, "utf-32be"@)) by {
        reveal_strlit("utf-32be");
        lemma_other_label("iso-10646-ucs-4"@, "utf-32be"@, 0);
    }
    assert(!label_is("iso-10646-ucs-4"@, "ucs-4be"@)) by {
        reveal_strlit("ucs-4be");
        lemma_other_label("iso-10646-ucs-4"@, "ucs-4be"@, 0);
    }
    assert(!label_is("iso-10646-ucs-4"@, "iso-8859-1"@)) by {
        reveal_strlit("iso-8859-1");
        lemma_other_label("iso-10646-ucs-4"@, "iso-8859-1"@, 0);
    }
    assert(!label_is("iso-10646-ucs-4"@, "latin1"@)) by {
        reveal_strlit("latin1");
        lemma_other_label("iso-10646-ucs-4"@, "latin1"@, 0);
    }
    assert(!label_is("iso-10646-ucs-4"@, "latin-1"@)) by {
        reveal_strlit("latin-1");
        lemma_other_label("iso-10646-ucs-4"@, "latin-1"@, 0);
    }
}

proof fn lemma_label_csucs4()
    ensures
        labelled("csucs4"@) is None,
{
    reveal_strlit("csucs4");
    assert(plain_label("csucs4"@));
    assert(!label_is("csucs4"@, "utf-8"@)) by {
        reveal_strlit("utf-8");
        lemma_other_label("csucs4"@, "utf-8"@, 0);
    }
    assert(!label_is("csucs4"@, "utf8"@)) by {
        reveal_strlit("utf8");
        lemma_other_label("csucs4"@, "utf8"@, 0);
    }
    assert(!label_is("csucs4"@, "us-ascii"@)) by {
        reveal_strlit("us-ascii");
        lemma_other_label("csucs4"@, "us-ascii"@, 0);
    }
    assert(!label_is("csucs4"@, "ascii"@)) by {
        reveal_strlit("ascii");
        lemma_other_label("csucs4"@, "ascii"@, 0);
    }
    assert(!label_is("csucs4"@, "utf-16le"@)) by {
        reveal_strlit("utf-16le");
        lemma_other_label("csucs4"@, "utf-16le"@, 0);
    }
    assert(!label_is("csucs4"@, "utf-16be"@)) by {
        reveal_strlit("utf-16be");
        lemma_other_label("csucs4"@, "utf-16be"@, 0);
    }
    assert(!label_is("csucs4"@, "utf-32le"@)) by {
        reveal_strlit("utf-32le");
        lemma_other_label("csucs4"@, "utf-32le"@, 0);
    }
    assert(!label_is("csucs4"@, "ucs-4le"@)) by {
        reveal_strlit("ucs-4le");
        lemma_other_label("csucs4"@, "ucs-4le"@, 0);
    }
    assert(!label_is("csucs4"@, "utf-32be"@)) by {
        reveal_strlit("utf-32be");
        lemma_other_label("csucs4"@, "utf-32be"@, 0);
    }
    assert(!label_is("csucs4"@, "ucs-4be"@)) by {
        reveal_strlit("ucs-4be");
        lemma_other_label("csucs4"@, "ucs-4be"@, 0);
    }
    assert(!label_is("csucs4"@, "iso-8859-1"@)) by {
        reveal_strlit("iso-8859-1");
        lemma_other_label("csucs4"@, "iso-8859-1"@, 0);
    }
    assert(!label_is("csucs4"@, "latin1"@)) by {
        reveal_strlit("latin1");
        lemma_other_label("csucs4"@, "latin1"@, 0);
    }
    assert(!label_is("csucs4"@, "latin-1"@)) by {
        reveal_strlit("latin-1");
        lemma_other_label("csucs4"@, "latin-1"@, 0);
    }
}

/// The labels that name one encoding each.
pub proof fn lemma_known_labels()
    ensures
        labelled("utf-8"@) == Some(XmlInputEncoding::Utf8),
        labelled("utf8"@) == Some(XmlInputEncoding::Utf8),
        labelled("us-ascii"@) == Some(XmlInputEncoding::UsAscii),
        labelled("ascii"@) == Some(XmlInputEncoding::UsAscii),
        labelled("utf-16le"@) == Some(XmlInputEncoding::Utf16Le),
        labelled("utf-16be"@) == Some(XmlInputEncoding::Utf16Be),
        labelled("utf-32le"@) == Some(XmlInputEncoding::Utf32Le),
        labelled("ucs-4le"@) == Some(XmlInputEncoding::Utf32Le),
        labelled("utf-32be"@) == Some(XmlInputEncoding::Utf32Be),
        labelled("ucs-4be"@) == Some(XmlInputEncoding::Utf32Be),
        labelled("iso-8859-1"@) == Some(XmlInputEncoding::Latin1),
        labelled("latin1"@) == Some(XmlInputEncoding::Latin1),
        labelled("latin-1"@) == Some(XmlInputEncoding::Latin1),
        labelled("utf-16"@) is None,
        labelled("utf16"@) is None,
        labelled("u16"@) is None,
        labelled("ucs-2"@) is None,
        labelled("iso-10646-ucs-2"@) is None,
        labelled("csunicode"@) is None,
        labelled("utf-32"@) is None,
        labelled("utf32"@) is None,
        labelled("ucs-4"@) is None,
        labelled("iso-10646-ucs-4"@) is None,
        labelled("csucs4"@) is None,
{
    lemma_label_utf_8();
    lemma_label_utf8();
    lemma_label_us_ascii();
    lemma_label_ascii();
    lemma_label_utf_16le();
    lemma_label_utf_16be();
    lemma_label_utf_32le();
    lemma_label_ucs_4le();
    lemma_label_utf_32be();
    lemma_label_ucs_4be();
    lemma_label_iso_8859_1();
    lemma_label_latin1();
    lemma_label_latin_1();
    lemma_label_utf_16();
    lemma_label_utf16();
    lemma_label_u16();
    lemma_label_ucs_2();
    lemma_label_iso_10646_ucs_2();
    lemma_label_csunicode();
    lemma_label_utf_32();
    lemma_label_utf32();
    lemma_label_ucs_4();
    lemma_label_iso_10646_ucs_4();
    lemma_label_csucs4();
}

/// A document that starts with the mark of a wider encoding, or is recognised by its first bytes,
/// may declare its encoding with or without the byte order; a label that names an encoding fits
/// that encoding.
pub proof fn lemma_fitting_labels(label: Seq<char>)
    ensures
        labelled(label) matches Some(e) ==> label_matches(label, e),
        label_matches("utf-16"@, XmlInputEncoding::Utf16Le),
        label_matches("utf-16"@, XmlInputEncoding::Utf16Be),
        label_matches("utf16"@, XmlInputEncoding::Utf16Le),
        label_matches("utf16"@, XmlInputEncoding::Utf16Be),
        label_matches("u16"@, XmlInputEncoding::Utf16Le),
        label_matches("u16"@, XmlInputEncoding::Utf16Be),
        label_matches("ucs-2"@, XmlInputEncoding::Utf16Le),
        label_matches("ucs-2"@, XmlInputEncoding::Utf16Be),
        label_matches("iso-10646-ucs-2"@, XmlInputEncoding::Utf16Le),
        label_matches("iso-10646-ucs-2"@, XmlInputEncoding::Utf16Be),
        label_matches("csunicode"@, XmlInputEncoding::Utf16Le),
        label_matches("csunicode"@, XmlInputEncoding::Utf16Be),
        label_matches("utf-32"@, XmlInputEncoding::Utf32Le),
        label_matches("utf-32"@, XmlInputEncoding::Utf32Be),
        label_matches("utf32"@, XmlInputEncoding::Utf32Le),
        label_matches("utf32"@, XmlInputEncoding::Utf32Be),
        label_matches("ucs-4"@, XmlInputEncoding::Utf32Le),
        label_matches("ucs-4"@, XmlInputEncoding::Utf32Be),
        label_matches("iso-10646-ucs-4"@, XmlInputEncoding::Utf32Le),
        label_matches("iso-10646-ucs-4"@, XmlInputEncoding::Utf32Be),
        label_matches("csucs4"@, XmlInputEncoding::Utf32Le),
        label_matches("csucs4"@, XmlInputEncoding::Utf32Be),
{
    assert(generic_utf16("utf-16"@)) by {
        reveal_strlit("utf-16");
        lemma_own_label("utf-16"@);
    }
    assert(generic_utf16("utf16"@)) by {
        reveal_strlit("utf16");
        lemma_own_label("utf16"@);
    }
    assert(generic_utf16("u16"@)) by {
        reveal_strlit("u16");
        lemma_own_label("u16"@);
    }
    assert(generic_utf16("ucs-2"@)) by {
        reveal_strlit("ucs-2");
        lemma_own_label("ucs-2"@);
    }
    assert(generic_utf16("iso-10646-ucs-2"@)) by {
        reveal_strlit("iso-10646-ucs-2");
        lemma_own_label("iso-10646-ucs-2"@);
    }
    assert(generic_utf16("csunicode"@)) by {
        reveal_strlit("csunicode");
        lemma_own_label("csunicode"@);
    }
    assert(generic_utf32("utf-32"@)) by {
        reveal_strlit("utf-32");
        lemma_own_label("utf-32"@);
    }
    assert(generic_utf32("utf32"@)) by {
        reveal_strlit("utf32");
        lemma_own_label("utf32"@);
    }
    assert(generic_utf32("ucs-4"@)) by {
        reveal_strlit("ucs-4");
        lemma_own_label("ucs-4"@);
    }
    assert(generic_utf32("iso-10646-ucs-4"@)) by {
        reveal_strlit("iso-10646-ucs-4");
        lemma_own_label("iso-10646-ucs-4"@);
    }
    assert(generic_utf32("csucs4"@)) by {
        reveal_strlit("csucs4");
        lemma_own_label("csucs4"@);
    }
}

/// The byte order marks, which are looked at first, decide: the text is what stands behind them.
/// Bytes without a mark, a sign and a declaration are UTF-8.
pub proof fn lemma_marks_decide(rest: Seq<u8>)
    ensures
        marked(seq![0xefu8, 0xbb, 0xbf] + rest) == Some(XmlInputEncoding::Utf8),
        marked(seq![0x00u8, 0x00, 0xfe, 0xff] + rest) == Some(XmlInputEncoding::Utf32Be),
        marked(seq![0xffu8, 0xfe, 0x00, 0x00] + rest) == Some(XmlInputEncoding::Utf32Le),
        marked(seq![0xfeu8, 0xff] + rest) == Some(XmlInputEncoding::Utf16Be),
        !bytes_at(rest, 0, seq![0x00u8, 0x00]) ==> marked(seq![0xffu8, 0xfe] + rest) == Some(
            XmlInputEncoding::Utf16Le,
        ),
        marked(rest) matches Some(e) ==> (detected(rest) matches Ok((x, k)) ==> x == e && k
            == byte_order_mark(e).len()),
        marked(rest) is None && signed(rest) is None && declared_label(rest) == Ok::<
            Option<Seq<char>>,
            ErrorModel,
        >(None) ==> (valid_utf8(rest) ==> decoded(rest) == Ok::<
            (Seq<char>, XmlInputEncoding),
            ErrorModel,
        >((decode_utf8(rest), XmlInputEncoding::Utf8))),
{
    let a = seq![0xefu8, 0xbb, 0xbf] + rest;
    assert(a.subrange(0, 3) =~= byte_order_mark(XmlInputEncoding::Utf8));
    let b = seq![0x00u8, 0x00, 0xfe, 0xff] + rest;
    assert(b.subrange(0, 4) =~= byte_order_mark(XmlInputEncoding::Utf32Be));
    lemma_not_marked(b, XmlInputEncoding::Utf8);
    let c = seq![0xffu8, 0xfe, 0x00, 0x00] + rest;
    assert(c.subrange(0, 4) =~= byte_order_mark(XmlInputEncoding::Utf32Le));
    lemma_not_marked(c, XmlInputEncoding::Utf8);
    lemma_not_marked(c, XmlInputEncoding::Utf32Be);
    let d = seq![0xfeu8, 0xff] + rest;
    assert(d.subrange(0, 2) =~= byte_order_mark(XmlInputEncoding::Utf16Be));
    lemma_not_marked(d, XmlInputEncoding::Utf8);
    lemma_not_marked(d, XmlInputEncoding::Utf32Be);
    lemma_not_marked(d, XmlInputEncoding::Utf32Le);
    let e = seq![0xffu8, 0xfe] + rest;
    assert(e.subrange(0, 2) =~= byte_order_mark(XmlInputEncoding::Utf16Le));
    lemma_not_marked(e, XmlInputEncoding::Utf8);
    lemma_not_marked(e, XmlInputEncoding::Utf32Be);
    lemma_not_marked(e, XmlInputEncoding::Utf16Be);
    if bytes_at(e, 0, byte_order_mark(XmlInputEncoding::Utf32Le)) {
        let m = byte_order_mark(XmlInputEncoding::Utf32Le);
        lemma_byte_at(e, 0, m);
        assert(m[2] == e[2]);
        assert(m[3] == e[3]);
        assert(rest.subrange(0, 2) =~= seq![0x00u8, 0x00]);
    }
    assert(rest.skip(0) =~= rest);
}

/// Bytes whose first byte is not that of a mark do not have the mark.
proof fn lemma_not_marked(b: Seq<u8>, e: XmlInputEncoding)
    requires
        byte_order_mark(e).len() > 0,
        b.len() > 0,
        b[0] != byte_order_mark(e)[0],
    ensures
        !bytes_at(b, 0, byte_order_mark(e)),
{
    if bytes_at(b, 0, byte_order_mark(e)) {
        lemma_byte_at(b, 0, byte_order_mark(e));
        assert(byte_order_mark(e)[0] == b[0]);
    }
}

/// The four bytes of a character in UTF-32.
pub open spec fn wide_bytes(c: char, little: bool) -> Seq<u8> {
    let u = c as u32;
    let a = (u % 256) as u8;
    let b = (u / 256 % 256) as u8;
    let d = (u / 65536 % 256) as u8;
    if little {
        seq![a, b, d, 0u8]
    } else {
        seq![0u8, d, b, a]
    }
}

/// A text in UTF-32.
pub open spec fn utf32_bytes(t: Seq<char>, little: bool) -> Seq<u8>
    decreases t.len(),
{
    if t.len() == 0 {
        Seq::empty()
    } else {
        utf32_bytes(t.drop_last(), little) + wide_bytes(t.last(), little)
    }
}

/// A text in UTF-32 is decoded as it was, but for a mark at its start.
pub proof fn lemma_utf32_round_trip(t: Seq<char>, little: bool, skip: int)
    requires
        t.len() > 0 ==> t[0] != '\u{feff}',
    ensures
        utf32_text(utf32_bytes(t, little), little, skip) == Ok::<Seq<char>, ErrorModel>(t),
{
    let b = utf32_bytes(t, little);
    lemma_utf32_len(t, little);
    assert(t.take(0) =~= Seq::<char>::empty());
    lemma_utf32_from(t, little, 0);
    assert(t.take(t.len() as int) =~= t);
}

proof fn lemma_utf32_len(t: Seq<char>, little: bool)
    ensures
        utf32_bytes(t, little).len() == 4 * t.len(),
    decreases t.len(),
{
    if t.len() > 0 {
        lemma_utf32_len(t.drop_last(), little);
    }
}

proof fn lemma_utf32_at(t: Seq<char>, little: bool, k: int)
    requires
        0 <= k < t.len(),
    ensures
        utf32_bytes(t, little).subrange(4 * k, 4 * k + 4) == wide_bytes(t[k], little),
    decreases t.len(),
{
    lemma_utf32_len(t, little);
    lemma_utf32_len(t.drop_last(), little);
    let b = utf32_bytes(t, little);
    if k == t.len() - 1 {
        assert(b.subrange(4 * k, 4 * k + 4) =~= wide_bytes(t[k], little));
    } else {
        lemma_utf32_at(t.drop_last(), little, k);
        assert(b.subrange(4 * k, 4 * k + 4) =~= utf32_bytes(t.drop_last(), little).subrange(
            4 * k,
            4 * k + 4,
        ));
        assert(t.drop_last()[k] == t[k]);
    }
}

proof fn lemma_wide_unit(b: Seq<u8>, i: int, c: char, little: bool)
    requires
        0 <= i,
        i + 4 <= b.len(),
        b.subrange(i, i + 4) == wide_bytes(c, little),
    ensures
        wide_unit_at(b, i, little) == c as u32,
{
    let w = b.subrange(i, i + 4);
    assert(w[0] == b[i] && w[1] == b[i + 1] && w[2] == b[i + 2] && w[3] == b[i + 3]);
    let u = c as u32;
    assert(u <= 0x10ffff);
    assert(u == u % 256 + 256 * (u / 256 % 256) + 65536 * (u / 65536 % 256)) by (bit_vector)
        requires
            u <= 0x10ffff,
    ;
}

proof fn lemma_utf32_from(t: Seq<char>, little: bool, k: int)
    requires
        t.len() > 0 ==> t[0] != '\u{feff}',
        0 <= k <= t.len(),
    ensures
        utf32_from(utf32_bytes(t, little), 4 * k, little, t.take(k)) == Ok::<Seq<char>, int>(
            t.take(t.len() as int),
        ),
    decreases t.len() - k,
{
    let b = utf32_bytes(t, little);
    lemma_utf32_len(t, little);
    if k < t.len() {
        lemma_utf32_at(t, little, k);
        lemma_wide_unit(b, 4 * k, t[k], little);
        lemma_code(t[k]);
        assert(t.take(k + 1) =~= t.take(k).push(t[k]));
        lemma_utf32_from(t, little, k + 1);
    }
}

proof fn lemma_code(c: char)
    ensures
        crate::lexeme::is_code_point(c as u32 as int),
        (c as u32 as int) as char == c,
        c as u32 == 0xfeff ==> c == '\u{feff}',
{
}

} // verus!
