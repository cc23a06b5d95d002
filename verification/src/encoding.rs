//! The encodings of documents.

use vstd::prelude::*;
use vstd::string::*;
use vstd::slice::slice_subrange;
use vstd::utf8::{char_u32_cast, decode_utf8, encode_utf8, valid_utf8};

use std::borrow::Cow;

use crate::error::{ErrorKindModel, ErrorModel, XmlError, XmlErrorKind, XmlResult};
use crate::lexeme::{char_from_code, is_code_point};
use crate::text::{
    byte_offset, char_width, chars_of, lemma_byte_len_is_utf8, lemma_byte_offset_monotone,
    string_of,
};

verus! {

/// An encoding of a document.
#[derive(Clone, Copy, Debug, Eq, PartialEq, Structural)]
pub enum XmlInputEncoding {
    /// UTF-8.
    Utf8,
    /// US-ASCII.
    UsAscii,
    /// UTF-16, the low byte first.
    Utf16Le,
    /// UTF-16, the high byte first.
    Utf16Be,
    /// UTF-32, the low byte first.
    Utf32Le,
    /// UTF-32, the high byte first.
    Utf32Be,
    /// ISO-8859-1.
    Latin1,
}

/// A decoded document.
#[derive(Debug)]
pub struct DecodedXml<'a> {
    /// The text.
    pub input: Cow<'a, str>,
    /// The encoding it was decoded from.
    pub encoding: XmlInputEncoding,
}

/// `b` holds `t` at `i`.
pub open spec fn bytes_at(b: Seq<u8>, i: int, t: Seq<u8>) -> bool {
    0 <= i && i + t.len() <= b.len() && b.subrange(i, i + t.len()) == t
}

/// The byte order mark of an encoding.
pub open spec fn byte_order_mark(e: XmlInputEncoding) -> Seq<u8> {
    match e {
        XmlInputEncoding::Utf8 => seq![0xefu8, 0xbb, 0xbf],
        XmlInputEncoding::Utf16Le => seq![0xffu8, 0xfe],
        XmlInputEncoding::Utf16Be => seq![0xfeu8, 0xff],
        XmlInputEncoding::Utf32Le => seq![0xffu8, 0xfe, 0x00, 0x00],
        XmlInputEncoding::Utf32Be => seq![0x00u8, 0x00, 0xfe, 0xff],
        _ => Seq::empty(),
    }
}

/// A byte that is white space in a declaration.
pub open spec fn byte_space(b: u8) -> bool {
    b == 0x20 || b == 0x09 || b == 0x0d || b == 0x0a
}

/// The end of the white space at `i`.
pub open spec fn byte_space_end(b: Seq<u8>, i: int) -> int
    decreases b.len() - i,
{
    if 0 <= i < b.len() && byte_space(b[i]) {
        byte_space_end(b, i + 1)
    } else {
        i
    }
}

/// Where the next `?>` is, from `i` on.
pub open spec fn declaration_close(b: Seq<u8>, i: int) -> Option<int>
    decreases b.len() - i,
{
    if i < 0 || i + 1 >= b.len() {
        None
    } else if b[i] == 0x3f && b[i + 1] == 0x3e {
        Some(i)
    } else {
        declaration_close(b, i + 1)
    }
}

/// A byte of the name of a pseudo-attribute.
pub open spec fn label_byte(b: u8) -> bool {
    (0x41 <= b <= 0x5a) || (0x61 <= b <= 0x7a) || b == 0x5f || b == 0x3a || b == 0x2d
}

/// The end of the pseudo-attribute's name at `i`.
pub open spec fn label_name_end(b: Seq<u8>, i: int) -> int
    decreases b.len() - i,
{
    if 0 <= i < b.len() && label_byte(b[i]) {
        label_name_end(b, i + 1)
    } else {
        i
    }
}

/// The next byte `q`, from `i` on.
pub open spec fn byte_from(b: Seq<u8>, i: int, q: u8) -> int
    decreases b.len() - i,
{
    if 0 <= i < b.len() && b[i] != q {
        byte_from(b, i + 1, q)
    } else {
        i
    }
}

/// The byte with a capital letter made small.
pub open spec fn lower_byte(b: u8) -> int {
    if 0x41 <= b <= 0x5a {
        b + 32
    } else {
        b as int
    }
}

/// `b` spells `encoding`, whatever the case of its letters.
pub open spec fn is_encoding_name(b: Seq<u8>) -> bool {
    b.len() == 8 && lower_byte(b[0]) == 0x65 && lower_byte(b[1]) == 0x6e && lower_byte(b[2]) == 0x63
        && lower_byte(b[3]) == 0x6f && lower_byte(b[4]) == 0x64 && lower_byte(b[5]) == 0x69
        && lower_byte(b[6]) == 0x6e && lower_byte(b[7]) == 0x67
}

/// The range of the value of the first pseudo-attribute `encoding` in the declaration `d`, from
/// `i` on.
pub open spec fn label_range(d: Seq<u8>, i: int) -> Option<(int, int)>
    decreases d.len() - i,
{
    let a = byte_space_end(d, i);
    let n = label_name_end(d, a);
    let e = byte_space_end(d, n);
    let q = byte_space_end(d, e + 1);
    if i < 0 || i > a || a >= d.len() || n <= a || e >= d.len() || e < n || d[e] != 0x3d || q <= e
        || q >= d.len() || !(d[q] == 0x27 || d[q] == 0x22) {
        None
    } else {
        let v = byte_from(d, q + 1, d[q]);
        if v <= q || v >= d.len() {
            None
        } else if is_encoding_name(d.subrange(a, n)) {
            Some((q + 1, v))
        } else {
            label_range(d, v + 1)
        }
    }
}

/// The bytes of `<?xml`.
pub open spec fn declaration_open() -> Seq<u8> {
    seq![0x3cu8, 0x3f, 0x78, 0x6d, 0x6c]
}

/// The encoding that the declaration at the start of `b` names.
pub open spec fn declared_label(b: Seq<u8>) -> Result<Option<Seq<char>>, ErrorModel> {
    let i = byte_space_end(b, 0);
    if !bytes_at(b, i, declaration_open()) {
        Ok(None)
    } else {
        match declaration_close(b, i + 5) {
            None => Ok(None),
            Some(end) => {
                let d = b.subrange(i + 5, end);
                match label_range(d, 0) {
                    None => Ok(None),
                    Some((from, to)) => {
                        let value = d.subrange(from, to);
                        if valid_utf8(value) {
                            Ok(Some(decode_utf8(value)))
                        } else {
                            Err(
                                ErrorModel { kind: ErrorKindModel::InvalidXmlDeclaration, byte: i },
                            )
                        }
                    },
                }
            },
        }
    }
}

/// A character with the Unicode property `White_Space`.
pub open spec fn white_space(c: char) -> bool {
    let u = c as u32;
    ||| 0x09 <= u <= 0x0d
    ||| u == 0x20 || u == 0x85 || u == 0xa0 || u == 0x1680
    ||| 0x2000 <= u <= 0x200a
    ||| u == 0x2028 || u == 0x2029 || u == 0x202f || u == 0x205f || u == 0x3000
}

/// The first character of `s` from `i` on that is not white space.
pub open spec fn strip_start(s: Seq<char>, i: int) -> int
    decreases s.len() - i,
{
    if 0 <= i < s.len() && white_space(s[i]) {
        strip_start(s, i + 1)
    } else {
        i
    }
}

/// The end of `from..to` without the white space at its end.
pub open spec fn strip_end(s: Seq<char>, from: int, to: int) -> int
    decreases to - from,
{
    if 0 <= from < to <= s.len() && white_space(s[to - 1]) {
        strip_end(s, from, to - 1)
    } else {
        to
    }
}

/// `s` without the white space at its start and at its end.
pub open spec fn stripped(s: Seq<char>) -> Seq<char> {
    let from = strip_start(s, 0);
    s.subrange(from, strip_end(s, from, s.len() as int))
}

/// The code point with a capital ASCII letter made small, and an underscore made a hyphen.
pub open spec fn folded(c: char) -> int {
    if 'A' <= c <= 'Z' {
        (c as u32) + 32
    } else if c == '_' {
        '-' as u32 as int
    } else {
        c as u32 as int
    }
}

/// The label names `t`.
pub open spec fn label_is(label: Seq<char>, t: Seq<char>) -> bool {
    let w = stripped(label);
    w.len() == t.len() && forall|i: int| 0 <= i < t.len() ==> folded(w[i]) == #[trigger] t[i] as u32
}

/// The label is one of UTF-16 that leaves the byte order open.
pub open spec fn generic_utf16(label: Seq<char>) -> bool {
    label_is(label, "utf-16"@) || label_is(label, "utf16"@) || label_is(label, "u16"@) || label_is(
        label,
        "ucs-2"@,
    ) || label_is(label, "iso-10646-ucs-2"@) || label_is(label, "csunicode"@)
}

/// The label is one of UTF-32 that leaves the byte order open.
pub open spec fn generic_utf32(label: Seq<char>) -> bool {
    label_is(label, "utf-32"@) || label_is(label, "utf32"@) || label_is(label, "ucs-4"@)
        || label_is(label, "iso-10646-ucs-4"@) || label_is(label, "csucs4"@)
}

/// The label fits an encoding that was found by other means.
pub open spec fn label_matches(label: Seq<char>, e: XmlInputEncoding) -> bool {
    match e {
        XmlInputEncoding::Utf8 => label_is(label, "utf-8"@) || label_is(label, "utf8"@),
        XmlInputEncoding::UsAscii => label_is(label, "us-ascii"@) || label_is(label, "ascii"@),
        XmlInputEncoding::Utf16Le => generic_utf16(label) || label_is(label, "utf-16le"@),
        XmlInputEncoding::Utf16Be => generic_utf16(label) || label_is(label, "utf-16be"@),
        XmlInputEncoding::Utf32Le => generic_utf32(label) || label_is(label, "utf-32le"@)
            || label_is(label, "ucs-4le"@),
        XmlInputEncoding::Utf32Be => generic_utf32(label) || label_is(label, "utf-32be"@)
            || label_is(label, "ucs-4be"@),
        XmlInputEncoding::Latin1 => label_is(label, "iso-8859-1"@) || label_is(label, "latin1"@)
            || label_is(label, "latin-1"@),
    }
}

/// The encoding that a label in an ASCII-compatible declaration selects.
pub open spec fn labelled(label: Seq<char>) -> Option<XmlInputEncoding> {
    if label_is(label, "utf-8"@) || label_is(label, "utf8"@) {
        Some(XmlInputEncoding::Utf8)
    } else if label_is(label, "us-ascii"@) || label_is(label, "ascii"@) {
        Some(XmlInputEncoding::UsAscii)
    } else if label_is(label, "utf-16le"@) {
        Some(XmlInputEncoding::Utf16Le)
    } else if label_is(label, "utf-16be"@) {
        Some(XmlInputEncoding::Utf16Be)
    } else if label_is(label, "utf-32le"@) || label_is(label, "ucs-4le"@) {
        Some(XmlInputEncoding::Utf32Le)
    } else if label_is(label, "utf-32be"@) || label_is(label, "ucs-4be"@) {
        Some(XmlInputEncoding::Utf32Be)
    } else if label_is(label, "iso-8859-1"@) || label_is(label, "latin1"@) || label_is(
        label,
        "latin-1"@,
    ) {
        Some(XmlInputEncoding::Latin1)
    } else {
        None
    }
}

/// The encoding whose byte order mark starts `b`.
pub open spec fn marked(b: Seq<u8>) -> Option<XmlInputEncoding> {
    if bytes_at(b, 0, byte_order_mark(XmlInputEncoding::Utf8)) {
        Some(XmlInputEncoding::Utf8)
    } else if bytes_at(b, 0, byte_order_mark(XmlInputEncoding::Utf32Be)) {
        Some(XmlInputEncoding::Utf32Be)
    } else if bytes_at(b, 0, byte_order_mark(XmlInputEncoding::Utf32Le)) {
        Some(XmlInputEncoding::Utf32Le)
    } else if bytes_at(b, 0, byte_order_mark(XmlInputEncoding::Utf16Be)) {
        Some(XmlInputEncoding::Utf16Be)
    } else if bytes_at(b, 0, byte_order_mark(XmlInputEncoding::Utf16Le)) {
        Some(XmlInputEncoding::Utf16Le)
    } else {
        None
    }
}

/// The encoding that the first characters of a document without a mark show.
pub open spec fn signed(b: Seq<u8>) -> Option<XmlInputEncoding> {
    if bytes_at(b, 0, seq![0x00u8, 0x00, 0x00, 0x3c]) {
        Some(XmlInputEncoding::Utf32Be)
    } else if bytes_at(b, 0, seq![0x3cu8, 0x00, 0x00, 0x00]) {
        Some(XmlInputEncoding::Utf32Le)
    } else if bytes_at(b, 0, seq![0x00u8, 0x3c, 0x00, 0x3f]) {
        Some(XmlInputEncoding::Utf16Be)
    } else if bytes_at(b, 0, seq![0x3cu8, 0x00, 0x3f, 0x00]) {
        Some(XmlInputEncoding::Utf16Le)
    } else {
        None
    }
}

/// The encoding of `b` and how many bytes its mark has.
pub open spec fn detected(b: Seq<u8>) -> Result<(XmlInputEncoding, int), ErrorModel> {
    match marked(b) {
        Some(e) => {
            let mark = byte_order_mark(e);
            if bytes_at(b, mark.len() as int, mark) {
                Err(
                    ErrorModel {
                        kind: ErrorKindModel::InvalidCharacter,
                        byte: mark.len() as int,
                    },
                )
            } else {
                Ok((e, mark.len() as int))
            }
        },
        None => match signed(b) {
            Some(e) => Ok((e, 0)),
            None => match declared_label(b) {
                Err(e) => Err(e),
                Ok(None) => Ok((XmlInputEncoding::Utf8, 0)),
                Ok(Some(label)) => match labelled(label) {
                    Some(e) => Ok((e, 0)),
                    None => Err(
                        ErrorModel { kind: ErrorKindModel::UnsupportedEncoding(label), byte: 0 },
                    ),
                },
            },
        },
    }
}

/// The length of the longest start of `b`, of at most `n` bytes, that is valid UTF-8.
pub open spec fn valid_up_to(b: Seq<u8>, n: int) -> int
    decreases n,
{
    if n <= 0 || valid_utf8(b.take(n)) {
        n
    } else {
        valid_up_to(b, n - 1)
    }
}

/// The first byte of `b`, from `i` on, that is not ASCII.
pub open spec fn first_non_ascii(b: Seq<u8>, i: int) -> Option<int>
    decreases b.len() - i,
{
    if i < 0 || i >= b.len() {
        None
    } else if b[i] >= 0x80 {
        Some(i)
    } else {
        first_non_ascii(b, i + 1)
    }
}

/// The UTF-16 unit at `i`.
pub open spec fn unit_at(b: Seq<u8>, i: int, little: bool) -> int {
    if little {
        b[i] + 256 * b[i + 1]
    } else {
        256 * b[i] + b[i + 1]
    }
}

/// The UTF-32 unit at `i`.
pub open spec fn wide_unit_at(b: Seq<u8>, i: int, little: bool) -> int {
    if little {
        unit_at(b, i, true) + 65536 * unit_at(b, i + 2, true)
    } else {
        65536 * unit_at(b, i, false) + unit_at(b, i + 2, false)
    }
}

/// `acc` with the code point, unless it is a byte order mark at the very start.
pub open spec fn with_code(acc: Seq<char>, n: int, code: int) -> Seq<char> {
    if n == 0 && code == 0xfeff {
        acc
    } else {
        acc.push(code as char)
    }
}

/// The UTF-16 text of `b` from `i` on, behind `acc`; `n` characters have been read.
pub open spec fn utf16_from(b: Seq<u8>, i: int, little: bool, n: int, acc: Seq<char>) -> Result<
    Seq<char>,
    int,
>
    decreases b.len() - i,
{
    if i < 0 || i + 1 >= b.len() {
        Ok(acc)
    } else {
        let u = unit_at(b, i, little);
        if 0xd800 <= u <= 0xdbff {
            if i + 3 < b.len() && 0xdc00 <= unit_at(b, i + 2, little) <= 0xdfff {
                let code = 0x10000 + (u - 0xd800) * 1024 + (unit_at(b, i + 2, little) - 0xdc00);
                utf16_from(b, i + 4, little, n + 1, with_code(acc, n, code))
            } else {
                Err(i)
            }
        } else if 0xdc00 <= u <= 0xdfff {
            Err(i)
        } else {
            utf16_from(b, i + 2, little, n + 1, with_code(acc, n, u))
        }
    }
}

/// The UTF-32 text of `b` from `i` on, behind `acc`.
pub open spec fn utf32_from(b: Seq<u8>, i: int, little: bool, acc: Seq<char>) -> Result<
    Seq<char>,
    int,
>
    decreases b.len() - i,
{
    if i < 0 || i + 3 >= b.len() {
        Ok(acc)
    } else {
        let u = wide_unit_at(b, i, little);
        if is_code_point(u) {
            utf32_from(b, i + 4, little, with_code(acc, i, u))
        } else {
            Err(i)
        }
    }
}

/// A character that cannot be decoded.
pub open spec fn undecodable<T>(at: int) -> Result<T, ErrorModel> {
    Err(ErrorModel { kind: ErrorKindModel::InvalidCharacter, byte: at })
}

/// The text of the bytes behind the first `skip`.
pub open spec fn text_of(b: Seq<u8>, e: XmlInputEncoding, skip: int) -> Result<
    Seq<char>,
    ErrorModel,
> {
    let tail = b.skip(skip);
    match e {
        XmlInputEncoding::Utf8 => if valid_utf8(tail) {
            Ok(decode_utf8(tail))
        } else {
            undecodable(skip + valid_up_to(tail, tail.len() as int))
        },
        XmlInputEncoding::UsAscii => match first_non_ascii(tail, 0) {
            Some(k) => undecodable(skip + k),
            None => Ok(decode_utf8(tail)),
        },
        XmlInputEncoding::Utf16Le => utf16_text(tail, true, skip),
        XmlInputEncoding::Utf16Be => utf16_text(tail, false, skip),
        XmlInputEncoding::Utf32Le => utf32_text(tail, true, skip),
        XmlInputEncoding::Utf32Be => utf32_text(tail, false, skip),
        XmlInputEncoding::Latin1 => Ok(Seq::new(tail.len(), |i: int| tail[i] as char)),
    }
}

/// The UTF-16 text of `tail`.
pub open spec fn utf16_text(tail: Seq<u8>, little: bool, skip: int) -> Result<
    Seq<char>,
    ErrorModel,
> {
    if tail.len() % 2 != 0 {
        undecodable(skip + tail.len() - 1)
    } else {
        match utf16_from(tail, 0, little, 0, Seq::empty()) {
            Err(at) => undecodable(skip + at),
            Ok(t) => Ok(t),
        }
    }
}

/// The UTF-32 text of `tail`.
pub open spec fn utf32_text(tail: Seq<u8>, little: bool, skip: int) -> Result<
    Seq<char>,
    ErrorModel,
> {
    if tail.len() % 4 != 0 {
        undecodable(skip + tail.len() - tail.len() % 4)
    } else {
        match utf32_from(tail, 0, little, Seq::empty()) {
            Err(at) => undecodable(skip + at),
            Ok(t) => Ok(t),
        }
    }
}

/// The declaration of a text whose encoding was found by other means is held against it.
pub open spec fn is_checked(e: XmlInputEncoding, skip: int) -> bool {
    match e {
        XmlInputEncoding::Utf8 => skip > 0,
        XmlInputEncoding::UsAscii => false,
        XmlInputEncoding::Latin1 => false,
        _ => true,
    }
}

/// The text of `b` and its encoding.
pub open spec fn decoded(b: Seq<u8>) -> Result<(Seq<char>, XmlInputEncoding), ErrorModel> {
    match detected(b) {
        Err(e) => Err(e),
        Ok((e, skip)) => match text_of(b, e, skip) {
            Err(x) => Err(x),
            Ok(t) => if is_checked(e, skip) {
                match declared_label(encode_utf8(t)) {
                    Err(x) => Err(x),
                    Ok(None) => Ok((t, e)),
                    Ok(Some(label)) => if label_matches(label, e) {
                        Ok((t, e))
                    } else {
                        Err(ErrorModel { kind: ErrorKindModel::InvalidXmlDeclaration, byte: 0 })
                    },
                }
            } else {
                Ok((t, e))
            },
        },
    }
}

/// The last character of `s`, up to `i`, that starts at or before the byte `at`.
pub open spec fn char_before(s: Seq<char>, i: int, at: int) -> int
    decreases i,
{
    if i <= 0 || byte_offset(s, i) <= at {
        i
    } else {
        char_before(s, i - 1, at)
    }
}

/// How many bytes character `c` has in an encoding.
pub open spec fn source_width(c: char, e: XmlInputEncoding) -> int {
    match e {
        XmlInputEncoding::Utf8 => crate::text::utf8_width(c) as int,
        XmlInputEncoding::UsAscii => crate::text::utf8_width(c) as int,
        XmlInputEncoding::Latin1 => 1,
        XmlInputEncoding::Utf16Le => if c as u32 >= 0x10000 {
            4
        } else {
            2
        },
        XmlInputEncoding::Utf16Be => if c as u32 >= 0x10000 {
            4
        } else {
            2
        },
        _ => 4,
    }
}

/// How many bytes the first `i` characters have in an encoding.
pub open spec fn source_offset(s: Seq<char>, e: XmlInputEncoding, i: int) -> int
    decreases i,
{
    if i <= 0 || i > s.len() {
        0
    } else {
        source_offset(s, e, i - 1) + source_width(s[i - 1], e)
    }
}

/// How many bytes of `b` are a byte order mark of the encoding.
pub open spec fn mark_width(b: Seq<u8>, e: XmlInputEncoding) -> int {
    if bytes_at(b, 0, byte_order_mark(e)) {
        byte_order_mark(e).len() as int
    } else {
        0
    }
}

/// The byte of the source that an offset in the decoded text stands for.
pub open spec fn source_byte(b: Seq<u8>, s: Seq<char>, e: XmlInputEncoding, at: int) -> int {
    mark_width(b, e) + source_offset(s, e, char_before(s, s.len() as int, at))
}

/// The error with its byte in the source.
pub open spec fn translated(
    b: Seq<u8>,
    s: Seq<char>,
    e: XmlInputEncoding,
    x: ErrorModel,
) -> ErrorModel {
    ErrorModel { kind: x.kind, byte: source_byte(b, s, e, x.byte) }
}

/// The text has its place in the source.
pub open spec fn fits(b: Seq<u8>, s: Seq<char>, e: XmlInputEncoding) -> bool {
    mark_width(b, e) + source_offset(s, e, s.len() as int) <= b.len()
}

/// Does `b` hold `t` at `i`?
fn has_bytes(b: &[u8], i: usize, t: &[u8]) -> (r: bool)
    ensures
        r == bytes_at(b@, i as int, t@),
{
    if i > b.len() || t.len() > b.len() - i {
        return false;
    }
    proof {
        assert(b.len() == b@.len());
    }
    let mut k: usize = 0;
    while k < t.len()
        invariant
            i + t@.len() <= b@.len(),
            b.len() == b@.len(),
            k <= t@.len(),
            forall|j: int| 0 <= j < k ==> b@[i + j] == t@[j],
        decreases t@.len() - k,
    {
        if b[i + k] != t[k] {
            assert(b@.subrange(i as int, i + t@.len())[k as int] != t@[k as int]);
            return false;
        }
        k = k + 1;
    }
    assert(b@.subrange(i as int, i + t@.len()) =~= t@);
    true
}

/// Is `b` white space?
fn is_byte_space(b: u8) -> (r: bool)
    ensures
        r == byte_space(b),
{
    b == 0x20 || b == 0x09 || b == 0x0d || b == 0x0a
}

fn skip_ascii_space(b: &[u8], i: usize) -> (r: usize)
    requires
        i <= b@.len(),
    ensures
        r == byte_space_end(b@, i as int),
        i <= r <= b@.len(),
{
    let mut k: usize = i;
    while k < b.len() && is_byte_space(b[k])
        invariant
            i <= k <= b@.len(),
            byte_space_end(b@, i as int) == byte_space_end(b@, k as int),
        decreases b@.len() - k,
    {
        k = k + 1;
    }
    k
}

fn find_ascii_pi_end(b: &[u8], i: usize) -> (r: Option<usize>)
    requires
        i <= b@.len(),
    ensures
        match r {
            Some(k) => declaration_close(b@, i as int) == Some(k as int) && i <= k < b@.len(),
            None => declaration_close(b@, i as int) is None,
        },
{
    proof {
        assert(b.len() == b@.len());
    }
    let mut k: usize = i;
    while b.len() - k > 1
        invariant
            i <= k <= b@.len(),
            b@.len() == b.len(),
            declaration_close(b@, i as int) == declaration_close(b@, k as int),
        decreases b@.len() - k,
    {
        if b[k] == 0x3f && b[k + 1] == 0x3e {
            return Some(k);
        }
        k = k + 1;
    }
    None
}

/// May `b` stand in the name of a pseudo-attribute?
fn is_label_byte(b: u8) -> (r: bool)
    ensures
        r == label_byte(b),
{
    (b >= 0x41 && b <= 0x5a) || (b >= 0x61 && b <= 0x7a) || b == 0x5f || b == 0x3a || b == 0x2d
}

fn skip_label_name(b: &[u8], i: usize) -> (r: usize)
    requires
        i <= b@.len(),
    ensures
        r == label_name_end(b@, i as int),
        i <= r <= b@.len(),
{
    let mut k: usize = i;
    while k < b.len() && is_label_byte(b[k])
        invariant
            i <= k <= b@.len(),
            label_name_end(b@, i as int) == label_name_end(b@, k as int),
        decreases b@.len() - k,
    {
        k = k + 1;
    }
    k
}

fn find_byte(b: &[u8], i: usize, q: u8) -> (r: usize)
    requires
        i <= b@.len(),
    ensures
        r == byte_from(b@, i as int, q),
        i <= r <= b@.len(),
{
    let mut k: usize = i;
    while k < b.len() && b[k] != q
        invariant
            i <= k <= b@.len(),
            byte_from(b@, i as int, q) == byte_from(b@, k as int, q),
        decreases b@.len() - k,
    {
        k = k + 1;
    }
    k
}

/// The byte with a capital letter made small.
fn to_lower_byte(b: u8) -> (r: u8)
    ensures
        r == lower_byte(b),
{
    if b >= 0x41 && b <= 0x5a {
        b + 32
    } else {
        b
    }
}

/// Does `b` spell `encoding`?
fn spells_encoding(b: &[u8]) -> (r: bool)
    ensures
        r == is_encoding_name(b@),
{
    b.len() == 8 && to_lower_byte(b[0]) == 0x65 && to_lower_byte(b[1]) == 0x6e && to_lower_byte(
        b[2],
    ) == 0x63 && to_lower_byte(b[3]) == 0x6f && to_lower_byte(b[4]) == 0x64 && to_lower_byte(b[5])
        == 0x69 && to_lower_byte(b[6]) == 0x6e && to_lower_byte(b[7]) == 0x67
}

/// Finds the value of the pseudo-attribute `encoding` in the declaration `d`.
fn find_label(d: &[u8]) -> (r: Option<(usize, usize)>)
    ensures
        match r {
            Some((from, to)) => label_range(d@, 0) == Some((from as int, to as int)) && from <= to
                <= d@.len(),
            None => label_range(d@, 0) is None,
        },
{
    proof {
        assert(d.len() == d@.len());
    }
    let mut i: usize = 0;
    loop
        invariant
            i <= d@.len(),
            d.len() == d@.len(),
            label_range(d@, 0) == label_range(d@, i as int),
        decreases d@.len() - i,
    {
        let a: usize = skip_ascii_space(d, i);
        if a >= d.len() {
            return None;
        }
        let n: usize = skip_label_name(d, a);
        if n == a {
            return None;
        }
        let e: usize = skip_ascii_space(d, n);
        if e >= d.len() || d[e] != 0x3d {
            return None;
        }
        let q: usize = skip_ascii_space(d, e + 1);
        if q >= d.len() || !(d[q] == 0x27 || d[q] == 0x22) {
            return None;
        }
        let v: usize = find_byte(d, q + 1, d[q]);
        if v >= d.len() {
            return None;
        }
        if spells_encoding(slice_subrange(d, a, n)) {
            return Some((q + 1, v));
        }
        i = v + 1;
    }
}

/// Decodes UTF-8.
///
/// Calls `std::str::from_utf8`, which accepts exactly the valid encodings, and otherwise says how
/// long the longest valid start is.
#[verifier::external_body]
fn utf8_text<'a>(b: &'a [u8]) -> (r: Result<&'a str, usize>)
    ensures
        match r {
            Ok(t) => valid_utf8(b@) && t@ == decode_utf8(b@),
            Err(n) => !valid_utf8(b@) && n == valid_up_to(b@, b@.len() as int),
        },
{
    match std::str::from_utf8(b) {
        Ok(t) => Ok(t),
        Err(e) => Err(e.valid_up_to()),
    }
}

/// The encoding that the declaration at the start of `b` names.
fn find_ascii_compatible_declared_encoding(b: &[u8]) -> (r: XmlResult<Option<String>>)
    ensures
        match r {
            Ok(Some(label)) => declared_label(b@) == Ok::<Option<Seq<char>>, ErrorModel>(
                Some(label@),
            ),
            Ok(None) => declared_label(b@) == Ok::<Option<Seq<char>>, ErrorModel>(None),
            Err(e) => declared_label(b@) == Err::<Option<Seq<char>>, ErrorModel>(e@),
        },
{
    let i: usize = skip_ascii_space(b, 0);
    let open: [u8; 5] = [0x3c, 0x3f, 0x78, 0x6d, 0x6c];
    proof {
        assert(open@ =~= declaration_open());
        assert(declaration_open().len() == 5);
        assert(b.len() == b@.len());
    }
    if !has_bytes(b, i, &open) {
        return Ok(None);
    }
    let end: usize = match find_ascii_pi_end(b, i + 5) {
        Some(k) => k,
        None => {
            return Ok(None);
        },
    };
    let d = slice_subrange(b, i + 5, end);
    match find_label(d) {
        None => Ok(None),
        Some((from, to)) => match utf8_text(slice_subrange(d, from, to)) {
            Ok(t) => Ok(Some(t.to_owned())),
            Err(_) => Err(XmlError::new(XmlErrorKind::InvalidXmlDeclaration, i)),
        },
    }
}

/// Is `c` white space?
pub(crate) fn is_white_space(c: char) -> (r: bool)
    ensures
        r == white_space(c),
{
    let u: u32 = c as u32;
    (u >= 0x09 && u <= 0x0d) || u == 0x20 || u == 0x85 || u == 0xa0 || u == 0x1680 || (u >= 0x2000
        && u <= 0x200a) || u == 0x2028 || u == 0x2029 || u == 0x202f || u == 0x205f || u == 0x3000
}

/// The range of `s` without the white space at its start and at its end.
pub(crate) fn strip(s: &[char]) -> (r: (usize, usize))
    ensures
        r.0 == strip_start(s@, 0),
        r.1 == strip_end(s@, r.0 as int, s@.len() as int),
        r.0 <= r.1 <= s@.len(),
{
    let mut from: usize = 0;
    while from < s.len() && is_white_space(s[from])
        invariant
            from <= s@.len(),
            strip_start(s@, 0) == strip_start(s@, from as int),
        decreases s@.len() - from,
    {
        from = from + 1;
    }
    let mut to: usize = s.len();
    while to > from && is_white_space(s[to - 1])
        invariant
            from <= to <= s@.len(),
            strip_end(s@, from as int, s@.len() as int) == strip_end(s@, from as int, to as int),
        decreases to,
    {
        to = to - 1;
    }
    (from, to)
}

/// The code point with a capital ASCII letter made small, and an underscore made a hyphen.
fn fold(c: char) -> (r: u32)
    ensures
        r == folded(c),
{
    if c >= 'A' && c <= 'Z' {
        (c as u32) + 32
    } else if c == '_' {
        '-' as u32
    } else {
        c as u32
    }
}

/// Does the label name `t`?
fn is_label(label: &str, t: &str) -> (r: bool)
    ensures
        r == label_is(label@, t@),
{
    let s = chars_of(label);
    let (from, to) = strip(s.as_slice());
    let v = chars_of(t);
    let ghost w = stripped(label@);
    if to - from != v.len() {
        return false;
    }
    let mut k: usize = 0;
    while k < v.len()
        invariant
            from + v@.len() == to <= s@.len(),
            k <= v@.len(),
            v@ == t@,
            w == s@.subrange(from as int, to as int),
            w == stripped(label@),
            forall|i: int| 0 <= i < k ==> folded(w[i]) == #[trigger] t@[i] as u32,
        decreases v@.len() - k,
    {
        assert(w[k as int] == s@[from + k]);
        let target: char = v[k];
        if fold(s[from + k]) != target as u32 {
            assert(folded(w[k as int]) != t@[k as int] as u32);
            return false;
        }
        k = k + 1;
    }
    true
}

fn is_generic_utf16_label(label: &str) -> (r: bool)
    ensures
        r == generic_utf16(label@),
{
    is_label(label, "utf-16") || is_label(label, "utf16") || is_label(label, "u16") || is_label(
        label,
        "ucs-2",
    ) || is_label(label, "iso-10646-ucs-2") || is_label(label, "csunicode")
}

fn is_generic_utf32_label(label: &str) -> (r: bool)
    ensures
        r == generic_utf32(label@),
{
    is_label(label, "utf-32") || is_label(label, "utf32") || is_label(label, "ucs-4") || is_label(
        label,
        "iso-10646-ucs-4",
    ) || is_label(label, "csucs4")
}

fn declared_encoding_matches(label: &str, e: XmlInputEncoding) -> (r: bool)
    ensures
        r == label_matches(label@, e),
{
    match e {
        XmlInputEncoding::Utf8 => is_label(label, "utf-8") || is_label(label, "utf8"),
        XmlInputEncoding::UsAscii => is_label(label, "us-ascii") || is_label(label, "ascii"),
        XmlInputEncoding::Utf16Le => is_generic_utf16_label(label) || is_label(label, "utf-16le"),
        XmlInputEncoding::Utf16Be => is_generic_utf16_label(label) || is_label(label, "utf-16be"),
        XmlInputEncoding::Utf32Le => is_generic_utf32_label(label) || is_label(label, "utf-32le")
            || is_label(label, "ucs-4le"),
        XmlInputEncoding::Utf32Be => is_generic_utf32_label(label) || is_label(label, "utf-32be")
            || is_label(label, "ucs-4be"),
        XmlInputEncoding::Latin1 => is_label(label, "iso-8859-1") || is_label(label, "latin1")
            || is_label(label, "latin-1"),
    }
}

fn encoding_from_label(label: &str) -> (r: Option<XmlInputEncoding>)
    ensures
        r == labelled(label@),
{
    if is_label(label, "utf-8") || is_label(label, "utf8") {
        Some(XmlInputEncoding::Utf8)
    } else if is_label(label, "us-ascii") || is_label(label, "ascii") {
        Some(XmlInputEncoding::UsAscii)
    } else if is_label(label, "utf-16le") {
        Some(XmlInputEncoding::Utf16Le)
    } else if is_label(label, "utf-16be") {
        Some(XmlInputEncoding::Utf16Be)
    } else if is_label(label, "utf-32le") || is_label(label, "ucs-4le") {
        Some(XmlInputEncoding::Utf32Le)
    } else if is_label(label, "utf-32be") || is_label(label, "ucs-4be") {
        Some(XmlInputEncoding::Utf32Be)
    } else if is_label(label, "iso-8859-1") || is_label(label, "latin1") || is_label(
        label,
        "latin-1",
    ) {
        Some(XmlInputEncoding::Latin1)
    } else {
        None
    }
}

/// The encoding whose byte order mark starts `b`, and the length of the mark.
fn find_mark(b: &[u8]) -> (r: Option<(XmlInputEncoding, usize, bool)>)
    ensures
        match r {
            Some((e, n, again)) => marked(b@) == Some(e) && n == byte_order_mark(e).len() && again
                == bytes_at(b@, n as int, byte_order_mark(e)) && n <= b@.len(),
            None => marked(b@) is None,
        },
{
    let utf8: [u8; 3] = [0xef, 0xbb, 0xbf];
    let utf32_be: [u8; 4] = [0x00, 0x00, 0xfe, 0xff];
    let utf32_le: [u8; 4] = [0xff, 0xfe, 0x00, 0x00];
    let utf16_be: [u8; 2] = [0xfe, 0xff];
    let utf16_le: [u8; 2] = [0xff, 0xfe];
    proof {
        assert(utf8@ =~= byte_order_mark(XmlInputEncoding::Utf8));
        assert(utf32_be@ =~= byte_order_mark(XmlInputEncoding::Utf32Be));
        assert(utf32_le@ =~= byte_order_mark(XmlInputEncoding::Utf32Le));
        assert(utf16_be@ =~= byte_order_mark(XmlInputEncoding::Utf16Be));
        assert(utf16_le@ =~= byte_order_mark(XmlInputEncoding::Utf16Le));
    }
    if has_bytes(b, 0, &utf8) {
        Some((XmlInputEncoding::Utf8, 3, has_bytes(b, 3, &utf8)))
    } else if has_bytes(b, 0, &utf32_be) {
        Some((XmlInputEncoding::Utf32Be, 4, has_bytes(b, 4, &utf32_be)))
    } else if has_bytes(b, 0, &utf32_le) {
        Some((XmlInputEncoding::Utf32Le, 4, has_bytes(b, 4, &utf32_le)))
    } else if has_bytes(b, 0, &utf16_be) {
        Some((XmlInputEncoding::Utf16Be, 2, has_bytes(b, 2, &utf16_be)))
    } else if has_bytes(b, 0, &utf16_le) {
        Some((XmlInputEncoding::Utf16Le, 2, has_bytes(b, 2, &utf16_le)))
    } else {
        None
    }
}

/// The encoding that the first characters of a document without a mark show.
fn find_signature(b: &[u8]) -> (r: Option<XmlInputEncoding>)
    ensures
        r == signed(b@),
{
    let utf32_be: [u8; 4] = [0x00, 0x00, 0x00, 0x3c];
    let utf32_le: [u8; 4] = [0x3c, 0x00, 0x00, 0x00];
    let utf16_be: [u8; 4] = [0x00, 0x3c, 0x00, 0x3f];
    let utf16_le: [u8; 4] = [0x3c, 0x00, 0x3f, 0x00];
    proof {
        assert(utf32_be@ =~= seq![0x00u8, 0x00, 0x00, 0x3c]);
        assert(utf32_le@ =~= seq![0x3cu8, 0x00, 0x00, 0x00]);
        assert(utf16_be@ =~= seq![0x00u8, 0x3c, 0x00, 0x3f]);
        assert(utf16_le@ =~= seq![0x3cu8, 0x00, 0x3f, 0x00]);
    }
    if has_bytes(b, 0, &utf32_be) {
        Some(XmlInputEncoding::Utf32Be)
    } else if has_bytes(b, 0, &utf32_le) {
        Some(XmlInputEncoding::Utf32Le)
    } else if has_bytes(b, 0, &utf16_be) {
        Some(XmlInputEncoding::Utf16Be)
    } else if has_bytes(b, 0, &utf16_le) {
        Some(XmlInputEncoding::Utf16Le)
    } else {
        None
    }
}

fn detect_encoding(b: &[u8]) -> (r: XmlResult<(XmlInputEncoding, usize)>)
    ensures
        match r {
            Ok((e, skip)) => detected(b@) == Ok::<(XmlInputEncoding, int), ErrorModel>(
                (e, skip as int),
            ) && skip <= b@.len(),
            Err(e) => detected(b@) == Err::<(XmlInputEncoding, int), ErrorModel>(e@),
        },
{
    if let Some((e, n, again)) = find_mark(b) {
        if again {
            return Err(XmlError::new(XmlErrorKind::InvalidCharacter, n));
        }
        return Ok((e, n));
    }
    if let Some(e) = find_signature(b) {
        return Ok((e, 0));
    }
    match find_ascii_compatible_declared_encoding(b) {
        Err(e) => Err(e),
        Ok(None) => Ok((XmlInputEncoding::Utf8, 0)),
        Ok(Some(label)) => match encoding_from_label(label.as_str()) {
            Some(e) => Ok((e, 0)),
            None => Err(XmlError::new(XmlErrorKind::UnsupportedEncoding(label), 0)),
        },
    }
}

/// ASCII bytes are valid UTF-8.
proof fn lemma_ascii_valid(b: Seq<u8>)
    requires
        forall|i: int| 0 <= i < b.len() ==> b[i] < 0x80,
    ensures
        valid_utf8(b),
    decreases b.len(),
{
    if b.len() > 0 {
        let x = b[0];
        assert(x & 0x80 == 0 && (x as u32) < 0x80) by (bit_vector)
            requires
                x < 0x80,
        ;
        assert((x & 0x7f) as u32 == x as u32) by (bit_vector)
            requires
                x < 0x80,
        ;
        assert(vstd::utf8::valid_first_scalar(b));
        let rest = vstd::utf8::pop_first_scalar(b);
        assert forall|i: int| 0 <= i < rest.len() implies rest[i] < 0x80 by {
            assert(rest[i] == b[i + 1]);
        }
        lemma_ascii_valid(rest);
    }
}

fn decode_ascii<'a>(b: &'a [u8], skip: usize) -> (r: XmlResult<&'a str>)
    requires
        skip <= b@.len(),
    ensures
        match r {
            Ok(t) => text_of(b@, XmlInputEncoding::UsAscii, skip as int) == Ok::<
                Seq<char>,
                ErrorModel,
            >(t@) && valid_utf8(b@.skip(skip as int)),
            Err(e) => text_of(b@, XmlInputEncoding::UsAscii, skip as int) == Err::<
                Seq<char>,
                ErrorModel,
            >(e@),
        },
{
    let tail = slice_subrange(b, skip, b.len());
    proof {
        assert(tail@ =~= b@.skip(skip as int));
        assert(b.len() == b@.len());
    }
    let mut k: usize = 0;
    while k < tail.len()
        invariant
            skip + tail@.len() == b@.len(),
            b@.len() == b.len(),
            k <= tail@.len(),
            tail@ == b@.skip(skip as int),
            forall|i: int| 0 <= i < k ==> tail@[i] < 0x80,
            first_non_ascii(tail@, 0) == first_non_ascii(tail@, k as int),
        decreases tail@.len() - k,
    {
        if tail[k] >= 0x80 {
            return Err(XmlError::new(XmlErrorKind::InvalidCharacter, skip + k));
        }
        k = k + 1;
    }
    proof {
        lemma_ascii_valid(tail@);
    }
    match utf8_text(tail) {
        Ok(t) => Ok(t),
        Err(n) => Err(XmlError::new(XmlErrorKind::InvalidCharacter, n)),
    }
}

fn decode_latin1(b: &[u8]) -> (r: Vec<char>)
    ensures
        r@ == Seq::new(b@.len(), |i: int| b@[i] as char),
{
    let mut out: Vec<char> = Vec::new();
    let mut k: usize = 0;
    while k < b.len()
        invariant
            k <= b@.len(),
            out@.len() == k,
            forall|i: int| 0 <= i < k ==> out@[i] == b@[i] as char,
        decreases b@.len() - k,
    {
        let code: u32 = b[k] as u32;
        if let Some(c) = char_from_code(code) {
            proof {
                char_u32_cast(c, code);
            }
            out.push(c);
        }
        k = k + 1;
    }
    assert(out@ =~= Seq::new(b@.len(), |i: int| b@[i] as char));
    out
}

/// The UTF-16 unit at `i`.
fn read_unit(b: &[u8], i: usize, little: bool) -> (r: u32)
    requires
        i + 1 < b@.len(),
    ensures
        r == unit_at(b@, i as int, little),
        r <= 0xffff,
{
    proof {
        assert(b.len() == b@.len());
    }
    if little {
        b[i] as u32 + 256 * (b[i + 1] as u32)
    } else {
        256 * (b[i] as u32) + b[i + 1] as u32
    }
}

/// Appends the code point, unless it is a byte order mark at the very start.
fn push_code(out: &mut Vec<char>, first: bool, code: u32)
    requires
        is_code_point(code as int),
    ensures
        final(out)@ == with_code(
            old(out)@,
            if first {
                0
            } else {
                1
            },
            code as int,
        ),
        final(out)@ == old(out)@ || final(out)@ == old(out)@.push(code as char),
{
    if first && code == 0xfeff {
        return;
    }
    if let Some(c) = char_from_code(code) {
        proof {
            char_u32_cast(c, code);
        }
        out.push(c);
    }
}

/// One more character has so many more bytes.
proof fn lemma_source_push(s: Seq<char>, c: char, e: XmlInputEncoding)
    ensures
        source_offset(s.push(c), e, s.len() as int + 1) == source_offset(s, e, s.len() as int)
            + source_width(c, e),
{
    assert(s.push(c).take(s.len() as int) =~= s.take(s.len() as int));
    lemma_source_prefix(s.push(c), s, e, s.len() as int);
}

/// The offset depends on the characters before it only.
proof fn lemma_source_prefix(s: Seq<char>, t: Seq<char>, e: XmlInputEncoding, i: int)
    requires
        0 <= i <= s.len(),
        i <= t.len(),
        s.take(i) == t.take(i),
    ensures
        source_offset(s, e, i) == source_offset(t, e, i),
    decreases i,
{
    if i > 0 {
        assert(s.take(i)[i - 1] == s[i - 1]);
        assert(t.take(i)[i - 1] == t[i - 1]);
        assert(s.take(i - 1) =~= s.take(i).take(i - 1));
        assert(t.take(i - 1) =~= t.take(i).take(i - 1));
        lemma_source_prefix(s, t, e, i - 1);
    }
}

#[verifier::rlimit(60)]
fn decode_utf16(b: &[u8], skip: usize, little: bool, Ghost(e): Ghost<XmlInputEncoding>) -> (r:
    XmlResult<Vec<char>>)
    requires
        skip + b@.len() <= usize::MAX,
        e == (if little {
            XmlInputEncoding::Utf16Le
        } else {
            XmlInputEncoding::Utf16Be
        }),
    ensures
        match r {
            Ok(t) => utf16_text(b@, little, skip as int) == Ok::<Seq<char>, ErrorModel>(t@)
                && source_offset(t@, e, t@.len() as int) <= b@.len(),
            Err(x) => utf16_text(b@, little, skip as int) == Err::<Seq<char>, ErrorModel>(x@),
        },
{
    proof {
        assert(b.len() == b@.len());
    }
    if b.len() % 2 != 0 {
        return Err(XmlError::new(XmlErrorKind::InvalidCharacter, skip + (b.len() - 1)));
    }
    let mut out: Vec<char> = Vec::new();
    let mut i: usize = 0;
    let mut n: usize = 0;
    while i < b.len()
        invariant
            b@.len() == b.len(),
            b@.len() % 2 == 0,
            i % 2 == 0,
            i <= b@.len(),
            n <= i,
            skip + b@.len() <= usize::MAX,
            e == (if little {
                XmlInputEncoding::Utf16Le
            } else {
                XmlInputEncoding::Utf16Be
            }),
            source_offset(out@, e, out@.len() as int) <= i,
            utf16_from(b@, 0, little, 0, Seq::empty()) == utf16_from(
                b@,
                i as int,
                little,
                n as int,
                out@,
            ),
        decreases b@.len() - i,
    {
        let ghost before = out@;
        let u: u32 = read_unit(b, i, little);
        if u >= 0xd800 && u <= 0xdbff {
            if b.len() - i <= 3 {
                return Err(XmlError::new(XmlErrorKind::InvalidCharacter, skip + i));
            }
            let low: u32 = read_unit(b, i + 2, little);
            if !(low >= 0xdc00 && low <= 0xdfff) {
                return Err(XmlError::new(XmlErrorKind::InvalidCharacter, skip + i));
            }
            let code: u32 = 0x10000 + (u - 0xd800) * 1024 + (low - 0xdc00);
            push_code(&mut out, n == 0, code);
            proof {
                lemma_source_push(before, code as char, e);
            }
            i = i + 4;
        } else if u >= 0xdc00 && u <= 0xdfff {
            return Err(XmlError::new(XmlErrorKind::InvalidCharacter, skip + i));
        } else {
            push_code(&mut out, n == 0, u);
            proof {
                lemma_source_push(before, u as char, e);
            }
            i = i + 2;
        }
        n = n + 1;
    }
    Ok(out)
}

fn decode_utf32(b: &[u8], skip: usize, little: bool, Ghost(e): Ghost<XmlInputEncoding>) -> (r:
    XmlResult<Vec<char>>)
    requires
        skip + b@.len() <= usize::MAX,
        e == XmlInputEncoding::Utf32Le || e == XmlInputEncoding::Utf32Be,
    ensures
        match r {
            Ok(t) => utf32_text(b@, little, skip as int) == Ok::<Seq<char>, ErrorModel>(t@)
                && source_offset(t@, e, t@.len() as int) <= b@.len(),
            Err(x) => utf32_text(b@, little, skip as int) == Err::<Seq<char>, ErrorModel>(x@),
        },
{
    proof {
        assert(b.len() == b@.len());
    }
    if b.len() % 4 != 0 {
        return Err(
            XmlError::new(XmlErrorKind::InvalidCharacter, skip + (b.len() - b.len() % 4)),
        );
    }
    let mut out: Vec<char> = Vec::new();
    let mut i: usize = 0;
    while i < b.len()
        invariant
            b@.len() == b.len(),
            b@.len() % 4 == 0,
            i % 4 == 0,
            i <= b@.len(),
            skip + b@.len() <= usize::MAX,
            e == XmlInputEncoding::Utf32Le || e == XmlInputEncoding::Utf32Be,
            source_offset(out@, e, out@.len() as int) <= i,
            utf32_from(b@, 0, little, Seq::empty()) == utf32_from(b@, i as int, little, out@),
        decreases b@.len() - i,
    {
        let ghost before = out@;
        let x: u32 = read_unit(b, i, little);
        let y: u32 = read_unit(b, i + 2, little);
        let code: u32 = if little {
            x + 65536 * y
        } else {
            65536 * x + y
        };
        if char_from_code(code).is_none() {
            return Err(XmlError::new(XmlErrorKind::InvalidCharacter, skip + i));
        }
        push_code(&mut out, i == 0, code);
        proof {
            lemma_source_push(before, code as char, e);
        }
        i = i + 4;
    }
    Ok(out)
}

/// Checks the declaration of a text whose encoding was found by other means.
fn validate_declared_encoding(text: &str, e: XmlInputEncoding) -> (r: XmlResult<()>)
    ensures
        match r {
            Ok(_) => match declared_label(encode_utf8(text@)) {
                Ok(None) => true,
                Ok(Some(label)) => label_matches(label, e),
                Err(_) => false,
            },
            Err(x) => match declared_label(encode_utf8(text@)) {
                Ok(None) => false,
                Ok(Some(label)) => !label_matches(label, e) && x@ == (ErrorModel {
                    kind: ErrorKindModel::InvalidXmlDeclaration,
                    byte: 0,
                }),
                Err(y) => x@ == y,
            },
        },
{
    match find_ascii_compatible_declared_encoding(text.as_bytes()) {
        Err(x) => Err(x),
        Ok(None) => Ok(()),
        Ok(Some(label)) => if declared_encoding_matches(label.as_str(), e) {
            Ok(())
        } else {
            Err(XmlError::new(XmlErrorKind::InvalidXmlDeclaration, 0))
        },
    }
}

/// Latin-1 has one byte for each character.
proof fn lemma_latin1_offset(s: Seq<char>, i: int)
    requires
        0 <= i <= s.len(),
    ensures
        source_offset(s, XmlInputEncoding::Latin1, i) == i,
    decreases i,
{
    if i > 0 {
        lemma_latin1_offset(s, i - 1);
    }
}

/// UTF-8 has the widths of UTF-8.
proof fn lemma_utf8_offset(s: Seq<char>, e: XmlInputEncoding, i: int)
    requires
        e == XmlInputEncoding::Utf8 || e == XmlInputEncoding::UsAscii,
        0 <= i <= s.len(),
    ensures
        source_offset(s, e, i) == byte_offset(s, i),
    decreases i,
{
    if i > 0 {
        lemma_utf8_offset(s, e, i - 1);
    }
}

/// A decoded UTF-8 text has its place in the source.
proof fn lemma_utf8_fits(tail: Seq<u8>, t: Seq<char>, e: XmlInputEncoding)
    requires
        e == XmlInputEncoding::Utf8 || e == XmlInputEncoding::UsAscii,
        valid_utf8(tail),
        t == decode_utf8(tail),
    ensures
        source_offset(t, e, t.len() as int) == tail.len(),
{
    vstd::utf8::decode_utf8_encode_utf8(tail);
    lemma_byte_len_is_utf8(t);
    lemma_utf8_offset(t, e, t.len() as int);
}

/// The mark that was skipped is the mark of the encoding that was found.
proof fn lemma_mark_width(b: Seq<u8>, e: XmlInputEncoding, skip: int)
    requires
        detected(b) == Ok::<(XmlInputEncoding, int), ErrorModel>((e, skip)),
    ensures
        mark_width(b, e) == skip,
        skip == byte_order_mark(e).len() || marked(b) is None,
{
    if marked(b) is None {
        if bytes_at(b, 0, byte_order_mark(e)) {
            let mark = byte_order_mark(e);
            if mark.len() > 0 {
                assert(e == XmlInputEncoding::Utf8 || e == XmlInputEncoding::Utf16Le || e
                    == XmlInputEncoding::Utf16Be || e == XmlInputEncoding::Utf32Le || e
                    == XmlInputEncoding::Utf32Be);
            }
        }
    } else if e == XmlInputEncoding::Utf16Le {
        assert(bytes_at(b, 0, byte_order_mark(e)));
    }
}

/// Decodes a document; UTF-8 and US-ASCII are borrowed, not copied.
pub fn decode_xml_bytes<'a>(bytes: &'a [u8]) -> (r: XmlResult<DecodedXml<'a>>)
    ensures
        match r {
            Ok(d) => decoded(bytes@) == Ok::<(Seq<char>, XmlInputEncoding), ErrorModel>(
                (d.input@, d.encoding),
            ) && fits(bytes@, d.input@, d.encoding) && (d.encoding == XmlInputEncoding::Utf8
                || d.encoding == XmlInputEncoding::UsAscii ==> d.input is Borrowed),
            Err(e) => decoded(bytes@) == Err::<(Seq<char>, XmlInputEncoding), ErrorModel>(e@),
        },
{
    let (encoding, skip) = match detect_encoding(bytes) {
        Err(e) => {
            return Err(e);
        },
        Ok(x) => x,
    };
    let tail = slice_subrange(bytes, skip, bytes.len());
    proof {
        assert(tail@ =~= bytes@.skip(skip as int));
        assert(bytes.len() == bytes@.len());
        lemma_mark_width(bytes@, encoding, skip as int);
    }
    let input: Cow<'a, str> = match encoding {
        XmlInputEncoding::Utf8 => match utf8_text(tail) {
            Ok(t) => {
                proof {
                    lemma_utf8_fits(tail@, t@, encoding);
                }
                Cow::Borrowed(t)
            },
            Err(n) => {
                proof {
                    lemma_valid_up_to(tail@, tail@.len() as int);
                }
                return Err(XmlError::new(XmlErrorKind::InvalidCharacter, skip + n));
            },
        },
        XmlInputEncoding::UsAscii => match decode_ascii(bytes, skip) {
            Ok(t) => {
                proof {
                    lemma_utf8_fits(tail@, t@, encoding);
                }
                Cow::Borrowed(t)
            },
            Err(e) => {
                return Err(e);
            },
        },
        XmlInputEncoding::Latin1 => {
            let t = decode_latin1(tail);
            proof {
                lemma_latin1_offset(t@, t@.len() as int);
            }
            Cow::Owned(string_of(t.as_slice()))
        },
        XmlInputEncoding::Utf16Le => match decode_utf16(tail, skip, true, Ghost(encoding)) {
            Ok(t) => Cow::Owned(string_of(t.as_slice())),
            Err(e) => {
                return Err(e);
            },
        },
        XmlInputEncoding::Utf16Be => match decode_utf16(tail, skip, false, Ghost(encoding)) {
            Ok(t) => Cow::Owned(string_of(t.as_slice())),
            Err(e) => {
                return Err(e);
            },
        },
        XmlInputEncoding::Utf32Le => match decode_utf32(tail, skip, true, Ghost(encoding)) {
            Ok(t) => Cow::Owned(string_of(t.as_slice())),
            Err(e) => {
                return Err(e);
            },
        },
        XmlInputEncoding::Utf32Be => match decode_utf32(tail, skip, false, Ghost(encoding)) {
            Ok(t) => Cow::Owned(string_of(t.as_slice())),
            Err(e) => {
                return Err(e);
            },
        },
    };
    let check = match encoding {
        XmlInputEncoding::Utf8 => skip > 0,
        XmlInputEncoding::UsAscii | XmlInputEncoding::Latin1 => false,
        _ => true,
    };
    let decoded = DecodedXml { input, encoding };
    if check {
        if let Err(e) = validate_declared_encoding(decoded.as_str(), encoding) {
            return Err(e);
        }
    }
    Ok(decoded)
}

/// The valid start is no longer than the whole.
proof fn lemma_valid_up_to(b: Seq<u8>, n: int)
    requires
        0 <= n <= b.len(),
    ensures
        0 <= valid_up_to(b, n) <= n,
    decreases n,
{
    if n > 0 && !valid_utf8(b.take(n)) {
        lemma_valid_up_to(b, n - 1);
    }
}

impl<'a> DecodedXml<'a> {
    /// Returns the text.
    pub fn as_str(&self) -> (r: &str)
        ensures
            r@ == self.input@,
    {
        match &self.input {
            Cow::Borrowed(t) => t,
            Cow::Owned(t) => t.as_str(),
        }
    }

    /// Moves the byte of an error from the text to the source.
    pub(crate) fn translate_error(&self, source: &[u8], error: XmlError) -> (r: XmlError)
        requires
            fits(source@, self.input@, self.encoding),
        ensures
            r@ == translated(source@, self.input@, self.encoding, error@),
            r.byte <= source@.len(),
    {
        let byte: usize = self.translate_byte(source, error.byte);
        XmlError { kind: error.kind, byte }
    }

    /// Moves a byte offset from the text to the source.
    pub(crate) fn translate_byte(&self, source: &[u8], at: usize) -> (r: usize)
        requires
            fits(source@, self.input@, self.encoding),
        ensures
            r == source_byte(source@, self.input@, self.encoding, at as int),
            r <= source@.len(),
    {
        let s = chars_of(self.as_str());
        let ghost t = self.input@;
        let ghost e = self.encoding;
        proof {
            assert(source.len() == source@.len());
            lemma_mark_bounds(source@, e);
        }
        let mark: usize = self.mark(source);
        let mut k: usize = 0;
        let mut bytes: usize = 0;
        let mut total: usize = mark;
        while k < s.len()
            invariant
                s@ == t,
                k <= s@.len(),
                t == self.input@,
                e == self.encoding,
                fits(source@, t, e),
                source@.len() <= usize::MAX,
                mark == mark_width(source@, e),
                bytes <= at,
                bytes == byte_offset(t, k as int),
                total == mark + source_offset(t, e, k as int),
            ensures
                k <= s@.len(),
                bytes == byte_offset(t, k as int),
                bytes <= at,
                k == s@.len() || byte_offset(t, k + 1) > at,
                total == mark + source_offset(t, e, k as int),
            decreases s@.len() - k,
        {
            let w: usize = char_width(s[k]);
            if w > at - bytes {
                break;
            }
            proof {
                lemma_source_monotone(t, e, k + 1, t.len() as int);
            }
            bytes = bytes + w;
            total = total + self.width(s[k]);
            k = k + 1;
        }
        proof {
            lemma_char_before(t, t.len() as int, at as int, k as int);
            lemma_source_monotone(t, e, k as int, t.len() as int);
        }
        total
    }

    /// How many bytes the mark at the start of the source has.
    fn mark(&self, source: &[u8]) -> (r: usize)
        ensures
            r == mark_width(source@, self.encoding),
    {
        let utf8: [u8; 3] = [0xef, 0xbb, 0xbf];
        let utf32_be: [u8; 4] = [0x00, 0x00, 0xfe, 0xff];
        let utf32_le: [u8; 4] = [0xff, 0xfe, 0x00, 0x00];
        let utf16_be: [u8; 2] = [0xfe, 0xff];
        let utf16_le: [u8; 2] = [0xff, 0xfe];
        proof {
            assert(utf8@ =~= byte_order_mark(XmlInputEncoding::Utf8));
            assert(utf32_be@ =~= byte_order_mark(XmlInputEncoding::Utf32Be));
            assert(utf32_le@ =~= byte_order_mark(XmlInputEncoding::Utf32Le));
            assert(utf16_be@ =~= byte_order_mark(XmlInputEncoding::Utf16Be));
            assert(utf16_le@ =~= byte_order_mark(XmlInputEncoding::Utf16Le));
        }
        match self.encoding {
            XmlInputEncoding::Utf8 => if has_bytes(source, 0, &utf8) {
                3
            } else {
                0
            },
            XmlInputEncoding::Utf16Le => if has_bytes(source, 0, &utf16_le) {
                2
            } else {
                0
            },
            XmlInputEncoding::Utf16Be => if has_bytes(source, 0, &utf16_be) {
                2
            } else {
                0
            },
            XmlInputEncoding::Utf32Le => if has_bytes(source, 0, &utf32_le) {
                4
            } else {
                0
            },
            XmlInputEncoding::Utf32Be => if has_bytes(source, 0, &utf32_be) {
                4
            } else {
                0
            },
            _ => 0,
        }
    }

    /// How many bytes a character has in the source.
    fn width(&self, c: char) -> (r: usize)
        ensures
            r == source_width(c, self.encoding),
    {
        match self.encoding {
            XmlInputEncoding::Utf8 | XmlInputEncoding::UsAscii => char_width(c),
            XmlInputEncoding::Latin1 => 1,
            XmlInputEncoding::Utf16Le | XmlInputEncoding::Utf16Be => if c as u32 >= 0x10000 {
                4
            } else {
                2
            },
            _ => 4,
        }
    }
}

/// A mark has at most four bytes, and the source has them.
proof fn lemma_mark_bounds(b: Seq<u8>, e: XmlInputEncoding)
    ensures
        0 <= mark_width(b, e) <= 4,
        mark_width(b, e) <= b.len(),
{
}

/// Offsets in the source grow.
proof fn lemma_source_monotone(s: Seq<char>, e: XmlInputEncoding, i: int, j: int)
    requires
        0 <= i <= j <= s.len(),
    ensures
        source_offset(s, e, i) <= source_offset(s, e, j),
    decreases j - i,
{
    if i < j {
        lemma_source_monotone(s, e, i, j - 1);
    }
}

/// The character before a byte is the last one that starts there or earlier.
pub(crate) proof fn lemma_char_before(s: Seq<char>, i: int, at: int, k: int)
    requires
        0 <= k <= i <= s.len(),
        byte_offset(s, k) <= at,
        k == s.len() || byte_offset(s, k + 1) > at,
    ensures
        char_before(s, i, at) == k,
    decreases i,
{
    if i > k {
        lemma_byte_offset_monotone(s, k + 1, i);
        lemma_char_before(s, i - 1, at, k);
    }
}

} // verus!
