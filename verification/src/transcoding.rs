//! What is encoded is decoded as it was.

use vstd::prelude::*;
use vstd::utf8::{
    decode_utf8, encode_scalar, encode_utf8, encode_utf8_decode_utf8, encode_utf8_valid_utf8,
    last_continuation_byte, leading_byte_width_1, leading_byte_width_2, leading_byte_width_3,
    leading_byte_width_4, second_last_continuation_byte, valid_utf8,
};

use crate::encoding::{
    byte_order_mark, bytes_at, declared_label, decoded, detected, label_matches, labelled, marked,
    signed, unit_at, utf16_from, utf16_text, with_code, XmlInputEncoding,
};
use crate::error::ErrorModel;
use crate::mutation::{tree_char, tree_text};
use crate::serialize::{
    encoded, unit_bytes, utf16_bytes, utf16_char, utf16_units, XmlOutputEncoding,
};

verus! {

/// The encoding as one of a document that is read.
pub open spec fn read_as(e: XmlOutputEncoding) -> XmlInputEncoding {
    match e {
        XmlOutputEncoding::Utf8 => XmlInputEncoding::Utf8,
        XmlOutputEncoding::Utf16Le => XmlInputEncoding::Utf16Le,
        XmlOutputEncoding::Utf16Be => XmlInputEncoding::Utf16Be,
    }
}

/// Bytes one behind the other stand at `i`.
proof fn lemma_bytes_split(b: Seq<u8>, i: int, x: Seq<u8>, y: Seq<u8>)
    requires
        bytes_at(b, i, x + y),
    ensures
        bytes_at(b, i, x),
        bytes_at(b, i + x.len(), y),
{
    let w = b.subrange(i, i + (x + y).len());
    let n = x.len() as int;
    let m = y.len() as int;
    assert(b.subrange(i, i + n) =~= w.subrange(0, n));
    assert((x + y).subrange(0, n) =~= x);
    assert(b.subrange(i + n, i + n + m) =~= w.subrange(n, n + m));
    assert((x + y).subrange(n, n + m) =~= y);
}

/// The bytes of a text begin with those of its first character.
proof fn lemma_utf16_first(t: Seq<char>, little: bool)
    requires
        t.len() > 0,
    ensures
        utf16_bytes(t, little) == utf16_char(t[0], little) + utf16_bytes(t.drop_first(), little),
    decreases t.len(),
{
    let rest = t.drop_first();
    if t.len() == 1 {
        assert(t.drop_last() =~= Seq::<char>::empty());
        assert(rest =~= Seq::<char>::empty());
        assert(utf16_bytes(t, little) =~= utf16_char(t[0], little) + utf16_bytes(rest, little));
    } else {
        lemma_utf16_first(t.drop_last(), little);
        assert(t.drop_last().drop_first() =~= rest.drop_last());
        assert(utf16_bytes(t, little) =~= utf16_char(t[0], little) + utf16_bytes(rest, little));
    }
}

/// Two bytes for each unit.
proof fn lemma_utf16_even(t: Seq<char>, little: bool)
    ensures
        utf16_bytes(t, little).len() % 2 == 0,
    decreases t.len(),
{
    if t.len() > 0 {
        lemma_utf16_even(t.drop_last(), little);
    }
}

/// A unit is read back.
proof fn lemma_unit(b: Seq<u8>, i: int, u: u16, little: bool)
    requires
        bytes_at(b, i, unit_bytes(u, little)),
    ensures
        unit_at(b, i, little) == u,
        i + 2 <= b.len(),
{
    let w = b.subrange(i, i + 2);
    assert(w == unit_bytes(u, little));
    assert(w[0] == b[i]);
    assert(w[1] == b[i + 1]);
}

/// The units of a character are those of its code point.
proof fn lemma_utf16_char(c: char)
    ensures
        ({
            let x = c as u32;
            let u = utf16_units(c);
            if x < 0x10000 {
                u.len() == 1 && u[0] == x && !(0xd800 <= u[0] <= 0xdfff)
            } else {
                u.len() == 2 && 0xd800 <= u[0] <= 0xdbff && 0xdc00 <= u[1] <= 0xdfff && x == 0x10000
                    + (u[0] - 0xd800) * 1024 + (u[1] - 0xdc00)
            }
        }),
{
}

/// The code point of a character is the character.
proof fn lemma_with_code(acc: Seq<char>, n: int, c: char, code: int)
    requires
        n == 0 ==> c != '\u{feff}',
        code == c as u32,
    ensures
        with_code(acc, n, code) == acc.push(c),
{
}

/// The rest of the bytes of a text is decoded to the rest of the text.
proof fn lemma_utf16_from(b: Seq<u8>, i: int, t: Seq<char>, little: bool, n: int, acc: Seq<char>)
    requires
        bytes_at(b, i, utf16_bytes(t, little)),
        i + utf16_bytes(t, little).len() == b.len(),
        0 <= n,
        n == 0 && t.len() > 0 ==> t[0] != '\u{feff}',
    ensures
        utf16_from(b, i, little, n, acc) == Ok::<Seq<char>, int>(acc + t),
    decreases t.len(),
{
    if t.len() == 0 {
        assert(acc + t =~= acc);
    } else {
        let c = t[0];
        let rest = t.drop_first();
        let x = utf16_char(c, little);
        let u = utf16_units(c);
        lemma_utf16_first(t, little);
        lemma_bytes_split(b, i, x, utf16_bytes(rest, little));
        lemma_utf16_from(b, i + x.len(), rest, little, n + 1, acc.push(c));
        assert(acc.push(c) + rest =~= acc + t);
        lemma_utf16_char(c);
        if u.len() == 1 {
            lemma_unit(b, i, u[0], little);
            lemma_with_code(acc, n, c, u[0] as int);
        } else {
            lemma_bytes_split(b, i, unit_bytes(u[0], little), unit_bytes(u[1], little));
            lemma_unit(b, i, u[0], little);
            lemma_unit(b, i + 2, u[1], little);
            lemma_with_code(acc, n, c, 0x10000 + (u[0] - 0xd800) * 1024 + (u[1] - 0xdc00));
        }
    }
}

/// A text in UTF-16 is decoded as it was, unless it starts with what is taken for a mark.
pub proof fn lemma_utf16_round_trip(t: Seq<char>, little: bool, skip: int)
    requires
        t.len() > 0 ==> t[0] != '\u{feff}',
    ensures
        utf16_text(utf16_bytes(t, little), little, skip) == Ok::<Seq<char>, ErrorModel>(t),
{
    let b = utf16_bytes(t, little);
    assert(b.subrange(0, b.len() as int) =~= b);
    lemma_utf16_even(t, little);
    lemma_utf16_from(b, 0, t, little, 0, Seq::empty());
    assert(Seq::<char>::empty() + t =~= t);
}

/// A text in UTF-8 is decoded as it was.
pub proof fn lemma_utf8_round_trip(t: Seq<char>)
    ensures
        valid_utf8(encode_utf8(t)),
        decode_utf8(encode_utf8(t)) == t,
{
    encode_utf8_valid_utf8(t);
    encode_utf8_decode_utf8(t);
}

/// The declaration that the text starts with names the encoding, or none.
pub open spec fn label_fits(t: Seq<char>, e: XmlOutputEncoding) -> bool {
    match declared_label(encode_utf8(t)) {
        Err(_) => false,
        Ok(None) => true,
        Ok(Some(label)) => label_matches(label, read_as(e)),
    }
}

/// The first two bytes of a text in UTF-8 that starts with markup.
proof fn lemma_utf8_start(t: Seq<char>)
    requires
        t.len() > 1,
        t[0] == '<',
        tree_char(t[1]),
    ensures
        encode_utf8(t).len() > 1,
        encode_utf8(t)[0] == 0x3c,
        encode_utf8(t)[1] != 0,
{
    let rest = t.drop_first();
    assert(rest[0] == t[1]);
    let c = rest[0] as u32;
    assert(encode_utf8(t) == encode_scalar(t[0] as u32) + encode_utf8(rest));
    assert(encode_utf8(rest) == encode_scalar(c) + encode_utf8(rest.drop_first()));
    assert(leading_byte_width_1(0x3c) == 0x3c) by (bit_vector);
    assert(encode_scalar('<' as u32) =~= seq![0x3cu8]);
    assert(0x20 <= c < 0x80 || c == 9 || c == 10 || c == 13 ==> leading_byte_width_1(c) != 0)
        by (bit_vector);
    assert(leading_byte_width_2(c) != 0) by (bit_vector);
    assert(leading_byte_width_3(c) != 0) by (bit_vector);
    assert(leading_byte_width_4(c) != 0) by (bit_vector);
    assert(encode_scalar(c).len() > 0);
    assert(encode_scalar(c)[0] != 0);
}

/// A byte order mark in UTF-8.
proof fn lemma_utf8_mark(t: Seq<char>)
    ensures
        encode_utf8(seq!['\u{feff}'] + t) == seq![0xefu8, 0xbb, 0xbf] + encode_utf8(t),
{
    let s = seq!['\u{feff}'] + t;
    assert(s.drop_first() =~= t);
    assert(leading_byte_width_3(0xfeff) == 0xef) by (bit_vector);
    assert(second_last_continuation_byte(0xfeff) == 0xbb) by (bit_vector);
    assert(last_continuation_byte(0xfeff) == 0xbf) by (bit_vector);
    assert(encode_scalar('\u{feff}' as u32) =~= seq![0xefu8, 0xbb, 0xbf]);
}

/// A byte order mark in UTF-16.
proof fn lemma_utf16_mark(t: Seq<char>, little: bool)
    ensures
        utf16_bytes(seq!['\u{feff}'] + t, little) == (if little {
            seq![0xffu8, 0xfe]
        } else {
            seq![0xfeu8, 0xff]
        }) + utf16_bytes(t, little),
{
    let s = seq!['\u{feff}'] + t;
    assert(s.drop_first() =~= t);
    lemma_utf16_first(s, little);
    lemma_utf16_char('\u{feff}');
    assert(utf16_char('\u{feff}', little) =~= (if little {
        seq![0xffu8, 0xfe]
    } else {
        seq![0xfeu8, 0xff]
    }));
}

/// The first bytes of a text in UTF-16 that starts with markup.
proof fn lemma_utf16_start(t: Seq<char>, little: bool)
    requires
        t.len() > 1,
        t[0] == '<',
    ensures
        utf16_bytes(t, little).len() >= 4,
        little ==> utf16_bytes(t, little)[0] == 0x3c && utf16_bytes(t, little)[1] == 0,
        !little ==> utf16_bytes(t, little)[0] == 0 && utf16_bytes(t, little)[1] == 0x3c,
        t[1] == '?' && little ==> utf16_bytes(t, little)[2] == 0x3f
            && utf16_bytes(t, little)[3] == 0,
        t[1] == '?' && !little ==> utf16_bytes(t, little)[2] == 0 && utf16_bytes(t, little)[3]
            == 0x3f,
{
    let rest = t.drop_first();
    lemma_utf16_first(t, little);
    lemma_utf16_first(rest, little);
    lemma_utf16_char('<');
    lemma_utf16_char('?');
    lemma_utf16_char(rest[0]);
    assert(utf16_char('<', little).len() == 2);
    assert(utf16_char(rest[0], little).len() >= 2);
}

/// What a document is written as in bytes is decoded to its text: always where a byte order
/// mark is written, in UTF-8, and in UTF-16 where the text starts with an instruction.
pub proof fn lemma_bytes_round_trip(t: Seq<char>, e: XmlOutputEncoding, mark: bool)
    requires
        t.len() > 1,
        t[0] == '<',
        tree_text(t),
        label_fits(t, e),
        !mark && e != XmlOutputEncoding::Utf8 ==> t[1] == '?',
        !mark && e == XmlOutputEncoding::Utf8 ==> (declared_label(encode_utf8(t)) matches Ok(
            Some(label),
        ) ==> labelled(label) == Some(XmlInputEncoding::Utf8)),
    ensures
        decoded(
            encoded(
                if mark {
                    seq!['\u{feff}'] + t
                } else {
                    t
                },
                e,
            ),
        ) == Ok::<(Seq<char>, XmlInputEncoding), ErrorModel>((t, read_as(e))),
{
    let s = if mark {
        seq!['\u{feff}'] + t
    } else {
        t
    };
    let b = encoded(s, e);
    match e {
        XmlOutputEncoding::Utf8 => {
            lemma_utf8_start(t);
            lemma_utf8_round_trip(t);
            if mark {
                lemma_utf8_mark(t);
                assert(b.skip(3) =~= encode_utf8(t));
                assert(b.subrange(0, 3) =~= seq![0xefu8, 0xbb, 0xbf]);
                assert(b.subrange(3, 6)[0] == encode_utf8(t)[0] || b.len() < 6);
                assert(!bytes_at(b, 3, byte_order_mark(XmlInputEncoding::Utf8)));
            } else {
                assert(b.skip(0) =~= b);
                lemma_unmarked(b);
            }
        },
        _ => {
            let little = e == XmlOutputEncoding::Utf16Le;
            lemma_utf16_start(t, little);
            lemma_utf16_round_trip(t, little, if mark { 2 } else { 0 });
            if mark {
                lemma_utf16_mark(t, little);
                assert(b.skip(2) =~= utf16_bytes(t, little));
                lemma_marked_utf16(b, little);
            } else {
                assert(b.skip(0) =~= b);
                lemma_signed_utf16(b, little);
            }
        },
    }
}

/// Bytes without a mark.
proof fn lemma_unmarked(b: Seq<u8>)
    requires
        b.len() > 1,
        b[0] == 0x3c,
        b[1] != 0,
    ensures
        marked(b) is None,
        signed(b) is None,
{
    assert(b.len() >= 3 ==> b.subrange(0, 3)[0] == 0x3c);
    assert(b.subrange(0, 2)[0] == 0x3c);
    assert(b.len() >= 4 ==> b.subrange(0, 4)[0] == 0x3c && b.subrange(0, 4)[1] == b[1]);
    assert(byte_order_mark(XmlInputEncoding::Utf8)[0] == 0xef);
    assert(byte_order_mark(XmlInputEncoding::Utf32Be)[0] == 0x00);
    assert(byte_order_mark(XmlInputEncoding::Utf32Le)[0] == 0xff);
    assert(byte_order_mark(XmlInputEncoding::Utf16Be)[0] == 0xfe);
    assert(byte_order_mark(XmlInputEncoding::Utf16Le)[0] == 0xff);
    assert(seq![0x00u8, 0x00, 0x00, 0x3c][0] == 0x00);
    assert(seq![0x3cu8, 0x00, 0x00, 0x00][1] == 0x00);
    assert(seq![0x00u8, 0x3c, 0x00, 0x3f][0] == 0x00);
    assert(seq![0x3cu8, 0x00, 0x3f, 0x00][1] == 0x00);
}

/// Bytes with a mark of UTF-16.
proof fn lemma_marked_utf16(b: Seq<u8>, little: bool)
    requires
        b.len() >= 4,
        little ==> b[0] == 0xff && b[1] == 0xfe && b[2] == 0x3c,
        !little ==> b[0] == 0xfe && b[1] == 0xff && b[2] == 0,
    ensures
        detected(b) == Ok::<(XmlInputEncoding, int), ErrorModel>(
            (
                if little {
                    XmlInputEncoding::Utf16Le
                } else {
                    XmlInputEncoding::Utf16Be
                },
                2,
            ),
        ),
{
    assert(b.subrange(0, 3)[0] == b[0]);
    assert(b.subrange(0, 4)[0] == b[0] && b.subrange(0, 4)[2] == b[2]);
    assert(b.subrange(0, 2)[0] == b[0]);
    assert(b.subrange(2, 4)[0] == b[2]);
    assert(byte_order_mark(XmlInputEncoding::Utf8)[0] == 0xef);
    assert(byte_order_mark(XmlInputEncoding::Utf32Be)[0] == 0x00);
    assert(byte_order_mark(XmlInputEncoding::Utf32Le)[0] == 0xff);
    assert(byte_order_mark(XmlInputEncoding::Utf32Le)[2] == 0x00);
    assert(byte_order_mark(XmlInputEncoding::Utf16Be)[0] == 0xfe);
    assert(byte_order_mark(XmlInputEncoding::Utf16Le)[0] == 0xff);
    if little {
        assert(b.subrange(0, 2) =~= byte_order_mark(XmlInputEncoding::Utf16Le));
    } else {
        assert(b.subrange(0, 2) =~= byte_order_mark(XmlInputEncoding::Utf16Be));
    }
}

/// Bytes that show UTF-16 by their first characters.
proof fn lemma_signed_utf16(b: Seq<u8>, little: bool)
    requires
        b.len() >= 4,
        little ==> b[0] == 0x3c && b[1] == 0 && b[2] == 0x3f && b[3] == 0,
        !little ==> b[0] == 0 && b[1] == 0x3c && b[2] == 0 && b[3] == 0x3f,
    ensures
        detected(b) == Ok::<(XmlInputEncoding, int), ErrorModel>(
            (
                if little {
                    XmlInputEncoding::Utf16Le
                } else {
                    XmlInputEncoding::Utf16Be
                },
                0,
            ),
        ),
{
    let w = b.subrange(0, 4);
    assert(b.subrange(0, 3)[0] == b[0]);
    assert(w[0] == b[0] && w[1] == b[1] && w[2] == b[2] && w[3] == b[3]);
    assert(b.subrange(0, 2)[0] == b[0]);
    assert(byte_order_mark(XmlInputEncoding::Utf8)[0] == 0xef);
    assert(byte_order_mark(XmlInputEncoding::Utf32Be)[2] == 0xfe);
    assert(byte_order_mark(XmlInputEncoding::Utf32Le)[0] == 0xff);
    assert(byte_order_mark(XmlInputEncoding::Utf16Be)[0] == 0xfe);
    assert(byte_order_mark(XmlInputEncoding::Utf16Le)[0] == 0xff);
    assert(seq![0x00u8, 0x00, 0x00, 0x3c][1] == 0x00);
    assert(seq![0x00u8, 0x00, 0x00, 0x3c][0] == 0x00);
    assert(seq![0x3cu8, 0x00, 0x00, 0x00][2] == 0x00);
    assert(seq![0x3cu8, 0x00, 0x00, 0x00][0] == 0x3c);
    assert(seq![0x00u8, 0x3c, 0x00, 0x3f][0] == 0x00);
    if little {
        assert(w =~= seq![0x3cu8, 0x00, 0x3f, 0x00]);
    } else {
        assert(w =~= seq![0x00u8, 0x3c, 0x00, 0x3f]);
    }
}

} // verus!
