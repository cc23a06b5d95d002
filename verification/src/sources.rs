//! Where the characters of a text stand in the bytes that it was read from, and which bytes are no
//! text.

use vstd::prelude::*;

use crate::encoding::{
    byte_order_mark, bytes_at, char_before, declared_label, decoded, first_non_ascii, label_matches,
    marked, signed, source_offset, text_of, translated, unit_at, utf16_from, utf16_text, utf32_text,
    with_code, XmlInputEncoding,
};
use crate::error::{ErrorKindModel, ErrorModel};
use crate::serialize::{utf16_bytes, utf16_char};
use crate::text::{byte_offset, lemma_byte_offset_monotone, utf8_width};

verus! {

/// The character that holds a byte of a text is the last that starts at the byte or before it.
pub proof fn lemma_character_of_a_byte(s: Seq<char>, n: int, at: int)
    requires
        0 <= n <= s.len(),
        0 <= at,
    ensures
        ({
            let i = char_before(s, n, at);
            &&& 0 <= i <= n
            &&& byte_offset(s, i) <= at
            &&& i < n ==> at < byte_offset(s, i + 1)
        }),
        forall|i: int| 0 <= i <= n && byte_offset(s, i) == at ==> char_before(s, n, at) == i,
    decreases n,
{
    if n > 0 && byte_offset(s, n) > at {
        lemma_character_of_a_byte(s, n - 1, at);
    }
    assert forall|i: int| 0 <= i <= n && byte_offset(s, i) == at implies char_before(s, n, at)
        == i by {
        let j = char_before(s, n, at);
        if j < i {
            lemma_byte_offset_monotone(s, j + 1, i);
        }
        if i < j {
            lemma_byte_offset_monotone(s, i + 1, j);
            assert(byte_offset(s, i + 1) == byte_offset(s, i) + utf8_width(s[i]));
        }
    }
}

/// How far into the bytes a character stands: as far as the characters before it take in the
/// encoding.
pub proof fn lemma_places_in_the_source(s: Seq<char>, i: int)
    requires
        0 <= i <= s.len(),
    ensures
        source_offset(s, XmlInputEncoding::Utf8, i) == byte_offset(s, i),
        source_offset(s, XmlInputEncoding::UsAscii, i) == byte_offset(s, i),
        source_offset(s, XmlInputEncoding::Latin1, i) == i,
        source_offset(s, XmlInputEncoding::Utf32Le, i) == 4 * i,
        source_offset(s, XmlInputEncoding::Utf32Be, i) == 4 * i,
        source_offset(s, XmlInputEncoding::Utf16Le, i) == utf16_bytes(s.take(i), true).len(),
        source_offset(s, XmlInputEncoding::Utf16Be, i) == utf16_bytes(s.take(i), false).len(),
    decreases i,
{
    if i > 0 {
        lemma_places_in_the_source(s, i - 1);
        let t = s.take(i);
        assert(t.drop_last() =~= s.take(i - 1));
        assert(t.last() == s[i - 1]);
        lemma_utf16_width(s[i - 1], true);
        lemma_utf16_width(s[i - 1], false);
    }
}

proof fn lemma_utf16_width(c: char, little: bool)
    ensures
        utf16_char(c, little).len() == (if c as u32 >= 0x10000 {
            4nat
        } else {
            2nat
        }),
{
}

/// An error is reported where its character stands in the bytes, behind the byte order mark if
/// there is one; what is wrong stays the same.
pub proof fn lemma_errors_in_the_source(
    b: Seq<u8>,
    s: Seq<char>,
    e: XmlInputEncoding,
    i: int,
    x: ErrorModel,
)
    requires
        0 <= i <= s.len(),
        x.byte == byte_offset(s, i),
    ensures
        translated(b, s, e, x).kind == x.kind,
        translated(b, s, e, x).byte == source_offset(s, e, i) + (if bytes_at(
            b,
            0,
            byte_order_mark(e),
        ) {
            byte_order_mark(e).len() as int
        } else {
            0
        }),
{
    lemma_character_of_a_byte(s, s.len() as int, x.byte);
}

/// In Latin-1 every byte is the character with its number. In ASCII no byte is above 127, and the
/// first that is stands where the error is reported.
pub proof fn lemma_one_byte_encodings(b: Seq<u8>, skip: int, k: int)
    requires
        0 <= skip <= b.len(),
        0 <= k < b.len() - skip,
    ensures
        text_of(b, XmlInputEncoding::Latin1, skip) matches Ok(t) && t.len() == b.len() - skip
            && t[k] as u32 == b[skip + k],
        b[skip + k] >= 128 && (forall|j: int| skip <= j < skip + k ==> #[trigger] b[j] < 128)
            ==> text_of(b, XmlInputEncoding::UsAscii, skip) == Err::<Seq<char>, ErrorModel>(
            ErrorModel { kind: ErrorKindModel::InvalidCharacter, byte: skip + k },
        ),
        (forall|j: int| skip <= j < b.len() ==> #[trigger] b[j] < 128) ==> text_of(
            b,
            XmlInputEncoding::UsAscii,
            skip,
        ) is Ok,
{
    let tail = b.skip(skip);
    assert(tail[k] == b[skip + k]);
    lemma_byte_is_character(b[skip + k]);
    lemma_first_non_ascii(tail, 0);
    if b[skip + k] >= 128 && (forall|j: int| skip <= j < skip + k ==> #[trigger] b[j] < 128) {
        assert forall|j: int| 0 <= j < k implies #[trigger] tail[j] < 128 by {
            assert(tail[j] == b[skip + j]);
        }
    }
    if forall|j: int| skip <= j < b.len() ==> #[trigger] b[j] < 128 {
        assert forall|j: int| 0 <= j < tail.len() implies #[trigger] tail[j] < 128 by {
            assert(tail[j] == b[skip + j]);
        }
    }
}

proof fn lemma_byte_is_character(x: u8)
    ensures
        (x as char) as u32 == x,
{
}

proof fn lemma_first_non_ascii(b: Seq<u8>, i: int)
    requires
        0 <= i <= b.len(),
    ensures
        match first_non_ascii(b, i) {
            Some(k) => i <= k < b.len() && b[k] >= 128 && forall|j: int|
                i <= j < k ==> #[trigger] b[j] < 128,
            None => forall|j: int| i <= j < b.len() ==> #[trigger] b[j] < 128,
        },
    decreases b.len() - i,
{
    if i < b.len() && b[i] < 128 {
        lemma_first_non_ascii(b, i + 1);
    }
}

/// Bytes that do not come in whole units are no text, and neither is a surrogate without the other
/// one; each is reported where it starts.
pub proof fn lemma_broken_units(
    b: Seq<u8>,
    i: int,
    little: bool,
    skip: int,
    n: int,
    acc: Seq<char>,
)
    ensures
        b.len() % 2 == 1 ==> utf16_text(b, little, skip) == Err::<Seq<char>, ErrorModel>(
            ErrorModel { kind: ErrorKindModel::InvalidCharacter, byte: skip + b.len() - 1 },
        ),
        b.len() % 4 != 0 ==> utf32_text(b, little, skip) == Err::<Seq<char>, ErrorModel>(
            ErrorModel {
                kind: ErrorKindModel::InvalidCharacter,
                byte: skip + b.len() - b.len() % 4,
            },
        ),
        0 <= i && i + 1 < b.len() && 0xdc00 <= unit_at(b, i, little) <= 0xdfff ==> utf16_from(
            b,
            i,
            little,
            n,
            acc,
        ) == Err::<Seq<char>, int>(i),
        0 <= i && i + 1 < b.len() && 0xd800 <= unit_at(b, i, little) <= 0xdbff && !(i + 3 < b.len()
            && 0xdc00 <= unit_at(b, i + 2, little) <= 0xdfff) ==> utf16_from(
            b,
            i,
            little,
            n,
            acc,
        ) == Err::<Seq<char>, int>(i),
        utf16_from(b, i, little, n, acc) is Err && 0 <= i ==> i <= utf16_from(
            b,
            i,
            little,
            n,
            acc,
        )->Err_0 < b.len(),
    decreases b.len() - i,
{
    if 0 <= i && i + 1 < b.len() {
        let u = unit_at(b, i, little);
        if 0xd800 <= u <= 0xdbff {
            if i + 3 < b.len() && 0xdc00 <= unit_at(b, i + 2, little) <= 0xdfff {
                let code = 0x10000 + (u - 0xd800) * 1024 + (unit_at(b, i + 2, little) - 0xdc00);
                lemma_broken_units(b, i + 4, little, skip, n + 1, with_code(acc, n, code));
            }
        } else if !(0xdc00 <= u <= 0xdfff) {
            lemma_broken_units(b, i + 2, little, skip, n + 1, with_code(acc, n, u));
        }
    }
}

/// Without a mark, the first bytes of `<` and of `<?` in the wide encodings tell which it is.
pub proof fn lemma_signatures(rest: Seq<u8>)
    ensures
        signed(seq![0x00u8, 0x00, 0x00, 0x3c] + rest) == Some(XmlInputEncoding::Utf32Be),
        signed(seq![0x3cu8, 0x00, 0x00, 0x00] + rest) == Some(XmlInputEncoding::Utf32Le),
        signed(seq![0x00u8, 0x3c, 0x00, 0x3f] + rest) == Some(XmlInputEncoding::Utf16Be),
        signed(seq![0x3cu8, 0x00, 0x3f, 0x00] + rest) == Some(XmlInputEncoding::Utf16Le),
        rest.len() > 0 && rest[0] != 0 && rest[0] != 0x3c ==> signed(rest) is None,
        rest.len() > 1 && rest[0] == 0x3c && rest[1] != 0 ==> signed(rest) is None,
{
    let x = seq![0x00u8, 0x00, 0x00, 0x3c];
    let y = seq![0x3cu8, 0x00, 0x00, 0x00];
    let z = seq![0x00u8, 0x3c, 0x00, 0x3f];
    let w = seq![0x3cu8, 0x00, 0x3f, 0x00];
    assert((x + rest).subrange(0, 4) =~= x);
    assert((y + rest).subrange(0, 4) =~= y);
    assert((z + rest).subrange(0, 4) =~= z);
    assert((w + rest).subrange(0, 4) =~= w);
    assert(x[3] == 0x3c && y[3] == 0 && z[1] == 0x3c && w[2] == 0x3f && x[0] == 0 && y[0] == 0x3c
        && z[0] == 0 && w[0] == 0x3c && x[1] == 0 && y[1] == 0 && w[1] == 0 && y[2] == 0 && z[2]
        == 0);
    lemma_first_bytes(rest, x);
    lemma_first_bytes(rest, y);
    lemma_first_bytes(rest, z);
    lemma_first_bytes(rest, w);
}

proof fn lemma_first_bytes(b: Seq<u8>, t: Seq<u8>)
    requires
        t.len() == 4,
    ensures
        bytes_at(b, 0, t) ==> b[0] == t[0] && b[1] == t[1],
{
    if bytes_at(b, 0, t) {
        assert(b.subrange(0, 4)[0] == b[0]);
        assert(b.subrange(0, 4)[1] == b[1]);
    }
}

/// Two byte order marks are one too many, and a label that contradicts the mark is refused.
pub proof fn lemma_contradicting_marks(b: Seq<u8>, e: XmlInputEncoding, t: Seq<char>)
    requires
        marked(b) == Some(e),
    ensures
        bytes_at(b, byte_order_mark(e).len() as int, byte_order_mark(e)) ==> decoded(b) == Err::<
            (Seq<char>, XmlInputEncoding),
            ErrorModel,
        >(
            ErrorModel {
                kind: ErrorKindModel::InvalidCharacter,
                byte: byte_order_mark(e).len() as int,
            },
        ),
        !bytes_at(b, byte_order_mark(e).len() as int, byte_order_mark(e)) && text_of(
            b,
            e,
            byte_order_mark(e).len() as int,
        ) == Ok::<Seq<char>, ErrorModel>(t) ==> (declared_label(
            vstd::utf8::encode_utf8(t),
        ) matches Ok(Some(label)) ==> decoded(b) == (if label_matches(label, e) {
            Ok::<(Seq<char>, XmlInputEncoding), ErrorModel>((t, e))
        } else {
            Err(ErrorModel { kind: ErrorKindModel::InvalidXmlDeclaration, byte: 0 })
        })),
{
}

} // verus!
