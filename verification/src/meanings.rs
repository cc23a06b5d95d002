//! What the text between tags and in attribute values stands for.

use vstd::prelude::*;

use crate::error::{ErrorKindModel, FaultModel, Read};
use crate::lexeme::{
    collapsed, collapsed_from, decoded_from, digit_value, is_code_point, lexeme_value,
    line_end_after, normalized, normalized_char, normalized_from, number, number_from,
    numeric_reference, predefined_entity, reference_char, CompactLexemeKind,
    XmlAttributeWhitespacePolicy, XmlVersion,
};
use crate::syntax::space;
use crate::text::{find_char_from, starts_at};
use crate::unescape::{lemma_find_char, lemma_starts_char};

verus! {

/// One character alone: a line end is a line feed, and in an attribute value all white space is a
/// space. XML 1.1 has two more line ends.
pub proof fn lemma_one_character(c: char, v: XmlVersion)
    ensures
        normalized(seq![c], v, false) == seq![
            if c == '\r' || (v == XmlVersion::Xml11 && (c == '\u{85}' || c == '\u{2028}')) {
                '\n'
            } else {
                c
            },
        ],
        normalized(seq![c], v, true) == seq![
            if c == '\r' || c == '\n' || c == '\t' || (v == XmlVersion::Xml11 && (c == '\u{85}'
                || c == '\u{2028}')) {
                ' '
            } else {
                c
            },
        ],
{
    reveal_with_fuel(normalized_from, 2);
    let s = seq![c];
    assert(normalized(s, v, false) =~= Seq::empty().push(normalized(s, v, false)[0]));
}

/// A carriage return and what completes it are one line end.
pub proof fn lemma_line_end_of_two(c: char, v: XmlVersion)
    requires
        c == '\n' || (v == XmlVersion::Xml11 && c == '\u{85}'),
    ensures
        normalized(seq!['\r', c], v, false) == seq!['\n'],
        normalized(seq!['\r', c], v, true) == seq![' '],
{
    reveal_with_fuel(normalized_from, 2);
    let s = seq!['\r', c];
    assert(s[0] == '\r' && s[1] == c);
}

proof fn lemma_normalized_behind(
    s: Seq<char>,
    i: int,
    v: XmlVersion,
    attribute: bool,
    before: Seq<char>,
    out: Seq<char>,
)
    ensures
        normalized_from(s, i, v, attribute, before + out) == before + normalized_from(
            s,
            i,
            v,
            attribute,
            out,
        ),
    decreases s.len() - i,
{
    if 0 <= i < s.len() {
        let c = normalized_char(s[i], v, attribute);
        assert((before + out).push(c) =~= before + out.push(c));
        lemma_normalized_behind(
            s,
            line_end_after(s, i, v),
            v,
            attribute,
            before,
            out.push(c),
        );
    }
}

proof fn lemma_normalized_shift(
    a: Seq<char>,
    b: Seq<char>,
    i: int,
    v: XmlVersion,
    attribute: bool,
    out: Seq<char>,
)
    requires
        0 <= i <= b.len(),
    ensures
        normalized_from(a + b, a.len() + i, v, attribute, out) == normalized_from(
            b,
            i,
            v,
            attribute,
            out,
        ),
    decreases b.len() - i,
{
    if i < b.len() {
        let c = normalized_char(b[i], v, attribute);
        assert((a + b)[a.len() + i] == b[i]);
        if i + 1 < b.len() {
            assert((a + b)[a.len() + i + 1] == b[i + 1]);
        }
        lemma_normalized_shift(
            a,
            b,
            line_end_after(b, i, v),
            v,
            attribute,
            out.push(c),
        );
    }
}

proof fn lemma_normalized_first(
    a: Seq<char>,
    b: Seq<char>,
    i: int,
    v: XmlVersion,
    attribute: bool,
    out: Seq<char>,
)
    requires
        0 <= i <= a.len(),
        !split_line_end(a, b, v),
    ensures
        normalized_from(a + b, i, v, attribute, out) == normalized_from(
            a + b,
            a.len() as int,
            v,
            attribute,
            normalized_from(a, i, v, attribute, out),
        ),
    decreases a.len() - i,
{
    if i < a.len() {
        let c = normalized_char(a[i], v, attribute);
        assert((a + b)[i] == a[i]);
        if i + 1 < a.len() {
            assert((a + b)[i + 1] == a[i + 1]);
        } else if b.len() > 0 {
            assert((a + b)[i + 1] == b[0]);
        }
        assert(line_end_after(a + b, i, v) == line_end_after(a, i, v));
        lemma_normalized_first(a, b, line_end_after(a, i, v), v, attribute, out.push(c));
    }
}

/// The two texts part a line end of two characters.
pub open spec fn split_line_end(a: Seq<char>, b: Seq<char>, v: XmlVersion) -> bool {
    &&& a.len() > 0 && a.last() == '\r'
    &&& b.len() > 0 && (b[0] == '\n' || (v == XmlVersion::Xml11 && b[0] == '\u{85}'))
}

/// Two texts one behind the other stand for what they stand for alone, unless they part a line end
/// of two characters.
pub proof fn lemma_texts_join(a: Seq<char>, b: Seq<char>, v: XmlVersion, attribute: bool)
    requires
        !split_line_end(a, b, v),
    ensures
        normalized(a + b, v, attribute) == normalized(a, v, attribute) + normalized(
            b,
            v,
            attribute,
        ),
{
    lemma_normalized_first(a, b, 0, v, attribute, Seq::empty());
    let x = normalized(a, v, attribute);
    lemma_normalized_shift(a, b, 0, v, attribute, x);
    assert(x + Seq::<char>::empty() =~= x);
    lemma_normalized_behind(b, 0, v, attribute, x, Seq::empty());
}

/// The value of a digit: letters count from ten on in base sixteen.
pub open spec fn worth(c: char, radix: int) -> int {
    if '0' <= c <= '9' {
        c as int - 48
    } else if 'a' <= c <= 'f' && radix == 16 {
        c as int - 87
    } else if 'A' <= c <= 'F' && radix == 16 {
        c as int - 55
    } else {
        -1
    }
}

proof fn lemma_number_longer(s: Seq<char>, c: char, i: int, radix: int, acc: int)
    requires
        0 <= i <= s.len(),
        radix == 10 || radix == 16,
    ensures
        number_from(s.push(c), i, radix, acc) == (match number_from(s, i, radix, acc) {
            Some(n) => if worth(c, radix) >= 0 && n * radix + worth(c, radix) <= 4294967295 {
                Some(n * radix + worth(c, radix))
            } else {
                None
            },
            None => None,
        }),
    decreases s.len() - i,
{
    reveal_with_fuel(number_from, 2);
    if i < s.len() {
        assert(s.push(c)[i] == s[i]);
        match digit_value(s[i], radix) {
            Some(d) => {
                if acc * radix + d <= u32::MAX {
                    lemma_number_longer(s, c, i + 1, radix, acc * radix + d);
                }
            },
            None => {},
        }
    } else {
        assert(s.push(c)[i] == c);
        lemma_worth(c, radix);
    }
}

proof fn lemma_worth(c: char, radix: int)
    requires
        radix == 10 || radix == 16,
    ensures
        digit_value(c, radix) == (if worth(c, radix) >= 0 {
            Some(worth(c, radix))
        } else {
            None
        }),
{
}

/// A number of one digit is the digit; one with a further digit is the base times the number and
/// the digit, as long as it is below 2 to the power of 32. Nothing else is a number, but for a
/// plus in front.
pub proof fn lemma_digits(s: Seq<char>, c: char, radix: int)
    requires
        radix == 10 || radix == 16,
    ensures
        number(Seq::empty(), radix) is None,
        number(seq!['+'], radix) is None,
        number(seq![c], radix) == (if worth(c, radix) >= 0 {
            Some(worth(c, radix))
        } else {
            None
        }),
        s.len() > 0 && s != seq!['+'] ==> number(s.push(c), radix) == (match number(s, radix) {
            Some(n) => if worth(c, radix) >= 0 && n * radix + worth(c, radix) <= 4294967295 {
                Some(n * radix + worth(c, radix))
            } else {
                None
            },
            None => None,
        }),
        s.len() > 0 && s[0] != '+' ==> number(seq!['+'] + s, radix) == number(s, radix),
{
    lemma_worth(c, radix);
    reveal_with_fuel(number_from, 2);
    assert(seq![c][0] == c);
    if s.len() > 0 && s != seq!['+'] {
        assert(s.push(c)[0] == s[0]);
        if s[0] == '+' {
            if s.len() == 1 {
                assert(s =~= seq!['+']);
            }
            lemma_number_longer(s, c, 1, radix, 0);
        } else {
            lemma_number_longer(s, c, 0, radix, 0);
        }
    }
    if s.len() > 0 {
        lemma_number_shift(s, 0, radix, 0);
    }
}

proof fn lemma_number_shift(s: Seq<char>, i: int, radix: int, acc: int)
    requires
        0 <= i <= s.len(),
    ensures
        number_from(seq!['+'] + s, i + 1, radix, acc) == number_from(s, i, radix, acc),
    decreases s.len() - i,
{
    if i < s.len() {
        assert((seq!['+'] + s)[i + 1] == s[i]);
        match digit_value(s[i], radix) {
            Some(d) => {
                if acc * radix + d <= u32::MAX {
                    lemma_number_shift(s, i + 1, radix, acc * radix + d);
                }
            },
            None => {},
        }
    }
}

/// The character that has the code, if a reference may name it: not a surrogate, nor a character
/// that no document of the version can hold.
pub open spec fn character_of(code: Option<int>, v: XmlVersion) -> Option<char> {
    match code {
        Some(n) => if (0xd800 <= n <= 0xdfff) || n > 0x10ffff || n == 0xfffe || n == 0xffff || n
            < 1 || (v == XmlVersion::Xml10 && n < 32 && n != 9 && n != 10 && n != 13) {
            None
        } else {
            Some(n as char)
        },
        None => None,
    }
}

/// What is written between the ampersand and the semicolon: the five names that are always there,
/// a number in base ten or sixteen, or the name of an entity that is not known here.
pub proof fn lemma_references(name: Seq<char>, digits: Seq<char>, v: XmlVersion, at: int)
    ensures
        reference_char("amp"@, v, at) == Ok::<char, FaultModel>('&'),
        reference_char("lt"@, v, at) == Ok::<char, FaultModel>('<'),
        reference_char("gt"@, v, at) == Ok::<char, FaultModel>('>'),
        reference_char("apos"@, v, at) == Ok::<char, FaultModel>('\''),
        reference_char("quot"@, v, at) == Ok::<char, FaultModel>('"'),
        digits.len() == 0 || digits[0] != 'x' ==> reference_char(seq!['#'] + digits, v, at) == (
        match character_of(number(digits, 10), v) {
            Some(c) => Ok::<char, FaultModel>(c),
            None => Err(FaultModel { kind: ErrorKindModel::InvalidCharacterReference, at }),
        }),
        reference_char(seq!['#', 'x'] + digits, v, at) == (match character_of(
            number(digits, 16),
            v,
        ) {
            Some(c) => Ok::<char, FaultModel>(c),
            None => Err(FaultModel { kind: ErrorKindModel::InvalidCharacterReference, at }),
        }),
        (name.len() == 0 || name[0] != '#') && name != "amp"@ && name != "lt"@ && name != "gt"@
            && name != "apos"@ && name != "quot"@ ==> reference_char(name, v, at) == Err::<
            char,
            FaultModel,
        >(FaultModel { kind: ErrorKindModel::UndeclaredEntity(name), at }),
{
    reveal_strlit("amp");
    reveal_strlit("lt");
    reveal_strlit("gt");
    reveal_strlit("apos");
    reveal_strlit("quot");
    reveal_strlit("#");
    reveal_strlit("#x");
    assert("amp"@[0] == 'a' && "lt"@[0] == 'l' && "gt"@[0] == 'g' && "apos"@[0] == 'a'
        && "quot"@[0] == 'q');
    assert("amp"@.len() == 3 && "lt"@.len() == 2 && "gt"@.len() == 2 && "apos"@.len() == 4
        && "quot"@.len() == 4);
    assert("#"@ =~= seq!['#']);
    assert("#x"@ =~= seq!['#', 'x']);
    let d = seq!['#'] + digits;
    assert(d[0] == '#');
    assert(d.subrange(1, d.len() as int) =~= digits);
    assert(d.subrange(0, 1) =~= "#"@);
    assert(predefined_entity(d) is None);
    if digits.len() > 0 {
        assert(d[1] == digits[0]);
    }
    if starts_at(d, 0, "#x"@) {
        assert(d.subrange(0, 2)[1] == d[1]);
        assert("#x"@[1] == 'x');
    }
    let x = seq!['#', 'x'] + digits;
    assert(x[0] == '#' && x[1] == 'x');
    assert(x.subrange(2, x.len() as int) =~= digits);
    assert(x.subrange(0, 2) =~= "#x"@);
    assert(predefined_entity(x) is None);
    lemma_codes(digits, 10, v);
    lemma_codes(digits, 16, v);
    if name.len() > 0 && name[0] != '#' {
        lemma_starts_char(name, 0, '#');
        if starts_at(name, 0, "#x"@) {
            assert(name.subrange(0, 2)[0] == name[0]);
            assert("#x"@[0] == '#');
        }
    }
}

proof fn lemma_number_bound(s: Seq<char>, i: int, radix: int, acc: int)
    requires
        0 <= acc,
        0 <= radix,
    ensures
        number_from(s, i, radix, acc) matches Some(n) ==> 0 <= n,
    decreases s.len() - i,
{
    if 0 <= i < s.len() {
        match digit_value(s[i], radix) {
            Some(d) => {
                assert(0 <= acc * radix) by (nonlinear_arith)
                    requires
                        0 <= acc,
                        0 <= radix,
                ;
                lemma_digit_bound(s[i], radix);
                if acc * radix + d <= u32::MAX {
                    lemma_number_bound(s, i + 1, radix, acc * radix + d);
                }
            },
            None => {},
        }
    }
}

proof fn lemma_digit_bound(c: char, radix: int)
    ensures
        digit_value(c, radix) matches Some(d) ==> 0 <= d,
{
}

proof fn lemma_codes(digits: Seq<char>, radix: int, v: XmlVersion)
    requires
        0 <= radix,
    ensures
        numeric_reference(digits, radix, v) == character_of(
            number(digits, radix),
            v,
        ),
{
    lemma_number_bound(digits, 0, radix, 0);
    lemma_number_bound(digits, 1, radix, 0);
    match number(digits, radix) {
        Some(n) => {
            if is_code_point(n) {
                let c = n as char;
                assert(c as int == n);
            }
        },
        None => {},
    }
}

/// What a text decodes to when it stands behind another: what was there comes first, and a fault
/// is as far behind as the text.
pub open spec fn moved(x: Read<Seq<char>>, before: Seq<char>, n: int) -> Read<Seq<char>> {
    match x {
        Ok(y) => Ok(before + y),
        Err(f) => Err(FaultModel { kind: f.kind, at: f.at + n }),
    }
}

proof fn lemma_find_shift(a: Seq<char>, b: Seq<char>, k: int, c: char)
    requires
        0 <= k <= b.len(),
    ensures
        find_char_from(a + b, a.len() + k, c) == (match find_char_from(b, k, c) {
            Some(j) => Some(j + a.len()),
            None => None,
        }),
        find_char_from(b, k, c) matches Some(j) ==> k <= j < b.len() && b[j] == c,
    decreases b.len() - k,
{
    if k < b.len() {
        assert((a + b)[a.len() + k] == b[k]);
        if b[k] != c {
            lemma_find_shift(a, b, k + 1, c);
        }
    }
}

proof fn lemma_decoded_shift(
    a: Seq<char>,
    b: Seq<char>,
    k: int,
    v: XmlVersion,
    attribute: bool,
    before: Seq<char>,
    out: Seq<char>,
)
    requires
        0 <= k <= b.len(),
    ensures
        decoded_from(a + b, a.len() + k, v, attribute, before + out) == moved(
            decoded_from(b, k, v, attribute, out),
            before,
            a.len() as int,
        ),
    decreases b.len() - k,
{
    let s = a + b;
    let n = a.len() as int;
    lemma_find_shift(a, b, k, '&');
    match find_char_from(b, k, '&') {
        None => {
            assert(s.subrange(n + k, s.len() as int) =~= b.subrange(k, b.len() as int));
            let t = normalized(b.subrange(k, b.len() as int), v, attribute);
            assert((before + out) + t =~= before + (out + t));
        },
        Some(r) => {
            lemma_find_shift(a, b, r + 1, ';');
            match find_char_from(b, r + 1, ';') {
                None => {},
                Some(end) => {
                    assert(s.subrange(n + r + 1, n + end) =~= b.subrange(r + 1, end));
                    assert(s.subrange(n + k, n + r) =~= b.subrange(k, r));
                    match reference_char(b.subrange(r + 1, end), v, r) {
                        Err(f) => {
                            lemma_reference_place(b.subrange(r + 1, end), v, r, n + r);
                        },
                        Ok(c) => {
                            lemma_reference_place(b.subrange(r + 1, end), v, r, n + r);
                            let t = normalized(b.subrange(k, r), v, attribute);
                            assert(((before + out) + t).push(c) =~= before + (out + t).push(c));
                            lemma_decoded_shift(
                                a,
                                b,
                                end + 1,
                                v,
                                attribute,
                                before,
                                (out + t).push(c),
                            );
                        },
                    }
                },
            }
        },
    }
}

proof fn lemma_reference_place(name: Seq<char>, v: XmlVersion, at: int, other: int)
    ensures
        reference_char(name, v, other) == (match reference_char(name, v, at) {
            Ok(c) => Ok::<char, FaultModel>(c),
            Err(f) => Err(FaultModel { kind: f.kind, at: other }),
        }),
{
}

/// The value of a text or an attribute, with literal white space kept apart.
pub open spec fn read(s: Seq<char>, v: XmlVersion, attribute: bool) -> Read<Seq<char>> {
    lexeme_value(
        s,
        if attribute {
            CompactLexemeKind::Attribute
        } else {
            CompactLexemeKind::Text
        },
        v,
        XmlAttributeWhitespacePolicy::Normalize,
    )
}

proof fn lemma_no_char(s: Seq<char>, i: int, c: char)
    requires
        0 <= i <= s.len(),
        forall|k: int| i <= k < s.len() ==> #[trigger] s[k] != c,
    ensures
        find_char_from(s, i, c) is None,
    decreases s.len() - i,
{
    if i < s.len() {
        lemma_no_char(s, i + 1, c);
    }
}

/// A text without an ampersand is itself, but for its line ends and, in an attribute, its white
/// space.
pub proof fn lemma_text_without_references(s: Seq<char>, v: XmlVersion, attribute: bool)
    requires
        forall|k: int| 0 <= k < s.len() ==> #[trigger] s[k] != '&',
    ensures
        read(s, v, attribute) == Ok::<Seq<char>, FaultModel>(normalized(s, v, attribute)),
{
    lemma_no_char(s, 0, '&');
    assert(s.subrange(0, s.len() as int) =~= s);
    assert(Seq::<char>::empty() + normalized(s, v, attribute) =~= normalized(s, v, attribute));
}

/// A reference in a text stands for one character, between what stands before it and what stands
/// behind it.
pub proof fn lemma_reference_in_text(
    a: Seq<char>,
    name: Seq<char>,
    b: Seq<char>,
    v: XmlVersion,
    attribute: bool,
)
    requires
        forall|k: int| 0 <= k < a.len() ==> #[trigger] a[k] != '&',
        forall|k: int| 0 <= k < name.len() ==> #[trigger] name[k] != ';',
    ensures
        read(a + seq!['&'] + name + seq![';'] + b, v, attribute) == (match reference_char(
            name,
            v,
            a.len() as int,
        ) {
            Err(f) => Err(f),
            Ok(c) => moved(
                read(b, v, attribute),
                normalized(a, v, attribute).push(c),
                2int + a.len() + name.len(),
            ),
        }),
{
    let p = a + seq!['&'] + name + seq![';'];
    let s = p + b;
    let r = a.len() as int;
    let e = r + 1 + name.len();
    assert(s[r] == '&');
    assert forall|k: int| 0 <= k < r implies #[trigger] s[k] != '&' by {
        assert(s[k] == a[k]);
    }
    lemma_find_char(s, 0, r, '&');
    assert(s[e] == ';');
    assert forall|k: int| r + 1 <= k < e implies #[trigger] s[k] != ';' by {
        assert(s[k] == name[k - r - 1]);
    }
    lemma_find_char(s, r + 1, e, ';');
    assert(s.subrange(r + 1, e) =~= name);
    assert(s.subrange(0, r) =~= a);
    let t = normalized(a, v, attribute);
    match reference_char(name, v, r) {
        Err(_) => {},
        Ok(c) => {
            assert((Seq::<char>::empty() + t).push(c) =~= t.push(c));
            assert(t.push(c) + Seq::<char>::empty() =~= t.push(c));
            lemma_decoded_shift(p, b, 0, v, attribute, t.push(c), Seq::empty());
        },
    }
}

/// An ampersand without a semicolon behind it is not a reference.
pub proof fn lemma_unfinished_reference(a: Seq<char>, b: Seq<char>, v: XmlVersion, attribute: bool)
    requires
        forall|k: int| 0 <= k < a.len() ==> #[trigger] a[k] != '&',
        forall|k: int| 0 <= k < b.len() ==> #[trigger] b[k] != ';',
    ensures
        read(a + seq!['&'] + b, v, attribute) == Err::<Seq<char>, FaultModel>(
            FaultModel { kind: ErrorKindModel::UnexpectedEof, at: a.len() as int },
        ),
{
    let s = a + seq!['&'] + b;
    let r = a.len() as int;
    assert(s[r] == '&');
    assert forall|k: int| 0 <= k < r implies #[trigger] s[k] != '&' by {
        assert(s[k] == a[k]);
    }
    lemma_find_char(s, 0, r, '&');
    assert forall|k: int| r + 1 <= k < s.len() implies #[trigger] s[k] != ';' by {
        assert(s[k] == b[k - r - 1]);
    }
    lemma_no_char(s, r + 1, ';');
}

/// What is not text is taken as it stands, and an attribute whose white space is collapsed has the
/// value that it would have otherwise, collapsed.
pub proof fn lemma_other_values(s: Seq<char>, v: XmlVersion, p: XmlAttributeWhitespacePolicy)
    ensures
        lexeme_value(s, CompactLexemeKind::Opaque, v, p) == Ok::<Seq<char>, FaultModel>(
            normalized(s, v, false),
        ),
        lexeme_value(s, CompactLexemeKind::Text, v, p) == read(s, v, false),
        lexeme_value(
            s,
            CompactLexemeKind::Attribute,
            v,
            XmlAttributeWhitespacePolicy::NormalizeAndCollapse,
        ) == (match read(s, v, true) {
            Ok(x) => Ok::<Seq<char>, FaultModel>(collapsed(x)),
            Err(f) => Err(f),
        }),
{
}

/// A text without white space collapses to itself, and one of nothing else to nothing.
pub proof fn lemma_word_and_blanks(s: Seq<char>)
    ensures
        (forall|k: int| 0 <= k < s.len() ==> !space(#[trigger] s[k])) ==> collapsed(s) == s,
        (forall|k: int| 0 <= k < s.len() ==> space(#[trigger] s[k])) ==> collapsed(s)
            == Seq::<char>::empty(),
{
    if forall|k: int| 0 <= k < s.len() ==> !space(#[trigger] s[k]) {
        assert(s.take(0) =~= Seq::empty());
        lemma_word(s, 0);
    }
    if forall|k: int| 0 <= k < s.len() ==> space(#[trigger] s[k]) {
        lemma_blanks(s, 0, false);
    }
}

proof fn lemma_word(s: Seq<char>, i: int)
    requires
        0 <= i <= s.len(),
        forall|k: int| 0 <= k < s.len() ==> !space(#[trigger] s[k]),
    ensures
        collapsed_from(s, i, false, s.take(i)) == s,
    decreases s.len() - i,
{
    if i < s.len() {
        assert(s.take(i).push(s[i]) =~= s.take(i + 1));
        lemma_word(s, i + 1);
    } else {
        assert(s.take(i) =~= s);
    }
}

proof fn lemma_blanks(s: Seq<char>, i: int, pending: bool)
    requires
        0 <= i <= s.len(),
        forall|k: int| 0 <= k < s.len() ==> space(#[trigger] s[k]),
    ensures
        collapsed_from(s, i, pending, Seq::empty()) == Seq::<char>::empty(),
    decreases s.len() - i,
{
    if i < s.len() {
        lemma_blanks(s, i + 1, false);
    }
}

proof fn lemma_collapsed_first(
    a: Seq<char>,
    b: Seq<char>,
    i: int,
    pending: bool,
    out: Seq<char>,
)
    requires
        0 <= i < a.len(),
    ensures
        collapsed_from(a + b, i, pending, out) == collapsed_from(
            a + b,
            a.len() as int,
            space(a.last()) && collapsed_from(a, i, pending, out).len() > 0,
            collapsed_from(a, i, pending, out),
        ),
    decreases a.len() - i,
{
    reveal_with_fuel(collapsed_from, 2);
    assert((a + b)[i] == a[i]);
    if i + 1 < a.len() {
        if space(a[i]) {
            lemma_collapsed_first(a, b, i + 1, out.len() > 0, out);
        } else if pending {
            lemma_collapsed_first(a, b, i + 1, false, out.push(' ').push(a[i]));
        } else {
            lemma_collapsed_first(a, b, i + 1, false, out.push(a[i]));
        }
    }
}

proof fn lemma_collapsed_shift(a: Seq<char>, b: Seq<char>, i: int, pending: bool, out: Seq<char>)
    requires
        0 <= i <= b.len(),
    ensures
        collapsed_from(a + b, a.len() + i, pending, out) == collapsed_from(b, i, pending, out),
    decreases b.len() - i,
{
    if i < b.len() {
        assert((a + b)[a.len() + i] == b[i]);
        if space(b[i]) {
            lemma_collapsed_shift(a, b, i + 1, out.len() > 0, out);
        } else if pending {
            lemma_collapsed_shift(a, b, i + 1, false, out.push(' ').push(b[i]));
        } else {
            lemma_collapsed_shift(a, b, i + 1, false, out.push(b[i]));
        }
    }
}

/// White space before a text, behind it or doubled in it goes: a further character of white space
/// changes nothing at the end, and the next character that is not white space follows with one
/// space if there was white space and anything before it.
pub proof fn lemma_white_space_collapses(s: Seq<char>, c: char)
    ensures
        space(c) ==> collapsed(s.push(c)) == collapsed(s),
        !space(c) ==> collapsed(s.push(c)) == (if collapsed(s).len() > 0 && space(s.last()) {
            collapsed(s).push(' ').push(c)
        } else {
            collapsed(s).push(c)
        }),
{
    let b = seq![c];
    assert(s.push(c) =~= s + b);
    reveal_with_fuel(collapsed_from, 2);
    let x = collapsed(s);
    if s.len() > 0 {
        lemma_collapsed_first(s, b, 0, false, Seq::empty());
        lemma_collapsed_shift(s, b, 0, space(s.last()) && x.len() > 0, x);
    } else {
        assert(s + b =~= b);
    }
    assert(b[0] == c);
}

} // verus!
