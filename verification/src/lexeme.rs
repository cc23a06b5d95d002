//! From the raw text of a document to the values it stands for: line ends, attribute white
//! space and references.

use vstd::prelude::*;
use vstd::slice::slice_subrange;

use crate::error::{fault, ErrorKindModel, Fault, FaultModel, Read, XmlErrorKind};
use crate::syntax::{is_space, is_xml11_char, is_xml_char, space, xml10_char, xml11_char};
use crate::text::{
    find_char, find_char_from, push_between, spells, starts_at, starts_with, string_between,
};

verus! {

/// The XML language version selected by the declaration.
#[derive(Clone, Copy, Debug, Eq, Hash, PartialEq, Structural)]
pub enum XmlVersion {
    /// XML 1.0.
    Xml10,
    /// XML 1.1.
    Xml11,
}

impl Default for XmlVersion {
    fn default() -> (r: Self)
        ensures
            r == XmlVersion::Xml10,
    {
        XmlVersion::Xml10
    }
}

/// Policy applied after XML's required attribute white space conversion.
#[derive(Clone, Copy, Debug, Eq, PartialEq, Structural)]
pub enum XmlAttributeWhitespacePolicy {
    /// Convert literal white space to spaces.
    Normalize,
    /// Then trim, and collapse runs of white space to one space.
    NormalizeAndCollapse,
}

impl Default for XmlAttributeWhitespacePolicy {
    fn default() -> (r: Self)
        ensures
            r == XmlAttributeWhitespacePolicy::Normalize,
    {
        XmlAttributeWhitespacePolicy::Normalize
    }
}

/// How the raw text of a node is to be read.
#[derive(Clone, Copy, Debug, Eq, PartialEq, Structural)]
pub enum CompactLexemeKind {
    /// An attribute value: references and white space.
    Attribute,
    /// Character data: references and line ends.
    Text,
    /// A comment, CDATA section or instruction: line ends only.
    Opaque,
}

/// A character that only XML 1.1 takes for a line end.
pub open spec fn xml11_line_end(c: char) -> bool {
    c == '\u{85}' || c == '\u{2028}'
}

/// The end of the line end that starts at `i`.
pub open spec fn line_end_after(s: Seq<char>, i: int, v: XmlVersion) -> int {
    if s[i] == '\r' && i + 1 < s.len() && (s[i + 1] == '\n' || (v == XmlVersion::Xml11 && s[i + 1]
        == '\u{85}')) {
        i + 2
    } else {
        i + 1
    }
}

/// The character that `c` becomes; `attribute` tells which white space rules hold.
pub open spec fn normalized_char(c: char, v: XmlVersion, attribute: bool) -> char {
    if c == '\r' || (v == XmlVersion::Xml11 && xml11_line_end(c)) {
        if attribute {
            ' '
        } else {
            '\n'
        }
    } else if attribute && (c == '\t' || c == '\n') {
        ' '
    } else {
        c
    }
}

/// `out` followed by what `s` from `i` on becomes.
pub open spec fn normalized_from(
    s: Seq<char>,
    i: int,
    v: XmlVersion,
    attribute: bool,
    out: Seq<char>,
) -> Seq<char>
    decreases s.len() - i,
{
    if i < 0 || i >= s.len() {
        out
    } else {
        normalized_from(
            s,
            line_end_after(s, i, v),
            v,
            attribute,
            out.push(normalized_char(s[i], v, attribute)),
        )
    }
}

/// `s` with its line ends, and for an attribute its white space, normalized.
pub open spec fn normalized(s: Seq<char>, v: XmlVersion, attribute: bool) -> Seq<char> {
    normalized_from(s, 0, v, attribute, Seq::empty())
}

/// The value of a digit in radix 10 or 16.
pub open spec fn digit_value(c: char, radix: int) -> Option<int> {
    if '0' <= c <= '9' {
        Some(c as int - '0' as int)
    } else if radix == 16 && 'a' <= c <= 'f' {
        Some(c as int - 'a' as int + 10)
    } else if radix == 16 && 'A' <= c <= 'F' {
        Some(c as int - 'A' as int + 10)
    } else {
        None
    }
}

/// The number that the digits of `s` from `i` on append to `acc`, if it fits in 32 bits.
pub open spec fn number_from(s: Seq<char>, i: int, radix: int, acc: int) -> Option<int>
    decreases s.len() - i,
{
    if i < 0 || i >= s.len() {
        Some(acc)
    } else {
        match digit_value(s[i], radix) {
            Some(d) => if acc * radix + d <= u32::MAX {
                number_from(s, i + 1, radix, acc * radix + d)
            } else {
                None
            },
            None => None,
        }
    }
}

/// The 32-bit number that `s` spells: an optional plus sign and at least one digit.
pub open spec fn number(s: Seq<char>, radix: int) -> Option<int> {
    let first = if s.len() > 0 && s[0] == '+' {
        1int
    } else {
        0int
    };
    if first < s.len() {
        number_from(s, first, radix, 0)
    } else {
        None
    }
}

/// `code` is the code point of a character.
pub open spec fn is_code_point(code: int) -> bool {
    0 <= code <= 0xd7ff || 0xe000 <= code <= 0x10ffff
}

/// A character that a reference may stand for.
pub open spec fn referable(c: char, v: XmlVersion) -> bool {
    match v {
        XmlVersion::Xml10 => xml10_char(c),
        XmlVersion::Xml11 => xml11_char(c),
    }
}

/// The character that a numeric reference with these digits stands for.
pub open spec fn numeric_reference(digits: Seq<char>, radix: int, v: XmlVersion) -> Option<char> {
    match number(digits, radix) {
        Some(code) => if is_code_point(code) && referable(code as char, v) {
            Some(code as char)
        } else {
            None
        },
        None => None,
    }
}

/// The character that a predefined entity stands for.
pub open spec fn predefined_entity(name: Seq<char>) -> Option<char> {
    if name == "amp"@ {
        Some('&')
    } else if name == "lt"@ {
        Some('<')
    } else if name == "gt"@ {
        Some('>')
    } else if name == "apos"@ {
        Some('\'')
    } else if name == "quot"@ {
        Some('"')
    } else {
        None
    }
}

/// The character that the text between `&` and `;` stands for; `at` is where a fault is reported.
pub open spec fn reference_char(name: Seq<char>, v: XmlVersion, at: int) -> Read<char> {
    match predefined_entity(name) {
        Some(c) => Ok(c),
        None => if starts_at(name, 0, "#x"@) {
            match numeric_reference(name.subrange(2, name.len() as int), 16, v) {
                Some(c) => Ok(c),
                None => fault(ErrorKindModel::InvalidCharacterReference, at),
            }
        } else if starts_at(name, 0, "#"@) {
            match numeric_reference(name.subrange(1, name.len() as int), 10, v) {
                Some(c) => Ok(c),
                None => fault(ErrorKindModel::InvalidCharacterReference, at),
            }
        } else {
            fault(ErrorKindModel::UndeclaredEntity(name), at)
        },
    }
}

/// `out` followed by the value of `s` from `i` on, references replaced.
pub open spec fn decoded_from(
    s: Seq<char>,
    i: int,
    v: XmlVersion,
    attribute: bool,
    out: Seq<char>,
) -> Read<Seq<char>>
    decreases s.len() - i,
{
    match find_char_from(s, i, '&') {
        None => Ok(out + normalized(s.subrange(i, s.len() as int), v, attribute)),
        Some(r) => if r < i || r >= s.len() {
            Ok(out)
        } else {
            match find_char_from(s, r + 1, ';') {
                None => fault(ErrorKindModel::UnexpectedEof, r),
                Some(end) => if end < r || end >= s.len() {
                    Ok(out)
                } else {
                    match reference_char(s.subrange(r + 1, end), v, r) {
                        Err(f) => Err(f),
                        Ok(c) => decoded_from(
                            s,
                            end + 1,
                            v,
                            attribute,
                            (out + normalized(s.subrange(i, r), v, attribute)).push(c),
                        ),
                    }
                },
            }
        },
    }
}

/// `out` followed by `s` from `i` on with runs of white space collapsed; `pending` tells that a
/// space is owed before the next character.
pub open spec fn collapsed_from(s: Seq<char>, i: int, pending: bool, out: Seq<char>) -> Seq<char>
    decreases s.len() - i,
{
    if i < 0 || i >= s.len() {
        out
    } else if space(s[i]) {
        collapsed_from(s, i + 1, out.len() > 0, out)
    } else if pending {
        collapsed_from(s, i + 1, false, out.push(' ').push(s[i]))
    } else {
        collapsed_from(s, i + 1, false, out.push(s[i]))
    }
}

/// `s` trimmed and with runs of white space collapsed to one space.
pub open spec fn collapsed(s: Seq<char>) -> Seq<char> {
    collapsed_from(s, 0, false, Seq::empty())
}

/// The value that the raw text `s` stands for.
pub open spec fn lexeme_value(
    s: Seq<char>,
    kind: CompactLexemeKind,
    v: XmlVersion,
    policy: XmlAttributeWhitespacePolicy,
) -> Read<Seq<char>> {
    match kind {
        CompactLexemeKind::Opaque => Ok(normalized(s, v, false)),
        CompactLexemeKind::Text => decoded_from(s, 0, v, false, Seq::empty()),
        CompactLexemeKind::Attribute => match decoded_from(s, 0, v, true, Seq::empty()) {
            Err(f) => Err(f),
            Ok(value) => if policy == XmlAttributeWhitespacePolicy::NormalizeAndCollapse {
                Ok(collapsed(value))
            } else {
                Ok(value)
            },
        },
    }
}

/// The character with the given code point.
///
/// Calls `char::from_u32`, which returns `None` for a number that is not the code point of a
/// character, and the character otherwise.
#[verifier::external_body]
pub(crate) fn char_from_code(code: u32) -> (r: Option<char>)
    ensures
        match r {
            Some(c) => is_code_point(code as int) && c as u32 == code,
            None => !is_code_point(code as int),
        },
{
    char::from_u32(code)
}

/// Appends `s` to `out`, with its line ends, and for an attribute its white space, normalized.
pub(crate) fn push_normalized(s: &[char], v: XmlVersion, attribute: bool, out: &mut Vec<char>)
    ensures
        final(out)@ == old(out)@ + normalized(s@, v, attribute),
{
    let ghost start = out@;
    let mut done: Vec<char> = Vec::new();
    let mut i: usize = 0;
    while i < s.len()
        invariant
            0 <= i <= s.len(),
            normalized(s@, v, attribute) == normalized_from(s@, i as int, v, attribute, done@),
        decreases s.len() - i,
    {
        let c = s[i];
        let next: usize = if c == '\r' && i + 1 < s.len() && (s[i + 1] == '\n' || (v
            == XmlVersion::Xml11 && s[i + 1] == '\u{85}')) {
            i + 2
        } else {
            i + 1
        };
        if c == '\r' || (v == XmlVersion::Xml11 && (c == '\u{85}' || c == '\u{2028}')) {
            if attribute {
                done.push(' ');
            } else {
                done.push('\n');
            }
        } else if attribute && (c == '\t' || c == '\n') {
            done.push(' ');
        } else {
            done.push(c);
        }
        i = next;
    }
    push_between(out, done.as_slice(), 0, done.len());
    proof {
        assert(done@.subrange(0, done@.len() as int) =~= done@);
    }
}

/// Parses the number that `s` spells.
pub(crate) fn parse_number(s: &[char], radix: u32) -> (r: Option<u32>)
    requires
        radix == 10 || radix == 16,
    ensures
        match r {
            Some(n) => number(s@, radix as int) == Some(n as int),
            None => number(s@, radix as int) is None,
        },
{
    let first: usize = if s.len() > 0 && s[0] == '+' {
        1
    } else {
        0
    };
    if first >= s.len() {
        return None;
    }
    let mut acc: u64 = 0;
    let mut i: usize = first;
    while i < s.len()
        invariant
            radix == 10 || radix == 16,
            0 <= i <= s.len(),
            acc <= u32::MAX,
            number(s@, radix as int) == number_from(s@, i as int, radix as int, acc as int),
        decreases s.len() - i,
    {
        let c = s[i];
        let digit: u64 = if '0' <= c && c <= '9' {
            (c as u64) - ('0' as u64)
        } else if radix == 16 && 'a' <= c && c <= 'f' {
            (c as u64) - ('a' as u64) + 10
        } else if radix == 16 && 'A' <= c && c <= 'F' {
            (c as u64) - ('A' as u64) + 10
        } else {
            return None;
        };
        let next: u64 = if radix == 16 {
            acc * 16 + digit
        } else {
            acc * 10 + digit
        };
        if next > u32::MAX as u64 {
            return None;
        }
        acc = next;
        i = i + 1;
    }
    Some(acc as u32)
}

/// The character that a numeric reference with these digits stands for.
pub(crate) fn decode_character_reference(digits: &[char], radix: u32, v: XmlVersion) -> (r: Option<
    char,
>)
    requires
        radix == 10 || radix == 16,
    ensures
        r == numeric_reference(digits@, radix as int, v),
{
    match parse_number(digits, radix) {
        Some(code) => match char_from_code(code) {
            Some(c) => {
                proof {
                    vstd::utf8::char_u32_cast(c, code);
                }
                let allowed = match v {
                    XmlVersion::Xml10 => is_xml_char(c),
                    XmlVersion::Xml11 => is_xml11_char(c),
                };
                if allowed {
                    Some(c)
                } else {
                    None
                }
            },
            None => None,
        },
        None => None,
    }
}

/// The character that a predefined entity stands for.
pub(crate) fn decode_predefined_entity(name: &[char]) -> (r: Option<char>)
    ensures
        r == predefined_entity(name@),
{
    if spells(name, "amp") {
        Some('&')
    } else if spells(name, "lt") {
        Some('<')
    } else if spells(name, "gt") {
        Some('>')
    } else if spells(name, "apos") {
        Some('\'')
    } else if spells(name, "quot") {
        Some('"')
    } else {
        None
    }
}

/// The character that the text between `&` and `;` stands for.
pub(crate) fn decode_reference(name: &[char], v: XmlVersion, at: usize) -> (r: Result<char, Fault>)
    ensures
        match r {
            Ok(c) => reference_char(name@, v, at as int) == Ok::<char, FaultModel>(c),
            Err(f) => reference_char(name@, v, at as int) == Err::<char, FaultModel>(f@),
        },
{
    proof {
        reveal_strlit("#x");
        reveal_strlit("#");
    }
    match decode_predefined_entity(name) {
        Some(c) => Ok(c),
        None => if starts_with(name, 0, "#x") {
            let digits = slice_subrange(name, 2, name.len());
            match decode_character_reference(digits, 16, v) {
                Some(c) => Ok(c),
                None => Err(Fault { kind: XmlErrorKind::InvalidCharacterReference, at }),
            }
        } else if starts_with(name, 0, "#") {
            let digits = slice_subrange(name, 1, name.len());
            match decode_character_reference(digits, 10, v) {
                Some(c) => Ok(c),
                None => Err(Fault { kind: XmlErrorKind::InvalidCharacterReference, at }),
            }
        } else {
            proof {
                assert(name@.subrange(0, name@.len() as int) =~= name@);
            }
            Err(
                Fault {
                    kind: XmlErrorKind::UndeclaredEntity(string_between(name, 0, name.len())),
                    at,
                },
            )
        },
    }
}

/// The value of `s` with references replaced and white space normalized.
pub(crate) fn decode_text(s: &[char], v: XmlVersion, attribute: bool) -> (r: Result<
    Vec<char>,
    Fault,
>)
    ensures
        match r {
            Ok(out) => decoded_from(s@, 0, v, attribute, Seq::empty()) == Ok::<
                Seq<char>,
                FaultModel,
            >(out@),
            Err(f) => decoded_from(s@, 0, v, attribute, Seq::empty()) == Err::<
                Seq<char>,
                FaultModel,
            >(f@) && f.at <= s@.len(),
        },
{
    let mut out: Vec<char> = Vec::new();
    let mut i: usize = 0;
    loop
        invariant
            0 <= i <= s.len(),
            decoded_from(s@, 0, v, attribute, Seq::empty()) == decoded_from(
                s@,
                i as int,
                v,
                attribute,
                out@,
            ),
        decreases s.len() - i,
    {
        match find_char(s, i, '&') {
            None => {
                push_normalized(slice_subrange(s, i, s.len()), v, attribute, &mut out);
                return Ok(out);
            },
            Some(r) => {
                match find_char(s, r + 1, ';') {
                    None => {
                        return Err(Fault { kind: XmlErrorKind::UnexpectedEof, at: r });
                    },
                    Some(end) => {
                        match decode_reference(slice_subrange(s, r + 1, end), v, r) {
                            Err(f) => {
                                return Err(f);
                            },
                            Ok(c) => {
                                push_normalized(slice_subrange(s, i, r), v, attribute, &mut out);
                                out.push(c);
                                i = end + 1;
                            },
                        }
                    },
                }
            },
        }
    }
}

/// `s` trimmed and with runs of white space collapsed to one space.
pub(crate) fn collapse_xml_whitespace(s: &[char]) -> (out: Vec<char>)
    ensures
        out@ == collapsed(s@),
{
    let mut out: Vec<char> = Vec::new();
    let mut pending: bool = false;
    let mut i: usize = 0;
    while i < s.len()
        invariant
            0 <= i <= s.len(),
            collapsed(s@) == collapsed_from(s@, i as int, pending, out@),
        decreases s.len() - i,
    {
        if is_space(s[i]) {
            pending = out.len() > 0;
        } else {
            if pending {
                out.push(' ');
            }
            out.push(s[i]);
            pending = false;
        }
        i = i + 1;
    }
    out
}

/// The value that the raw text `s` stands for.
pub(crate) fn decode_compact_lexeme(
    s: &[char],
    kind: CompactLexemeKind,
    v: XmlVersion,
    policy: XmlAttributeWhitespacePolicy,
) -> (r: Result<Vec<char>, Fault>)
    ensures
        match r {
            Ok(out) => lexeme_value(s@, kind, v, policy) == Ok::<Seq<char>, FaultModel>(out@),
            Err(f) => lexeme_value(s@, kind, v, policy) == Err::<Seq<char>, FaultModel>(f@) && f.at
                <= s@.len(),
        },
{
    match kind {
        CompactLexemeKind::Opaque => {
            let mut out: Vec<char> = Vec::new();
            push_normalized(s, v, false, &mut out);
            proof {
                assert(Seq::<char>::empty() + normalized(s@, v, false) =~= normalized(s@, v, false));
            }
            Ok(out)
        },
        CompactLexemeKind::Text => decode_text(s, v, false),
        CompactLexemeKind::Attribute => match decode_text(s, v, true) {
            Err(f) => Err(f),
            Ok(value) => if policy == XmlAttributeWhitespacePolicy::NormalizeAndCollapse {
                Ok(collapse_xml_whitespace(value.as_slice()))
            } else {
                Ok(value)
            },
        },
    }
}

} // verus!
