//! The character classes of XML.

use vstd::prelude::*;

use crate::text::chars_of;

verus! {

/// XML white space.
pub open spec fn space(c: char) -> bool {
    c == ' ' || c == '\t' || c == '\n' || c == '\r'
}

/// A character that may start a name.
pub open spec fn name_start(c: char) -> bool {
    let u = c as u32;
    ||| c == ':' || c == '_'
    ||| 'a' <= c <= 'z'
    ||| 'A' <= c <= 'Z'
    ||| 0xc0 <= u <= 0xd6
    ||| 0xd8 <= u <= 0xf6
    ||| 0xf8 <= u <= 0x2ff
    ||| 0x370 <= u <= 0x37d
    ||| 0x37f <= u <= 0x1fff
    ||| 0x200c <= u <= 0x200d
    ||| 0x2070 <= u <= 0x218f
    ||| 0x2c00 <= u <= 0x2fef
    ||| 0x3001 <= u <= 0xd7ff
    ||| 0xf900 <= u <= 0xfdcf
    ||| 0xfdf0 <= u <= 0xfffd
    ||| 0x10000 <= u <= 0xeffff
}

/// A character that may continue a name.
pub open spec fn name_part(c: char) -> bool {
    let u = c as u32;
    ||| name_start(c)
    ||| c == '-' || c == '.'
    ||| '0' <= c <= '9'
    ||| u == 0xb7
    ||| 0x300 <= u <= 0x36f
    ||| 0x203f <= u <= 0x2040
}

/// A character an XML 1.0 document may contain.
pub open spec fn xml10_char(c: char) -> bool {
    let u = c as u32;
    ||| u == 0x9 || u == 0xa || u == 0xd
    ||| 0x20 <= u <= 0xd7ff
    ||| 0xe000 <= u <= 0xfffd
    ||| 0x10000 <= u <= 0x10ffff
}

/// A character an XML 1.1 document may contain, literally or by reference.
pub open spec fn xml11_char(c: char) -> bool {
    let u = c as u32;
    ||| 0x1 <= u <= 0xd7ff
    ||| 0xe000 <= u <= 0xfffd
    ||| 0x10000 <= u <= 0x10ffff
}

/// A character an XML 1.1 document may contain literally.
pub open spec fn xml11_literal(c: char) -> bool {
    let u = c as u32;
    &&& xml11_char(c)
    &&& !(0x1 <= u <= 0x8)
    &&& !(0xb <= u <= 0xc)
    &&& !(0xe <= u <= 0x1f)
    &&& !(0x7f <= u <= 0x84)
    &&& !(0x86 <= u <= 0x9f)
}

/// A character of a public identifier.
pub open spec fn pubid_char(c: char) -> bool {
    ||| c == ' ' || c == '\r' || c == '\n'
    ||| 'a' <= c <= 'z'
    ||| 'A' <= c <= 'Z'
    ||| '0' <= c <= '9'
    ||| c == '-' || c == '\'' || c == '(' || c == ')' || c == '+' || c == ',' || c == '.'
    ||| c == '/' || c == ':' || c == '=' || c == '?' || c == ';' || c == '!' || c == '*'
    ||| c == '#' || c == '@' || c == '$' || c == '_' || c == '%'
}

/// A name: a start character and any number of further ones.
pub open spec fn valid_name(s: Seq<char>) -> bool {
    &&& s.len() > 0
    &&& name_start(s[0])
    &&& forall|i: int| 0 <= i < s.len() ==> name_part(#[trigger] s[i])
}

/// The reserved processing-instruction target, in any case.
pub open spec fn xml_target(s: Seq<char>) -> bool {
    &&& s.len() == 3
    &&& (s[0] == 'x' || s[0] == 'X')
    &&& (s[1] == 'm' || s[1] == 'M')
    &&& (s[2] == 'l' || s[2] == 'L')
}

/// Is `c` XML white space?
pub fn is_space(c: char) -> (r: bool)
    ensures
        r == space(c),
{
    c == ' ' || c == '\t' || c == '\n' || c == '\r'
}

/// May `c` start a name?
pub fn is_name_start_char(c: char) -> (r: bool)
    ensures
        r == name_start(c),
{
    let u: u32 = c as u32;
    c == ':' || c == '_' || ('a' <= c && c <= 'z') || ('A' <= c && c <= 'Z') || (0xc0 <= u && u
        <= 0xd6) || (0xd8 <= u && u <= 0xf6) || (0xf8 <= u && u <= 0x2ff) || (0x370 <= u && u
        <= 0x37d) || (0x37f <= u && u <= 0x1fff) || (0x200c <= u && u <= 0x200d) || (0x2070 <= u
        && u <= 0x218f) || (0x2c00 <= u && u <= 0x2fef) || (0x3001 <= u && u <= 0xd7ff) || (0xf900
        <= u && u <= 0xfdcf) || (0xfdf0 <= u && u <= 0xfffd) || (0x10000 <= u && u <= 0xeffff)
}

/// May `c` continue a name?
pub fn is_name_char(c: char) -> (r: bool)
    ensures
        r == name_part(c),
{
    let u: u32 = c as u32;
    is_name_start_char(c) || c == '-' || c == '.' || ('0' <= c && c <= '9') || u == 0xb7 || (0x300
        <= u && u <= 0x36f) || (0x203f <= u && u <= 0x2040)
}

/// May an XML 1.0 document contain `c`?
pub fn is_xml_char(c: char) -> (r: bool)
    ensures
        r == xml10_char(c),
{
    let u: u32 = c as u32;
    u == 0x9 || u == 0xa || u == 0xd || (0x20 <= u && u <= 0xd7ff) || (0xe000 <= u && u <= 0xfffd)
        || (0x10000 <= u && u <= 0x10ffff)
}

/// May an XML 1.1 document contain `c`, literally or by reference?
pub fn is_xml11_char(c: char) -> (r: bool)
    ensures
        r == xml11_char(c),
{
    let u: u32 = c as u32;
    (0x1 <= u && u <= 0xd7ff) || (0xe000 <= u && u <= 0xfffd) || (0x10000 <= u && u <= 0x10ffff)
}

/// May an XML 1.1 document contain `c` literally?
pub fn is_xml11_literal_char(c: char) -> (r: bool)
    ensures
        r == xml11_literal(c),
{
    let u: u32 = c as u32;
    is_xml11_char(c) && !(0x1 <= u && u <= 0x8) && !(0xb <= u && u <= 0xc) && !(0xe <= u && u
        <= 0x1f) && !(0x7f <= u && u <= 0x84) && !(0x86 <= u && u <= 0x9f)
}

/// May a public identifier contain `c`?
pub fn is_pubid_char(c: char) -> (r: bool)
    ensures
        r == pubid_char(c),
{
    c == ' ' || c == '\r' || c == '\n' || ('a' <= c && c <= 'z') || ('A' <= c && c <= 'Z') || ('0'
        <= c && c <= '9') || c == '-' || c == '\'' || c == '(' || c == ')' || c == '+' || c == ','
        || c == '.' || c == '/' || c == ':' || c == '=' || c == '?' || c == ';' || c == '!' || c
        == '*' || c == '#' || c == '@' || c == '$' || c == '_' || c == '%'
}

/// Is `name` a name?
pub fn is_valid_name(name: &str) -> (r: bool)
    ensures
        r == valid_name(name@),
{
    let v = chars_of(name);
    is_name_slice(v.as_slice())
}

/// Do the characters of `v` form a name?
pub fn is_name_slice(v: &[char]) -> (r: bool)
    ensures
        r == valid_name(v@),
{
    if v.len() == 0 || !is_name_start_char(v[0]) {
        return false;
    }
    let mut i: usize = 0;
    while i < v.len()
        invariant
            0 <= i <= v.len(),
            v@.len() > 0,
            name_start(v@[0]),
            forall|k: int| 0 <= k < i ==> name_part(#[trigger] v@[k]),
        decreases v.len() - i,
    {
        if !is_name_char(v[i]) {
            return false;
        }
        i = i + 1;
    }
    true
}

/// Is `target` the reserved processing-instruction target?
pub fn is_xml_target(target: &str) -> (r: bool)
    ensures
        r == xml_target(target@),
{
    let v = chars_of(target);
    is_xml_target_slice(v.as_slice())
}

/// Do the characters of `v` form the reserved processing-instruction target?
pub fn is_xml_target_slice(v: &[char]) -> (r: bool)
    ensures
        r == xml_target(v@),
{
    v.len() == 3 && (v[0] == 'x' || v[0] == 'X') && (v[1] == 'm' || v[1] == 'M') && (v[2] == 'l'
        || v[2] == 'L')
}

} // verus!
