//! The XML declaration.

use vstd::prelude::*;
use vstd::slice::slice_subrange;

use crate::lexeme::XmlVersion;
use crate::scan::{is_keyword, keyword_at, skip_space, space_end};
use crate::syntax::{is_space, space};
use crate::text::{spells, starts_at, starts_with};

verus! {

/// The closing quotation mark of a pseudo-attribute value.
pub open spec fn pseudo_value_close(s: Seq<char>, i: int, quote: char) -> Option<int>
    decreases s.len() - i,
{
    if i < 0 || i >= s.len() {
        None
    } else if s[i] == quote {
        Some(i)
    } else if space(s[i]) || s[i] == '<' || s[i] == '&' {
        None
    } else {
        pseudo_value_close(s, i + 1, quote)
    }
}

/// The pseudo-attribute `name` at `i`: where its value starts and ends.
pub open spec fn pseudo_attribute(s: Seq<char>, i: int, name: Seq<char>) -> Option<(int, int)> {
    if !keyword_at(s, i, name) {
        None
    } else {
        let equals = space_end(s, i + name.len());
        if !(equals < s.len() && s[equals] == '=') {
            None
        } else {
            let quote = space_end(s, equals + 1);
            if !(quote < s.len() && (s[quote] == '\'' || s[quote] == '"')) {
                None
            } else {
                match pseudo_value_close(s, quote + 1, s[quote]) {
                    None => None,
                    Some(close) => Some((quote + 1, close)),
                }
            }
        }
    }
}

/// An ASCII digit.
pub open spec fn ascii_digit(c: char) -> bool {
    '0' <= c <= '9'
}

/// An ASCII letter.
pub open spec fn ascii_letter(c: char) -> bool {
    'a' <= c <= 'z' || 'A' <= c <= 'Z'
}

/// The version that a version number stands for.
pub open spec fn version_number(s: Seq<char>) -> Option<XmlVersion> {
    if s == "1.1"@ {
        Some(XmlVersion::Xml11)
    } else if starts_at(s, 0, "1."@) && s.len() > 2 && forall|i: int|
        2 <= i < s.len() ==> ascii_digit(#[trigger] s[i]) {
        Some(XmlVersion::Xml10)
    } else {
        None
    }
}

/// A well-formed encoding name.
pub open spec fn encoding_name(s: Seq<char>) -> bool {
    &&& s.len() > 0
    &&& ascii_letter(s[0])
    &&& forall|i: int|
        1 <= i < s.len() ==> (ascii_letter(#[trigger] s[i]) || ascii_digit(s[i]) || s[i] == '.'
            || s[i] == '_' || s[i] == '-')
}

/// What follows the version: an encoding, then a standalone declaration, each at most once.
pub open spec fn declaration_rest(s: Seq<char>, i: int, encoding: bool, standalone: bool) -> bool
    decreases s.len() - i,
{
    let j = space_end(s, i);
    if j == s.len() {
        true
    } else if j == i {
        false
    } else if keyword_at(s, j, "encoding"@) {
        if encoding || standalone {
            false
        } else {
            match pseudo_attribute(s, j, "encoding"@) {
                None => false,
                Some((a, b)) => encoding_name(s.subrange(a, b)) && i < b < s.len()
                    && declaration_rest(s, b + 1, true, standalone),
            }
        }
    } else if keyword_at(s, j, "standalone"@) {
        if standalone {
            false
        } else {
            match pseudo_attribute(s, j, "standalone"@) {
                None => false,
                Some((a, b)) => (s.subrange(a, b) == "yes"@ || s.subrange(a, b) == "no"@) && i < b
                    < s.len() && declaration_rest(s, b + 1, encoding, true),
            }
        }
    } else {
        false
    }
}

/// The version that the data of an XML declaration selects, if the data is well-formed.
pub open spec fn declared_version(s: Seq<char>) -> Option<XmlVersion> {
    match pseudo_attribute(s, 0, "version"@) {
        None => None,
        Some((a, b)) => match version_number(s.subrange(a, b)) {
            None => None,
            Some(v) => if declaration_rest(s, b + 1, false, false) {
                Some(v)
            } else {
                None
            },
        },
    }
}

/// Reads the pseudo-attribute `name` at `i`.
fn parse_required_attr_value(s: &[char], i: usize, name: &str) -> (r: Option<(usize, usize)>)
    requires
        i <= s@.len(),
    ensures
        match r {
            Some((a, b)) => pseudo_attribute(s@, i as int, name@) == Some((a as int, b as int))
                && i < a <= b < s@.len() && b < usize::MAX,
            None => pseudo_attribute(s@, i as int, name@) is None,
        },
{
    if !is_keyword(s, i, name) {
        return None;
    }
    let chars = crate::text::chars_of(name);
    let equals: usize = skip_space(s, i + chars.len());
    if !(equals < s.len() && s[equals] == '=') {
        return None;
    }
    let at: usize = skip_space(s, equals + 1);
    if !(at < s.len() && (s[at] == '\'' || s[at] == '"')) {
        return None;
    }
    let quote = s[at];
    let mut k: usize = at + 1;
    while k < s.len()
        invariant
            i < at + 1 <= k <= s@.len(),
            pseudo_value_close(s@, at + 1, quote) == pseudo_value_close(s@, k as int, quote),
            pseudo_attribute(s@, i as int, name@) == (match pseudo_value_close(s@, at + 1, quote) {
                None => None::<(int, int)>,
                Some(close) => Some((at + 1, close)),
            }),
        decreases s.len() - k,
    {
        if s[k] == quote {
            return Some((at + 1, k));
        }
        if is_space(s[k]) || s[k] == '<' || s[k] == '&' {
            return None;
        }
        k = k + 1;
    }
    None
}

/// The version that a version number stands for.
pub(crate) fn parse_xml_version(s: &[char]) -> (r: Option<XmlVersion>)
    ensures
        r == version_number(s@),
{
    proof {
        reveal_strlit("1.");
    }
    if spells(s, "1.1") {
        return Some(XmlVersion::Xml11);
    }
    if !starts_with(s, 0, "1.") || s.len() <= 2 {
        return None;
    }
    let mut k: usize = 2;
    while k < s.len()
        invariant
            2 <= k <= s@.len(),
            s@ != "1.1"@,
            starts_at(s@, 0, "1."@),
            forall|i: int| 2 <= i < k ==> ascii_digit(#[trigger] s@[i]),
        decreases s.len() - k,
    {
        if !('0' <= s[k] && s[k] <= '9') {
            return None;
        }
        k = k + 1;
    }
    Some(XmlVersion::Xml10)
}

/// Is `s` a well-formed encoding name?
pub(crate) fn is_valid_encoding_name(s: &[char]) -> (r: bool)
    ensures
        r == encoding_name(s@),
{
    if s.len() == 0 || !(('a' <= s[0] && s[0] <= 'z') || ('A' <= s[0] && s[0] <= 'Z')) {
        return false;
    }
    let mut k: usize = 1;
    while k < s.len()
        invariant
            1 <= k <= s@.len(),
            forall|i: int|
                1 <= i < k ==> (ascii_letter(#[trigger] s@[i]) || ascii_digit(s@[i]) || s@[i] == '.'
                    || s@[i] == '_' || s@[i] == '-'),
        decreases s.len() - k,
    {
        let c = s[k];
        if !(('a' <= c && c <= 'z') || ('A' <= c && c <= 'Z') || ('0' <= c && c <= '9') || c == '.'
            || c == '_' || c == '-') {
            return false;
        }
        k = k + 1;
    }
    true
}

/// The version that the data of an XML declaration selects, if the data is well-formed.
pub(crate) fn parse_xml_declaration_version(s: &[char]) -> (r: Option<XmlVersion>)
    ensures
        r == declared_version(s@),
{
    let (a, b) = match parse_required_attr_value(s, 0, "version") {
        None => {
            return None;
        },
        Some(p) => p,
    };
    let version = match parse_xml_version(slice_subrange(s, a, b)) {
        None => {
            return None;
        },
        Some(v) => v,
    };
    let mut i: usize = b + 1;
    let mut encoding = false;
    let mut standalone = false;
    loop
        invariant
            i <= s@.len(),
            declared_version(s@) == (if declaration_rest(s@, i as int, encoding, standalone) {
                Some(version)
            } else {
                None
            }),
        decreases s@.len() - i,
    {
        let j: usize = skip_space(s, i);
        if j == s.len() {
            return Some(version);
        }
        if j == i {
            return None;
        }
        if is_keyword(s, j, "encoding") {
            if encoding || standalone {
                return None;
            }
            match parse_required_attr_value(s, j, "encoding") {
                None => {
                    return None;
                },
                Some((a, b)) => {
                    if !is_valid_encoding_name(slice_subrange(s, a, b)) {
                        return None;
                    }
                    encoding = true;
                    i = b + 1;
                },
            }
        } else if is_keyword(s, j, "standalone") {
            if standalone {
                return None;
            }
            match parse_required_attr_value(s, j, "standalone") {
                None => {
                    return None;
                },
                Some((a, b)) => {
                    let value = slice_subrange(s, a, b);
                    if !spells(value, "yes") && !spells(value, "no") {
                        return None;
                    }
                    standalone = true;
                    i = b + 1;
                },
            }
        } else {
            return None;
        }
    }
}

} // verus!
