//! Values that can be written as text.

use vstd::prelude::*;

use crate::fragment::{decimal, digit};
use crate::text::string_of;

verus! {

/// A value that can be written as text.
pub trait ToXmlValue {
    /// The text of the value.
    spec fn xml_value(&self) -> Seq<char>;

    /// Returns the text of the value.
    fn to_xml_value(&self) -> (r: String)
        ensures
            r@ == self.xml_value(),
    ;
}

/// The text of a number.
pub open spec fn number_text(n: int) -> Seq<char> {
    if n < 0 {
        seq!['-'] + decimal((-n) as nat)
    } else {
        decimal(n as nat)
    }
}

/// The digit of a number below ten.
fn digit_char(d: u64) -> (r: char)
    requires
        d < 10,
    ensures
        r == digit(d as int),
{
    match d {
        0 => '0',
        1 => '1',
        2 => '2',
        3 => '3',
        4 => '4',
        5 => '5',
        6 => '6',
        7 => '7',
        8 => '8',
        _ => '9',
    }
}

/// Writes a number in decimal notation.
pub(crate) fn push_decimal(n: u64, out: &mut Vec<char>)
    ensures
        final(out)@ == old(out)@ + decimal(n as nat),
    decreases n,
{
    let ghost start = out@;
    if n >= 10 {
        push_decimal(n / 10, out);
    }
    out.push(digit_char(n % 10));
    proof {
        assert(out@ =~= start + decimal(n as nat));
    }
}

/// Writes a number with its sign.
fn signed_text(n: i64) -> (r: String)
    ensures
        r@ == number_text(n as int),
{
    let mut out: Vec<char> = Vec::new();
    if n < 0 {
        out.push('-');
        let m: u64 = if n == i64::MIN {
            0x8000_0000_0000_0000
        } else {
            (-n) as u64
        };
        push_decimal(m, &mut out);
        proof {
            assert(out@ =~= seq!['-'] + decimal(m as nat));
        }
    } else {
        push_decimal(n as u64, &mut out);
        proof {
            assert(out@ =~= decimal(n as nat));
        }
    }
    string_of(out.as_slice())
}

/// Writes a number without a sign.
fn unsigned_text(n: u64) -> (r: String)
    ensures
        r@ == number_text(n as int),
{
    let mut out: Vec<char> = Vec::new();
    push_decimal(n, &mut out);
    proof {
        assert(out@ =~= decimal(n as nat));
    }
    string_of(out.as_slice())
}

impl ToXmlValue for i32 {
    open spec fn xml_value(&self) -> Seq<char> {
        number_text(*self as int)
    }

    fn to_xml_value(&self) -> (r: String) {
        signed_text(*self as i64)
    }
}

impl ToXmlValue for i64 {
    open spec fn xml_value(&self) -> Seq<char> {
        number_text(*self as int)
    }

    fn to_xml_value(&self) -> (r: String) {
        signed_text(*self)
    }
}

impl ToXmlValue for u32 {
    open spec fn xml_value(&self) -> Seq<char> {
        number_text(*self as int)
    }

    fn to_xml_value(&self) -> (r: String) {
        unsigned_text(*self as u64)
    }
}

impl ToXmlValue for u64 {
    open spec fn xml_value(&self) -> Seq<char> {
        number_text(*self as int)
    }

    fn to_xml_value(&self) -> (r: String) {
        unsigned_text(*self)
    }
}

impl ToXmlValue for usize {
    open spec fn xml_value(&self) -> Seq<char> {
        number_text(*self as int)
    }

    fn to_xml_value(&self) -> (r: String) {
        unsigned_text(*self as u64)
    }
}

impl ToXmlValue for bool {
    open spec fn xml_value(&self) -> Seq<char> {
        if *self {
            "true"@
        } else {
            "false"@
        }
    }

    fn to_xml_value(&self) -> (r: String) {
        if *self {
            "true".to_owned()
        } else {
            "false".to_owned()
        }
    }
}

impl ToXmlValue for String {
    open spec fn xml_value(&self) -> Seq<char> {
        self@
    }

    fn to_xml_value(&self) -> (r: String) {
        self.clone()
    }
}

impl ToXmlValue for &str {
    open spec fn xml_value(&self) -> Seq<char> {
        self@
    }

    fn to_xml_value(&self) -> (r: String) {
        (*self).to_owned()
    }
}

} // verus!
