//! Characters, UTF-8 widths and the few string operations everything else is built on.
//!
//! Text is modelled as a sequence of characters. Positions inside a text are character
//! indexes; `byte_offset` turns such an index into the UTF-8 offset that callers see.

use vstd::prelude::*;
use vstd::string::*;
use vstd::utf8::*;

verus! {

/// The number of bytes `c` takes in UTF-8.
pub open spec fn utf8_width(c: char) -> nat {
    if c as u32 <= 0x7f {
        1
    } else if c as u32 <= 0x7ff {
        2
    } else if c as u32 <= 0xffff {
        3
    } else {
        4
    }
}

/// The UTF-8 offset of character `i` of `s`.
pub open spec fn byte_offset(s: Seq<char>, i: int) -> nat
    decreases i,
{
    if i <= 0 {
        0
    } else {
        byte_offset(s, i - 1) + utf8_width(s[i - 1])
    }
}

/// The number of bytes of `s` in UTF-8.
pub open spec fn byte_len(s: Seq<char>) -> nat {
    byte_offset(s, s.len() as int)
}

/// `t` occurs in `s` at `i`.
pub open spec fn starts_at(s: Seq<char>, i: int, t: Seq<char>) -> bool {
    0 <= i && i + t.len() <= s.len() && s.subrange(i, i + t.len()) == t
}

/// The first position at or after `i` where `t` occurs in `s`.
pub open spec fn find_from(s: Seq<char>, i: int, t: Seq<char>) -> Option<int>
    decreases s.len() + 1 - i,
{
    if i < 0 || i > s.len() {
        None
    } else if starts_at(s, i, t) {
        Some(i)
    } else {
        find_from(s, i + 1, t)
    }
}

/// `t` occurs somewhere in `s`.
pub open spec fn contains_text(s: Seq<char>, t: Seq<char>) -> bool {
    find_from(s, 0, t) is Some
}

/// The first position at or after `i` of the character `c` in `s`.
pub open spec fn find_char_from(s: Seq<char>, i: int, c: char) -> Option<int>
    decreases s.len() - i,
{
    if i < 0 || i >= s.len() {
        None
    } else if s[i] == c {
        Some(i)
    } else {
        find_char_from(s, i + 1, c)
    }
}

/// Appends one character to `out`.
///
/// Calls `String::push`, which "appends the given `char` to the end of this `String`".
#[verifier::external_body]
pub(crate) fn push_char(out: &mut String, c: char)
    ensures
        final(out)@ == old(out)@.push(c),
{
    out.push(c);
}

/// The characters of `s`.
pub fn chars_of(s: &str) -> (out: Vec<char>)
    ensures
        out@ == s@,
{
    let mut out: Vec<char> = Vec::new();
    for c in it: s.chars()
        invariant
            out@ == it.seq().take(it.index()),
            it.seq() == s@,
    {
        out.push(c);
    }
    out
}

/// Do the string slices hold the same characters?
pub(crate) fn str_eq(a: &str, b: &str) -> (r: bool)
    ensures
        r == (a@ == b@),
{
    let x = chars_of(a);
    let y = chars_of(b);
    same_chars(x.as_slice(), y.as_slice())
}

/// A string made of the characters of `s`.
pub fn string_of(s: &[char]) -> (out: String)
    ensures
        out@ == s@,
{
    let mut out: String = String::new();
    let mut i: usize = 0;
    while i < s.len()
        invariant
            0 <= i <= s.len(),
            out@ == s@.take(i as int),
        decreases s.len() - i,
    {
        push_char(&mut out, s[i]);
        proof {
            assert(s@.take(i + 1) =~= s@.take(i as int).push(s@[i as int]));
        }
        i = i + 1;
    }
    proof {
        assert(s@.take(s@.len() as int) =~= s@);
    }
    out
}

/// A string made of the characters `from..to` of `s`.
pub fn string_between(s: &[char], from: usize, to: usize) -> (out: String)
    requires
        from <= to <= s@.len(),
    ensures
        out@ == s@.subrange(from as int, to as int),
{
    let mut out: String = String::new();
    let mut i: usize = from;
    while i < to
        invariant
            from <= i <= to <= s@.len(),
            out@ == s@.subrange(from as int, i as int),
        decreases to - i,
    {
        push_char(&mut out, s[i]);
        proof {
            assert(s@.subrange(from as int, i + 1) =~= s@.subrange(from as int, i as int).push(
                s@[i as int],
            ));
        }
        i = i + 1;
    }
    out
}

/// Appends the characters `from..to` of `s` to `out`.
pub(crate) fn push_between(out: &mut Vec<char>, s: &[char], from: usize, to: usize)
    requires
        from <= to <= s@.len(),
    ensures
        final(out)@ == old(out)@ + s@.subrange(from as int, to as int),
{
    let ghost start = out@;
    let mut i: usize = from;
    while i < to
        invariant
            from <= i <= to <= s@.len(),
            out@ == start + s@.subrange(from as int, i as int),
        decreases to - i,
    {
        out.push(s[i]);
        proof {
            assert(s@.subrange(from as int, i + 1) =~= s@.subrange(from as int, i as int).push(
                s@[i as int],
            ));
            assert(out@ =~= start + s@.subrange(from as int, i + 1));
        }
        i = i + 1;
    }
    proof {
        if from == to {
            assert(start + s@.subrange(from as int, to as int) =~= start);
        }
    }
}

/// Appends the characters of `t` to `out`.
pub(crate) fn push_text(out: &mut Vec<char>, t: &str)
    ensures
        final(out)@ == old(out)@ + t@,
{
    let v = chars_of(t);
    push_between(out, v.as_slice(), 0, v.len());
    proof {
        assert(v@.subrange(0, v@.len() as int) =~= v@);
    }
}

/// Compares two character slices.
pub(crate) fn same_chars(a: &[char], b: &[char]) -> (r: bool)
    ensures
        r == (a@ == b@),
{
    if a.len() != b.len() {
        return false;
    }
    let mut i: usize = 0;
    while i < a.len()
        invariant
            0 <= i <= a.len(),
            a@.len() == b@.len(),
            forall|k: int| 0 <= k < i ==> a@[k] == b@[k],
        decreases a.len() - i,
    {
        if a[i] != b[i] {
            return false;
        }
        i = i + 1;
    }
    proof {
        assert(a@ =~= b@);
    }
    true
}

/// Does the character slice `a` spell the string `b`?
pub(crate) fn spells(a: &[char], b: &str) -> (r: bool)
    ensures
        r == (a@ == b@),
{
    let v = chars_of(b);
    same_chars(a, v.as_slice())
}

/// Does `t` occur in `s` at `i`?
pub(crate) fn starts_with(s: &[char], i: usize, t: &str) -> (r: bool)
    ensures
        r == starts_at(s@, i as int, t@),
        r ==> i + t@.len() <= usize::MAX,
{
    let v = chars_of(t);
    starts_with_chars(s, i, v.as_slice())
}

/// Does `t` occur in `s` at `i`?
pub(crate) fn starts_with_chars(s: &[char], i: usize, t: &[char]) -> (r: bool)
    ensures
        r == starts_at(s@, i as int, t@),
        r ==> i + t@.len() <= usize::MAX,
{
    if i > s.len() || t.len() > s.len() - i {
        return false;
    }
    let mut k: usize = 0;
    while k < t.len()
        invariant
            0 <= k <= t.len(),
            i + t.len() <= s.len(),
            forall|j: int| 0 <= j < k ==> s@[i + j] == t@[j],
        decreases t.len() - k,
    {
        if s[i + k] != t[k] {
            proof {
                assert(s@.subrange(i as int, i + t@.len())[k as int] == s@[i + k]);
            }
            return false;
        }
        k = k + 1;
    }
    proof {
        assert(s@.subrange(i as int, i + t@.len()) =~= t@);
    }
    true
}

/// The first position at or after `i` where `t` occurs in `s`.
pub(crate) fn find_text(s: &[char], i: usize, t: &str) -> (r: Option<usize>)
    ensures
        match r {
            Some(k) => find_from(s@, i as int, t@) == Some(k as int) && i <= k <= s@.len()
                && starts_at(s@, k as int, t@) && k + t@.len() <= usize::MAX,
            None => find_from(s@, i as int, t@) is None,
        },
{
    let v = chars_of(t);
    let mut k: usize = i;
    while k <= s.len()
        invariant
            v@ == t@,
            i <= k,
            k <= s@.len() + 1 || k == i,
            find_from(s@, i as int, t@) == find_from(s@, k as int, t@),
        decreases s.len() + 1 - k,
    {
        if starts_with_chars(s, k, v.as_slice()) {
            return Some(k);
        }
        if k == s.len() {
            proof {
                assert(find_from(s@, k + 1, t@) is None);
            }
            return None;
        }
        k = k + 1;
    }
    None
}

/// Does `t` occur in `s`?
pub(crate) fn has_text(s: &[char], t: &str) -> (r: bool)
    ensures
        r == contains_text(s@, t@),
{
    find_text(s, 0, t).is_some()
}

/// The first position at or after `i` of the character `c` in `s`.
pub(crate) fn find_char(s: &[char], i: usize, c: char) -> (r: Option<usize>)
    ensures
        match r {
            Some(k) => find_char_from(s@, i as int, c) == Some(k as int) && i <= k < s@.len()
                && s@[k as int] == c && (forall|j: int| i <= j < k ==> s@[j] != c),
            None => find_char_from(s@, i as int, c) is None && (forall|j: int|
                i <= j < s@.len() ==> s@[j] != c),
        },
{
    let mut k: usize = i;
    while k < s.len()
        invariant
            i <= k,
            k <= s@.len() || k == i,
            forall|j: int| i <= j < k ==> s@[j] != c,
            find_char_from(s@, i as int, c) == find_char_from(s@, k as int, c),
        decreases s.len() - k,
    {
        if s[k] == c {
            return Some(k);
        }
        k = k + 1;
    }
    None
}

/// The number of bytes `c` takes in UTF-8.
pub fn char_width(c: char) -> (w: usize)
    ensures
        w == utf8_width(c),
        1 <= w <= 4,
{
    let code: u32 = c as u32;
    if code <= 0x7f {
        1
    } else if code <= 0x7ff {
        2
    } else if code <= 0xffff {
        3
    } else {
        4
    }
}

/// A prefix takes no more bytes than a longer one.
pub proof fn lemma_byte_offset_monotone(s: Seq<char>, i: int, j: int)
    requires
        i <= j,
    ensures
        byte_offset(s, i) <= byte_offset(s, j),
    decreases j - i,
{
    if i < j {
        lemma_byte_offset_monotone(s, i, j - 1);
    }
}

/// A text takes as many bytes as its prefix and its rest together.
pub proof fn lemma_byte_offset_split(s: Seq<char>, i: int, j: int)
    requires
        0 <= i <= j <= s.len(),
    ensures
        byte_offset(s, j) == byte_offset(s, i) + byte_len(s.subrange(i, j)),
    decreases j - i,
{
    if i < j {
        lemma_byte_offset_split(s, i, j - 1);
        assert(s.subrange(i, j - 1) =~= s.subrange(i, j).take(j - i - 1));
        assert(s.subrange(i, j - 1).take(j - i - 1) =~= s.subrange(i, j).take(j - i - 1));
        lemma_byte_offset_prefix(s.subrange(i, j), s.subrange(i, j - 1), j - i - 1);
    }
}

/// An offset within a part is the offset of the part and the offset in it.
pub proof fn lemma_byte_offset_within(s: Seq<char>, i: int, j: int, k: int)
    requires
        0 <= i <= j <= s.len(),
        0 <= k <= j - i,
    ensures
        byte_offset(s, i + k) == byte_offset(s, i) + byte_offset(s.subrange(i, j), k),
{
    lemma_byte_offset_split(s, i, i + k);
    assert(s.subrange(i, i + k).take(k) =~= s.subrange(i, j).take(k));
    lemma_byte_offset_prefix(s.subrange(i, i + k), s.subrange(i, j), k);
}

/// The offset of a character depends only on what precedes it.
pub proof fn lemma_byte_offset_prefix(s: Seq<char>, t: Seq<char>, i: int)
    requires
        0 <= i <= s.len(),
        i <= t.len(),
        s.take(i) == t.take(i),
    ensures
        byte_offset(s, i) == byte_offset(t, i),
    decreases i,
{
    if i > 0 {
        assert(s.take(i - 1) =~= s.take(i).take(i - 1));
        assert(t.take(i - 1) =~= t.take(i).take(i - 1));
        lemma_byte_offset_prefix(s, t, i - 1);
        assert(s[i - 1] == s.take(i)[i - 1]);
        assert(t[i - 1] == t.take(i)[i - 1]);
    }
}

/// A concatenation takes as many bytes as its parts together.
pub proof fn lemma_byte_len_concat(a: Seq<char>, b: Seq<char>)
    ensures
        byte_len(a + b) == byte_len(a) + byte_len(b),
{
    let n = a.len() as int;
    lemma_byte_offset_split(a + b, n, (a + b).len() as int);
    assert((a + b).subrange(n, (a + b).len() as int) =~= b);
    assert((a + b).take(n) =~= a.take(n));
    lemma_byte_offset_prefix(a + b, a, n);
}

/// One more character takes its width.
pub proof fn lemma_byte_len_push(a: Seq<char>, c: char)
    ensures
        byte_len(a.push(c)) == byte_len(a) + utf8_width(c),
{
    let n = a.len() as int;
    assert(a.push(c).take(n) =~= a.take(n));
    lemma_byte_offset_prefix(a.push(c), a, n);
}

/// No character takes more than four bytes.
pub proof fn lemma_byte_len_bound(s: Seq<char>, i: int)
    requires
        0 <= i,
    ensures
        byte_offset(s, i) <= 4 * i,
    decreases i,
{
    if i > 0 {
        lemma_byte_len_bound(s, i - 1);
    }
}

/// The number of bytes of `s` in UTF-8.
pub(crate) fn count_bytes(s: &[char]) -> (n: u128)
    ensures
        n == byte_len(s@),
        n <= 4 * usize::MAX,
{
    let mut n: u128 = 0;
    let mut i: usize = 0;
    while i < s.len()
        invariant
            0 <= i <= s.len(),
            n == byte_offset(s@, i as int),
        decreases s.len() - i,
    {
        proof {
            lemma_byte_len_bound(s@, i as int);
        }
        n = n + char_width(s[i]) as u128;
        i = i + 1;
    }
    proof {
        lemma_byte_len_bound(s@, i as int);
    }
    n
}

/// UTF-8 encodes a concatenation piece by piece.
pub proof fn lemma_encode_concat(a: Seq<char>, b: Seq<char>)
    ensures
        encode_utf8(a + b) == encode_utf8(a) + encode_utf8(b),
    decreases a.len(),
{
    if a.len() == 0 {
        assert(a + b =~= b);
        assert(encode_utf8(a) + encode_utf8(b) =~= encode_utf8(b));
    } else {
        assert((a + b).drop_first() =~= a.drop_first() + b);
        lemma_encode_concat(a.drop_first(), b);
        assert(encode_utf8(a + b) =~= encode_utf8(a) + encode_utf8(b));
    }
}

/// `byte_len` is the length of the UTF-8 encoding.
pub proof fn lemma_byte_len_is_utf8(s: Seq<char>)
    ensures
        byte_len(s) == encode_utf8(s).len(),
    decreases s.len(),
{
    if s.len() > 0 {
        let t = s.drop_last();
        lemma_byte_len_is_utf8(t);
        assert(s =~= t + seq![s.last()]);
        lemma_encode_concat(t, seq![s.last()]);
        let one = seq![s.last()];
        char_is_scalar(s.last());
        assert(one.drop_first() =~= Seq::<char>::empty());
        assert(encode_utf8(one) =~= encode_scalar(s.last() as u32) + encode_utf8(one.drop_first()));
        assert(encode_utf8(Seq::<char>::empty()).len() == 0);
        assert(s.take(t.len() as int) =~= t.take(t.len() as int));
        lemma_byte_offset_prefix(s, t, t.len() as int);
    }
}

/// The start of every character is a boundary of the encoding.
pub proof fn lemma_offset_is_boundary(s: Seq<char>, i: int)
    requires
        0 <= i <= s.len(),
    ensures
        is_char_boundary(encode_utf8(s), byte_offset(s, i) as int),
        byte_offset(s, i) <= encode_utf8(s).len(),
        encode_utf8(s).subrange(0, byte_offset(s, i) as int) == encode_utf8(s.take(i)),
        encode_utf8(s).subrange(byte_offset(s, i) as int, encode_utf8(s).len() as int)
            == encode_utf8(s.skip(i)),
    decreases i,
{
    let a = s.take(i);
    let b = s.skip(i);
    assert(s =~= a + b);
    lemma_encode_concat(a, b);
    lemma_byte_len_is_utf8(a);
    assert(s.take(i) =~= a.take(i));
    lemma_byte_offset_prefix(s, a, i);
    lemma_prefix_is_boundary(a, b);
    assert(encode_utf8(s).subrange(0, byte_offset(s, i) as int) =~= encode_utf8(a));
    assert(encode_utf8(s).subrange(byte_offset(s, i) as int, encode_utf8(s).len() as int)
        =~= encode_utf8(b));
}

proof fn lemma_prefix_is_boundary(a: Seq<char>, b: Seq<char>)
    ensures
        is_char_boundary(encode_utf8(a + b), encode_utf8(a).len() as int),
    decreases a.len(),
{
    encode_utf8_valid_utf8(a + b);
    if a.len() > 0 {
        let whole = a + b;
        assert(whole.drop_first() =~= a.drop_first() + b);
        encode_utf8_first_scalar(whole);
        lemma_encode_concat(a, b);
        lemma_prefix_is_boundary(a.drop_first(), b);
        assert(pop_first_scalar(encode_utf8(whole)) =~= encode_utf8(whole.drop_first()));
        assert(encode_utf8(a).len() == encode_scalar(a[0] as u32).len() + encode_utf8(
            a.drop_first(),
        ).len());
    }
}

/// Every character has at least one byte.
pub proof fn lemma_byte_offset_at_least(s: Seq<char>, i: int)
    requires
        0 <= i,
    ensures
        i <= byte_offset(s, i),
    decreases i,
{
    if i > 0 {
        lemma_byte_offset_at_least(s, i - 1);
    }
}

/// A text and the list of its characters.
pub struct Source<'a> {
    /// The text.
    pub text: &'a str,
    /// Its characters.
    pub chars: Vec<char>,
}

impl<'a> Source<'a> {
    /// The characters are those of the text, and its length in bytes fits.
    pub open spec fn wf(&self) -> bool {
        &&& self.chars@ == self.text@
        &&& byte_len(self.text@) <= usize::MAX
    }

    /// Splits `text` into characters.
    pub fn new(text: &'a str) -> (r: Self)
        ensures
            r.wf(),
            r.text@ == text@,
    {
        let chars = chars_of(text);
        let bytes = text.as_bytes();
        let n: usize = bytes.len();
        proof {
            lemma_byte_len_is_utf8(text@);
            assert(n == byte_len(text@));
        }
        Source { text, chars }
    }

    /// The UTF-8 offset of character `i`.
    pub fn offset(&self, i: usize) -> (r: usize)
        requires
            self.wf(),
            i <= self.text@.len(),
        ensures
            r == byte_offset(self.text@, i as int),
    {
        let mut total: usize = 0;
        let mut k: usize = 0;
        while k < i
            invariant
                self.wf(),
                k <= i <= self.text@.len(),
                total == byte_offset(self.text@, k as int),
            decreases i - k,
        {
            proof {
                lemma_byte_offset_monotone(self.text@, k + 1, self.text@.len() as int);
            }
            total = total + char_width(self.chars[k]);
            k = k + 1;
        }
        total
    }
}

} // verus!
