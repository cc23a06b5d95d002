//! The recovery of a well-formed start of a document.

use vstd::prelude::*;
use vstd::slice::slice_subrange;

use crate::compact::{compact_parse, parse_compact_document_with_config, XmlCompactDocument};
use crate::config::{ConfigModel, ParserConfig};
use crate::document::DocumentModel;
use crate::encoding::{char_before, strip, stripped};
use crate::error::{ErrorKindModel, XmlErrorKind};
use crate::text::{
    byte_offset, char_width, find_from, find_text, lemma_byte_offset_monotone, push_between,
    same_chars, starts_at, starts_with, string_of,
};

verus! {

/// White space between words.
pub open spec fn word_space(c: char) -> bool {
    c == ' ' || c == '\t' || c == '\n' || c == '\x0c' || c == '\r'
}

/// The end of the word at `i`.
pub open spec fn word_end(s: Seq<char>, i: int) -> int
    decreases s.len() - i,
{
    if 0 <= i < s.len() && !word_space(s[i]) {
        word_end(s, i + 1)
    } else {
        i
    }
}

/// The start of the next word, from `i` on.
pub open spec fn word_start(s: Seq<char>, i: int) -> int
    decreases s.len() - i,
{
    if 0 <= i < s.len() && word_space(s[i]) {
        word_start(s, i + 1)
    } else {
        i
    }
}

/// The first word of `s`.
pub open spec fn first_word(s: Seq<char>) -> Option<Seq<char>> {
    let from = word_start(s, 0);
    let to = word_end(s, from);
    if from < to {
        Some(s.subrange(from, to))
    } else {
        None
    }
}

/// The end of `0..i` without the slashes at its end.
pub open spec fn without_slashes(s: Seq<char>, i: int) -> int
    decreases i,
{
    if 0 < i <= s.len() && s[i - 1] == '/' {
        without_slashes(s, i - 1)
    } else {
        i
    }
}

/// The end of a tag, from `i` on; `quote` is the mark of the literal that `i` is in.
pub open spec fn tag_end(s: Seq<char>, i: int, quote: Option<char>) -> Option<int>
    decreases s.len() - i,
{
    if i < 0 || i >= s.len() {
        None
    } else {
        match quote {
            Some(q) => if s[i] == q {
                tag_end(s, i + 1, None)
            } else {
                tag_end(s, i + 1, quote)
            },
            None => if s[i] == '\'' || s[i] == '"' {
                tag_end(s, i + 1, Some(s[i]))
            } else if s[i] == '>' {
                Some(i + 1)
            } else {
                tag_end(s, i + 1, None)
            },
        }
    }
}

/// The end of a document type declaration, from `i` on; `depth` brackets are open.
pub open spec fn doctype_close(s: Seq<char>, i: int, quote: Option<char>, depth: int) -> Option<int>
    decreases s.len() - i,
{
    if i < 0 || i >= s.len() {
        None
    } else {
        match quote {
            Some(q) => if s[i] == q {
                doctype_close(s, i + 1, None, depth)
            } else {
                doctype_close(s, i + 1, quote, depth)
            },
            None => if s[i] == '\'' || s[i] == '"' {
                doctype_close(s, i + 1, Some(s[i]), depth)
            } else if starts_at(s, i, "<!--"@) {
                match find_from(s, i + 4, "-->"@) {
                    None => None,
                    Some(k) => if k <= i || k + 3 > s.len() {
                        None
                    } else {
                        doctype_close(s, k + 3, None, depth)
                    },
                }
            } else if starts_at(s, i, "<?"@) {
                match find_from(s, i + 2, "?>"@) {
                    None => None,
                    Some(k) => if k <= i || k + 2 > s.len() {
                        None
                    } else {
                        doctype_close(s, k + 2, None, depth)
                    },
                }
            } else if s[i] == '[' {
                doctype_close(s, i + 1, None, depth + 1)
            } else if s[i] == ']' {
                doctype_close(
                    s,
                    i + 1,
                    None,
                    if depth > 0 {
                        depth - 1
                    } else {
                        0
                    },
                )
            } else if s[i] == '>' && depth == 0 {
                Some(i + 1)
            } else {
                doctype_close(s, i + 1, None, depth)
            },
        }
    }
}

/// The elements that are open at the end of `s`, and whether there was one, if the tags from `i`
/// on match; `open` are open at `i`.
pub open spec fn open_elements(s: Seq<char>, i: int, open: Seq<Seq<char>>, seen: bool) -> Option<
    (Seq<Seq<char>>, bool),
>
    decreases s.len() - i,
{
    if i < 0 || i >= s.len() {
        Some((open, seen))
    } else if s[i] != '<' {
        open_elements(s, i + 1, open, seen)
    } else if starts_at(s, i, "<!--"@) {
        match find_from(s, i + 4, "-->"@) {
            None => None,
            Some(k) => if k <= i || k + 3 > s.len() {
                None
            } else {
                open_elements(s, k + 3, open, seen)
            },
        }
    } else if starts_at(s, i, "<![CDATA["@) {
        match find_from(s, i + 9, "]]>"@) {
            None => None,
            Some(k) => if k <= i || k + 3 > s.len() {
                None
            } else {
                open_elements(s, k + 3, open, seen)
            },
        }
    } else if starts_at(s, i, "<?"@) {
        match find_from(s, i + 2, "?>"@) {
            None => None,
            Some(k) => if k <= i || k + 2 > s.len() {
                None
            } else {
                open_elements(s, k + 2, open, seen)
            },
        }
    } else if starts_at(s, i, "<!DOCTYPE"@) {
        match doctype_close(s, i + 9, None, 0) {
            None => None,
            Some(k) => if k <= i || k > s.len() {
                None
            } else {
                open_elements(s, k, open, seen)
            },
        }
    } else if starts_at(s, i, "</"@) {
        match tag_end(s, i + 1, None) {
            None => None,
            Some(k) => if k <= i || k > s.len() {
                None
            } else {
                match first_word(stripped(s.subrange(i + 2, k - 1))) {
                    None => None,
                    Some(name) => if open.len() > 0 && open.last() == name {
                        open_elements(s, k, open.drop_last(), seen)
                    } else {
                        None
                    },
                }
            },
        }
    } else if starts_at(s, i, "<!"@) {
        None
    } else {
        match tag_end(s, i + 1, None) {
            None => None,
            Some(k) => if k <= i || k > s.len() {
                None
            } else {
                let body = stripped(s.subrange(i + 1, k - 1));
                let end = without_slashes(body, body.len() as int);
                match first_word(body.take(end)) {
                    None => None,
                    Some(name) => open_elements(
                        s,
                        k,
                        if end < body.len() {
                            open
                        } else {
                            open.push(name)
                        },
                        true,
                    ),
                }
            },
        }
    }
}

/// `s` with end tags for the first `n` of the open elements, the innermost first.
pub open spec fn closed_with(s: Seq<char>, open: Seq<Seq<char>>, n: int) -> Seq<char>
    decreases n,
{
    if n <= 0 || n > open.len() {
        s
    } else {
        closed_with(s + "</"@ + open[n - 1] + ">"@, open, n - 1)
    }
}

/// The recovery may cut before a character that opens a tag or a reference.
pub open spec fn cut_at(s: Seq<char>, i: int, last: int) -> bool {
    i == last || s[i] == '<' || s[i] == '&'
}

/// The document that the first `i` characters of `s` are once their open elements are closed.
#[verifier::opaque]
pub open spec fn recovery_at(s: Seq<char>, i: int, c: ConfigModel) -> Option<DocumentModel> {
    let start = s.take(i);
    match open_elements(start, 0, Seq::empty(), false) {
        None => None,
        Some((open, seen)) => if !seen {
            None
        } else {
            match compact_parse(closed_with(start, open, open.len() as int), c) {
                Ok(m) => Some(m),
                Err(_) => None,
            }
        },
    }
}

/// The longest start of `s`, of at most `i` characters, that can be closed to a document: the
/// document, and how many characters the start has.
pub open spec fn recovered_from(s: Seq<char>, i: int, last: int, c: ConfigModel) -> Option<
    (DocumentModel, int),
>
    decreases i + 1,
{
    if i < 0 || i > s.len() {
        None
    } else if !cut_at(s, i, last) {
        recovered_from(s, i - 1, last, c)
    } else {
        match recovery_at(s, i, c) {
            Some(m) => Some((m, i)),
            None => recovered_from(s, i - 1, last, c),
        }
    }
}

/// What is recovered is no longer than what was looked at.
pub(crate) proof fn lemma_recovered_within(s: Seq<char>, i: int, last: int, c: ConfigModel)
    ensures
        recovered_from(s, i, last, c) matches Some((m, k)) ==> 0 <= k <= i,
    decreases i + 1,
{
    if 0 <= i <= s.len() {
        lemma_recovered_within(s, i - 1, last, c);
    }
}

/// The character before a byte starts there or earlier.
pub(crate) proof fn lemma_char_before_byte(s: Seq<char>, i: int, at: int)
    requires
        0 <= i,
        0 <= at,
    ensures
        byte_offset(s, char_before(s, i, at)) <= at,
    decreases i,
{
    if i > 0 && byte_offset(s, i) > at {
        lemma_char_before_byte(s, i - 1, at);
    }
}

/// What is recovered of `s`, which failed at the byte `at`.
pub open spec fn recovered(s: Seq<char>, at: int, c: ConfigModel) -> Option<(DocumentModel, int)> {
    let last = char_before(s, s.len() as int, at);
    recovered_from(s, last, last, c)
}

/// An error that leaves nothing to recover.
pub open spec fn hard_failure(kind: ErrorKindModel) -> bool {
    match kind {
        ErrorKindModel::DepthLimitExceeded => true,
        ErrorKindModel::EntityExpansionDepthLimitExceeded => true,
        ErrorKindModel::EntityExpansionSizeLimitExceeded => true,
        ErrorKindModel::EntityExpansionDisabled(_) => true,
        ErrorKindModel::EntityReplacementMarkupWithSourceOffsets => true,
        ErrorKindModel::ExternalEntityReference(_) => true,
        ErrorKindModel::UnsupportedEncoding(_) => true,
        _ => false,
    }
}

/// Does the error leave nothing to recover?
pub(crate) fn is_hard_tolerant_failure(kind: &XmlErrorKind) -> (r: bool)
    ensures
        r == hard_failure(kind@),
{
    match kind {
        XmlErrorKind::DepthLimitExceeded => true,
        XmlErrorKind::EntityExpansionDepthLimitExceeded => true,
        XmlErrorKind::EntityExpansionSizeLimitExceeded => true,
        XmlErrorKind::EntityExpansionDisabled(_) => true,
        XmlErrorKind::EntityReplacementMarkupWithSourceOffsets => true,
        XmlErrorKind::ExternalEntityReference(_) => true,
        XmlErrorKind::UnsupportedEncoding(_) => true,
        _ => false,
    }
}

/// Is `c` white space between words?
fn is_word_space(c: char) -> (r: bool)
    ensures
        r == word_space(c),
{
    c == ' ' || c == '\t' || c == '\n' || c == '\x0c' || c == '\r'
}

/// Finds the first word.
fn find_word(s: &[char]) -> (r: Option<(usize, usize)>)
    ensures
        match r {
            Some((from, to)) => from <= to <= s@.len() && first_word(s@) == Some(
                s@.subrange(from as int, to as int),
            ),
            None => first_word(s@) is None,
        },
{
    let mut from: usize = 0;
    while from < s.len() && is_word_space(s[from])
        invariant
            from <= s@.len(),
            word_start(s@, 0) == word_start(s@, from as int),
        decreases s@.len() - from,
    {
        from = from + 1;
    }
    let mut to: usize = from;
    while to < s.len() && !is_word_space(s[to])
        invariant
            from <= to <= s@.len(),
            word_end(s@, from as int) == word_end(s@, to as int),
        decreases s@.len() - to,
    {
        to = to + 1;
    }
    if from < to {
        Some((from, to))
    } else {
        None
    }
}

fn scan_tag_end(s: &[char], i: usize) -> (r: Option<usize>)
    requires
        i <= s@.len(),
    ensures
        match r {
            Some(k) => tag_end(s@, i as int, None) == Some(k as int) && i < k <= s@.len(),
            None => tag_end(s@, i as int, None) is None,
        },
{
    let mut quote: Option<char> = None;
    let mut k: usize = i;
    while k < s.len()
        invariant
            i <= k <= s@.len(),
            tag_end(s@, i as int, None) == tag_end(s@, k as int, quote),
        decreases s@.len() - k,
    {
        let c: char = s[k];
        match quote {
            Some(q) => {
                if c == q {
                    quote = None;
                }
            },
            None => {
                if c == '\'' || c == '"' {
                    quote = Some(c);
                } else if c == '>' {
                    return Some(k + 1);
                }
            },
        }
        k = k + 1;
    }
    None
}

fn scan_doctype_end(s: &[char], i: usize) -> (r: Option<usize>)
    requires
        i <= s@.len(),
    ensures
        match r {
            Some(k) => doctype_close(s@, i as int, None, 0) == Some(k as int) && i < k <= s@.len(),
            None => doctype_close(s@, i as int, None, 0) is None,
        },
{
    proof {
        reveal_strlit("<!--");
        reveal_strlit("-->");
        reveal_strlit("<?");
        reveal_strlit("?>");
    }
    let mut quote: Option<char> = None;
    let mut depth: usize = 0;
    let mut k: usize = i;
    while k < s.len()
        invariant
            i <= k <= s@.len(),
            depth <= k,
            "<!--"@.len() == 4,
            "-->"@.len() == 3,
            "<?"@.len() == 2,
            "?>"@.len() == 2,
            doctype_close(s@, i as int, None, 0) == doctype_close(
                s@,
                k as int,
                quote,
                depth as int,
            ),
        decreases s@.len() - k,
    {
        let c: char = s[k];
        match quote {
            Some(q) => {
                if c == q {
                    quote = None;
                }
                k = k + 1;
            },
            None => {
                if c == '\'' || c == '"' {
                    quote = Some(c);
                    k = k + 1;
                } else if starts_with(s, k, "<!--") {
                    match find_text(s, k + 4, "-->") {
                        None => {
                            return None;
                        },
                        Some(e) => {
                            k = e + 3;
                        },
                    }
                } else if starts_with(s, k, "<?") {
                    match find_text(s, k + 2, "?>") {
                        None => {
                            return None;
                        },
                        Some(e) => {
                            k = e + 2;
                        },
                    }
                } else if c == '[' {
                    depth = depth + 1;
                    k = k + 1;
                } else if c == ']' {
                    if depth > 0 {
                        depth = depth - 1;
                    }
                    k = k + 1;
                } else if c == '>' && depth == 0 {
                    return Some(k + 1);
                } else {
                    k = k + 1;
                }
            },
        }
    }
    None
}

/// The names in a list of ranges.
pub open spec fn range_texts(s: Seq<char>, v: Seq<(usize, usize)>) -> Seq<Seq<char>> {
    Seq::new(v.len(), |i: int| s.subrange(v[i].0 as int, v[i].1 as int))
}

/// The ranges lie in a text of `n` characters.
pub open spec fn ranges_within(v: Seq<(usize, usize)>, n: int) -> bool {
    forall|i: int| 0 <= i < v.len() ==> (#[trigger] v[i]).0 <= v[i].1 <= n
}

/// The range of the first word of the stripped `from..to`.
fn stripped_word(s: &[char], from: usize, to: usize) -> (r: Option<(usize, usize)>)
    requires
        from <= to <= s@.len(),
    ensures
        match r {
            Some((a, b)) => a <= b <= s@.len() && first_word(
                stripped(s@.subrange(from as int, to as int)),
            ) == Some(s@.subrange(a as int, b as int)),
            None => first_word(stripped(s@.subrange(from as int, to as int))) is None,
        },
{
    let body = slice_subrange(s, from, to);
    let (x, y) = strip(body);
    let inner = slice_subrange(body, x, y);
    proof {
        assert(s.len() == s@.len());
        assert(inner@ == stripped(body@));
    }
    match find_word(inner) {
        None => None,
        Some((a, b)) => {
            proof {
                assert(s@.subrange(from + x + a, from + x + b) =~= inner@.subrange(
                    a as int,
                    b as int,
                ));
            }
            Some((from + x + a, from + x + b))
        },
    }
}

/// The name in the start tag with content `from..to`, and whether the tag is empty.
fn start_tag_name(s: &[char], from: usize, to: usize) -> (r: Option<(usize, usize, bool)>)
    requires
        from <= to <= s@.len(),
    ensures
        ({
            let body = stripped(s@.subrange(from as int, to as int));
            let end = without_slashes(body, body.len() as int);
            match r {
                Some((a, b, empty)) => a <= b <= s@.len() && first_word(body.take(end)) == Some(
                    s@.subrange(a as int, b as int),
                ) && empty == (end < body.len()),
                None => first_word(body.take(end)) is None,
            }
        }),
{
    let body = slice_subrange(s, from, to);
    let (x, y) = strip(body);
    let inner = slice_subrange(body, x, y);
    proof {
        assert(s.len() == s@.len());
        assert(inner@ == stripped(body@));
    }
    let mut end: usize = inner.len();
    while end > 0 && inner[end - 1] == '/'
        invariant
            end <= inner@.len(),
            without_slashes(inner@, inner@.len() as int) == without_slashes(inner@, end as int),
        decreases end,
    {
        end = end - 1;
    }
    let word = slice_subrange(inner, 0, end);
    proof {
        assert(word@ =~= inner@.take(end as int));
    }
    match find_word(word) {
        None => None,
        Some((a, b)) => {
            proof {
                assert(s@.subrange(from + x + a, from + x + b) =~= word@.subrange(
                    a as int,
                    b as int,
                ));
            }
            Some((from + x + a, from + x + b, end < inner.len()))
        },
    }
}

/// The elements that are open at the end of `s`, and whether there was one.
#[verifier::rlimit(40)]
fn scan_recoverable_prefix(s: &[char]) -> (r: Option<(Vec<(usize, usize)>, bool)>)
    ensures
        match r {
            Some((open, seen)) => open_elements(s@, 0, Seq::empty(), false) == Some(
                (range_texts(s@, open@), seen),
            ) && ranges_within(open@, s@.len() as int),
            None => open_elements(s@, 0, Seq::empty(), false) is None,
        },
{
    proof {
        reveal_strlit("<!--");
        reveal_strlit("-->");
        reveal_strlit("<?");
        reveal_strlit("?>");
        reveal_strlit("<![CDATA[");
        reveal_strlit("]]>");
        reveal_strlit("<!DOCTYPE");
        reveal_strlit("</");
        reveal_strlit("<!");
    }
    let mut open: Vec<(usize, usize)> = Vec::new();
    let mut seen = false;
    let mut k: usize = 0;
    proof {
        assert(range_texts(s@, open@) =~= Seq::<Seq<char>>::empty());
    }
    while k < s.len()
        invariant
            k <= s@.len(),
            "<!--"@.len() == 4,
            "-->"@.len() == 3,
            "<?"@.len() == 2,
            "?>"@.len() == 2,
            "<![CDATA["@.len() == 9,
            "]]>"@.len() == 3,
            "<!DOCTYPE"@.len() == 9,
            "</"@.len() == 2,
            "</"@[0] == '<',
            "</"@[1] == '/',
            ranges_within(open@, s@.len() as int),
            open_elements(s@, 0, Seq::empty(), false) == open_elements(
                s@,
                k as int,
                range_texts(s@, open@),
                seen,
            ),
        decreases s@.len() - k,
    {
        if s[k] != '<' {
            k = k + 1;
        } else if starts_with(s, k, "<!--") {
            match find_text(s, k + 4, "-->") {
                None => {
                    return None;
                },
                Some(e) => {
                    k = e + 3;
                },
            }
        } else if starts_with(s, k, "<![CDATA[") {
            match find_text(s, k + 9, "]]>") {
                None => {
                    return None;
                },
                Some(e) => {
                    k = e + 3;
                },
            }
        } else if starts_with(s, k, "<?") {
            match find_text(s, k + 2, "?>") {
                None => {
                    return None;
                },
                Some(e) => {
                    k = e + 2;
                },
            }
        } else if starts_with(s, k, "<!DOCTYPE") {
            match scan_doctype_end(s, k + 9) {
                None => {
                    return None;
                },
                Some(e) => {
                    k = e;
                },
            }
        } else if starts_with(s, k, "</") {
            let e: usize = match scan_tag_end(s, k + 1) {
                None => {
                    return None;
                },
                Some(e) => e,
            };
            proof {
                lemma_end_tag_room(s@, k as int);
            }
            let (a, b) = match stripped_word(s, k + 2, e - 1) {
                None => {
                    return None;
                },
                Some(x) => x,
            };
            if open.len() == 0 {
                return None;
            }
            let (x, y) = open[open.len() - 1];
            if !same_chars(slice_subrange(s, x, y), slice_subrange(s, a, b)) {
                return None;
            }
            proof {
                assert(range_texts(s@, open@.drop_last()) =~= range_texts(s@, open@).drop_last());
            }
            let _ = open.pop();
            k = e;
        } else if starts_with(s, k, "<!") {
            return None;
        } else {
            let e: usize = match scan_tag_end(s, k + 1) {
                None => {
                    return None;
                },
                Some(e) => e,
            };
            let (a, b, empty) = match start_tag_name(s, k + 1, e - 1) {
                None => {
                    return None;
                },
                Some(x) => x,
            };
            seen = true;
            if !empty {
                let ghost before = open@;
                open.push((a, b));
                proof {
                    assert(range_texts(s@, open@) =~= range_texts(s@, before).push(
                        s@.subrange(a as int, b as int),
                    ));
                }
            }
            k = e;
        }
    }
    Some((open, seen))
}

/// An end tag closes behind its slash.
proof fn lemma_end_tag_room(s: Seq<char>, i: int)
    requires
        0 <= i,
        i + 1 < s.len(),
        s[i + 1] == '/',
        tag_end(s, i + 1, None) is Some,
    ensures
        tag_end(s, i + 1, None)->Some_0 > i + 2,
{
    lemma_tag_end_after(s, i + 2, None);
}

/// The end of a tag lies behind where the search starts.
proof fn lemma_tag_end_after(s: Seq<char>, i: int, quote: Option<char>)
    ensures
        tag_end(s, i, quote) matches Some(k) ==> k > i,
    decreases s.len() - i,
{
    if 0 <= i < s.len() {
        lemma_tag_end_after(s, i + 1, None);
        lemma_tag_end_after(s, i + 1, quote);
        lemma_tag_end_after(s, i + 1, Some(s[i]));
    }
}

/// Closes the open elements.
fn close_elements(s: &[char], open: &Vec<(usize, usize)>) -> (r: Vec<char>)
    requires
        ranges_within(open@, s@.len() as int),
    ensures
        r@ == closed_with(s@, range_texts(s@, open@), open@.len() as int),
{
    proof {
        reveal_strlit("</");
        reveal_strlit(">");
    }
    let ghost names = range_texts(s@, open@);
    let mut out: Vec<char> = Vec::new();
    push_between(&mut out, s, 0, s.len());
    proof {
        assert(out@ =~= s@);
    }
    let mut n: usize = open.len();
    while n > 0
        invariant
            n <= open@.len(),
            names == range_texts(s@, open@),
            ranges_within(open@, s@.len() as int),
            closed_with(s@, names, open@.len() as int) == closed_with(out@, names, n as int),
        decreases n,
    {
        let ghost before = out@;
        let (a, b) = open[n - 1];
        out.push('<');
        out.push('/');
        push_between(&mut out, s, a, b);
        out.push('>');
        proof {
            reveal_strlit("</");
            reveal_strlit(">");
            assert(names[n - 1] == s@.subrange(a as int, b as int));
            assert(out@ =~= before + "</"@ + names[n - 1] + ">"@);
        }
        n = n - 1;
    }
    out
}

/// The last character that starts at or before a byte.
pub(crate) fn floor_char(s: &[char], at: usize) -> (r: usize)
    ensures
        r == char_before(s@, s@.len() as int, at as int),
        r <= s@.len(),
        byte_offset(s@, r as int) <= at,
{
    let mut k: usize = 0;
    let mut bytes: usize = 0;
    while k < s.len()
        invariant
            k <= s@.len(),
            bytes <= at,
            bytes == byte_offset(s@, k as int),
        ensures
            k <= s@.len(),
            bytes <= at,
            bytes == byte_offset(s@, k as int),
            k == s@.len() || byte_offset(s@, k + 1) > at,
        decreases s@.len() - k,
    {
        let w: usize = char_width(s[k]);
        if w > at - bytes {
            break;
        }
        bytes = bytes + w;
        k = k + 1;
    }
    proof {
        crate::encoding::lemma_char_before(s@, s@.len() as int, at as int, k as int);
    }
    k
}

/// Closes the first `i` characters to a document.
fn recover_at(s: &[char], i: usize, config: ParserConfig) -> (r: Option<XmlCompactDocument>)
    requires
        i <= s@.len(),
    ensures
        match r {
            Some(d) => recovery_at(s@, i as int, config@) == Some(d@) && d.options() == config@,
            None => recovery_at(s@, i as int, config@) is None,
        },
{
    let start = slice_subrange(s, 0, i);
    proof {
        reveal(recovery_at);
        assert(start@ =~= s@.take(i as int));
    }
    match scan_recoverable_prefix(start) {
        None => None,
        Some((open, seen)) => {
            proof {
                assert(range_texts(start@, open@).len() == open@.len());
            }
            if !seen {
                return None;
            }
            let text = close_elements(start, &open);
            match parse_compact_document_with_config(string_of(text.as_slice()), config) {
                Ok(d) => Some(d),
                Err(_) => None,
            }
        },
    }
}

/// Recovers the longest start that can be closed to a document.
pub(crate) fn recover_compact_document_prefix(s: &[char], at: usize, config: ParserConfig) -> (r:
    Option<(XmlCompactDocument, usize)>)
    ensures
        match r {
            Some((d, k)) => recovered(s@, at as int, config@) == Some((d@, k as int)) && k
                <= s@.len() && d.options() == config@ && byte_offset(s@, k as int) <= at,
            None => recovered(s@, at as int, config@) is None,
        },
{
    let last: usize = floor_char(s, at);
    let mut i: usize = last;
    loop
        invariant
            i <= last <= s@.len(),
            byte_offset(s@, last as int) <= at,
            last == char_before(s@, s@.len() as int, at as int),
            recovered(s@, at as int, config@) == recovered_from(
                s@,
                i as int,
                last as int,
                config@,
            ),
        decreases i,
    {
        if i == last || s[i] == '<' || s[i] == '&' {
            if let Some(d) = recover_at(s, i, config) {
                proof {
                    lemma_byte_offset_monotone(s@, i as int, last as int);
                }
                return Some((d, i));
            }
        }
        if i == 0 {
            return None;
        }
        i = i - 1;
    }
}

} // verus!
