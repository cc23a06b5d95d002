//! What a tolerant parse keeps of a broken text.

use vstd::prelude::*;

use crate::compact::compact_parse;
use crate::config::ConfigModel;
use crate::document::DocumentModel;
use crate::encoding::{lemma_char_before, strip_end, strip_start, stripped, white_space};
use crate::error::{ErrorKindModel, ErrorModel};
use crate::parser::{tolerant_parse, OutcomeModel};
use crate::readback::lemma_find;
use crate::recovery::{
    closed_with, first_word, hard_failure, open_elements, recovered, recovered_from, recovery_at,
    tag_end, without_slashes, word_end, word_space,
};
use crate::syntax::{name_part, valid_name};
use crate::text::{byte_len, byte_offset, starts_at};
use crate::unescape::{lemma_starts_index, lemma_starts_split};

verus! {

/// A place where the text may be cut: where the strict parse failed, or before a character that
/// opens a tag or a reference.
pub open spec fn cut(s: Seq<char>, j: int, last: int) -> bool {
    0 <= j <= last && (j == last || s[j] == '<' || s[j] == '&')
}

/// The search finds the last place that will do.
proof fn lemma_longest(s: Seq<char>, i: int, last: int, c: ConfigModel)
    requires
        -1 <= i <= last <= s.len(),
    ensures
        match recovered_from(s, i, last, c) {
            Some((m, k)) => {
                &&& k <= i
                &&& cut(s, k, last)
                &&& recovery_at(s, k, c) == Some(m)
                &&& forall|j: int|
                    k < j <= i && #[trigger] cut(s, j, last) ==> recovery_at(s, j, c) is None
            },
            None => forall|j: int|
                j <= i && #[trigger] cut(s, j, last) ==> recovery_at(s, j, c) is None,
        },
    decreases i + 1,
{
    if i >= 0 {
        lemma_longest(s, i - 1, last, c);
        if i < last || i < s.len() {
            assert(cut(s, i, last) == (i == last || s[i] == '<' || s[i] == '&'));
        }
    }
}

/// What is recovered of a text that failed at a character is the longest start that can be closed
/// to a document among those that end there, or before a `<` or a `&`: if the whole text up to
/// there can be closed, that is what is recovered, and no longer start than the one that is
/// returned can be closed. Nothing is recovered only if none of them can be closed.
pub proof fn lemma_recovery_is_maximal(s: Seq<char>, last: int, c: ConfigModel)
    requires
        0 <= last <= s.len(),
    ensures
        ({
            let found = recovered(s, byte_offset(s, last) as int, c);
            &&& recovery_at(s, last, c) matches Some(m) ==> found == Some((m, last))
            &&& match found {
                Some((m, k)) => {
                    &&& cut(s, k, last)
                    &&& recovery_at(s, k, c) == Some(m)
                    &&& forall|j: int|
                        k < j <= last && #[trigger] cut(s, j, last) ==> recovery_at(s, j, c) is None
                },
                None => forall|j: int| #[trigger] cut(s, j, last) ==> recovery_at(s, j, c) is None,
            }
        }),
{
    assert(last < s.len() ==> byte_offset(s, last + 1) == byte_offset(s, last)
        + crate::text::utf8_width(s[last]));
    lemma_char_before(s, s.len() as int, byte_offset(s, last) as int, last);
    lemma_longest(s, last, last, c);
    assert(cut(s, last, last));
}

/// A tolerant parse of a text that parses has no diagnostic and keeps everything. Of one that
/// does not parse it keeps the document that the longest start is, says how many bytes the start
/// has, and gives the strict error as the diagnostic; if all up to the place of the error can be
/// closed, as many bytes are kept as the error says.
pub proof fn lemma_tolerant_parse_is_maximal(s: Seq<char>, last: int, c: ConfigModel)
    requires
        0 <= last <= s.len(),
    ensures
        compact_parse(s, c) matches Ok(m) ==> tolerant_parse(s, c) == Ok::<
            OutcomeModel<DocumentModel>,
            ErrorModel,
        >(OutcomeModel { value: m, diagnostic: None, consumed: byte_len(s) as int }),
        compact_parse(s, c) matches Err(e) ==> (!hard_failure(e.kind) && e.byte == byte_offset(
            s,
            last,
        ) ==> match tolerant_parse(s, c) {
            Ok(o) => {
                &&& o.diagnostic == Some(e)
                &&& exists|k: int| #[trigger]
                    cut(s, k, last) && o.consumed == byte_offset(s, k) && recovery_at(s, k, c)
                        == Some(o.value) && forall|j: int|
                        k < j <= last && #[trigger] cut(s, j, last) ==> recovery_at(s, j, c) is None
                &&& recovery_at(s, last, c) matches Some(m) ==> o.value == m && o.consumed == e.byte
            },
            Err(x) => x == e && forall|j: int| #[trigger]
                cut(s, j, last) ==> recovery_at(s, j, c) is None,
        }),
{
    lemma_recovery_is_maximal(s, last, c);
    if let Err(e) = compact_parse(s, c) {
        if !hard_failure(e.kind) && e.byte == byte_offset(s, last) {
            if let Some((m, k)) = recovered(s, e.byte, c) {
                assert(cut(s, k, last));
            }
        }
    }
}

/// The errors that leave nothing to recover are those of limits and policies: they are given as
/// they are. Every error of the text itself lets a start be kept.
pub proof fn lemma_errors_that_are_final(s: Seq<char>, c: ConfigModel, kind: ErrorKindModel)
    ensures
        hard_failure(kind) <==> (kind is DepthLimitExceeded || kind
            is EntityExpansionDepthLimitExceeded || kind is EntityExpansionSizeLimitExceeded || kind
            is EntityExpansionDisabled || kind is EntityReplacementMarkupWithSourceOffsets || kind
            is ExternalEntityReference || kind is UnsupportedEncoding),
        compact_parse(s, c) matches Err(e) ==> (hard_failure(e.kind) ==> tolerant_parse(s, c)
            == Err::<OutcomeModel<DocumentModel>, ErrorModel>(e)),
{
}

/// A start with open elements is closed by end tags behind it, the innermost element first, and
/// parsed; without a tag in it nothing is recovered of it.
pub proof fn lemma_start_is_closed(
    s: Seq<char>,
    i: int,
    c: ConfigModel,
    open: Seq<Seq<char>>,
    seen: bool,
)
    requires
        0 <= i <= s.len(),
        open_elements(s.take(i), 0, Seq::empty(), false) == Some((open, seen)),
    ensures
        recovery_at(s, i, c) == (match compact_parse(
            closed_with(s.take(i), open, open.len() as int),
            c,
        ) {
            Ok(m) => if seen {
                Some(m)
            } else {
                None
            },
            Err(_) => None,
        }),
{
    reveal(recovery_at);
}

/// One more open element is closed first.
pub proof fn lemma_innermost_is_closed_first(s: Seq<char>, open: Seq<Seq<char>>, n: Seq<char>)
    ensures
        closed_with(s, Seq::empty(), 0) == s,
        closed_with(s, open.push(n), open.len() as int + 1) == closed_with(
            s + "</"@ + n + ">"@,
            open,
            open.len() as int,
        ),
{
    lemma_same_open(s + "</"@ + n + ">"@, open.push(n), open, open.len() as int);
}

/// Only the elements that are closed matter.
proof fn lemma_same_open(s: Seq<char>, a: Seq<Seq<char>>, b: Seq<Seq<char>>, n: int)
    requires
        0 <= n <= a.len(),
        n <= b.len(),
        forall|i: int| 0 <= i < n ==> a[i] == b[i],
    ensures
        closed_with(s, a, n) == closed_with(s, b, n),
    decreases n,
{
    if n > 0 {
        lemma_same_open(s + "</"@ + a[n - 1] + ">"@, a, b, n - 1);
    }
}

/// A character outside of tags opens and closes nothing.
pub proof fn lemma_text_is_passed(
    s: Seq<char>,
    i: int,
    j: int,
    open: Seq<Seq<char>>,
    seen: bool,
)
    requires
        0 <= i <= j <= s.len(),
        forall|k: int| i <= k < j ==> #[trigger] s[k] != '<',
    ensures
        open_elements(s, i, open, seen) == open_elements(s, j, open, seen),
    decreases j - i,
{
    if i < j {
        lemma_text_is_passed(s, i + 1, j, open, seen);
    }
}

/// A comment, an instruction and a CDATA section open and close nothing.
pub proof fn lemma_sections_are_passed(
    s: Seq<char>,
    i: int,
    t: Seq<char>,
    open: Seq<Seq<char>>,
    seen: bool,
)
    ensures
        starts_at(s, i, "<!--"@ + t + "-->"@) && (forall|j: int|
            i + 4 <= j < i + 4 + t.len() ==> !#[trigger] starts_at(s, j, "-->"@))
            ==> open_elements(s, i, open, seen) == open_elements(
            s,
            i + t.len() + 7,
            open,
            seen,
        ),
        starts_at(s, i, "<![CDATA["@ + t + "]]>"@) && (forall|j: int|
            i + 9 <= j < i + 9 + t.len() ==> !#[trigger] starts_at(s, j, "]]>"@))
            ==> open_elements(s, i, open, seen) == open_elements(
            s,
            i + t.len() + 12,
            open,
            seen,
        ),
        starts_at(s, i, "<?"@ + t + "?>"@) && (forall|j: int|
            i + 2 <= j < i + 2 + t.len() ==> !#[trigger] starts_at(s, j, "?>"@))
            ==> open_elements(s, i, open, seen) == open_elements(
            s,
            i + t.len() + 4,
            open,
            seen,
        ),
{
    reveal_strlit("<!--");
    reveal_strlit("-->");
    reveal_strlit("<![CDATA[");
    reveal_strlit("]]>");
    reveal_strlit("<?");
    reveal_strlit("?>");
    if starts_at(s, i, "<!--"@ + t + "-->"@) {
        lemma_starts_split(s, i, "<!--"@ + t, "-->"@);
        lemma_starts_split(s, i, "<!--"@, t);
        lemma_char_at(s, i, "<!--"@, 0);
        if forall|j: int| i + 4 <= j < i + 4 + t.len() ==> !#[trigger] starts_at(s, j, "-->"@) {
            lemma_find(s, i + 4, i + 4 + t.len(), "-->"@);
        }
    }
    if starts_at(s, i, "<![CDATA["@ + t + "]]>"@) {
        lemma_starts_split(s, i, "<![CDATA["@ + t, "]]>"@);
        lemma_starts_split(s, i, "<![CDATA["@, t);
        lemma_char_at(s, i, "<![CDATA["@, 0);
        lemma_char_at(s, i, "<![CDATA["@, 2);
        if starts_at(s, i, "<!--"@) {
            lemma_char_at(s, i, "<!--"@, 2);
        }
        if forall|j: int| i + 9 <= j < i + 9 + t.len() ==> !#[trigger] starts_at(s, j, "]]>"@) {
            lemma_find(s, i + 9, i + 9 + t.len(), "]]>"@);
        }
    }
    if starts_at(s, i, "<?"@ + t + "?>"@) {
        lemma_starts_split(s, i, "<?"@ + t, "?>"@);
        lemma_starts_split(s, i, "<?"@, t);
        lemma_char_at(s, i, "<?"@, 0);
        lemma_char_at(s, i, "<?"@, 1);
        lemma_other_opening(s, i);
        if forall|j: int| i + 2 <= j < i + 2 + t.len() ==> !#[trigger] starts_at(s, j, "?>"@) {
            lemma_find(s, i + 2, i + 2 + t.len(), "?>"@);
        }
    }
}

/// A character of a text that stands at `i`.
proof fn lemma_char_at(s: Seq<char>, i: int, t: Seq<char>, k: int)
    requires
        starts_at(s, i, t),
        0 <= k < t.len(),
    ensures
        0 <= i,
        i + t.len() <= s.len(),
        s[i + k] == t[k],
{
    lemma_starts_index(s, i, t);
    assert(t[k] == s[i + k]);
}

/// What does not go on with an exclamation mark is no comment, section or declaration.
proof fn lemma_other_opening(s: Seq<char>, i: int)
    requires
        0 <= i,
        i + 1 < s.len(),
        s[i + 1] != '!',
    ensures
        !starts_at(s, i, "<!--"@),
        !starts_at(s, i, "<![CDATA["@),
        !starts_at(s, i, "<!DOCTYPE"@),
        !starts_at(s, i, "<!"@),
        s[i + 1] != '?' ==> !starts_at(s, i, "<?"@),
        s[i + 1] != '/' ==> !starts_at(s, i, "</"@),
{
    reveal_strlit("<!--");
    reveal_strlit("<![CDATA[");
    reveal_strlit("<!DOCTYPE");
    reveal_strlit("<!");
    reveal_strlit("<?");
    reveal_strlit("</");
    if starts_at(s, i, "<!--"@) {
        lemma_char_at(s, i, "<!--"@, 1);
    }
    if starts_at(s, i, "<![CDATA["@) {
        lemma_char_at(s, i, "<![CDATA["@, 1);
    }
    if starts_at(s, i, "<!DOCTYPE"@) {
        lemma_char_at(s, i, "<!DOCTYPE"@, 1);
    }
    if starts_at(s, i, "<!"@) {
        lemma_char_at(s, i, "<!"@, 1);
    }
    if starts_at(s, i, "<?"@) {
        lemma_char_at(s, i, "<?"@, 1);
    }
    if starts_at(s, i, "</"@) {
        lemma_char_at(s, i, "</"@, 1);
    }
}

/// A name that ends in no space.
pub open spec fn tag_name(n: Seq<char>) -> bool {
    valid_name(n) && !n.contains('\u{1680}')
}

proof fn lemma_tag_name(n: Seq<char>, k: int)
    requires
        tag_name(n),
        0 <= k < n.len(),
    ensures
        !word_space(n[k]),
        !white_space(n[k]),
        n[k] != '>',
        n[k] != '\'',
        n[k] != '"',
        n[k] != '/',
        n[k] != '!',
        n[k] != '?',
        n[k] != '<',
{
    assert(n.contains(n[k]));
    assert(name_part(n[k]));
    lemma_name_character(n[k]);
}

proof fn lemma_name_character(c: char)
    requires
        name_part(c),
        c != '\u{1680}',
    ensures
        !word_space(c),
        !white_space(c),
        c != '>' && c != '\'' && c != '"' && c != '/' && c != '!' && c != '?' && c != '<',
{
}

/// What stands behind the name in a tag: quotation marks pair up, and `>` stands only between
/// them.
pub open spec fn paired(r: Seq<char>, k: int, quote: Option<char>) -> bool
    decreases r.len() - k,
{
    if k < 0 || k >= r.len() {
        quote is None
    } else {
        match quote {
            Some(q) => paired(
                r,
                k + 1,
                if r[k] == q {
                    None
                } else {
                    quote
                },
            ),
            None => r[k] != '>' && paired(
                r,
                k + 1,
                if r[k] == '\'' || r[k] == '"' {
                    Some(r[k])
                } else {
                    None
                },
            ),
        }
    }
}

proof fn lemma_paired(s: Seq<char>, i: int, r: Seq<char>, k: int, quote: Option<char>)
    requires
        starts_at(s, i, r),
        0 <= k <= r.len(),
        paired(r, k, quote),
    ensures
        tag_end(s, i + k, quote) == tag_end(s, i + r.len(), None),
    decreases r.len() - k,
{
    if k < r.len() {
        lemma_starts_index(s, i, r);
        assert(r[k] == s[i + k]);
        match quote {
            Some(q) => {
                lemma_paired(
                    s,
                    i,
                    r,
                    k + 1,
                    if r[k] == q {
                        None
                    } else {
                        quote
                    },
                );
            },
            None => {
                lemma_paired(
                    s,
                    i,
                    r,
                    k + 1,
                    if r[k] == '\'' || r[k] == '"' {
                        Some(r[k])
                    } else {
                        None
                    },
                );
            },
        }
    }
}

proof fn lemma_name_paired(n: Seq<char>, k: int)
    requires
        tag_name(n),
        0 <= k <= n.len(),
    ensures
        paired(n, k, None),
    decreases n.len() - k,
{
    if k < n.len() {
        lemma_tag_name(n, k);
        lemma_name_paired(n, k + 1);
    }
}

/// A name at the start of a text is its first word.
proof fn lemma_first_word(n: Seq<char>, r: Seq<char>)
    requires
        tag_name(n),
        r.len() > 0 ==> word_space(r[0]),
    ensures
        first_word(n + r) == Some(n),
{
    let b = n + r;
    assert(b[0] == n[0]);
    lemma_tag_name(n, 0);
    lemma_word_end(n, r, 0);
    assert(b.subrange(0, n.len() as int) =~= n);
}

proof fn lemma_word_end(n: Seq<char>, r: Seq<char>, k: int)
    requires
        tag_name(n),
        r.len() > 0 ==> word_space(r[0]),
        0 <= k <= n.len(),
    ensures
        word_end(n + r, k) == n.len(),
    decreases n.len() - k,
{
    let b = n + r;
    if k < n.len() {
        assert(b[k] == n[k]);
        lemma_tag_name(n, k);
        lemma_word_end(n, r, k + 1);
    } else if r.len() > 0 {
        assert(b[k] == r[0]);
    }
}

/// What starts and ends without white space is not stripped.
proof fn lemma_not_stripped(b: Seq<char>)
    requires
        b.len() > 0,
        !white_space(b[0]),
        !white_space(b.last()),
    ensures
        stripped(b) == b,
{
    assert(strip_start(b, 0) == 0);
    assert(strip_end(b, 0, b.len() as int) == b.len());
    assert(b.subrange(0, b.len() as int) =~= b);
}

/// A start tag opens the element that it names: `r`, if there is anything behind the name, starts
/// with a space and ends with neither white space nor a slash.
pub proof fn lemma_start_tag_opens(
    s: Seq<char>,
    i: int,
    n: Seq<char>,
    r: Seq<char>,
    open: Seq<Seq<char>>,
    seen: bool,
)
    requires
        tag_name(n),
        starts_at(s, i, seq!['<'] + n + r + seq!['>']),
        paired(r, 0, None),
        r.len() > 0 ==> r[0] == ' ' && !white_space(r.last()) && r.last() != '/',
    ensures
        open_elements(s, i, open, seen) == open_elements(
            s,
            i + n.len() + r.len() + 2,
            open.push(n),
            true,
        ),
{
    let k = i + n.len() + r.len() + 2;
    let body = n + r;
    lemma_starts_split(s, i, seq!['<'] + n + r, seq!['>']);
    lemma_starts_split(s, i, seq!['<'] + n, r);
    lemma_starts_split(s, i, seq!['<'], n);
    lemma_char_at(s, i, seq!['<'], 0);
    lemma_char_at(s, i + 1, n, 0);
    lemma_starts_index(s, i + 1, n);
    lemma_starts_index(s, i + 1 + n.len(), r);
    lemma_char_at(s, k - 1, seq!['>'], 0);
    lemma_tag_name(n, 0);
    lemma_tag_name(n, n.len() - 1);
    lemma_other_opening(s, i);
    lemma_name_paired(n, 0);
    lemma_paired(s, i + 1, n, 0, None);
    lemma_paired(s, i + 1 + n.len(), r, 0, None);
    assert(tag_end(s, i + 1, None) == Some(k));
    assert(s.subrange(i + 1, k - 1) =~= body) by {
        assert forall|m: int|
            0 <= m < body.len() implies s.subrange(i + 1, k - 1)[m] == body[m] by {
            if m < n.len() {
                assert(n[m] == s[i + 1 + m]);
            } else {
                assert(s[i + 1 + n.len() + (m - n.len())] == r[m - n.len()]);
            }
        }
    }
    assert(body[0] == n[0]);
    assert(body.last() == if r.len() > 0 {
        r.last()
    } else {
        n.last()
    });
    lemma_not_stripped(body);
    assert(without_slashes(body, body.len() as int) == body.len());
    assert(body.take(body.len() as int) =~= body);
    lemma_first_word(n, r);
}

/// An empty-element tag opens nothing.
pub proof fn lemma_empty_tag_opens_nothing(
    s: Seq<char>,
    i: int,
    n: Seq<char>,
    open: Seq<Seq<char>>,
    seen: bool,
)
    requires
        tag_name(n),
        starts_at(s, i, seq!['<'] + n + "/>"@),
    ensures
        open_elements(s, i, open, seen) == open_elements(s, i + n.len() + 3, open, true),
{
    reveal_strlit("/>");
    let r = seq!['/'];
    let k = i + n.len() + 3;
    let body = n + r;
    assert(seq!['<'] + n + "/>"@ =~= seq!['<'] + n + r + seq!['>']);
    lemma_starts_split(s, i, seq!['<'] + n + r, seq!['>']);
    lemma_starts_split(s, i, seq!['<'] + n, r);
    lemma_starts_split(s, i, seq!['<'], n);
    lemma_char_at(s, i, seq!['<'], 0);
    lemma_char_at(s, i + 1, n, 0);
    lemma_starts_index(s, i + 1, n);
    lemma_starts_index(s, i + 1 + n.len(), r);
    lemma_char_at(s, k - 1, seq!['>'], 0);
    lemma_char_at(s, i + 1 + n.len(), r, 0);
    lemma_tag_name(n, 0);
    lemma_tag_name(n, n.len() - 1);
    lemma_other_opening(s, i);
    lemma_name_paired(n, 0);
    assert(paired(r, 1, None));
    assert(paired(r, 0, None));
    lemma_paired(s, i + 1, n, 0, None);
    lemma_paired(s, i + 1 + n.len(), r, 0, None);
    assert(tag_end(s, i + 1, None) == Some(k));
    assert(s.subrange(i + 1, k - 1) =~= body) by {
        assert forall|m: int|
            0 <= m < body.len() implies s.subrange(i + 1, k - 1)[m] == body[m] by {
            if m < n.len() {
                assert(n[m] == s[i + 1 + m]);
            }
        }
    }
    assert(body[0] == n[0]);
    assert(body.last() == '/');
    lemma_not_stripped(body);
    assert(body[n.len() - 1] == n[n.len() - 1]);
    assert(without_slashes(body, n.len() as int) == n.len());
    assert(without_slashes(body, body.len() as int) == n.len());
    assert(body.take(n.len() as int) =~= n + Seq::<char>::empty());
    lemma_first_word(n, Seq::empty());
}

/// An end tag closes the innermost element if it names it, and no start with another end tag can
/// be closed.
pub proof fn lemma_end_tag_closes(
    s: Seq<char>,
    i: int,
    n: Seq<char>,
    open: Seq<Seq<char>>,
    seen: bool,
)
    requires
        tag_name(n),
        starts_at(s, i, "</"@ + n + ">"@),
    ensures
        open_elements(s, i, open, seen) == (if open.len() > 0 && open.last() == n {
            open_elements(s, i + n.len() + 3, open.drop_last(), seen)
        } else {
            None
        }),
{
    reveal_strlit("</");
    reveal_strlit(">");
    let k = i + n.len() + 3;
    lemma_starts_split(s, i, "</"@ + n, ">"@);
    lemma_starts_split(s, i, "</"@, n);
    lemma_char_at(s, i, "</"@, 0);
    lemma_char_at(s, i, "</"@, 1);
    lemma_starts_index(s, i + 2, n);
    lemma_char_at(s, k - 1, ">"@, 0);
    lemma_other_opening(s, i);
    lemma_name_paired(n, 0);
    lemma_paired(s, i + 2, n, 0, None);
    assert(tag_end(s, i + 1, None) == tag_end(s, i + 2, None));
    assert(tag_end(s, i + 1, None) == Some(k));
    assert(s.subrange(i + 2, k - 1) =~= n) by {
        assert forall|m: int| 0 <= m < n.len() implies s.subrange(i + 2, k - 1)[m] == n[m] by {
            assert(s[i + 2 + m] == n[m]);
        }
    }
    lemma_tag_name(n, 0);
    lemma_tag_name(n, n.len() - 1);
    lemma_not_stripped(n);
    assert(n + Seq::<char>::empty() =~= n);
    lemma_first_word(n, Seq::empty());
}

/// Start tags one behind the other, each with a text behind it.
pub open spec fn opening(names: Seq<Seq<char>>, texts: Seq<Seq<char>>) -> Seq<char>
    decreases names.len(),
{
    if names.len() == 0 || texts.len() != names.len() {
        Seq::empty()
    } else {
        opening(names.drop_last(), texts.drop_last()) + (seq!['<'] + names.last() + seq!['>'])
            + texts.last()
    }
}

/// The end tags for them, the innermost first.
pub open spec fn ending(names: Seq<Seq<char>>) -> Seq<char>
    decreases names.len(),
{
    if names.len() == 0 {
        Seq::empty()
    } else {
        "</"@ + names.last() + ">"@ + ending(names.drop_last())
    }
}

/// The names and texts are those of tags and of what stands between them.
pub open spec fn nested(names: Seq<Seq<char>>, texts: Seq<Seq<char>>) -> bool {
    &&& texts.len() == names.len()
    &&& forall|i: int| 0 <= i < names.len() ==> tag_name(#[trigger] names[i])
    &&& forall|i: int| 0 <= i < texts.len() ==> !(#[trigger] texts[i]).contains('<')
}

proof fn lemma_opening_scanned(names: Seq<Seq<char>>, texts: Seq<Seq<char>>, s: Seq<char>)
    requires
        nested(names, texts),
        starts_at(s, 0, opening(names, texts)),
    ensures
        open_elements(s, 0, Seq::empty(), false) == open_elements(
            s,
            opening(names, texts).len() as int,
            names,
            names.len() > 0,
        ),
    decreases names.len(),
{
    if names.len() == 0 {
        assert(names =~= Seq::<Seq<char>>::empty());
    } else {
        let n = names.last();
        let t = texts.last();
        let before = opening(names.drop_last(), texts.drop_last());
        let tag = seq!['<'] + n + seq!['>'];
        assert(tag_name(names[names.len() - 1]));
        assert(!texts[texts.len() - 1].contains('<'));
        lemma_starts_split(s, 0, before + tag, t);
        lemma_starts_split(s, 0, before, tag);
        assert(nested(names.drop_last(), texts.drop_last())) by {
            assert forall|i: int| 0 <= i < names.drop_last().len() implies tag_name(
                #[trigger] names.drop_last()[i],
            ) by {
                assert(tag_name(names[i]));
            }
            assert forall|i: int| 0 <= i < texts.drop_last().len() implies !(
            #[trigger] texts.drop_last()[i]).contains('<') by {
                assert(!texts[i].contains('<'));
            }
        }
        lemma_opening_scanned(names.drop_last(), texts.drop_last(), s);
        let i = before.len() as int;
        let r = Seq::<char>::empty();
        assert(seq!['<'] + n + r + seq!['>'] =~= tag);
        lemma_start_tag_opens(s, i, n, r, names.drop_last(), names.drop_last().len() > 0);
        assert(names.drop_last().push(n) =~= names);
        let j = i + tag.len();
        lemma_starts_index(s, j, t);
        assert forall|k: int| j <= k < j + t.len() implies #[trigger] s[k] != '<' by {
            assert(t[k - j] == s[j + (k - j)]);
            assert(t.contains(t[k - j]));
        }
        lemma_text_is_passed(s, j, j + t.len(), names, true);
    }
}

proof fn lemma_ending(s: Seq<char>, names: Seq<Seq<char>>)
    ensures
        closed_with(s, names, names.len() as int) == s + ending(names),
    decreases names.len(),
{
    if names.len() > 0 {
        let n = names.last();
        let open = names.drop_last();
        assert(open.push(n) =~= names);
        lemma_innermost_is_closed_first(s, open, n);
        lemma_ending(s + "</"@ + n + ">"@, open);
        assert(s + "</"@ + n + ">"@ + ending(open) =~= s + ending(names));
    } else {
        assert(s + ending(names) =~= s);
    }
}

/// A text that ends while elements are open is kept whole: what is recovered of it is the document
/// that it is with the end tags that are missing, the innermost first, if that is one.
pub proof fn lemma_open_elements_are_closed(
    names: Seq<Seq<char>>,
    texts: Seq<Seq<char>>,
    c: ConfigModel,
)
    requires
        nested(names, texts),
        names.len() > 0,
    ensures
        ({
            let s = opening(names, texts);
            compact_parse(s + ending(names), c) matches Ok(m) ==> {
                &&& recovery_at(s, s.len() as int, c) == Some(m)
                &&& recovered(s, byte_len(s) as int, c) == Some((m, s.len() as int))
                &&& compact_parse(s, c) matches Err(e) ==> (e.byte == byte_len(s) && !hard_failure(
                    e.kind,
                ) ==> tolerant_parse(s, c) == Ok::<OutcomeModel<DocumentModel>, ErrorModel>(
                    OutcomeModel {
                        value: m,
                        diagnostic: Some(e),
                        consumed: byte_len(s) as int,
                    },
                ))
            }
        }),
{
    let s = opening(names, texts);
    let end = s.len() as int;
    assert(s.subrange(0, end) =~= s);
    assert(s.take(end) =~= s);
    lemma_opening_scanned(names, texts, s);
    assert(open_elements(s, end, names, true) == Some((names, true)));
    lemma_start_is_closed(s, end, c, names, true);
    lemma_ending(s, names);
    lemma_recovery_is_maximal(s, end, c);
}

} // verus!
