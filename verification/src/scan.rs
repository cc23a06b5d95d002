//! Small readers shared by the document grammar and the document type grammar.
//!
//! A reader takes a text and a position and returns the position behind what it read, or the
//! fault that stopped it.

use vstd::prelude::*;
use vstd::string::*;
use vstd::slice::slice_subrange;

use crate::error::{fault, ErrorKindModel, Fault, FaultModel, Read, XmlErrorKind};
use crate::syntax::{
    is_name_char, is_name_start_char, is_space, is_xml_target_slice, name_part, name_start, space,
    xml_target,
};
use crate::text::{contains_text, find_from, find_text, has_text, starts_at, starts_with};

verus! {

/// The reader returned what `m` says, and a position from `lo` to `hi`.
pub open spec fn agrees(r: Result<usize, Fault>, m: Read<int>, lo: int, hi: int) -> bool {
    match r {
        Ok(k) => m == Ok::<int, FaultModel>(k as int) && lo <= k <= hi,
        Err(f) => m == Err::<int, FaultModel>(f@) && f.at <= hi,
    }
}

/// The end of the white space at `i`.
pub open spec fn space_end(s: Seq<char>, i: int) -> int
    decreases s.len() - i,
{
    if 0 <= i < s.len() && space(s[i]) {
        space_end(s, i + 1)
    } else {
        i
    }
}

/// White space must stand at `i`.
pub open spec fn required_space(s: Seq<char>, i: int) -> Read<int> {
    if 0 <= i < s.len() && space(s[i]) {
        Ok(space_end(s, i))
    } else {
        fault(ErrorKindModel::Expected("whitespace"@), i)
    }
}

/// The end of the name characters at `i`.
pub open spec fn name_part_end(s: Seq<char>, i: int) -> int
    decreases s.len() - i,
{
    if 0 <= i < s.len() && name_part(s[i]) {
        name_part_end(s, i + 1)
    } else {
        i
    }
}

/// A name at `i`.
pub open spec fn name_end(s: Seq<char>, i: int) -> Read<int> {
    if i >= s.len() {
        fault(ErrorKindModel::UnexpectedEof, i)
    } else if !name_start(s[i]) {
        fault(ErrorKindModel::InvalidName, i)
    } else {
        Ok(name_part_end(s, i + 1))
    }
}

/// A name token at `i`.
pub open spec fn nmtoken_end(s: Seq<char>, i: int) -> Read<int> {
    if i >= s.len() {
        fault(ErrorKindModel::UnexpectedEof, i)
    } else if !name_part(s[i]) {
        fault(ErrorKindModel::InvalidName, i)
    } else {
        Ok(name_part_end(s, i + 1))
    }
}

/// The text `t` at `i`.
pub open spec fn expected(s: Seq<char>, i: int, t: Seq<char>) -> Read<int> {
    if starts_at(s, i, t) {
        Ok(i + t.len())
    } else {
        fault(ErrorKindModel::Expected(t), i)
    }
}

/// The keyword `t` at `i`, not followed by a further name character.
pub open spec fn keyword_at(s: Seq<char>, i: int, t: Seq<char>) -> bool {
    starts_at(s, i, t) && !(i + t.len() < s.len() && name_part(s[i + t.len()]))
}

/// A malformed comment text.
pub open spec fn bad_comment(t: Seq<char>) -> bool {
    contains_text(t, "--"@) || (t.len() > 0 && t.last() == '-')
}

/// The comment at `i`.
pub open spec fn comment_end(s: Seq<char>, i: int) -> Read<int> {
    match expected(s, i, "<!--"@) {
        Err(f) => Err(f),
        Ok(start) => match find_from(s, start, "-->"@) {
            None => fault(ErrorKindModel::UnexpectedEof, start),
            Some(end) => if bad_comment(s.subrange(start, end)) {
                fault(ErrorKindModel::InvalidComment, start)
            } else {
                Ok(end + 3)
            },
        },
    }
}

/// The end of the target of the processing instruction at `i`.
pub open spec fn target_end(s: Seq<char>, i: int) -> Read<int> {
    match expected(s, i, "<?"@) {
        Err(f) => Err(f),
        Ok(start) => match name_end(s, start) {
            Err(f) => Err(f),
            Ok(end) => if xml_target(s.subrange(start, end)) {
                fault(ErrorKindModel::InvalidProcessingInstructionTarget, end)
            } else {
                Ok(end)
            },
        },
    }
}

/// The data of an instruction whose target ends at `i`: its start.
pub open spec fn instruction_data_start(s: Seq<char>, i: int) -> Read<int> {
    if starts_at(s, i, "?>"@) {
        Ok(i)
    } else {
        required_space(s, i)
    }
}

/// The end of an instruction whose data starts at `i`.
pub open spec fn instruction_tail_end(s: Seq<char>, i: int) -> Read<int> {
    match find_from(s, i, "?>"@) {
        None => fault(ErrorKindModel::UnexpectedEof, i),
        Some(end) => Ok(end + 2),
    }
}

/// The processing instruction at `i`.
pub open spec fn instruction_end(s: Seq<char>, i: int) -> Read<int> {
    match target_end(s, i) {
        Err(f) => Err(f),
        Ok(end) => match instruction_data_start(s, end) {
            Err(f) => Err(f),
            Ok(data) => instruction_tail_end(s, data),
        },
    }
}

/// Skips the white space at `i`.
pub(crate) fn skip_space(s: &[char], i: usize) -> (r: usize)
    requires
        i <= s@.len(),
    ensures
        r == space_end(s@, i as int),
        i <= r <= s@.len(),
{
    let mut k: usize = i;
    while k < s.len() && is_space(s[k])
        invariant
            i <= k <= s@.len(),
            space_end(s@, i as int) == space_end(s@, k as int),
        decreases s.len() - k,
    {
        k = k + 1;
    }
    k
}

/// Skips the white space that must stand at `i`.
pub(crate) fn require_space(s: &[char], i: usize) -> (r: Result<usize, Fault>)
    requires
        i <= s@.len(),
    ensures
        agrees(r, required_space(s@, i as int), i + 1, s@.len() as int),
{
    if i < s.len() && is_space(s[i]) {
        Ok(skip_space(s, i + 1))
    } else {
        Err(Fault { kind: XmlErrorKind::Expected("whitespace"), at: i })
    }
}

/// Skips the name characters at `i`.
pub(crate) fn skip_name_part(s: &[char], i: usize) -> (r: usize)
    requires
        i <= s@.len(),
    ensures
        r == name_part_end(s@, i as int),
        i <= r <= s@.len(),
{
    let mut k: usize = i;
    while k < s.len() && is_name_char(s[k])
        invariant
            i <= k <= s@.len(),
            name_part_end(s@, i as int) == name_part_end(s@, k as int),
        decreases s.len() - k,
    {
        k = k + 1;
    }
    k
}

/// Reads the name at `i`.
pub(crate) fn read_name(s: &[char], i: usize) -> (r: Result<usize, Fault>)
    requires
        i <= s@.len(),
    ensures
        agrees(r, name_end(s@, i as int), i + 1, s@.len() as int),
{
    if i >= s.len() {
        Err(Fault { kind: XmlErrorKind::UnexpectedEof, at: i })
    } else if !is_name_start_char(s[i]) {
        Err(Fault { kind: XmlErrorKind::InvalidName, at: i })
    } else {
        Ok(skip_name_part(s, i + 1))
    }
}

/// Reads the name token at `i`.
pub(crate) fn read_nmtoken(s: &[char], i: usize) -> (r: Result<usize, Fault>)
    requires
        i <= s@.len(),
    ensures
        agrees(r, nmtoken_end(s@, i as int), i + 1, s@.len() as int),
{
    if i >= s.len() {
        Err(Fault { kind: XmlErrorKind::UnexpectedEof, at: i })
    } else if !is_name_char(s[i]) {
        Err(Fault { kind: XmlErrorKind::InvalidName, at: i })
    } else {
        Ok(skip_name_part(s, i + 1))
    }
}

/// Reads the text `t` at `i`.
pub(crate) fn expect(s: &[char], i: usize, t: &'static str) -> (r: Result<usize, Fault>)
    requires
        i <= s@.len(),
    ensures
        agrees(r, expected(s@, i as int, t@), i + t@.len(), s@.len() as int),
{
    if starts_with(s, i, t) {
        Ok(i + t.unicode_len())
    } else {
        Err(Fault { kind: XmlErrorKind::Expected(t), at: i })
    }
}

/// Does the keyword `t` stand at `i`?
pub(crate) fn is_keyword(s: &[char], i: usize, t: &str) -> (r: bool)
    requires
        i <= s@.len(),
    ensures
        r == keyword_at(s@, i as int, t@),
        r ==> i + t@.len() <= usize::MAX,
{
    if !starts_with(s, i, t) {
        return false;
    }
    let end: usize = i + t.unicode_len();
    !(end < s.len() && is_name_char(s[end]))
}

/// Is the comment text `t` malformed?
pub(crate) fn is_bad_comment(t: &[char]) -> (r: bool)
    ensures
        r == bad_comment(t@),
{
    has_text(t, "--") || (t.len() > 0 && t[t.len() - 1] == '-')
}

/// Reads the comment at `i`.
pub(crate) fn read_comment(s: &[char], i: usize) -> (r: Result<usize, Fault>)
    requires
        i <= s@.len(),
    ensures
        agrees(r, comment_end(s@, i as int), i + 7, s@.len() as int),
{
    proof {
        reveal_strlit("<!--");
        reveal_strlit("-->");
    }
    match expect(s, i, "<!--") {
        Err(f) => Err(f),
        Ok(start) => match find_text(s, start, "-->") {
            None => Err(Fault { kind: XmlErrorKind::UnexpectedEof, at: start }),
            Some(end) => if is_bad_comment(slice_subrange(s, start, end)) {
                Err(Fault { kind: XmlErrorKind::InvalidComment, at: start })
            } else {
                Ok(end + 3)
            },
        },
    }
}

/// Reads the target of the processing instruction at `i`.
pub(crate) fn read_target(s: &[char], i: usize) -> (r: Result<usize, Fault>)
    requires
        i <= s@.len(),
    ensures
        agrees(r, target_end(s@, i as int), i + 3, s@.len() as int),
{
    proof {
        reveal_strlit("<?");
    }
    match expect(s, i, "<?") {
        Err(f) => Err(f),
        Ok(start) => match read_name(s, start) {
            Err(f) => Err(f),
            Ok(end) => if is_xml_target_slice(slice_subrange(s, start, end)) {
                Err(Fault { kind: XmlErrorKind::InvalidProcessingInstructionTarget, at: end })
            } else {
                Ok(end)
            },
        },
    }
}

/// Reads up to the data of an instruction whose target ends at `i`.
pub(crate) fn read_instruction_data_start(s: &[char], i: usize) -> (r: Result<usize, Fault>)
    requires
        i <= s@.len(),
    ensures
        agrees(r, instruction_data_start(s@, i as int), i as int, s@.len() as int),
{
    if starts_with(s, i, "?>") {
        Ok(i)
    } else {
        require_space(s, i)
    }
}

/// Reads the rest of an instruction whose data starts at `i`.
pub(crate) fn read_instruction_tail(s: &[char], i: usize) -> (r: Result<usize, Fault>)
    requires
        i <= s@.len(),
    ensures
        agrees(r, instruction_tail_end(s@, i as int), i + 2, s@.len() as int),
{
    proof {
        reveal_strlit("?>");
    }
    match find_text(s, i, "?>") {
        None => Err(Fault { kind: XmlErrorKind::UnexpectedEof, at: i }),
        Some(end) => Ok(end + 2),
    }
}

/// Reads the processing instruction at `i`.
pub(crate) fn read_instruction(s: &[char], i: usize) -> (r: Result<usize, Fault>)
    requires
        i <= s@.len(),
    ensures
        agrees(r, instruction_end(s@, i as int), i + 5, s@.len() as int),
{
    match read_target(s, i) {
        Err(f) => Err(f),
        Ok(end) => match read_instruction_data_start(s, end) {
            Err(f) => Err(f),
            Ok(data) => read_instruction_tail(s, data),
        },
    }
}

} // verus!
