//! General entities: what a reference to one stands for, within the configured limits.

use vstd::prelude::*;
use vstd::slice::slice_subrange;

use crate::config::{default_config, ConfigModel, ParserConfig, XmlEntityExpansionPolicy};
use crate::dtd::{
    copy_between, declarations, entity_named, find_entity, is_literal_char, is_name_among,
    literal_char, name_among, name_texts, EntityDeclaration, EntityDeclarationModel, EntityModel,
    XmlGeneralEntity,
};
use crate::error::{fault, ErrorKindModel, Fault, FaultModel, Read, XmlErrorKind};
use crate::grammar::{
    blank_end, element, no_entities, EntityResolver, FlatAttribute, FlatNode, NoEntities, Resolver,
};
use crate::lexeme::{
    decode_predefined_entity, decode_reference, normalized, predefined_entity, push_normalized,
    referable, reference_char, XmlVersion,
};
use crate::reader::{read_element, skip_blank};
use crate::scan::{agrees, comment_end, instruction_end, read_comment, read_instruction};
use crate::syntax::{
    is_name_slice, is_name_start_char, is_xml11_char, is_xml_char, name_start, valid_name,
};
use crate::text::{
    byte_len, char_width, contains_text, count_bytes, find_char, find_char_from, find_from,
    find_text, has_text, lemma_byte_len_bound, lemma_byte_len_concat, lemma_byte_len_push,
    push_between, push_text, same_chars, starts_at, starts_with, string_between,
};

verus! {

/// How long a chain of entities that refer to each other may be.
pub const MAX_ENTITY_CHAIN: usize = 128;

/// The general reference at `i`: its name and its end.
pub open spec fn general_reference_at(s: Seq<char>, i: int) -> Option<(Seq<char>, int)> {
    if !(0 <= i < s.len() && s[i] == '&') || (i + 1 < s.len() && s[i + 1] == '#') {
        None
    } else {
        match find_char_from(s, i + 1, ';') {
            None => None,
            Some(semicolon) => if valid_name(s.subrange(i + 1, semicolon)) {
                Some((s.subrange(i + 1, semicolon), semicolon + 1))
            } else {
                None
            },
        }
    }
}

/// The end of a section that starts at `i` with a mark of length `skip` and ends with `close`.
pub open spec fn section_end(s: Seq<char>, i: int, skip: int, close: Seq<char>) -> int {
    match find_from(s, i + skip, close) {
        Some(k) => k + close.len(),
        None => s.len() as int,
    }
}

/// The end of the CDATA section, comment or instruction at `i`.
pub open spec fn opaque_end(s: Seq<char>, i: int) -> Option<int> {
    if starts_at(s, i, "<![CDATA["@) {
        Some(section_end(s, i, 9, "]]>"@))
    } else if starts_at(s, i, "<!--"@) {
        Some(section_end(s, i, 4, "-->"@))
    } else if starts_at(s, i, "<?"@) {
        Some(section_end(s, i, 2, "?>"@))
    } else {
        None
    }
}

/// `name` is declared and not predefined.
pub open spec fn expandable(d: Seq<EntityDeclarationModel>, name: Seq<char>) -> bool {
    predefined_entity(name) is None && entity_named(d, name) is Some
}

/// The text of the entity `name` with the entities in it expanded.
///
/// `stack` holds the entities that are being expanded; the text may have `room` bytes.
pub open spec fn expansion(
    d: Seq<EntityDeclarationModel>,
    name: Seq<char>,
    max_depth: int,
    room: int,
    stack: Seq<Seq<char>>,
) -> Result<Seq<char>, ErrorKindModel>
    decreases if stack.len() <= max_depth { 2 * (max_depth - stack.len()) } else { 0 }, 0int,
{
    if stack.len() >= max_depth || name_among(stack, name) {
        Err(ErrorKindModel::EntityExpansionDepthLimitExceeded)
    } else {
        match entity_named(d, name) {
            None => Err(ErrorKindModel::UndeclaredEntity(name)),
            Some(EntityModel::External) => Err(ErrorKindModel::ExternalEntityReference(name)),
            Some(EntityModel::Internal(value)) => expansion_from(
                d,
                value,
                0,
                max_depth,
                room,
                stack.push(name),
                Seq::empty(),
            ),
        }
    }
}

/// `out` followed by the text `s` from `i` on with the entities in it expanded.
pub open spec fn expansion_from(
    d: Seq<EntityDeclarationModel>,
    s: Seq<char>,
    i: int,
    max_depth: int,
    room: int,
    stack: Seq<Seq<char>>,
    out: Seq<char>,
) -> Result<Seq<char>, ErrorKindModel>
    decreases if stack.len() <= max_depth { 2 * (max_depth - stack.len()) + 1 } else { 1 }, s.len() - i,
{
    if i < 0 || i >= s.len() {
        Ok(out)
    } else if opaque_end(s, i) is Some {
        let end = opaque_end(s, i)->Some_0;
        if end <= i || end > s.len() {
            Ok(out)
        } else {
            expansion_from(d, s, end, max_depth, room, stack, out + s.subrange(i, end))
        }
    } else if general_reference_at(s, i) is Some && expandable(
        d,
        general_reference_at(s, i)->Some_0.0,
    ) {
        let (nested, end) = general_reference_at(s, i)->Some_0;
        if end <= i || end > s.len() {
            Ok(out)
        } else {
            let left = if byte_len(out) <= room {
                room - byte_len(out)
            } else {
                0
            };
            match expansion(d, nested, max_depth, left, stack) {
                Err(kind) => Err(kind),
                Ok(text) => if byte_len(out + text) > room {
                    Err(ErrorKindModel::EntityExpansionSizeLimitExceeded)
                } else {
                    expansion_from(d, s, end, max_depth, room, stack, out + text)
                },
            }
        }
    } else if byte_len(out.push(s[i])) > room {
        Err(ErrorKindModel::EntityExpansionSizeLimitExceeded)
    } else {
        expansion_from(d, s, i + 1, max_depth, room, stack, out.push(s[i]))
    }
}

/// The end of the comments, instructions and white space at `i`.
pub open spec fn misc_end(s: Seq<char>, i: int, v: XmlVersion) -> Read<int>
    decreases s.len() - i,
{
    let j = blank_end(s, i, v);
    let item = if starts_at(s, j, "<!--"@) {
        Some(comment_end(s, j))
    } else if starts_at(s, j, "<?"@) {
        Some(instruction_end(s, j))
    } else {
        None
    };
    match item {
        None => Ok(j),
        Some(Err(f)) => Err(f),
        Some(Ok(k)) => if k <= i || k > s.len() {
            fault(ErrorKindModel::UnexpectedEof, i)
        } else {
            misc_end(s, k, v)
        },
    }
}

/// The first character at or after `i` that may not stand in a document.
pub open spec fn first_bad_char(s: Seq<char>, i: int, v: XmlVersion) -> Option<int>
    decreases s.len() - i,
{
    if i < 0 || i >= s.len() {
        None
    } else if !literal_char(s[i], v) {
        Some(i)
    } else {
        first_bad_char(s, i + 1, v)
    }
}

/// The options under which replacement texts are checked.
pub open spec fn replacement_config() -> ConfigModel {
    ConfigModel { entity_expansion: XmlEntityExpansionPolicy::Disabled, ..default_config() }
}

/// A replacement text as the content of an element.
pub open spec fn wrapped_replacement(text: Seq<char>) -> Seq<char> {
    "<entity>"@ + text + "</entity>"@
}

/// What is wrong with `text` as the content of an element in which no entity is declared.
pub open spec fn replacement_fault(text: Seq<char>, v: XmlVersion) -> Option<ErrorKindModel> {
    let s = wrapped_replacement(text);
    if first_bad_char(s, 0, v) is Some {
        Some(ErrorKindModel::InvalidCharacter)
    } else {
        match element(s, 0, replacement_config(), v, no_entities(), 1, 0) {
            Err(f) => Some(f.kind),
            Ok((_, end, _)) => match misc_end(s, end, v) {
                Err(f) => Some(f.kind),
                Ok(k) => if k < s.len() {
                    Some(ErrorKindModel::TrailingContent)
                } else {
                    None
                },
            },
        }
    }
}

/// The text that the entity `name` expands to and the bytes spent after it.
pub open spec fn expanded_entity(
    d: Seq<EntityDeclarationModel>,
    name: Seq<char>,
    policy: XmlEntityExpansionPolicy,
    v: XmlVersion,
    spent: int,
) -> Result<(Seq<char>, int), ErrorKindModel> {
    match policy {
        XmlEntityExpansionPolicy::Disabled => Err(ErrorKindModel::EntityExpansionDisabled(name)),
        XmlEntityExpansionPolicy::ExpandInternal { max_depth, max_expanded_bytes } => {
            let room = if spent <= max_expanded_bytes {
                max_expanded_bytes - spent
            } else {
                0
            };
            match expansion(d, name, max_depth as int, room, Seq::empty()) {
                Err(kind) => Err(kind),
                Ok(text) => match replacement_fault(text, v) {
                    Some(kind) => Err(kind),
                    None => if spent + byte_len(text) > max_expanded_bytes {
                        Err(ErrorKindModel::EntityExpansionSizeLimitExceeded)
                    } else {
                        Ok((text, (spent + byte_len(text)) as int))
                    },
                },
            }
        },
    }
}

/// `out` followed by the characters that the replacement text `s` from `i` on stands for.
pub open spec fn replacement_chars_from(s: Seq<char>, i: int, v: XmlVersion, out: Seq<char>) -> Read<
    Seq<char>,
>
    decreases s.len() - i,
{
    if i < 0 || i >= s.len() {
        Ok(out)
    } else if s[i] != '&' {
        if !referable(s[i], v) {
            fault(ErrorKindModel::InvalidCharacter, i)
        } else {
            replacement_chars_from(s, i + 1, v, out.push(s[i]))
        }
    } else {
        match find_char_from(s, i + 1, ';') {
            None => fault(ErrorKindModel::UnexpectedEof, i),
            Some(end) => if end <= i || end >= s.len() {
                Ok(out)
            } else {
                match reference_char(s.subrange(i + 1, end), v, i) {
                    Err(f) => Err(f),
                    Ok(c) => replacement_chars_from(s, end + 1, v, out.push(c)),
                }
            },
        }
    }
}

/// What a reference to `name` in a text stands for, and the bytes spent after it.
pub open spec fn table_replacement(
    d: Seq<EntityDeclarationModel>,
    policy: XmlEntityExpansionPolicy,
    v: XmlVersion,
    name: Seq<char>,
    spent: int,
) -> Result<(Seq<char>, int), ErrorKindModel> {
    if entity_named(d, name) is None {
        Err(ErrorKindModel::UndeclaredEntity(name))
    } else {
        match expanded_entity(d, name, policy, v, spent) {
            Err(kind) => Err(kind),
            Ok((text, after)) => if find_char_from(text, 0, '<') is Some {
                Err(ErrorKindModel::EntityReplacementMarkupWithSourceOffsets)
            } else {
                match replacement_chars_from(text, 0, v, Seq::empty()) {
                    Err(f) => Err(f.kind),
                    Ok(chars) => Ok((normalized(chars, v, false), after)),
                }
            },
        }
    }
}

/// What the references to the declared entities stand for.
pub open spec fn table_resolver(
    d: Seq<EntityDeclarationModel>,
    policy: XmlEntityExpansionPolicy,
    v: XmlVersion,
) -> Resolver {
    |name: Seq<char>, spent: int| table_replacement(d, policy, v, name, spent)
}

/// Finds the general reference at `i`.
pub(crate) fn find_general_reference(s: &[char], i: usize) -> (r: Option<(usize, usize)>)
    requires
        i < s@.len(),
    ensures
        match r {
            Some((semicolon, end)) => i + 1 <= semicolon < s@.len() && end == semicolon + 1
                && general_reference_at(s@, i as int) == Some(
                (s@.subrange(i + 1, semicolon as int), end as int),
            ),
            None => general_reference_at(s@, i as int) is None,
        },
{
    if s[i] != '&' || (i + 1 < s.len() && s[i + 1] == '#') {
        return None;
    }
    match find_char(s, i + 1, ';') {
        None => None,
        Some(semicolon) => if is_name_slice(slice_subrange(s, i + 1, semicolon)) {
            Some((semicolon, semicolon + 1))
        } else {
            None
        },
    }
}

/// Skips the section that starts at `i` with a mark of length `skip` and ends with `close`.
fn skip_section(s: &[char], i: usize, skip: usize, close: &str, width: usize) -> (r: usize)
    requires
        i + skip <= s@.len(),
        skip > 0,
        width == close@.len(),
    ensures
        r == section_end(s@, i as int, skip as int, close@),
        i < r <= s@.len(),
{
    proof {
        assert(s.len() == s@.len());
    }
    match find_text(s, i + skip, close) {
        Some(k) => k + width,
        None => s.len(),
    }
}

/// The end of the CDATA section, comment or instruction at `i`.
pub(crate) fn skip_opaque(s: &[char], i: usize) -> (r: Option<usize>)
    requires
        i <= s@.len(),
    ensures
        match r {
            Some(end) => opaque_end(s@, i as int) == Some(end as int) && i < end <= s@.len(),
            None => opaque_end(s@, i as int) is None,
        },
{
    proof {
        reveal_strlit("<![CDATA[");
        reveal_strlit("<!--");
        reveal_strlit("<?");
        reveal_strlit("]]>");
        reveal_strlit("-->");
        reveal_strlit("?>");
    }
    if starts_with(s, i, "<![CDATA[") {
        Some(skip_section(s, i, 9, "]]>", 3))
    } else if starts_with(s, i, "<!--") {
        Some(skip_section(s, i, 4, "-->", 3))
    } else if starts_with(s, i, "<?") {
        Some(skip_section(s, i, 2, "?>", 2))
    } else {
        None
    }
}

/// Is `name` declared and not predefined?
pub(crate) fn is_expandable(d: &Vec<EntityDeclaration>, name: &[char]) -> (r: bool)
    ensures
        r == expandable(declarations(d@), name@),
{
    decode_predefined_entity(name).is_none() && find_entity(d, name).is_some()
}

/// Expands the entity `name`.
fn resolve_entity_lexical(
    d: &Vec<EntityDeclaration>,
    name: &[char],
    max_depth: usize,
    room: usize,
    stack: &mut Vec<Vec<char>>,
) -> (r: Result<Vec<char>, XmlErrorKind>)
    requires
        old(stack)@.len() <= max_depth,
    ensures
        match r {
            Ok(text) => expansion(
                declarations(d@),
                name@,
                max_depth as int,
                room as int,
                name_texts(old(stack)@),
            ) == Ok::<Seq<char>, ErrorKindModel>(text@),
            Err(kind) => expansion(
                declarations(d@),
                name@,
                max_depth as int,
                room as int,
                name_texts(old(stack)@),
            ) == Err::<Seq<char>, ErrorKindModel>(kind@),
        },
        name_texts(final(stack)@) == name_texts(old(stack)@),
    decreases max_depth - old(stack)@.len(),
{
    let ghost before = name_texts(stack@);
    proof {
        assert(before.len() == stack@.len());
    }
    if stack.len() >= max_depth || is_name_among(stack, name) {
        return Err(XmlErrorKind::EntityExpansionDepthLimitExceeded);
    }
    proof {
        assert(name@.subrange(0, name@.len() as int) =~= name@);
    }
    let value: &Vec<char> = match find_entity(d, name) {
        None => {
            return Err(XmlErrorKind::UndeclaredEntity(string_between(name, 0, name.len())));
        },
        Some(XmlGeneralEntity::External) => {
            return Err(XmlErrorKind::ExternalEntityReference(string_between(name, 0, name.len())));
        },
        Some(XmlGeneralEntity::Internal(value)) => value,
    };
    let ghost unpushed = stack@;
    stack.push(copy_between(name, 0, name.len()));
    let ghost inside = name_texts(stack@);
    proof {
        assert(inside =~= before.push(name@));
    }
    let s: &[char] = value.as_slice();
    let mut out: Vec<char> = Vec::new();
    let mut bytes: u128 = 0;
    let mut i: usize = 0;
    while i < s.len()
        invariant
            0 <= i <= s@.len(),
            old(stack)@.len() < max_depth,
            stack@.len() == old(stack)@.len() + 1,
            name_texts(stack@) == inside,
            before == name_texts(old(stack)@),
            inside == before.push(name@),
            bytes == byte_len(out@),
            expansion(declarations(d@), name@, max_depth as int, room as int, before)
                == expansion_from(
                declarations(d@),
                s@,
                i as int,
                max_depth as int,
                room as int,
                inside,
                out@,
            ),
        decreases s@.len() - i,
    {
        proof {
            lemma_byte_len_bound(out@, out@.len() as int);
            assert(out.len() == out@.len());
        }
        if let Some(end) = skip_opaque(s, i) {
            proof {
                lemma_byte_len_concat(out@, s@.subrange(i as int, end as int));
            }
            bytes = bytes + count_bytes(slice_subrange(s, i, end));
            push_between(&mut out, s, i, end);
            i = end;
            continue;
        }
        if let Some((semicolon, end)) = find_general_reference(s, i) {
            let nested = slice_subrange(s, i + 1, semicolon);
            if is_expandable(d, nested) {
                let left: usize = if bytes <= room as u128 {
                    room - bytes as usize
                } else {
                    0
                };
                let text = match resolve_entity_lexical(d, nested, max_depth, left, stack) {
                    Err(kind) => {
                        pop_name(stack, Ghost(before), Ghost(name@));
                        return Err(kind);
                    },
                    Ok(text) => text,
                };
                proof {
                    assert(name_texts(stack@).len() == stack@.len());
                    lemma_byte_len_concat(out@, text@);
                    assert(text@.subrange(0, text@.len() as int) =~= text@);
                }
                bytes = bytes + count_bytes(text.as_slice());
                push_between(&mut out, text.as_slice(), 0, text.len());
                i = end;
                if bytes > room as u128 {
                    pop_name(stack, Ghost(before), Ghost(name@));
                    return Err(XmlErrorKind::EntityExpansionSizeLimitExceeded);
                }
                continue;
            }
        }
        proof {
            lemma_byte_len_push(out@, s@[i as int]);
        }
        bytes = bytes + char_width(s[i]) as u128;
        out.push(s[i]);
        i = i + 1;
        if bytes > room as u128 {
            pop_name(stack, Ghost(before), Ghost(name@));
            return Err(XmlErrorKind::EntityExpansionSizeLimitExceeded);
        }
    }
    pop_name(stack, Ghost(before), Ghost(name@));
    Ok(out)
}

/// Removes the last name.
fn pop_name(stack: &mut Vec<Vec<char>>, before: Ghost<Seq<Seq<char>>>, last: Ghost<Seq<char>>)
    requires
        name_texts(old(stack)@) == before@.push(last@),
    ensures
        name_texts(final(stack)@) == before@,
{
    let ghost all = stack@;
    proof {
        assert(name_texts(all).len() == all.len());
    }
    stack.pop();
    proof {
        assert(name_texts(stack@) =~= name_texts(all).drop_last());
        assert(before@.push(last@).drop_last() =~= before@);
    }
}

/// Skips the comments, instructions and white space at `i`.
pub(crate) fn skip_misc(s: &[char], i: usize, v: XmlVersion) -> (r: Result<usize, Fault>)
    requires
        i <= s@.len(),
    ensures
        agrees(r, misc_end(s@, i as int, v), i as int, s@.len() as int),
{
    let mut k: usize = i;
    loop
        invariant
            i <= k <= s@.len(),
            misc_end(s@, i as int, v) == misc_end(s@, k as int, v),
        decreases s@.len() - k,
    {
        let j: usize = skip_blank(s, k, v);
        if starts_with(s, j, "<!--") {
            match read_comment(s, j) {
                Err(f) => {
                    return Err(f);
                },
                Ok(next) => {
                    k = next;
                },
            }
        } else if starts_with(s, j, "<?") {
            match read_instruction(s, j) {
                Err(f) => {
                    return Err(f);
                },
                Ok(next) => {
                    k = next;
                },
            }
        } else {
            return Ok(j);
        }
    }
}

/// Finds the first character at or after `i` that may not stand in a document.
pub(crate) fn find_bad_char(s: &[char], i: usize, v: XmlVersion) -> (r: Option<usize>)
    requires
        i <= s@.len(),
    ensures
        match r {
            Some(k) => first_bad_char(s@, i as int, v) == Some(k as int) && i <= k < s@.len(),
            None => first_bad_char(s@, i as int, v) is None,
        },
{
    let mut k: usize = i;
    while k < s.len()
        invariant
            i <= k <= s@.len(),
            first_bad_char(s@, i as int, v) == first_bad_char(s@, k as int, v),
        decreases s.len() - k,
    {
        if !is_literal_char(s[k], v) {
            return Some(k);
        }
        k = k + 1;
    }
    None
}

/// What is wrong with `text` as the content of an element in which no entity is declared?
fn validate_entity_replacement(text: &[char], v: XmlVersion) -> (r: Option<XmlErrorKind>)
    ensures
        match r {
            Some(kind) => replacement_fault(text@, v) == Some(kind@),
            None => replacement_fault(text@, v) is None,
        },
{
    let mut wrapped: Vec<char> = Vec::new();
    push_text(&mut wrapped, "<entity>");
    push_between(&mut wrapped, text, 0, text.len());
    push_text(&mut wrapped, "</entity>");
    proof {
        assert(text@.subrange(0, text@.len() as int) =~= text@);
        assert(wrapped@ =~= wrapped_replacement(text@));
    }
    let s: &[char] = wrapped.as_slice();
    if find_bad_char(s, 0, v).is_some() {
        return Some(XmlErrorKind::InvalidCharacter);
    }
    let config = ParserConfig::default().entity_expansion(XmlEntityExpansionPolicy::Disabled);
    let mut nodes: Vec<FlatNode> = Vec::new();
    let mut attributes: Vec<FlatAttribute> = Vec::new();
    match read_element(s, 0, &config, v, &NoEntities, 1, 0, &mut nodes, &mut attributes) {
        Err(f) => Some(f.kind),
        Ok((end, _)) => match skip_misc(s, end, v) {
            Err(f) => Some(f.kind),
            Ok(k) => if k < s.len() {
                Some(XmlErrorKind::TrailingContent)
            } else {
                None
            },
        },
    }
}

/// Expands the entity `name`.
fn expand_one_entity(
    d: &Vec<EntityDeclaration>,
    name: &[char],
    policy: XmlEntityExpansionPolicy,
    v: XmlVersion,
    spent: usize,
) -> (r: Result<(Vec<char>, usize), XmlErrorKind>)
    ensures
        match r {
            Ok((text, after)) => expanded_entity(
                declarations(d@),
                name@,
                policy,
                v,
                spent as int,
            ) == Ok::<(Seq<char>, int), ErrorKindModel>((text@, after as int)),
            Err(kind) => expanded_entity(declarations(d@), name@, policy, v, spent as int) == Err::<
                (Seq<char>, int),
                ErrorKindModel,
            >(kind@),
        },
{
    match policy {
        XmlEntityExpansionPolicy::Disabled => {
            proof {
                assert(name@.subrange(0, name@.len() as int) =~= name@);
            }
            Err(XmlErrorKind::EntityExpansionDisabled(string_between(name, 0, name.len())))
        },
        XmlEntityExpansionPolicy::ExpandInternal { max_depth, max_expanded_bytes } => {
            let room: usize = if spent <= max_expanded_bytes {
                max_expanded_bytes - spent
            } else {
                0
            };
            let mut stack: Vec<Vec<char>> = Vec::new();
            proof {
                assert(name_texts(stack@) =~= Seq::<Seq<char>>::empty());
            }
            let text = match resolve_entity_lexical(d, name, max_depth, room, &mut stack) {
                Err(kind) => {
                    return Err(kind);
                },
                Ok(text) => text,
            };
            if let Some(kind) = validate_entity_replacement(text.as_slice(), v) {
                return Err(kind);
            }
            let total: u128 = spent as u128 + count_bytes(text.as_slice());
            if total > max_expanded_bytes as u128 {
                Err(XmlErrorKind::EntityExpansionSizeLimitExceeded)
            } else {
                Ok((text, total as usize))
            }
        },
    }
}

/// The characters that the replacement text `s` stands for.
fn decode_entity_replacement_text(s: &[char], v: XmlVersion) -> (r: Result<Vec<char>, Fault>)
    ensures
        match r {
            Ok(out) => replacement_chars_from(s@, 0, v, Seq::empty()) is Ok && out@ == normalized(
                replacement_chars_from(s@, 0, v, Seq::empty())->Ok_0,
                v,
                false,
            ),
            Err(f) => replacement_chars_from(s@, 0, v, Seq::empty()) == Err::<
                Seq<char>,
                FaultModel,
            >(f@),
        },
{
    let mut chars: Vec<char> = Vec::new();
    let mut i: usize = 0;
    while i < s.len()
        invariant
            0 <= i <= s@.len(),
            replacement_chars_from(s@, 0, v, Seq::empty()) == replacement_chars_from(
                s@,
                i as int,
                v,
                chars@,
            ),
        decreases s@.len() - i,
    {
        if s[i] != '&' {
            let allowed = match v {
                XmlVersion::Xml10 => is_xml_char(s[i]),
                XmlVersion::Xml11 => is_xml11_char(s[i]),
            };
            if !allowed {
                return Err(Fault { kind: XmlErrorKind::InvalidCharacter, at: i });
            }
            chars.push(s[i]);
            i = i + 1;
            continue;
        }
        let end: usize = match find_char(s, i + 1, ';') {
            None => {
                return Err(Fault { kind: XmlErrorKind::UnexpectedEof, at: i });
            },
            Some(end) => end,
        };
        match decode_reference(slice_subrange(s, i + 1, end), v, i) {
            Err(f) => {
                return Err(f);
            },
            Ok(c) => {
                chars.push(c);
            },
        }
        i = end + 1;
    }
    let mut out: Vec<char> = Vec::new();
    push_normalized(chars.as_slice(), v, false, &mut out);
    proof {
        assert(Seq::<char>::empty() + normalized(chars@, v, false) =~= normalized(chars@, v, false));
    }
    Ok(out)
}

/// The general entities of a document.
pub struct EntityTable<'a> {
    /// The declarations.
    pub declared: &'a Vec<EntityDeclaration>,
    /// The limits.
    pub policy: XmlEntityExpansionPolicy,
    /// The version of the document.
    pub version: XmlVersion,
}

impl<'a> EntityResolver for EntityTable<'a> {
    open spec fn resolver(&self) -> Resolver {
        table_resolver(declarations(self.declared@), self.policy, self.version)
    }

    fn resolve(&self, name: &[char], spent: usize) -> (r: Result<
        (Vec<char>, usize),
        XmlErrorKind,
    >) {
        if find_entity(self.declared, name).is_none() {
            proof {
                assert(name@.subrange(0, name@.len() as int) =~= name@);
            }
            return Err(XmlErrorKind::UndeclaredEntity(string_between(name, 0, name.len())));
        }
        match expand_one_entity(self.declared, name, self.policy, self.version, spent) {
            Err(kind) => Err(kind),
            Ok((text, after)) => if find_char(text.as_slice(), 0, '<').is_some() {
                Err(XmlErrorKind::EntityReplacementMarkupWithSourceOffsets)
            } else {
                match decode_entity_replacement_text(text.as_slice(), self.version) {
                    Err(f) => Err(f.kind),
                    Ok(chars) => Ok((chars, after)),
                }
            },
        }
    }
}

// ---------------------------------------------------------------------------------------------
// Chains of entities
// ---------------------------------------------------------------------------------------------

/// The length of the longest chain of entities that starts with `name`, if it is at most `fuel`.
pub open spec fn chain_length(d: Seq<EntityDeclarationModel>, name: Seq<char>, fuel: int) -> Result<
    int,
    ErrorKindModel,
>
    decreases if fuel >= 0 { 2 * fuel } else { 0 }, 0int,
{
    if fuel <= 0 {
        Err(ErrorKindModel::EntityExpansionDepthLimitExceeded)
    } else {
        match entity_named(d, name) {
            None => Err(ErrorKindModel::UndeclaredEntity(name)),
            Some(EntityModel::External) => Ok(1),
            Some(EntityModel::Internal(value)) => chain_length_from(d, value, 0, fuel - 1, 1),
        }
    }
}

/// The length of the longest chain that starts one before the references of `s` from `i` on, but
/// at least `best`.
pub open spec fn chain_length_from(
    d: Seq<EntityDeclarationModel>,
    s: Seq<char>,
    i: int,
    fuel: int,
    best: int,
) -> Result<int, ErrorKindModel>
    decreases if fuel >= 0 { 2 * fuel + 1 } else { 1 }, s.len() - i,
{
    if i < 0 || i >= s.len() {
        Ok(best)
    } else if opaque_end(s, i) is Some {
        let end = opaque_end(s, i)->Some_0;
        if end <= i || end > s.len() {
            Ok(best)
        } else {
            chain_length_from(d, s, end, fuel, best)
        }
    } else if general_reference_at(s, i) is Some {
        let (nested, end) = general_reference_at(s, i)->Some_0;
        if end <= i || end > s.len() {
            Ok(best)
        } else if predefined_entity(nested) is Some {
            chain_length_from(d, s, end, fuel, best)
        } else {
            match chain_length(d, nested, fuel) {
                Err(kind) => Err(kind),
                Ok(n) => chain_length_from(
                    d,
                    s,
                    end,
                    fuel,
                    if n + 1 > best {
                        n + 1
                    } else {
                        best
                    },
                ),
            }
        }
    } else {
        chain_length_from(d, s, i + 1, fuel, best)
    }
}

/// What is wrong with the references between the entities from `i` on.
pub open spec fn graph_fault_from(d: Seq<EntityDeclarationModel>, i: int) -> Option<ErrorKindModel>
    decreases d.len() - i,
{
    if i < 0 || i >= d.len() {
        None
    } else {
        match chain_length(d, d[i].name, MAX_ENTITY_CHAIN as int) {
            Err(kind) => Some(kind),
            Ok(_) => graph_fault_from(d, i + 1),
        }
    }
}

/// A chain has the same length whatever larger limit is set, and exceeds every smaller one.
pub proof fn lemma_chain_length_stable(
    d: Seq<EntityDeclarationModel>,
    name: Seq<char>,
    fuel: int,
    other: int,
)
    requires
        chain_length(d, name, fuel) is Ok,
    ensures
        1 <= chain_length(d, name, fuel)->Ok_0 <= fuel,
        other >= chain_length(d, name, fuel)->Ok_0 ==> chain_length(d, name, other) == chain_length(
            d,
            name,
            fuel,
        ),
        other < chain_length(d, name, fuel)->Ok_0 ==> chain_length(d, name, other) == Err::<
            int,
            ErrorKindModel,
        >(ErrorKindModel::EntityExpansionDepthLimitExceeded),
    decreases fuel, 0int, 0int,
{
    match entity_named(d, name) {
        Some(EntityModel::Internal(value)) => {
            lemma_chain_length_from_stable(d, value, 0, fuel - 1, other - 1, 1);
        },
        _ => {},
    }
}

proof fn lemma_chain_length_from_stable(
    d: Seq<EntityDeclarationModel>,
    s: Seq<char>,
    i: int,
    fuel: int,
    other: int,
    best: int,
)
    requires
        fuel >= 0,
        1 <= best <= fuel + 1,
        chain_length_from(d, s, i, fuel, best) is Ok,
    ensures
        best <= chain_length_from(d, s, i, fuel, best)->Ok_0 <= fuel + 1,
        other + 1 >= chain_length_from(d, s, i, fuel, best)->Ok_0 ==> chain_length_from(
            d,
            s,
            i,
            other,
            best,
        ) == chain_length_from(d, s, i, fuel, best),
        other + 1 < chain_length_from(d, s, i, fuel, best)->Ok_0 && best <= other + 1
            ==> chain_length_from(d, s, i, other, best) == Err::<int, ErrorKindModel>(
            ErrorKindModel::EntityExpansionDepthLimitExceeded,
        ),
    decreases fuel, 1int, s.len() - i,
{
    if i < 0 || i >= s.len() {
    } else if opaque_end(s, i) is Some {
        let end = opaque_end(s, i)->Some_0;
        if end <= i || end > s.len() {
        } else {
            lemma_chain_length_from_stable(d, s, end, fuel, other, best);
        }
    } else if general_reference_at(s, i) is Some {
        let (nested, end) = general_reference_at(s, i)->Some_0;
        if end <= i || end > s.len() {
        } else if predefined_entity(nested) is Some {
            lemma_chain_length_from_stable(d, s, end, fuel, other, best);
        } else {
            lemma_chain_length_stable(d, nested, fuel, other);
            let n = chain_length(d, nested, fuel)->Ok_0;
            let next = if n + 1 > best {
                n + 1
            } else {
                best
            };
            lemma_chain_length_from_stable(d, s, end, fuel, other, next);
        }
    } else {
        lemma_chain_length_from_stable(d, s, i + 1, fuel, other, best);
    }
}

/// The lengths that are already known.
struct KnownLength {
    name: Vec<char>,
    length: usize,
}

/// Every known length is that of the longest chain.
spec fn known_lengths_hold(d: Seq<EntityDeclarationModel>, known: Seq<KnownLength>) -> bool {
    forall|k: int|
        0 <= k < known.len() ==> chain_length(
            d,
            (#[trigger] known[k]).name@,
            known[k].length as int,
        ) == Ok::<int, ErrorKindModel>(known[k].length as int)
}

/// Finds the known length of the chains that start with `name`.
fn find_known_length(known: &Vec<KnownLength>, name: &[char]) -> (r: Option<usize>)
    ensures
        match r {
            Some(n) => exists|k: int|
                0 <= k < known@.len() && (#[trigger] known@[k]).name@ == name@ && known@[k].length
                    == n,
            None => true,
        },
{
    let mut i: usize = 0;
    while i < known.len()
        invariant
            0 <= i <= known@.len(),
        decreases known@.len() - i,
    {
        if same_chars(known[i].name.as_slice(), name) {
            return Some(known[i].length);
        }
        i = i + 1;
    }
    None
}

/// The length of the longest chain of entities that starts with `name`, if it is at most `fuel`.
fn validate_general_entity_node(
    d: &Vec<EntityDeclaration>,
    name: &[char],
    fuel: usize,
    known: &mut Vec<KnownLength>,
) -> (r: Result<usize, XmlErrorKind>)
    requires
        known_lengths_hold(declarations(d@), old(known)@),
    ensures
        known_lengths_hold(declarations(d@), final(known)@),
        match r {
            Ok(n) => chain_length(declarations(d@), name@, fuel as int) == Ok::<
                int,
                ErrorKindModel,
            >(n as int) && 1 <= n <= fuel,
            Err(kind) => chain_length(declarations(d@), name@, fuel as int) == Err::<
                int,
                ErrorKindModel,
            >(kind@),
        },
    decreases fuel,
{
    if fuel == 0 {
        return Err(XmlErrorKind::EntityExpansionDepthLimitExceeded);
    }
    if let Some(n) = find_known_length(known, name) {
        proof {
            lemma_chain_length_stable(declarations(d@), name@, n as int, fuel as int);
        }
        if n > fuel {
            return Err(XmlErrorKind::EntityExpansionDepthLimitExceeded);
        }
        return Ok(n);
    }
    proof {
        assert(name@.subrange(0, name@.len() as int) =~= name@);
    }
    let mut best: usize = 1;
    match find_entity(d, name) {
        None => {
            return Err(XmlErrorKind::UndeclaredEntity(string_between(name, 0, name.len())));
        },
        Some(XmlGeneralEntity::External) => {},
        Some(XmlGeneralEntity::Internal(value)) => {
            let s: &[char] = value.as_slice();
            let mut i: usize = 0;
            while i < s.len()
                invariant
                    0 <= i <= s@.len(),
                    1 <= best <= fuel,
                    fuel > 0,
                    known_lengths_hold(declarations(d@), known@),
                    chain_length(declarations(d@), name@, fuel as int) == chain_length_from(
                        declarations(d@),
                        s@,
                        i as int,
                        fuel - 1,
                        best as int,
                    ),
                decreases s@.len() - i,
            {
                if let Some(end) = skip_opaque(s, i) {
                    i = end;
                    continue;
                }
                if let Some((semicolon, end)) = find_general_reference(s, i) {
                    let nested = slice_subrange(s, i + 1, semicolon);
                    if decode_predefined_entity(nested).is_none() {
                        match validate_general_entity_node(d, nested, fuel - 1, known) {
                            Err(kind) => {
                                return Err(kind);
                            },
                            Ok(n) => {
                                if n + 1 > best {
                                    best = n + 1;
                                }
                            },
                        }
                    }
                    i = end;
                } else {
                    i = i + 1;
                }
            }
        },
    }
    let ghost before = known@;
    known.push(KnownLength { name: copy_between(name, 0, name.len()), length: best });
    proof {
        lemma_chain_length_stable(declarations(d@), name@, fuel as int, best as int);
        assert forall|k: int| 0 <= k < known@.len() implies chain_length(
            declarations(d@),
            (#[trigger] known@[k]).name@,
            known@[k].length as int,
        ) == Ok::<int, ErrorKindModel>(known@[k].length as int) by {
            if k < before.len() {
                assert(known@[k] == before[k]);
            }
        }
    }
    Ok(best)
}

/// What is wrong with the references between the entities?
pub(crate) fn validate_general_entity_graph(d: &Vec<EntityDeclaration>) -> (r: Option<XmlErrorKind>)
    ensures
        match r {
            Some(kind) => graph_fault_from(declarations(d@), 0) == Some(kind@),
            None => graph_fault_from(declarations(d@), 0) is None,
        },
{
    let mut known: Vec<KnownLength> = Vec::new();
    let mut i: usize = 0;
    while i < d.len()
        invariant
            0 <= i <= d@.len(),
            known_lengths_hold(declarations(d@), known@),
            graph_fault_from(declarations(d@), 0) == graph_fault_from(declarations(d@), i as int),
        decreases d@.len() - i,
    {
        proof {
            assert(declarations(d@)[i as int] == d@[i as int]@);
        }
        match validate_general_entity_node(
            d,
            d[i].name.as_slice(),
            MAX_ENTITY_CHAIN,
            &mut known,
        ) {
            Err(kind) => {
                return Some(kind);
            },
            Ok(_) => {},
        }
        i = i + 1;
    }
    None
}

// ---------------------------------------------------------------------------------------------
// Expanding the references of a document
// ---------------------------------------------------------------------------------------------

/// Where in a document a reference is looked for.
#[derive(Clone, Copy, Debug, Eq, PartialEq, Structural)]
pub enum ExpansionMode {
    /// Between tags.
    Content,
    /// Inside a tag.
    Tag {
        /// It is an end tag.
        end: bool,
    },
    /// Inside a quoted value of a tag.
    Quoted {
        /// The quotation mark.
        quote: char,
        /// It is an end tag.
        end: bool,
    },
}

/// White space in the sense of Unicode.
pub open spec fn unicode_space(c: char) -> bool {
    let u = c as u32;
    ||| 0x9 <= u <= 0xd
    ||| u == 0x20 || u == 0x85 || u == 0xa0 || u == 0x1680
    ||| 0x2000 <= u <= 0x200a
    ||| u == 0x2028 || u == 0x2029 || u == 0x202f || u == 0x205f || u == 0x3000
}

/// The last character of `s` before `i` that is not white space is a slash.
pub open spec fn ends_with_slash(s: Seq<char>, i: int) -> bool
    decreases i,
{
    if i <= 0 || i > s.len() {
        false
    } else if unicode_space(s[i - 1]) {
        ends_with_slash(s, i - 1)
    } else {
        s[i - 1] == '/'
    }
}

/// `s` could go on a reference that was opened before it.
pub open spec fn starts_reference_tail(s: Seq<char>) -> bool {
    s.len() > 0 && (s[0] == '#' || name_start(s[0]))
}

/// The last two characters of `a` followed by the first two of `b`.
pub open spec fn seam(a: Seq<char>, b: Seq<char>) -> Seq<char> {
    let m = if a.len() < 2 {
        a.len() as int
    } else {
        2
    };
    let n = if b.len() < 2 {
        b.len() as int
    } else {
        2
    };
    a.subrange(a.len() - m, a.len() as int) + b.subrange(0, n)
}

/// Putting `text` between `before` and `after` would make markup out of parts of both.
pub open spec fn bad_boundary(before: Seq<char>, text: Seq<char>, after: Seq<char>) -> bool {
    ||| (before.len() > 0 && before.last() == '&' && starts_reference_tail(text))
    ||| (text.len() > 0 && text.last() == '&' && starts_reference_tail(after))
    ||| contains_text(seam(before, text), "]]>"@)
    ||| contains_text(seam(text, after), "]]>"@)
}

/// `out` followed by `s` from `i` on with every `quote` replaced by a reference.
pub open spec fn without_quote_from(s: Seq<char>, i: int, quote: char, out: Seq<char>) -> Seq<char>
    decreases s.len() - i,
{
    if i < 0 || i >= s.len() {
        out
    } else if s[i] == quote {
        without_quote_from(
            s,
            i + 1,
            quote,
            out + (if quote == '"' {
                "&quot;"@
            } else {
                "&apos;"@
            }),
        )
    } else {
        without_quote_from(s, i + 1, quote, out.push(s[i]))
    }
}

/// The state of an expansion: where it stands, what it has written and where each character of
/// that comes from, whether it replaced anything, how many elements are open, and the bytes spent.
pub struct ExpansionState {
    pub mode: ExpansionMode,
    pub out: Seq<char>,
    pub places: Seq<int>,
    pub changed: bool,
    pub depth: int,
    pub spent: int,
}

/// The places from `i` up to `end`.
pub open spec fn places_between(i: int, end: int) -> Seq<int> {
    Seq::new((end - i) as nat, |k: int| i + k)
}

/// The same place `n` times.
pub open spec fn place_repeated(i: int, n: nat) -> Seq<int> {
    Seq::new(n, |k: int| i)
}

/// One step at `i` that replaces nothing: the position and the state after it.
pub open spec fn expansion_copy(s: Seq<char>, i: int, e: ExpansionState) -> (int, ExpansionState) {
    match e.mode {
        ExpansionMode::Content => if opaque_end(s, i) is Some {
            let end = opaque_end(s, i)->Some_0;
            (
                end,
                ExpansionState {
                    out: e.out + s.subrange(i, end),
                    places: e.places + places_between(i, end),
                    ..e
                },
            )
        } else if s[i] == '<' {
            (
                i + 1,
                ExpansionState {
                    mode: ExpansionMode::Tag { end: starts_at(s, i, "</"@) },
                    out: e.out.push('<'),
                    places: e.places.push(i),
                    ..e
                },
            )
        } else {
            (
                i + 1,
                ExpansionState { out: e.out.push(s[i]), places: e.places.push(i), ..e },
            )
        },
        ExpansionMode::Tag { end } => if s[i] == '>' {
            (
                i + 1,
                ExpansionState {
                    mode: ExpansionMode::Content,
                    out: e.out.push('>'),
                    places: e.places.push(i),
                    depth: if end {
                        if e.depth > 0 {
                            e.depth - 1
                        } else {
                            0
                        }
                    } else if ends_with_slash(e.out, e.out.len() as int) {
                        e.depth
                    } else {
                        e.depth + 1
                    },
                    ..e
                },
            )
        } else if s[i] == '"' || s[i] == '\'' {
            (
                i + 1,
                ExpansionState {
                    mode: ExpansionMode::Quoted { quote: s[i], end },
                    out: e.out.push(s[i]),
                    places: e.places.push(i),
                    ..e
                },
            )
        } else {
            (
                i + 1,
                ExpansionState { out: e.out.push(s[i]), places: e.places.push(i), ..e },
            )
        },
        ExpansionMode::Quoted { quote, end } => (
            i + 1,
            ExpansionState {
                mode: if s[i] == quote {
                    ExpansionMode::Tag { end }
                } else {
                    e.mode
                },
                out: e.out.push(s[i]),
                places: e.places.push(i),
                ..e
            },
        ),
    }
}

/// The reference at `i` that is to be replaced in the given state: its name and its end.
pub open spec fn replaceable_reference(
    s: Seq<char>,
    i: int,
    d: Seq<EntityDeclarationModel>,
    e: ExpansionState,
) -> Option<(Seq<char>, int)> {
    let here = match e.mode {
        ExpansionMode::Content => e.depth > 0,
        ExpansionMode::Tag { .. } => false,
        ExpansionMode::Quoted { .. } => true,
    };
    match general_reference_at(s, i) {
        Some((name, end)) => if here && expandable(d, name) {
            Some((name, end))
        } else {
            None
        },
        None => None,
    }
}

/// The state after `s` from `i` on has been copied with its references to declared entities
/// replaced. A character that replaces one comes from where the reference stands.
pub open spec fn expanded_from(
    s: Seq<char>,
    i: int,
    d: Seq<EntityDeclarationModel>,
    policy: XmlEntityExpansionPolicy,
    v: XmlVersion,
    e: ExpansionState,
) -> Read<ExpansionState>
    decreases s.len() - i,
{
    if i < 0 || i >= s.len() {
        Ok(e)
    } else {
        match replaceable_reference(s, i, d, e) {
            Some((name, end)) => match expanded_entity(d, name, policy, v, e.spent) {
                Err(kind) => fault(kind, i),
                Ok((raw, after)) => {
                    let text = match e.mode {
                        ExpansionMode::Quoted { quote, .. } => without_quote_from(
                            raw,
                            0,
                            quote,
                            Seq::empty(),
                        ),
                        _ => raw,
                    };
                    if end <= i || end > s.len() {
                        Ok(e)
                    } else if bad_boundary(e.out, text, s.subrange(end, s.len() as int)) {
                        fault(ErrorKindModel::InvalidDocumentStructure, i)
                    } else {
                        expanded_from(
                            s,
                            end,
                            d,
                            policy,
                            v,
                            ExpansionState {
                                out: e.out + text,
                                places: e.places + place_repeated(i, text.len()),
                                changed: true,
                                spent: after,
                                ..e
                            },
                        )
                    }
                },
            },
            None => {
                let (k, next) = expansion_copy(s, i, e);
                if k <= i || k > s.len() {
                    Ok(e)
                } else {
                    expanded_from(s, k, d, policy, v, next)
                }
            },
        }
    }
}

/// The state in which an expansion starts.
pub open spec fn expansion_start() -> ExpansionState {
    ExpansionState {
        mode: ExpansionMode::Content,
        out: Seq::empty(),
        places: Seq::empty(),
        changed: false,
        depth: 0,
        spent: 0,
    }
}

/// A text whose references were replaced, and where each of its characters comes from.
#[verifier::ext_equal]
pub struct Expanded {
    /// The text.
    pub text: Seq<char>,
    /// The place in the source that each character comes from.
    pub places: Seq<int>,
}

/// The place in a source of `n` characters that the character `at` of the text comes from.
pub open spec fn origin(places: Seq<int>, n: int, at: int) -> int {
    if 0 <= at < places.len() {
        places[at]
    } else {
        n
    }
}

/// The document `s` with the references behind `i` to declared entities replaced, if there are
/// any.
pub open spec fn expanded_document(
    s: Seq<char>,
    i: int,
    d: Seq<EntityDeclarationModel>,
    policy: XmlEntityExpansionPolicy,
    v: XmlVersion,
) -> Read<Option<Expanded>> {
    if d.len() == 0 {
        Ok(None)
    } else {
        match expanded_from(s, i, d, policy, v, expansion_start()) {
            Err(f) => Err(f),
            Ok(e) => if e.changed {
                Ok(
                    Some(
                        Expanded {
                            text: s.subrange(0, i) + e.out,
                            places: places_between(0, i) + e.places,
                        },
                    ),
                )
            } else {
                Ok(None)
            },
        }
    }
}

/// The places of a list.
pub open spec fn place_list(v: Seq<usize>) -> Seq<int> {
    Seq::new(v.len(), |i: int| v[i] as int)
}

/// Every place is one of a source of `n` characters.
pub open spec fn places_within(places: Seq<int>, n: int) -> bool {
    forall|i: int| 0 <= i < places.len() ==> 0 <= #[trigger] places[i] <= n
}

/// An expansion adds one place of the source for each character.
pub proof fn lemma_places_within(
    s: Seq<char>,
    i: int,
    d: Seq<EntityDeclarationModel>,
    policy: XmlEntityExpansionPolicy,
    v: XmlVersion,
    e: ExpansionState,
)
    requires
        places_within(e.places, s.len() as int),
        e.places.len() == e.out.len(),
    ensures
        expanded_from(s, i, d, policy, v, e) matches Ok(g) ==> places_within(
            g.places,
            s.len() as int,
        ) && g.places.len() == g.out.len(),
    decreases s.len() - i,
{
    if 0 <= i < s.len() {
        match replaceable_reference(s, i, d, e) {
            Some((name, end)) => match expanded_entity(d, name, policy, v, e.spent) {
                Err(_) => {},
                Ok((raw, after)) => {
                    let text = match e.mode {
                        ExpansionMode::Quoted { quote, .. } => without_quote_from(
                            raw,
                            0,
                            quote,
                            Seq::empty(),
                        ),
                        _ => raw,
                    };
                    if i < end <= s.len() {
                        lemma_places_within(
                            s,
                            end,
                            d,
                            policy,
                            v,
                            ExpansionState {
                                out: e.out + text,
                                places: e.places + place_repeated(i, text.len()),
                                changed: true,
                                spent: after,
                                ..e
                            },
                        );
                    }
                },
            },
            None => {
                let (k, next) = expansion_copy(s, i, e);
                if i < k <= s.len() {
                    lemma_places_within(s, k, d, policy, v, next);
                }
            },
        }
    }
}

/// Appends the places from `i` up to `end`.
fn push_places(v: &mut Vec<usize>, i: usize, end: usize)
    requires
        i <= end,
    ensures
        place_list(final(v)@) == place_list(old(v)@) + places_between(i as int, end as int),
{
    let ghost before = place_list(v@);
    let mut k: usize = i;
    proof {
        assert(before + places_between(i as int, i as int) =~= before);
    }
    while k < end
        invariant
            i <= k <= end,
            place_list(v@) == before + places_between(i as int, k as int),
        decreases end - k,
    {
        let ghost last = v@;
        v.push(k);
        proof {
            assert(place_list(v@) =~= place_list(last).push(k as int));
            assert(places_between(i as int, k + 1) =~= places_between(i as int, k as int).push(
                k as int,
            ));
            assert(place_list(v@) =~= before + places_between(i as int, k + 1));
        }
        k = k + 1;
    }
}

/// Appends the same place `n` times.
fn push_place(v: &mut Vec<usize>, i: usize, n: usize)
    ensures
        place_list(final(v)@) == place_list(old(v)@) + place_repeated(i as int, n as nat),
{
    let ghost before = place_list(v@);
    let mut k: usize = 0;
    proof {
        assert(before + place_repeated(i as int, 0) =~= before);
    }
    while k < n
        invariant
            k <= n,
            place_list(v@) == before + place_repeated(i as int, k as nat),
        decreases n - k,
    {
        let ghost last = v@;
        v.push(i);
        proof {
            assert(place_list(v@) =~= place_list(last).push(i as int));
            assert(place_list(v@) =~= before + place_repeated(i as int, (k + 1) as nat));
        }
        k = k + 1;
    }
}

/// Is `c` white space in the sense of Unicode?
fn is_unicode_space(c: char) -> (r: bool)
    ensures
        r == unicode_space(c),
{
    let u: u32 = c as u32;
    (0x9 <= u && u <= 0xd) || u == 0x20 || u == 0x85 || u == 0xa0 || u == 0x1680 || (0x2000 <= u
        && u <= 0x200a) || u == 0x2028 || u == 0x2029 || u == 0x202f || u == 0x205f || u == 0x3000
}

/// Is the last character of `s` that is not white space a slash?
fn is_slash_last(s: &Vec<char>) -> (r: bool)
    ensures
        r == ends_with_slash(s@, s@.len() as int),
{
    let mut i: usize = s.len();
    while i > 0 && is_unicode_space(s[i - 1])
        invariant
            0 <= i <= s@.len(),
            ends_with_slash(s@, s@.len() as int) == ends_with_slash(s@, i as int),
        decreases i,
    {
        i = i - 1;
    }
    i > 0 && s[i - 1] == '/'
}

/// Could `s` go on a reference that was opened before it?
fn is_reference_tail(s: &[char]) -> (r: bool)
    ensures
        r == starts_reference_tail(s@),
{
    s.len() > 0 && (s[0] == '#' || is_name_start_char(s[0]))
}

/// The last two characters of `a` followed by the first two of `b`.
fn make_seam(a: &[char], b: &[char]) -> (r: Vec<char>)
    ensures
        r@ == seam(a@, b@),
{
    let m: usize = if a.len() < 2 {
        a.len()
    } else {
        2
    };
    let n: usize = if b.len() < 2 {
        b.len()
    } else {
        2
    };
    let mut out = copy_between(a, a.len() - m, a.len());
    push_between(&mut out, b, 0, n);
    out
}

/// Would `text` between `before` and `after` make markup out of parts of both?
fn is_bad_boundary(before: &[char], text: &[char], after: &[char]) -> (r: bool)
    ensures
        r == bad_boundary(before@, text@, after@),
{
    if before.len() > 0 && before[before.len() - 1] == '&' && is_reference_tail(text) {
        return true;
    }
    if text.len() > 0 && text[text.len() - 1] == '&' && is_reference_tail(after) {
        return true;
    }
    let left = make_seam(before, text);
    let right = make_seam(text, after);
    has_text(left.as_slice(), "]]>") || has_text(right.as_slice(), "]]>")
}

/// `s` with every `quote` replaced by a reference.
fn replace_quote(s: &[char], quote: char) -> (out: Vec<char>)
    ensures
        out@ == without_quote_from(s@, 0, quote, Seq::empty()),
{
    let mut out: Vec<char> = Vec::new();
    let mut i: usize = 0;
    while i < s.len()
        invariant
            0 <= i <= s@.len(),
            without_quote_from(s@, 0, quote, Seq::empty()) == without_quote_from(
                s@,
                i as int,
                quote,
                out@,
            ),
        decreases s@.len() - i,
    {
        if s[i] == quote {
            if quote == '"' {
                push_text(&mut out, "&quot;");
            } else {
                push_text(&mut out, "&apos;");
            }
        } else {
            out.push(s[i]);
        }
        i = i + 1;
    }
    out
}

/// The text of `s` from `from` on with its references to declared entities replaced, where its
/// characters come from, and whether any was replaced.
fn expand_document_entity_references(
    s: &[char],
    from: usize,
    d: &Vec<EntityDeclaration>,
    policy: XmlEntityExpansionPolicy,
    v: XmlVersion,
) -> (r: Result<(Vec<char>, Vec<usize>, bool), Fault>)
    requires
        from <= s@.len(),
    ensures
        match r {
            Ok((out, places, changed)) => expanded_from(
                s@,
                from as int,
                declarations(d@),
                policy,
                v,
                expansion_start(),
            ) matches Ok(e) && e.out == out@ && e.places == place_list(places@) && e.changed
                == changed,
            Err(f) => expanded_from(
                s@,
                from as int,
                declarations(d@),
                policy,
                v,
                expansion_start(),
            ) == Err::<ExpansionState, FaultModel>(f@) && f.at <= s@.len(),
        },
{
    let mut out: Vec<char> = Vec::new();
    let mut places: Vec<usize> = Vec::new();
    proof {
        assert(place_list(places@) =~= Seq::<int>::empty());
    }
    let mut changed: bool = false;
    let mut depth: usize = 0;
    let mut spent: usize = 0;
    let mut mode: ExpansionMode = ExpansionMode::Content;
    let mut i: usize = from;
    while i < s.len()
        invariant
            from <= i <= s@.len(),
            depth <= i,
            expanded_from(s@, from as int, declarations(d@), policy, v, expansion_start())
                == expanded_from(
                s@,
                i as int,
                declarations(d@),
                policy,
                v,
                ExpansionState {
                    mode,
                    out: out@,
                    places: place_list(places@),
                    changed,
                    depth: depth as int,
                    spent: spent as int,
                },
            ),
        decreases s@.len() - i,
    {
        let here = match mode {
            ExpansionMode::Content => depth > 0,
            ExpansionMode::Tag { .. } => false,
            ExpansionMode::Quoted { .. } => true,
        };
        let ghost state = ExpansionState {
            mode,
            out: out@,
            places: place_list(places@),
            changed,
            depth: depth as int,
            spent: spent as int,
        };
        if here {
            if let Some((semicolon, end)) = find_general_reference(s, i) {
                let name = slice_subrange(s, i + 1, semicolon);
                if is_expandable(d, name) {
                    proof {
                        assert(replaceable_reference(s@, i as int, declarations(d@), state)
                            == Some((name@, end as int)));
                    }
                    let (raw, after) = match expand_one_entity(d, name, policy, v, spent) {
                        Err(kind) => {
                            return Err(Fault { kind, at: i });
                        },
                        Ok(x) => x,
                    };
                    let text = match mode {
                        ExpansionMode::Quoted { quote, .. } => replace_quote(raw.as_slice(), quote),
                        _ => raw,
                    };
                    if is_bad_boundary(
                        out.as_slice(),
                        text.as_slice(),
                        slice_subrange(s, end, s.len()),
                    ) {
                        return Err(Fault { kind: XmlErrorKind::InvalidDocumentStructure, at: i });
                    }
                    proof {
                        assert(text@.subrange(0, text@.len() as int) =~= text@);
                    }
                    push_between(&mut out, text.as_slice(), 0, text.len());
                    push_place(&mut places, i, text.len());
                    changed = true;
                    spent = after;
                    i = end;
                    continue;
                }
            }
        }
        proof {
            assert(replaceable_reference(s@, i as int, declarations(d@), state) is None);
        }
        match mode {
            ExpansionMode::Content => {
                if let Some(end) = skip_opaque(s, i) {
                    push_between(&mut out, s, i, end);
                    push_places(&mut places, i, end);
                    i = end;
                    continue;
                }
                if s[i] == '<' {
                    mode = ExpansionMode::Tag { end: starts_with(s, i, "</") };
                }
                out.push(s[i]);
            },
            ExpansionMode::Tag { end } => {
                if s[i] == '>' {
                    if end {
                        if depth > 0 {
                            depth = depth - 1;
                        }
                    } else if !is_slash_last(&out) {
                        depth = depth + 1;
                    }
                    mode = ExpansionMode::Content;
                } else if s[i] == '"' || s[i] == '\'' {
                    mode = ExpansionMode::Quoted { quote: s[i], end };
                }
                out.push(s[i]);
            },
            ExpansionMode::Quoted { quote, end } => {
                if s[i] == quote {
                    mode = ExpansionMode::Tag { end };
                }
                out.push(s[i]);
            },
        }
        let ghost before = places@;
        places.push(i);
        proof {
            assert(place_list(places@) =~= place_list(before).push(i as int));
        }
        i = i + 1;
    }
    Ok((out, places, changed))
}

/// The document `s` with the references behind `from` to declared entities replaced, if there are
/// any.
pub(crate) fn expand_document_tail(
    s: &[char],
    from: usize,
    d: &Vec<EntityDeclaration>,
    policy: XmlEntityExpansionPolicy,
    v: XmlVersion,
) -> (r: Result<Option<(Vec<char>, Vec<usize>)>, Fault>)
    requires
        from <= s@.len(),
    ensures
        match r {
            Ok(Some((out, places))) => expanded_document(
                s@,
                from as int,
                declarations(d@),
                policy,
                v,
            ) == Ok::<Option<Expanded>, FaultModel>(
                Some(Expanded { text: out@, places: place_list(places@) }),
            ) && places_within(place_list(places@), s@.len() as int),
            Ok(None) => expanded_document(s@, from as int, declarations(d@), policy, v) == Ok::<
                Option<Expanded>,
                FaultModel,
            >(None),
            Err(f) => expanded_document(s@, from as int, declarations(d@), policy, v) == Err::<
                Option<Expanded>,
                FaultModel,
            >(f@) && f.at <= s@.len(),
        },
{
    if d.len() == 0 {
        return Ok(None);
    }
    match expand_document_entity_references(s, from, d, policy, v) {
        Err(f) => Err(f),
        Ok((tail, places, changed)) => if changed {
            let mut whole = copy_between(s, 0, from);
            let mut all: Vec<usize> = Vec::new();
            push_places(&mut all, 0, from);
            let ghost first = all@;
            let ghost rest = places@;
            let mut places = places;
            all.append(&mut places);
            proof {
                assert(tail@.subrange(0, tail@.len() as int) =~= tail@);
                assert(place_list(all@) =~= places_between(0, from as int) + place_list(rest));
                lemma_places_within(
                    s@,
                    from as int,
                    declarations(d@),
                    policy,
                    v,
                    expansion_start(),
                );
            }
            push_between(&mut whole, tail.as_slice(), 0, tail.len());
            Ok(Some((whole, all)))
        } else {
            Ok(None)
        },
    }
}

} // verus!
