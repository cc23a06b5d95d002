//! The grammar of the internal subset of a document type declaration.

use vstd::prelude::*;
use vstd::slice::slice_subrange;

use crate::error::{fault, ErrorKindModel, Fault, FaultModel, Read, XmlErrorKind};
use crate::lexeme::{
    decode_character_reference, decode_predefined_entity, numeric_reference, predefined_entity,
    XmlVersion,
};
use crate::scan::{
    agrees, comment_end, expect, expected, instruction_end, is_keyword, keyword_at, name_end,
    nmtoken_end, read_comment, read_instruction, read_name, read_nmtoken, require_space,
    required_space, skip_space, space_end,
};
use crate::syntax::{
    is_pubid_char, is_xml11_literal_char, is_xml_char, pubid_char, xml10_char, xml11_literal,
};
use crate::text::{
    find_char, find_char_from, push_between, same_chars, starts_at, starts_with, string_between,
};

verus! {

/// How deeply content model groups may be nested.
pub const MAX_CONTENT_MODEL_DEPTH: usize = 128;

/// A general entity.
pub enum XmlGeneralEntity {
    /// Declared with its replacement text.
    Internal(Vec<char>),
    /// Declared by an identifier.
    External,
}

/// A general entity with its name.
pub struct EntityDeclaration {
    /// The name.
    pub name: Vec<char>,
    /// The entity.
    pub entity: XmlGeneralEntity,
}

/// `XmlGeneralEntity` with its text as a character sequence.
#[verifier::ext_equal]
pub enum EntityModel {
    Internal(Seq<char>),
    External,
}

/// `EntityDeclaration` with its texts as character sequences.
#[verifier::ext_equal]
pub struct EntityDeclarationModel {
    pub name: Seq<char>,
    pub entity: EntityModel,
}

impl View for XmlGeneralEntity {
    type V = EntityModel;

    open spec fn view(&self) -> EntityModel {
        match *self {
            XmlGeneralEntity::Internal(v) => EntityModel::Internal(v@),
            XmlGeneralEntity::External => EntityModel::External,
        }
    }
}

impl View for EntityDeclaration {
    type V = EntityDeclarationModel;

    open spec fn view(&self) -> EntityDeclarationModel {
        EntityDeclarationModel { name: self.name@, entity: self.entity@ }
    }
}

/// The declarations of a list as texts.
pub open spec fn declarations(v: Seq<EntityDeclaration>) -> Seq<EntityDeclarationModel> {
    Seq::new(v.len(), |i: int| v[i]@)
}

/// The entity that `name` stands for: the first of the declarations from `i` on that bears it.
pub open spec fn entity_from(d: Seq<EntityDeclarationModel>, i: int, name: Seq<char>) -> Option<
    EntityModel,
>
    decreases d.len() - i,
{
    if i < 0 || i >= d.len() {
        None
    } else if d[i].name == name {
        Some(d[i].entity)
    } else {
        entity_from(d, i + 1, name)
    }
}

/// The entity that `name` stands for.
pub open spec fn entity_named(d: Seq<EntityDeclarationModel>, name: Seq<char>) -> Option<
    EntityModel,
> {
    entity_from(d, 0, name)
}

/// Finds the entity that `name` stands for.
pub(crate) fn find_entity<'a>(d: &'a Vec<EntityDeclaration>, name: &[char]) -> (r: Option<
    &'a XmlGeneralEntity,
>)
    ensures
        match r {
            Some(e) => entity_named(declarations(d@), name@) == Some(e@),
            None => entity_named(declarations(d@), name@) is None,
        },
{
    let mut i: usize = 0;
    while i < d.len()
        invariant
            0 <= i <= d.len(),
            entity_named(declarations(d@), name@) == entity_from(
                declarations(d@),
                i as int,
                name@,
            ),
        decreases d.len() - i,
    {
        if same_chars(d[i].name.as_slice(), name) {
            return Some(&d[i].entity);
        }
        i = i + 1;
    }
    None
}

/// A literal character of the document type declaration.
pub open spec fn literal_char(c: char, v: XmlVersion) -> bool {
    match v {
        XmlVersion::Xml10 => xml10_char(c),
        XmlVersion::Xml11 => xml11_literal(c),
    }
}

/// Is `c` a literal character?
pub(crate) fn is_literal_char(c: char, v: XmlVersion) -> (r: bool)
    ensures
        r == literal_char(c, v),
{
    match v {
        XmlVersion::Xml10 => is_xml_char(c),
        XmlVersion::Xml11 => is_xml11_literal_char(c),
    }
}

// ---------------------------------------------------------------------------------------------
// Content models
// ---------------------------------------------------------------------------------------------

/// `name` is one of `names`.
pub open spec fn name_among(names: Seq<Seq<char>>, name: Seq<char>) -> bool {
    exists|k: int| 0 <= k < names.len() && #[trigger] names[k] == name
}

/// The end of an optional `?`, `*` or `+` at `i`.
pub open spec fn quantifier_end(s: Seq<char>, i: int) -> int {
    if 0 <= i < s.len() && (s[i] == '?' || s[i] == '*' || s[i] == '+') {
        i + 1
    } else {
        i
    }
}

/// The character `c` of a content model at `i`.
pub open spec fn model_token(s: Seq<char>, i: int, c: char) -> Read<int> {
    if 0 <= i < s.len() && s[i] == c {
        Ok(i + 1)
    } else {
        fault(ErrorKindModel::Expected("content model token"@), i)
    }
}

/// The further names of a mixed model, from a `|` on.
pub open spec fn mixed_rest(s: Seq<char>, i: int) -> Read<int>
    decreases s.len() - i,
{
    match model_token(s, i, '|') {
        Err(f) => Err(f),
        Ok(j) => match name_end(s, space_end(s, j)) {
            Err(f) => Err(f),
            Ok(k) => {
                let m = space_end(s, k);
                if m <= i || m > s.len() {
                    fault(ErrorKindModel::UnexpectedEof, i)
                } else if m < s.len() && s[m] == ')' {
                    model_token(s, m + 1, '*')
                } else {
                    mixed_rest(s, m)
                }
            },
        },
    }
}

/// The rest of a mixed model, behind `#PCDATA`.
pub open spec fn mixed_tail(s: Seq<char>, i: int) -> Read<int> {
    let j = space_end(s, i);
    if 0 <= j < s.len() && s[j] == ')' {
        Ok(j + 1)
    } else {
        mixed_rest(s, j)
    }
}

/// A group of a content model: whether it is mixed, and its end.
pub open spec fn content_group(s: Seq<char>, i: int, depth: int) -> Read<(bool, int)>
    decreases s.len() - i, 0int,
{
    if depth > MAX_CONTENT_MODEL_DEPTH {
        fault(ErrorKindModel::DepthLimitExceeded, i)
    } else {
        match model_token(s, i, '(') {
            Err(f) => Err(f),
            Ok(open) => {
                let j = space_end(s, open);
                if j <= i || j > s.len() {
                    fault(ErrorKindModel::UnexpectedEof, i)
                } else if starts_at(s, j, "#PCDATA"@) {
                    match mixed_tail(s, j + 7) {
                        Err(f) => Err(f),
                        Ok(k) => Ok((true, k)),
                    }
                } else {
                    match content_particle(s, j, depth) {
                        Err(f) => Err(f),
                        Ok((name, k)) => {
                            let m = space_end(s, k);
                            if m <= i || m > s.len() {
                                fault(ErrorKindModel::UnexpectedEof, i)
                            } else {
                                let names = match name {
                                    Some(n) => seq![n],
                                    None => Seq::empty(),
                                };
                                match group_rest(s, m, depth, None, names) {
                                    Err(f) => Err(f),
                                    Ok(end) => Ok((false, end)),
                                }
                            }
                        },
                    }
                }
            },
        }
    }
}

/// A particle of a content model: its name, if it is one, and its end.
pub open spec fn content_particle(s: Seq<char>, i: int, depth: int) -> Read<
    (Option<Seq<char>>, int),
>
    decreases s.len() - i, 1int,
{
    let j = space_end(s, i);
    if j >= s.len() || j < i {
        fault(ErrorKindModel::UnexpectedEof, j)
    } else if s[j] == '(' {
        match content_group(s, j, depth + 1) {
            Err(f) => Err(f),
            Ok((mixed, k)) => if mixed {
                fault(ErrorKindModel::InvalidDocumentStructure, k)
            } else {
                Ok((None, quantifier_end(s, k)))
            },
        }
    } else {
        match name_end(s, j) {
            Err(f) => Err(f),
            Ok(k) => Ok((Some(s.subrange(j, k)), quantifier_end(s, k))),
        }
    }
}

/// The rest of a group, behind its first particle; `separator` is the one seen so far.
pub open spec fn group_rest(
    s: Seq<char>,
    i: int,
    depth: int,
    separator: Option<char>,
    names: Seq<Seq<char>>,
) -> Read<int>
    decreases s.len() - i, 2int,
{
    if i >= s.len() {
        fault(ErrorKindModel::UnexpectedEof, i)
    } else if s[i] == ')' {
        Ok(i + 1)
    } else if s[i] == ',' || s[i] == '|' {
        if separator is Some && separator != Some(s[i]) {
            fault(ErrorKindModel::InvalidDocumentStructure, i)
        } else {
            let j = space_end(s, i + 1);
            if j <= i || j > s.len() {
                fault(ErrorKindModel::UnexpectedEof, i)
            } else {
                match content_particle(s, j, depth) {
                    Err(f) => Err(f),
                    Ok((name, k)) => {
                        let m = space_end(s, k);
                        if m <= i || m > s.len() {
                            fault(ErrorKindModel::UnexpectedEof, i)
                        } else {
                            match name {
                                Some(n) => if s[i] == '|' && name_among(names, n) {
                                    fault(ErrorKindModel::InvalidDocumentStructure, k)
                                } else if s[i] == '|' {
                                    group_rest(s, m, depth, Some(s[i]), names.push(n))
                                } else {
                                    group_rest(s, m, depth, Some(s[i]), names)
                                },
                                None => group_rest(s, m, depth, Some(s[i]), names),
                            }
                        }
                    },
                }
            }
        }
    } else {
        fault(ErrorKindModel::InvalidDocumentStructure, i)
    }
}

/// The content model at `i`.
pub open spec fn content_model_end(s: Seq<char>, i: int) -> Read<int> {
    match content_group(s, i, 1) {
        Err(f) => Err(f),
        Ok((mixed, k)) => if mixed {
            if k < s.len() && s[k] == '*' {
                Ok(k + 1)
            } else {
                Ok(k)
            }
        } else {
            Ok(quantifier_end(s, k))
        },
    }
}

/// The names of a list as texts.
pub open spec fn name_texts(v: Seq<Vec<char>>) -> Seq<Seq<char>> {
    Seq::new(v.len(), |i: int| v[i]@)
}

/// Is `name` one of `names`?
pub(crate) fn is_name_among(names: &Vec<Vec<char>>, name: &[char]) -> (r: bool)
    ensures
        r == name_among(name_texts(names@), name@),
{
    let mut i: usize = 0;
    while i < names.len()
        invariant
            0 <= i <= names.len(),
            forall|k: int| 0 <= k < i ==> (#[trigger] names@[k])@ != name@,
        decreases names.len() - i,
    {
        if same_chars(names[i].as_slice(), name) {
            proof {
                assert(name_texts(names@)[i as int] == name@);
            }
            return true;
        }
        i = i + 1;
    }
    proof {
        assert forall|k: int| 0 <= k < name_texts(names@).len() implies #[trigger] name_texts(
            names@,
        )[k] != name@ by {
            assert(names@[k]@ != name@);
        }
    }
    false
}

/// A copy of the characters `from..to` of `s`.
pub(crate) fn copy_between(s: &[char], from: usize, to: usize) -> (out: Vec<char>)
    requires
        from <= to <= s@.len(),
    ensures
        out@ == s@.subrange(from as int, to as int),
{
    let mut out: Vec<char> = Vec::new();
    push_between(&mut out, s, from, to);
    proof {
        assert(Seq::<char>::empty() + s@.subrange(from as int, to as int) =~= s@.subrange(
            from as int,
            to as int,
        ));
    }
    out
}

/// Skips an optional `?`, `*` or `+` at `i`.
fn skip_quantifier(s: &[char], i: usize) -> (r: usize)
    requires
        i <= s@.len(),
    ensures
        r == quantifier_end(s@, i as int),
        i <= r <= s@.len(),
{
    if i < s.len() && (s[i] == '?' || s[i] == '*' || s[i] == '+') {
        i + 1
    } else {
        i
    }
}

/// Reads the character `c` of a content model at `i`.
fn expect_model_token(s: &[char], i: usize, c: char) -> (r: Result<usize, Fault>)
    requires
        i <= s@.len(),
    ensures
        agrees(r, model_token(s@, i as int, c), i + 1, s@.len() as int),
{
    if i < s.len() && s[i] == c {
        Ok(i + 1)
    } else {
        Err(Fault { kind: XmlErrorKind::Expected("content model token"), at: i })
    }
}

/// Reads the rest of a mixed model, behind `#PCDATA`.
fn parse_mixed_tail(s: &[char], i: usize) -> (r: Result<usize, Fault>)
    requires
        i <= s@.len(),
    ensures
        agrees(r, mixed_tail(s@, i as int), i + 1, s@.len() as int),
{
    let mut k: usize = skip_space(s, i);
    if k < s.len() && s[k] == ')' {
        return Ok(k + 1);
    }
    loop
        invariant
            i <= k <= s@.len(),
            mixed_tail(s@, i as int) == mixed_rest(s@, k as int),
        decreases s.len() - k,
    {
        let j: usize = match expect_model_token(s, k, '|') {
            Err(f) => {
                return Err(f);
            },
            Ok(j) => skip_space(s, j),
        };
        let m: usize = match read_name(s, j) {
            Err(f) => {
                return Err(f);
            },
            Ok(e) => skip_space(s, e),
        };
        if m < s.len() && s[m] == ')' {
            return expect_model_token(s, m + 1, '*');
        }
        k = m;
    }
}

/// Reads a group of a content model.
fn parse_group(s: &[char], i: usize, depth: usize) -> (r: Result<(bool, usize), Fault>)
    requires
        i <= s@.len(),
        depth <= MAX_CONTENT_MODEL_DEPTH + 1,
    ensures
        match r {
            Ok((mixed, k)) => content_group(s@, i as int, depth as int) == Ok::<
                (bool, int),
                FaultModel,
            >((mixed, k as int)) && i < k <= s@.len(),
            Err(f) => content_group(s@, i as int, depth as int) == Err::<(bool, int), FaultModel>(
                f@,
            ) && f.at <= s@.len(),
        },
    decreases s@.len() - i, 0int,
{
    proof {
        reveal_strlit("#PCDATA");
    }
    if depth > MAX_CONTENT_MODEL_DEPTH {
        return Err(Fault { kind: XmlErrorKind::DepthLimitExceeded, at: i });
    }
    let j: usize = match expect_model_token(s, i, '(') {
        Err(f) => {
            return Err(f);
        },
        Ok(open) => skip_space(s, open),
    };
    if starts_with(s, j, "#PCDATA") {
        return match parse_mixed_tail(s, j + 7) {
            Err(f) => Err(f),
            Ok(k) => Ok((true, k)),
        };
    }
    let (name, k) = match parse_cp(s, j, depth) {
        Err(f) => {
            return Err(f);
        },
        Ok(p) => p,
    };
    let mut names: Vec<Vec<char>> = Vec::new();
    match name {
        Some(n) => {
            names.push(n);
            proof {
                assert(name_texts(names@) =~= seq![n@]);
            }
        },
        None => {
            proof {
                assert(name_texts(names@) =~= Seq::<Seq<char>>::empty());
            }
        },
    }
    let mut separator: Option<char> = None;
    let mut m: usize = skip_space(s, k);
    let ghost first = m;
    let ghost group = group_rest(s@, m as int, depth as int, None, name_texts(names@));
    loop
        invariant
            i < m <= s@.len(),
            depth <= MAX_CONTENT_MODEL_DEPTH,
            group == group_rest(s@, m as int, depth as int, separator, name_texts(names@)),
            content_group(s@, i as int, depth as int) == (match group {
                Err(f) => Err::<(bool, int), FaultModel>(f),
                Ok(end) => Ok::<(bool, int), FaultModel>((false, end)),
            }),
        decreases s@.len() - m,
    {
        if m >= s.len() {
            return Err(Fault { kind: XmlErrorKind::UnexpectedEof, at: m });
        }
        let current = s[m];
        if current == ')' {
            return Ok((false, m + 1));
        }
        if current != ',' && current != '|' {
            return Err(Fault { kind: XmlErrorKind::InvalidDocumentStructure, at: m });
        }
        if let Some(previous) = separator {
            if previous != current {
                return Err(Fault { kind: XmlErrorKind::InvalidDocumentStructure, at: m });
            }
        }
        separator = Some(current);
        let j: usize = skip_space(s, m + 1);
        let (next, k) = match parse_cp(s, j, depth) {
            Err(f) => {
                return Err(f);
            },
            Ok(p) => p,
        };
        let after: usize = skip_space(s, k);
        if current == '|' {
            if let Some(n) = next {
                if is_name_among(&names, n.as_slice()) {
                    return Err(Fault { kind: XmlErrorKind::InvalidDocumentStructure, at: k });
                }
                let ghost before = names@;
                let ghost added = n@;
                names.push(n);
                proof {
                    assert(name_texts(names@) =~= name_texts(before).push(added));
                }
            }
        }
        m = after;
    }
}

/// Reads a particle of a content model.
fn parse_cp(s: &[char], i: usize, depth: usize) -> (r: Result<(Option<Vec<char>>, usize), Fault>)
    requires
        i <= s@.len(),
        depth <= MAX_CONTENT_MODEL_DEPTH,
    ensures
        match r {
            Ok((name, k)) => content_particle(s@, i as int, depth as int) == Ok::<
                (Option<Seq<char>>, int),
                FaultModel,
            >(
                (
                    match name {
                        Some(n) => Some(n@),
                        None => None,
                    },
                    k as int,
                ),
            ) && i < k <= s@.len(),
            Err(f) => content_particle(s@, i as int, depth as int) == Err::<
                (Option<Seq<char>>, int),
                FaultModel,
            >(f@) && f.at <= s@.len(),
        },
    decreases s@.len() - i, 1int,
{
    let j: usize = skip_space(s, i);
    if j >= s.len() {
        return Err(Fault { kind: XmlErrorKind::UnexpectedEof, at: j });
    }
    if s[j] == '(' {
        match parse_group(s, j, depth + 1) {
            Err(f) => Err(f),
            Ok((mixed, k)) => if mixed {
                Err(Fault { kind: XmlErrorKind::InvalidDocumentStructure, at: k })
            } else {
                Ok((None, skip_quantifier(s, k)))
            },
        }
    } else {
        match read_name(s, j) {
            Err(f) => Err(f),
            Ok(k) => Ok((Some(copy_between(s, j, k)), skip_quantifier(s, k))),
        }
    }
}

/// Reads the content model at `i`.
pub(crate) fn validate_content_model(s: &[char], i: usize) -> (r: Result<usize, Fault>)
    requires
        i <= s@.len(),
    ensures
        agrees(r, content_model_end(s@, i as int), i + 1, s@.len() as int),
{
    match parse_group(s, i, 1) {
        Err(f) => Err(f),
        Ok((mixed, k)) => if mixed {
            if k < s.len() && s[k] == '*' {
                Ok(k + 1)
            } else {
                Ok(k)
            }
        } else {
            Ok(skip_quantifier(s, k))
        },
    }
}

// ---------------------------------------------------------------------------------------------
// Literals
// ---------------------------------------------------------------------------------------------

/// A quotation mark stands at `i`.
pub open spec fn quote_at(s: Seq<char>, i: int) -> bool {
    0 <= i < s.len() && (s[i] == '"' || s[i] == '\'')
}

/// The opening quotation mark of a literal at `i`.
pub open spec fn quote_end(s: Seq<char>, i: int) -> Read<int> {
    if quote_at(s, i) {
        Ok(i + 1)
    } else {
        fault(ErrorKindModel::Expected("quoted literal"@), i)
    }
}

/// The rest of a system literal.
pub open spec fn system_rest(s: Seq<char>, i: int, quote: char, v: XmlVersion) -> Read<int>
    decreases s.len() - i,
{
    if i >= s.len() {
        fault(ErrorKindModel::UnexpectedEof, i)
    } else if s[i] == quote {
        Ok(i + 1)
    } else if s[i] == '#' {
        fault(ErrorKindModel::InvalidDocumentStructure, i)
    } else if !literal_char(s[i], v) {
        fault(ErrorKindModel::InvalidCharacter, i)
    } else {
        system_rest(s, i + 1, quote, v)
    }
}

/// The system literal at `i`.
pub open spec fn system_literal_end(s: Seq<char>, i: int, v: XmlVersion) -> Read<int> {
    match quote_end(s, i) {
        Err(f) => Err(f),
        Ok(j) => system_rest(s, j, s[i], v),
    }
}

/// The rest of a public identifier.
pub open spec fn pubid_rest(s: Seq<char>, i: int, quote: char) -> Read<int>
    decreases s.len() - i,
{
    if i >= s.len() {
        fault(ErrorKindModel::UnexpectedEof, i)
    } else if s[i] == quote {
        Ok(i + 1)
    } else if !pubid_char(s[i]) {
        fault(ErrorKindModel::InvalidDocumentStructure, i)
    } else {
        pubid_rest(s, i + 1, quote)
    }
}

/// The public identifier at `i`.
pub open spec fn pubid_literal_end(s: Seq<char>, i: int) -> Read<int> {
    match quote_end(s, i) {
        Err(f) => Err(f),
        Ok(j) => pubid_rest(s, j, s[i]),
    }
}

/// The external identifier at `i`.
pub open spec fn external_id_end(s: Seq<char>, i: int, v: XmlVersion) -> Read<int> {
    if keyword_at(s, i, "SYSTEM"@) {
        match required_space(s, i + 6) {
            Err(f) => Err(f),
            Ok(j) => system_literal_end(s, j, v),
        }
    } else if keyword_at(s, i, "PUBLIC"@) {
        match required_space(s, i + 6) {
            Err(f) => Err(f),
            Ok(j) => match pubid_literal_end(s, j) {
                Err(f) => Err(f),
                Ok(k) => match required_space(s, k) {
                    Err(f) => Err(f),
                    Ok(m) => system_literal_end(s, m, v),
                },
            },
        }
    } else {
        fault(ErrorKindModel::InvalidDocumentStructure, i)
    }
}

/// A digit of the given radix.
pub open spec fn radix_digit(c: char, radix: int) -> bool {
    crate::lexeme::digit_value(c, radix) is Some
}

/// The end of the digits at `i`.
pub open spec fn digits_end(s: Seq<char>, i: int, radix: int) -> int
    decreases s.len() - i,
{
    if 0 <= i < s.len() && radix_digit(s[i], radix) {
        digits_end(s, i + 1, radix)
    } else {
        i
    }
}

/// The rest of a character reference, behind `&#`.
pub open spec fn character_reference_tail(s: Seq<char>, i: int, v: XmlVersion) -> Read<int> {
    let hex = starts_at(s, i, "x"@);
    let radix = if hex {
        16int
    } else {
        10int
    };
    let start = if hex {
        i + 1
    } else {
        i
    };
    let end = digits_end(s, start, radix);
    if end == start {
        fault(ErrorKindModel::InvalidCharacterReference, end)
    } else {
        match expected(s, end, ";"@) {
            Err(f) => Err(f),
            Ok(k) => match numeric_reference(s.subrange(start, end), radix, v) {
                Some(_) => Ok(k),
                None => fault(ErrorKindModel::InvalidCharacterReference, k),
            },
        }
    }
}

/// The reference at `i` in an entity value.
pub open spec fn literal_reference_end(s: Seq<char>, i: int, v: XmlVersion) -> Read<int> {
    match expected(s, i, "&"@) {
        Err(f) => Err(f),
        Ok(j) => if starts_at(s, j, "#"@) {
            character_reference_tail(s, j + 1, v)
        } else {
            match name_end(s, j) {
                Err(f) => Err(f),
                Ok(k) => expected(s, k, ";"@),
            }
        },
    }
}

/// The reference at `i` in an attribute default; the entity must be declared.
pub open spec fn declared_reference_end(
    s: Seq<char>,
    i: int,
    v: XmlVersion,
    d: Seq<EntityDeclarationModel>,
) -> Read<int> {
    match expected(s, i, "&"@) {
        Err(f) => Err(f),
        Ok(j) => if starts_at(s, j, "#"@) {
            character_reference_tail(s, j + 1, v)
        } else {
            match name_end(s, j) {
                Err(f) => Err(f),
                Ok(k) => match expected(s, k, ";"@) {
                    Err(f) => Err(f),
                    Ok(m) => {
                        let name = s.subrange(j, k);
                        if predefined_entity(name) is Some || entity_named(d, name) is Some {
                            Ok(m)
                        } else {
                            fault(ErrorKindModel::UndeclaredEntity(name), m)
                        }
                    },
                },
            }
        },
    }
}

/// The parameter entity reference at `i`.
pub open spec fn parameter_reference_end(s: Seq<char>, i: int) -> Read<int> {
    match expected(s, i, "%"@) {
        Err(f) => Err(f),
        Ok(j) => match name_end(s, j) {
            Err(f) => Err(f),
            Ok(k) => expected(s, k, ";"@),
        },
    }
}

/// The closing quotation mark of an entity value.
pub open spec fn entity_value_close(s: Seq<char>, i: int, quote: char, v: XmlVersion) -> Read<int>
    decreases s.len() - i,
{
    if i >= s.len() {
        fault(ErrorKindModel::UnexpectedEof, i)
    } else if s[i] == quote {
        Ok(i)
    } else if s[i] == '&' || s[i] == '%' {
        let r = if s[i] == '&' {
            literal_reference_end(s, i, v)
        } else {
            parameter_reference_end(s, i)
        };
        match r {
            Err(f) => Err(f),
            Ok(k) => if k <= i || k > s.len() {
                fault(ErrorKindModel::UnexpectedEof, i)
            } else {
                entity_value_close(s, k, quote, v)
            },
        }
    } else if !literal_char(s[i], v) {
        fault(ErrorKindModel::InvalidCharacter, i)
    } else {
        entity_value_close(s, i + 1, quote, v)
    }
}

/// A control character that XML 1.1 keeps as a reference inside an entity value.
pub open spec fn kept_control(c: char) -> bool {
    let u = c as u32;
    0x1 <= u <= 0x8 || 0xb <= u <= 0xc || 0xe <= u <= 0x1f
}

/// `out` followed by the entity value `t` from `i` on, character references replaced; faults are
/// reported relative to `base`.
pub open spec fn entity_value_from(
    t: Seq<char>,
    i: int,
    v: XmlVersion,
    base: int,
    out: Seq<char>,
) -> Read<Seq<char>>
    decreases t.len() - i,
{
    if i < 0 || i >= t.len() {
        Ok(out)
    } else if !starts_at(t, i, "&#"@) {
        entity_value_from(t, i + 1, v, base, out.push(t[i]))
    } else {
        match find_char_from(t, i + 2, ';') {
            None => fault(ErrorKindModel::InvalidCharacterReference, base + i),
            Some(end) => if end <= i || end >= t.len() {
                Ok(out)
            } else {
                let name = t.subrange(i + 2, end);
                let hex = name.len() > 0 && name[0] == 'x';
                let value = if hex {
                    numeric_reference(name.subrange(1, name.len() as int), 16, v)
                } else {
                    numeric_reference(name, 10, v)
                };
                match value {
                    None => fault(ErrorKindModel::InvalidCharacterReference, base + i),
                    Some(c) => if v == XmlVersion::Xml11 && kept_control(c) {
                        entity_value_from(t, end + 1, v, base, out + t.subrange(i, end + 1))
                    } else {
                        entity_value_from(t, end + 1, v, base, out.push(c))
                    },
                }
            },
        }
    }
}

/// The entity value at `i`: its text and its end.
pub open spec fn entity_value(s: Seq<char>, i: int, v: XmlVersion) -> Read<(Seq<char>, int)> {
    match quote_end(s, i) {
        Err(f) => Err(f),
        Ok(j) => match entity_value_close(s, j, s[i], v) {
            Err(f) => Err(f),
            Ok(k) => match entity_value_from(s.subrange(j, k), 0, v, j, Seq::empty()) {
                Err(f) => Err(f),
                Ok(value) => Ok((value, k + 1)),
            },
        },
    }
}

/// The rest of an attribute default.
pub open spec fn default_value_rest(
    s: Seq<char>,
    i: int,
    quote: char,
    v: XmlVersion,
    d: Seq<EntityDeclarationModel>,
) -> Read<int>
    decreases s.len() - i,
{
    if i >= s.len() {
        fault(ErrorKindModel::UnexpectedEof, i)
    } else if s[i] == quote {
        Ok(i + 1)
    } else if s[i] == '<' {
        fault(ErrorKindModel::InvalidAttributeValue, i)
    } else if s[i] == '&' {
        match declared_reference_end(s, i, v, d) {
            Err(f) => Err(f),
            Ok(k) => if k <= i || k > s.len() {
                fault(ErrorKindModel::UnexpectedEof, i)
            } else {
                default_value_rest(s, k, quote, v, d)
            },
        }
    } else if !literal_char(s[i], v) {
        fault(ErrorKindModel::InvalidCharacter, i)
    } else {
        default_value_rest(s, i + 1, quote, v, d)
    }
}

/// The attribute default at `i`.
pub open spec fn default_value_end(
    s: Seq<char>,
    i: int,
    v: XmlVersion,
    d: Seq<EntityDeclarationModel>,
) -> Read<int> {
    match quote_end(s, i) {
        Err(f) => Err(f),
        Ok(j) => default_value_rest(s, j, s[i], v, d),
    }
}

/// Does a quotation mark stand at `i`?
fn is_quote(s: &[char], i: usize) -> (r: bool)
    requires
        i <= s@.len(),
    ensures
        r == quote_at(s@, i as int),
        r ==> i < usize::MAX,
{
    i < s.len() && (s[i] == '"' || s[i] == '\'')
}

/// Reads the opening quotation mark at `i`.
fn parse_quote(s: &[char], i: usize) -> (r: Result<usize, Fault>)
    requires
        i <= s@.len(),
    ensures
        agrees(r, quote_end(s@, i as int), i + 1, s@.len() as int),
        r is Ok ==> quote_at(s@, i as int) && r->Ok_0 == i + 1,
{
    if is_quote(s, i) {
        Ok(i + 1)
    } else {
        Err(Fault { kind: XmlErrorKind::Expected("quoted literal"), at: i })
    }
}

/// Reads the system literal at `i`.
pub(crate) fn parse_system_literal(s: &[char], i: usize, v: XmlVersion) -> (r: Result<usize, Fault>)
    requires
        i <= s@.len(),
    ensures
        agrees(r, system_literal_end(s@, i as int, v), i + 2, s@.len() as int),
{
    let mut k: usize = match parse_quote(s, i) {
        Err(f) => {
            return Err(f);
        },
        Ok(j) => j,
    };
    let quote = s[i];
    while k < s.len()
        invariant
            i < k <= s@.len(),
            system_literal_end(s@, i as int, v) == system_rest(s@, k as int, quote, v),
        decreases s.len() - k,
    {
        if s[k] == quote {
            return Ok(k + 1);
        }
        if s[k] == '#' {
            return Err(Fault { kind: XmlErrorKind::InvalidDocumentStructure, at: k });
        }
        if !is_literal_char(s[k], v) {
            return Err(Fault { kind: XmlErrorKind::InvalidCharacter, at: k });
        }
        k = k + 1;
    }
    Err(Fault { kind: XmlErrorKind::UnexpectedEof, at: k })
}

/// Reads the public identifier at `i`.
pub(crate) fn parse_pubid_literal(s: &[char], i: usize) -> (r: Result<usize, Fault>)
    requires
        i <= s@.len(),
    ensures
        agrees(r, pubid_literal_end(s@, i as int), i + 2, s@.len() as int),
{
    let mut k: usize = match parse_quote(s, i) {
        Err(f) => {
            return Err(f);
        },
        Ok(j) => j,
    };
    let quote = s[i];
    while k < s.len()
        invariant
            i < k <= s@.len(),
            pubid_literal_end(s@, i as int) == pubid_rest(s@, k as int, quote),
        decreases s.len() - k,
    {
        if s[k] == quote {
            return Ok(k + 1);
        }
        if !is_pubid_char(s[k]) {
            return Err(Fault { kind: XmlErrorKind::InvalidDocumentStructure, at: k });
        }
        k = k + 1;
    }
    Err(Fault { kind: XmlErrorKind::UnexpectedEof, at: k })
}

/// Reads the external identifier at `i`.
pub(crate) fn parse_external_id(s: &[char], i: usize, v: XmlVersion) -> (r: Result<usize, Fault>)
    requires
        i <= s@.len(),
    ensures
        agrees(r, external_id_end(s@, i as int, v), i + 1, s@.len() as int),
{
    proof {
        reveal_strlit("SYSTEM");
        reveal_strlit("PUBLIC");
    }
    if is_keyword(s, i, "SYSTEM") {
        match require_space(s, i + 6) {
            Err(f) => Err(f),
            Ok(j) => parse_system_literal(s, j, v),
        }
    } else if is_keyword(s, i, "PUBLIC") {
        match require_space(s, i + 6) {
            Err(f) => Err(f),
            Ok(j) => match parse_pubid_literal(s, j) {
                Err(f) => Err(f),
                Ok(k) => match require_space(s, k) {
                    Err(f) => Err(f),
                    Ok(m) => parse_system_literal(s, m, v),
                },
            },
        }
    } else {
        Err(Fault { kind: XmlErrorKind::InvalidDocumentStructure, at: i })
    }
}

/// Is `c` a digit of the given radix?
fn is_radix_digit(c: char, radix: u32) -> (r: bool)
    requires
        radix == 10 || radix == 16,
    ensures
        r == radix_digit(c, radix as int),
{
    ('0' <= c && c <= '9') || (radix == 16 && (('a' <= c && c <= 'f') || ('A' <= c && c <= 'F')))
}

/// Reads the rest of a character reference, behind `&#`.
pub(crate) fn parse_character_reference_tail(s: &[char], i: usize, v: XmlVersion) -> (r: Result<
    usize,
    Fault,
>)
    requires
        i <= s@.len(),
    ensures
        agrees(r, character_reference_tail(s@, i as int, v), i + 2, s@.len() as int),
{
    proof {
        reveal_strlit("x");
        reveal_strlit(";");
    }
    let hex = starts_with(s, i, "x");
    let radix: u32 = if hex {
        16
    } else {
        10
    };
    let start: usize = if hex {
        i + 1
    } else {
        i
    };
    let mut k: usize = start;
    while k < s.len() && is_radix_digit(s[k], radix)
        invariant
            radix == 10 || radix == 16,
            start <= k <= s@.len(),
            digits_end(s@, start as int, radix as int) == digits_end(s@, k as int, radix as int),
        decreases s.len() - k,
    {
        k = k + 1;
    }
    if k == start {
        return Err(Fault { kind: XmlErrorKind::InvalidCharacterReference, at: k });
    }
    match expect(s, k, ";") {
        Err(f) => Err(f),
        Ok(end) => match decode_character_reference(slice_subrange(s, start, k), radix, v) {
            Some(_) => Ok(end),
            None => Err(Fault { kind: XmlErrorKind::InvalidCharacterReference, at: end }),
        },
    }
}

/// Reads the reference at `i` in an entity value.
fn parse_general_reference_in_literal(s: &[char], i: usize, v: XmlVersion) -> (r: Result<
    usize,
    Fault,
>)
    requires
        i <= s@.len(),
    ensures
        agrees(r, literal_reference_end(s@, i as int, v), i + 1, s@.len() as int),
{
    proof {
        reveal_strlit("&");
        reveal_strlit("#");
    }
    match expect(s, i, "&") {
        Err(f) => Err(f),
        Ok(j) => if starts_with(s, j, "#") {
            parse_character_reference_tail(s, j + 1, v)
        } else {
            match read_name(s, j) {
                Err(f) => Err(f),
                Ok(k) => expect(s, k, ";"),
            }
        },
    }
}

/// Reads the reference at `i` in an attribute default.
fn parse_declared_reference_in_att_value(
    s: &[char],
    i: usize,
    v: XmlVersion,
    d: &Vec<EntityDeclaration>,
) -> (r: Result<usize, Fault>)
    requires
        i <= s@.len(),
    ensures
        agrees(
            r,
            declared_reference_end(s@, i as int, v, declarations(d@)),
            i + 1,
            s@.len() as int,
        ),
{
    proof {
        reveal_strlit("&");
        reveal_strlit("#");
    }
    match expect(s, i, "&") {
        Err(f) => Err(f),
        Ok(j) => if starts_with(s, j, "#") {
            parse_character_reference_tail(s, j + 1, v)
        } else {
            match read_name(s, j) {
                Err(f) => Err(f),
                Ok(k) => match expect(s, k, ";") {
                    Err(f) => Err(f),
                    Ok(m) => {
                        let name = slice_subrange(s, j, k);
                        if decode_predefined_entity(name).is_some() || find_entity(
                            d,
                            name,
                        ).is_some() {
                            Ok(m)
                        } else {
                            Err(
                                Fault {
                                    kind: XmlErrorKind::UndeclaredEntity(string_between(s, j, k)),
                                    at: m,
                                },
                            )
                        }
                    },
                },
            }
        },
    }
}

/// Reads the parameter entity reference at `i`.
fn skip_parameter_entity_reference(s: &[char], i: usize) -> (r: Result<usize, Fault>)
    requires
        i <= s@.len(),
    ensures
        agrees(r, parameter_reference_end(s@, i as int), i + 1, s@.len() as int),
{
    match expect(s, i, "%") {
        Err(f) => Err(f),
        Ok(j) => match read_name(s, j) {
            Err(f) => Err(f),
            Ok(k) => expect(s, k, ";"),
        },
    }
}

/// The entity value `t` with its character references replaced.
fn normalize_entity_value(t: &[char], v: XmlVersion, base: usize) -> (r: Result<Vec<char>, Fault>)
    requires
        base + t@.len() <= usize::MAX,
    ensures
        match r {
            Ok(out) => entity_value_from(t@, 0, v, base as int, Seq::empty()) == Ok::<
                Seq<char>,
                FaultModel,
            >(out@),
            Err(f) => entity_value_from(t@, 0, v, base as int, Seq::empty()) == Err::<
                Seq<char>,
                FaultModel,
            >(f@) && f.at <= base + t@.len(),
        },
{
    proof {
        reveal_strlit("&#");
    }
    let mut out: Vec<char> = Vec::new();
    let mut i: usize = 0;
    while i < t.len()
        invariant
            0 <= i <= t.len(),
            base + t@.len() <= usize::MAX,
            "&#"@.len() == 2,
            entity_value_from(t@, 0, v, base as int, Seq::empty()) == entity_value_from(
                t@,
                i as int,
                v,
                base as int,
                out@,
            ),
        decreases t.len() - i,
    {
        if !starts_with(t, i, "&#") {
            out.push(t[i]);
            i = i + 1;
            continue;
        }
        let end: usize = match find_char(t, i + 2, ';') {
            None => {
                return Err(
                    Fault { kind: XmlErrorKind::InvalidCharacterReference, at: base + i },
                );
            },
            Some(end) => end,
        };
        let name = slice_subrange(t, i + 2, end);
        let value = if name.len() > 0 && name[0] == 'x' {
            decode_character_reference(slice_subrange(name, 1, name.len()), 16, v)
        } else {
            decode_character_reference(name, 10, v)
        };
        match value {
            None => {
                return Err(
                    Fault { kind: XmlErrorKind::InvalidCharacterReference, at: base + i },
                );
            },
            Some(c) => {
                let u: u32 = c as u32;
                if v == XmlVersion::Xml11 && ((0x1 <= u && u <= 0x8) || (0xb <= u && u <= 0xc) || (
                0xe <= u && u <= 0x1f)) {
                    push_between(&mut out, t, i, end + 1);
                } else {
                    out.push(c);
                }
            },
        }
        i = end + 1;
    }
    Ok(out)
}

/// Reads the entity value at `i`.
fn parse_entity_value(s: &[char], i: usize, v: XmlVersion) -> (r: Result<(Vec<char>, usize), Fault>)
    requires
        i <= s@.len(),
    ensures
        match r {
            Ok((value, k)) => entity_value(s@, i as int, v) == Ok::<(Seq<char>, int), FaultModel>(
                (value@, k as int),
            ) && i < k <= s@.len(),
            Err(f) => entity_value(s@, i as int, v) == Err::<(Seq<char>, int), FaultModel>(f@)
                && f.at <= s@.len(),
        },
{
    let start: usize = match parse_quote(s, i) {
        Err(f) => {
            return Err(f);
        },
        Ok(j) => j,
    };
    let quote = s[i];
    let mut k: usize = start;
    while k < s.len()
        invariant
            i < start <= k <= s@.len(),
            start == i + 1,
            quote == s@[i as int],
            quote_end(s@, i as int) == Ok::<int, FaultModel>(start as int),
            entity_value_close(s@, start as int, quote, v) == entity_value_close(
                s@,
                k as int,
                quote,
                v,
            ),
        decreases s.len() - k,
    {
        if s[k] == quote {
            return match normalize_entity_value(slice_subrange(s, start, k), v, start) {
                Err(f) => Err(f),
                Ok(value) => Ok((value, k + 1)),
            };
        }
        if s[k] == '&' {
            match parse_general_reference_in_literal(s, k, v) {
                Err(f) => {
                    return Err(f);
                },
                Ok(m) => {
                    k = m;
                },
            }
        } else if s[k] == '%' {
            match skip_parameter_entity_reference(s, k) {
                Err(f) => {
                    return Err(f);
                },
                Ok(m) => {
                    k = m;
                },
            }
        } else if !is_literal_char(s[k], v) {
            return Err(Fault { kind: XmlErrorKind::InvalidCharacter, at: k });
        } else {
            k = k + 1;
        }
    }
    Err(Fault { kind: XmlErrorKind::UnexpectedEof, at: k })
}

/// Reads the attribute default at `i`.
fn parse_att_value(s: &[char], i: usize, v: XmlVersion, d: &Vec<EntityDeclaration>) -> (r: Result<
    usize,
    Fault,
>)
    requires
        i <= s@.len(),
    ensures
        agrees(r, default_value_end(s@, i as int, v, declarations(d@)), i + 1, s@.len() as int),
{
    let mut k: usize = match parse_quote(s, i) {
        Err(f) => {
            return Err(f);
        },
        Ok(j) => j,
    };
    let quote = s[i];
    while k < s.len()
        invariant
            i < k <= s@.len(),
            default_value_end(s@, i as int, v, declarations(d@)) == default_value_rest(
                s@,
                k as int,
                quote,
                v,
                declarations(d@),
            ),
        decreases s.len() - k,
    {
        if s[k] == quote {
            return Ok(k + 1);
        }
        if s[k] == '<' {
            return Err(Fault { kind: XmlErrorKind::InvalidAttributeValue, at: k });
        }
        if s[k] == '&' {
            match parse_declared_reference_in_att_value(s, k, v, d) {
                Err(f) => {
                    return Err(f);
                },
                Ok(m) => {
                    k = m;
                },
            }
        } else if !is_literal_char(s[k], v) {
            return Err(Fault { kind: XmlErrorKind::InvalidCharacter, at: k });
        } else {
            k = k + 1;
        }
    }
    Err(Fault { kind: XmlErrorKind::UnexpectedEof, at: k })
}

// ---------------------------------------------------------------------------------------------
// Declarations
// ---------------------------------------------------------------------------------------------

/// White space and `>` at `i`.
pub open spec fn declaration_close(s: Seq<char>, i: int) -> Read<int> {
    expected(s, space_end(s, i), ">"@)
}

/// `t`, white space, a name: the head of a declaration.
pub open spec fn declaration_head(s: Seq<char>, i: int, t: Seq<char>) -> Read<int> {
    match expected(s, i, t) {
        Err(f) => Err(f),
        Ok(j) => match required_space(s, j) {
            Err(f) => Err(f),
            Ok(k) => name_end(s, k),
        },
    }
}

/// The element declaration at `i`.
pub open spec fn element_declaration_end(s: Seq<char>, i: int) -> Read<int> {
    match declaration_head(s, i, "<!ELEMENT"@) {
        Err(f) => Err(f),
        Ok(j) => match required_space(s, j) {
            Err(f) => Err(f),
            Ok(k) => if keyword_at(s, k, "EMPTY"@) {
                declaration_close(s, k + 5)
            } else if keyword_at(s, k, "ANY"@) {
                declaration_close(s, k + 3)
            } else if !(k < s.len() && s[k] == '(') {
                fault(ErrorKindModel::InvalidDocumentStructure, k)
            } else {
                match content_model_end(s, k) {
                    Err(f) => Err(f),
                    Ok(m) => declaration_close(s, m),
                }
            },
        },
    }
}

/// The further names or name tokens of an enumeration.
pub open spec fn alternatives_rest(s: Seq<char>, i: int, tokens: bool) -> Read<int>
    decreases s.len() - i,
{
    if starts_at(s, i, "|"@) {
        let j = space_end(s, i + 1);
        let item = if tokens {
            nmtoken_end(s, j)
        } else {
            name_end(s, j)
        };
        match item {
            Err(f) => Err(f),
            Ok(k) => {
                let m = space_end(s, k);
                if m <= i || m > s.len() {
                    fault(ErrorKindModel::UnexpectedEof, i)
                } else {
                    alternatives_rest(s, m, tokens)
                }
            },
        }
    } else {
        expected(s, i, ")"@)
    }
}

/// The enumeration of names or name tokens at `i`.
pub open spec fn alternatives_end(s: Seq<char>, i: int, tokens: bool) -> Read<int> {
    match expected(s, i, "("@) {
        Err(f) => Err(f),
        Ok(open) => {
            let j = space_end(s, open);
            let item = if tokens {
                nmtoken_end(s, j)
            } else {
                name_end(s, j)
            };
            match item {
                Err(f) => Err(f),
                Ok(k) => alternatives_rest(s, space_end(s, k), tokens),
            }
        },
    }
}

/// The attribute type at `i`.
pub open spec fn attribute_type_end(s: Seq<char>, i: int) -> Read<int> {
    if keyword_at(s, i, "CDATA"@) {
        Ok(i + 5)
    } else if keyword_at(s, i, "IDREFS"@) {
        Ok(i + 6)
    } else if keyword_at(s, i, "IDREF"@) {
        Ok(i + 5)
    } else if keyword_at(s, i, "ID"@) {
        Ok(i + 2)
    } else if keyword_at(s, i, "ENTITIES"@) {
        Ok(i + 8)
    } else if keyword_at(s, i, "ENTITY"@) {
        Ok(i + 6)
    } else if keyword_at(s, i, "NMTOKENS"@) {
        Ok(i + 8)
    } else if keyword_at(s, i, "NMTOKEN"@) {
        Ok(i + 7)
    } else if keyword_at(s, i, "NOTATION"@) {
        match required_space(s, i + 8) {
            Err(f) => Err(f),
            Ok(j) => alternatives_end(s, j, false),
        }
    } else if 0 <= i < s.len() && s[i] == '(' {
        alternatives_end(s, i, true)
    } else {
        fault(ErrorKindModel::InvalidDocumentStructure, i)
    }
}

/// The default declaration at `i`.
pub open spec fn default_declaration_end(
    s: Seq<char>,
    i: int,
    v: XmlVersion,
    d: Seq<EntityDeclarationModel>,
) -> Read<int> {
    if keyword_at(s, i, "#REQUIRED"@) {
        Ok(i + 9)
    } else if keyword_at(s, i, "#IMPLIED"@) {
        Ok(i + 8)
    } else if keyword_at(s, i, "#FIXED"@) {
        match required_space(s, i + 6) {
            Err(f) => Err(f),
            Ok(j) => default_value_end(s, j, v, d),
        }
    } else {
        default_value_end(s, i, v, d)
    }
}

/// One attribute of an attribute list declaration.
pub open spec fn attribute_definition_end(
    s: Seq<char>,
    i: int,
    v: XmlVersion,
    d: Seq<EntityDeclarationModel>,
) -> Read<int> {
    match name_end(s, i) {
        Err(f) => Err(f),
        Ok(a) => match required_space(s, a) {
            Err(f) => Err(f),
            Ok(b) => match attribute_type_end(s, b) {
                Err(f) => Err(f),
                Ok(c) => match required_space(s, c) {
                    Err(f) => Err(f),
                    Ok(e) => default_declaration_end(s, e, v, d),
                },
            },
        },
    }
}

/// The attributes of an attribute list declaration, from `i` on.
pub open spec fn attribute_list_rest(
    s: Seq<char>,
    i: int,
    v: XmlVersion,
    d: Seq<EntityDeclarationModel>,
) -> Read<int>
    decreases s.len() - i,
{
    let j = space_end(s, i);
    if starts_at(s, j, ">"@) {
        Ok(j + 1)
    } else {
        match attribute_definition_end(s, j, v, d) {
            Err(f) => Err(f),
            Ok(k) => if k <= i || k > s.len() {
                fault(ErrorKindModel::UnexpectedEof, i)
            } else {
                attribute_list_rest(s, k, v, d)
            },
        }
    }
}

/// The attribute list declaration at `i`.
pub open spec fn attribute_list_end(
    s: Seq<char>,
    i: int,
    v: XmlVersion,
    d: Seq<EntityDeclarationModel>,
) -> Read<int> {
    match declaration_head(s, i, "<!ATTLIST"@) {
        Err(f) => Err(f),
        Ok(j) => attribute_list_rest(s, j, v, d),
    }
}

/// The definition of a general entity at `i`.
pub open spec fn general_entity_definition(s: Seq<char>, i: int, v: XmlVersion) -> Read<
    (EntityModel, int),
> {
    if quote_at(s, i) {
        match entity_value(s, i, v) {
            Err(f) => Err(f),
            Ok((value, k)) => Ok((EntityModel::Internal(value), k)),
        }
    } else {
        match external_id_end(s, i, v) {
            Err(f) => Err(f),
            Ok(j) => {
                let k = space_end(s, j);
                if k != j && keyword_at(s, k, "NDATA"@) {
                    match required_space(s, k + 5) {
                        Err(f) => Err(f),
                        Ok(m) => match name_end(s, m) {
                            Err(f) => Err(f),
                            Ok(e) => Ok((EntityModel::External, e)),
                        },
                    }
                } else {
                    Ok((EntityModel::External, k))
                }
            },
        }
    }
}

/// The definition of a parameter entity at `i`.
pub open spec fn parameter_entity_definition_end(s: Seq<char>, i: int, v: XmlVersion) -> Read<int> {
    if quote_at(s, i) {
        match entity_value(s, i, v) {
            Err(f) => Err(f),
            Ok((_, k)) => Ok(k),
        }
    } else {
        external_id_end(s, i, v)
    }
}

/// The declarations with one more; an entity that is already declared keeps its declaration.
pub open spec fn with_declaration(
    d: Seq<EntityDeclarationModel>,
    added: EntityDeclarationModel,
) -> Seq<EntityDeclarationModel> {
    if entity_named(d, added.name) is Some {
        d
    } else {
        d.push(added)
    }
}

/// The entity declaration at `i`: the declarations after it and its end.
pub open spec fn entity_declaration(
    s: Seq<char>,
    i: int,
    v: XmlVersion,
    d: Seq<EntityDeclarationModel>,
) -> Read<(Seq<EntityDeclarationModel>, int)> {
    match expected(s, i, "<!ENTITY"@) {
        Err(f) => Err(f),
        Ok(a) => match required_space(s, a) {
            Err(f) => Err(f),
            Ok(b) => if starts_at(s, b, "%"@) {
                match required_space(s, b + 1) {
                    Err(f) => Err(f),
                    Ok(c) => match name_end(s, c) {
                        Err(f) => Err(f),
                        Ok(e) => match required_space(s, e) {
                            Err(f) => Err(f),
                            Ok(g) => match parameter_entity_definition_end(s, g, v) {
                                Err(f) => Err(f),
                                Ok(h) => match declaration_close(s, h) {
                                    Err(f) => Err(f),
                                    Ok(end) => Ok((d, end)),
                                },
                            },
                        },
                    },
                }
            } else {
                match name_end(s, b) {
                    Err(f) => Err(f),
                    Ok(c) => match required_space(s, c) {
                        Err(f) => Err(f),
                        Ok(e) => match general_entity_definition(s, e, v) {
                            Err(f) => Err(f),
                            Ok((entity, g)) => match declaration_close(s, g) {
                                Err(f) => Err(f),
                                Ok(end) => Ok(
                                    (
                                        with_declaration(
                                            d,
                                            EntityDeclarationModel {
                                                name: s.subrange(b, c),
                                                entity,
                                            },
                                        ),
                                        end,
                                    ),
                                ),
                            },
                        },
                    },
                }
            },
        },
    }
}

/// The notation declaration at `i`.
pub open spec fn notation_declaration_end(s: Seq<char>, i: int, v: XmlVersion) -> Read<int> {
    match declaration_head(s, i, "<!NOTATION"@) {
        Err(f) => Err(f),
        Ok(a) => match required_space(s, a) {
            Err(f) => Err(f),
            Ok(b) => if starts_at(s, b, "SYSTEM"@) {
                match external_id_end(s, b, v) {
                    Err(f) => Err(f),
                    Ok(c) => declaration_close(s, c),
                }
            } else if starts_at(s, b, "PUBLIC"@) {
                match required_space(s, b + 6) {
                    Err(f) => Err(f),
                    Ok(c) => match pubid_literal_end(s, c) {
                        Err(f) => Err(f),
                        Ok(e) => {
                            let g = space_end(s, e);
                            if quote_at(s, g) {
                                match system_literal_end(s, g, v) {
                                    Err(f) => Err(f),
                                    Ok(h) => declaration_close(s, h),
                                }
                            } else {
                                declaration_close(s, g)
                            }
                        },
                    },
                }
            } else {
                fault(ErrorKindModel::InvalidDocumentStructure, b)
            },
        },
    }
}

/// One item of the internal subset, at `i`: the declarations after it and its end.
pub open spec fn subset_item(
    s: Seq<char>,
    i: int,
    v: XmlVersion,
    d: Seq<EntityDeclarationModel>,
) -> Read<(Seq<EntityDeclarationModel>, int)> {
    let plain = if starts_at(s, i, "<!--"@) {
        Some(comment_end(s, i))
    } else if starts_at(s, i, "<?"@) {
        Some(instruction_end(s, i))
    } else if starts_at(s, i, "<!ELEMENT"@) {
        Some(element_declaration_end(s, i))
    } else if starts_at(s, i, "<!ATTLIST"@) {
        Some(attribute_list_end(s, i, v, d))
    } else if starts_at(s, i, "<!ENTITY"@) {
        None
    } else if starts_at(s, i, "<!NOTATION"@) {
        Some(notation_declaration_end(s, i, v))
    } else if starts_at(s, i, "%"@) {
        Some(parameter_reference_end(s, i))
    } else {
        Some(fault(ErrorKindModel::InvalidDocumentStructure, i))
    };
    match plain {
        None => entity_declaration(s, i, v, d),
        Some(Err(f)) => Err(f),
        Some(Ok(k)) => Ok((d, k)),
    }
}

/// The general entities that the internal subset `s` declares from `i` on, behind those of `d`.
pub open spec fn subset_from(
    s: Seq<char>,
    i: int,
    v: XmlVersion,
    d: Seq<EntityDeclarationModel>,
) -> Read<Seq<EntityDeclarationModel>>
    decreases s.len() - i,
{
    let j = space_end(s, i);
    if j >= s.len() {
        Ok(d)
    } else {
        match subset_item(s, j, v, d) {
            Err(f) => Err(f),
            Ok((e, k)) => if k <= i || k > s.len() {
                fault(ErrorKindModel::UnexpectedEof, i)
            } else {
                subset_from(s, k, v, e)
            },
        }
    }
}

/// The general entities that the internal subset `s` declares.
pub open spec fn subset_entities(s: Seq<char>, v: XmlVersion) -> Read<Seq<EntityDeclarationModel>> {
    subset_from(s, 0, v, Seq::empty())
}

/// Reads white space and `>` at `i`.
fn close_declaration(s: &[char], i: usize) -> (r: Result<usize, Fault>)
    requires
        i <= s@.len(),
    ensures
        agrees(r, declaration_close(s@, i as int), i as int, s@.len() as int),
{
    expect(s, skip_space(s, i), ">")
}

/// Reads the head of a declaration.
fn parse_declaration_head(s: &[char], i: usize, t: &'static str) -> (r: Result<usize, Fault>)
    requires
        i <= s@.len(),
    ensures
        agrees(r, declaration_head(s@, i as int, t@), i + 1, s@.len() as int),
{
    match expect(s, i, t) {
        Err(f) => Err(f),
        Ok(j) => match require_space(s, j) {
            Err(f) => Err(f),
            Ok(k) => read_name(s, k),
        },
    }
}

/// Reads the element declaration at `i`.
fn parse_element_decl(s: &[char], i: usize) -> (r: Result<usize, Fault>)
    requires
        i <= s@.len(),
    ensures
        agrees(r, element_declaration_end(s@, i as int), i + 1, s@.len() as int),
{
    proof {
        reveal_strlit("EMPTY");
        reveal_strlit("ANY");
    }
    match parse_declaration_head(s, i, "<!ELEMENT") {
        Err(f) => Err(f),
        Ok(j) => match require_space(s, j) {
            Err(f) => Err(f),
            Ok(k) => if is_keyword(s, k, "EMPTY") {
                close_declaration(s, k + 5)
            } else if is_keyword(s, k, "ANY") {
                close_declaration(s, k + 3)
            } else if !(k < s.len() && s[k] == '(') {
                Err(Fault { kind: XmlErrorKind::InvalidDocumentStructure, at: k })
            } else {
                match validate_content_model(s, k) {
                    Err(f) => Err(f),
                    Ok(m) => close_declaration(s, m),
                }
            },
        },
    }
}

/// Reads a name or, if `tokens`, a name token.
fn read_alternative(s: &[char], i: usize, tokens: bool) -> (r: Result<usize, Fault>)
    requires
        i <= s@.len(),
    ensures
        agrees(
            r,
            if tokens {
                nmtoken_end(s@, i as int)
            } else {
                name_end(s@, i as int)
            },
            i + 1,
            s@.len() as int,
        ),
{
    if tokens {
        read_nmtoken(s, i)
    } else {
        read_name(s, i)
    }
}

/// Reads the enumeration of names or name tokens at `i`.
fn parse_alternatives(s: &[char], i: usize, tokens: bool) -> (r: Result<usize, Fault>)
    requires
        i <= s@.len(),
    ensures
        agrees(r, alternatives_end(s@, i as int, tokens), i + 1, s@.len() as int),
{
    proof {
        reveal_strlit("|");
        reveal_strlit("(");
    }
    let j: usize = match expect(s, i, "(") {
        Err(f) => {
            return Err(f);
        },
        Ok(open) => skip_space(s, open),
    };
    let mut m: usize = match read_alternative(s, j, tokens) {
        Err(f) => {
            return Err(f);
        },
        Ok(k) => skip_space(s, k),
    };
    while starts_with(s, m, "|")
        invariant
            i < m <= s@.len(),
            "|"@.len() == 1,
            alternatives_end(s@, i as int, tokens) == alternatives_rest(s@, m as int, tokens),
        decreases s@.len() - m,
    {
        let j: usize = skip_space(s, m + 1);
        match read_alternative(s, j, tokens) {
            Err(f) => {
                return Err(f);
            },
            Ok(k) => {
                m = skip_space(s, k);
            },
        }
    }
    expect(s, m, ")")
}

/// Reads the attribute type at `i`.
fn parse_attribute_type(s: &[char], i: usize) -> (r: Result<usize, Fault>)
    requires
        i <= s@.len(),
    ensures
        agrees(r, attribute_type_end(s@, i as int), i + 1, s@.len() as int),
{
    proof {
        reveal_strlit("CDATA");
        reveal_strlit("IDREFS");
        reveal_strlit("IDREF");
        reveal_strlit("ID");
        reveal_strlit("ENTITIES");
        reveal_strlit("ENTITY");
        reveal_strlit("NMTOKENS");
        reveal_strlit("NMTOKEN");
        reveal_strlit("NOTATION");
    }
    if is_keyword(s, i, "CDATA") {
        Ok(i + 5)
    } else if is_keyword(s, i, "IDREFS") {
        Ok(i + 6)
    } else if is_keyword(s, i, "IDREF") {
        Ok(i + 5)
    } else if is_keyword(s, i, "ID") {
        Ok(i + 2)
    } else if is_keyword(s, i, "ENTITIES") {
        Ok(i + 8)
    } else if is_keyword(s, i, "ENTITY") {
        Ok(i + 6)
    } else if is_keyword(s, i, "NMTOKENS") {
        Ok(i + 8)
    } else if is_keyword(s, i, "NMTOKEN") {
        Ok(i + 7)
    } else if is_keyword(s, i, "NOTATION") {
        match require_space(s, i + 8) {
            Err(f) => Err(f),
            Ok(j) => parse_alternatives(s, j, false),
        }
    } else if i < s.len() && s[i] == '(' {
        parse_alternatives(s, i, true)
    } else {
        Err(Fault { kind: XmlErrorKind::InvalidDocumentStructure, at: i })
    }
}

/// Reads the default declaration at `i`.
fn parse_default_decl(
    s: &[char],
    i: usize,
    v: XmlVersion,
    d: &Vec<EntityDeclaration>,
) -> (r: Result<usize, Fault>)
    requires
        i <= s@.len(),
    ensures
        agrees(
            r,
            default_declaration_end(s@, i as int, v, declarations(d@)),
            i + 1,
            s@.len() as int,
        ),
{
    proof {
        reveal_strlit("#REQUIRED");
        reveal_strlit("#IMPLIED");
        reveal_strlit("#FIXED");
    }
    if is_keyword(s, i, "#REQUIRED") {
        Ok(i + 9)
    } else if is_keyword(s, i, "#IMPLIED") {
        Ok(i + 8)
    } else if is_keyword(s, i, "#FIXED") {
        match require_space(s, i + 6) {
            Err(f) => Err(f),
            Ok(j) => parse_att_value(s, j, v, d),
        }
    } else {
        parse_att_value(s, i, v, d)
    }
}

/// Reads one attribute of an attribute list declaration.
fn parse_attribute_definition(
    s: &[char],
    i: usize,
    v: XmlVersion,
    d: &Vec<EntityDeclaration>,
) -> (r: Result<usize, Fault>)
    requires
        i <= s@.len(),
    ensures
        agrees(
            r,
            attribute_definition_end(s@, i as int, v, declarations(d@)),
            i + 1,
            s@.len() as int,
        ),
{
    match read_name(s, i) {
        Err(f) => Err(f),
        Ok(a) => match require_space(s, a) {
            Err(f) => Err(f),
            Ok(b) => match parse_attribute_type(s, b) {
                Err(f) => Err(f),
                Ok(c) => match require_space(s, c) {
                    Err(f) => Err(f),
                    Ok(e) => parse_default_decl(s, e, v, d),
                },
            },
        },
    }
}

/// Reads the attribute list declaration at `i`.
fn parse_attlist_decl(
    s: &[char],
    i: usize,
    v: XmlVersion,
    d: &Vec<EntityDeclaration>,
) -> (r: Result<usize, Fault>)
    requires
        i <= s@.len(),
    ensures
        agrees(r, attribute_list_end(s@, i as int, v, declarations(d@)), i + 1, s@.len() as int),
{
    proof {
        reveal_strlit(">");
    }
    let mut k: usize = match parse_declaration_head(s, i, "<!ATTLIST") {
        Err(f) => {
            return Err(f);
        },
        Ok(j) => j,
    };
    loop
        invariant
            i < k <= s@.len(),
            ">"@.len() == 1,
            attribute_list_end(s@, i as int, v, declarations(d@)) == attribute_list_rest(
                s@,
                k as int,
                v,
                declarations(d@),
            ),
        decreases s@.len() - k,
    {
        let j: usize = skip_space(s, k);
        if starts_with(s, j, ">") {
            return Ok(j + 1);
        }
        match parse_attribute_definition(s, j, v, d) {
            Err(f) => {
                return Err(f);
            },
            Ok(m) => {
                k = m;
            },
        }
    }
}

/// Reads the definition of a general entity at `i`.
fn parse_general_entity_def(s: &[char], i: usize, v: XmlVersion) -> (r: Result<
    (XmlGeneralEntity, usize),
    Fault,
>)
    requires
        i <= s@.len(),
    ensures
        match r {
            Ok((entity, k)) => general_entity_definition(s@, i as int, v) == Ok::<
                (EntityModel, int),
                FaultModel,
            >((entity@, k as int)) && i < k <= s@.len(),
            Err(f) => general_entity_definition(s@, i as int, v) == Err::<
                (EntityModel, int),
                FaultModel,
            >(f@) && f.at <= s@.len(),
        },
{
    proof {
        reveal_strlit("NDATA");
    }
    if is_quote(s, i) {
        return match parse_entity_value(s, i, v) {
            Err(f) => Err(f),
            Ok((value, k)) => Ok((XmlGeneralEntity::Internal(value), k)),
        };
    }
    match parse_external_id(s, i, v) {
        Err(f) => Err(f),
        Ok(j) => {
            let k: usize = skip_space(s, j);
            if k != j && is_keyword(s, k, "NDATA") {
                match require_space(s, k + 5) {
                    Err(f) => Err(f),
                    Ok(m) => match read_name(s, m) {
                        Err(f) => Err(f),
                        Ok(e) => Ok((XmlGeneralEntity::External, e)),
                    },
                }
            } else {
                Ok((XmlGeneralEntity::External, k))
            }
        },
    }
}

/// Reads the definition of a parameter entity at `i`.
fn parse_parameter_entity_def(s: &[char], i: usize, v: XmlVersion) -> (r: Result<usize, Fault>)
    requires
        i <= s@.len(),
    ensures
        agrees(r, parameter_entity_definition_end(s@, i as int, v), i + 1, s@.len() as int),
{
    if is_quote(s, i) {
        match parse_entity_value(s, i, v) {
            Err(f) => Err(f),
            Ok((_, k)) => Ok(k),
        }
    } else {
        parse_external_id(s, i, v)
    }
}

/// Adds a declaration; an entity that is already declared keeps its declaration.
fn declare(d: &mut Vec<EntityDeclaration>, added: EntityDeclaration)
    ensures
        declarations(final(d)@) == with_declaration(declarations(old(d)@), added@),
{
    if find_entity(d, added.name.as_slice()).is_none() {
        let ghost before = d@;
        d.push(added);
        proof {
            assert(declarations(d@) =~= declarations(before).push(added@));
        }
    }
}

/// Reads the entity declaration at `i`.
fn parse_entity_decl(
    s: &[char],
    i: usize,
    v: XmlVersion,
    d: &mut Vec<EntityDeclaration>,
) -> (r: Result<usize, Fault>)
    requires
        i <= s@.len(),
    ensures
        match r {
            Ok(k) => entity_declaration(s@, i as int, v, declarations(old(d)@)) == Ok::<
                (Seq<EntityDeclarationModel>, int),
                FaultModel,
            >((declarations(final(d)@), k as int)) && i < k <= s@.len(),
            Err(f) => entity_declaration(s@, i as int, v, declarations(old(d)@)) == Err::<
                (Seq<EntityDeclarationModel>, int),
                FaultModel,
            >(f@) && f.at <= s@.len(),
        },
{
    proof {
        reveal_strlit("%");
        reveal_strlit("<!ENTITY");
    }
    let b: usize = match expect(s, i, "<!ENTITY") {
        Err(f) => {
            return Err(f);
        },
        Ok(a) => match require_space(s, a) {
            Err(f) => {
                return Err(f);
            },
            Ok(b) => b,
        },
    };
    if starts_with(s, b, "%") {
        let e: usize = match require_space(s, b + 1) {
            Err(f) => {
                return Err(f);
            },
            Ok(c) => match read_name(s, c) {
                Err(f) => {
                    return Err(f);
                },
                Ok(e) => e,
            },
        };
        match require_space(s, e) {
            Err(f) => Err(f),
            Ok(g) => match parse_parameter_entity_def(s, g, v) {
                Err(f) => Err(f),
                Ok(h) => close_declaration(s, h),
            },
        }
    } else {
        let c: usize = match read_name(s, b) {
            Err(f) => {
                return Err(f);
            },
            Ok(c) => c,
        };
        let e: usize = match require_space(s, c) {
            Err(f) => {
                return Err(f);
            },
            Ok(e) => e,
        };
        match parse_general_entity_def(s, e, v) {
            Err(f) => Err(f),
            Ok((entity, g)) => match close_declaration(s, g) {
                Err(f) => Err(f),
                Ok(end) => {
                    declare(d, EntityDeclaration { name: copy_between(s, b, c), entity });
                    Ok(end)
                },
            },
        }
    }
}

/// Reads the notation declaration at `i`.
fn parse_notation_decl(s: &[char], i: usize, v: XmlVersion) -> (r: Result<usize, Fault>)
    requires
        i <= s@.len(),
    ensures
        agrees(r, notation_declaration_end(s@, i as int, v), i + 1, s@.len() as int),
{
    proof {
        reveal_strlit("PUBLIC");
    }
    let b: usize = match parse_declaration_head(s, i, "<!NOTATION") {
        Err(f) => {
            return Err(f);
        },
        Ok(a) => match require_space(s, a) {
            Err(f) => {
                return Err(f);
            },
            Ok(b) => b,
        },
    };
    if starts_with(s, b, "SYSTEM") {
        match parse_external_id(s, b, v) {
            Err(f) => Err(f),
            Ok(c) => close_declaration(s, c),
        }
    } else if starts_with(s, b, "PUBLIC") {
        match require_space(s, b + 6) {
            Err(f) => Err(f),
            Ok(c) => match parse_pubid_literal(s, c) {
                Err(f) => Err(f),
                Ok(e) => {
                    let g: usize = skip_space(s, e);
                    if is_quote(s, g) {
                        match parse_system_literal(s, g, v) {
                            Err(f) => Err(f),
                            Ok(h) => close_declaration(s, h),
                        }
                    } else {
                        close_declaration(s, g)
                    }
                },
            },
        }
    } else {
        Err(Fault { kind: XmlErrorKind::InvalidDocumentStructure, at: b })
    }
}

/// Reads one item of the internal subset.
fn parse_subset_item(
    s: &[char],
    i: usize,
    v: XmlVersion,
    d: &mut Vec<EntityDeclaration>,
) -> (r: Result<usize, Fault>)
    requires
        i <= s@.len(),
    ensures
        match r {
            Ok(k) => subset_item(s@, i as int, v, declarations(old(d)@)) == Ok::<
                (Seq<EntityDeclarationModel>, int),
                FaultModel,
            >((declarations(final(d)@), k as int)) && i < k <= s@.len(),
            Err(f) => subset_item(s@, i as int, v, declarations(old(d)@)) == Err::<
                (Seq<EntityDeclarationModel>, int),
                FaultModel,
            >(f@) && f.at <= s@.len(),
        },
{
    if starts_with(s, i, "<!--") {
        read_comment(s, i)
    } else if starts_with(s, i, "<?") {
        read_instruction(s, i)
    } else if starts_with(s, i, "<!ELEMENT") {
        parse_element_decl(s, i)
    } else if starts_with(s, i, "<!ATTLIST") {
        parse_attlist_decl(s, i, v, d)
    } else if starts_with(s, i, "<!ENTITY") {
        parse_entity_decl(s, i, v, d)
    } else if starts_with(s, i, "<!NOTATION") {
        parse_notation_decl(s, i, v)
    } else if starts_with(s, i, "%") {
        skip_parameter_entity_reference(s, i)
    } else {
        Err(Fault { kind: XmlErrorKind::InvalidDocumentStructure, at: i })
    }
}

/// Reads the internal subset `s` and returns the general entities that it declares.
pub(crate) fn parse_internal_subset_entities(s: &[char], v: XmlVersion) -> (r: Result<
    Vec<EntityDeclaration>,
    Fault,
>)
    ensures
        match r {
            Ok(d) => subset_entities(s@, v) == Ok::<Seq<EntityDeclarationModel>, FaultModel>(
                declarations(d@),
            ),
            Err(f) => subset_entities(s@, v) == Err::<Seq<EntityDeclarationModel>, FaultModel>(f@)
                && f.at <= s@.len(),
        },
{
    let mut d: Vec<EntityDeclaration> = Vec::new();
    let mut i: usize = 0;
    proof {
        assert(declarations(d@) =~= Seq::<EntityDeclarationModel>::empty());
    }
    loop
        invariant
            0 <= i <= s@.len(),
            subset_entities(s@, v) == subset_from(s@, i as int, v, declarations(d@)),
        decreases s@.len() - i,
    {
        let j: usize = skip_space(s, i);
        if j >= s.len() {
            return Ok(d);
        }
        match parse_subset_item(s, j, v, &mut d) {
            Err(f) => {
                return Err(f);
            },
            Ok(k) => {
                i = k;
            },
        }
    }
}

} // verus!
