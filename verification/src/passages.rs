//! References in content, places behind replacements, and errors in bytes.

use vstd::prelude::*;

use crate::access::{handle_at, handles_of};
use crate::compact::compact_parse;
use crate::config::ConfigModel;
use crate::document::{plain_parse, traced, DocumentModel};
use crate::dtd::{character_reference_tail, digits_end, EntityDeclarationModel};
use crate::encoding::{decoded, source_byte, XmlInputEncoding};
use crate::entities::{
    expanded_document, replacement_chars_from, replacement_config, replacement_fault,
    wrapped_replacement, Expanded,
};
use crate::error::{located, ErrorKindModel, ErrorModel, FaultModel};
use crate::facade::{first_other, handle_of, next_generation, root_name_fault, StateModel};
use crate::forms::{
    blank_char, lemma_at, lemma_attributes_in_a_row, lemma_end_tag_form, lemma_text_form,
};
use crate::grammar::{
    content, element, no_entities, reference, text_end, text_leaf, with_leaf, RawTree, Resolver,
};
use crate::handle::HandleModel;
use crate::lexeme::{digit_value, numeric_reference, predefined_entity, referable, XmlVersion};
use crate::parser::{
    checked_bytes, checked_document, compact_parse_bytes, tolerant_parse, tolerant_parse_bytes,
    OutcomeModel,
};
use crate::scan::{name_end, nmtoken_end};
use crate::syntax::{name_part, name_start, valid_name};
use crate::text::{byte_len, byte_offset, starts_at};
use crate::tree::TreeModel;
use crate::unescape::{lemma_name_read, lemma_starts_char, lemma_starts_split};
use crate::view::view_parse;

verus! {

/// A reference to an entity in content or in an attribute value: one of the five that are always
/// there is one character, any other is what its declaration makes of it, and a refusal is reported
/// where the reference starts.
pub proof fn lemma_entity_in_content(
    s: Seq<char>,
    i: int,
    n: Seq<char>,
    v: XmlVersion,
    r: Resolver,
    spent: int,
)
    requires
        valid_name(n),
        starts_at(s, i, seq!['&'] + (n + seq![';'])),
    ensures
        reference(s, i, v, r, spent) == (match predefined_entity(n) {
            Some(c) => Ok::<(Seq<char>, int, int), FaultModel>(
                (seq![c], 2int + i + n.len(), spent),
            ),
            None => match r(n, spent) {
                Ok((t, after)) => Ok((t, 2int + i + n.len(), after)),
                Err(kind) => Err(FaultModel { kind, at: i }),
            },
        }),
{
    reveal_strlit("&#");
    reveal_strlit(";");
    assert(";"@ =~= seq![';']);
    lemma_starts_split(s, i, seq!['&'], n + seq![';']);
    lemma_starts_split(s, i + 1, n, seq![';']);
    lemma_at(s, i + 1, n);
    assert(s[i + 1] == n[0]);
    lemma_marks(n[0]);
    if starts_at(s, i, "&#"@) {
        lemma_at(s, i, "&#"@);
        assert(s[i + 1] == "&#"@[1]);
    }
    lemma_starts_char(s, i + 1 + n.len(), ';');
    lemma_name_read(s, i + 1, n);
}

proof fn lemma_marks(c: char)
    ensures
        name_start(c) ==> c != '#',
        !name_part(';'),
        !name_part('>'),
{
}

/// Without a check of references an ampersand is a character like any other.
pub proof fn lemma_unchecked_references(
    s: Seq<char>,
    i: int,
    j: int,
    c: ConfigModel,
    v: XmlVersion,
    r: Resolver,
    spent: int,
)
    requires
        0 <= i <= j < s.len(),
        !c.validate_references,
        s[j] == '<',
        forall|k: int| i <= k < j ==> #[trigger] s[k] != '<' && s[k] != ']',
    ensures
        text_end(s, i, c, v, r, spent) == Ok::<(int, int), FaultModel>((j, spent)),
    decreases j - i,
{
    if i < j {
        reveal_strlit("]]>");
        if starts_at(s, i, "]]>"@) {
            lemma_at(s, i, "]]>"@);
            assert(s[i] == "]]>"@[0]);
        }
        lemma_unchecked_references(s, i + 1, j, c, v, r, spent);
    }
}

/// A character reference: digits of its base and a semicolon, for a character that can be referred
/// to.
pub proof fn lemma_character_reference_form(
    s: Seq<char>,
    i: int,
    d: Seq<char>,
    v: XmlVersion,
)
    requires
        d.len() > 0,
    ensures
        starts_at(s, i, d + seq![';']) && (forall|k: int|
            0 <= k < d.len() ==> '0' <= #[trigger] d[k] && d[k] <= '9')
            ==> character_reference_tail(s, i, v) == (match numeric_reference(d, 10, v) {
            Some(_) => Ok::<int, FaultModel>(1int + i + d.len()),
            None => Err(
                FaultModel {
                    kind: ErrorKindModel::InvalidCharacterReference,
                    at: 1int + i + d.len(),
                },
            ),
        }),
        starts_at(s, i, seq!['x'] + (d + seq![';'])) && (forall|k: int|
            0 <= k < d.len() ==> ('0' <= #[trigger] d[k] && d[k] <= '9') || ('a' <= d[k] && d[k]
                <= 'f') || ('A' <= d[k] && d[k] <= 'F')) ==> character_reference_tail(s, i, v) == (
        match numeric_reference(d, 16, v) {
            Some(_) => Ok::<int, FaultModel>(2int + i + d.len()),
            None => Err(
                FaultModel {
                    kind: ErrorKindModel::InvalidCharacterReference,
                    at: 2int + i + d.len(),
                },
            ),
        }),
{
    reveal_strlit("x");
    reveal_strlit(";");
    assert("x"@ =~= seq!['x']);
    assert(";"@ =~= seq![';']);
    if starts_at(s, i, d + seq![';']) && (forall|k: int|
        0 <= k < d.len() ==> '0' <= #[trigger] d[k] && d[k] <= '9') {
        lemma_starts_split(s, i, d, seq![';']);
        lemma_at(s, i, d);
        lemma_starts_char(s, i + d.len(), ';');
        lemma_starts_char(s, i, 'x');
        assert(s[i] == d[0]);
        lemma_digit('x');
        assert forall|k: int| i <= k < i + d.len() implies digit_value(#[trigger] s[k], 10)
            is Some by {
            assert(s[k] == d[k - i]);
            lemma_digit(s[k]);
        }
        lemma_digits_read(s, i, i + d.len(), 10);
    }
    if starts_at(s, i, seq!['x'] + (d + seq![';'])) && (forall|k: int|
        0 <= k < d.len() ==> ('0' <= #[trigger] d[k] && d[k] <= '9') || ('a' <= d[k] && d[k] <= 'f')
            || ('A' <= d[k] && d[k] <= 'F')) {
        lemma_starts_split(s, i, seq!['x'], d + seq![';']);
        lemma_starts_split(s, i + 1, d, seq![';']);
        lemma_at(s, i + 1, d);
        lemma_starts_char(s, i + 1 + d.len(), ';');
        assert forall|k: int| i + 1 <= k < i + 1 + d.len() implies digit_value(
            #[trigger] s[k],
            16,
        ) is Some by {
            assert(s[k] == d[k - i - 1]);
            lemma_digit(s[k]);
        }
        lemma_digits_read(s, i + 1, i + 1 + d.len(), 16);
    }
}

proof fn lemma_digit(c: char)
    ensures
        '0' <= c && c <= '9' ==> digit_value(c, 10) is Some && c != 'x',
        ('0' <= c && c <= '9') || ('a' <= c && c <= 'f') || ('A' <= c && c <= 'F') ==> digit_value(
            c,
            16,
        ) is Some,
        digit_value(';', 10) is None,
        digit_value(';', 16) is None,
{
}

proof fn lemma_digits_read(s: Seq<char>, i: int, j: int, radix: int)
    requires
        0 <= i <= j < s.len(),
        radix == 10 || radix == 16,
        s[j] == ';',
        forall|k: int| i <= k < j ==> digit_value(#[trigger] s[k], radix) is Some,
    ensures
        digits_end(s, i, radix) == j,
    decreases j - i,
{
    lemma_digit(';');
    if i < j {
        lemma_digits_read(s, i + 1, j, radix);
    }
}

proof fn lemma_wrapped_pieces(t: Seq<char>, v: XmlVersion)
    requires
        forall|k: int|
            0 <= k < t.len() ==> #[trigger] t[k] != '<' && t[k] != '&' && t[k] != ']'
                && crate::dtd::literal_char(t[k], v),
    ensures
        ({
            let s = wrapped_replacement(t);
            let e = 8int + t.len();
            let n = seq!['e', 'n', 't', 'i', 't', 'y'];
            &&& s.len() == e + 9
            &&& forall|k: int| 0 <= k < s.len() ==> crate::dtd::literal_char(#[trigger] s[k], v)
            &&& s[0] == '<' && s[7] == '>' && s[e] == '<' && s[e + 1] == '/'
            &&& starts_at(s, 1, n)
            &&& starts_at(s, e + 2, n + (Seq::<char>::empty() + seq!['>']))
            &&& forall|k: int| 8 <= k < e ==> #[trigger] s[k] != '<' && s[k] != '&' && s[k] != ']'
        }),
{
    reveal_strlit("<entity>");
    reveal_strlit("</entity>");
    let s = wrapped_replacement(t);
    let n = seq!['e', 'n', 't', 'i', 't', 'y'];
    let e = 8int + t.len();
    assert forall|k: int| 0 <= k < s.len() implies crate::dtd::literal_char(#[trigger] s[k], v) by {
        if k < 8 {
            assert(s[k] == "<entity>"@[k]);
            lemma_ascii(s[k], v);
        } else if k < e {
            assert(s[k] == t[k - 8]);
        } else {
            assert(s[k] == "</entity>"@[k - e]);
            lemma_ascii(s[k], v);
        }
    }
    assert(s.subrange(1, 7) =~= n);
    assert(s.subrange(e + 2, e + 9) =~= n + (Seq::<char>::empty() + seq!['>']));
    assert forall|k: int| 8 <= k < e implies #[trigger] s[k] != '<' && s[k] != '&' && s[k]
        != ']' by {
        assert(s[k] == t[k - 8]);
    }
}

proof fn lemma_text_then_end(
    s: Seq<char>,
    i: int,
    e: int,
    n: Seq<char>,
    c: ConfigModel,
    v: XmlVersion,
    r: Resolver,
)
    requires
        0 <= i < e,
        e + 1 < s.len(),
        s[e] == '<' && s[e + 1] == '/',
        valid_name(n),
        starts_at(s, e + 2, n + (Seq::<char>::empty() + seq!['>'])),
        forall|k: int| i <= k < e ==> #[trigger] s[k] != '<' && s[k] != '&' && s[k] != ']',
        c.text_whitespace == crate::config::XmlTextWhitespacePolicy::Preserve,
    ensures
        content(s, i, c, v, r, n, 1, Seq::empty(), 0) matches Ok((_, end, _)) && end == 3int + e
            + n.len(),
{
    lemma_text_form(s, i, e, c, v, r, 0);
    let leaf = with_leaf(Seq::empty(), text_leaf(s, None, i, e, c, v));
    lemma_end_tag_form(s, e + 2, n, Seq::empty(), n, v);
    assert(content(s, e, c, v, r, n, 1, leaf, 0) == Ok::<(Seq<RawTree>, int, int), FaultModel>(
        (leaf, 3int + e + n.len(), 0),
    ));
    assert(s[i] != '<');
}

proof fn lemma_tag_then_content(
    s: Seq<char>,
    e: int,
    n: Seq<char>,
    c: ConfigModel,
    v: XmlVersion,
    r: Resolver,
)
    requires
        valid_name(n),
        s.len() > n.len() + 2,
        s[0] == '<',
        starts_at(s, 1, n),
        s[1int + n.len()] == '>',
        content(s, 2int + n.len(), c, v, r, n, 1, Seq::empty(), 0) matches Ok((_, end, _)) && end
            == e,
    ensures
        element(s, 0, c, v, r, 1, 0) matches Ok((_, end, _)) && end == e,
{
    reveal_strlit("<");
    reveal_strlit(">");
    reveal_strlit("/>");
    let g = 1int + n.len();
    assert("<"@ =~= seq!['<']);
    assert(">"@ =~= seq!['>']);
    lemma_starts_char(s, 0, '<');
    lemma_starts_char(s, g, '>');
    lemma_marks('e');
    lemma_name_read(s, 1, n);
    lemma_tag_marks(v);
    lemma_attributes_in_a_row(s, g, g, c, v, r, Seq::empty(), 0);
    if starts_at(s, g, "/>"@) {
        lemma_at(s, g, "/>"@);
        assert(s[g] == "/>"@[0]);
    }
}

/// A replacement of plain text is always taken.
pub proof fn lemma_plain_replacement(t: Seq<char>, v: XmlVersion)
    requires
        t.len() > 0,
        forall|k: int|
            0 <= k < t.len() ==> #[trigger] t[k] != '<' && t[k] != '&' && t[k] != ']'
                && crate::dtd::literal_char(t[k], v),
    ensures
        replacement_fault(t, v) is None,
{
    let s = wrapped_replacement(t);
    let n = seq!['e', 'n', 't', 'i', 't', 'y'];
    let c = replacement_config();
    let r = no_entities();
    let e = 8int + t.len();
    lemma_wrapped_pieces(t, v);
    lemma_entity_name(n);
    crate::corners::lemma_first_bad_character(s, 0, v);
    lemma_text_then_end(s, 8, e, n, c, v, r);
    lemma_tag_then_content(s, e + 9, n, c, v, r);
    lemma_misc_at_end(s, v);
}

proof fn lemma_misc_at_end(s: Seq<char>, v: XmlVersion)
    ensures
        crate::entities::misc_end(s, s.len() as int, v) == Ok::<int, FaultModel>(s.len() as int),
{
    reveal_strlit("<!--");
    reveal_strlit("<?");
}

proof fn lemma_tag_marks(v: XmlVersion)
    ensures
        !blank_char('>', v),
{
}

proof fn lemma_entity_name(n: Seq<char>)
    requires
        n == seq!['e', 'n', 't', 'i', 't', 'y'],
    ensures
        valid_name(n),
{
    lemma_lower('e');
    lemma_lower('n');
    lemma_lower('t');
    lemma_lower('i');
    lemma_lower('y');
}

proof fn lemma_lower(c: char)
    requires
        'a' <= c <= 'z',
    ensures
        name_part(c),
        name_start(c),
{
}

proof fn lemma_ascii(c: char, v: XmlVersion)
    requires
        ' ' <= c <= '~',
    ensures
        crate::dtd::literal_char(c, v),
{
}

/// A replacement without references stands for itself.
pub proof fn lemma_replacement_characters(t: Seq<char>, i: int, v: XmlVersion)
    requires
        0 <= i <= t.len(),
        forall|k: int| 0 <= k < t.len() ==> #[trigger] t[k] != '&' && referable(t[k], v),
    ensures
        replacement_chars_from(t, i, v, t.take(i)) == Ok::<Seq<char>, FaultModel>(t),
    decreases t.len() - i,
{
    if i < t.len() {
        assert(t.take(i).push(t[i]) =~= t.take(i + 1));
        lemma_replacement_characters(t, i + 1, v);
    } else {
        assert(t.take(i) =~= t);
    }
}

/// An error before the first replacement is reported where it is; one behind the end of the text at
/// the end.
pub proof fn lemma_traced_errors(
    s: Seq<char>,
    i: int,
    d: Seq<EntityDeclarationModel>,
    c: ConfigModel,
    v: XmlVersion,
    x: Expanded,
    f: FaultModel,
)
    requires
        0 <= i <= s.len(),
        expanded_document(s, i, d, c.entity_expansion, v) == Ok::<Option<Expanded>, FaultModel>(
            Some(x),
        ),
    ensures
        x.text.take(i) == s.take(i),
        0 <= f.at < i ==> traced(s, x.places, f) == located(s, f),
        f.at >= x.places.len() ==> traced(s, x.places, f) == (ErrorModel {
            kind: f.kind,
            byte: byte_len(s) as int,
        }),
        located(s, f).kind == f.kind,
        located(s, f).byte == byte_offset(s, f.at),
{
    assert(x.text.take(i) =~= s.take(i));
    if 0 <= f.at < i {
        assert(x.places[f.at] == f.at);
    }
}

/// Bytes are read as the text that they hold: with the same result, and with errors where their
/// characters stand in the bytes.
pub proof fn lemma_parsed_bytes(b: Seq<u8>, s: Seq<char>, e: XmlInputEncoding, c: ConfigModel)
    requires
        decoded(b) == Ok::<(Seq<char>, XmlInputEncoding), ErrorModel>((s, e)),
    ensures
        compact_parse_bytes(b, c) == (match compact_parse(s, c) {
            Ok(m) => Ok::<DocumentModel, ErrorModel>(m),
            Err(x) => Err(ErrorModel { kind: x.kind, byte: source_byte(b, s, e, x.byte) }),
        }),
        checked_bytes(b, c) == (match checked_document(s, c) {
            Ok(m) => Ok::<DocumentModel, ErrorModel>(m),
            Err(x) => Err(ErrorModel { kind: x.kind, byte: source_byte(b, s, e, x.byte) }),
        }),
        tolerant_parse(s, c) matches Ok(o) ==> {
            &&& o.diagnostic is None ==> tolerant_parse_bytes(b, c) == Ok::<
                OutcomeModel<DocumentModel>,
                ErrorModel,
            >(OutcomeModel { value: o.value, diagnostic: None, consumed: b.len() as int })
            &&& o.diagnostic matches Some(x) ==> tolerant_parse_bytes(b, c) == Ok::<
                OutcomeModel<DocumentModel>,
                ErrorModel,
            >(
                OutcomeModel {
                    value: o.value,
                    diagnostic: Some(
                        ErrorModel { kind: x.kind, byte: source_byte(b, s, e, x.byte) },
                    ),
                    consumed: source_byte(b, s, e, o.consumed),
                },
            )
        },
{
}

/// A view of a text is of the text itself, within the size that a record can count.
pub proof fn lemma_view_limit(s: Seq<char>, c: ConfigModel, m: DocumentModel)
    requires
        plain_parse(s, c) == Ok::<DocumentModel, ErrorModel>(m),
    ensures
        view_parse(s, c) == (if byte_len(m.text) <= 4294967295 {
            Ok::<DocumentModel, ErrorModel>(m)
        } else {
            Err(
                ErrorModel {
                    kind: ErrorKindModel::InvalidDocumentStructure,
                    byte: byte_len(s) as int,
                },
            )
        }),
{
}

/// A root name that is none is refused at its first character that cannot stand there, counted
/// behind the angle bracket.
pub proof fn lemma_root_names(name: Seq<char>, k: int)
    requires
        0 < k < name.len(),
        name_start(name[0]),
        forall|j: int| 0 < j < k ==> name_part(#[trigger] name[j]),
        !name_part(name[k]),
    ensures
        root_name_fault(name) == Some(
            ErrorModel { kind: ErrorKindModel::InvalidName, byte: 1int + byte_offset(name, k) },
        ),
        root_name_fault(Seq::empty()) == Some(
            ErrorModel { kind: ErrorKindModel::InvalidName, byte: 1 },
        ),
{
    lemma_first_other(name, 1, k);
}

proof fn lemma_first_other(s: Seq<char>, i: int, k: int)
    requires
        0 <= i <= k < s.len(),
        forall|j: int| i <= j < k ==> name_part(#[trigger] s[j]),
        !name_part(s[k]),
    ensures
        first_other(s, i) == Some(k),
    decreases k - i,
{
    if i < k {
        lemma_first_other(s, i + 1, k);
    }
}

/// Every replacement of a document has a number of its own, until they start again.
pub proof fn lemma_generations(g: u64)
    ensures
        next_generation(g) != g,
        g < u64::MAX ==> next_generation(g) == g + 1,
        next_generation(u64::MAX) == 0,
{
}

/// The handles of several nodes are those of the nodes, one by one.
pub proof fn lemma_handles_of_nodes(s: StateModel, n: Seq<TreeModel>, i: int)
    requires
        0 <= i < n.len(),
    ensures
        handles_of(s, n).len() == n.len(),
        handles_of(s, n)[i] == handle_of(s, n[i].id),
        handle_at(s, n, Some(i)) == Some(handle_of(s, n[i].id)),
        handle_at(s, n, None) is None,
        handle_of(s, n[i].id) == (HandleModel {
            lineage: s.lineage,
            document: s.document,
            generation: s.generation,
            local: n[i].id,
        }),
{
}

/// A token of an attribute type is any number of characters that can stand in a name, but not none.
pub proof fn lemma_tokens(s: Seq<char>, i: int, j: int)
    requires
        0 <= i <= j <= s.len(),
        forall|k: int| i <= k < j ==> name_part(#[trigger] s[k]),
        j < s.len() ==> !name_part(s[j]),
    ensures
        i < j ==> nmtoken_end(s, i) == Ok::<int, FaultModel>(j),
        i == j < s.len() ==> nmtoken_end(s, i) == Err::<int, FaultModel>(
            FaultModel { kind: ErrorKindModel::InvalidName, at: i },
        ),
        i == s.len() ==> nmtoken_end(s, i) == Err::<int, FaultModel>(
            FaultModel { kind: ErrorKindModel::UnexpectedEof, at: i },
        ),
        i < j && name_start(s[i]) ==> name_end(s, i) == Ok::<int, FaultModel>(j),
        i < s.len() && !name_start(s[i]) ==> name_end(s, i) == Err::<int, FaultModel>(
            FaultModel { kind: ErrorKindModel::InvalidName, at: i },
        ),
{
    if i < j {
        lemma_part_end(s, i + 1, j);
    }
}

proof fn lemma_part_end(s: Seq<char>, i: int, j: int)
    requires
        0 <= i <= j <= s.len(),
        forall|k: int| i <= k < j ==> name_part(#[trigger] s[k]),
        j < s.len() ==> !name_part(s[j]),
    ensures
        crate::scan::name_part_end(s, i) == j,
    decreases j - i,
{
    if i < j {
        lemma_part_end(s, i + 1, j);
    }
}

} // verus!
