//! What can be declared in a document type declaration, and how it is written.

use vstd::prelude::*;

use crate::document::{doctype, doctype_identifiers, subset_close};
use crate::dom::DoctypeModel;
use crate::dtd::{
    attribute_list_rest, attribute_type_end, content_group, content_model_end, content_particle,
    declaration_close, declaration_head, declared_reference_end, default_declaration_end,
    default_value_rest, element_declaration_end, entity_declaration, entity_named, external_id_end,
    general_entity_definition, group_rest, literal_char, notation_declaration_end,
    pubid_literal_end, pubid_rest, quantifier_end, quote_at, subset_from, subset_item,
    system_literal_end, system_rest, EntityDeclarationModel,
};
use crate::error::{ErrorKindModel, FaultModel};
use crate::forms::{blank_char, blanks, lemma_at, lemma_blanks_are_passed};
use crate::lexeme::{predefined_entity, XmlVersion};
use crate::scan::{comment_end, instruction_end, keyword_at, name_end, required_space, space_end};
use crate::syntax::{
    name_part, name_start, pubid_char, space, valid_name, xml10_char, xml11_literal,
};
use crate::text::{find_from, starts_at};
use crate::unescape::{lemma_name_read, lemma_starts_char, lemma_starts_split};

verus! {

/// The word stands there, and no name goes on behind it.
pub open spec fn word_at(s: Seq<char>, i: int, w: Seq<char>) -> bool {
    &&& starts_at(s, i, w)
    &&& i + w.len() < s.len() ==> !name_part(s[i + w.len()])
}

proof fn lemma_other_word(s: Seq<char>, i: int, w: Seq<char>, x: Seq<char>, k: int)
    requires
        word_at(s, i, w),
        0 <= k < x.len(),
        k < w.len() ==> x[k] != w[k],
        k >= w.len() ==> k == w.len() && name_part(x[k]),
    ensures
        !starts_at(s, i, x),
{
    if starts_at(s, i, x) {
        lemma_at(s, i, x);
        lemma_at(s, i, w);
        assert(s[i + k] == x[k]);
        if k < w.len() {
            assert(s[i + k] == w[k]);
        }
    }
}

proof fn lemma_letters(c: char)
    ensures
        'A' <= c <= 'Z' ==> name_part(c),
{
}

proof fn lemma_word_idrefs(s: Seq<char>, i: int)
    requires
        word_at(s, i, "IDREFS"@),
    ensures
        attribute_type_end(s, i) == Ok::<int, FaultModel>(i + 6),
{
    reveal_strlit("IDREFS");
    assert("CDATA"@[0] == 'C') by {
        reveal_strlit("CDATA");
    }
    lemma_not_cdata(s, i, "IDREFS"@, 0);
}

proof fn lemma_word_idref(s: Seq<char>, i: int)
    requires
        word_at(s, i, "IDREF"@),
    ensures
        attribute_type_end(s, i) == Ok::<int, FaultModel>(i + 5),
{
    reveal_strlit("IDREF");
    assert("CDATA"@[0] == 'C') by {
        reveal_strlit("CDATA");
    }
    lemma_not_cdata(s, i, "IDREF"@, 0);
    assert("IDREFS"@[5] == 'S') by {
        reveal_strlit("IDREFS");
    }
    lemma_not_idrefs(s, i, "IDREF"@, 5);
}

proof fn lemma_word_id(s: Seq<char>, i: int)
    requires
        word_at(s, i, "ID"@),
    ensures
        attribute_type_end(s, i) == Ok::<int, FaultModel>(i + 2),
{
    reveal_strlit("ID");
    assert("CDATA"@[0] == 'C') by {
        reveal_strlit("CDATA");
    }
    lemma_not_cdata(s, i, "ID"@, 0);
    assert("IDREFS"@[2] == 'R') by {
        reveal_strlit("IDREFS");
    }
    lemma_not_idrefs(s, i, "ID"@, 2);
    assert("IDREF"@[2] == 'R') by {
        reveal_strlit("IDREF");
    }
    lemma_not_idref(s, i, "ID"@, 2);
}

proof fn lemma_word_entities(s: Seq<char>, i: int)
    requires
        word_at(s, i, "ENTITIES"@),
    ensures
        attribute_type_end(s, i) == Ok::<int, FaultModel>(i + 8),
{
    reveal_strlit("ENTITIES");
    assert("CDATA"@[0] == 'C') by {
        reveal_strlit("CDATA");
    }
    lemma_not_cdata(s, i, "ENTITIES"@, 0);
    assert("IDREFS"@[0] == 'I') by {
        reveal_strlit("IDREFS");
    }
    lemma_not_idrefs(s, i, "ENTITIES"@, 0);
    assert("IDREF"@[0] == 'I') by {
        reveal_strlit("IDREF");
    }
    lemma_not_idref(s, i, "ENTITIES"@, 0);
    assert("ID"@[0] == 'I') by {
        reveal_strlit("ID");
    }
    lemma_not_id(s, i, "ENTITIES"@, 0);
}

proof fn lemma_word_entity(s: Seq<char>, i: int)
    requires
        word_at(s, i, "ENTITY"@),
    ensures
        attribute_type_end(s, i) == Ok::<int, FaultModel>(i + 6),
{
    reveal_strlit("ENTITY");
    assert("CDATA"@[0] == 'C') by {
        reveal_strlit("CDATA");
    }
    lemma_not_cdata(s, i, "ENTITY"@, 0);
    assert("IDREFS"@[0] == 'I') by {
        reveal_strlit("IDREFS");
    }
    lemma_not_idrefs(s, i, "ENTITY"@, 0);
    assert("IDREF"@[0] == 'I') by {
        reveal_strlit("IDREF");
    }
    lemma_not_idref(s, i, "ENTITY"@, 0);
    assert("ID"@[0] == 'I') by {
        reveal_strlit("ID");
    }
    lemma_not_id(s, i, "ENTITY"@, 0);
    assert("ENTITIES"@[5] == 'I') by {
        reveal_strlit("ENTITIES");
    }
    lemma_not_entities(s, i, "ENTITY"@, 5);
}

proof fn lemma_word_nmtokens(s: Seq<char>, i: int)
    requires
        word_at(s, i, "NMTOKENS"@),
    ensures
        attribute_type_end(s, i) == Ok::<int, FaultModel>(i + 8),
{
    reveal_strlit("NMTOKENS");
    assert("CDATA"@[0] == 'C') by {
        reveal_strlit("CDATA");
    }
    lemma_not_cdata(s, i, "NMTOKENS"@, 0);
    assert("IDREFS"@[0] == 'I') by {
        reveal_strlit("IDREFS");
    }
    lemma_not_idrefs(s, i, "NMTOKENS"@, 0);
    assert("IDREF"@[0] == 'I') by {
        reveal_strlit("IDREF");
    }
    lemma_not_idref(s, i, "NMTOKENS"@, 0);
    assert("ID"@[0] == 'I') by {
        reveal_strlit("ID");
    }
    lemma_not_id(s, i, "NMTOKENS"@, 0);
    assert("ENTITIES"@[0] == 'E') by {
        reveal_strlit("ENTITIES");
    }
    lemma_not_entities(s, i, "NMTOKENS"@, 0);
    assert("ENTITY"@[0] == 'E') by {
        reveal_strlit("ENTITY");
    }
    lemma_not_entity(s, i, "NMTOKENS"@, 0);
}

proof fn lemma_word_nmtoken(s: Seq<char>, i: int)
    requires
        word_at(s, i, "NMTOKEN"@),
    ensures
        attribute_type_end(s, i) == Ok::<int, FaultModel>(i + 7),
{
    reveal_strlit("NMTOKEN");
    assert("CDATA"@[0] == 'C') by {
        reveal_strlit("CDATA");
    }
    lemma_not_cdata(s, i, "NMTOKEN"@, 0);
    assert("IDREFS"@[0] == 'I') by {
        reveal_strlit("IDREFS");
    }
    lemma_not_idrefs(s, i, "NMTOKEN"@, 0);
    assert("IDREF"@[0] == 'I') by {
        reveal_strlit("IDREF");
    }
    lemma_not_idref(s, i, "NMTOKEN"@, 0);
    assert("ID"@[0] == 'I') by {
        reveal_strlit("ID");
    }
    lemma_not_id(s, i, "NMTOKEN"@, 0);
    assert("ENTITIES"@[0] == 'E') by {
        reveal_strlit("ENTITIES");
    }
    lemma_not_entities(s, i, "NMTOKEN"@, 0);
    assert("ENTITY"@[0] == 'E') by {
        reveal_strlit("ENTITY");
    }
    lemma_not_entity(s, i, "NMTOKEN"@, 0);
    assert("NMTOKENS"@[7] == 'S') by {
        reveal_strlit("NMTOKENS");
    }
    lemma_not_nmtokens(s, i, "NMTOKEN"@, 7);
}

proof fn lemma_not_cdata(s: Seq<char>, i: int, w: Seq<char>, k: int)
    requires
        word_at(s, i, w),
        0 <= k < 5,
        k <= w.len(),
        k < w.len() ==> "CDATA"@[k] != w[k],
    ensures
        !starts_at(s, i, "CDATA"@),
{
    reveal_strlit("CDATA");
    lemma_letters("CDATA"@[k]);
    lemma_other_word(s, i, w, "CDATA"@, k);
}

proof fn lemma_not_idrefs(s: Seq<char>, i: int, w: Seq<char>, k: int)
    requires
        word_at(s, i, w),
        0 <= k < 6,
        k <= w.len(),
        k < w.len() ==> "IDREFS"@[k] != w[k],
    ensures
        !starts_at(s, i, "IDREFS"@),
{
    reveal_strlit("IDREFS");
    lemma_letters("IDREFS"@[k]);
    lemma_other_word(s, i, w, "IDREFS"@, k);
}

proof fn lemma_not_idref(s: Seq<char>, i: int, w: Seq<char>, k: int)
    requires
        word_at(s, i, w),
        0 <= k < 5,
        k <= w.len(),
        k < w.len() ==> "IDREF"@[k] != w[k],
    ensures
        !starts_at(s, i, "IDREF"@),
{
    reveal_strlit("IDREF");
    lemma_letters("IDREF"@[k]);
    lemma_other_word(s, i, w, "IDREF"@, k);
}

proof fn lemma_not_id(s: Seq<char>, i: int, w: Seq<char>, k: int)
    requires
        word_at(s, i, w),
        0 <= k < 2,
        k <= w.len(),
        k < w.len() ==> "ID"@[k] != w[k],
    ensures
        !starts_at(s, i, "ID"@),
{
    reveal_strlit("ID");
    lemma_letters("ID"@[k]);
    lemma_other_word(s, i, w, "ID"@, k);
}

proof fn lemma_not_entities(s: Seq<char>, i: int, w: Seq<char>, k: int)
    requires
        word_at(s, i, w),
        0 <= k < 8,
        k <= w.len(),
        k < w.len() ==> "ENTITIES"@[k] != w[k],
    ensures
        !starts_at(s, i, "ENTITIES"@),
{
    reveal_strlit("ENTITIES");
    lemma_letters("ENTITIES"@[k]);
    lemma_other_word(s, i, w, "ENTITIES"@, k);
}

proof fn lemma_not_entity(s: Seq<char>, i: int, w: Seq<char>, k: int)
    requires
        word_at(s, i, w),
        0 <= k < 6,
        k <= w.len(),
        k < w.len() ==> "ENTITY"@[k] != w[k],
    ensures
        !starts_at(s, i, "ENTITY"@),
{
    reveal_strlit("ENTITY");
    lemma_letters("ENTITY"@[k]);
    lemma_other_word(s, i, w, "ENTITY"@, k);
}

proof fn lemma_not_nmtokens(s: Seq<char>, i: int, w: Seq<char>, k: int)
    requires
        word_at(s, i, w),
        0 <= k < 8,
        k <= w.len(),
        k < w.len() ==> "NMTOKENS"@[k] != w[k],
    ensures
        !starts_at(s, i, "NMTOKENS"@),
{
    reveal_strlit("NMTOKENS");
    lemma_letters("NMTOKENS"@[k]);
    lemma_other_word(s, i, w, "NMTOKENS"@, k);
}

/// The types of attributes that are one word.
pub proof fn lemma_attribute_types(s: Seq<char>, i: int)
    ensures
        word_at(s, i, "CDATA"@) ==> attribute_type_end(s, i) == Ok::<int, FaultModel>(i + 5),
        word_at(s, i, "ID"@) ==> attribute_type_end(s, i) == Ok::<int, FaultModel>(i + 2),
        word_at(s, i, "IDREF"@) ==> attribute_type_end(s, i) == Ok::<int, FaultModel>(i + 5),
        word_at(s, i, "IDREFS"@) ==> attribute_type_end(s, i) == Ok::<int, FaultModel>(i + 6),
        word_at(s, i, "ENTITY"@) ==> attribute_type_end(s, i) == Ok::<int, FaultModel>(i + 6),
        word_at(s, i, "ENTITIES"@) ==> attribute_type_end(s, i) == Ok::<int, FaultModel>(i + 8),
        word_at(s, i, "NMTOKEN"@) ==> attribute_type_end(s, i) == Ok::<int, FaultModel>(i + 7),
        word_at(s, i, "NMTOKENS"@) ==> attribute_type_end(s, i) == Ok::<int, FaultModel>(i + 8),
{
    reveal_strlit("CDATA");
    if word_at(s, i, "IDREFS"@) {
        lemma_word_idrefs(s, i);
    }
    if word_at(s, i, "IDREF"@) {
        lemma_word_idref(s, i);
    }
    if word_at(s, i, "ID"@) {
        lemma_word_id(s, i);
    }
    if word_at(s, i, "ENTITIES"@) {
        lemma_word_entities(s, i);
    }
    if word_at(s, i, "ENTITY"@) {
        lemma_word_entity(s, i);
    }
    if word_at(s, i, "NMTOKENS"@) {
        lemma_word_nmtokens(s, i);
    }
    if word_at(s, i, "NMTOKEN"@) {
        lemma_word_nmtoken(s, i);
    }
}

/// The defaults of attributes that are one word.
pub proof fn lemma_attribute_defaults(
    s: Seq<char>,
    i: int,
    v: XmlVersion,
    d: Seq<EntityDeclarationModel>,
)
    ensures
        word_at(s, i, "#REQUIRED"@) ==> default_declaration_end(s, i, v, d) == Ok::<
            int,
            FaultModel,
        >(i + 9),
        word_at(s, i, "#IMPLIED"@) ==> default_declaration_end(s, i, v, d) == Ok::<
            int,
            FaultModel,
        >(i + 8),
{
    reveal_strlit("#REQUIRED");
    reveal_strlit("#IMPLIED");
    if word_at(s, i, "#IMPLIED"@) {
        lemma_other_word(s, i, "#IMPLIED"@, "#REQUIRED"@, 1);
    }
}

/// The default value of an attribute: text up to the quote, without `<`, and with references only
/// to what is declared.
pub proof fn lemma_default_values(
    s: Seq<char>,
    i: int,
    j: int,
    q: char,
    v: XmlVersion,
    d: Seq<EntityDeclarationModel>,
    n: Seq<char>,
)
    requires
        0 <= i <= j < s.len(),
        q == '"' || q == '\'',
        forall|k: int|
            i <= k < j ==> #[trigger] s[k] != q && s[k] != '<' && s[k] != '&' && literal_char(
                s[k],
                v,
            ),
    ensures
        s[j] == q ==> default_value_rest(s, i, q, v, d) == Ok::<int, FaultModel>(j + 1),
        s[j] == '<' ==> default_value_rest(s, i, q, v, d) == Err::<int, FaultModel>(
            FaultModel { kind: ErrorKindModel::InvalidAttributeValue, at: j },
        ),
        s[j] != q && s[j] != '<' && s[j] != '&' && !literal_char(s[j], v) ==> default_value_rest(
            s,
            i,
            q,
            v,
            d,
        ) == Err::<int, FaultModel>(
            FaultModel { kind: ErrorKindModel::InvalidCharacter, at: j },
        ),
        valid_name(n) && starts_at(s, j, seq!['&'] + (n + seq![';'])) ==> declared_reference_end(
            s,
            j,
            v,
            d,
        ) == (if predefined_entity(n) is Some || entity_named(d, n) is Some {
            Ok::<int, FaultModel>(2int + j + n.len())
        } else {
            Err(
                FaultModel {
                    kind: ErrorKindModel::UndeclaredEntity(n),
                    at: 2int + j + n.len(),
                },
            )
        }),
    decreases j - i,
{
    if i < j {
        lemma_default_values(s, i + 1, j, q, v, d, n);
    } else if valid_name(n) && starts_at(s, j, seq!['&'] + (n + seq![';'])) {
        reveal_strlit("&");
        reveal_strlit("#");
        reveal_strlit(";");
        assert("&"@ =~= seq!['&']);
        assert("#"@ =~= seq!['#']);
        assert(";"@ =~= seq![';']);
        lemma_starts_split(s, j, seq!['&'], n + seq![';']);
        lemma_starts_split(s, j + 1, n, seq![';']);
        lemma_at(s, j + 1, n);
        assert(s[j + 1] == n[0]);
        lemma_starts_char(s, j + 1, '#');
        lemma_starts_char(s, j + 1 + n.len(), ';');
        lemma_name_marks(n[0]);
        lemma_name_read(s, j + 1, n);
    }
}

proof fn lemma_name_marks(c: char)
    ensures
        crate::syntax::name_start(c) ==> c != '#',
        !name_part(';'),
{
}

/// A system identifier goes up to its quote and has no fragment; a public identifier goes up to its
/// quote and has only the characters that it is allowed.
pub proof fn lemma_identifier_literals(s: Seq<char>, i: int, j: int, q: char, v: XmlVersion)
    requires
        0 <= i <= j < s.len(),
        q == '"' || q == '\'',
    ensures
        (forall|k: int|
            i <= k < j ==> #[trigger] s[k] != q && s[k] != '#' && literal_char(s[k], v)) ==> {
            &&& s[j] == q ==> system_rest(s, i, q, v) == Ok::<int, FaultModel>(j + 1)
            &&& s[j] == '#' ==> system_rest(s, i, q, v) == Err::<int, FaultModel>(
                FaultModel { kind: ErrorKindModel::InvalidDocumentStructure, at: j },
            )
        },
        (forall|k: int| i <= k < j ==> #[trigger] s[k] != q && pubid_char(s[k])) ==> {
            &&& s[j] == q ==> pubid_rest(s, i, q) == Ok::<int, FaultModel>(j + 1)
            &&& s[j] != q && !pubid_char(s[j]) ==> pubid_rest(s, i, q) == Err::<int, FaultModel>(
                FaultModel { kind: ErrorKindModel::InvalidDocumentStructure, at: j },
            )
        },
    decreases j - i,
{
    if i < j {
        lemma_identifier_literals(s, i + 1, j, q, v);
    }
}

/// The identifiers of a document type: a system identifier alone, or a public one before it.
pub proof fn lemma_identifiers(s: Seq<char>, i: int, a: int, b: int, e: int, g: int, v: XmlVersion)
    requires
        0 <= i,
        a <= b,
        e <= g,
    ensures
        word_at(s, i, "SYSTEM"@) && required_space(s, i + 6) == Ok::<int, FaultModel>(e)
            && system_literal_end(s, e, v) == Ok::<int, FaultModel>(g) ==> {
            &&& doctype_identifiers(s, i, v) == Ok::<
                (Option<Seq<char>>, Option<Seq<char>>, int),
                FaultModel,
            >((None, Some(s.subrange(e + 1, g - 1)), g))
            &&& external_id_end(s, i, v) == Ok::<int, FaultModel>(g)
        },
        word_at(s, i, "PUBLIC"@) && required_space(s, i + 6) == Ok::<int, FaultModel>(a)
            && pubid_literal_end(s, a) == Ok::<int, FaultModel>(b) && required_space(s, b) == Ok::<
            int,
            FaultModel,
        >(e) && system_literal_end(s, e, v) == Ok::<int, FaultModel>(g) ==> {
            &&& doctype_identifiers(s, i, v) == Ok::<
                (Option<Seq<char>>, Option<Seq<char>>, int),
                FaultModel,
            >((Some(s.subrange(a + 1, b - 1)), Some(s.subrange(e + 1, g - 1)), g))
            &&& external_id_end(s, i, v) == Ok::<int, FaultModel>(g)
        },
        !word_at(s, i, "SYSTEM"@) && !word_at(s, i, "PUBLIC"@) ==> {
            &&& doctype_identifiers(s, i, v) == Ok::<
                (Option<Seq<char>>, Option<Seq<char>>, int),
                FaultModel,
            >((None, None, i))
            &&& external_id_end(s, i, v) == Err::<int, FaultModel>(
                FaultModel { kind: ErrorKindModel::InvalidDocumentStructure, at: i },
            )
        },
{
    reveal_strlit("SYSTEM");
    reveal_strlit("PUBLIC");
    if word_at(s, i, "PUBLIC"@) {
        lemma_other_word(s, i, "PUBLIC"@, "SYSTEM"@, 0);
    }
}

/// How often a part of a content model may stand: one of three marks behind it, or none.
pub proof fn lemma_quantifiers(s: Seq<char>, i: int)
    requires
        0 <= i < s.len(),
    ensures
        quantifier_end(s, i) == (if s[i] == '?' || s[i] == '*' || s[i] == '+' {
            i + 1
        } else {
            i
        }),
        quantifier_end(s, s.len() as int) == s.len(),
{
}

/// The parts of a content model are parted by commas or by bars, not by both, and with bars no name
/// comes twice.
pub proof fn lemma_content_models(
    s: Seq<char>,
    i: int,
    depth: int,
    separator: Option<char>,
    names: Seq<Seq<char>>,
    n: Seq<char>,
    k: int,
)
    requires
        0 <= i < s.len(),
    ensures
        s[i] == ')' ==> group_rest(s, i, depth, separator, names) == Ok::<int, FaultModel>(i + 1),
        s[i] == ',' && separator == Some('|') ==> group_rest(s, i, depth, separator, names)
            == Err::<int, FaultModel>(
            FaultModel { kind: ErrorKindModel::InvalidDocumentStructure, at: i },
        ),
        s[i] == '|' && separator == Some(',') ==> group_rest(s, i, depth, separator, names)
            == Err::<int, FaultModel>(
            FaultModel { kind: ErrorKindModel::InvalidDocumentStructure, at: i },
        ),
        s[i] != ')' && s[i] != ',' && s[i] != '|' ==> group_rest(s, i, depth, separator, names)
            == Err::<int, FaultModel>(
            FaultModel { kind: ErrorKindModel::InvalidDocumentStructure, at: i },
        ),
        s[i] == '|' && (separator is None || separator == Some('|')) && i < space_end(s, i + 1)
            <= s.len()
            && content_particle(s, space_end(s, i + 1), depth) == Ok::<
            (Option<Seq<char>>, int),
            FaultModel,
        >((Some(n), k)) && i < space_end(s, k) <= s.len() ==> group_rest(
            s,
            i,
            depth,
            separator,
            names,
        ) == (if exists|j: int| 0 <= j < names.len() && #[trigger] names[j] == n {
            Err::<int, FaultModel>(
                FaultModel { kind: ErrorKindModel::InvalidDocumentStructure, at: k },
            )
        } else {
            group_rest(s, space_end(s, k), depth, Some('|'), names.push(n))
        }),
        depth > 128 ==> content_group(s, i, depth) == Err::<(bool, int), FaultModel>(
            FaultModel { kind: ErrorKindModel::DepthLimitExceeded, at: i },
        ),
{
}

/// The end of an internal subset is the first closing bracket that is neither quoted nor in a
/// comment or an instruction.
pub proof fn lemma_end_of_a_subset(s: Seq<char>, i: int, j: int, q: char)
    requires
        0 <= i <= j < s.len(),
        q == '"' || q == '\'',
    ensures
        (forall|k: int|
            i <= k < j ==> #[trigger] s[k] != ']' && s[k] != '"' && s[k] != '\'' && s[k] != '<')
            ==> {
            &&& s[j] == ']' ==> subset_close(s, i, None) == Ok::<int, FaultModel>(j)
            &&& s[j] == q ==> subset_close(s, i, None) == subset_close(s, j + 1, Some(q))
        },
        (forall|k: int| i <= k < j ==> #[trigger] s[k] != q) && s[j] == q ==> subset_close(
            s,
            i,
            Some(q),
        ) == subset_close(s, j + 1, None),
        starts_at(s, j, "<!--"@) ==> (find_from(s, j + 4, "-->"@) matches Some(e) ==> (j < e && e
            + 3 <= s.len() ==> subset_close(s, j, None) == subset_close(s, e + 3, None))),
    decreases j - i,
{
    reveal_strlit("<!--");
    reveal_strlit("<?");
    if s[i] != '<' {
        if starts_at(s, i, "<!--"@) {
            lemma_at(s, i, "<!--"@);
            assert(s[i] == "<!--"@[0]);
        }
        if starts_at(s, i, "<?"@) {
            lemma_at(s, i, "<?"@);
            assert(s[i] == "<?"@[0]);
        }
    }
    if starts_at(s, j, "<!--"@) {
        lemma_at(s, j, "<!--"@);
        assert(s[j] == "<!--"@[0]);
    }
    if i < j {
        lemma_end_of_a_subset(s, i + 1, j, q);
    }
}

/// What stands in a subset: comments, instructions, four kinds of declarations and references to
/// parameter entities. Only a declaration of an entity declares one.
pub proof fn lemma_items_of_a_subset(
    s: Seq<char>,
    i: int,
    v: XmlVersion,
    d: Seq<EntityDeclarationModel>,
)
    requires
        0 <= i < s.len(),
    ensures
        s[i] != '<' && s[i] != '%' ==> subset_item(s, i, v, d) == Err::<
            (Seq<EntityDeclarationModel>, int),
            FaultModel,
        >(FaultModel { kind: ErrorKindModel::InvalidDocumentStructure, at: i }),
        !starts_at(s, i, "<!ENTITY"@) ==> (subset_item(s, i, v, d) matches Ok((e, _)) ==> e == d),
        starts_at(s, i, "<!--"@) ==> (comment_end(s, i) matches Ok(k) ==> subset_item(s, i, v, d)
            == Ok::<(Seq<EntityDeclarationModel>, int), FaultModel>((d, k))),
        starts_at(s, i, "<?"@) ==> (instruction_end(s, i) matches Ok(k) ==> subset_item(s, i, v, d)
            == Ok::<(Seq<EntityDeclarationModel>, int), FaultModel>((d, k))),
        blanks(s.skip(i), XmlVersion::Xml10) ==> subset_from(s, i, v, d) == Ok::<
            Seq<EntityDeclarationModel>,
            FaultModel,
        >(d),
{
    reveal_strlit("<!--");
    reveal_strlit("<?");
    reveal_strlit("<!ELEMENT");
    reveal_strlit("<!ATTLIST");
    reveal_strlit("<!ENTITY");
    reveal_strlit("<!NOTATION");
    reveal_strlit("%");
    assert("%"@ =~= seq!['%']);
    lemma_starts_char(s, i, '%');
    lemma_first_char(s, i, "<!--"@);
    lemma_first_char(s, i, "<?"@);
    lemma_first_char(s, i, "<!ELEMENT"@);
    lemma_first_char(s, i, "<!ATTLIST"@);
    lemma_first_char(s, i, "<!ENTITY"@);
    lemma_first_char(s, i, "<!NOTATION"@);
    if starts_at(s, i, "<?"@) {
        lemma_at(s, i, "<?"@);
        assert(s[i + 1] == "<?"@[1]);
        if starts_at(s, i, "<!--"@) {
            lemma_at(s, i, "<!--"@);
            assert(s[i + 1] == "<!--"@[1]);
        }
    }
    if blanks(s.skip(i), XmlVersion::Xml10) {
        assert forall|k: int| i <= k < s.len() implies blank_char(
            #[trigger] s[k],
            XmlVersion::Xml10,
        ) by {
            assert(s[k] == s.skip(i)[k - i]);
        }
        lemma_blanks_are_passed(s, i, s.len() as int, XmlVersion::Xml10);
    }
}

proof fn lemma_first_char(s: Seq<char>, i: int, t: Seq<char>)
    requires
        t.len() > 0,
        0 <= i < s.len(),
    ensures
        starts_at(s, i, t) ==> s[i] == t[0],
{
    if starts_at(s, i, t) {
        lemma_at(s, i, t);
    }
}

/// An element is declared to be empty, to hold anything, or to hold what a content model says.
pub proof fn lemma_element_declarations(
    s: Seq<char>,
    i: int,
    a: Seq<char>,
    n: Seq<char>,
    b: Seq<char>,
    w: Seq<char>,
    e: Seq<char>,
)
    requires
        starts_at(s, i, "<!ELEMENT"@ + (a + (n + (b + (w + (e + seq!['>'])))))),
        a.len() > 0 && blanks(a, XmlVersion::Xml10),
        b.len() > 0 && blanks(b, XmlVersion::Xml10),
        blanks(e, XmlVersion::Xml10),
        valid_name(n),
        w == "EMPTY"@ || w == "ANY"@,
    ensures
        element_declaration_end(s, i) == Ok::<int, FaultModel>(
            10int + i + a.len() + n.len() + b.len() + w.len() + e.len(),
        ),
{
    let g = XmlVersion::Xml10;
    reveal_strlit("<!ELEMENT");
    reveal_strlit("EMPTY");
    reveal_strlit("ANY");
    reveal_strlit(">");
    assert(">"@ =~= seq!['>']);
    lemma_starts_split(s, i, "<!ELEMENT"@, a + (n + (b + (w + (e + seq!['>'])))));
    let i1 = i + 9;
    lemma_starts_split(s, i1, a, n + (b + (w + (e + seq!['>']))));
    let i2 = i1 + a.len();
    lemma_starts_split(s, i2, n, b + (w + (e + seq!['>'])));
    let i3 = i2 + n.len();
    lemma_starts_split(s, i3, b, w + (e + seq!['>']));
    let i4 = i3 + b.len();
    lemma_starts_split(s, i4, w, e + seq!['>']);
    let i5 = i4 + w.len();
    lemma_starts_split(s, i5, e, seq!['>']);
    let i6 = i5 + e.len();
    lemma_at(s, i1, a);
    lemma_at(s, i2, n);
    lemma_at(s, i3, b);
    lemma_at(s, i4, w);
    lemma_at(s, i5, e);
    lemma_starts_char(s, i6, '>');
    assert(s[i1] == a[0]);
    assert(s[i2] == n[0]);
    assert(s[i3] == b[0]);
    assert(s[i4] == w[0]);
    lemma_apart(s[i1]);
    lemma_apart(s[i2]);
    lemma_apart(s[i3]);
    lemma_apart(s[i4]);
    lemma_apart('>');
    assert forall|k: int| i1 <= k < i2 implies blank_char(#[trigger] s[k], g) by {
        assert(s[k] == a[k - i1]);
    }
    lemma_blanks_are_passed(s, i1, i2, g);
    lemma_name_read(s, i2, n);
    assert forall|k: int| i3 <= k < i4 implies blank_char(#[trigger] s[k], g) by {
        assert(s[k] == b[k - i3]);
    }
    lemma_blanks_are_passed(s, i3, i4, g);
    assert forall|k: int| i5 <= k < i6 implies blank_char(#[trigger] s[k], g) by {
        assert(s[k] == e[k - i5]);
    }
    lemma_blanks_are_passed(s, i5, i6, g);
    if e.len() > 0 {
        assert(s[i5] == e[0]);
        lemma_apart(s[i5]);
    }
    assert(word_at(s, i4, w));
    if w == "ANY"@ {
        lemma_other_word(s, i4, w, "EMPTY"@, 0);
    }
}

proof fn lemma_apart(c: char)
    ensures
        blank_char(c, XmlVersion::Xml10) == space(c),
        space(c) ==> !name_part(c),
        crate::syntax::name_start(c) ==> !space(c),
        'A' <= c <= 'Z' ==> !space(c),
        c == '>' ==> !space(c) && !name_part(c),
{
}

proof fn lemma_same_word(s: Seq<char>, i: int, w: Seq<char>, x: Seq<char>)
    requires
        word_at(s, i, w),
        forall|k: int| 0 <= k < w.len() ==> name_part(#[trigger] w[k]),
        forall|k: int| 0 <= k < x.len() ==> 'A' <= #[trigger] x[k] <= 'Z',
        w != x,
    ensures
        !keyword_at(s, i, x),
{
    if keyword_at(s, i, x) {
        lemma_at(s, i, w);
        lemma_at(s, i, x);
        if x.len() < w.len() {
            assert(s[i + x.len()] == w[x.len() as int]);
        } else if w.len() < x.len() {
            assert(s[i + w.len()] == x[w.len() as int]);
            lemma_letters(x[w.len() as int]);
        } else {
            assert(w =~= x);
        }
    }
}

/// Any other word is no type of an attribute.
pub proof fn lemma_unknown_attribute_type(s: Seq<char>, i: int, w: Seq<char>)
    requires
        word_at(s, i, w),
        w.len() > 0,
        forall|k: int| 0 <= k < w.len() ==> name_part(#[trigger] w[k]),
        w != "CDATA"@ && w != "ID"@ && w != "IDREF"@ && w != "IDREFS"@,
        w != "ENTITY"@ && w != "ENTITIES"@ && w != "NMTOKEN"@ && w != "NMTOKENS"@,
        w != "NOTATION"@,
    ensures
        attribute_type_end(s, i) == Err::<int, FaultModel>(
            FaultModel { kind: ErrorKindModel::InvalidDocumentStructure, at: i },
        ),
{
    reveal_strlit("CDATA");
    reveal_strlit("ID");
    reveal_strlit("IDREF");
    reveal_strlit("IDREFS");
    reveal_strlit("ENTITY");
    reveal_strlit("ENTITIES");
    reveal_strlit("NMTOKEN");
    reveal_strlit("NMTOKENS");
    reveal_strlit("NOTATION");
    lemma_same_word(s, i, w, "CDATA"@);
    lemma_same_word(s, i, w, "ID"@);
    lemma_same_word(s, i, w, "IDREF"@);
    lemma_same_word(s, i, w, "IDREFS"@);
    lemma_same_word(s, i, w, "ENTITY"@);
    lemma_same_word(s, i, w, "ENTITIES"@);
    lemma_same_word(s, i, w, "NMTOKEN"@);
    lemma_same_word(s, i, w, "NMTOKENS"@);
    lemma_same_word(s, i, w, "NOTATION"@);
    lemma_at(s, i, w);
    assert(s[i] == w[0]);
    lemma_no_bracket(w[0]);
}

proof fn lemma_no_bracket(c: char)
    ensures
        name_part(c) ==> c != '(',
{
}

/// A declaration starts with its word and white space; a declaration of a parameter entity declares
/// no general one, and an entity that is not given by a text is elsewhere.
pub proof fn lemma_declaration_starts(
    s: Seq<char>,
    i: int,
    v: XmlVersion,
    d: Seq<EntityDeclarationModel>,
    j: int,
)
    requires
        0 <= i,
    ensures
        starts_at(s, i, "<!DOCTYPE"@) && i + 9 < s.len() && !space(s[i + 9]) ==> doctype(s, i, v)
            == Err::<(DoctypeModel, Seq<EntityDeclarationModel>, int), FaultModel>(
            FaultModel { kind: ErrorKindModel::Expected("whitespace"@), at: i + 9 },
        ),
        starts_at(s, i, "<!ENTITY"@) && i + 8 < s.len() && !space(s[i + 8]) ==> entity_declaration(
            s,
            i,
            v,
            d,
        ) == Err::<(Seq<EntityDeclarationModel>, int), FaultModel>(
            FaultModel { kind: ErrorKindModel::Expected("whitespace"@), at: i + 8 },
        ),
        required_space(s, i + 8) == Ok::<int, FaultModel>(j) && starts_at(s, j, "%"@) ==> (
        entity_declaration(s, i, v, d) matches Ok((e, _)) ==> e == d),
        !quote_at(s, i) ==> (general_entity_definition(s, i, v) matches Ok((e, _)) ==> e
            is External),
        quote_at(s, i) ==> (general_entity_definition(s, i, v) matches Ok((e, _)) ==> e
            is Internal),
{
    reveal_strlit("<!DOCTYPE");
    reveal_strlit("<!ENTITY");
}

/// The characters that a document of each version can hold as they stand.
pub proof fn lemma_literal_characters(c: char)
    ensures
        literal_char(c, XmlVersion::Xml10) == xml10_char(c),
        literal_char(c, XmlVersion::Xml11) == xml11_literal(c),
{
}

/// The attributes of a declaration come one behind the other, up to its closing bracket; each is a
/// name, a type and a default, with white space between them.
pub proof fn lemma_attribute_declarations(
    s: Seq<char>,
    i: int,
    j: int,
    v: XmlVersion,
    d: Seq<EntityDeclarationModel>,
    a: int,
    b: int,
    e: int,
    g: int,
    k: int,
)
    requires
        0 <= i <= j < s.len(),
        forall|k: int| i <= k < j ==> blank_char(#[trigger] s[k], XmlVersion::Xml10),
        !blank_char(s[j], XmlVersion::Xml10),
    ensures
        s[j] == '>' ==> attribute_list_rest(s, i, v, d) == Ok::<int, FaultModel>(j + 1),
        s[j] != '>' && name_end(s, j) == Ok::<int, FaultModel>(a) && required_space(s, a) == Ok::<
            int,
            FaultModel,
        >(b) && attribute_type_end(s, b) == Ok::<int, FaultModel>(e) && required_space(s, e)
            == Ok::<int, FaultModel>(g) && default_declaration_end(s, g, v, d) == Ok::<
            int,
            FaultModel,
        >(k) && i < k <= s.len() ==> attribute_list_rest(s, i, v, d) == attribute_list_rest(
            s,
            k,
            v,
            d,
        ),
        s[j] != '>' && !name_start(s[j]) ==> attribute_list_rest(s, i, v, d) == Err::<
            int,
            FaultModel,
        >(FaultModel { kind: ErrorKindModel::InvalidName, at: j }),
{
    reveal_strlit(">");
    assert(">"@ =~= seq!['>']);
    lemma_blanks_are_passed(s, i, j, XmlVersion::Xml10);
    lemma_starts_char(s, j, '>');
}

/// A notation has a system identifier, or a public one with or without it.
pub proof fn lemma_notations(
    s: Seq<char>,
    i: int,
    a: int,
    b: int,
    c: int,
    e: int,
    v: XmlVersion,
)
    requires
        0 <= i,
        declaration_head(s, i, "<!NOTATION"@) == Ok::<int, FaultModel>(a),
        required_space(s, a) == Ok::<int, FaultModel>(b),
    ensures
        starts_at(s, b, "SYSTEM"@) && external_id_end(s, b, v) == Ok::<int, FaultModel>(c)
            ==> notation_declaration_end(s, i, v) == declaration_close(s, c),
        starts_at(s, b, "PUBLIC"@) && required_space(s, b + 6) == Ok::<int, FaultModel>(c)
            && pubid_literal_end(s, c) == Ok::<int, FaultModel>(e) && !quote_at(s, space_end(s, e))
            ==> notation_declaration_end(s, i, v) == declaration_close(s, space_end(s, e)),
        starts_at(s, b, "PUBLIC"@) && required_space(s, b + 6) == Ok::<int, FaultModel>(c)
            && pubid_literal_end(s, c) == Ok::<int, FaultModel>(e) && quote_at(s, space_end(s, e))
            ==> (system_literal_end(s, space_end(s, e), v) matches Ok(g)
            ==> notation_declaration_end(s, i, v) == declaration_close(s, g)),
        !starts_at(s, b, "SYSTEM"@) && !starts_at(s, b, "PUBLIC"@) ==> notation_declaration_end(
            s,
            i,
            v,
        ) == Err::<int, FaultModel>(
            FaultModel { kind: ErrorKindModel::InvalidDocumentStructure, at: b },
        ),
{
    reveal_strlit("SYSTEM");
    reveal_strlit("PUBLIC");
    if starts_at(s, b, "SYSTEM"@) && starts_at(s, b, "PUBLIC"@) {
        lemma_at(s, b, "SYSTEM"@);
        lemma_at(s, b, "PUBLIC"@);
        assert(s[b] == "SYSTEM"@[0]);
        assert(s[b] == "PUBLIC"@[0]);
    }
}

/// A content model may stand once, at most once, any number of times or at least once, as the mark
/// behind it says; mixed content has only the star.
pub proof fn lemma_content_model_ends(s: Seq<char>, i: int, k: int)
    requires
        0 <= k < s.len(),
    ensures
        content_group(s, i, 1) == Ok::<(bool, int), FaultModel>((false, k)) ==> content_model_end(
            s,
            i,
        ) == Ok::<int, FaultModel>(
            if s[k] == '?' || s[k] == '*' || s[k] == '+' {
                k + 1
            } else {
                k
            },
        ),
        content_group(s, i, 1) == Ok::<(bool, int), FaultModel>((true, k)) ==> content_model_end(
            s,
            i,
        ) == Ok::<int, FaultModel>(
            if s[k] == '*' {
                k + 1
            } else {
                k
            },
        ),
{
}

} // verus!
