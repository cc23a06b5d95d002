//! What a reference to an entity stands for.

use vstd::prelude::*;

use crate::config::XmlEntityExpansionPolicy;
use crate::dtd::{
    entity_declaration, entity_from, entity_named, entity_value, entity_value_close,
    entity_value_from, literal_char, name_among, with_declaration, EntityDeclarationModel,
    EntityModel,
};
use crate::entities::{
    expanded_document, expanded_entity, expanded_from, expansion, expansion_copy, expansion_from,
    general_reference_at, opaque_end, replaceable_reference, replacement_fault, table_replacement,
    without_quote_from, Expanded, ExpansionState,
};
use crate::error::{ErrorKindModel, FaultModel};
use crate::forms::{blank_char, blanks, lemma_at, lemma_blanks_are_passed};
use crate::lexeme::{predefined_entity, XmlVersion};
use crate::syntax::{name_part, name_start, valid_name};
use crate::text::{byte_len, byte_offset, starts_at};
use crate::unescape::{lemma_find_char, lemma_name_read, lemma_starts_char, lemma_starts_split};

verus! {

/// Of two declarations of one name the first counts.
pub proof fn lemma_first_declaration_counts(
    d: Seq<EntityDeclarationModel>,
    x: EntityDeclarationModel,
    name: Seq<char>,
)
    ensures
        entity_named(Seq::empty(), name) is None,
        entity_named(d.push(x), name) == (match entity_named(d, name) {
            Some(e) => Some(e),
            None => if x.name == name {
                Some(x.entity)
            } else {
                None
            },
        }),
        entity_named(with_declaration(d, x), name) == entity_named(d.push(x), name),
{
    lemma_entity_push(d, x, name, 0);
    lemma_entity_push(d, x, x.name, 0);
}

proof fn lemma_entity_push(
    d: Seq<EntityDeclarationModel>,
    x: EntityDeclarationModel,
    name: Seq<char>,
    i: int,
)
    requires
        0 <= i <= d.len(),
    ensures
        entity_from(d.push(x), i, name) == (match entity_from(d, i, name) {
            Some(e) => Some(e),
            None => if x.name == name {
                Some(x.entity)
            } else {
                None
            },
        }),
    decreases d.len() - i,
{
    reveal_with_fuel(entity_from, 2);
    if i < d.len() {
        assert(d.push(x)[i] == d[i]);
        lemma_entity_push(d, x, name, i + 1);
    } else {
        assert(d.push(x)[i] == x);
    }
}

proof fn lemma_value_close(s: Seq<char>, i: int, j: int, q: char, v: XmlVersion)
    requires
        0 <= i <= j < s.len(),
        s[j] == q,
        forall|k: int|
            i <= k < j ==> #[trigger] s[k] != q && s[k] != '&' && s[k] != '%' && literal_char(
                s[k],
                v,
            ),
    ensures
        entity_value_close(s, i, q, v) == Ok::<int, FaultModel>(j),
    decreases j - i,
{
    if i < j {
        lemma_value_close(s, i + 1, j, q, v);
    }
}

proof fn lemma_value_kept(t: Seq<char>, i: int, v: XmlVersion, base: int)
    requires
        0 <= i <= t.len(),
        forall|k: int| 0 <= k < t.len() ==> #[trigger] t[k] != '&',
    ensures
        entity_value_from(t, i, v, base, t.take(i)) == Ok::<Seq<char>, FaultModel>(t),
    decreases t.len() - i,
{
    if i < t.len() {
        reveal_strlit("&#");
        if starts_at(t, i, "&#"@) {
            lemma_at(t, i, "&#"@);
            assert(t[i] == "&#"@[0]);
        }
        assert(t.take(i).push(t[i]) =~= t.take(i + 1));
        lemma_value_kept(t, i + 1, v, base);
    } else {
        assert(t.take(i) =~= t);
    }
}

/// An entity is declared by a name and a text between quotes, and stands for the text.
pub proof fn lemma_entity_form(
    s: Seq<char>,
    i: int,
    a: Seq<char>,
    n: Seq<char>,
    b: Seq<char>,
    q: char,
    t: Seq<char>,
    e: Seq<char>,
    v: XmlVersion,
    d: Seq<EntityDeclarationModel>,
)
    requires
        starts_at(
            s,
            i,
            "<!ENTITY"@ + (a + (n + (b + (seq![q] + (t + (seq![q] + (e + seq!['>']))))))),
        ),
        a.len() > 0 && blanks(a, XmlVersion::Xml10),
        b.len() > 0 && blanks(b, XmlVersion::Xml10),
        blanks(e, XmlVersion::Xml10),
        valid_name(n),
        q == '"' || q == '\'',
        forall|k: int|
            0 <= k < t.len() ==> #[trigger] t[k] != q && t[k] != '&' && t[k] != '%' && literal_char(
                t[k],
                v,
            ),
    ensures
        entity_declaration(s, i, v, d) == Ok::<(Seq<EntityDeclarationModel>, int), FaultModel>(
            (
                with_declaration(
                    d,
                    EntityDeclarationModel { name: n, entity: EntityModel::Internal(t) },
                ),
                11int + i + a.len() + n.len() + b.len() + t.len() + e.len(),
            ),
        ),
{
    let o = seq![q];
    let g = XmlVersion::Xml10;
    reveal_strlit("<!ENTITY");
    reveal_strlit("%");
    reveal_strlit(">");
    assert("%"@ =~= seq!['%']);
    assert(">"@ =~= seq!['>']);
    lemma_starts_split(s, i, "<!ENTITY"@, a + (n + (b + (o + (t + (o + (e + seq!['>'])))))));
    let i1 = i + 8;
    lemma_starts_split(s, i1, a, n + (b + (o + (t + (o + (e + seq!['>']))))));
    let i2 = i1 + a.len();
    lemma_starts_split(s, i2, n, b + (o + (t + (o + (e + seq!['>'])))));
    let i3 = i2 + n.len();
    lemma_starts_split(s, i3, b, o + (t + (o + (e + seq!['>']))));
    let i4 = i3 + b.len();
    lemma_starts_split(s, i4, o, t + (o + (e + seq!['>'])));
    let i5 = i4 + 1;
    lemma_starts_split(s, i5, t, o + (e + seq!['>']));
    let i6 = i5 + t.len();
    lemma_starts_split(s, i6, o, e + seq!['>']);
    let i7 = i6 + 1;
    lemma_starts_split(s, i7, e, seq!['>']);
    let i8 = i7 + e.len();
    lemma_at(s, i1, a);
    lemma_at(s, i2, n);
    lemma_at(s, i3, b);
    lemma_at(s, i5, t);
    lemma_at(s, i7, e);
    lemma_starts_char(s, i4, q);
    lemma_starts_char(s, i6, q);
    lemma_starts_char(s, i8, '>');
    assert(s[i1] == a[0]);
    assert(s[i2] == n[0]);
    assert(s[i3] == b[0]);
    lemma_apart(n[0]);
    lemma_apart(b[0]);
    lemma_apart(q);
    lemma_apart('>');
    assert forall|k: int| i1 <= k < i2 implies blank_char(#[trigger] s[k], g) by {
        assert(s[k] == a[k - i1]);
    }
    lemma_blanks_are_passed(s, i1, i2, g);
    lemma_starts_char(s, i2, '%');
    lemma_name_read(s, i2, n);
    assert forall|k: int| i3 <= k < i4 implies blank_char(#[trigger] s[k], g) by {
        assert(s[k] == b[k - i3]);
    }
    lemma_blanks_are_passed(s, i3, i4, g);
    assert forall|k: int| i5 <= k < i6 implies #[trigger] s[k] != q && s[k] != '&' && s[k] != '%'
        && literal_char(s[k], v) by {
        assert(s[k] == t[k - i5]);
    }
    lemma_value_close(s, i5, i6, q, v);
    assert(t.take(0) =~= Seq::empty());
    lemma_value_kept(t, 0, v, i5);
    assert(entity_value(s, i4, v) == Ok::<(Seq<char>, int), FaultModel>((t, i7)));
    assert forall|k: int| i7 <= k < i8 implies blank_char(#[trigger] s[k], g) by {
        assert(s[k] == e[k - i7]);
    }
    lemma_blanks_are_passed(s, i7, i8, g);
    assert(blank_char(s[i1], g));
    assert(blank_char(s[i3], g));
    lemma_space(s[i1]);
    lemma_space(s[i3]);
}

proof fn lemma_space(c: char)
    ensures
        blank_char(c, XmlVersion::Xml10) == crate::syntax::space(c),
{
}

proof fn lemma_apart(c: char)
    ensures
        name_start(c) ==> !blank_char(c, XmlVersion::Xml10) && c != '%',
        blank_char(c, XmlVersion::Xml10) ==> !name_part(c),
        c == '"' || c == '\'' || c == '>' ==> !blank_char(c, XmlVersion::Xml10),
{
}

/// A reference: an ampersand, a name and a semicolon.
pub proof fn lemma_reference_form(s: Seq<char>, i: int, n: Seq<char>)
    requires
        0 <= i < s.len(),
    ensures
        valid_name(n) && starts_at(s, i, seq!['&'] + (n + seq![';'])) ==> general_reference_at(s, i)
            == Some((n, 2int + i + n.len())),
        s[i] != '&' ==> general_reference_at(s, i) is None,
        i + 1 < s.len() && s[i + 1] == '#' ==> general_reference_at(s, i) is None,
{
    if valid_name(n) && starts_at(s, i, seq!['&'] + (n + seq![';'])) {
        lemma_starts_split(s, i, seq!['&'], n + seq![';']);
        lemma_starts_split(s, i + 1, n, seq![';']);
        lemma_starts_char(s, i, '&');
        lemma_at(s, i + 1, n);
        let end = i + 1 + n.len();
        lemma_starts_char(s, end, ';');
        assert forall|k: int| i + 1 <= k < end implies #[trigger] s[k] != ';' by {
            assert(s[k] == n[k - i - 1]);
            assert(name_part(n[k - i - 1]) || k == i + 1);
            lemma_no_semicolon(s[k]);
        }
        lemma_find_char(s, i + 1, end, ';');
        assert(s[i + 1] == n[0]);
        lemma_no_semicolon(n[0]);
    }
}

proof fn lemma_no_semicolon(c: char)
    ensures
        name_part(c) || name_start(c) ==> c != ';' && c != '#',
{
}

/// What an entity stands for that holds neither references nor markup is its text. One that stands
/// in itself or too deep is refused, and so is one that is not declared or that is elsewhere.
pub proof fn lemma_plain_entity(
    d: Seq<EntityDeclarationModel>,
    name: Seq<char>,
    t: Seq<char>,
    max_depth: int,
    room: int,
    stack: Seq<Seq<char>>,
)
    ensures
        stack.len() >= max_depth || (exists|k: int|
            0 <= k < stack.len() && #[trigger] stack[k] == name) ==> expansion(
            d,
            name,
            max_depth,
            room,
            stack,
        ) == Err::<Seq<char>, ErrorKindModel>(ErrorKindModel::EntityExpansionDepthLimitExceeded),
        stack.len() < max_depth && (forall|k: int|
            0 <= k < stack.len() ==> #[trigger] stack[k] != name) ==> {
            &&& entity_named(d, name) is None ==> expansion(d, name, max_depth, room, stack)
                == Err::<Seq<char>, ErrorKindModel>(ErrorKindModel::UndeclaredEntity(name))
            &&& entity_named(d, name) == Some(EntityModel::External) ==> expansion(
                d,
                name,
                max_depth,
                room,
                stack,
            ) == Err::<Seq<char>, ErrorKindModel>(ErrorKindModel::ExternalEntityReference(name))
            &&& entity_named(d, name) == Some(EntityModel::Internal(t)) && (forall|k: int|
                0 <= k < t.len() ==> #[trigger] t[k] != '&' && t[k] != '<') ==> expansion(
                d,
                name,
                max_depth,
                room,
                stack,
            ) == (if byte_len(t) <= room || t.len() == 0 {
                Ok::<Seq<char>, ErrorKindModel>(t)
            } else {
                Err(ErrorKindModel::EntityExpansionSizeLimitExceeded)
            })
        },
{
    if stack.len() < max_depth && !name_among(stack, name) && entity_named(d, name) == Some(
        EntityModel::Internal(t),
    ) && (forall|k: int| 0 <= k < t.len() ==> #[trigger] t[k] != '&' && t[k] != '<') {
        assert(t.take(0) =~= Seq::empty());
        lemma_plain_expansion(d, t, 0, max_depth, room, stack.push(name));
    }
}

/// Only an angle bracket opens a section.
pub proof fn lemma_no_section(s: Seq<char>, i: int)
    requires
        0 <= i < s.len(),
        s[i] != '<',
    ensures
        opaque_end(s, i) is None,
{
    reveal_strlit("<![CDATA[");
    reveal_strlit("<!--");
    reveal_strlit("<?");
    if starts_at(s, i, "<![CDATA["@) {
        lemma_at(s, i, "<![CDATA["@);
        assert(s[i] == "<![CDATA["@[0]);
    }
    if starts_at(s, i, "<!--"@) {
        lemma_at(s, i, "<!--"@);
        assert(s[i] == "<!--"@[0]);
    }
    if starts_at(s, i, "<?"@) {
        lemma_at(s, i, "<?"@);
        assert(s[i] == "<?"@[0]);
    }
}

proof fn lemma_plain_expansion(
    d: Seq<EntityDeclarationModel>,
    t: Seq<char>,
    i: int,
    max_depth: int,
    room: int,
    stack: Seq<Seq<char>>,
)
    requires
        0 <= i <= t.len(),
        i > 0 ==> byte_offset(t, i) <= room,
        forall|k: int| 0 <= k < t.len() ==> #[trigger] t[k] != '&' && t[k] != '<',
    ensures
        expansion_from(d, t, i, max_depth, room, stack, t.take(i)) == (if byte_len(t) <= room
            || t.len() == 0 {
            Ok::<Seq<char>, ErrorKindModel>(t)
        } else {
            Err(ErrorKindModel::EntityExpansionSizeLimitExceeded)
        }),
    decreases t.len() - i,
{
    if i < t.len() {
        lemma_no_section(t, i);
        assert(t.take(i).push(t[i]) =~= t.take(i + 1));
        assert(t.take(i + 1).take(i + 1) =~= t.take(i + 1));
        crate::text::lemma_byte_offset_prefix(t, t.take(i + 1), i + 1);
        crate::text::lemma_byte_offset_monotone(t, i + 1, t.len() as int);
        if byte_offset(t, i + 1) <= room {
            lemma_plain_expansion(d, t, i + 1, max_depth, room, stack);
        }
    } else {
        assert(t.take(i) =~= t);
    }
}

/// A reference inside of an entity is replaced in its turn.
pub proof fn lemma_nested_entity(
    d: Seq<EntityDeclarationModel>,
    s: Seq<char>,
    i: int,
    n: Seq<char>,
    max_depth: int,
    room: int,
    stack: Seq<Seq<char>>,
    out: Seq<char>,
    t: Seq<char>,
)
    requires
        valid_name(n),
        starts_at(s, i, seq!['&'] + (n + seq![';'])),
        predefined_entity(n) is None,
        entity_named(d, n) is Some,
        byte_len(out) <= room,
        expansion(d, n, max_depth, room - byte_len(out), stack) == Ok::<Seq<char>, ErrorKindModel>(
            t,
        ),
        byte_len(out + t) <= room,
    ensures
        expansion_from(d, s, i, max_depth, room, stack, out) == expansion_from(
            d,
            s,
            2int + i + n.len(),
            max_depth,
            room,
            stack,
            out + t,
        ),
{
    lemma_at(s, i, seq!['&'] + (n + seq![';']));
    assert(s[i] == (seq!['&'] + (n + seq![';']))[0]);
    lemma_reference_form(s, i, n);
    lemma_no_section(s, i);
}

/// Entities are replaced only if that is asked for, and only up to a number of bytes in all.
pub proof fn lemma_expansion_policies(
    d: Seq<EntityDeclarationModel>,
    name: Seq<char>,
    v: XmlVersion,
    spent: int,
    max_depth: usize,
    max_expanded_bytes: usize,
)
    requires
        0 <= spent,
    ensures
        expanded_entity(d, name, XmlEntityExpansionPolicy::Disabled, v, spent) == Err::<
            (Seq<char>, int),
            ErrorKindModel,
        >(ErrorKindModel::EntityExpansionDisabled(name)),
        expanded_entity(
            d,
            name,
            XmlEntityExpansionPolicy::ExpandInternal { max_depth, max_expanded_bytes },
            v,
            spent,
        ) matches Ok((t, after)) ==> {
            &&& after == spent + byte_len(t)
            &&& after <= max_expanded_bytes
            &&& replacement_fault(t, v) is None
            &&& expansion(
                d,
                name,
                max_depth as int,
                max_expanded_bytes - spent,
                Seq::empty(),
            ) == Ok::<Seq<char>, ErrorKindModel>(t)
        },
        entity_named(d, name) is None ==> table_replacement(
            d,
            XmlEntityExpansionPolicy::ExpandInternal { max_depth, max_expanded_bytes },
            v,
            name,
            spent,
        ) == Err::<(Seq<char>, int), ErrorKindModel>(ErrorKindModel::UndeclaredEntity(name)),
{
}

/// A reference is replaced below the root and in attribute values, if the entity is declared and is
/// none of the five that are always there.
pub proof fn lemma_replaced_references(
    s: Seq<char>,
    i: int,
    n: Seq<char>,
    d: Seq<EntityDeclarationModel>,
    e: ExpansionState,
)
    requires
        valid_name(n),
        starts_at(s, i, seq!['&'] + (n + seq![';'])),
    ensures
        replaceable_reference(s, i, d, e) is Some <==> {
            &&& entity_named(d, n) is Some
            &&& n != "amp"@ && n != "lt"@ && n != "gt"@ && n != "apos"@ && n != "quot"@
            &&& e.mode is Quoted || (e.mode is Content && e.depth > 0)
        },
        replaceable_reference(s, i, d, e) is Some ==> replaceable_reference(s, i, d, e) == Some(
            (n, 2int + i + n.len()),
        ),
{
    lemma_at(s, i, seq!['&'] + (n + seq![';']));
    lemma_reference_form(s, i, n);
}

/// A text without ampersands is left as it is.
pub proof fn lemma_nothing_to_replace(
    s: Seq<char>,
    i: int,
    d: Seq<EntityDeclarationModel>,
    policy: XmlEntityExpansionPolicy,
    v: XmlVersion,
)
    requires
        0 <= i <= s.len(),
        forall|k: int| i <= k < s.len() ==> #[trigger] s[k] != '&',
    ensures
        expanded_document(s, i, d, policy, v) == Ok::<Option<Expanded>, FaultModel>(None),
        d.len() == 0 ==> expanded_document(s, i, d, policy, v) == Ok::<
            Option<Expanded>,
            FaultModel,
        >(None),
{
    lemma_unchanged(s, i, d, policy, v, crate::entities::expansion_start());
}

proof fn lemma_unchanged(
    s: Seq<char>,
    i: int,
    d: Seq<EntityDeclarationModel>,
    policy: XmlEntityExpansionPolicy,
    v: XmlVersion,
    e: ExpansionState,
)
    requires
        0 <= i <= s.len(),
        forall|k: int| i <= k < s.len() ==> #[trigger] s[k] != '&',
        !e.changed,
    ensures
        expanded_from(s, i, d, policy, v, e) matches Ok(x) && !x.changed,
    decreases s.len() - i,
{
    if i < s.len() {
        lemma_reference_form(s, i, Seq::empty());
        let (k, next) = expansion_copy(s, i, e);
        if i < k <= s.len() {
            lemma_unchanged(s, k, d, policy, v, next);
        }
    }
}

/// In an attribute value the quote around it is written as a reference, so that a replacement does
/// not end the value.
pub proof fn lemma_quotes_in_replacements(s: Seq<char>, c: char, q: char)
    requires
        q == '"' || q == '\'',
    ensures
        without_quote_from(Seq::empty(), 0, q, Seq::empty()) == Seq::<char>::empty(),
        without_quote_from(s.push(c), 0, q, Seq::empty()) == without_quote_from(
            s,
            0,
            q,
            Seq::empty(),
        ) + (if c != q {
            seq![c]
        } else if q == '"' {
            "&quot;"@
        } else {
            "&apos;"@
        }),
{
    lemma_without_quote_push(s, c, q, 0, Seq::empty());
}

proof fn lemma_without_quote_push(s: Seq<char>, c: char, q: char, i: int, out: Seq<char>)
    requires
        0 <= i <= s.len(),
        q == '"' || q == '\'',
    ensures
        without_quote_from(s.push(c), i, q, out) == without_quote_from(s, i, q, out) + (if c != q {
            seq![c]
        } else if q == '"' {
            "&quot;"@
        } else {
            "&apos;"@
        }),
    decreases s.len() - i,
{
    reveal_with_fuel(without_quote_from, 2);
    if i < s.len() {
        assert(s.push(c)[i] == s[i]);
        if s[i] == q {
            lemma_without_quote_push(
                s,
                c,
                q,
                i + 1,
                out + (if q == '"' {
                    "&quot;"@
                } else {
                    "&apos;"@
                }),
            );
        } else {
            lemma_without_quote_push(s, c, q, i + 1, out.push(s[i]));
        }
    } else {
        assert(s.push(c)[i] == c);
        assert(out.push(c) =~= out + seq![c]);
    }
}

} // verus!
