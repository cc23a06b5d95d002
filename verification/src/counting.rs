//! Counting the nodes of a document agrees with parsing it.

use vstd::prelude::*;

use crate::compact::compact_parse;
use crate::config::{ConfigModel, XmlEntityExpansionPolicy};
use crate::document::{
    declaration_at, doctype, doctype_identifiers, doctype_subset, expanded_parse, expanded_text,
    mark_end, misc_nodes, parsed, prolog, subset_close, xml_declaration,
};
use crate::dom::{InstructionModel, NodeModel, XmlTreeStats};
use crate::dtd::{
    literal_char, pubid_literal_end, pubid_rest, system_literal_end, system_rest,
    EntityDeclarationModel,
};
use crate::encoding::decoded;
use crate::entities::{
    expanded_entity, expanded_from, expansion_copy, expansion_start, first_bad_char,
    general_reference_at, opaque_end, place_repeated, replaceable_reference, without_quote_from,
    ExpansionMode, ExpansionState,
};
use crate::grammar::{blank, blank_end};
use crate::lexeme::{normalized, XmlVersion};
use crate::parser::{checked_bytes, checked_document, compact_parse_bytes};
use crate::scan::{
    comment_end, expected, instruction_data_start, instruction_tail_end, name_part_end, space_end,
    target_end,
};
use crate::syntax::{name_part, space};
use crate::tables::counts;
use crate::text::{find_char_from, find_from, starts_at};

verus! {

/// Both texts start with the same `n` characters.
pub open spec fn same_start(s: Seq<char>, t: Seq<char>, n: int) -> bool {
    &&& 0 <= n <= s.len()
    &&& n <= t.len()
    &&& forall|k: int| 0 <= k < n ==> s[k] == t[k]
}

/// White space ends at or behind its start.
proof fn lemma_space_forward(s: Seq<char>, i: int)
    ensures
        space_end(s, i) >= i,
    decreases s.len() - i,
{
    if 0 <= i < s.len() && space(s[i]) {
        lemma_space_forward(s, i + 1);
    }
}

/// Blanks end at or behind their start.
proof fn lemma_blank_forward(s: Seq<char>, i: int, v: XmlVersion)
    ensures
        blank_end(s, i, v) >= i,
    decreases s.len() - i,
{
    if 0 <= i < s.len() && blank(s[i], v) {
        lemma_blank_forward(s, i + 1, v);
    }
}

/// A name ends at or behind its start.
proof fn lemma_name_forward(s: Seq<char>, i: int)
    ensures
        name_part_end(s, i) >= i,
    decreases s.len() - i,
{
    if 0 <= i < s.len() && name_part(s[i]) {
        lemma_name_forward(s, i + 1);
    }
}

/// A system identifier ends behind its start.
proof fn lemma_system_forward(s: Seq<char>, i: int, quote: char, v: XmlVersion)
    ensures
        system_rest(s, i, quote, v) matches Ok(k) ==> k >= i,
    decreases s.len() - i,
{
    if i < s.len() {
        lemma_system_forward(s, i + 1, quote, v);
    }
}

/// A public identifier ends behind its start.
proof fn lemma_pubid_forward(s: Seq<char>, i: int, quote: char)
    ensures
        pubid_rest(s, i, quote) matches Ok(k) ==> k >= i,
    decreases s.len() - i,
{
    if i < s.len() {
        lemma_pubid_forward(s, i + 1, quote);
    }
}

/// The internal subset ends at or behind its start.
proof fn lemma_subset_forward(s: Seq<char>, i: int, quote: Option<char>)
    ensures
        subset_close(s, i, quote) matches Ok(k) ==> k >= i,
    decreases s.len() - i,
{
    if 0 <= i < s.len() {
        match quote {
            Some(q) => {
                lemma_subset_forward(s, i + 1, None);
                lemma_subset_forward(s, i + 1, quote);
            },
            None => if s[i] == '"' || s[i] == '\'' {
                lemma_subset_forward(s, i + 1, Some(s[i]));
            } else if starts_at(s, i, "<!--"@) {
                match find_from(s, i + 4, "-->"@) {
                    None => {},
                    Some(k) => if i < k && k + 3 <= s.len() {
                        lemma_subset_forward(s, k + 3, None);
                    },
                }
            } else if starts_at(s, i, "<?"@) {
                match find_from(s, i + 2, "?>"@) {
                    None => {},
                    Some(k) => if i < k && k + 2 <= s.len() {
                        lemma_subset_forward(s, k + 2, None);
                    },
                }
            } else if s[i] != ']' {
                lemma_subset_forward(s, i + 1, None);
            },
        }
    }
}

/// The comments and instructions end at or behind their start.
proof fn lemma_misc_forward(
    s: Seq<char>,
    i: int,
    c: ConfigModel,
    v: XmlVersion,
    acc: Seq<NodeModel>,
)
    ensures
        misc_nodes(s, i, c, v, acc) matches Ok((_, j)) ==> j >= i,
    decreases s.len() - i,
{
    let j = blank_end(s, i, v);
    lemma_blank_forward(s, i, v);
    if starts_at(s, j, "<!--"@) {
        match comment_end(s, j) {
            Err(_) => {},
            Ok(k) => if i < k <= s.len() {
                lemma_misc_forward(s, k, c, v, acc);
                lemma_misc_forward(
                    s,
                    k,
                    c,
                    v,
                    acc.push(
                        NodeModel::Comment(normalized(s.subrange(j + 4, k - 3), v, false)),
                    ),
                );
            },
        }
    } else if starts_at(s, j, "<?"@) {
        match target_end(s, j) {
            Err(_) => {},
            Ok(t) => match instruction_data_start(s, t) {
                Err(_) => {},
                Ok(data) => match instruction_tail_end(s, data) {
                    Err(_) => {},
                    Ok(k) => if i < k <= s.len() {
                        lemma_misc_forward(s, k, c, v, acc);
                        lemma_misc_forward(
                            s,
                            k,
                            c,
                            v,
                            acc.push(
                                NodeModel::ProcessingInstruction(
                                    InstructionModel {
                                        target: s.subrange(j + 2, t),
                                        data: normalized(s.subrange(data, k - 2), v, false),
                                    },
                                ),
                            ),
                        );
                    },
                },
            },
        }
    }
}

/// The external identifier ends at or behind its start.
proof fn lemma_identifiers_forward(s: Seq<char>, i: int, v: XmlVersion)
    ensures
        doctype_identifiers(s, i, v) matches Ok((_, _, k)) ==> k >= i,
{
    lemma_space_forward(s, i + 6);
    let a = space_end(s, i + 6);
    lemma_literals_forward(s, a, v);
    match pubid_literal_end(s, a) {
        Err(_) => {},
        Ok(b) => {
            lemma_space_forward(s, b);
            lemma_literals_forward(s, space_end(s, b), v);
        },
    }
}

/// A quoted identifier ends behind its start.
proof fn lemma_literals_forward(s: Seq<char>, i: int, v: XmlVersion)
    ensures
        system_literal_end(s, i, v) matches Ok(k) ==> k >= i,
        pubid_literal_end(s, i) matches Ok(k) ==> k >= i,
{
    lemma_system_forward(s, i + 1, s[i], v);
    lemma_pubid_forward(s, i + 1, s[i]);
}

/// A document type declaration is longer than its keyword.
proof fn lemma_doctype_forward(s: Seq<char>, i: int, v: XmlVersion)
    ensures
        doctype(s, i, v) matches Ok((_, _, k)) ==> k >= i + 9,
{
    reveal_strlit("<!DOCTYPE");
    match expected(s, i, "<!DOCTYPE"@) {
        Err(_) => {},
        Ok(a) => {
            lemma_space_forward(s, a);
            let b = space_end(s, a);
            lemma_name_forward(s, b + 1);
            let e = name_part_end(s, b + 1);
            lemma_space_forward(s, e);
            lemma_identifiers_forward(s, space_end(s, e), v);
            match doctype_identifiers(s, space_end(s, e), v) {
                Err(_) => {},
                Ok((_, _, g)) => {
                    lemma_space_forward(s, g);
                    let m = space_end(s, g);
                    lemma_subset_forward(s, m + 1, None);
                    match doctype_subset(s, m, v) {
                        Err(_) => {},
                        Ok((_, _, h)) => {
                            lemma_space_forward(s, h);
                        },
                    }
                },
            }
        },
    }
}

/// What precedes a text that is found starts at or behind the start of the search.
proof fn lemma_found(s: Seq<char>, i: int, t: Seq<char>)
    ensures
        find_from(s, i, t) matches Some(k) ==> i <= k && starts_at(s, k, t),
    decreases s.len() + 1 - i,
{
    if 0 <= i <= s.len() && !starts_at(s, i, t) {
        lemma_found(s, i + 1, t);
    }
}

/// A character that is found lies at or behind the start of the search.
proof fn lemma_found_char(s: Seq<char>, i: int, c: char)
    ensures
        find_char_from(s, i, c) matches Some(k) ==> i <= k < s.len() && s[k] == c,
    decreases s.len() - i,
{
    if 0 <= i < s.len() && s[i] != c {
        lemma_found_char(s, i + 1, c);
    }
}

/// Texts with the same start hold the same texts there.
proof fn lemma_same_starts(s: Seq<char>, t: Seq<char>, n: int, i: int, x: Seq<char>)
    requires
        same_start(s, t, n),
        i + x.len() <= n,
    ensures
        starts_at(s, i, x) == starts_at(t, i, x),
{
    if 0 <= i {
        assert(s.subrange(i, i + x.len()) =~= t.subrange(i, i + x.len()));
    }
}

/// What is found in the common start is found in both texts.
proof fn lemma_same_found(s: Seq<char>, t: Seq<char>, n: int, i: int, x: Seq<char>)
    requires
        same_start(s, t, n),
        find_from(s, i, x) matches Some(k) && k + x.len() <= n,
    ensures
        find_from(t, i, x) == find_from(s, i, x),
    decreases s.len() + 1 - i,
{
    lemma_found(s, i, x);
    let k = find_from(s, i, x)->Some_0;
    lemma_same_starts(s, t, n, i, x);
    if !starts_at(s, i, x) {
        lemma_same_found(s, t, n, i + 1, x);
    }
}

/// White space that ends in the common start ends there in both texts.
proof fn lemma_same_space(s: Seq<char>, t: Seq<char>, n: int, i: int)
    requires
        same_start(s, t, n),
        0 <= i,
        space_end(s, i) < n,
    ensures
        space_end(t, i) == space_end(s, i),
    decreases s.len() - i,
{
    lemma_space_forward(s, i);
    if i < s.len() && space(s[i]) {
        lemma_same_space(s, t, n, i + 1);
    }
}

/// The XML declaration of the common start is that of both texts.
proof fn lemma_same_declaration(s: Seq<char>, t: Seq<char>, n: int, i: int)
    requires
        same_start(s, t, n),
        declaration_at(s, i),
        xml_declaration(s, i) matches Ok((_, to, _)) && to + 2 <= n,
    ensures
        declaration_at(t, i),
        xml_declaration(t, i) == xml_declaration(s, i),
{
    reveal_strlit("<?xml");
    reveal_strlit("?>");
    let data = space_end(s, i + 5);
    lemma_space_forward(s, i + 5);
    lemma_found(s, data, "?>"@);
    let end = find_from(s, data, "?>"@)->Some_0;
    lemma_same_starts(s, t, n, i, "<?xml"@);
    lemma_same_space(s, t, n, i + 5);
    lemma_same_found(s, t, n, data, "?>"@);
    assert(s.subrange(data, end) =~= t.subrange(data, end));
}

/// A character of a name may stand in a document.
proof fn lemma_name_is_literal(c: char, v: XmlVersion)
    requires
        name_part(c) || c == '&' || c == ';',
    ensures
        literal_char(c, v),
{
}

/// A section ends behind its start.
proof fn lemma_opaque_forward(s: Seq<char>, i: int)
    ensures
        opaque_end(s, i) matches Some(end) ==> 0 <= i < end <= s.len(),
{
    reveal_strlit("<![CDATA[");
    reveal_strlit("<!--");
    reveal_strlit("<?");
    reveal_strlit("]]>");
    reveal_strlit("-->");
    reveal_strlit("?>");
    lemma_found(s, i + 9, "]]>"@);
    lemma_found(s, i + 4, "-->"@);
    lemma_found(s, i + 2, "?>"@);
}

/// All characters from `i` on may stand in a document.
pub open spec fn literal_from(s: Seq<char>, i: int, v: XmlVersion) -> bool {
    forall|k: int| i <= k < s.len() ==> literal_char(#[trigger] s[k], v)
}

/// An expansion goes on writing, and what it writes holds every bad character of its source.
proof fn lemma_expansion_keeps(
    s: Seq<char>,
    i: int,
    d: Seq<EntityDeclarationModel>,
    policy: XmlEntityExpansionPolicy,
    v: XmlVersion,
    e: ExpansionState,
)
    requires
        0 <= i,
    ensures
        expanded_from(s, i, d, policy, v, e) matches Ok(g) ==> e.out.len() <= g.out.len() && (
        forall|k: int| 0 <= k < e.out.len() ==> g.out[k] == e.out[k]) && (literal_from(
            g.out,
            e.out.len() as int,
            v,
        ) ==> literal_from(s, i, v)),
    decreases s.len() - i,
{
    if i < s.len() {
        match replaceable_reference(s, i, d, e) {
            Some((name, end)) => match expanded_entity(d, name, policy, v, e.spent) {
                Err(_) => {},
                Ok((raw, after)) => {
                    let text = match e.mode {
                        ExpansionMode::Quoted { quote, .. } => without_quote_from(
                            raw,
                            0,
                            quote,
                            Seq::empty(),
                        ),
                        _ => raw,
                    };
                    lemma_found_char(s, i + 1, ';');
                    lemma_reference_is_literal(s, i, end, v);
                    let next = ExpansionState {
                        out: e.out + text,
                        places: e.places + place_repeated(i, text.len()),
                        changed: true,
                        spent: after,
                        ..e
                    };
                    lemma_expansion_keeps(s, end, d, policy, v, next);
                    match expanded_from(s, i, d, policy, v, e) {
                        Err(_) => {},
                        Ok(g) => {
                            assert(g.out.len() >= next.out.len());
                            assert forall|k: int| 0 <= k < e.out.len() implies g.out[k]
                                == e.out[k] by {
                                assert(g.out[k] == next.out[k]);
                            }
                        },
                    }
                },
            },
            None => {
                let (k, next) = expansion_copy(s, i, e);
                lemma_opaque_forward(s, i);
                lemma_expansion_keeps(s, k, d, policy, v, next);
                assert(next.out == e.out + s.subrange(i, k)) by {
                    if k == i + 1 {
                        assert(s.subrange(i, k) =~= seq![s[i]]);
                        assert(next.out =~= e.out + s.subrange(i, k));
                    }
                }
                match expanded_from(s, i, d, policy, v, e) {
                    Err(_) => {},
                    Ok(g) => {
                        assert forall|m: int| 0 <= m < e.out.len() implies g.out[m]
                            == e.out[m] by {
                            assert(g.out[m] == next.out[m]);
                        }
                        if literal_from(g.out, e.out.len() as int, v) {
                            assert forall|m: int| i <= m < s.len() implies literal_char(
                                #[trigger] s[m],
                                v,
                            ) by {
                                if m < k {
                                    let n = e.out.len() + (m - i);
                                    assert(next.out[n] == s[m]);
                                    assert(g.out[n] == next.out[n]);
                                }
                            }
                        }
                    },
                }
            },
        }
    }
}

/// The characters of a reference may stand in a document.
proof fn lemma_reference_is_literal(s: Seq<char>, i: int, end: int, v: XmlVersion)
    requires
        general_reference_at(s, i) matches Some((_, x)) && x == end,
    ensures
        i < end <= s.len(),
        forall|k: int| i <= k < end ==> literal_char(#[trigger] s[k], v),
{
    lemma_found_char(s, i + 1, ';');
    let name = s.subrange(i + 1, end - 1);
    assert forall|k: int| i <= k < end implies literal_char(#[trigger] s[k], v) by {
        if i < k < end - 1 {
            assert(name_part(name[k - i - 1]));
        }
        lemma_name_is_literal(s[k], v);
    }
}

/// Where no bad character is found, there is none.
proof fn lemma_first_bad(s: Seq<char>, i: int, v: XmlVersion)
    requires
        0 <= i,
    ensures
        first_bad_char(s, i, v) is None <==> literal_from(s, i, v),
    decreases s.len() - i,
{
    if i < s.len() {
        lemma_first_bad(s, i + 1, v);
    }
}

/// The start of the rest of a prolog: behind the byte order mark and the XML declaration.
pub open spec fn rest_start(s: Seq<char>) -> int {
    let i = mark_end(s);
    if declaration_at(s, i) {
        match xml_declaration(s, i) {
            Err(_) => i,
            Ok((_, to, _)) => to + 2,
        }
    } else {
        i
    }
}

/// A prolog that is read without the checks is read with them, if there is nothing to report.
proof fn lemma_strict_prolog(s: Seq<char>, c: ConfigModel)
    requires
        prolog(s, c, false) matches Ok(p) && (p.entities.len() > 0 || prolog(s, c, true) is Ok),
        c.validate_characters ==> (prolog(s, c, true) is Ok || first_bad_char(
            s,
            rest_start(s),
            prolog(s, c, false)->Ok_0.version,
        ) is None),
    ensures
        prolog(s, c, true) == prolog(s, c, false),
{
    reveal_strlit("<!DOCTYPE");
}

/// A prolog that declares entities is longer than its XML declaration.
proof fn lemma_prolog_forward(s: Seq<char>, c: ConfigModel)
    requires
        prolog(s, c, false) matches Ok(p) && p.entities.len() > 0,
    ensures
        prolog(s, c, false)->Ok_0.at >= rest_start(s) + 9,
        0 <= mark_end(s) <= rest_start(s),
        declaration_at(s, mark_end(s)) ==> xml_declaration(s, mark_end(s)) is Ok,
        prolog(s, c, false)->Ok_0.version == (if declaration_at(s, mark_end(s)) {
            xml_declaration(s, mark_end(s))->Ok_0.2
        } else {
            XmlVersion::Xml10
        }),
{
    let i = rest_start(s);
    let v = prolog(s, c, false)->Ok_0.version;
    lemma_space_forward(s, mark_end(s) + 5);
    lemma_found(s, space_end(s, mark_end(s) + 5), "?>"@);
    lemma_misc_forward(s, i, c, v, Seq::empty());
    match misc_nodes(s, i, c, v, Seq::empty()) {
        Err(_) => {},
        Ok((before, j)) => {
            lemma_doctype_forward(s, j, v);
            match doctype(s, j, v) {
                Err(_) => {},
                Ok((_, _, k)) => {
                    lemma_misc_forward(s, k, c, v, before);
                },
            }
        },
    }
}

/// Where an expanded document is read, its source has no bad character.
proof fn lemma_source_is_literal(s: Seq<char>, c: ConfigModel)
    requires
        c.validate_characters,
        expanded_text(s, c, false) matches Ok(Some(x)) && parsed(x.text, c) is Ok,
    ensures
        first_bad_char(s, rest_start(s), prolog(s, c, false)->Ok_0.version) is None,
{
    let p = prolog(s, c, false)->Ok_0;
    let t = expanded_text(s, c, false)->Ok_0->Some_0.text;
    let v = p.version;
    let n = p.at;
    let start = rest_start(s);
    lemma_prolog_forward(s, c);
    let g = expanded_from(
        s,
        n,
        p.entities,
        c.entity_expansion,
        v,
        expansion_start(),
    )->Ok_0;
    assert(n < s.len());
    lemma_expansion_keeps(s, n, p.entities, c.entity_expansion, v, expansion_start());
    assert(same_start(s, t, n));
    let m = mark_end(s);
    assert(mark_end(t) == m);
    if declaration_at(s, m) {
        lemma_same_declaration(s, t, n, m);
    } else {
        reveal_strlit("<?xml");
        lemma_same_starts(s, t, n, m, "<?xml"@);
        assert(!declaration_at(t, m));
    }
    assert(rest_start(t) == start);
    assert(first_bad_char(t, start, v) is None);
    lemma_first_bad(t, start, v);
    assert forall|k: int| 0 <= k < g.out.len() implies literal_char(#[trigger] g.out[k], v) by {
        assert(t[n + k] == g.out[k]);
    }
    assert forall|k: int| start <= k < s.len() implies literal_char(#[trigger] s[k], v) by {
        if k < n {
            assert(t[k] == s[k]);
        }
    }
    lemma_first_bad(s, start, v);
}

/// Where a parse succeeds, the checking parse that counts the nodes of a document succeeds with
/// the same document, so that both count the same nodes.
pub proof fn lemma_counting_agrees(s: Seq<char>, c: ConfigModel)
    ensures
        expanded_parse(s, c, false) is Ok ==> expanded_parse(s, c, true) == expanded_parse(
            s,
            c,
            false,
        ),
        compact_parse(s, c) is Ok ==> checked_document(s, c) == compact_parse(s, c),
{
    if expanded_parse(s, c, false) is Ok {
        match expanded_text(s, c, false)->Ok_0 {
            None => {
                lemma_strict_prolog(s, c);
            },
            Some(_) => {
                if c.validate_characters {
                    lemma_source_is_literal(s, c);
                }
                lemma_strict_prolog(s, c);
            },
        }
    }
}

/// What is counted of a document without keeping it is what the parsed document counts.
pub proof fn lemma_count_is_tree_stats(
    s: Seq<char>,
    c: ConfigModel,
    counted: XmlTreeStats,
    held: XmlTreeStats,
)
    requires
        compact_parse(s, c) matches Ok(m) && counts(m, held),
        checked_document(s, c) matches Ok(m) ==> counts(m, counted),
    ensures
        checked_document(s, c) is Ok,
        counted == held,
{
    lemma_counting_agrees(s, c);
}

/// The same holds of bytes.
pub proof fn lemma_counting_bytes_agrees(b: Seq<u8>, c: ConfigModel)
    ensures
        compact_parse_bytes(b, c) is Ok ==> checked_bytes(b, c) == compact_parse_bytes(b, c),
{
    match decoded(b) {
        Err(_) => {},
        Ok((s, _)) => {
            lemma_counting_agrees(s, c);
        },
    }
}

} // verus!
