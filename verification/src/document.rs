//! The grammar of documents: prolog, root element and what follows it.

use vstd::prelude::*;
use vstd::slice::slice_subrange;

use crate::config::{ConfigModel, ParserConfig};
use crate::declaration::{declared_version, parse_xml_declaration_version};
use crate::dom::{
    node_models, text_option, DoctypeModel, InstructionModel, NodeModel, XmlDoctype, XmlNode,
    XmlProcessingInstruction,
};
use crate::dtd::{
    declarations, parse_internal_subset_entities, parse_pubid_literal, parse_system_literal,
    pubid_literal_end, subset_entities, system_literal_end, EntityDeclaration,
    EntityDeclarationModel,
};
use crate::entities::{
    expand_document_tail, expanded_document, expansion_start, find_bad_char, first_bad_char,
    graph_fault_from, lemma_places_within, origin, place_list, places_within, table_resolver,
    validate_general_entity_graph, EntityTable, Expanded,
};
use crate::error::{
    fault, locate, located, ErrorKindModel, ErrorModel, Fault, FaultModel, Read, XmlError,
    XmlErrorKind,
};
use crate::grammar::{
    blank_end, element, flat_models, flat_tree, raw_attributes, tree_attributes, EntityResolver,
    FlatAttribute, FlatNode, RawTree,
};
use crate::lexeme::{normalized, push_normalized, XmlVersion};
use crate::reader::{placed_attributes, placed_nodes, read_element, skip_blank};
use crate::scan::{
    agrees, comment_end, expect, expected, instruction_data_start, instruction_tail_end, is_keyword,
    keyword_at, name_end, read_comment, read_instruction_data_start, read_instruction_tail,
    read_name, read_target, require_space, required_space, skip_space, space_end, target_end,
};
use crate::syntax::{is_space, space};
use crate::text::{
    byte_len, find_from, find_text, starts_at, starts_with, string_between, string_of, Source,
};

verus! {

/// The end of an optional byte order mark.
pub open spec fn mark_end(s: Seq<char>) -> int {
    if s.len() > 0 && s[0] == '\u{feff}' {
        1
    } else {
        0
    }
}

/// An XML declaration starts at `i`.
pub open spec fn declaration_at(s: Seq<char>, i: int) -> bool {
    starts_at(s, i, "<?xml"@) && i + 5 < s.len() && space(s[i + 5])
}

/// The XML declaration at `i`: where its data starts and ends, and the version it selects.
pub open spec fn xml_declaration(s: Seq<char>, i: int) -> Read<(int, int, XmlVersion)> {
    let data = space_end(s, i + 5);
    match find_from(s, data, "?>"@) {
        None => fault(ErrorKindModel::UnexpectedEof, data),
        Some(end) => match declared_version(s.subrange(data, end)) {
            None => fault(ErrorKindModel::InvalidXmlDeclaration, end + 2),
            Some(v) => Ok((data, end, v)),
        },
    }
}

/// The comments and instructions outside the root element from `i` on, behind `acc`, and their
/// end.
pub open spec fn misc_nodes(
    s: Seq<char>,
    i: int,
    c: ConfigModel,
    v: XmlVersion,
    acc: Seq<NodeModel>,
) -> Read<(Seq<NodeModel>, int)>
    decreases s.len() - i,
{
    let j = blank_end(s, i, v);
    if starts_at(s, j, "<!--"@) {
        match comment_end(s, j) {
            Err(f) => Err(f),
            Ok(k) => if k <= i || k > s.len() {
                fault(ErrorKindModel::UnexpectedEof, i)
            } else if c.preserve_comments {
                misc_nodes(
                    s,
                    k,
                    c,
                    v,
                    acc.push(NodeModel::Comment(normalized(s.subrange(j + 4, k - 3), v, false))),
                )
            } else {
                misc_nodes(s, k, c, v, acc)
            },
        }
    } else if starts_at(s, j, "<?"@) {
        match target_end(s, j) {
            Err(f) => Err(f),
            Ok(t) => match instruction_data_start(s, t) {
                Err(f) => Err(f),
                Ok(data) => match instruction_tail_end(s, data) {
                    Err(f) => Err(f),
                    Ok(k) => if k <= i || k > s.len() {
                        fault(ErrorKindModel::UnexpectedEof, i)
                    } else if c.preserve_processing_instructions {
                        misc_nodes(
                            s,
                            k,
                            c,
                            v,
                            acc.push(
                                NodeModel::ProcessingInstruction(
                                    InstructionModel {
                                        target: s.subrange(j + 2, t),
                                        data: normalized(s.subrange(data, k - 2), v, false),
                                    },
                                ),
                            ),
                        )
                    } else {
                        misc_nodes(s, k, c, v, acc)
                    },
                },
            },
        }
    } else {
        Ok((acc, j))
    }
}

/// The closing bracket of the internal subset; `quote` is the mark of the literal that `i` is in.
pub open spec fn subset_close(s: Seq<char>, i: int, quote: Option<char>) -> Read<int>
    decreases s.len() - i,
{
    if i < 0 || i >= s.len() {
        fault(ErrorKindModel::UnexpectedEof, i)
    } else {
        match quote {
            Some(q) => if s[i] == q {
                subset_close(s, i + 1, None)
            } else {
                subset_close(s, i + 1, quote)
            },
            None => if s[i] == '"' || s[i] == '\'' {
                subset_close(s, i + 1, Some(s[i]))
            } else if starts_at(s, i, "<!--"@) {
                match find_from(s, i + 4, "-->"@) {
                    None => fault(ErrorKindModel::UnexpectedEof, i + 4),
                    Some(k) => if k <= i || k + 3 > s.len() {
                        fault(ErrorKindModel::UnexpectedEof, i)
                    } else {
                        subset_close(s, k + 3, None)
                    },
                }
            } else if starts_at(s, i, "<?"@) {
                match find_from(s, i + 2, "?>"@) {
                    None => fault(ErrorKindModel::UnexpectedEof, i + 2),
                    Some(k) => if k <= i || k + 2 > s.len() {
                        fault(ErrorKindModel::UnexpectedEof, i)
                    } else {
                        subset_close(s, k + 2, None)
                    },
                }
            } else if s[i] == ']' {
                Ok(i)
            } else {
                subset_close(s, i + 1, None)
            },
        }
    }
}

/// The external identifier at `i`, if there is one: the public and system identifiers and the end.
pub open spec fn doctype_identifiers(s: Seq<char>, i: int, v: XmlVersion) -> Read<
    (Option<Seq<char>>, Option<Seq<char>>, int),
> {
    if keyword_at(s, i, "SYSTEM"@) {
        match required_space(s, i + 6) {
            Err(f) => Err(f),
            Ok(a) => match system_literal_end(s, a, v) {
                Err(f) => Err(f),
                Ok(b) => Ok((None, Some(s.subrange(a + 1, b - 1)), b)),
            },
        }
    } else if keyword_at(s, i, "PUBLIC"@) {
        match required_space(s, i + 6) {
            Err(f) => Err(f),
            Ok(a) => match pubid_literal_end(s, a) {
                Err(f) => Err(f),
                Ok(b) => match required_space(s, b) {
                    Err(f) => Err(f),
                    Ok(e) => match system_literal_end(s, e, v) {
                        Err(f) => Err(f),
                        Ok(g) => Ok(
                            (
                                Some(s.subrange(a + 1, b - 1)),
                                Some(s.subrange(e + 1, g - 1)),
                                g,
                            ),
                        ),
                    },
                },
            },
        }
    } else {
        Ok((None, None, i))
    }
}

/// The internal subset at `i`, if there is one: its text, the entities it declares, and the end.
pub open spec fn doctype_subset(s: Seq<char>, i: int, v: XmlVersion) -> Read<
    (Option<Seq<char>>, Seq<EntityDeclarationModel>, int),
> {
    if 0 <= i < s.len() && s[i] == '[' {
        match subset_close(s, i + 1, None) {
            Err(f) => Err(f),
            Ok(k) => match subset_entities(s.subrange(i + 1, k), v) {
                Err(f) => fault(f.kind, i + 1 + f.at),
                Ok(d) => Ok((Some(s.subrange(i + 1, k)), d, k + 1)),
            },
        }
    } else {
        Ok((None, Seq::empty(), i))
    }
}

/// The document type declaration at `i`: the declaration, the entities it declares, and its end.
pub open spec fn doctype(s: Seq<char>, i: int, v: XmlVersion) -> Read<
    (DoctypeModel, Seq<EntityDeclarationModel>, int),
> {
    match expected(s, i, "<!DOCTYPE"@) {
        Err(f) => Err(f),
        Ok(a) => match required_space(s, a) {
            Err(f) => Err(f),
            Ok(b) => match name_end(s, b) {
                Err(f) => Err(f),
                Ok(e) => match doctype_identifiers(s, space_end(s, e), v) {
                    Err(f) => Err(f),
                    Ok((public_id, system_id, g)) => match doctype_subset(s, space_end(s, g), v) {
                        Err(f) => Err(f),
                        Ok((internal_subset, d, h)) => match expected(s, space_end(s, h), ">"@) {
                            Err(f) => Err(f),
                            Ok(end) => Ok(
                                (
                                    DoctypeModel {
                                        name: s.subrange(b, e),
                                        public_id,
                                        system_id,
                                        internal_subset,
                                    },
                                    d,
                                    end,
                                ),
                            ),
                        },
                    },
                },
            },
        },
    }
}

/// What precedes the root element.
#[verifier::ext_equal]
pub struct PrologModel {
    /// The data of the XML declaration.
    pub declaration: Option<Seq<char>>,
    /// The version.
    pub version: XmlVersion,
    /// The comments and instructions.
    pub misc: Seq<NodeModel>,
    /// The document type declaration.
    pub doctype: Option<DoctypeModel>,
    /// How many of the comments and instructions precede it.
    pub doctype_index: int,
    /// The entities that it declares.
    pub entities: Seq<EntityDeclarationModel>,
    /// Where the root element starts.
    pub at: int,
}

/// The prolog behind the XML declaration, which ends at `i`.
pub open spec fn prolog_rest(
    s: Seq<char>,
    i: int,
    declaration: Option<Seq<char>>,
    v: XmlVersion,
    c: ConfigModel,
    strict: bool,
) -> Read<PrologModel> {
    if strict && c.validate_characters && first_bad_char(s, i, v) is Some {
        fault(ErrorKindModel::InvalidCharacter, first_bad_char(s, i, v)->Some_0)
    } else {
        match misc_nodes(s, i, c, v, Seq::empty()) {
            Err(f) => Err(f),
            Ok((before, j)) => if strict && j >= s.len() {
                fault(ErrorKindModel::MissingRootElement, j)
            } else if !starts_at(s, j, "<!DOCTYPE"@) {
                Ok(
                    PrologModel {
                        declaration,
                        version: v,
                        misc: before,
                        doctype: None,
                        doctype_index: before.len() as int,
                        entities: Seq::empty(),
                        at: j,
                    },
                )
            } else {
                match doctype(s, j, v) {
                    Err(f) => Err(f),
                    Ok((model, entities, k)) => match misc_nodes(s, k, c, v, before) {
                        Err(f) => Err(f),
                        Ok((misc, at)) => match graph_fault_from(entities, 0) {
                            Some(kind) => fault(kind, at),
                            None => Ok(
                                PrologModel {
                                    declaration,
                                    version: v,
                                    misc,
                                    doctype: Some(model),
                                    doctype_index: before.len() as int,
                                    entities,
                                    at,
                                },
                            ),
                        },
                    },
                }
            },
        }
    }
}

/// The prolog of `s`.
///
/// If `strict`, characters are checked and a root element must follow.
pub open spec fn prolog(s: Seq<char>, c: ConfigModel, strict: bool) -> Read<PrologModel> {
    let i = mark_end(s);
    if declaration_at(s, i) {
        match xml_declaration(s, i) {
            Err(f) => Err(f),
            Ok((from, to, v)) => prolog_rest(
                s,
                to + 2,
                Some(normalized(s.subrange(from, to), v, false)),
                v,
                c,
                strict,
            ),
        }
    } else {
        prolog_rest(s, i, None, XmlVersion::Xml10, c, strict)
    }
}

/// A document: the text it is written in and its parts.
#[verifier::ext_equal]
pub struct DocumentModel {
    /// The text.
    pub text: Seq<char>,
    /// The version.
    pub version: XmlVersion,
    /// The data of the XML declaration.
    pub declaration: Option<Seq<char>>,
    /// The document type declaration.
    pub doctype: Option<DoctypeModel>,
    /// How many of the nodes before the root element precede it.
    pub doctype_index: int,
    /// The comments and instructions before the root element.
    pub before: Seq<NodeModel>,
    /// The root element.
    pub root: RawTree,
    /// The comments and instructions behind the root element.
    pub after: Seq<NodeModel>,
}

/// The document that `s` is.
pub open spec fn parsed(s: Seq<char>, c: ConfigModel) -> Read<DocumentModel> {
    match prolog(s, c, true) {
        Err(f) => Err(f),
        Ok(p) => match element(
            s,
            p.at,
            c,
            p.version,
            table_resolver(p.entities, c.entity_expansion, p.version),
            1,
            0,
        ) {
            Err(f) => Err(f),
            Ok((root, end, _)) => match misc_nodes(s, end, c, p.version, Seq::empty()) {
                Err(f) => Err(f),
                Ok((after, k)) => if k < s.len() {
                    fault(ErrorKindModel::TrailingContent, k)
                } else {
                    Ok(
                        DocumentModel {
                            text: s,
                            version: p.version,
                            declaration: p.declaration,
                            doctype: p.doctype,
                            doctype_index: p.doctype_index,
                            before: p.misc,
                            root,
                            after,
                        },
                    )
                },
            },
        },
    }
}

/// `s` with its references to declared entities replaced, if there are any.
pub open spec fn expanded_text(s: Seq<char>, c: ConfigModel, strict: bool) -> Read<
    Option<Expanded>,
> {
    match prolog(s, c, strict) {
        Err(f) => Err(f),
        Ok(p) => expanded_document(s, p.at, p.entities, c.entity_expansion, p.version),
    }
}

/// The error that a fault in a text amounts to whose characters come from `s`.
pub open spec fn traced(s: Seq<char>, places: Seq<int>, f: FaultModel) -> ErrorModel {
    located(s, FaultModel { kind: f.kind, at: origin(places, s.len() as int, f.at) })
}

/// The document that `s` is after its references to declared entities have been replaced.
///
/// An error is one of `s`: one in the text that replaces a reference stands at the reference.
pub open spec fn expanded_parse(s: Seq<char>, c: ConfigModel, strict: bool) -> Result<
    DocumentModel,
    ErrorModel,
> {
    match expanded_text(s, c, strict) {
        Err(f) => Err(located(s, f)),
        Ok(None) => plain_parse(s, c),
        Ok(Some(x)) => match parsed(x.text, c) {
            Err(f) => Err(traced(s, x.places, f)),
            Ok(m) => Ok(m),
        },
    }
}

/// The document that `s` is, its references resolved where they stand.
pub open spec fn plain_parse(s: Seq<char>, c: ConfigModel) -> Result<DocumentModel, ErrorModel> {
    match parsed(s, c) {
        Err(f) => Err(located(s, f)),
        Ok(m) => Ok(m),
    }
}

/// Each character of an expanded text has its place in the source.
pub proof fn lemma_expanded_places(s: Seq<char>, c: ConfigModel, strict: bool)
    ensures
        expanded_text(s, c, strict) matches Ok(Some(x)) ==> x.places.len() == x.text.len(),
{
    match prolog(s, c, strict) {
        Err(_) => {},
        Ok(p) => {
            lemma_places_within(
                s,
                p.at,
                p.entities,
                c.entity_expansion,
                p.version,
                expansion_start(),
            );
        },
    }
}

/// Turns the character index of a fault into a byte offset of the source of the characters.
pub(crate) fn trace(source: &Source, places: &Vec<usize>, f: Fault) -> (e: XmlError)
    requires
        source.wf(),
        places_within(place_list(places@), source.text@.len() as int),
    ensures
        e@ == traced(source.text@, place_list(places@), f@),
        e.byte <= byte_len(source.text@),
{
    let at: usize = if f.at < places.len() {
        assert(place_list(places@)[f.at as int] == places@[f.at as int]);
        places[f.at]
    } else {
        source.chars.len()
    };
    locate(source, Fault { kind: f.kind, at })
}

/// Reads the XML declaration at `i`.
fn parse_xml_declaration(s: &[char], i: usize) -> (r: Result<(usize, usize, XmlVersion), Fault>)
    requires
        declaration_at(s@, i as int),
    ensures
        match r {
            Ok((from, to, v)) => xml_declaration(s@, i as int) == Ok::<
                (int, int, XmlVersion),
                FaultModel,
            >((from as int, to as int, v)) && i < from <= to && to + 2 <= s@.len(),
            Err(f) => xml_declaration(s@, i as int) == Err::<(int, int, XmlVersion), FaultModel>(f@)
                && f.at <= s@.len(),
        },
{
    proof {
        reveal_strlit("<?xml");
        reveal_strlit("?>");
        assert(s.len() == s@.len());
    }
    let data: usize = skip_space(s, i + 5);
    match find_text(s, data, "?>") {
        None => Err(Fault { kind: XmlErrorKind::UnexpectedEof, at: data }),
        Some(end) => match parse_xml_declaration_version(slice_subrange(s, data, end)) {
            None => Err(Fault { kind: XmlErrorKind::InvalidXmlDeclaration, at: end + 2 }),
            Some(v) => Ok((data, end, v)),
        },
    }
}

/// The characters `from..to` with their line ends normalized.
pub(crate) fn normalized_between(s: &[char], from: usize, to: usize, v: XmlVersion) -> (r: String)
    requires
        from <= to <= s@.len(),
    ensures
        r@ == normalized(s@.subrange(from as int, to as int), v, false),
{
    let mut out: Vec<char> = Vec::new();
    push_normalized(slice_subrange(s, from, to), v, false, &mut out);
    proof {
        let n = normalized(s@.subrange(from as int, to as int), v, false);
        assert(Seq::<char>::empty() + n =~= n);
    }
    string_of(out.as_slice())
}

/// Reads the comments and instructions at `i` and appends them to `out`.
fn parse_misc(s: &[char], i: usize, c: &ParserConfig, v: XmlVersion, out: &mut Vec<XmlNode>) -> (r:
    Result<usize, Fault>)
    requires
        i <= s@.len(),
    ensures
        match r {
            Ok(k) => misc_nodes(s@, i as int, c@, v, node_models(old(out)@)) == Ok::<
                (Seq<NodeModel>, int),
                FaultModel,
            >((node_models(final(out)@), k as int)) && i <= k <= s@.len(),
            Err(f) => misc_nodes(s@, i as int, c@, v, node_models(old(out)@)) == Err::<
                (Seq<NodeModel>, int),
                FaultModel,
            >(f@) && f.at <= s@.len(),
        },
{
    proof {
        reveal_strlit("<!--");
        reveal_strlit("<?");
    }
    let mut k: usize = i;
    loop
        invariant
            i <= k <= s@.len(),
            misc_nodes(s@, i as int, c@, v, node_models(old(out)@)) == misc_nodes(
                s@,
                k as int,
                c@,
                v,
                node_models(out@),
            ),
        decreases s@.len() - k,
    {
        let j: usize = skip_blank(s, k, v);
        let ghost before = out@;
        if starts_with(s, j, "<!--") {
            match read_comment(s, j) {
                Err(f) => {
                    return Err(f);
                },
                Ok(next) => {
                    if c.preserves_comments() {
                        let node = XmlNode::Comment(normalized_between(s, j + 4, next - 3, v));
                        out.push(node);
                        proof {
                            assert(node_models(out@) =~= node_models(before).push(node.model()));
                        }
                    }
                    k = next;
                },
            }
        } else if starts_with(s, j, "<?") {
            let t: usize = match read_target(s, j) {
                Err(f) => {
                    return Err(f);
                },
                Ok(t) => t,
            };
            let data: usize = match read_instruction_data_start(s, t) {
                Err(f) => {
                    return Err(f);
                },
                Ok(d) => d,
            };
            match read_instruction_tail(s, data) {
                Err(f) => {
                    return Err(f);
                },
                Ok(next) => {
                    if c.preserves_processing_instructions() {
                        let node = XmlNode::ProcessingInstruction(
                            XmlProcessingInstruction {
                                target: string_between(s, j + 2, t),
                                data: normalized_between(s, data, next - 2, v),
                            },
                        );
                        out.push(node);
                        proof {
                            assert(node_models(out@) =~= node_models(before).push(node.model()));
                        }
                    }
                    k = next;
                },
            }
        } else {
            return Ok(j);
        }
    }
}

/// Finds the closing bracket of the internal subset that starts at `i`.
fn find_subset_close(s: &[char], i: usize) -> (r: Result<usize, Fault>)
    requires
        i <= s@.len(),
    ensures
        agrees(r, subset_close(s@, i as int, None), i as int, s@.len() - 1) || (r matches Err(f)
            && subset_close(s@, i as int, None) == Err::<int, FaultModel>(f@) && f.at <= s@.len()),
{
    proof {
        reveal_strlit("<!--");
        reveal_strlit("-->");
        reveal_strlit("<?");
        reveal_strlit("?>");
    }
    let mut quote: Option<char> = None;
    let mut k: usize = i;
    while k < s.len()
        invariant
            i <= k <= s@.len(),
            "<!--"@.len() == 4,
            "-->"@.len() == 3,
            "<?"@.len() == 2,
            "?>"@.len() == 2,
            subset_close(s@, i as int, None) == subset_close(s@, k as int, quote),
        decreases s@.len() - k,
    {
        match quote {
            Some(q) => {
                if s[k] == q {
                    quote = None;
                }
                k = k + 1;
            },
            None => {
                if s[k] == '"' || s[k] == '\'' {
                    quote = Some(s[k]);
                    k = k + 1;
                } else if starts_with(s, k, "<!--") {
                    match find_text(s, k + 4, "-->") {
                        None => {
                            return Err(Fault { kind: XmlErrorKind::UnexpectedEof, at: k + 4 });
                        },
                        Some(e) => {
                            k = e + 3;
                        },
                    }
                } else if starts_with(s, k, "<?") {
                    match find_text(s, k + 2, "?>") {
                        None => {
                            return Err(Fault { kind: XmlErrorKind::UnexpectedEof, at: k + 2 });
                        },
                        Some(e) => {
                            k = e + 2;
                        },
                    }
                } else if s[k] == ']' {
                    return Ok(k);
                } else {
                    k = k + 1;
                }
            },
        }
    }
    Err(Fault { kind: XmlErrorKind::UnexpectedEof, at: k })
}

/// Reads the external identifier at `i`, if there is one.
fn parse_doctype_identifiers(s: &[char], i: usize, v: XmlVersion) -> (r: Result<
    (Option<String>, Option<String>, usize),
    Fault,
>)
    requires
        i <= s@.len(),
    ensures
        match r {
            Ok((p, q, k)) => doctype_identifiers(s@, i as int, v) == Ok::<
                (Option<Seq<char>>, Option<Seq<char>>, int),
                FaultModel,
            >((text_option(p), text_option(q), k as int)) && i <= k <= s@.len(),
            Err(f) => doctype_identifiers(s@, i as int, v) == Err::<
                (Option<Seq<char>>, Option<Seq<char>>, int),
                FaultModel,
            >(f@) && f.at <= s@.len(),
        },
{
    proof {
        reveal_strlit("SYSTEM");
        reveal_strlit("PUBLIC");
    }
    if is_keyword(s, i, "SYSTEM") {
        match require_space(s, i + 6) {
            Err(f) => Err(f),
            Ok(a) => match parse_system_literal(s, a, v) {
                Err(f) => Err(f),
                Ok(b) => Ok((None, Some(string_between(s, a + 1, b - 1)), b)),
            },
        }
    } else if is_keyword(s, i, "PUBLIC") {
        let a: usize = match require_space(s, i + 6) {
            Err(f) => {
                return Err(f);
            },
            Ok(a) => a,
        };
        let b: usize = match parse_pubid_literal(s, a) {
            Err(f) => {
                return Err(f);
            },
            Ok(b) => b,
        };
        let e: usize = match require_space(s, b) {
            Err(f) => {
                return Err(f);
            },
            Ok(e) => e,
        };
        match parse_system_literal(s, e, v) {
            Err(f) => Err(f),
            Ok(g) => Ok(
                (
                    Some(string_between(s, a + 1, b - 1)),
                    Some(string_between(s, e + 1, g - 1)),
                    g,
                ),
            ),
        }
    } else {
        Ok((None, None, i))
    }
}

/// Reads the internal subset at `i`, if there is one.
fn parse_doctype_subset(s: &[char], i: usize, v: XmlVersion) -> (r: Result<
    (Option<String>, Vec<EntityDeclaration>, usize),
    Fault,
>)
    requires
        i <= s@.len(),
    ensures
        match r {
            Ok((text, d, k)) => doctype_subset(s@, i as int, v) == Ok::<
                (Option<Seq<char>>, Seq<EntityDeclarationModel>, int),
                FaultModel,
            >((text_option(text), declarations(d@), k as int)) && i <= k <= s@.len(),
            Err(f) => doctype_subset(s@, i as int, v) == Err::<
                (Option<Seq<char>>, Seq<EntityDeclarationModel>, int),
                FaultModel,
            >(f@) && f.at <= s@.len(),
        },
{
    proof {
        assert(s.len() == s@.len());
    }
    if !(i < s.len() && s[i] == '[') {
        let none: Vec<EntityDeclaration> = Vec::new();
        proof {
            assert(declarations(none@) =~= Seq::<EntityDeclarationModel>::empty());
        }
        return Ok((None, none, i));
    }
    let k: usize = match find_subset_close(s, i + 1) {
        Err(f) => {
            return Err(f);
        },
        Ok(k) => k,
    };
    match parse_internal_subset_entities(slice_subrange(s, i + 1, k), v) {
        Err(f) => Err(Fault { kind: f.kind, at: i + 1 + f.at }),
        Ok(d) => Ok((Some(string_between(s, i + 1, k)), d, k + 1)),
    }
}

/// Reads the document type declaration at `i`.
fn parse_doctype(s: &[char], i: usize, v: XmlVersion) -> (r: Result<
    (XmlDoctype, Vec<EntityDeclaration>, usize),
    Fault,
>)
    requires
        i <= s@.len(),
    ensures
        match r {
            Ok((model, d, k)) => doctype(s@, i as int, v) == Ok::<
                (DoctypeModel, Seq<EntityDeclarationModel>, int),
                FaultModel,
            >((model@, declarations(d@), k as int)) && i < k <= s@.len(),
            Err(f) => doctype(s@, i as int, v) == Err::<
                (DoctypeModel, Seq<EntityDeclarationModel>, int),
                FaultModel,
            >(f@) && f.at <= s@.len(),
        },
{
    let a: usize = match expect(s, i, "<!DOCTYPE") {
        Err(f) => {
            return Err(f);
        },
        Ok(a) => a,
    };
    let b: usize = match require_space(s, a) {
        Err(f) => {
            return Err(f);
        },
        Ok(b) => b,
    };
    let e: usize = match read_name(s, b) {
        Err(f) => {
            return Err(f);
        },
        Ok(e) => e,
    };
    let (public_id, system_id, g) = match parse_doctype_identifiers(s, skip_space(s, e), v) {
        Err(f) => {
            return Err(f);
        },
        Ok(x) => x,
    };
    let (internal_subset, d, h) = match parse_doctype_subset(s, skip_space(s, g), v) {
        Err(f) => {
            return Err(f);
        },
        Ok(x) => x,
    };
    match expect(s, skip_space(s, h), ">") {
        Err(f) => Err(f),
        Ok(end) => Ok(
            (
                XmlDoctype {
                    name: string_between(s, b, e),
                    public_id,
                    system_id,
                    internal_subset,
                },
                d,
                end,
            ),
        ),
    }
}

/// What precedes the root element.
pub struct Prolog {
    /// The data of the XML declaration.
    pub declaration: Option<String>,
    /// The version.
    pub version: XmlVersion,
    /// The comments and instructions.
    pub misc: Vec<XmlNode>,
    /// The document type declaration.
    pub doctype: Option<XmlDoctype>,
    /// How many of the comments and instructions precede it.
    pub doctype_index: usize,
    /// The entities that it declares.
    pub entities: Vec<EntityDeclaration>,
    /// Where the root element starts.
    pub at: usize,
}

/// The text of an optional document type declaration.
pub open spec fn doctype_option(d: Option<XmlDoctype>) -> Option<DoctypeModel> {
    match d {
        Some(x) => Some(x@),
        None => None,
    }
}

impl View for Prolog {
    type V = PrologModel;

    open spec fn view(&self) -> PrologModel {
        PrologModel {
            declaration: text_option(self.declaration),
            version: self.version,
            misc: node_models(self.misc@),
            doctype: doctype_option(self.doctype),
            doctype_index: self.doctype_index as int,
            entities: declarations(self.entities@),
            at: self.at as int,
        }
    }
}

/// The reader returned the prolog that `m` says.
pub open spec fn prolog_agrees(r: Result<Prolog, Fault>, m: Read<PrologModel>, n: int) -> bool {
    match r {
        Ok(p) => m == Ok::<PrologModel, FaultModel>(p@) && p.at <= n,
        Err(f) => m == Err::<PrologModel, FaultModel>(f@) && f.at <= n,
    }
}

/// Reads the prolog behind the XML declaration.
fn parse_prolog_rest(
    s: &[char],
    i: usize,
    declaration: Option<String>,
    v: XmlVersion,
    c: &ParserConfig,
    strict: bool,
) -> (r: Result<Prolog, Fault>)
    requires
        i <= s@.len(),
    ensures
        prolog_agrees(
            r,
            prolog_rest(s@, i as int, text_option(declaration), v, c@, strict),
            s@.len() as int,
        ),
{
    if strict && c.validates_characters() {
        if let Some(k) = find_bad_char(s, i, v) {
            return Err(Fault { kind: XmlErrorKind::InvalidCharacter, at: k });
        }
    }
    let mut misc: Vec<XmlNode> = Vec::new();
    proof {
        assert(node_models(misc@) =~= Seq::<NodeModel>::empty());
    }
    let j: usize = match parse_misc(s, i, c, v, &mut misc) {
        Err(f) => {
            return Err(f);
        },
        Ok(j) => j,
    };
    proof {
        assert(node_models(misc@).len() == misc@.len());
    }
    let doctype_index: usize = misc.len();
    if strict && j >= s.len() {
        return Err(Fault { kind: XmlErrorKind::MissingRootElement, at: j });
    }
    if !starts_with(s, j, "<!DOCTYPE") {
        let entities: Vec<EntityDeclaration> = Vec::new();
        proof {
            assert(declarations(entities@) =~= Seq::<EntityDeclarationModel>::empty());
        }
        return Ok(
            Prolog { declaration, version: v, misc, doctype: None, doctype_index, entities, at: j },
        );
    }
    let (model, entities, k) = match parse_doctype(s, j, v) {
        Err(f) => {
            return Err(f);
        },
        Ok(x) => x,
    };
    let at: usize = match parse_misc(s, k, c, v, &mut misc) {
        Err(f) => {
            return Err(f);
        },
        Ok(at) => at,
    };
    if let Some(kind) = validate_general_entity_graph(&entities) {
        return Err(Fault { kind, at });
    }
    Ok(
        Prolog {
            declaration,
            version: v,
            misc,
            doctype: Some(model),
            doctype_index,
            entities,
            at,
        },
    )
}

/// Reads the prolog of `s`.
pub(crate) fn parse_prolog(s: &[char], c: &ParserConfig, strict: bool) -> (r: Result<Prolog, Fault>)
    ensures
        prolog_agrees(r, prolog(s@, c@, strict), s@.len() as int),
{
    let i: usize = if s.len() > 0 && s[0] == '\u{feff}' {
        1
    } else {
        0
    };
    proof {
        reveal_strlit("<?xml");
    }
    if starts_with(s, i, "<?xml") && i + 5 < s.len() && is_space(s[i + 5]) {
        match parse_xml_declaration(s, i) {
            Err(f) => Err(f),
            Ok((from, to, v)) => {
                let data = normalized_between(s, from, to, v);
                parse_prolog_rest(s, to + 2, Some(data), v, c, strict)
            },
        }
    } else {
        parse_prolog_rest(s, i, None, XmlVersion::Xml10, c, strict)
    }
}

/// A document as it was read.
pub struct Parsed {
    /// The prolog.
    pub prolog: Prolog,
    /// The nodes below the root element, and the root element itself, in document order.
    pub nodes: Vec<FlatNode>,
    /// Their attributes.
    pub attributes: Vec<FlatAttribute>,
    /// The comments and instructions behind the root element.
    pub after: Vec<XmlNode>,
}

/// `p` is the document `m`.
pub open spec fn is_parse_of(p: Parsed, m: DocumentModel) -> bool {
    &&& p.prolog@.version == m.version
    &&& p.prolog@.declaration == m.declaration
    &&& p.prolog@.doctype == m.doctype
    &&& p.prolog@.doctype_index == m.doctype_index
    &&& p.prolog@.misc == m.before
    &&& flat_models(p.nodes@) == flat_tree(m.root, 0, 0)
    &&& raw_attributes(p.attributes@) == tree_attributes(m.root)
    &&& node_models(p.after@) == m.after
    &&& p.nodes@.len() <= m.text.len()
    &&& p.attributes@.len() <= m.text.len()
    &&& placed_nodes(p.nodes@, m.text.len() as int)
    &&& placed_attributes(p.attributes@, m.text.len() as int)
}

/// Reads the document `s`.
pub(crate) fn parse_chars(s: &[char], c: &ParserConfig) -> (r: Result<Parsed, Fault>)
    ensures
        match r {
            Ok(p) => parsed(s@, c@) is Ok && is_parse_of(p, parsed(s@, c@)->Ok_0) && parsed(
                s@,
                c@,
            )->Ok_0.text == s@,
            Err(f) => parsed(s@, c@) == Err::<DocumentModel, FaultModel>(f@) && f.at <= s@.len(),
        },
{
    let prolog = match parse_prolog(s, c, true) {
        Err(f) => {
            return Err(f);
        },
        Ok(p) => p,
    };
    let mut nodes: Vec<FlatNode> = Vec::new();
    let mut attributes: Vec<FlatAttribute> = Vec::new();
    let table = EntityTable {
        declared: &prolog.entities,
        policy: c.entity_expansion_policy(),
        version: prolog.version,
    };
    let end: usize = match read_element(
        s,
        prolog.at,
        c,
        prolog.version,
        &table,
        1,
        0,
        &mut nodes,
        &mut attributes,
    ) {
        Err(f) => {
            return Err(f);
        },
        Ok((end, _)) => end,
    };
    proof {
        let t = table_resolver(
            prolog@.entities,
            c@.entity_expansion,
            prolog.version,
        );
        assert(table.resolver() == t);
        let empty: Seq<FlatNode> = Seq::empty();
        let none: Seq<FlatAttribute> = Seq::empty();
        assert(flat_models(empty) =~= Seq::empty());
        assert(raw_attributes(none) =~= Seq::empty());
        let root = element(s@, prolog.at as int, c@, prolog.version, t, 1, 0)->Ok_0.0;
        assert(flat_models(nodes@) =~= flat_tree(root, 0, 0));
        assert(raw_attributes(attributes@) =~= tree_attributes(root));
    }
    let mut after: Vec<XmlNode> = Vec::new();
    proof {
        assert(node_models(after@) =~= Seq::<NodeModel>::empty());
    }
    let k: usize = match parse_misc(s, end, c, prolog.version, &mut after) {
        Err(f) => {
            return Err(f);
        },
        Ok(k) => k,
    };
    if k < s.len() {
        return Err(Fault { kind: XmlErrorKind::TrailingContent, at: k });
    }
    Ok(Parsed { prolog, nodes, attributes, after })
}

/// Replaces the references of `s` to declared entities, if there are any.
pub(crate) fn expand_chars(s: &[char], c: &ParserConfig, strict: bool) -> (r: Result<
    Option<(Vec<char>, Vec<usize>)>,
    Fault,
>)
    ensures
        match r {
            Ok(Some((t, places))) => expanded_text(s@, c@, strict) == Ok::<
                Option<Expanded>,
                FaultModel,
            >(Some(Expanded { text: t@, places: place_list(places@) })) && places_within(
                place_list(places@),
                s@.len() as int,
            ),
            Ok(None) => expanded_text(s@, c@, strict) == Ok::<Option<Expanded>, FaultModel>(None),
            Err(f) => expanded_text(s@, c@, strict) == Err::<Option<Expanded>, FaultModel>(f@)
                && f.at <= s@.len(),
        },
{
    match parse_prolog(s, c, strict) {
        Err(f) => Err(f),
        Ok(p) => expand_document_tail(
            s,
            p.at,
            &p.entities,
            c.entity_expansion_policy(),
            p.version,
        ),
    }
}

} // verus!
