//! The characters of XML, one class after the other, and the names that are made of them.

use vstd::prelude::*;

use crate::changes::empty_element;
use crate::compact::compact_parse;
use crate::config::preserving_config;
use crate::dom::{ElementModel, NodeModel};
use crate::facade::{opened, root_name_fault};
use crate::lexeme::XmlVersion;
use crate::mutation::{name_fault, node_fault, text_fault, tree_char, MutationModel};
use crate::replay::lone;
use crate::saving::{lemma_opened_root, same_root};
use crate::serialize::{
    attributes_text, declaration_text, default_options, document_text, node_text, nodes_text,
    prolog_text,
};
use crate::syntax::{
    name_part, name_start, pubid_char, space, valid_name, xml10_char, xml11_char, xml11_literal,
    xml_target,
};
use crate::text::byte_len;

verus! {

/// The characters that start a name: a colon, an underscore, the letters, and the ranges beyond
/// ASCII that the production `NameStartChar` lists.
pub proof fn lemma_name_start_characters(c: char)
    ensures
        name_start(c) <==> {
            ||| c == ':' || c == '_'
            ||| ('A' <= c && c <= 'Z') || ('a' <= c && c <= 'z')
            ||| ('\u{c0}' <= c && c <= '\u{2ff}' && c != '\u{d7}' && c != '\u{f7}')
            ||| ('\u{370}' <= c && c <= '\u{1fff}' && c != '\u{37e}')
            ||| c == '\u{200c}' || c == '\u{200d}'
            ||| ('\u{2070}' <= c && c <= '\u{218f}')
            ||| ('\u{2c00}' <= c && c <= '\u{2fef}')
            ||| ('\u{3001}' <= c && c <= '\u{d7ff}')
            ||| ('\u{f900}' <= c && c <= '\u{fdcf}')
            ||| ('\u{fdf0}' <= c && c <= '\u{fffd}')
            ||| ('\u{10000}' <= c && c <= '\u{effff}')
        },
{
}

/// The characters that continue a name: those that start one, a hyphen, a full stop, the digits,
/// the middle dot, and the combining marks and ties that the production `NameChar` adds.
pub proof fn lemma_name_characters(c: char)
    ensures
        name_start(c) ==> name_part(c),
        c == '.' ==> name_part(c),
        c == '-' ==> name_part(c),
        '0' <= c && c <= '9' ==> name_part(c),
        c == '\u{b7}' ==> name_part(c),
        '\u{300}' <= c && c <= '\u{36f}' ==> name_part(c),
        c == '\u{203f}' || c == '\u{2040}' ==> name_part(c),
        name_part(c) && c < '\u{80}' ==> (c == '-' || c == '.' || c == ':' || c == '_' || ('0' <= c
            && c <= '9') || ('A' <= c && c <= 'Z') || ('a' <= c && c <= 'z')),
        name_part(c) ==> (name_start(c) || c == '-' || c == '.' || ('0' <= c && c <= '9') || c
            == '\u{b7}' || ('\u{300}' <= c && c <= '\u{36f}') || c == '\u{203f}' || c
            == '\u{2040}'),
{
}

/// White space is the space, the tab and the two line ends; none of them is part of a name.
pub proof fn lemma_space_characters(c: char)
    ensures
        space(c) <==> (c == '\u{20}' || c == '\u{9}' || c == '\u{a}' || c == '\u{d}'),
        space(c) ==> !name_part(c) && pubid_char(c) == (c != '\t') && xml10_char(c)
            && xml11_literal(c),
{
}

/// The characters of a document. XML 1.0 refuses the controls other than tab, line feed and
/// carriage return, and the last two codes of the first plane. XML 1.1 refuses only the null
/// character and those two; of the controls it takes tab, the line ends and U+85 literally, the
/// others by reference.
pub proof fn lemma_document_characters(c: char)
    ensures
        xml10_char(c) <==> {
            &&& c >= ' ' || c == '\t' || c == '\n' || c == '\r'
            &&& c != '\u{fffe}' && c != '\u{ffff}'
        },
        xml11_char(c) <==> c != '\0' && c != '\u{fffe}' && c != '\u{ffff}',
        xml11_literal(c) <==> {
            &&& xml10_char(c)
            &&& !('\u{7f}' <= c && c <= '\u{9f}') || c == '\u{85}'
        },
        name_part(c) ==> xml10_char(c) && xml11_literal(c),
        tree_char(c) <==> xml10_char(c),
{
}

/// The characters of a public identifier: letters, digits, the space, the line ends, and twenty
/// marks.
pub proof fn lemma_public_identifier_characters(c: char)
    ensures
        pubid_char(c) <==> {
            ||| ('a' <= c && c <= 'z') || ('A' <= c && c <= 'Z') || ('0' <= c && c <= '9')
            ||| seq![
                ' ', '\r', '\n', '-', '\'', '(', ')', '+', ',', '.', '/', ':', '=', '?', ';', '!',
                '*', '#', '@', '$', '_', '%',
            ].contains(c)
        },
{
    let marks = seq![
        ' ', '\r', '\n', '-', '\'', '(', ')', '+', ',', '.', '/', ':', '=', '?', ';', '!', '*',
        '#', '@', '$', '_', '%',
    ];
    if pubid_char(c) && !(('a' <= c && c <= 'z') || ('A' <= c && c <= 'Z') || ('0' <= c && c
        <= '9')) {
        assert(marks[0] == c || marks[1] == c || marks[2] == c || marks[3] == c || marks[4] == c
            || marks[5] == c || marks[6] == c || marks[7] == c || marks[8] == c || marks[9] == c
            || marks[10] == c || marks[11] == c || marks[12] == c || marks[13] == c || marks[14]
            == c || marks[15] == c || marks[16] == c || marks[17] == c || marks[18] == c
            || marks[19] == c || marks[20] == c || marks[21] == c);
    }
    if marks.contains(c) {
        let i = choose|i: int| 0 <= i < marks.len() && marks[i] == c;
        assert(pubid_char(marks[i]));
    }
}

/// One character is a name if it can start one, a name stays one with every character that can
/// continue it, and with no other, and what starts a name is a name.
pub proof fn lemma_names_grow(n: Seq<char>, c: char)
    ensures
        !valid_name(Seq::empty()),
        valid_name(seq![c]) <==> name_start(c),
        n.len() > 0 ==> (valid_name(n.push(c)) <==> valid_name(n) && name_part(c)),
{
    let m = n.push(c);
    if n.len() > 0 {
        assert(m[0] == n[0]);
        assert(m[n.len() as int] == c);
        if valid_name(m) {
            assert forall|i: int| 0 <= i < n.len() implies name_part(#[trigger] n[i]) by {
                assert(m[i] == n[i]);
            }
        }
        if valid_name(n) && name_part(c) {
            assert forall|i: int| 0 <= i < m.len() implies name_part(#[trigger] m[i]) by {
                if i < n.len() {
                    assert(m[i] == n[i]);
                }
            }
        }
    }
    let one = seq![c];
    assert(one[0] == c);
}

/// An element, a document and a renamed node take exactly the names; a root name has room in a
/// source besides.
pub proof fn lemma_names_are_taken(n: Seq<char>)
    ensures
        name_fault(n) == (if valid_name(n) {
            None
        } else {
            Some(MutationModel::InvalidName(n))
        }),
        node_fault(empty_element(n)) == name_fault(n),
        root_name_fault(n) is None <==> valid_name(n) && byte_len(n) <= u32::MAX,
{
    lemma_first_other(n, 1);
    if root_name_fault(n) is None {
        assert forall|i: int| 0 <= i < n.len() implies name_part(#[trigger] n[i]) by {
            if i == 0 {
                lemma_name_characters(n[0]);
            }
        }
    }
}

/// A character that cannot continue a name is found if there is one.
proof fn lemma_first_other(n: Seq<char>, k: int)
    requires
        0 <= k,
    ensures
        match crate::facade::first_other(n, k) {
            Some(i) => k <= i < n.len() && !name_part(n[i]),
            None => forall|i: int| k <= i < n.len() ==> name_part(#[trigger] n[i]),
        },
    decreases n.len() - k,
{
    if k < n.len() && name_part(n[k]) {
        lemma_first_other(n, k + 1);
    }
}

/// The text that a tree takes: every character but the controls other than tab and line ends, and
/// the last two codes of the first plane.
pub proof fn lemma_texts_are_taken(s: Seq<char>)
    ensures
        text_fault(s) is None <==> forall|i: int|
            0 <= i < s.len() ==> xml10_char(#[trigger] s[i]),
        text_fault(s) is Some ==> text_fault(s) == Some(MutationModel::InvalidCharacter),
        node_fault(NodeModel::Text(s)) == text_fault(s),
        node_fault(NodeModel::Cdata(s)) == text_fault(s),
{
    assert forall|i: int| 0 <= i < s.len() implies tree_char(#[trigger] s[i]) == xml10_char(
        s[i],
    ) by {
        lemma_document_characters(s[i]);
    }
    if text_fault(s) is Some {
        let i = choose|i: int| 0 <= i < s.len() && !tree_char(#[trigger] s[i]);
        assert(!xml10_char(s[i]));
    }
}

/// The targets that no instruction may have are `xml` in all mixtures of cases.
pub proof fn lemma_reserved_targets(s: Seq<char>)
    ensures
        xml_target("xml"@),
        xml_target("XML"@),
        xml_target("Xml"@),
        xml_target(s) <==> {
            &&& s.len() == 3
            &&& s[0] == 'x' || s[0] == 'X'
            &&& s[1] == 'm' || s[1] == 'M'
            &&& s[2] == 'l' || s[2] == 'L'
        },
{
    reveal_strlit("xml");
    reveal_strlit("XML");
    reveal_strlit("Xml");
}

/// An empty-element tag with a name is a document: its root has the name and nothing else.
pub proof fn lemma_lone_tag_parses(n: Seq<char>, lineage: u64, document: u64, verbatim: bool)
    requires
        valid_name(n),
        byte_len(seq!['<'] + n + "/>"@) <= u32::MAX,
    ensures
        compact_parse(seq!['<'] + n + "/>"@, preserving_config()) matches Ok(m) && same_root(
            NodeModel::Element(
                ElementModel { name: n, attributes: Seq::empty(), children: Seq::empty() },
            ),
            opened(m, preserving_config(), lineage, document, verbatim),
        ),
{
    let root = empty_element(n);
    let d = lone(root);
    let o = default_options();
    assert(crate::readback::writable(root, 1, XmlVersion::Xml10)) by {
        assert(crate::readback::no_adjacent_texts(Seq::empty()));
        assert(crate::readback::writable_attributes(Seq::empty(), XmlVersion::Xml10));
    }
    assert(document_text(d, o) == seq!['<'] + n + "/>"@) by {
        lemma_lone_tag_text(n);
    }
    lemma_opened_root(d, o, lineage, document, verbatim);
}

/// What is written for a document that is one empty element.
proof fn lemma_lone_tag_text(n: Seq<char>)
    ensures
        document_text(lone(empty_element(n)), default_options()) == seq!['<'] + n + "/>"@,
{
    let root = empty_element(n);
    let q = default_options().quote_style;
    assert(attributes_text(Seq::empty(), 0, q) =~= Seq::<char>::empty());
    assert(nodes_text(Seq::empty(), 0, q) =~= Seq::<char>::empty());
    assert(node_text(root, q) =~= seq!['<'] + n + "/>"@);
    assert(prolog_text(lone(root), q) =~= Seq::<char>::empty()) by {
        assert(Seq::<NodeModel>::empty().take(0) =~= Seq::<NodeModel>::empty());
        assert(Seq::<NodeModel>::empty().skip(0) =~= Seq::<NodeModel>::empty());
    }
    assert(declaration_text(None, default_options()) =~= Seq::<char>::empty());
    assert(document_text(lone(root), default_options()) =~= node_text(root, q));
}

} // verus!
