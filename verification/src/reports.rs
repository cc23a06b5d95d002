//! Where faults are reported, and what declarations keep as it is written.

use vstd::prelude::*;
use vstd::utf8::valid_utf8;

use crate::document::{doctype_subset, subset_close, xml_declaration};
use crate::dom::XmlNode;
use crate::dom_api::held_text;
use crate::dtd::{
    entity_value_from, kept_control, literal_reference_end, parameter_reference_end,
    subset_entities, EntityDeclarationModel,
};
use crate::encoding::{text_of, valid_up_to, XmlInputEncoding};
use crate::entities::{chain_length, graph_fault_from};
use crate::error::{ErrorKindModel, ErrorModel, FaultModel};
use crate::facade::{target, StateModel};
use crate::flat::lexeme_at;
use crate::forms::lemma_at;
use crate::handle::{DomErrorModel, HandleModel, OutputErrorModel};
use crate::lexeme::{
    lexeme_value, numeric_reference, CompactLexemeKind, XmlAttributeWhitespacePolicy, XmlVersion,
};
use crate::output::{handle_output, inner_output, node_output};
use crate::scan::space_end;
use crate::serialize::XmlSerializeOptions;
use crate::syntax::{name_part, name_start, valid_name};
use crate::text::{byte_offset, find_from, starts_at};
use crate::tree::TreeModel;
use crate::unescape::{lemma_find_char, lemma_name_read, lemma_starts_char, lemma_starts_split};

verus! {

/// The entities of a document have a fault if one of them has, and the first that has counts.
pub proof fn lemma_first_faulty_entity(d: Seq<EntityDeclarationModel>, k: int)
    requires
        0 <= k < d.len(),
        forall|i: int| 0 <= i < k ==> chain_length(d, (#[trigger] d[i]).name, 128) is Ok,
    ensures
        chain_length(d, d[k].name, 128) matches Err(e) ==> graph_fault_from(d, 0) == Some(e),
        chain_length(d, d[k].name, 128) is Ok && k + 1 == d.len() ==> graph_fault_from(d, 0)
            is None,
        graph_fault_from(Seq::empty(), 0) is None,
{
    lemma_graph_to(d, 0, k);
    assert(graph_fault_from(d, k + 1) is None || k + 1 < d.len());
}

proof fn lemma_graph_to(d: Seq<EntityDeclarationModel>, i: int, k: int)
    requires
        0 <= i <= k < d.len(),
        forall|i: int| 0 <= i < k ==> chain_length(d, (#[trigger] d[i]).name, 128) is Ok,
    ensures
        graph_fault_from(d, i) == graph_fault_from(d, k),
    decreases k - i,
{
    if i < k {
        lemma_graph_to(d, i + 1, k);
    }
}

/// Bytes that are no UTF-8 are reported behind the longest start of them that is.
pub proof fn lemma_broken_utf8(b: Seq<u8>, skip: int, k: int)
    requires
        0 <= skip <= b.len(),
        0 <= k <= b.len() - skip,
        valid_utf8(b.skip(skip).take(k)),
        forall|j: int| k < j <= b.len() - skip ==> !valid_utf8(#[trigger] b.skip(skip).take(j)),
    ensures
        k < b.len() - skip ==> text_of(b, XmlInputEncoding::Utf8, skip) == Err::<
            Seq<char>,
            ErrorModel,
        >(ErrorModel { kind: ErrorKindModel::InvalidCharacter, byte: skip + k }),
        k == b.len() - skip ==> text_of(b, XmlInputEncoding::Utf8, skip) is Ok,
{
    let tail = b.skip(skip);
    let n = tail.len() as int;
    assert(tail.take(n) =~= tail);
    lemma_valid_up_to(tail, n, k);
}

proof fn lemma_valid_up_to(b: Seq<u8>, n: int, k: int)
    requires
        0 <= k <= n <= b.len(),
        valid_utf8(b.take(k)),
        forall|j: int| k < j <= n ==> !valid_utf8(#[trigger] b.take(j)),
    ensures
        valid_up_to(b, n) == k,
    decreases n - k,
{
    if k < n {
        assert(!valid_utf8(b.take(n)));
        lemma_valid_up_to(b, n - 1, k);
    }
}

/// What is written of a node is its own text, or that of what it holds; a handle that is refused is
/// refused as such.
pub proof fn lemma_output_of_a_handle(
    s: StateModel,
    h: HandleModel,
    t: TreeModel,
    options: XmlSerializeOptions,
)
    ensures
        target(s, h) == Ok::<TreeModel, DomErrorModel>(t) ==> {
            &&& handle_output(s, h, options, false) == node_output(s, t, options)
            &&& handle_output(s, h, options, true) == inner_output(s, t, options)
        },
        target(s, h) matches Err(e) ==> {
            &&& handle_output(s, h, options, false) == Err::<Seq<char>, OutputErrorModel>(
                OutputErrorModel::Dom(e),
            )
            &&& handle_output(s, h, options, true) == Err::<Seq<char>, OutputErrorModel>(
                OutputErrorModel::Dom(e),
            )
        },
{
}

/// A fault in a value is reported where it stands in the text of the document.
pub proof fn lemma_faults_in_values(
    s: Seq<char>,
    p: (int, int),
    kind: CompactLexemeKind,
    v: XmlVersion,
    policy: XmlAttributeWhitespacePolicy,
)
    ensures
        lexeme_at(s, p, kind, v, policy) == (match lexeme_value(
            s.subrange(p.0, p.1),
            kind,
            v,
            policy,
        ) {
            Ok(x) => Ok::<Seq<char>, ErrorModel>(x),
            Err(f) => Err(
                ErrorModel { kind: f.kind, byte: byte_offset(s, p.0 + f.at) as int },
            ),
        }),
{
}

/// A fault in an internal subset is reported where it stands in the document; the subset is the
/// text between the brackets.
pub proof fn lemma_faults_in_subsets(s: Seq<char>, i: int, k: int, v: XmlVersion)
    requires
        0 <= i < s.len(),
        s[i] == '[',
        subset_close(s, i + 1, None) == Ok::<int, FaultModel>(k),
    ensures
        doctype_subset(s, i, v) == (match subset_entities(s.subrange(i + 1, k), v) {
            Ok(d) => Ok::<
                (Option<Seq<char>>, Seq<EntityDeclarationModel>, int),
                FaultModel,
            >((Some(s.subrange(i + 1, k)), d, k + 1)),
            Err(f) => Err(FaultModel { kind: f.kind, at: 1 + i + f.at }),
        }),
{
}

/// An XML declaration that says nothing that is known is reported behind it, and one that is not
/// closed where its settings start.
pub proof fn lemma_broken_declarations(s: Seq<char>, i: int, end: int)
    requires
        0 <= i,
    ensures
        ({
            let d = space_end(s, i + 5);
            &&& find_from(s, d, "?>"@) is None ==> xml_declaration(s, i) == Err::<
                (int, int, XmlVersion),
                FaultModel,
            >(FaultModel { kind: ErrorKindModel::UnexpectedEof, at: d })
            &&& find_from(s, d, "?>"@) == Some(end) ==> xml_declaration(s, i) == (
            match crate::declaration::declared_version(s.subrange(d, end)) {
                Some(v) => Ok::<(int, int, XmlVersion), FaultModel>((d, end, v)),
                None => Err(
                    FaultModel { kind: ErrorKindModel::InvalidXmlDeclaration, at: end + 2 },
                ),
            })
        }),
{
}

/// In the text of an entity a character reference is replaced where it is declared, but for the
/// control characters of XML 1.1; a reference to another entity is kept.
pub proof fn lemma_entity_texts(
    t: Seq<char>,
    i: int,
    n: Seq<char>,
    v: XmlVersion,
    base: int,
    out: Seq<char>,
)
    requires
        0 <= i < t.len(),
        forall|k: int| 0 <= k < n.len() ==> #[trigger] n[k] != ';',
    ensures
        t[i] != '&' || (i + 1 < t.len() && t[i + 1] != '#') ==> entity_value_from(
            t,
            i,
            v,
            base,
            out,
        ) == entity_value_from(t, i + 1, v, base, out.push(t[i])),
        starts_at(t, i, seq!['&', '#'] + (n + seq![';'])) ==> ({
            let c = if n.len() > 0 && n[0] == 'x' {
                numeric_reference(n.skip(1), 16, v)
            } else {
                numeric_reference(n, 10, v)
            };
            let end = 3int + i + n.len();
            entity_value_from(t, i, v, base, out) == (match c {
                None => Err::<Seq<char>, FaultModel>(
                    FaultModel { kind: ErrorKindModel::InvalidCharacterReference, at: base + i },
                ),
                Some(x) => if v == XmlVersion::Xml11 && kept_control(x) {
                    entity_value_from(
                        t,
                        end,
                        v,
                        base,
                        out + (seq!['&', '#'] + (n + seq![';'])),
                    )
                } else {
                    entity_value_from(t, end, v, base, out.push(x))
                },
            })
        }),
{
    reveal_strlit("&#");
    assert("&#"@ =~= seq!['&', '#']);
    if starts_at(t, i, "&#"@) {
        lemma_at(t, i, "&#"@);
        assert(t[i] == "&#"@[0]);
        assert(t[i + 1] == "&#"@[1]);
    }
    let whole = seq!['&', '#'] + (n + seq![';']);
    if starts_at(t, i, whole) {
        lemma_at(t, i, whole);
        lemma_starts_split(t, i, seq!['&', '#'], n + seq![';']);
        lemma_starts_split(t, i + 2, n, seq![';']);
        lemma_at(t, i + 2, n);
        let e = i + 2 + n.len();
        lemma_starts_char(t, e, ';');
        assert forall|k: int| i + 2 <= k < e implies #[trigger] t[k] != ';' by {
            assert(t[k] == n[k - i - 2]);
        }
        lemma_find_char(t, i + 2, e, ';');
        assert(t.subrange(i, e + 1) =~= whole);
        if n.len() > 0 {
            assert(n.subrange(1, n.len() as int) =~= n.skip(1));
        }
    }
}

/// References in the text of an entity need not be declared: a name between their marks is enough.
pub proof fn lemma_references_in_declarations(s: Seq<char>, i: int, n: Seq<char>, v: XmlVersion)
    requires
        valid_name(n),
    ensures
        starts_at(s, i, seq!['&'] + (n + seq![';'])) ==> literal_reference_end(s, i, v) == Ok::<
            int,
            FaultModel,
        >(2int + i + n.len()),
        starts_at(s, i, seq!['%'] + (n + seq![';'])) ==> parameter_reference_end(s, i) == Ok::<
            int,
            FaultModel,
        >(2int + i + n.len()),
{
    reveal_strlit("&");
    reveal_strlit("%");
    reveal_strlit("#");
    reveal_strlit(";");
    assert("&"@ =~= seq!['&']);
    assert("%"@ =~= seq!['%']);
    assert("#"@ =~= seq!['#']);
    assert(";"@ =~= seq![';']);
    lemma_starts_split(s, i, seq!['&'], n + seq![';']);
    lemma_starts_split(s, i, seq!['%'], n + seq![';']);
    lemma_starts_split(s, i + 1, n, seq![';']);
    if starts_at(s, i + 1, n) && starts_at(s, i + 1 + n.len(), seq![';']) {
        lemma_at(s, i + 1, n);
        lemma_starts_char(s, i + 1 + n.len(), ';');
        lemma_starts_char(s, i + 1, '#');
        assert(s[i + 1] == n[0]);
        lemma_marks(n[0]);
        lemma_name_read(s, i + 1, n);
    }
}

proof fn lemma_marks(c: char)
    ensures
        name_start(c) ==> c != '#',
        !name_part(';'),
{
}

/// The text that a node outside of a document holds.
pub proof fn lemma_held_texts(n: XmlNode)
    ensures
        n matches XmlNode::Text(t) ==> held_text(n) == t@,
        n matches XmlNode::Cdata(t) ==> held_text(n) == t@,
{
}

} // verus!
